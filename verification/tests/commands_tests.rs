use gfind::branch::BranchRefKind;
use gfind::commands::BranchFlags;
use gfind::commands::BranchLookups;
use gfind::commands::BranchOutputOptions;
use gfind::commands::branch_lookups;
use gfind::commands::current_branch_matches;
use gfind::commands::for_each_ref_args;
use gfind::commands::query_matcher_for;
use gfind::commands::stash_show_flag;
use gfind::config::BranchHash;
use gfind::config::BranchSearch;
use gfind::config::ConfigFile;
use gfind::options::QueryOptions;
use gfind::query::QueryMatcher;
use gfind::query::QueryMode;

fn no_flags() -> BranchFlags {
    BranchFlags {
        commit_hash: false,
        short_commit_hash: false,
        no_commit_hash: false,
        upstream_status: false,
        no_upstream_status: false,
        origin_status: false,
        no_origin_status: false,
        current: false,
        local: false,
        remote: false,
        all: false,
    }
}

#[test]
fn branch_flags_combine_with_config() {
    let config = ConfigFile {
        branch_search: Some(BranchSearch::All),
        branch_hash: Some(BranchHash::Short),
        ..ConfigFile::default()
    };
    assert_eq!(
        no_flags().output_options(&config).unwrap(),
        BranchOutputOptions { search: BranchSearch::All, hash: BranchHash::Short, upstream_status: true, origin_status: false }
    );
    let mut flags = no_flags();
    flags.remote = true;
    flags.no_commit_hash = true;
    flags.no_upstream_status = true;
    flags.origin_status = true;
    assert_eq!(
        flags.output_options(&config).unwrap(),
        BranchOutputOptions { search: BranchSearch::Remote, hash: BranchHash::Omitted, upstream_status: false, origin_status: true }
    );
    flags.local = true;
    assert_eq!(
        flags.output_options(&config).unwrap_err().text(),
        "use only one of --current, --local, --remote, or --all"
    );
}

#[test]
fn branch_lookups_follow_search_and_options() {
    let options = BranchOutputOptions { search: BranchSearch::All, hash: BranchHash::Full, upstream_status: true, origin_status: false };
    assert_eq!(
        branch_lookups(&options, true),
        BranchLookups { current_hash: true, current_status: true, local: true, local_status: true, remote: true }
    );
    let current_only = BranchOutputOptions { search: BranchSearch::Current, hash: BranchHash::Omitted, upstream_status: false, origin_status: false };
    assert_eq!(
        branch_lookups(&current_only, true),
        BranchLookups { current_hash: false, current_status: false, local: false, local_status: false, remote: false }
    );
    let local = BranchOutputOptions { search: BranchSearch::Local, hash: BranchHash::Short, upstream_status: true, origin_status: false };
    let l = branch_lookups(&local, false);
    assert!(!l.current_hash && !l.current_status && l.local && !l.remote);
}

#[test]
fn current_branch_must_exist_and_match() {
    let matcher = QueryMatcher::new("main", QueryMode::Exact).unwrap();
    assert!(current_branch_matches(Some("main"), &matcher));
    assert!(!current_branch_matches(Some("dev"), &matcher));
    assert!(!current_branch_matches(None, &matcher));
}

#[test]
fn for_each_ref_arguments_by_kind_and_hash() {
    assert_eq!(
        for_each_ref_args(BranchRefKind::Local, BranchHash::Omitted),
        vec!["for-each-ref", "--format=%(refname)", "refs/heads"]
    );
    assert_eq!(
        for_each_ref_args(BranchRefKind::Remote, BranchHash::Short),
        vec!["for-each-ref", "--format=%(refname)%09%(objectname:short)", "refs/remotes"]
    );
    assert_eq!(
        for_each_ref_args(BranchRefKind::Local, BranchHash::Full),
        vec!["for-each-ref", "--format=%(refname)%09%(objectname)", "refs/heads"]
    );
}

#[test]
fn optional_queries_build_matchers() {
    let options = QueryOptions { query_mode: None, contains: false, exact: false, fuzzy: false, regex: true };
    assert!(query_matcher_for(None, &options, QueryMode::Contains).unwrap().is_none());
    let m = query_matcher_for(Some("^a+$"), &options, QueryMode::Contains).unwrap().unwrap();
    assert!(m.is_match("aaa"));
    assert!(!m.is_match("ab"));
    assert!(query_matcher_for(Some("["), &options, QueryMode::Contains).is_err());
    let plain = QueryOptions { query_mode: None, contains: false, exact: false, fuzzy: false, regex: false };
    let m = query_matcher_for(Some("["), &plain, QueryMode::Contains).unwrap().unwrap();
    assert!(m.is_match("a[b"));
}

#[test]
fn stash_contents_are_shown_with_print_or_patch() {
    assert_eq!(stash_show_flag(false, false), None);
    assert_eq!(stash_show_flag(true, false), Some("--stat"));
    assert_eq!(stash_show_flag(false, true), Some("--patch"));
    assert_eq!(stash_show_flag(true, true), Some("--patch"));
}
