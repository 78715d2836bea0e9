use gfind::branch::BranchFreshness;
use gfind::branch::BranchMatches;
use gfind::branch::BranchRef;
use gfind::branch::BranchRefKind;
use gfind::branch::BranchUpstreamStatus;
use gfind::branch::branch_commit_hash;
use gfind::branch::branch_report;
use gfind::branch::current_branch;
use gfind::branch::display_hash;
use gfind::branch::format_branch_freshness;
use gfind::branch::format_branch_upstream_status;
use gfind::branch::format_upstream;
use gfind::branch::freshness_from_counts;
use gfind::branch::local_branch_ref;
use gfind::branch::matching_branch_refs;
use gfind::branch::origin_status;
use gfind::branch::parse_ahead_behind;
use gfind::branch::parse_ls_remote_hash;
use gfind::branch::printable_branch_ref;
use gfind::branch::rev_parse_hash_flag;
use gfind::branch::symmetric_range;
use gfind::branch::tracking_status;
use gfind::branch::upstream_ref;
use gfind::config::BranchHash;
use gfind::config::BranchSearch;
use gfind::query::QueryMatcher;
use gfind::query::QueryMode;
use gfind::style::OutputStyle;

#[test]
fn matches_local_branches_by_exact_name() {
    let matcher = QueryMatcher::new("feature/search", QueryMode::Exact).unwrap();
    let non_matcher = QueryMatcher::new("search", QueryMode::Exact).unwrap();

    assert_eq!(
        printable_branch_ref("refs/heads/feature/search", &matcher, BranchRefKind::Local),
        Some(BranchRef {
            name: "feature/search".to_string(),
            commit_hash: None,
            upstream_status: None,
        })
    );
    assert_eq!(
        printable_branch_ref("refs/heads/feature/search", &non_matcher, BranchRefKind::Local),
        None
    );
}

#[test]
fn parses_branch_refs_with_hashes() {
    let feature_matcher = QueryMatcher::new("feature/search", QueryMode::Exact).unwrap();
    let main_matcher = QueryMatcher::new("main", QueryMode::Exact).unwrap();

    assert_eq!(
        printable_branch_ref("refs/heads/feature/search\tabc1234", &feature_matcher, BranchRefKind::Local),
        Some(BranchRef {
            name: "feature/search".to_string(),
            commit_hash: Some("abc1234".to_string()),
            upstream_status: None,
        })
    );
    assert_eq!(
        printable_branch_ref("refs/remotes/origin/main\tdef5678", &main_matcher, BranchRefKind::Remote),
        Some(BranchRef {
            name: "origin/main".to_string(),
            commit_hash: Some("def5678".to_string()),
            upstream_status: None,
        })
    );
}

#[test]
fn matches_remote_branches_without_remote_name() {
    let feature_matcher = QueryMatcher::new("feature/search", QueryMode::Exact).unwrap();
    let main_matcher = QueryMatcher::new("main", QueryMode::Exact).unwrap();

    assert_eq!(
        printable_branch_ref("refs/remotes/origin/feature/search", &feature_matcher, BranchRefKind::Remote),
        Some(BranchRef {
            name: "origin/feature/search".to_string(),
            commit_hash: None,
            upstream_status: None,
        })
    );
    assert_eq!(
        printable_branch_ref("refs/remotes/upstream/main", &main_matcher, BranchRefKind::Remote),
        Some(BranchRef {
            name: "upstream/main".to_string(),
            commit_hash: None,
            upstream_status: None,
        })
    );
}

#[test]
fn remote_refs_need_a_remote_and_local_refs_their_prefix() {
    let main_matcher = QueryMatcher::new("main", QueryMode::Contains).unwrap();
    assert_eq!(printable_branch_ref("refs/remotes/main", &main_matcher, BranchRefKind::Remote), None);
    assert_eq!(printable_branch_ref("refs/remotes/origin/main", &main_matcher, BranchRefKind::Local), None);
    assert_eq!(printable_branch_ref("refs/heads/main", &main_matcher, BranchRefKind::Remote), None);
}

#[test]
fn formats_branch_upstream_status() {
    assert_eq!(format_branch_upstream_status(&BranchUpstreamStatus::NoUpstream), "no upstream");
    assert_eq!(
        format_branch_upstream_status(&BranchUpstreamStatus::Origin {
            remote: "origin/main".to_string(),
            remote_hash: Some("abc1234".to_string()),
            freshness: BranchFreshness::Different,
        }),
        "differs from origin/main @ abc1234"
    );
    assert_eq!(
        format_branch_upstream_status(&BranchUpstreamStatus::Tracking {
            upstream: "origin/main".to_string(),
            upstream_hash: Some("abc1234".to_string()),
            ahead: 0,
            behind: 0,
        }),
        "up-to-date with origin/main @ abc1234"
    );
    assert_eq!(
        format_branch_upstream_status(&BranchUpstreamStatus::Tracking {
            upstream: "origin/main".to_string(),
            upstream_hash: None,
            ahead: 2,
            behind: 1,
        }),
        "ahead 2, behind 1 vs origin/main"
    );
}

#[test]
fn formats_every_freshness() {
    assert_eq!(format_branch_freshness(&BranchFreshness::UpToDate), "up-to-date with");
    assert_eq!(format_branch_freshness(&BranchFreshness::Ahead(3)), "ahead 3 of");
    assert_eq!(format_branch_freshness(&BranchFreshness::Behind(40)), "behind 40 from");
    assert_eq!(
        format_branch_freshness(&BranchFreshness::Diverged { ahead: 1, behind: 2 }),
        "ahead 1, behind 2 vs"
    );
    assert_eq!(format_branch_freshness(&BranchFreshness::Different), "differs from");
    assert_eq!(format_upstream("origin/dev", &None), "origin/dev");
    assert_eq!(format_upstream("origin/dev", &Some("abc".to_string())), "origin/dev @ abc");
}

#[test]
fn tracking_and_origin_statuses_read_alike() {
    for (ahead, behind) in [(0u32, 0u32), (5, 0), (0, 7), (3, 4)] {
        let tracking = format_branch_upstream_status(&BranchUpstreamStatus::Tracking {
            upstream: "origin/main".to_string(),
            upstream_hash: Some("abc".to_string()),
            ahead,
            behind,
        });
        let counts = format!("{ahead}\t{behind}\n");
        let freshness = freshness_from_counts(Some(counts.as_str()));
        let origin = format_branch_upstream_status(&BranchUpstreamStatus::Origin {
            remote: "origin/main".to_string(),
            remote_hash: Some("abc".to_string()),
            freshness,
        });
        assert_eq!(tracking, origin);
    }
    assert_eq!(
        format_branch_upstream_status(&BranchUpstreamStatus::Tracking {
            upstream: "u".to_string(),
            upstream_hash: None,
            ahead: 0,
            behind: 9,
        }),
        "behind 9 from u"
    );
}

#[test]
fn parses_ls_remote_hashes() {
    assert_eq!(
        parse_ls_remote_hash("abc1234\trefs/heads/main\n", "refs/heads/main"),
        Some("abc1234".to_string())
    );
    assert_eq!(parse_ls_remote_hash("abc1234\trefs/heads/other\n", "refs/heads/main"), None);
}

#[test]
fn ls_remote_takes_the_first_matching_line() {
    let output = "111\trefs/heads/other\n222\trefs/heads/main\n333\trefs/heads/main\n";
    assert_eq!(parse_ls_remote_hash(output, "refs/heads/main"), Some("222".to_string()));
    assert_eq!(parse_ls_remote_hash("", "refs/heads/main"), None);
}

#[test]
fn formats_display_hashes() {
    assert_eq!(display_hash("abcdef1234567890", BranchHash::Full), Some("abcdef1234567890".to_string()));
    assert_eq!(display_hash("abcdef1234567890", BranchHash::Short), Some("abcdef1".to_string()));
    assert_eq!(display_hash("abcdef1234567890", BranchHash::Omitted), None);
    assert_eq!(display_hash("abc", BranchHash::Short), Some("abc".to_string()));
}

#[test]
fn parses_ahead_behind_counts() {
    assert_eq!(parse_ahead_behind("2\t1\n"), Some((2, 1)));
    assert_eq!(parse_ahead_behind("0 0"), Some((0, 0)));
    assert_eq!(parse_ahead_behind("nope"), None);
}

#[test]
fn ahead_behind_counts_edge_cases() {
    assert_eq!(parse_ahead_behind("  +3 \n 4 extra"), Some((3, 4)));
    assert_eq!(parse_ahead_behind("1"), None);
    assert_eq!(parse_ahead_behind("4294967296 0"), None);
    assert_eq!(parse_ahead_behind("4294967295 0"), Some((4294967295, 0)));
}

#[test]
fn freshness_comes_from_counts() {
    assert_eq!(freshness_from_counts(None), BranchFreshness::Different);
    assert_eq!(freshness_from_counts(Some("x")), BranchFreshness::Different);
    assert_eq!(freshness_from_counts(Some("0\t0")), BranchFreshness::UpToDate);
    assert_eq!(freshness_from_counts(Some("2\t0")), BranchFreshness::Ahead(2));
    assert_eq!(freshness_from_counts(Some("0\t3")), BranchFreshness::Behind(3));
    assert_eq!(
        freshness_from_counts(Some("2\t3")),
        BranchFreshness::Diverged { ahead: 2, behind: 3 }
    );
}

#[test]
fn revision_texts_for_upstream_checks() {
    assert_eq!(upstream_ref("main"), "main@{upstream}");
    assert_eq!(symmetric_range("main", "origin/main"), "main...origin/main");
    assert_eq!(local_branch_ref("main"), "refs/heads/main");
    assert_eq!(rev_parse_hash_flag(BranchHash::Short), Some("--short"));
    assert_eq!(rev_parse_hash_flag(BranchHash::Full), Some("--verify"));
    assert_eq!(rev_parse_hash_flag(BranchHash::Omitted), None);
}

#[test]
fn tracking_status_from_counts() {
    assert_eq!(
        tracking_status("/r", "main", "origin/main", None, None).unwrap(),
        BranchUpstreamStatus::NoUpstream
    );
    assert_eq!(
        tracking_status("/r", "main", "origin/main", Some("abc".to_string()), Some("1\t0\n")).unwrap(),
        BranchUpstreamStatus::Tracking {
            upstream: "origin/main".to_string(),
            upstream_hash: Some("abc".to_string()),
            ahead: 1,
            behind: 0,
        }
    );
    let err = tracking_status("/r", "main", "origin/main", None, Some("garbage")).unwrap_err();
    assert_eq!(err.text(), "failed to parse upstream status for /r branch main");
}

#[test]
fn origin_status_names_the_origin_branch() {
    assert_eq!(
        origin_status("main", "abcdef1234567890", BranchHash::Short, BranchFreshness::Ahead(1)),
        BranchUpstreamStatus::Origin {
            remote: "origin/main".to_string(),
            remote_hash: Some("abcdef1".to_string()),
            freshness: BranchFreshness::Ahead(1),
        }
    );
}

#[test]
fn current_branch_and_hash_are_trimmed_output() {
    assert_eq!(current_branch(Some("main\n")), Some("main".to_string()));
    assert_eq!(current_branch(Some("  \n")), None);
    assert_eq!(current_branch(None), None);
    assert_eq!(branch_commit_hash(BranchHash::Full, Some(" abc123\n")), Some("abc123".to_string()));
    assert_eq!(branch_commit_hash(BranchHash::Omitted, Some("abc123")), None);
}

#[test]
fn matching_branch_refs_are_sorted_and_unique() {
    let matcher = QueryMatcher::new("a", QueryMode::Contains).unwrap();
    let output = "refs/heads/zeta\t1\nrefs/heads/alpha\t2\nrefs/heads/beta\t3\nrefs/heads/alpha\t2\nrefs/heads/other\t4\nrefs/heads/alpha\t0\n";
    let refs = matching_branch_refs(output, &matcher, BranchRefKind::Local);
    let names: Vec<(String, Option<String>)> = refs.iter().map(|r| (r.name.clone(), r.commit_hash.clone())).collect();
    assert_eq!(
        names,
        vec![
            ("alpha".to_string(), Some("0".to_string())),
            ("alpha".to_string(), Some("2".to_string())),
            ("beta".to_string(), Some("3".to_string())),
            ("zeta".to_string(), Some("1".to_string())),
        ]
    );
}

#[test]
fn matching_branch_refs_without_hashes_come_first() {
    let matcher = QueryMatcher::new("main", QueryMode::Contains).unwrap();
    let refs = matching_branch_refs("refs/heads/main\tabc\nrefs/heads/main\n", &matcher, BranchRefKind::Local);
    assert_eq!(refs.len(), 2);
    assert_eq!(refs[0].commit_hash, None);
    assert_eq!(refs[1].commit_hash, Some("abc".to_string()));
}

fn sample_matches() -> BranchMatches {
    BranchMatches {
        current: true,
        current_name: Some("main".to_string()),
        current_hash: Some("abc".to_string()),
        current_upstream_status: Some(BranchUpstreamStatus::NoUpstream),
        local: vec![BranchRef {
            name: "main".to_string(),
            commit_hash: Some("abc".to_string()),
            upstream_status: Some(BranchUpstreamStatus::Tracking {
                upstream: "origin/main".to_string(),
                upstream_hash: None,
                ahead: 0,
                behind: 0,
            }),
        }],
        remote: vec![BranchRef {
            name: "origin/main".to_string(),
            commit_hash: None,
            upstream_status: None,
        }],
    }
}

#[test]
fn branch_report_lists_local_branches_and_marks_current() {
    let matcher = QueryMatcher::new("main", QueryMode::Contains).unwrap();
    let style = OutputStyle { enabled: false };
    let matches = sample_matches();
    assert!(matches.has_matches(BranchSearch::Local));
    assert_eq!(
        branch_report("project", &matches, &matcher, BranchSearch::Local, &style),
        vec![
            "project".to_string(),
            "  local: main".to_string(),
            "    commit: abc".to_string(),
            "    status: up-to-date with origin/main".to_string(),
            "    current: yes".to_string(),
        ]
    );
    assert_eq!(
        branch_report("project", &matches, &matcher, BranchSearch::Current, &style),
        vec![
            "project".to_string(),
            "  current: main".to_string(),
            "    commit: abc".to_string(),
            "    status: no upstream".to_string(),
        ]
    );
    assert_eq!(
        branch_report("project", &matches, &matcher, BranchSearch::All, &style),
        vec![
            "project".to_string(),
            "  local: main".to_string(),
            "    commit: abc".to_string(),
            "    status: up-to-date with origin/main".to_string(),
            "    current: yes".to_string(),
            "  remote: origin/main".to_string(),
        ]
    );
}

#[test]
fn branch_report_is_empty_without_matches() {
    let matcher = QueryMatcher::new("main", QueryMode::Contains).unwrap();
    let style = OutputStyle { enabled: false };
    let matches = BranchMatches {
        current: false,
        current_name: Some("dev".to_string()),
        current_hash: None,
        current_upstream_status: None,
        local: Vec::new(),
        remote: Vec::new(),
    };
    assert!(!matches.has_matches(BranchSearch::All));
    assert!(branch_report("project", &matches, &matcher, BranchSearch::All, &style).is_empty());
}
