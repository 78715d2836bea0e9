//! What the commands decide before and between their git calls.
use vstd::prelude::*;

use crate::branch::BranchRefKind;
use crate::config::BranchHash;
use crate::config::BranchSearch;
use crate::config::ConfigFile;
use crate::config::strings_view;
use crate::error::Error;
use crate::options::QueryOptions;
use crate::options::branch_hash_mode;
use crate::options::branch_hash_spec;
use crate::options::branch_origin_status;
use crate::options::branch_search_conflict_message;
use crate::options::branch_search_mode;
use crate::options::branch_search_spec;
use crate::options::branch_upstream_status;
use crate::options::count_set;
use crate::options::origin_status_spec;
use crate::options::query_mode;
use crate::options::query_mode_spec;
use crate::options::upstream_status_spec;
use crate::pattern::regex_new_error;
use crate::query::QueryMatcher;
use crate::query::QueryMode;
use crate::query::invalid_regex_message;
use crate::text::push_str;
use crate::text::string_of;

verus! {

/* Queries */

/// The matcher for an optional query in the mode the options choose (else the configured one):
/// none without a query, an error for a regex query that does not compile.
pub fn query_matcher_for(query: Option<&str>, options: &QueryOptions, configured: QueryMode) -> (r: Result<Option<QueryMatcher>, Error>)
    ensures
        match query {
            None => r matches Ok(None),
            Some(q) => {
                let mode = query_mode_spec(*options, configured).spec_normalized();
                &&& r is Err <==> (mode == QueryMode::Regex && regex_new_error(q@) is Some)
                &&& match r {
                    Ok(Some(m)) => m.query() == q@ && m.mode() == mode,
                    Ok(None) => false,
                    Err(e) => e.message() == invalid_regex_message(q@),
                }
            },
        },
{
    match query {
        None => Ok(None),
        Some(q) => {
            let mode = query_mode(options, configured);
            match QueryMatcher::new(q, mode) {
                Ok(m) => Ok(Some(m)),
                Err(e) => Err(e),
            }
        },
    }
}

/* The branch command */

/// The flags of the branch command that choose what is searched and shown.
pub struct BranchFlags {
    pub commit_hash: bool,
    pub short_commit_hash: bool,
    pub no_commit_hash: bool,
    pub upstream_status: bool,
    pub no_upstream_status: bool,
    pub origin_status: bool,
    pub no_origin_status: bool,
    pub current: bool,
    pub local: bool,
    pub remote: bool,
    pub all: bool,
}

/// What a branch search looks for and shows.
#[derive(Clone, Copy, Debug, PartialEq, Eq, Structural)]
pub struct BranchOutputOptions {
    pub search: BranchSearch,
    pub hash: BranchHash,
    pub upstream_status: bool,
    pub origin_status: bool,
}

impl BranchFlags {
    /// What the flags and the configuration select: an error when more than one search flag is
    /// given; otherwise each setting from its flags, else from the configuration.
    pub fn output_options(&self, config: &ConfigFile) -> (r: Result<BranchOutputOptions, Error>)
        ensures
            r is Err <==> count_set(self.current, self.local, self.remote, self.all) > 1,
            match r {
                Ok(o) => {
                    &&& o.search == branch_search_spec(self.current, self.local, self.remote, self.all, *config)
                    &&& o.hash == branch_hash_spec(self.commit_hash, self.short_commit_hash, self.no_commit_hash, *config)
                    &&& o.upstream_status == upstream_status_spec(self.upstream_status, self.no_upstream_status, *config)
                    &&& o.origin_status == origin_status_spec(self.origin_status, self.no_origin_status, *config)
                },
                Err(e) => e.message() == branch_search_conflict_message(),
            },
    {
        let search = match branch_search_mode(self.current, self.local, self.remote, self.all, config) {
            Ok(s) => s,
            Err(e) => return Err(e),
        };
        Ok(BranchOutputOptions {
            search,
            hash: branch_hash_mode(self.commit_hash, self.short_commit_hash, self.no_commit_hash, config),
            upstream_status: branch_upstream_status(self.upstream_status, self.no_upstream_status, config),
            origin_status: branch_origin_status(self.origin_status, self.no_origin_status, config),
        })
    }
}

/// Which git lookups a repository's branch search makes.
#[derive(Clone, Copy, Debug, PartialEq, Eq, Structural)]
pub struct BranchLookups {
    /// The hash of the checked out branch.
    pub current_hash: bool,
    /// The upstream status of the checked out branch.
    pub current_status: bool,
    /// The matching local branches.
    pub local: bool,
    /// The upstream status of each matching local branch.
    pub local_status: bool,
    /// The matching remote branches.
    pub remote: bool,
}

/// The lookups: the hash and status of the checked out branch only when it matched (and hashes
/// or statuses are shown); local branches for `local` and `all`, with their statuses when they
/// are shown; remote branches for `remote` and `all`.
pub open spec fn branch_lookups_spec(options: BranchOutputOptions, current_matches: bool) -> BranchLookups {
    BranchLookups {
        current_hash: current_matches && options.hash != BranchHash::Omitted,
        current_status: current_matches && options.upstream_status,
        local: options.search == BranchSearch::Local || options.search == BranchSearch::All,
        local_status: options.upstream_status,
        remote: options.search == BranchSearch::Remote || options.search == BranchSearch::All,
    }
}

/// The lookups a branch search makes, given whether the checked out branch matched.
pub fn branch_lookups(options: &BranchOutputOptions, current_matches: bool) -> (r: BranchLookups)
    ensures
        r == branch_lookups_spec(*options, current_matches),
{
    BranchLookups {
        current_hash: current_matches && options.hash != BranchHash::Omitted,
        current_status: current_matches && options.upstream_status,
        local: options.search == BranchSearch::Local || options.search == BranchSearch::All,
        local_status: options.upstream_status,
        remote: options.search == BranchSearch::Remote || options.search == BranchSearch::All,
    }
}

/// Whether the checked out branch (none when detached or unknown) matches the query.
pub fn current_branch_matches(name: Option<&str>, matcher: &QueryMatcher) -> (r: bool)
    ensures
        r == (name matches Some(n) && matcher.spec_is_match(n@)),
{
    match name {
        Some(n) => matcher.is_match(n),
        None => false,
    }
}

/// The `git for-each-ref` arguments that list the refs of a kind, with their hashes when they
/// are shown.
pub open spec fn for_each_ref_args_spec(kind: BranchRefKind, hash: BranchHash) -> Seq<Seq<char>> {
    let format = match hash {
        BranchHash::Omitted => "%(refname)"@,
        BranchHash::Short => "%(refname)%09%(objectname:short)"@,
        BranchHash::Full => "%(refname)%09%(objectname)"@,
    };
    let root = match kind {
        BranchRefKind::Local => "refs/heads"@,
        BranchRefKind::Remote => "refs/remotes"@,
    };
    seq!["for-each-ref"@, "--format="@ + format, root]
}

/// The `git for-each-ref` arguments for the refs of a kind.
pub fn for_each_ref_args(kind: BranchRefKind, hash: BranchHash) -> (r: Vec<String>)
    ensures
        strings_view(r@) == for_each_ref_args_spec(kind, hash),
{
    let format = match hash {
        BranchHash::Omitted => "%(refname)",
        BranchHash::Short => "%(refname)%09%(objectname:short)",
        BranchHash::Full => "%(refname)%09%(objectname)",
    };
    let root = match kind {
        BranchRefKind::Local => "refs/heads",
        BranchRefKind::Remote => "refs/remotes",
    };
    let mut f = string_of("--format=");
    push_str(&mut f, format);
    let mut r: Vec<String> = Vec::new();
    r.push(string_of("for-each-ref"));
    r.push(f);
    r.push(string_of(root));
    assert(strings_view(r@) =~= for_each_ref_args_spec(kind, hash));
    r
}

/* The stash command */

/// The `git stash show` flag when stash contents are printed (with `--print` or `--patch`):
/// the patch with `--patch`, else the diffstat.
pub fn stash_show_flag(print: bool, patch: bool) -> (r: Option<&'static str>)
    ensures
        !(print || patch) ==> r is None,
        (print || patch) ==> r is Some && r->0@ == (if patch { "--patch"@ } else { "--stat"@ }),
{
    if !(print || patch) {
        None
    } else if patch {
        Some("--patch")
    } else {
        Some("--stat")
    }
}

} // verus!

verus! {

/* Laws */

/// Each branch search looks up exactly the refs it reports: local refs for the local search,
/// remote refs for the remote search, both for all, neither for the current search. The checked
/// out branch's hash and status are looked up only when it matched, and then whenever they are
/// shown; local statuses whenever statuses are shown.
pub proof fn law_branch_lookups_follow_search(options: BranchOutputOptions, current_matches: bool)
    ensures
        ({
            let l = branch_lookups_spec(options, current_matches);
            &&& options.search == BranchSearch::Local ==> l.local && !l.remote
            &&& options.search == BranchSearch::Remote ==> !l.local && l.remote
            &&& options.search == BranchSearch::All ==> l.local && l.remote
            &&& options.search == BranchSearch::Current ==> !l.local && !l.remote
            &&& l.current_hash <==> (current_matches && options.hash != BranchHash::Omitted)
            &&& l.current_status <==> (current_matches && options.upstream_status)
            &&& l.local_status <==> options.upstream_status
        }),
{
}

/// The refs listed for a kind lie under `refs/heads` for local branches and `refs/remotes` for
/// remote ones; the hash is asked for (full or short) exactly when hashes are shown.
pub proof fn law_for_each_ref_lists_the_kind(kind: BranchRefKind, hash: BranchHash)
    ensures
        ({
            let a = for_each_ref_args_spec(kind, hash);
            &&& a.len() == 3
            &&& a[0] == "for-each-ref"@
            &&& kind == BranchRefKind::Local ==> a[2] == "refs/heads"@
            &&& kind == BranchRefKind::Remote ==> a[2] == "refs/remotes"@
            &&& hash == BranchHash::Omitted ==> a[1] == "--format=%(refname)"@
            &&& hash == BranchHash::Full ==> a[1] == "--format=%(refname)%09%(objectname)"@
            &&& hash == BranchHash::Short ==> a[1] == "--format=%(refname)%09%(objectname:short)"@
        }),
{
    reveal_strlit("--format=");
    reveal_strlit("%(refname)");
    reveal_strlit("--format=%(refname)");
    reveal_strlit("%(refname)%09%(objectname)");
    reveal_strlit("--format=%(refname)%09%(objectname)");
    reveal_strlit("%(refname)%09%(objectname:short)");
    reveal_strlit("--format=%(refname)%09%(objectname:short)");
    assert("--format="@ + "%(refname)"@ =~= "--format=%(refname)"@);
    assert("--format="@ + "%(refname)%09%(objectname)"@ =~= "--format=%(refname)%09%(objectname)"@);
    assert("--format="@ + "%(refname)%09%(objectname:short)"@ =~= "--format=%(refname)%09%(objectname:short)"@);
}

} // verus!

