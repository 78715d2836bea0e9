//! Configuration: the settings of the config file and their defaults.
use vstd::prelude::*;

use crate::error::Error;
use crate::query::QueryMode;
use crate::text::push_str;
use crate::text::string_of;

verus! {

/// The directory exclusion used when none is configured.
pub const DEFAULT_EXCLUDE_DIR: &'static str = "^target$";

/// Which branch refs a branch query searches.
#[derive(Clone, Copy, Debug, PartialEq, Eq, Structural)]
pub enum BranchSearch {
    /// Only the checked out branch.
    Current,
    /// Local branches.
    Local,
    /// Remote-tracking branches.
    Remote,
    /// Local and remote-tracking branches.
    All,
}

impl BranchSearch {
    /// The name of the search mode, as configuration and the command line spell it.
    pub open spec fn name(self) -> Seq<char> {
        match self {
            BranchSearch::Current => "current"@,
            BranchSearch::Local => "local"@,
            BranchSearch::Remote => "remote"@,
            BranchSearch::All => "all"@,
        }
    }

    /// The name of the search mode.
    pub fn as_str(self) -> (r: &'static str)
        ensures
            r@ == self.name(),
    {
        match self {
            BranchSearch::Current => "current",
            BranchSearch::Local => "local",
            BranchSearch::Remote => "remote",
            BranchSearch::All => "all",
        }
    }
}

/// How branch commit hashes are printed.
#[derive(Clone, Copy, Debug, PartialEq, Eq, Structural)]
pub enum BranchHash {
    /// Not at all (spelled `none` in configuration).
    Omitted,
    /// Abbreviated.
    Short,
    /// In full.
    Full,
}

/// The settings of a config file; a setting that is absent takes its default.
pub struct ConfigFile {
    /// Paths to search when `--path` is not given.
    pub paths: Option<Vec<String>>,
    /// Whether the working directory is searched. Defaults to true.
    pub include_cwd: Option<bool>,
    /// Whether repo paths are printed absolute. Defaults to false.
    pub absolute_paths: Option<bool>,
    /// Directory regexes excluded from traversal. Defaults to `^target$`.
    pub exclude_dirs: Option<Vec<String>>,
    /// Branch search mode. Defaults to local.
    pub branch_search: Option<BranchSearch>,
    /// Branch hash output. Defaults to full.
    pub branch_hash: Option<BranchHash>,
    /// Whether local branch results show upstream freshness. Defaults to true.
    pub branch_upstream_status: Option<bool>,
    /// Whether freshness prefers the live origin remote. Defaults to false.
    pub branch_origin_status: Option<bool>,
    /// Older setting for branch hashes; `false` means no hashes.
    pub branch_hashes: Option<bool>,
    /// Repo query mode. Defaults to contains.
    pub repo_query: Option<QueryMode>,
    /// Branch query mode. Defaults to contains.
    pub branch_query: Option<QueryMode>,
    /// Stash query mode. Defaults to contains.
    pub stash_query: Option<QueryMode>,
}

/// The chars of each string.
pub open spec fn strings_view(v: Seq<String>) -> Seq<Seq<char>> {
    v.map_values(|s: String| s@)
}

/// A copy of the strings.
pub fn clone_strings(v: &Vec<String>) -> (r: Vec<String>)
    ensures
        strings_view(r@) == strings_view(v@),
{
    let mut r: Vec<String> = Vec::new();
    let mut i: usize = 0;
    while i < v.len()
        invariant
            i <= v.len(),
            strings_view(r@) == strings_view(v@.take(i as int)),
        decreases v.len() - i,
    {
        let s = v[i].clone();
        assert(s@ == v@[i as int]@);
        let ghost before = r@;
        r.push(s);
        assert(v@.take(i + 1) =~= v@.take(i as int).push(v@[i as int]));
        assert(r@ =~= before.push(s));
        assert(strings_view(r@) =~= strings_view(before).push(s@));
        assert(strings_view(v@.take(i + 1)) =~= strings_view(v@.take(i as int)).push(v@[i as int]@));
        i += 1;
    }
    assert(v@.take(v.len() as int) =~= v@);
    r
}

impl ConfigFile {
    /// A config with no settings.
    pub open spec fn is_empty(&self) -> bool {
        &&& self.paths is None
        &&& self.include_cwd is None
        &&& self.absolute_paths is None
        &&& self.exclude_dirs is None
        &&& self.branch_search is None
        &&& self.branch_hash is None
        &&& self.branch_upstream_status is None
        &&& self.branch_origin_status is None
        &&& self.branch_hashes is None
        &&& self.repo_query is None
        &&& self.branch_query is None
        &&& self.stash_query is None
    }

    /// Whether the working directory is searched.
    pub open spec fn spec_include_cwd(&self) -> bool {
        match self.include_cwd { Some(b) => b, None => true }
    }

    /// Whether repo paths are printed absolute.
    pub open spec fn spec_absolute_paths(&self) -> bool {
        match self.absolute_paths { Some(b) => b, None => false }
    }

    /// The directory exclusion regexes.
    pub open spec fn spec_exclude_dirs(&self) -> Seq<Seq<char>> {
        match self.exclude_dirs {
            Some(v) => strings_view(v@),
            None => seq![DEFAULT_EXCLUDE_DIR@],
        }
    }

    /// The branch search mode.
    pub open spec fn spec_branch_search(&self) -> BranchSearch {
        match self.branch_search { Some(b) => b, None => BranchSearch::Local }
    }

    /// The branch hash mode: `branch_hash` when set, else none when `branch_hashes` is false,
    /// else full.
    pub open spec fn spec_branch_hash(&self) -> BranchHash {
        match self.branch_hash {
            Some(h) => h,
            None => if self.branch_hashes == Some(false) { BranchHash::Omitted } else { BranchHash::Full },
        }
    }

    /// Whether local branch results show upstream freshness.
    pub open spec fn spec_branch_upstream_status(&self) -> bool {
        match self.branch_upstream_status { Some(b) => b, None => true }
    }

    /// Whether freshness prefers the live origin remote.
    pub open spec fn spec_branch_origin_status(&self) -> bool {
        match self.branch_origin_status { Some(b) => b, None => false }
    }

    /// The repo query mode.
    pub open spec fn spec_repo_query(&self) -> QueryMode {
        match self.repo_query { Some(q) => q, None => QueryMode::Contains }
    }

    /// The branch query mode.
    pub open spec fn spec_branch_query(&self) -> QueryMode {
        match self.branch_query { Some(q) => q, None => QueryMode::Contains }
    }

    /// The stash query mode.
    pub open spec fn spec_stash_query(&self) -> QueryMode {
        match self.stash_query { Some(q) => q, None => QueryMode::Contains }
    }

    /// Whether the working directory is searched.
    pub fn effective_include_cwd(&self) -> (r: bool)
        ensures
            r == self.spec_include_cwd(),
    {
        match self.include_cwd { Some(b) => b, None => true }
    }

    /// Whether repo paths are printed absolute.
    pub fn effective_absolute_paths(&self) -> (r: bool)
        ensures
            r == self.spec_absolute_paths(),
    {
        match self.absolute_paths { Some(b) => b, None => false }
    }

    /// The directory exclusion regexes.
    pub fn effective_exclude_dirs(&self) -> (r: Vec<String>)
        ensures
            strings_view(r@) == self.spec_exclude_dirs(),
    {
        match &self.exclude_dirs {
            Some(v) => clone_strings(v),
            None => {
                let mut r = Vec::new();
                r.push(DEFAULT_EXCLUDE_DIR.to_owned());
                assert(strings_view(r@) =~= seq![DEFAULT_EXCLUDE_DIR@]);
                r
            },
        }
    }

    /// The branch search mode.
    pub fn effective_branch_search(&self) -> (r: BranchSearch)
        ensures
            r == self.spec_branch_search(),
    {
        match self.branch_search { Some(b) => b, None => BranchSearch::Local }
    }

    /// The branch hash mode.
    pub fn effective_branch_hash(&self) -> (r: BranchHash)
        ensures
            r == self.spec_branch_hash(),
    {
        if let Some(branch_hash) = self.branch_hash {
            branch_hash
        } else if self.branch_hashes == Some(false) {
            BranchHash::Omitted
        } else {
            BranchHash::Full
        }
    }

    /// Whether local branch results show upstream freshness.
    pub fn effective_branch_upstream_status(&self) -> (r: bool)
        ensures
            r == self.spec_branch_upstream_status(),
    {
        match self.branch_upstream_status { Some(b) => b, None => true }
    }

    /// Whether freshness prefers the live origin remote.
    pub fn effective_branch_origin_status(&self) -> (r: bool)
        ensures
            r == self.spec_branch_origin_status(),
    {
        match self.branch_origin_status { Some(b) => b, None => false }
    }

    /// The repo query mode.
    pub fn effective_repo_query(&self) -> (r: QueryMode)
        ensures
            r == self.spec_repo_query(),
    {
        match self.repo_query { Some(q) => q, None => QueryMode::Contains }
    }

    /// The branch query mode.
    pub fn effective_branch_query(&self) -> (r: QueryMode)
        ensures
            r == self.spec_branch_query(),
    {
        match self.branch_query { Some(q) => q, None => QueryMode::Contains }
    }

    /// The stash query mode.
    pub fn effective_stash_query(&self) -> (r: QueryMode)
        ensures
            r == self.spec_stash_query(),
    {
        match self.stash_query { Some(q) => q, None => QueryMode::Contains }
    }
}

impl Default for ConfigFile {
    fn default() -> (r: ConfigFile)
        ensures
            r.is_empty(),
    {
        ConfigFile {
            paths: None,
            include_cwd: None,
            absolute_paths: None,
            exclude_dirs: None,
            branch_search: None,
            branch_hash: None,
            branch_upstream_status: None,
            branch_origin_status: None,
            branch_hashes: None,
            repo_query: None,
            branch_query: None,
            stash_query: None,
        }
    }
}

/// The text of the documented config file that `config init` writes: every setting with its
/// default and the command line flags that override it, followed by commented examples.
pub open spec fn documented_config_spec() -> Seq<char> {
    DOCUMENTED_CONFIG@
}

/// The documented config file.
pub const DOCUMENTED_CONFIG: &'static str = r#"# gfind configuration
#
# Default path: ~/.gfind/config.toml

# Search roots used when --path is not provided.
# Paths beginning with ~/ are expanded relative to HOME.
paths = []

# Include the current working directory in search roots.
# CLI overrides: --cwd, --no-cwd
include_cwd = true

# Print absolute repo paths instead of paths relative to cwd.
# CLI overrides: --absolute, --relative
absolute_paths = false

# Directory regexes excluded from repository traversal.
# Regexes match both the directory name and its path relative to the search root.
# CLI overrides: --exclude-dir, --no-exclude-dirs
exclude_dirs = ["^target$"]

# Default branch search mode.
# Valid values: "current", "local", "remote", "all"
# CLI overrides: --current, --local, --remote, --all
branch_search = "local"

# Default query modes.
# Valid values: "contains", "matches", "exact", "fuzzy", "regex"
# CLI overrides on repos, branch, and stash: --query-mode, --contains, --exact, --fuzzy, --regex
repo_query = "contains"
branch_query = "contains"
stash_query = "contains"

# Branch commit hash output mode.
# Valid values: "full", "short", "none"
# CLI overrides: --commit-hash, --full-commit-hash, --short-commit-hash, --no-commit-hash
branch_hash = "full"

# Print local branch freshness compared to upstream tracking refs.
# CLI overrides: --upstream-status, --no-upstream-status
branch_upstream_status = true

# Prefer checking the live origin remote branch before local tracking refs.
# This may contact the network and is off by default.
# CLI overrides: --origin-status, --no-origin-status
branch_origin_status = false

# Deprecated compatibility setting. Prefer branch_hash = "none" instead.
# branch_hashes = true

# Examples
#
# Search a fixed set of roots instead of cwd by default:
#
# paths = ["~/src", "~/work"]
# include_cwd = false
#
# Prefer absolute repo paths in all output:
#
# absolute_paths = true
#
# Exclude generated dependency and build directories:
#
# exclude_dirs = ["^target$", "^node_modules$", "^vendor/generated$"]
#
# Make branch searches include local and remote refs by default:
#
# branch_search = "all"
#
# Use exact branch queries by default, but fuzzy repo and stash queries:
#
# repo_query = "fuzzy"
# branch_query = "exact"
# stash_query = "fuzzy"
#
# Shorten branch hashes and suppress upstream freshness checks:
#
# branch_hash = "short"
# branch_upstream_status = false
#
# Prefer live origin checks for branch freshness. This may contact the network:
#
# branch_origin_status = true
"#;

/// The documented config file that `config init` writes.
pub fn documented_config() -> (r: &'static str)
    ensures
        r@ == documented_config_spec(),
{
    DOCUMENTED_CONFIG
}

/// The configuration in effect: the loaded file, or no settings when there is none.
pub fn load_config(loaded: Option<ConfigFile>) -> (r: ConfigFile)
    ensures
        match loaded {
            Some(c) => r == c,
            None => r.is_empty(),
        },
{
    match loaded {
        Some(c) => c,
        None => ConfigFile::default(),
    }
}

/// The error for initializing a config file that exists, unless it may be overwritten.
pub open spec fn init_refused_message(path: Seq<char>) -> Seq<char> {
    "config "@ + path + " already exists; use --force to overwrite it"@
}

/// Whether `config init` may write the file: only when it does not exist, or with `--force`.
pub fn check_init_allowed(config_path: &str, already_exists: bool, force: bool) -> (r: Result<(), Error>)
    ensures
        r is Ok <==> (!already_exists || force),
        r matches Err(e) ==> e.message() == init_refused_message(config_path@),
{
    if already_exists && !force {
        let mut m = string_of("config ");
        push_str(&mut m, config_path);
        push_str(&mut m, " already exists; use --force to overwrite it");
        return Err(Error::Message(m));
    }
    Ok(())
}

} // verus!

verus! {

/* Laws */

/// What is unset in the configuration takes its documented default: the working directory is
/// searched, paths are shown relative, directories named `target` are excluded, branches are
/// searched locally with full hashes and upstream freshness from the local upstream, and every
/// query matches by substring. What is set is used as it is.
pub proof fn law_config_defaults(config: ConfigFile)
    ensures
        config.include_cwd is None ==> config.spec_include_cwd(),
        config.absolute_paths is None ==> !config.spec_absolute_paths(),
        config.exclude_dirs is None ==> config.spec_exclude_dirs() == seq!["^target$"@],
        config.branch_search is None ==> config.spec_branch_search() == BranchSearch::Local,
        config.branch_hash is None && config.branch_hashes is None ==> config.spec_branch_hash() == BranchHash::Full,
        config.branch_upstream_status is None ==> config.spec_branch_upstream_status(),
        config.branch_origin_status is None ==> !config.spec_branch_origin_status(),
        config.repo_query is None ==> config.spec_repo_query() == QueryMode::Contains,
        config.branch_query is None ==> config.spec_branch_query() == QueryMode::Contains,
        config.stash_query is None ==> config.spec_stash_query() == QueryMode::Contains,
        config.include_cwd matches Some(b) ==> config.spec_include_cwd() == b,
        config.absolute_paths matches Some(b) ==> config.spec_absolute_paths() == b,
        config.exclude_dirs matches Some(v) ==> config.spec_exclude_dirs() == strings_view(v@),
        config.branch_search matches Some(b) ==> config.spec_branch_search() == b,
        config.branch_hash matches Some(h) ==> config.spec_branch_hash() == h,
        config.branch_upstream_status matches Some(b) ==> config.spec_branch_upstream_status() == b,
        config.branch_origin_status matches Some(b) ==> config.spec_branch_origin_status() == b,
        config.repo_query matches Some(q) ==> config.spec_repo_query() == q,
        config.branch_query matches Some(q) ==> config.spec_branch_query() == q,
        config.stash_query matches Some(q) ==> config.spec_stash_query() == q,
{
}

} // verus!

