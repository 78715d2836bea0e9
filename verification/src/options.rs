//! Command line options and how they override configuration.
use vstd::prelude::*;

use crate::config::{BranchHash, BranchSearch, ConfigFile, clone_strings, strings_view};
use crate::error::Error;
use crate::query::QueryMode;
use crate::text::string_of;

verus! {

/// The options that choose a query mode.
pub struct QueryOptions {
    /// `--query-mode`.
    pub query_mode: Option<QueryMode>,
    /// `--contains` (or `--matches`).
    pub contains: bool,
    /// `--exact`.
    pub exact: bool,
    /// `--fuzzy`.
    pub fuzzy: bool,
    /// `--regex`.
    pub regex: bool,
}

/// The options that apply to every command.
pub struct GlobalOptions {
    /// `--verbose`.
    pub verbose: bool,
    /// `--absolute`.
    pub absolute: bool,
    /// `--relative`.
    pub relative: bool,
    /// `--config`.
    pub config: String,
    /// `--path`, repeated.
    pub paths: Vec<String>,
    /// `--cwd`.
    pub cwd: bool,
    /// `--no-cwd`.
    pub no_cwd: bool,
    /// `--exclude-dir`, repeated.
    pub exclude_dirs: Vec<String>,
    /// `--no-exclude-dirs`.
    pub no_exclude_dirs: bool,
}

/// The query mode: the first of `--query-mode`, `--contains`, `--exact`, `--fuzzy`, `--regex`
/// that is given, else the configured mode.
pub open spec fn query_mode_spec(o: QueryOptions, configured: QueryMode) -> QueryMode {
    if o.query_mode is Some {
        o.query_mode->0
    } else if o.contains {
        QueryMode::Contains
    } else if o.exact {
        QueryMode::Exact
    } else if o.fuzzy {
        QueryMode::Fuzzy
    } else if o.regex {
        QueryMode::Regex
    } else {
        configured
    }
}

/// The query mode chosen on the command line, else the configured one.
pub fn query_mode(options: &QueryOptions, configured: QueryMode) -> (r: QueryMode)
    ensures
        r == query_mode_spec(*options, configured),
{
    if let Some(mode) = options.query_mode {
        mode
    } else if options.contains {
        QueryMode::Contains
    } else if options.exact {
        QueryMode::Exact
    } else if options.fuzzy {
        QueryMode::Fuzzy
    } else if options.regex {
        QueryMode::Regex
    } else {
        configured
    }
}

/// The branch hash mode: `--commit-hash`, `--short-commit-hash`, `--no-commit-hash` in that
/// order, else the configured mode.
pub open spec fn branch_hash_spec(commit_hash: bool, short_commit_hash: bool, no_commit_hash: bool, config: ConfigFile) -> BranchHash {
    if commit_hash {
        BranchHash::Full
    } else if short_commit_hash {
        BranchHash::Short
    } else if no_commit_hash {
        BranchHash::Omitted
    } else {
        config.spec_branch_hash()
    }
}

/// The branch hash mode in effect.
pub fn branch_hash_mode(commit_hash: bool, short_commit_hash: bool, no_commit_hash: bool, config: &ConfigFile) -> (r: BranchHash)
    ensures
        r == branch_hash_spec(commit_hash, short_commit_hash, no_commit_hash, *config),
{
    if commit_hash {
        BranchHash::Full
    } else if short_commit_hash {
        BranchHash::Short
    } else if no_commit_hash {
        BranchHash::Omitted
    } else {
        config.effective_branch_hash()
    }
}

/// Whether upstream freshness is shown: `--upstream-status`, else not with
/// `--no-upstream-status`, else as configured.
pub open spec fn upstream_status_spec(upstream_status: bool, no_upstream_status: bool, config: ConfigFile) -> bool {
    if upstream_status { true } else if no_upstream_status { false } else { config.spec_branch_upstream_status() }
}

/// Whether upstream freshness is shown.
pub fn branch_upstream_status(upstream_status: bool, no_upstream_status: bool, config: &ConfigFile) -> (r: bool)
    ensures
        r == upstream_status_spec(upstream_status, no_upstream_status, *config),
{
    if upstream_status {
        true
    } else if no_upstream_status {
        false
    } else {
        config.effective_branch_upstream_status()
    }
}

/// Whether freshness prefers the live origin: `--origin-status`, else not with
/// `--no-origin-status`, else as configured.
pub open spec fn origin_status_spec(origin_status: bool, no_origin_status: bool, config: ConfigFile) -> bool {
    if origin_status { true } else if no_origin_status { false } else { config.spec_branch_origin_status() }
}

/// Whether freshness prefers the live origin.
pub fn branch_origin_status(origin_status: bool, no_origin_status: bool, config: &ConfigFile) -> (r: bool)
    ensures
        r == origin_status_spec(origin_status, no_origin_status, *config),
{
    if origin_status {
        true
    } else if no_origin_status {
        false
    } else {
        config.effective_branch_origin_status()
    }
}

/// How many of the flags are set.
pub open spec fn count_set(a: bool, b: bool, c: bool, d: bool) -> int {
    (if a { 1int } else { 0 }) + (if b { 1int } else { 0 }) + (if c { 1int } else { 0 }) + (if d { 1int } else { 0 })
}

/// The message when more than one branch search flag is given.
pub open spec fn branch_search_conflict_message() -> Seq<char> {
    "use only one of --current, --local, --remote, or --all"@
}

/// The branch search mode selected by one of `--current`, `--local`, `--remote`, `--all`, else
/// the configured mode.
pub open spec fn branch_search_spec(current: bool, local: bool, remote: bool, all: bool, config: ConfigFile) -> BranchSearch {
    if current {
        BranchSearch::Current
    } else if local {
        BranchSearch::Local
    } else if remote {
        BranchSearch::Remote
    } else if all {
        BranchSearch::All
    } else {
        config.spec_branch_search()
    }
}

/// The branch search mode: an error when more than one of `--current`, `--local`, `--remote`,
/// `--all` is given, else the one given, else the configured mode.
pub fn branch_search_mode(current: bool, local: bool, remote: bool, all: bool, config: &ConfigFile) -> (r: Result<BranchSearch, Error>)
    ensures
        r is Err <==> count_set(current, local, remote, all) > 1,
        match r {
            Ok(s) => s == branch_search_spec(current, local, remote, all, *config),
            Err(e) => e.message() == branch_search_conflict_message(),
        },
{
    let selected: u32 = (if current { 1u32 } else { 0 }) + (if local { 1u32 } else { 0 }) + (if remote { 1u32 } else { 0 }) + (if all { 1u32 } else { 0 });
    if selected > 1 {
        return Err(Error::Message(string_of("use only one of --current, --local, --remote, or --all")));
    }
    if current {
        Ok(BranchSearch::Current)
    } else if local {
        Ok(BranchSearch::Local)
    } else if remote {
        Ok(BranchSearch::Remote)
    } else if all {
        Ok(BranchSearch::All)
    } else {
        Ok(config.effective_branch_search())
    }
}

/// Whether repo paths are printed absolute: `--absolute`, else not with `--relative`, else as
/// configured.
pub fn absolute_paths_mode(cli: &GlobalOptions, config: &ConfigFile) -> (r: bool)
    ensures
        r == (if cli.absolute { true } else if cli.relative { false } else { config.spec_absolute_paths() }),
{
    if cli.absolute {
        true
    } else if cli.relative {
        false
    } else {
        config.effective_absolute_paths()
    }
}

/// The directory exclusions: none with `--no-exclude-dirs`, else those given with
/// `--exclude-dir`, else the configured ones.
pub open spec fn exclude_dir_patterns_spec(cli: GlobalOptions, config: ConfigFile) -> Seq<Seq<char>> {
    if cli.no_exclude_dirs {
        seq![]
    } else if cli.exclude_dirs@.len() > 0 {
        strings_view(cli.exclude_dirs@)
    } else {
        config.spec_exclude_dirs()
    }
}

/// The directory exclusions in effect.
pub fn exclude_dir_patterns(cli: &GlobalOptions, config: &ConfigFile) -> (r: Vec<String>)
    ensures
        strings_view(r@) == exclude_dir_patterns_spec(*cli, *config),
{
    if cli.no_exclude_dirs {
        let r: Vec<String> = Vec::new();
        assert(strings_view(r@) =~= Seq::<Seq<char>>::empty());
        r
    } else if cli.exclude_dirs.len() > 0 {
        clone_strings(&cli.exclude_dirs)
    } else {
        config.effective_exclude_dirs()
    }
}

/// Where to search before the working directory is added: the paths given on the command line,
/// or when there are none the configured paths; and whether the working directory is added:
/// with `--cwd`, or when no path is given and neither `--no-cwd` nor the configuration exclude it.
pub open spec fn search_root_plan_spec(cli: GlobalOptions, config: ConfigFile) -> (Seq<Seq<char>>, bool) {
    if cli.paths@.len() == 0 {
        (
            match config.paths {
                Some(p) => strings_view(p@),
                None => seq![],
            },
            if cli.cwd { true } else if cli.no_cwd { false } else { config.spec_include_cwd() },
        )
    } else {
        (strings_view(cli.paths@), cli.cwd)
    }
}

/// The search roots to use, in order, and whether the working directory follows them.
pub fn search_root_plan(cli: &GlobalOptions, config: &ConfigFile) -> (r: (Vec<String>, bool))
    ensures
        (strings_view(r.0@), r.1) == search_root_plan_spec(*cli, *config),
{
    if cli.paths.len() == 0 {
        let roots = match &config.paths {
            Some(paths) => clone_strings(paths),
            None => {
                let r: Vec<String> = Vec::new();
                assert(strings_view(r@) =~= Seq::<Seq<char>>::empty());
                r
            },
        };
        let include_cwd = if cli.cwd {
            true
        } else if cli.no_cwd {
            false
        } else {
            config.effective_include_cwd()
        };
        (roots, include_cwd)
    } else {
        (clone_strings(&cli.paths), cli.cwd)
    }
}

} // verus!

verus! {

/* Laws */

/// Each query-mode flag selects its own mode: `--query-mode` the mode it names; `--contains`,
/// `--exact`, `--fuzzy` or `--regex` given alone its mode; no flag the configured mode. Whatever
/// the flags, the mode is the named one, one whose flag is given, or the configured one.
pub proof fn law_query_mode_flags_select_their_mode(o: QueryOptions, configured: QueryMode)
    ensures
        ({
            let r = query_mode_spec(o, configured);
            let none = o.query_mode is None;
            &&& o.query_mode matches Some(q) ==> r == q
            &&& none && !o.contains && !o.exact && !o.fuzzy && !o.regex ==> r == configured
            &&& none && o.contains && !o.exact && !o.fuzzy && !o.regex ==> r == QueryMode::Contains
            &&& none && !o.contains && o.exact && !o.fuzzy && !o.regex ==> r == QueryMode::Exact
            &&& none && !o.contains && !o.exact && o.fuzzy && !o.regex ==> r == QueryMode::Fuzzy
            &&& none && !o.contains && !o.exact && !o.fuzzy && o.regex ==> r == QueryMode::Regex
            &&& (o.query_mode == Some(r) || r == configured || (o.contains && r == QueryMode::Contains)
                || (o.exact && r == QueryMode::Exact) || (o.fuzzy && r == QueryMode::Fuzzy)
                || (o.regex && r == QueryMode::Regex))
        }),
{
}

/// Each hash flag selects its own hash mode when given alone, and no flag keeps the configured
/// one.
pub proof fn law_hash_flags_select_their_mode(full: bool, short: bool, omitted: bool, config: ConfigFile)
    ensures
        ({
            let r = branch_hash_spec(full, short, omitted, config);
            &&& full && !short && !omitted ==> r == BranchHash::Full
            &&& !full && short && !omitted ==> r == BranchHash::Short
            &&& !full && !short && omitted ==> r == BranchHash::Omitted
            &&& !full && !short && !omitted ==> r == config.spec_branch_hash()
        }),
{
}

/// Each branch search flag selects its own search when given alone, and no flag keeps the
/// configured one.
pub proof fn law_search_flags_select_their_mode(current: bool, local: bool, remote: bool, all: bool, config: ConfigFile)
    ensures
        ({
            let r = branch_search_spec(current, local, remote, all, config);
            &&& current && !local && !remote && !all ==> r == BranchSearch::Current
            &&& !current && local && !remote && !all ==> r == BranchSearch::Local
            &&& !current && !local && remote && !all ==> r == BranchSearch::Remote
            &&& !current && !local && !remote && all ==> r == BranchSearch::All
            &&& !current && !local && !remote && !all ==> r == config.spec_branch_search()
        }),
{
}

/// A switch and its negation: the switch turns the setting on, the negation alone turns it off,
/// and neither keeps the configured setting; for upstream freshness and for preferring the live
/// origin alike.
pub proof fn law_switches_override_configuration(on: bool, off: bool, config: ConfigFile)
    ensures
        on ==> upstream_status_spec(on, off, config) && origin_status_spec(on, off, config),
        !on && off ==> !upstream_status_spec(on, off, config) && !origin_status_spec(on, off, config),
        !on && !off ==> upstream_status_spec(on, off, config) == config.spec_branch_upstream_status()
            && origin_status_spec(on, off, config) == config.spec_branch_origin_status(),
{
}

/// Search roots: paths given on the command line replace the configured ones, and then the
/// working directory is added only with `--cwd`; without such paths the configured ones are
/// used, and the working directory is added with `--cwd`, not with `--no-cwd`, else as
/// configured (by default it is). With nothing configured and no flags, only the working
/// directory is searched.
pub proof fn law_search_roots(cli: GlobalOptions, config: ConfigFile)
    ensures
        cli.paths@.len() > 0 ==> search_root_plan_spec(cli, config) == (strings_view(cli.paths@), cli.cwd),
        cli.paths@.len() == 0 ==> (config.paths matches Some(p) ==> search_root_plan_spec(cli, config).0 == strings_view(p@)),
        cli.paths@.len() == 0 && config.paths is None ==> search_root_plan_spec(cli, config).0.len() == 0,
        cli.paths@.len() == 0 && cli.cwd ==> search_root_plan_spec(cli, config).1,
        cli.paths@.len() == 0 && !cli.cwd && cli.no_cwd ==> !search_root_plan_spec(cli, config).1,
        cli.paths@.len() == 0 && !cli.cwd && !cli.no_cwd && config.include_cwd is None ==> search_root_plan_spec(cli, config).1,
        cli.paths@.len() == 0 && !cli.cwd && !cli.no_cwd
            ==> (config.include_cwd matches Some(b) ==> search_root_plan_spec(cli, config).1 == b),
{
}

/// Directory exclusions: none with `--no-exclude-dirs`; else the regexes given with
/// `--exclude-dir`, which replace the configured ones; else the configured ones, by default
/// only `^target$`.
pub proof fn law_exclusion_patterns(cli: GlobalOptions, config: ConfigFile)
    ensures
        cli.no_exclude_dirs ==> exclude_dir_patterns_spec(cli, config).len() == 0,
        !cli.no_exclude_dirs && cli.exclude_dirs@.len() > 0 ==> exclude_dir_patterns_spec(cli, config) == strings_view(cli.exclude_dirs@),
        !cli.no_exclude_dirs && cli.exclude_dirs@.len() == 0 && config.exclude_dirs is None
            ==> exclude_dir_patterns_spec(cli, config) == seq!["^target$"@],
        !cli.no_exclude_dirs && cli.exclude_dirs@.len() == 0
            ==> (config.exclude_dirs matches Some(v) ==> exclude_dir_patterns_spec(cli, config) == strings_view(v@)),
{
}

} // verus!


