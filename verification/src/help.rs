//! Reading the command line before it is parsed, for help output: whether help is asked for,
//! which config file and command it concerns, and what the configuration adds to the help.
use vstd::prelude::*;

use crate::config::BranchHash;
use crate::config::BranchSearch;
use crate::config::ConfigFile;
use crate::config::DEFAULT_EXCLUDE_DIR;
use crate::config::clone_strings;
use crate::config::strings_view;
use crate::query::QueryMode;
use crate::text::has_prefix;
use crate::text::join_strings;
use crate::text::joined;
use crate::text::push_str;
use crate::text::starts_with;
use crate::text::str_eq;
use crate::text::string_of;
use crate::text::strip_prefix;

verus! {

/* Finding the command */

/// An option that takes the next argument as its value.
pub open spec fn takes_value(arg: Seq<char>) -> bool {
    arg == "--config"@ || arg == "--path"@ || arg == "-p"@ || arg == "--exclude-dir"@
}

/// The index of the first argument at or after `i` that is neither an option nor the value of
/// one.
pub open spec fn command_index_from(args: Seq<Seq<char>>, i: int) -> Option<int>
    decreases args.len() + 1 - i,
{
    if i < 0 || i >= args.len() {
        None
    } else if takes_value(args[i]) {
        command_index_from(args, i + 2)
    } else if args[i].len() > 0 && args[i][0] == '-' {
        command_index_from(args, i + 1)
    } else {
        Some(i)
    }
}

/// The index of the top-level command: the first argument after the program name that is
/// neither an option nor the value of `--config`, `--path`, `-p` or `--exclude-dir`.
pub open spec fn command_index_spec(args: Seq<Seq<char>>) -> Option<int> {
    command_index_from(args, 1)
}

proof fn lemma_command_index_from(args: Seq<Seq<char>>, i: int)
    requires
        0 <= i,
    ensures
        command_index_from(args, i) matches Some(k) ==> i <= k < args.len(),
    decreases args.len() + 1 - i,
{
    if i < args.len() {
        if takes_value(args[i]) {
            lemma_command_index_from(args, i + 2);
        } else if args[i].len() > 0 && args[i][0] == '-' {
            lemma_command_index_from(args, i + 1);
        }
    }
}

/// The index of the top-level command among the arguments (the program name first).
pub fn top_level_command_index(args: &Vec<String>) -> (r: Option<usize>)
    ensures
        match r {
            Some(k) => command_index_spec(strings_view(args@)) == Some(k as int),
            None => command_index_spec(strings_view(args@)) is None,
        },
        r matches Some(k) ==> 1 <= k < args@.len(),
{
    let ghost av = strings_view(args@);
    let mut index: usize = 1;
    while index < args.len()
        invariant
            1 <= index,
            av == strings_view(args@),
            command_index_from(av, 1) == command_index_from(av, index as int),
        decreases args.len() - index,
    {
        let arg = args[index].as_str();
        assert(arg@ == av[index as int]);
        let is_option = starts_with(arg, "-");
        proof {
            reveal_strlit("-");
            if arg@.len() > 0 && arg@[0] == '-' {
                assert(arg@.take(1) =~= "-"@);
            }
        }
        if str_eq(arg, "--config") || str_eq(arg, "--path") || str_eq(arg, "-p") || str_eq(arg, "--exclude-dir") {
            assert(takes_value(av[index as int]));
            if args.len() - index <= 2 {
                assert(command_index_from(av, index + 2) is None);
                return None;
            }
            index += 2;
        } else if is_option {
            assert(arg@.take(1)[0] == arg@[0]);
            assert(!takes_value(av[index as int]));
            assert(command_index_from(av, index as int) == command_index_from(av, index + 1));
            index += 1;
        } else {
            proof {
                lemma_command_index_from(av, 1);
            }
            assert(command_index_from(av, index as int) == Some(index as int));
            return Some(index);
        }
    }
    None
}

/// Whether the arguments ask for help: `-h` or `--help` after the program name, or `help` as the
/// command.
pub open spec fn requests_help_spec(args: Seq<Seq<char>>) -> bool {
    ||| exists|i: int| 1 <= i < args.len() && (#[trigger] args[i] == "-h"@ || args[i] == "--help"@)
    ||| command_index_spec(args) matches Some(k) && args[k] == "help"@
}

/// Whether the arguments ask for help.
pub fn requests_help(args: &Vec<String>) -> (r: bool)
    ensures
        r == requests_help_spec(strings_view(args@)),
{
    let ghost av = strings_view(args@);
    let mut i: usize = 1;
    while i < args.len()
        invariant
            1 <= i,
            av == strings_view(args@),
            forall|k: int| 1 <= k < i && k < av.len() ==> !(#[trigger] av[k] == "-h"@ || av[k] == "--help"@),
        decreases args.len() - i,
    {
        if str_eq(args[i].as_str(), "-h") || str_eq(args[i].as_str(), "--help") {
            assert(av[i as int] == args@[i as int]@);
            return true;
        }
        assert(av[i as int] == args@[i as int]@);
        i += 1;
    }
    match top_level_command_index(args) {
        Some(k) => {
            assert(av[k as int] == args@[k as int]@);
            str_eq(args[k].as_str(), "help")
        },
        None => false,
    }
}

/// `help <command>` becomes `<command> --help`: the `help` command is removed and `--help`
/// appended.
pub open spec fn normalized_help_args(args: Seq<Seq<char>>) -> Seq<Seq<char>> {
    match command_index_spec(args) {
        Some(k) => if args[k] == "help"@ {
            args.remove(k).push("--help"@)
        } else {
            args
        },
        None => args,
    }
}

/// Rewrites a `help` command into a `--help` option.
pub fn normalize_help_command(args: &mut Vec<String>)
    ensures
        strings_view(final(args)@) == normalized_help_args(strings_view(old(args)@)),
{
    let ghost av = strings_view(args@);
    match top_level_command_index(args) {
        Some(k) => {
            assert(av[k as int] == args@[k as int]@);
            if str_eq(args[k].as_str(), "help") {
                let ghost before = args@;
                args.remove(k);
                args.push(string_of("--help"));
                assert(strings_view(args@) =~= av.remove(k as int).push("--help"@));
            }
        },
        None => {},
    }
}

/// Turning a `help` command into `--help` keeps the arguments asking for help.
pub proof fn law_normalized_help_still_requests_help(args: Seq<Seq<char>>)
    requires
        requests_help_spec(args),
    ensures
        requests_help_spec(normalized_help_args(args)),
{
    if let Some(k) = command_index_spec(args) {
        lemma_command_index_from(args, 1);
        if args[k] == "help"@ {
            let n = args.remove(k).push("--help"@);
            assert(n[n.len() - 1] == "--help"@);
            assert(1 <= n.len() - 1);
        }
    }
}

/* The config file named on the command line */

/// The config file used when none is named.
pub open spec fn default_config_path_spec() -> Seq<char> {
    "~/.gfind/config.toml"@
}

/// The config file used when none is named.
pub fn default_config_path() -> (r: String)
    ensures
        r@ == default_config_path_spec(),
{
    string_of("~/.gfind/config.toml")
}

/// The config file named by the first `--config <path>` or `--config=<path>` at or after `i`
/// (the default when `--config` ends the arguments or none is there).
pub open spec fn config_path_from(args: Seq<Seq<char>>, i: int) -> Seq<char>
    decreases args.len() - i,
{
    if i < 0 || i >= args.len() {
        default_config_path_spec()
    } else if args[i] == "--config"@ {
        if i + 1 < args.len() {
            args[i + 1]
        } else {
            default_config_path_spec()
        }
    } else if has_prefix(args[i], "--config="@) {
        args[i].skip(9)
    } else {
        config_path_from(args, i + 1)
    }
}

/// The config file the arguments name (after the program name).
pub fn config_path_from_args(args: &Vec<String>) -> (r: String)
    ensures
        r@ == config_path_from(strings_view(args@), 1),
{
    let ghost av = strings_view(args@);
    let mut i: usize = 1;
    while i < args.len()
        invariant
            1 <= i,
            av == strings_view(args@),
            config_path_from(av, 1) == config_path_from(av, i as int),
        decreases args.len() - i,
    {
        let arg = args[i].as_str();
        assert(arg@ == av[i as int]);
        if str_eq(arg, "--config") {
            if i + 1 < args.len() {
                assert(args@[i + 1]@ == av[i + 1]);
                return string_of(args[i + 1].as_str());
            }
            return default_config_path();
        }
        match strip_prefix(arg, "--config=") {
            Some(path) => {
                proof { reveal_strlit("--config="); }
                return path;
            },
            None => {},
        }
        i += 1;
    }
    default_config_path()
}

/* The command help is shown for */

/// The command whose help is shown.
#[derive(Clone, Copy, Debug, PartialEq, Eq, Structural)]
pub enum HelpScope {
    TopLevel,
    Repos,
    Branch,
    Commit,
    Status,
    Stash,
    Other,
}

/// The command named by an argument, by its name or alias.
pub open spec fn scope_of_command(name: Seq<char>) -> HelpScope {
    if name == "repos"@ || name == "r"@ {
        HelpScope::Repos
    } else if name == "branch"@ || name == "b"@ {
        HelpScope::Branch
    } else if name == "commit"@ || name == "c"@ {
        HelpScope::Commit
    } else if name == "status"@ || name == "s"@ {
        HelpScope::Status
    } else if name == "stash"@ || name == "sh"@ {
        HelpScope::Stash
    } else {
        HelpScope::Other
    }
}

/// The command help is shown for: the top level when there is no command.
pub open spec fn help_scope_spec(args: Seq<Seq<char>>) -> HelpScope {
    match command_index_spec(args) {
        Some(k) => scope_of_command(args[k]),
        None => HelpScope::TopLevel,
    }
}

impl HelpScope {
    /// The command help is shown for.
    pub fn from_args(args: &Vec<String>) -> (r: HelpScope)
        ensures
            r == help_scope_spec(strings_view(args@)),
    {
        let ghost av = strings_view(args@);
        match top_level_command_index(args) {
            None => HelpScope::TopLevel,
            Some(k) => {
                let name = args[k].as_str();
                assert(name@ == av[k as int]);
                if str_eq(name, "repos") || str_eq(name, "r") {
                    HelpScope::Repos
                } else if str_eq(name, "branch") || str_eq(name, "b") {
                    HelpScope::Branch
                } else if str_eq(name, "commit") || str_eq(name, "c") {
                    HelpScope::Commit
                } else if str_eq(name, "status") || str_eq(name, "s") {
                    HelpScope::Status
                } else if str_eq(name, "stash") || str_eq(name, "sh") {
                    HelpScope::Stash
                } else {
                    HelpScope::Other
                }
            },
        }
    }

    /// Whether the command searches repositories, so that the traversal settings apply to it.
    pub open spec fn spec_uses_traversal(self) -> bool {
        self != HelpScope::Other
    }

    /// Whether the command searches repositories.
    pub fn uses_traversal(self) -> (r: bool)
        ensures
            r == self.spec_uses_traversal(),
    {
        match self {
            HelpScope::Other => false,
            _ => true,
        }
    }
}

/* What the configuration adds to help */

/// The flag that selects a branch hash mode.
pub open spec fn branch_hash_flag_spec(hash: BranchHash) -> Seq<char> {
    match hash {
        BranchHash::Omitted => "--no-commit-hash"@,
        BranchHash::Short => "--short-commit-hash"@,
        BranchHash::Full => "--commit-hash"@,
    }
}

/// The command line flags equivalent to the traversal settings that differ from the defaults:
/// each configured path, `--no-cwd`, `--absolute`, and the exclusions when they are not the
/// default one (`--no-exclude-dirs` for none).
pub open spec fn traversal_overrides(config: ConfigFile) -> Seq<Seq<char>> {
    let excl = config.spec_exclude_dirs();
    (match config.paths {
        Some(p) => strings_view(p@).map_values(|x: Seq<char>| "--path "@ + x),
        None => seq![],
    }) + (if !config.spec_include_cwd() {
        seq!["--no-cwd"@]
    } else {
        seq![]
    }) + (if config.spec_absolute_paths() {
        seq!["--absolute"@]
    } else {
        seq![]
    }) + (if excl == seq![DEFAULT_EXCLUDE_DIR@] {
        seq![]
    } else if excl.len() == 0 {
        seq!["--no-exclude-dirs"@]
    } else {
        excl.map_values(|x: Seq<char>| "--exclude-dir "@ + x)
    })
}

/// The `--query-mode` flag when the mode is not the default one.
pub open spec fn query_override(mode: QueryMode) -> Seq<Seq<char>> {
    if mode != QueryMode::Contains {
        seq!["--query-mode "@ + mode.name()]
    } else {
        seq![]
    }
}

/// The flags equivalent to the branch settings that differ from the defaults.
pub open spec fn branch_overrides(config: ConfigFile) -> Seq<Seq<char>> {
    query_override(config.spec_branch_query()) + (if config.spec_branch_search() != BranchSearch::Local {
        seq!["--"@ + config.spec_branch_search().name()]
    } else {
        seq![]
    }) + (if config.spec_branch_hash() != BranchHash::Full {
        seq![branch_hash_flag_spec(config.spec_branch_hash())]
    } else {
        seq![]
    }) + (if !config.spec_branch_upstream_status() {
        seq!["--no-upstream-status"@]
    } else {
        seq![]
    }) + (if config.spec_branch_origin_status() {
        seq!["--origin-status"@]
    } else {
        seq![]
    })
}

/// The flags equivalent to the settings that apply to the command and differ from the defaults.
pub open spec fn config_overrides(config: ConfigFile, scope: HelpScope) -> Seq<Seq<char>> {
    (if scope.spec_uses_traversal() {
        traversal_overrides(config)
    } else {
        seq![]
    }) + match scope {
        HelpScope::Repos => query_override(config.spec_repo_query()),
        HelpScope::Branch => branch_overrides(config),
        HelpScope::Stash => query_override(config.spec_stash_query()),
        _ => seq![],
    }
}

/// The help footer that lists the equivalent flags, one per line; none when there are none.
pub open spec fn config_footer_spec(config: ConfigFile, scope: HelpScope) -> Option<Seq<char>> {
    let o = config_overrides(config, scope);
    if o.len() == 0 {
        None
    } else {
        Some("Config overrides (equivalent CLI flags):\n  "@ + joined(o, "\n  "@))
    }
}

/// Appends each string with a prefix.
fn push_prefixed(out: &mut Vec<String>, prefix: &str, items: &Vec<String>)
    ensures
        strings_view(final(out)@) == strings_view(old(out)@) + strings_view(items@).map_values(|x: Seq<char>| prefix@ + x),
{
    let ghost start = strings_view(out@);
    let ghost iv = strings_view(items@);
    let mut i: usize = 0;
    while i < items.len()
        invariant
            i <= items@.len(),
            iv == strings_view(items@),
            strings_view(out@) == start + iv.take(i as int).map_values(|x: Seq<char>| prefix@ + x),
        decreases items.len() - i,
    {
        let mut s = string_of(prefix);
        push_str(&mut s, items[i].as_str());
        let ghost before = strings_view(out@);
        out.push(s);
        assert(strings_view(out@) =~= before.push(s@));
        assert(iv.take(i + 1).map_values(|x: Seq<char>| prefix@ + x)
            =~= iv.take(i as int).map_values(|x: Seq<char>| prefix@ + x).push(prefix@ + iv[i as int]));
        i += 1;
    }
    assert(iv.take(items@.len() as int) =~= iv);
}

/// Appends a string.
fn push_text(out: &mut Vec<String>, s: &str)
    ensures
        strings_view(final(out)@) == strings_view(old(out)@).push(s@),
{
    let ghost before = strings_view(out@);
    out.push(string_of(s));
    assert(strings_view(out@) =~= before.push(s@));
}

/// Appends the `--query-mode` flag when the mode is not the default one.
fn push_query_override(out: &mut Vec<String>, mode: QueryMode)
    ensures
        strings_view(final(out)@) == strings_view(old(out)@) + query_override(mode),
{
    let ghost before = strings_view(out@);
    if mode != QueryMode::Contains {
        let mut s = string_of("--query-mode ");
        push_str(&mut s, mode.as_str());
        out.push(s);
        assert(strings_view(out@) =~= before + query_override(mode));
    } else {
        assert(strings_view(out@) =~= before + query_override(mode));
    }
}

/// Whether the exclusions are exactly the default one.
fn is_default_exclusions(excl: &Vec<String>) -> (r: bool)
    ensures
        r == (strings_view(excl@) == seq![DEFAULT_EXCLUDE_DIR@]),
{
    if excl.len() != 1 {
        assert(strings_view(excl@).len() != 1);
        return false;
    }
    let r = str_eq(excl[0].as_str(), DEFAULT_EXCLUDE_DIR);
    assert(r ==> strings_view(excl@) =~= seq![DEFAULT_EXCLUDE_DIR@]);
    assert(!r ==> strings_view(excl@)[0] != seq![DEFAULT_EXCLUDE_DIR@][0]);
    r
}

/// The flags equivalent to the settings that apply to the command and differ from the defaults.
pub fn config_override_flags(config: &ConfigFile, scope: HelpScope) -> (r: Vec<String>)
    ensures
        strings_view(r@) == config_overrides(*config, scope),
{
    let mut out: Vec<String> = Vec::new();
    assert(strings_view(out@) =~= Seq::<Seq<char>>::empty());
    if scope.uses_traversal() {
        push_traversal_overrides(&mut out, config);
    }
    let ghost head = strings_view(out@);
    match scope {
        HelpScope::Repos => push_query_override(&mut out, config.effective_repo_query()),
        HelpScope::Branch => push_branch_overrides(&mut out, config),
        HelpScope::Stash => push_query_override(&mut out, config.effective_stash_query()),
        _ => {},
    }
    assert(strings_view(out@) =~= config_overrides(*config, scope));
    out
}

/// Appends the flags equivalent to the traversal settings.
fn push_traversal_overrides(out: &mut Vec<String>, config: &ConfigFile)
    ensures
        strings_view(final(out)@) == strings_view(old(out)@) + traversal_overrides(*config),
{
    let ghost start = strings_view(out@);
    match &config.paths {
        Some(p) => push_prefixed(out, "--path ", p),
        None => {},
    }
    let ghost a = strings_view(out@);
    assert(a =~= start + (match config.paths {
        Some(p) => strings_view(p@).map_values(|x: Seq<char>| "--path "@ + x),
        None => Seq::<Seq<char>>::empty(),
    }));
    if !config.effective_include_cwd() {
        push_text(out, "--no-cwd");
    }
    if config.effective_absolute_paths() {
        push_text(out, "--absolute");
    }
    let ghost b = strings_view(out@);
    let excl = config.effective_exclude_dirs();
    if !is_default_exclusions(&excl) {
        if excl.len() == 0 {
            push_text(out, "--no-exclude-dirs");
        } else {
            push_prefixed(out, "--exclude-dir ", &excl);
        }
    }
    assert(strings_view(out@) =~= start + traversal_overrides(*config));
}

/// Appends the flags equivalent to the branch settings.
fn push_branch_overrides(out: &mut Vec<String>, config: &ConfigFile)
    ensures
        strings_view(final(out)@) == strings_view(old(out)@) + branch_overrides(*config),
{
    let ghost start = strings_view(out@);
    push_query_override(out, config.effective_branch_query());
    let search = config.effective_branch_search();
    if search != BranchSearch::Local {
        let mut s = string_of("--");
        push_str(&mut s, search.as_str());
        let ghost before = strings_view(out@);
        out.push(s);
        assert(strings_view(out@) =~= before.push(s@));
    }
    let hash = config.effective_branch_hash();
    if hash != BranchHash::Full {
        push_text(out, branch_hash_flag(hash));
    }
    if !config.effective_branch_upstream_status() {
        push_text(out, "--no-upstream-status");
    }
    if config.effective_branch_origin_status() {
        push_text(out, "--origin-status");
    }
    assert(strings_view(out@) =~= start + branch_overrides(*config));
}

/// The flag that selects a branch hash mode.
pub fn branch_hash_flag(hash: BranchHash) -> (r: &'static str)
    ensures
        r@ == branch_hash_flag_spec(hash),
{
    match hash {
        BranchHash::Omitted => "--no-commit-hash",
        BranchHash::Short => "--short-commit-hash",
        BranchHash::Full => "--commit-hash",
    }
}

/// The help footer that lists the flags equivalent to the configuration, for the command.
pub fn effective_config_footer(config: &ConfigFile, scope: HelpScope) -> (r: Option<String>)
    ensures
        match r {
            Some(s) => config_footer_spec(*config, scope) == Some(s@),
            None => config_footer_spec(*config, scope) is None,
        },
{
    let overrides = config_override_flags(config, scope);
    if overrides.len() == 0 {
        return None;
    }
    let mut footer = string_of("Config overrides (equivalent CLI flags):\n  ");
    let body = join_strings(&overrides, "\n  ");
    push_str(&mut footer, body.as_str());
    Some(footer)
}

/// A config whose settings all have their default effect.
pub open spec fn default_equivalent(config: ConfigFile) -> bool {
    &&& (config.paths matches Some(p) ==> p@.len() == 0)
    &&& config.spec_include_cwd()
    &&& !config.spec_absolute_paths()
    &&& config.spec_exclude_dirs() == seq![DEFAULT_EXCLUDE_DIR@]
    &&& config.spec_branch_search() == BranchSearch::Local
    &&& config.spec_branch_hash() == BranchHash::Full
    &&& config.spec_branch_upstream_status()
    &&& !config.spec_branch_origin_status()
    &&& config.spec_repo_query() == QueryMode::Contains
    &&& config.spec_branch_query() == QueryMode::Contains
    &&& config.spec_stash_query() == QueryMode::Contains
}

/// A configuration whose settings all have their default effect adds no footer to any help.
pub proof fn law_default_equivalent_config_has_no_footer(config: ConfigFile, scope: HelpScope)
    requires
        default_equivalent(config),
    ensures
        config_footer_spec(config, scope) is None,
{
    if let Some(p) = config.paths {
        assert(strings_view(p@).map_values(|x: Seq<char>| "--path "@ + x) =~= Seq::<Seq<char>>::empty());
    }
    assert(traversal_overrides(config) =~= Seq::<Seq<char>>::empty());
    assert(branch_overrides(config) =~= Seq::<Seq<char>>::empty());
    assert(config_overrides(config, scope) =~= Seq::<Seq<char>>::empty());
}

/// What either part holds, the two parts joined hold.
proof fn lemma_concat_contains(a: Seq<Seq<char>>, b: Seq<Seq<char>>, x: Seq<char>)
    ensures
        a.contains(x) || b.contains(x) ==> (a + b).contains(x),
{
    if a.contains(x) {
        let k = choose|k: int| 0 <= k < a.len() && a[k] == x;
        assert((a + b)[k] == x);
    } else if b.contains(x) {
        let k = choose|k: int| 0 <= k < b.len() && b[k] == x;
        assert((a + b)[a.len() + k] == x);
    }
}

/// What one of the parts holds, the parts joined hold.
proof fn lemma_in_parts(
    t: Seq<Seq<char>>,
    a: Seq<Seq<char>>,
    b: Seq<Seq<char>>,
    c: Seq<Seq<char>>,
    d: Seq<Seq<char>>,
    e: Seq<Seq<char>>,
    x: Seq<char>,
)
    ensures
        a.contains(x) || b.contains(x) || c.contains(x) || d.contains(x) || e.contains(x)
            ==> (t + (a + b + c + d + e)).contains(x),
{
    lemma_concat_contains(a, b, x);
    lemma_concat_contains(a + b, c, x);
    lemma_concat_contains(a + b + c, d, x);
    lemma_concat_contains(a + b + c + d, e, x);
    lemma_concat_contains(t, a + b + c + d + e, x);
}

/// Help for a command that searches repositories lists, among its equivalent flags, every
/// traversal setting of the configuration that differs from the default: each configured path,
/// `--no-cwd`, `--absolute` and `--no-exclude-dirs`. The footer is shown exactly when there is
/// some equivalent flag.
pub proof fn law_help_lists_changed_traversal_settings(config: ConfigFile, scope: HelpScope)
    ensures
        config_footer_spec(config, scope) is Some <==> config_overrides(config, scope).len() > 0,
        scope.spec_uses_traversal() && !config.spec_include_cwd() ==> config_overrides(config, scope).contains("--no-cwd"@),
        scope.spec_uses_traversal() && config.spec_absolute_paths() ==> config_overrides(config, scope).contains("--absolute"@),
        scope.spec_uses_traversal() && config.spec_exclude_dirs().len() == 0
            ==> config_overrides(config, scope).contains("--no-exclude-dirs"@),
        scope.spec_uses_traversal() && config.paths is Some ==> forall|i: int| 0 <= i < configured_paths(config).len()
            ==> config_overrides(config, scope).contains("--path "@ + #[trigger] configured_paths(config)[i]),
{
    let tr = traversal_overrides(config);
    let cmd = match scope {
        HelpScope::Repos => query_override(config.spec_repo_query()),
        HelpScope::Branch => branch_overrides(config),
        HelpScope::Stash => query_override(config.spec_stash_query()),
        _ => Seq::<Seq<char>>::empty(),
    };
    let paths = match config.paths {
        Some(p) => strings_view(p@).map_values(|x: Seq<char>| "--path "@ + x),
        None => Seq::<Seq<char>>::empty(),
    };
    let cwd = if !config.spec_include_cwd() { seq!["--no-cwd"@] } else { Seq::<Seq<char>>::empty() };
    let abs = if config.spec_absolute_paths() { seq!["--absolute"@] } else { Seq::<Seq<char>>::empty() };
    let excl = config.spec_exclude_dirs();
    let ex = if excl == seq![DEFAULT_EXCLUDE_DIR@] {
        Seq::<Seq<char>>::empty()
    } else if excl.len() == 0 {
        seq!["--no-exclude-dirs"@]
    } else {
        excl.map_values(|x: Seq<char>| "--exclude-dir "@ + x)
    };
    if scope.spec_uses_traversal() {
        assert(tr == paths + cwd + abs + ex);
        assert(config_overrides(config, scope) == tr + cmd);
        if excl.len() == 0 {
            assert(seq![DEFAULT_EXCLUDE_DIR@].len() == 1);
            assert(ex[0] == "--no-exclude-dirs"@);
        }
        if config.spec_absolute_paths() {
            assert(abs[0] == "--absolute"@);
        }
        if !config.spec_include_cwd() {
            assert(cwd[0] == "--no-cwd"@);
        }
        lemma_in_parts(Seq::<Seq<char>>::empty(), paths, cwd, abs, ex, cmd, "--no-cwd"@);
        lemma_in_parts(Seq::<Seq<char>>::empty(), paths, cwd, abs, ex, cmd, "--absolute"@);
        lemma_in_parts(Seq::<Seq<char>>::empty(), paths, cwd, abs, ex, cmd, "--no-exclude-dirs"@);
        assert(Seq::<Seq<char>>::empty() + (paths + cwd + abs + ex + cmd) =~= tr + cmd);
        if config.paths is Some {
            assert forall|i: int| 0 <= i < configured_paths(config).len()
                implies (tr + cmd).contains("--path "@ + #[trigger] configured_paths(config)[i]) by {
                let x = "--path "@ + configured_paths(config)[i];
                assert(paths[i] == x);
                lemma_in_parts(Seq::<Seq<char>>::empty(), paths, cwd, abs, ex, cmd, x);
            }
        }
    }
}

/// Help lists, among its equivalent flags, the command's query mode when it is not the default
/// one, and for `branch` every branch setting that differs from the default: the search, the hash
/// mode, `--no-upstream-status` and `--origin-status`.
pub proof fn law_help_lists_changed_command_settings(config: ConfigFile, scope: HelpScope)
    ensures
        scope == HelpScope::Repos && config.spec_repo_query() != QueryMode::Contains
            ==> config_overrides(config, scope).contains("--query-mode "@ + config.spec_repo_query().name()),
        scope == HelpScope::Stash && config.spec_stash_query() != QueryMode::Contains
            ==> config_overrides(config, scope).contains("--query-mode "@ + config.spec_stash_query().name()),
        scope == HelpScope::Branch && config.spec_branch_query() != QueryMode::Contains
            ==> config_overrides(config, scope).contains("--query-mode "@ + config.spec_branch_query().name()),
        scope == HelpScope::Branch && config.spec_branch_search() != BranchSearch::Local
            ==> config_overrides(config, scope).contains("--"@ + config.spec_branch_search().name()),
        scope == HelpScope::Branch && config.spec_branch_hash() != BranchHash::Full
            ==> config_overrides(config, scope).contains(branch_hash_flag_spec(config.spec_branch_hash())),
        scope == HelpScope::Branch && !config.spec_branch_upstream_status()
            ==> config_overrides(config, scope).contains("--no-upstream-status"@),
        scope == HelpScope::Branch && config.spec_branch_origin_status()
            ==> config_overrides(config, scope).contains("--origin-status"@),
{
    let tr = traversal_overrides(config);
    let o = config_overrides(config, scope);
    if scope == HelpScope::Repos && config.spec_repo_query() != QueryMode::Contains {
        let cmd = query_override(config.spec_repo_query());
        assert(o == tr + cmd);
        lemma_concat_contains(tr, cmd, cmd[0]);
    }
    if scope == HelpScope::Stash && config.spec_stash_query() != QueryMode::Contains {
        let cmd = query_override(config.spec_stash_query());
        assert(o == tr + cmd);
        lemma_concat_contains(tr, cmd, cmd[0]);
    }
    if scope == HelpScope::Branch {
        let bq = query_override(config.spec_branch_query());
        let bs = if config.spec_branch_search() != BranchSearch::Local {
            seq!["--"@ + config.spec_branch_search().name()]
        } else { Seq::<Seq<char>>::empty() };
        let bh = if config.spec_branch_hash() != BranchHash::Full {
            seq![branch_hash_flag_spec(config.spec_branch_hash())]
        } else { Seq::<Seq<char>>::empty() };
        let bu = if !config.spec_branch_upstream_status() { seq!["--no-upstream-status"@] } else { Seq::<Seq<char>>::empty() };
        let bo = if config.spec_branch_origin_status() { seq!["--origin-status"@] } else { Seq::<Seq<char>>::empty() };
        assert(o == tr + (bq + bs + bh + bu + bo));
        if config.spec_branch_query() != QueryMode::Contains {
            lemma_in_parts(tr, bq, bs, bh, bu, bo, bq[0]);
        }
        if config.spec_branch_search() != BranchSearch::Local {
            lemma_in_parts(tr, bq, bs, bh, bu, bo, bs[0]);
        }
        if config.spec_branch_hash() != BranchHash::Full {
            lemma_in_parts(tr, bq, bs, bh, bu, bo, bh[0]);
        }
        if !config.spec_branch_upstream_status() {
            lemma_in_parts(tr, bq, bs, bh, bu, bo, bu[0]);
        }
        if config.spec_branch_origin_status() {
            lemma_in_parts(tr, bq, bs, bh, bu, bo, bo[0]);
        }
    }
}

/// Whether an argument names the config file: `--config` or `--config=<path>`.
pub open spec fn names_config(arg: Seq<char>) -> bool {
    arg == "--config"@ || has_prefix(arg, "--config="@)
}

/// Arguments that name no config file do not change which one is named after them.
proof fn lemma_config_path_skips(args: Seq<Seq<char>>, i: int, j: int)
    requires
        0 <= i <= j <= args.len(),
        forall|k: int| i <= k < j ==> !names_config(#[trigger] args[k]),
    ensures
        config_path_from(args, i) == config_path_from(args, j),
    decreases j - i,
{
    if i < j {
        assert(!names_config(args[i]));
        lemma_config_path_skips(args, i + 1, j);
    }
}

/// The config file is the one the first `--config <path>` or `--config=<path>` names; without
/// one, it is `~/.gfind/config.toml`.
pub proof fn law_config_path_is_the_first_named(args: Seq<Seq<char>>, k: int, path: Seq<char>)
    requires
        1 <= k,
        forall|j: int| 1 <= j < k && j < args.len() ==> !names_config(#[trigger] args[j]),
    ensures
        k + 1 < args.len() && args[k] == "--config"@ && args[k + 1] == path ==> config_path_from(args, 1) == path,
        k < args.len() && args[k] == "--config="@ + path ==> config_path_from(args, 1) == path,
        k == args.len() ==> config_path_from(args, 1) == "~/.gfind/config.toml"@,
{
    reveal_strlit("--config=");
    reveal_strlit("--config");
    if k <= args.len() {
        lemma_config_path_skips(args, 1, k);
    }
    if k < args.len() && args[k] == "--config="@ + path {
        assert(args[k].take(9) =~= "--config="@);
        assert(args[k].skip(9) =~= path);
        assert(args[k] != "--config"@) by {
            assert(args[k].len() >= 9);
            assert("--config"@.len() == 8);
        }
    }
}

/// Skipping options: options that take no value are passed over one at a time.
proof fn lemma_command_index_skips(args: Seq<Seq<char>>, i: int, k: int)
    requires
        1 <= i <= k < args.len(),
        forall|j: int| i <= j < k ==> !takes_value(#[trigger] args[j]) && args[j].len() > 0 && args[j][0] == '-',
        !takes_value(args[k]),
    ensures
        command_index_from(args, i) == command_index_from(args, k),
    decreases k - i,
{
    if i < k {
        lemma_command_index_skips(args, i + 1, k);
    }
}

/// The command is the first argument after the program name that is not an option: options
/// before it that take no value are passed over, and the one that takes a value skips it.
pub proof fn law_command_is_first_non_option(args: Seq<Seq<char>>, k: int)
    requires
        1 <= k < args.len(),
        forall|j: int| 1 <= j < k ==> !takes_value(#[trigger] args[j]) && args[j].len() > 0 && args[j][0] == '-',
        !(args[k].len() > 0 && args[k][0] == '-'),
    ensures
        command_index_spec(args) == Some(k),
{
    assert(!takes_value(args[k])) by {
        reveal_strlit("--config");
        reveal_strlit("--path");
        reveal_strlit("-p");
        reveal_strlit("--exclude-dir");
        if takes_value(args[k]) {
            assert(args[k][0] == '-');
        }
    }
    lemma_command_index_skips(args, 1, k);
}

/// An option that takes a value (`--config`, `--path`, `-p`, `--exclude-dir`) is never the
/// command, and neither is its value: the search goes on after both.
pub proof fn law_value_options_skip_their_value(args: Seq<Seq<char>>, i: int)
    requires
        0 <= i < args.len(),
        takes_value(args[i]),
    ensures
        command_index_from(args, i) == command_index_from(args, i + 2),
{
}

/// `-h` or `--help` anywhere after the program name asks for help, and so does `help` as the
/// command.
pub proof fn law_help_flags_request_help(args: Seq<Seq<char>>, i: int)
    requires
        1 <= i < args.len(),
    ensures
        args[i] == "-h"@ || args[i] == "--help"@ ==> requests_help_spec(args),
        command_index_spec(args) == Some(i) && args[i] == "help"@ ==> requests_help_spec(args),
{
}

/* Defaults shown in help */

/// The defaults help shows for the options, taken from the configuration (or the built-in
/// defaults when there is none).
pub struct HelpDefaults {
    /// The default of `--cwd`.
    pub cwd: bool,
    /// The default of `--absolute`.
    pub absolute: bool,
    /// The default values of `--path`; none are shown when this is empty.
    pub paths: Vec<String>,
    /// The default values of `--exclude-dir`; when empty, `--no-exclude-dirs` defaults to true.
    pub exclude_dirs: Vec<String>,
    /// The default of `repos --query-mode`.
    pub repo_query: QueryMode,
    /// The default of `branch --query-mode`.
    pub branch_query: QueryMode,
    /// The default of `stash --query-mode`.
    pub stash_query: QueryMode,
    /// The default of `branch --upstream-status`.
    pub upstream_status: bool,
    /// The default of `branch --origin-status`.
    pub origin_status: bool,
    /// The branch search flag shown as set by default.
    pub branch_search: BranchSearch,
    /// The branch hash flag shown as set by default.
    pub branch_hash: BranchHash,
}

/// The paths shown as defaults: the configured ones, or none.
pub open spec fn configured_paths(config: ConfigFile) -> Seq<Seq<char>> {
    match config.paths {
        Some(p) => strings_view(p@),
        None => seq![],
    }
}

impl HelpDefaults {
    /// Whether these are the defaults of a configuration.
    pub open spec fn describes(&self, config: ConfigFile) -> bool {
        &&& self.cwd == config.spec_include_cwd()
        &&& self.absolute == config.spec_absolute_paths()
        &&& strings_view(self.paths@) == configured_paths(config)
        &&& strings_view(self.exclude_dirs@) == config.spec_exclude_dirs()
        &&& self.repo_query == config.spec_repo_query()
        &&& self.branch_query == config.spec_branch_query()
        &&& self.stash_query == config.spec_stash_query()
        &&& self.upstream_status == config.spec_branch_upstream_status()
        &&& self.origin_status == config.spec_branch_origin_status()
        &&& self.branch_search == config.spec_branch_search()
        &&& self.branch_hash == config.spec_branch_hash()
    }

    /// The defaults of a configuration.
    pub fn of_config(config: &ConfigFile) -> (r: HelpDefaults)
        ensures
            r.describes(*config),
    {
        let paths = match &config.paths {
            Some(p) => clone_strings(p),
            None => {
                let v: Vec<String> = Vec::new();
                assert(strings_view(v@) =~= Seq::<Seq<char>>::empty());
                v
            },
        };
        HelpDefaults {
            cwd: config.effective_include_cwd(),
            absolute: config.effective_absolute_paths(),
            paths,
            exclude_dirs: config.effective_exclude_dirs(),
            repo_query: config.effective_repo_query(),
            branch_query: config.effective_branch_query(),
            stash_query: config.effective_stash_query(),
            upstream_status: config.effective_branch_upstream_status(),
            origin_status: config.effective_branch_origin_status(),
            branch_search: config.effective_branch_search(),
            branch_hash: config.effective_branch_hash(),
        }
    }
}

/// The argument id of the branch hash flag that help shows as set.
pub fn branch_hash_flag_id(hash: BranchHash) -> (r: &'static str)
    ensures
        r@ == (match hash {
            BranchHash::Omitted => "no_commit_hash"@,
            BranchHash::Short => "short_commit_hash"@,
            BranchHash::Full => "commit_hash"@,
        }),
{
    match hash {
        BranchHash::Omitted => "no_commit_hash",
        BranchHash::Short => "short_commit_hash",
        BranchHash::Full => "commit_hash",
    }
}

/// The help of a flag with its default: ` [default: true]` or ` [default: false]` appended.
pub fn help_with_default(help: &str, value: bool) -> (r: String)
    ensures
        r@ == help@ + " [default: "@ + (if value { "true"@ } else { "false"@ }) + "]"@,
{
    let mut r = string_of(help);
    push_str(&mut r, " [default: ");
    push_str(&mut r, if value { "true" } else { "false" });
    push_str(&mut r, "]");
    r
}

/// With a configuration whose settings all have their default effect, help shows the same
/// defaults as with no configuration.
pub proof fn law_default_equivalent_config_same_defaults(config: ConfigFile, empty: ConfigFile, a: HelpDefaults, b: HelpDefaults)
    requires
        default_equivalent(config),
        empty.is_empty(),
        a.describes(config),
        b.describes(empty),
    ensures
        a.cwd == b.cwd,
        a.absolute == b.absolute,
        strings_view(a.paths@) == strings_view(b.paths@),
        strings_view(a.exclude_dirs@) == strings_view(b.exclude_dirs@),
        a.repo_query == b.repo_query,
        a.branch_query == b.branch_query,
        a.stash_query == b.stash_query,
        a.upstream_status == b.upstream_status,
        a.origin_status == b.origin_status,
        a.branch_search == b.branch_search,
        a.branch_hash == b.branch_hash,
{
    if let Some(p) = config.paths {
        assert(strings_view(p@) =~= Seq::<Seq<char>>::empty());
    }
}

} // verus!
