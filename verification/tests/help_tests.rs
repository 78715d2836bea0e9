use gfind::config::BranchHash;
use gfind::config::BranchSearch;
use gfind::config::ConfigFile;
use gfind::help::HelpDefaults;
use gfind::help::HelpScope;
use gfind::help::branch_hash_flag;
use gfind::help::branch_hash_flag_id;
use gfind::help::config_path_from_args;
use gfind::help::default_config_path;
use gfind::help::effective_config_footer;
use gfind::help::help_with_default;
use gfind::help::normalize_help_command;
use gfind::help::requests_help;
use gfind::help::top_level_command_index;
use gfind::query::QueryMode;

fn args(items: &[&str]) -> Vec<String> {
    items.iter().map(|s| s.to_string()).collect()
}

#[test]
fn finds_config_path_for_help() {
    assert_eq!(
        config_path_from_args(&args(&["gfind", "branch", "--config", "./custom.toml", "--help"])),
        "./custom.toml"
    );
    assert_eq!(config_path_from_args(&args(&["gfind", "--config=./other.toml", "--help"])), "./other.toml");
}

#[test]
fn config_path_defaults_when_not_given() {
    assert_eq!(config_path_from_args(&args(&["gfind", "--help"])), "~/.gfind/config.toml");
    assert_eq!(config_path_from_args(&args(&["gfind", "--config"])), "~/.gfind/config.toml");
    assert_eq!(config_path_from_args(&args(&["--config=x"])), "~/.gfind/config.toml");
}

#[test]
fn normalizes_help_subcommand_after_global_options() {
    let mut a = args(&["gfind", "--config", "./custom.toml", "help", "branch"]);

    assert!(requests_help(&a));
    normalize_help_command(&mut a);

    assert_eq!(a, args(&["gfind", "--config", "./custom.toml", "branch", "--help"]));
}

#[test]
fn help_requests_and_command_positions() {
    assert!(requests_help(&args(&["gfind", "-h"])));
    assert!(requests_help(&args(&["gfind", "branch", "--help"])));
    assert!(!requests_help(&args(&["gfind", "branch", "help"])));
    assert!(!requests_help(&args(&["-h"])));
    assert_eq!(top_level_command_index(&args(&["gfind", "-p", "x", "--verbose", "repos"])), Some(4));
    assert_eq!(top_level_command_index(&args(&["gfind", "--path=x", "repos"])), Some(2));
    assert_eq!(top_level_command_index(&args(&["gfind", "--exclude-dir"])), None);
    assert_eq!(top_level_command_index(&args(&["gfind"])), None);
    let mut help_command = args(&["gfind", "-p", "x", "help"]);
    assert!(requests_help(&help_command));
    normalize_help_command(&mut help_command);
    assert_eq!(help_command, args(&["gfind", "-p", "x", "--help"]));
    assert!(requests_help(&help_command));
    let mut unchanged = args(&["gfind", "repos", "help"]);
    normalize_help_command(&mut unchanged);
    assert_eq!(unchanged, args(&["gfind", "repos", "help"]));
}

#[test]
fn help_scope_follows_the_command() {
    assert_eq!(HelpScope::from_args(&args(&["gfind", "--help"])), HelpScope::TopLevel);
    assert_eq!(HelpScope::from_args(&args(&["gfind", "b", "--help"])), HelpScope::Branch);
    assert_eq!(HelpScope::from_args(&args(&["gfind", "--config", "c", "sh"])), HelpScope::Stash);
    assert_eq!(HelpScope::from_args(&args(&["gfind", "config", "--help"])), HelpScope::Other);
    assert!(HelpScope::Repos.uses_traversal());
    assert!(HelpScope::TopLevel.uses_traversal());
    assert!(!HelpScope::Other.uses_traversal());
}

#[test]
fn uses_config_toml_in_gfind_directory_by_default() {
    assert_eq!(default_config_path(), "~/.gfind/config.toml");
    assert_eq!(config_path_from_args(&args(&["gfind", "repos"])), "~/.gfind/config.toml");
}

fn overriding_config() -> ConfigFile {
    ConfigFile {
        paths: Some(vec!["~/src".to_string()]),
        include_cwd: Some(false),
        absolute_paths: Some(true),
        exclude_dirs: Some(vec!["^vendor$".to_string()]),
        branch_search: Some(BranchSearch::All),
        branch_hash: Some(BranchHash::Short),
        branch_upstream_status: Some(false),
        branch_origin_status: Some(true),
        branch_query: Some(QueryMode::Regex),
        ..ConfigFile::default()
    }
}

#[test]
fn help_footer_lists_config_overrides_for_the_command() {
    let config = overriding_config();
    let top = effective_config_footer(&config, HelpScope::TopLevel).unwrap();
    assert_eq!(
        top,
        "Config overrides (equivalent CLI flags):\n  --path ~/src\n  --no-cwd\n  --absolute\n  --exclude-dir ^vendor$"
    );
    assert!(!top.contains("--all"));

    let branch = effective_config_footer(&config, HelpScope::Branch).unwrap();
    assert_eq!(
        branch,
        "Config overrides (equivalent CLI flags):\n  --path ~/src\n  --no-cwd\n  --absolute\n  --exclude-dir ^vendor$\n  --query-mode regex\n  --all\n  --short-commit-hash\n  --no-upstream-status\n  --origin-status"
    );
    assert_eq!(effective_config_footer(&config, HelpScope::Other), None);
}

#[test]
fn help_footer_is_absent_for_default_equivalent_config() {
    let documented = ConfigFile {
        paths: Some(Vec::new()),
        include_cwd: Some(true),
        absolute_paths: Some(false),
        exclude_dirs: Some(vec!["^target$".to_string()]),
        branch_search: Some(BranchSearch::Local),
        branch_hash: Some(BranchHash::Full),
        branch_upstream_status: Some(true),
        branch_origin_status: Some(false),
        branch_hashes: None,
        repo_query: Some(QueryMode::Contains),
        branch_query: Some(QueryMode::Contains),
        stash_query: Some(QueryMode::Contains),
    };
    for scope in [HelpScope::TopLevel, HelpScope::Repos, HelpScope::Branch, HelpScope::Commit, HelpScope::Status, HelpScope::Stash, HelpScope::Other] {
        assert_eq!(effective_config_footer(&documented, scope), None);
        assert_eq!(effective_config_footer(&ConfigFile::default(), scope), None);
    }
    let a = HelpDefaults::of_config(&documented);
    let b = HelpDefaults::of_config(&ConfigFile::default());
    assert_eq!(a.cwd, b.cwd);
    assert_eq!(a.absolute, b.absolute);
    assert_eq!(a.paths, b.paths);
    assert_eq!(a.exclude_dirs, b.exclude_dirs);
    assert_eq!(a.branch_search, b.branch_search);
    assert_eq!(a.branch_hash, b.branch_hash);
}

#[test]
fn help_footer_for_other_settings() {
    let config = ConfigFile {
        exclude_dirs: Some(Vec::new()),
        repo_query: Some(QueryMode::Fuzzy),
        stash_query: Some(QueryMode::Exact),
        branch_hashes: Some(false),
        ..ConfigFile::default()
    };
    assert_eq!(
        effective_config_footer(&config, HelpScope::Repos).unwrap(),
        "Config overrides (equivalent CLI flags):\n  --no-exclude-dirs\n  --query-mode fuzzy"
    );
    assert_eq!(
        effective_config_footer(&config, HelpScope::Stash).unwrap(),
        "Config overrides (equivalent CLI flags):\n  --no-exclude-dirs\n  --query-mode exact"
    );
    assert_eq!(
        effective_config_footer(&config, HelpScope::Branch).unwrap(),
        "Config overrides (equivalent CLI flags):\n  --no-exclude-dirs\n  --no-commit-hash"
    );
}

#[test]
fn help_defaults_come_from_config() {
    let d = HelpDefaults::of_config(&overriding_config());
    assert!(!d.cwd);
    assert!(d.absolute);
    assert_eq!(d.paths, vec!["~/src".to_string()]);
    assert_eq!(d.exclude_dirs, vec!["^vendor$".to_string()]);
    assert_eq!(d.branch_query, QueryMode::Regex);
    assert_eq!(d.repo_query, QueryMode::Contains);
    assert!(!d.upstream_status);
    assert!(d.origin_status);
    assert_eq!(d.branch_search, BranchSearch::All);
    assert_eq!(d.branch_hash, BranchHash::Short);
    let builtin = HelpDefaults::of_config(&ConfigFile::default());
    assert!(builtin.cwd);
    assert!(builtin.paths.is_empty());
    assert_eq!(builtin.exclude_dirs, vec!["^target$".to_string()]);
}

#[test]
fn help_flag_texts() {
    assert_eq!(help_with_default("Match local branch refs", true), "Match local branch refs [default: true]");
    assert_eq!(help_with_default("", false), " [default: false]");
    assert_eq!(branch_hash_flag_id(BranchHash::Omitted), "no_commit_hash");
    assert_eq!(branch_hash_flag_id(BranchHash::Short), "short_commit_hash");
    assert_eq!(branch_hash_flag_id(BranchHash::Full), "commit_hash");
    assert_eq!(branch_hash_flag(BranchHash::Omitted), "--no-commit-hash");
    assert_eq!(BranchSearch::Remote.as_str(), "remote");
}
