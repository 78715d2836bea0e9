use gfind::config::BranchHash;
use gfind::config::BranchSearch;
use gfind::config::ConfigFile;
use gfind::config::DEFAULT_EXCLUDE_DIR;
use gfind::options::GlobalOptions;
use gfind::options::QueryOptions;
use gfind::options::absolute_paths_mode;
use gfind::options::branch_hash_mode;
use gfind::options::branch_origin_status;
use gfind::options::branch_search_mode;
use gfind::options::branch_upstream_status;
use gfind::options::exclude_dir_patterns;
use gfind::options::query_mode;
use gfind::options::search_root_plan;
use gfind::query::QueryMode;

fn no_global_options() -> GlobalOptions {
    GlobalOptions {
        verbose: false,
        absolute: false,
        relative: false,
        config: "~/.gfind/config.toml".to_string(),
        paths: Vec::new(),
        cwd: false,
        no_cwd: false,
        exclude_dirs: Vec::new(),
        no_exclude_dirs: false,
    }
}

#[test]
fn branch_search_cli_overrides_config() {
    let config = ConfigFile {
        branch_search: Some(BranchSearch::All),
        ..ConfigFile::default()
    };

    assert_eq!(branch_search_mode(false, true, false, false, &config).unwrap(), BranchSearch::Local);
    assert_eq!(branch_search_mode(false, false, false, false, &config).unwrap(), BranchSearch::All);
    assert!(branch_search_mode(true, true, false, false, &config).is_err());
}

#[test]
fn branch_search_conflict_has_a_message() {
    let err = branch_search_mode(false, false, true, true, &ConfigFile::default()).unwrap_err();
    assert_eq!(err.text(), "use only one of --current, --local, --remote, or --all");
    assert_eq!(
        branch_search_mode(false, false, false, false, &ConfigFile::default()).unwrap(),
        BranchSearch::Local
    );
    assert_eq!(
        branch_search_mode(true, false, false, false, &ConfigFile::default()).unwrap(),
        BranchSearch::Current
    );
}

#[test]
fn branch_hash_cli_overrides_config() {
    let config = ConfigFile {
        branch_hash: Some(BranchHash::Short),
        ..ConfigFile::default()
    };

    assert_eq!(branch_hash_mode(true, false, false, &config), BranchHash::Full);
    assert_eq!(branch_hash_mode(false, true, false, &config), BranchHash::Short);
    assert_eq!(branch_hash_mode(false, false, true, &config), BranchHash::Omitted);
    assert_eq!(branch_hash_mode(false, false, false, &config), BranchHash::Short);
    assert_eq!(branch_hash_mode(false, false, false, &ConfigFile::default()), BranchHash::Full);
}

#[test]
fn branch_hash_mode_keeps_branch_hashes_compatibility() {
    let disabled = ConfigFile {
        branch_hashes: Some(false),
        ..ConfigFile::default()
    };
    let enabled = ConfigFile {
        branch_hashes: Some(true),
        ..ConfigFile::default()
    };

    assert_eq!(branch_hash_mode(false, false, false, &disabled), BranchHash::Omitted);
    assert_eq!(branch_hash_mode(false, false, false, &enabled), BranchHash::Full);
}

#[test]
fn branch_upstream_status_cli_overrides_config() {
    let config = ConfigFile {
        branch_upstream_status: Some(false),
        ..ConfigFile::default()
    };

    assert!(branch_upstream_status(true, false, &config));
    assert!(!branch_upstream_status(false, true, &config));
    assert!(!branch_upstream_status(false, false, &config));
    assert!(branch_upstream_status(false, false, &ConfigFile::default()));
}

#[test]
fn branch_origin_status_cli_overrides_config() {
    let config = ConfigFile {
        branch_origin_status: Some(false),
        ..ConfigFile::default()
    };

    assert!(branch_origin_status(true, false, &config));
    assert!(!branch_origin_status(false, true, &config));
    assert!(!branch_origin_status(false, false, &config));
    assert!(!branch_origin_status(false, false, &ConfigFile::default()));
}

#[test]
fn query_mode_flags_override_configured_mode() {
    let none = QueryOptions { query_mode: None, contains: false, exact: false, fuzzy: false, regex: false };
    assert_eq!(query_mode(&none, QueryMode::Fuzzy), QueryMode::Fuzzy);
    let exact = QueryOptions { query_mode: None, contains: false, exact: true, fuzzy: false, regex: false };
    assert_eq!(query_mode(&exact, QueryMode::Fuzzy), QueryMode::Exact);
    let named = QueryOptions { query_mode: Some(QueryMode::Regex), contains: false, exact: false, fuzzy: false, regex: false };
    assert_eq!(query_mode(&named, QueryMode::Contains), QueryMode::Regex);
    let contains = QueryOptions { query_mode: None, contains: true, exact: false, fuzzy: false, regex: false };
    assert_eq!(query_mode(&contains, QueryMode::Regex), QueryMode::Contains);
}

#[test]
fn resolves_directory_exclusion_precedence() {
    let defaults = no_global_options();
    assert_eq!(exclude_dir_patterns(&defaults, &ConfigFile::default()), [DEFAULT_EXCLUDE_DIR]);

    let config = ConfigFile {
        exclude_dirs: Some(vec!["^vendor$".to_string()]),
        ..ConfigFile::default()
    };
    assert_eq!(exclude_dir_patterns(&defaults, &config), ["^vendor$"]);

    let mut cli = no_global_options();
    cli.exclude_dirs = vec!["^build$".to_string()];
    assert_eq!(exclude_dir_patterns(&cli, &config), ["^build$"]);

    let mut disabled = no_global_options();
    disabled.no_exclude_dirs = true;
    assert!(exclude_dir_patterns(&disabled, &config).is_empty());
}

#[test]
fn absolute_paths_flags_override_config() {
    let absolute = ConfigFile { absolute_paths: Some(true), ..ConfigFile::default() };
    let mut relative = no_global_options();
    relative.relative = true;
    assert!(!absolute_paths_mode(&relative, &absolute));
    assert!(absolute_paths_mode(&no_global_options(), &absolute));
    let mut flag = no_global_options();
    flag.absolute = true;
    assert!(absolute_paths_mode(&flag, &ConfigFile::default()));
    assert!(!absolute_paths_mode(&no_global_options(), &ConfigFile::default()));
}

#[test]
fn search_roots_come_from_cli_or_config() {
    let config = ConfigFile {
        paths: Some(vec!["~/src".to_string()]),
        include_cwd: Some(false),
        ..ConfigFile::default()
    };
    let (roots, cwd) = search_root_plan(&no_global_options(), &config);
    assert_eq!(roots, vec!["~/src".to_string()]);
    assert!(!cwd);

    let mut cli = no_global_options();
    cli.paths = vec!["/a".to_string(), "/b".to_string()];
    let (roots, cwd) = search_root_plan(&cli, &config);
    assert_eq!(roots, vec!["/a".to_string(), "/b".to_string()]);
    assert!(!cwd);

    cli.cwd = true;
    assert!(search_root_plan(&cli, &config).1);

    let (roots, cwd) = search_root_plan(&no_global_options(), &ConfigFile::default());
    assert!(roots.is_empty());
    assert!(cwd);

    let mut no_cwd = no_global_options();
    no_cwd.no_cwd = true;
    assert!(!search_root_plan(&no_cwd, &ConfigFile::default()).1);
}
