use gfind::config::BranchHash;
use gfind::config::BranchSearch;
use gfind::config::ConfigFile;
use gfind::config::check_init_allowed;
use gfind::config::documented_config;
use gfind::config::load_config;
use gfind::query::QueryMode;

#[test]
fn documented_config_is_valid_and_complete() {
    let table: toml::Table = toml::from_str(documented_config()).unwrap();

    assert_eq!(table["paths"].as_array().unwrap().len(), 0);
    assert_eq!(table["include_cwd"].as_bool(), Some(true));
    assert_eq!(table["absolute_paths"].as_bool(), Some(false));
    let exclusions = table["exclude_dirs"].as_array().unwrap();
    assert_eq!(exclusions.len(), 1);
    assert_eq!(exclusions[0].as_str(), Some("^target$"));
    assert_eq!(table["branch_search"].as_str(), Some("local"));
    assert_eq!(table["repo_query"].as_str(), Some("contains"));
    assert_eq!(table["branch_query"].as_str(), Some("contains"));
    assert_eq!(table["stash_query"].as_str(), Some("contains"));
    assert_eq!(table["branch_hash"].as_str(), Some("full"));
    assert_eq!(table["branch_upstream_status"].as_bool(), Some(true));
    assert_eq!(table["branch_origin_status"].as_bool(), Some(false));
    assert_eq!(table.len(), 11);

    for key in [
        "paths",
        "include_cwd",
        "absolute_paths",
        "exclude_dirs",
        "branch_search",
        "repo_query",
        "branch_query",
        "stash_query",
        "branch_hash",
        "branch_upstream_status",
        "branch_origin_status",
        "branch_hashes",
        "Examples",
        "paths = [\"~/src\", \"~/work\"]",
    ] {
        assert!(documented_config().contains(key), "missing {key}");
    }
}

#[test]
fn config_defaults_apply_to_missing_settings() {
    let config = ConfigFile::default();
    assert!(config.effective_include_cwd());
    assert!(!config.effective_absolute_paths());
    assert_eq!(config.effective_exclude_dirs(), vec!["^target$".to_string()]);
    assert_eq!(config.effective_branch_search(), BranchSearch::Local);
    assert_eq!(config.effective_branch_hash(), BranchHash::Full);
    assert!(config.effective_branch_upstream_status());
    assert!(!config.effective_branch_origin_status());
    assert_eq!(config.effective_repo_query(), QueryMode::Contains);
    assert_eq!(config.effective_branch_query(), QueryMode::Contains);
    assert_eq!(config.effective_stash_query(), QueryMode::Contains);
}

#[test]
fn config_settings_take_effect() {
    let config = ConfigFile {
        include_cwd: Some(false),
        absolute_paths: Some(true),
        exclude_dirs: Some(Vec::new()),
        branch_search: Some(BranchSearch::Remote),
        branch_hash: Some(BranchHash::Omitted),
        branch_hashes: Some(true),
        branch_upstream_status: Some(false),
        branch_origin_status: Some(true),
        repo_query: Some(QueryMode::Fuzzy),
        branch_query: Some(QueryMode::Exact),
        stash_query: Some(QueryMode::Regex),
        ..ConfigFile::default()
    };
    assert!(!config.effective_include_cwd());
    assert!(config.effective_absolute_paths());
    assert!(config.effective_exclude_dirs().is_empty());
    assert_eq!(config.effective_branch_search(), BranchSearch::Remote);
    assert_eq!(config.effective_branch_hash(), BranchHash::Omitted);
    assert!(!config.effective_branch_upstream_status());
    assert!(config.effective_branch_origin_status());
    assert_eq!(config.effective_repo_query(), QueryMode::Fuzzy);
    assert_eq!(config.effective_branch_query(), QueryMode::Exact);
    assert_eq!(config.effective_stash_query(), QueryMode::Regex);
}

#[test]
fn missing_config_file_means_no_settings() {
    let config = load_config(None);
    assert!(config.paths.is_none());
    let loaded = load_config(Some(ConfigFile { include_cwd: Some(false), ..ConfigFile::default() }));
    assert_eq!(loaded.include_cwd, Some(false));
}

#[test]
fn config_init_preserves_existing_files_unless_forced() {
    assert!(check_init_allowed("/c.toml", false, false).is_ok());
    assert!(check_init_allowed("/c.toml", true, true).is_ok());
    assert_eq!(
        check_init_allowed("/c.toml", true, false).unwrap_err().text(),
        "config /c.toml already exists; use --force to overwrite it"
    );
}
