use gfind::paths::DirectoryExclusions;
use gfind::paths::DisplayOptions;
use gfind::paths::EntryDecision;
use gfind::paths::dedupe_paths;
use gfind::paths::entry_decision;
use gfind::paths::expand_home;
use gfind::paths::push_repo;
use gfind::paths::relative_path;
use gfind::paths::relative_path_from;
use gfind::paths::repo_toplevel;
use gfind::paths::sort_paths;
use gfind::style::OutputStyle;

fn strings(items: &[&str]) -> Vec<String> {
    items.iter().map(|s| s.to_string()).collect()
}

#[test]
fn formats_relative_paths_from_cwd() {
    assert_eq!(relative_path("/repo", "/repo/project", '/'), "project");
    assert_eq!(relative_path("/repo/project", "/repo", '/'), "..");
    assert_eq!(relative_path("/repo/project", "/repo/project", '/'), ".");
}

#[test]
fn relative_paths_climb_and_descend() {
    assert_eq!(relative_path("/work/a/b", "/work/c/d", '/'), "../../c/d");
    assert_eq!(relative_path("/work/", "/work", '/'), ".");
    assert_eq!(relative_path("/work//a/./b", "/work/a/b/c", '/'), "c");
    assert_eq!(relative_path("relative/dir", "/abs/repo", '/'), "/abs/repo");
    assert_eq!(relative_path("/", "/x/y", '/'), "x/y");
}

#[test]
fn relative_path_from_components() {
    assert_eq!(
        relative_path_from(&strings(&["/", "a", "b"]), &strings(&["/", "a", "c"]), "/a/c", '/'),
        "../c"
    );
    assert_eq!(relative_path_from(&strings(&["a"]), &strings(&["b"]), "b/", '/'), "b/");
    assert_eq!(relative_path_from(&strings(&[]), &strings(&[]), "", '/'), ".");
}

#[test]
fn display_options_show_relative_or_absolute_paths() {
    let relative = DisplayOptions {
        absolute_paths: false,
        cwd: "/work".to_string(),
        separator: '/',
        style: OutputStyle { enabled: false },
    };
    let absolute = DisplayOptions {
        absolute_paths: true,
        cwd: "/work".to_string(),
        separator: '/',
        style: OutputStyle { enabled: false },
    };
    assert_eq!(relative.repo("/work/project"), "project");
    assert_eq!(relative.repo("/work"), ".");
    assert_eq!(absolute.repo("/work/project"), "/work/project");
}

#[test]
fn directory_exclusions_match_names_and_relative_paths() {
    let exclusions = DirectoryExclusions::new(strings(&["^target$", "^vendor/generated$"]), '/').unwrap();
    let root = "/work";

    assert!(exclusions.matches(root, "/work/project/target"));
    assert!(exclusions.matches(root, "/work/vendor/generated"));
    assert!(!exclusions.matches(root, "/work/project/targeted"));
    assert!(!exclusions.matches(root, "/work/vendor/source"));
}

#[test]
fn directory_exclusions_report_invalid_regexes() {
    let err = DirectoryExclusions::new(strings(&["^ok$", "("]), '/').unwrap_err();
    assert!(err.text().starts_with("invalid directory exclusion regex: "));
    assert!(err.text().len() > "invalid directory exclusion regex: ".len());
    let none = DirectoryExclusions::new(Vec::new(), '/').unwrap();
    assert_eq!(none.len(), 0);
    assert!(!none.matches("/work", "/work/target"));
    assert_eq!(DirectoryExclusions::new(strings(&["a", "b"]), '/').unwrap().len(), 2);
}

#[test]
fn exclusions_test_the_whole_path_outside_the_root() {
    let exclusions = DirectoryExclusions::new(strings(&["^/elsewhere/x$"]), '/').unwrap();
    assert!(exclusions.matches("/work", "/elsewhere/x"));
    assert!(!exclusions.matches("/work", "/work/elsewhere/x"));
    assert!(exclusions.matches_parts(None, "/elsewhere/x"));
    assert!(!exclusions.matches_parts(Some("x"), "y"));
}

#[test]
fn traversal_skips_git_files_symlinks_and_exclusions() {
    let exclusions = DirectoryExclusions::new(strings(&["^target$"]), '/').unwrap();
    assert_eq!(entry_decision(&exclusions, "/w", "/w/.git", ".git", true, false), EntryDecision::Skip);
    assert_eq!(entry_decision(&exclusions, "/w", "/w/f.txt", "f.txt", false, false), EntryDecision::Skip);
    assert_eq!(entry_decision(&exclusions, "/w", "/w/link", "link", true, true), EntryDecision::Skip);
    assert_eq!(entry_decision(&exclusions, "/w", "/w/a/target", "target", true, false), EntryDecision::Excluded);
    assert_eq!(entry_decision(&exclusions, "/w", "/w/src", "src", true, false), EntryDecision::Descend);
}

#[test]
fn repositories_are_collected_once() {
    let mut repos = Vec::new();
    assert!(push_repo(&mut repos, "/w/a"));
    assert!(push_repo(&mut repos, "/w/b"));
    assert!(!push_repo(&mut repos, "/w/a"));
    assert_eq!(repos, strings(&["/w/a", "/w/b"]));
}

#[test]
fn repository_paths_sort_by_components() {
    let sorted = sort_paths(&strings(&["/w/b", "/w/a/z", "/w/a", "/w/a-b", "/v"]));
    assert_eq!(sorted, strings(&["/v", "/w/a", "/w/a/z", "/w/a-b", "/w/b"]));
    let mixed = sort_paths(&strings(&["b", "/a", "..", ".", "a"]));
    assert_eq!(mixed, strings(&["/a", ".", "..", "a", "b"]));
    assert!(sort_paths(&Vec::new()).is_empty());
}

#[test]
fn dedupe_keeps_first_occurrences_in_order() {
    assert_eq!(dedupe_paths(&strings(&["/a", "/b", "/a", "/c", "/b"])), strings(&["/a", "/b", "/c"]));
    assert_eq!(dedupe_paths(&strings(&["/x", "/y"])), strings(&["/x", "/y"]));
    assert!(dedupe_paths(&Vec::new()).is_empty());
}

#[test]
fn home_is_expanded_only_for_tilde_paths() {
    assert_eq!(expand_home("~", Some("/home/me")).unwrap(), "/home/me");
    assert_eq!(expand_home("~/src", Some("/home/me")).unwrap(), "/home/me/src");
    assert_eq!(expand_home("~/src", Some("/home/me/")).unwrap(), "/home/me/src");
    assert_eq!(expand_home("~//abs", Some("/home/me")).unwrap(), "/abs");
    assert_eq!(expand_home("~other/src", None).unwrap(), "~other/src");
    assert_eq!(expand_home("/etc", None).unwrap(), "/etc");
    assert_eq!(expand_home("~", None).unwrap_err().text(), "failed to determine home directory");
    assert_eq!(expand_home("~/x", None).unwrap_err().text(), "failed to determine home directory");
}

#[test]
fn toplevel_is_the_first_output_line() {
    assert_eq!(repo_toplevel(Some("/w/repo\n")), Some("/w/repo".to_string()));
    assert_eq!(repo_toplevel(Some("")), None);
    assert_eq!(repo_toplevel(None), None);
}

#[test]
fn platform_separators_become_slashes_before_matching() {
    let exclusions = DirectoryExclusions::new(strings(&["^vendor/generated$"]), '\\').unwrap();
    assert!(exclusions.matches_parts(None, "vendor/generated"));
    assert!(exclusions.matches("/w", "/w/vendor\\generated"));
    let unix = DirectoryExclusions::new(strings(&["^vendor/generated$"]), '/').unwrap();
    assert!(!unix.matches("/w", "/w/vendor\\generated"));
    assert_eq!(relative_path_from(&strings(&["/", "a"]), &strings(&["/", "b", "c"]), "/b/c", '\\'), "..\\b\\c");
}
