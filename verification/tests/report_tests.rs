use gfind::query::QueryMatcher;
use gfind::query::QueryMode;
use gfind::report::RepoStatus;
use gfind::report::ahead_range;
use gfind::report::commit_check_args;
use gfind::report::commit_report;
use gfind::report::format_git_command;
use gfind::report::is_dirty;
use gfind::report::matching_remote_lines;
use gfind::report::repo_path_match;
use gfind::report::repo_report;
use gfind::report::repo_status;
use gfind::report::status_line;
use gfind::report::unfiltered_repo_match;
use gfind::report::upstream_ahead;
use gfind::report::upstream_ahead_count;
use gfind::report::with_matching_remotes;
use gfind::style::OutputStyle;

#[test]
fn repos_match_by_display_path_first() {
    let matcher = QueryMatcher::new("proj", QueryMode::Contains).unwrap();
    let m = repo_path_match("work/project", "/home/me/work/project", &matcher);
    assert_eq!(m.display_ranges, vec![(5, 9)]);
    assert!(m.absolute_path.is_none());
    assert!(m.path_matches());

    let home = QueryMatcher::new("home", QueryMode::Contains).unwrap();
    let m = repo_path_match("work/project", "/home/me/work/project", &home);
    assert!(m.display_ranges.is_empty());
    let absolute = m.absolute_path.as_ref().unwrap();
    assert_eq!(absolute.text, "/home/me/work/project");
    assert_eq!(absolute.ranges, vec![(1, 5)]);
}

#[test]
fn repos_match_by_remote_when_paths_do_not() {
    let matcher = QueryMatcher::new("gfind", QueryMode::Contains).unwrap();
    let remotes = "origin\tgit@github.com:bwestlin/gfind.git (fetch)\nupstream\tgit@example.com:x/y.git (fetch)\n";
    let m = repo_path_match("project", "/w/project", &matcher);
    assert!(!m.path_matches());
    let found = with_matching_remotes(m, Some(remotes), &matcher).unwrap();
    assert_eq!(found.remotes.len(), 1);
    assert_eq!(found.remotes[0].text, "origin\tgit@github.com:bwestlin/gfind.git (fetch)");

    let m = repo_path_match("project", "/w/project", &matcher);
    assert!(with_matching_remotes(m, Some("origin\tgit@x:y.git (fetch)\n"), &matcher).is_none());
    let m = repo_path_match("project", "/w/project", &matcher);
    assert!(with_matching_remotes(m, None, &matcher).is_none());

    let matching = repo_path_match("gfind", "/w/gfind", &matcher);
    let kept = with_matching_remotes(matching, None, &matcher).unwrap();
    assert!(kept.remotes.is_empty());
    assert_eq!(kept.display_ranges, vec![(0, 5)]);
}

#[test]
fn repo_report_lists_paths_and_remotes() {
    let style = OutputStyle { enabled: false };
    let matcher = QueryMatcher::new("gfind", QueryMode::Contains).unwrap();
    let m = repo_path_match("project", "/w/project", &matcher);
    let found = with_matching_remotes(m, Some("origin\tgit@github.com:bwestlin/gfind.git (fetch)\n"), &matcher).unwrap();
    assert_eq!(
        repo_report(&found, &style),
        vec![
            "project".to_string(),
            "  remote: origin\tgit@github.com:bwestlin/gfind.git (fetch)".to_string(),
        ]
    );

    let home = QueryMatcher::new("w", QueryMode::Exact).unwrap();
    let m = repo_path_match("project", "w", &home);
    assert_eq!(repo_report(&m, &style), vec!["project".to_string(), "  absolute: w".to_string()]);

    let colored = OutputStyle { enabled: true };
    assert_eq!(
        repo_report(&unfiltered_repo_match("p"), &colored),
        vec!["\x1b[1m\x1b[36mp\x1b[39m\x1b[0m".to_string()]
    );
}

#[test]
fn matching_remote_lines_keeps_lines_the_query_matches() {
    let matcher = QueryMatcher::new("fetch", QueryMode::Contains).unwrap();
    let lines = matching_remote_lines("a (fetch)\nb (push)\nc (fetch)", &matcher);
    assert_eq!(lines.len(), 2);
    assert_eq!(lines[0].text, "a (fetch)");
    assert_eq!(lines[1].text, "c (fetch)");
    assert_eq!(lines[1].ranges, vec![(3, 8)]);
}

#[test]
fn commit_checks_and_report() {
    assert_eq!(commit_check_args("abc", true), vec!["merge-base", "--is-ancestor", "abc", "HEAD"]);
    assert_eq!(commit_check_args("abc", false), vec!["cat-file", "-e", "abc^{commit}"]);
    let plain = OutputStyle { enabled: false };
    assert_eq!(commit_report("project", "abc", &plain), vec!["project", "  commit: abc"]);
    let colored = OutputStyle { enabled: true };
    assert_eq!(
        commit_report("p", "abc", &colored),
        vec![
            "\x1b[1m\x1b[36mp\x1b[39m\x1b[0m".to_string(),
            "  \x1b[2mcommit\x1b[0m: \x1b[33;100mabc\x1b[0m".to_string(),
        ]
    );
}

#[test]
fn dirty_worktrees_have_status_output() {
    assert!(is_dirty(Some(" M src/lib.rs\n")));
    assert!(!is_dirty(Some("\n  \n")));
    assert!(!is_dirty(None));
    assert_eq!(repo_status(Some("?? x\n"), Some(2)), RepoStatus { dirty: true, ahead: Some(2) });
    assert_eq!(repo_status(None, None), RepoStatus { dirty: false, ahead: None });
}

#[test]
fn ahead_counts_parse_or_report_errors() {
    assert_eq!(upstream_ahead_count(Some("3\n"), "/r").unwrap(), Some(3));
    assert_eq!(upstream_ahead_count(None, "/r").unwrap(), None);
    assert_eq!(
        upstream_ahead_count(Some("x\n"), "/r").unwrap_err().text(),
        "failed to parse ahead count for /r: invalid digit found in string"
    );
    assert_eq!(
        upstream_ahead_count(Some("  \n"), "/r").unwrap_err().text(),
        "failed to parse ahead count for /r: cannot parse integer from empty string"
    );
    assert_eq!(
        upstream_ahead_count(Some("99999999999"), "/r").unwrap_err().text(),
        "failed to parse ahead count for /r: number too large to fit in target type"
    );
    assert_eq!(
        upstream_ahead_count(Some("99999999999x"), "/r").unwrap_err().text(),
        "failed to parse ahead count for /r: number too large to fit in target type"
    );
    assert_eq!(
        upstream_ahead_count(Some("+"), "/r").unwrap_err().text(),
        "failed to parse ahead count for /r: invalid digit found in string"
    );
    assert_eq!(upstream_ahead_count(Some("+7"), "/r").unwrap(), Some(7));
}

#[test]
fn parse_error_messages_match_std() {
    for text in ["", "+", "-", "-1", "x", "1x", "99999999999", "4294967296", "42949672950x", "+", "1 2"] {
        let expected = text.parse::<u32>().unwrap_err().to_string();
        let got = upstream_ahead_count(Some(text), "r").unwrap_err();
        assert_eq!(got.text(), format!("failed to parse ahead count for r: {expected}"), "{text}");
    }
}

#[test]
fn ahead_range_uses_trimmed_upstream() {
    assert_eq!(ahead_range(" origin/main\n"), "origin/main..HEAD");
}

#[test]
fn status_lines_give_reasons() {
    let plain = OutputStyle { enabled: false };
    let both = RepoStatus { dirty: true, ahead: Some(2) };
    assert_eq!(status_line("p", both, false, false, &plain), Some("p (dirty, ahead 2)".to_string()));
    assert_eq!(status_line("p", both, true, false, &plain), Some("p (dirty)".to_string()));
    assert_eq!(status_line("p", both, false, true, &plain), Some("p (ahead 2)".to_string()));
    let clean = RepoStatus { dirty: false, ahead: Some(0) };
    assert_eq!(status_line("p", clean, false, false, &plain), None);
    let dirty = RepoStatus { dirty: true, ahead: None };
    assert_eq!(status_line("p", dirty, false, true, &plain), None);
    let colored = OutputStyle { enabled: true };
    assert_eq!(
        status_line("p", both, false, false, &colored),
        Some("\x1b[1m\x1b[36mp\x1b[39m\x1b[0m (\x1b[31mdirty\x1b[39m, \x1b[33mahead 2\x1b[39m)".to_string())
    );
}

#[test]
fn git_commands_are_logged_with_their_repository() {
    let args: Vec<String> = vec!["status".to_string(), "--porcelain=v1".to_string()];
    assert_eq!(format_git_command("/w/r", &args), "git -C /w/r status --porcelain=v1");
    assert_eq!(format_git_command("/w/r", &Vec::new()), "git -C /w/r");
}

#[test]
fn ahead_count_needs_an_upstream_and_a_count() {
    assert_eq!(upstream_ahead(None, Some("3\n"), "/r").unwrap(), None);
    assert_eq!(upstream_ahead(Some("origin/main\n"), None, "/r").unwrap(), None);
    assert_eq!(upstream_ahead(Some("origin/main\n"), Some(" 3\n"), "/r").unwrap(), Some(3));
    assert_eq!(
        upstream_ahead(Some("origin/main\n"), Some("x"), "/r").unwrap_err().text(),
        "failed to parse ahead count for /r: invalid digit found in string"
    );
}
