use gfind::query::QueryMatcher;
use gfind::query::QueryMode;
use gfind::stash::StashEntry;
use gfind::stash::indented_show_lines;
use gfind::stash::matching_stashes;
use gfind::stash::normalize_stash_ref;
use gfind::stash::parse_stash_entry;
use gfind::stash::stash_entry_line;
use gfind::stash::stash_matches;
use gfind::style::OutputStyle;

#[test]
fn normalizes_numeric_stash_refs() {
    assert_eq!(normalize_stash_ref("0"), "stash@{0}");
    assert_eq!(normalize_stash_ref("stash@{2}"), "stash@{2}");
}

#[test]
fn parses_stash_entries() {
    let entry = parse_stash_entry("stash@{0}\tWIP on main: message").unwrap();

    assert_eq!(entry.reference, "stash@{0}");
    assert_eq!(entry.subject, "WIP on main: message");
}

#[test]
fn stash_line_without_tab_is_no_entry() {
    assert_eq!(parse_stash_entry("stash@{0} WIP"), None);
    let entry = parse_stash_entry("stash@{1}\ta\tb").unwrap();
    assert_eq!(entry.reference, "stash@{1}");
    assert_eq!(entry.subject, "a\tb");
}

#[test]
fn normalizing_stash_refs_twice_changes_nothing() {
    for input in ["0", "12", "", "stash@{3}", "abc", "1a"] {
        let once = normalize_stash_ref(input);
        assert_eq!(normalize_stash_ref(&once), once);
    }
    assert_eq!(normalize_stash_ref(""), "stash@{}");
    assert_eq!(normalize_stash_ref("1a"), "1a");
}

#[test]
fn stash_matches_reference_or_subject() {
    let entry = StashEntry {
        reference: "stash@{0}".to_string(),
        subject: "WIP on main: login form".to_string(),
    };
    let login = QueryMatcher::new("LOGIN", QueryMode::Contains).unwrap();
    let stash_ref = QueryMatcher::new("stash@{0}", QueryMode::Exact).unwrap();
    let other = QueryMatcher::new("signup", QueryMode::Contains).unwrap();

    assert!(stash_matches(&entry, &login));
    assert!(stash_matches(&entry, &stash_ref));
    assert!(!stash_matches(&entry, &other));
}

#[test]
fn matching_stashes_filters_by_stash_and_query() {
    let output = "stash@{0}\tWIP on main: login\nstash@{1}\tOn feature: signup\nbroken line\n";
    let all = matching_stashes(output, None, None);
    assert_eq!(all.len(), 2);
    assert_eq!(all[0].reference, "stash@{0}");
    assert_eq!(all[1].subject, "On feature: signup");

    let login = QueryMatcher::new("login", QueryMode::Contains).unwrap();
    let found = matching_stashes(output, Some(&login), None);
    assert_eq!(found.len(), 1);
    assert_eq!(found[0].reference, "stash@{0}");

    let second = matching_stashes(output, None, Some("1"));
    assert_eq!(second.len(), 1);
    assert_eq!(second[0].reference, "stash@{1}");

    let none = matching_stashes(output, Some(&login), Some("stash@{1}"));
    assert!(none.is_empty());
}

#[test]
fn stash_entry_line_highlights_matches() {
    let entry = StashEntry {
        reference: "stash@{0}".to_string(),
        subject: "WIP login".to_string(),
    };
    let plain = OutputStyle { enabled: false };
    let colored = OutputStyle { enabled: true };
    let login = QueryMatcher::new("login", QueryMode::Contains).unwrap();

    assert_eq!(stash_entry_line(&entry, None, &plain), "  stash@{0}: WIP login");
    assert_eq!(stash_entry_line(&entry, Some(&login), &plain), "  stash@{0}: WIP login");
    assert_eq!(
        stash_entry_line(&entry, None, &colored),
        "  \x1b[35mstash@{0}\x1b[39m: WIP login"
    );
    assert_eq!(
        stash_entry_line(&entry, Some(&login), &colored),
        "  \x1b[35mstash@{0}\x1b[39m: WIP \x1b[100mlogin\x1b[49m"
    );
}

#[test]
fn show_output_lines_are_indented() {
    let lines = indented_show_lines(" a.txt | 2 +\n 1 file changed\n");
    assert_eq!(lines, vec!["     a.txt | 2 +".to_string(), "     1 file changed".to_string()]);
    assert!(indented_show_lines("").is_empty());
}
