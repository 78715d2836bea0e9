use gfind::query::QueryMatcher;
use gfind::query::QueryMode;
use gfind::query::case_insensitive_substring_ranges;
use gfind::query::fuzzy_match;
use gfind::query::fuzzy_match_ranges;
use gfind::report::matched_text;
use gfind::style::OutputStyle;

#[test]
fn query_matcher_supports_modes() {
    assert!(QueryMatcher::new("main", QueryMode::Contains).unwrap().is_match("feature/main-api"));
    assert!(QueryMatcher::new("MAIN", QueryMode::Exact).unwrap().is_match("main"));
    assert!(QueryMatcher::new("mai", QueryMode::Fuzzy).unwrap().is_match("my-api-integration"));
    assert!(QueryMatcher::new("^bwe/.+-ci$", QueryMode::Regex).unwrap().is_match("bwe/main-api-ci"));
    assert!(QueryMatcher::new("main", QueryMode::Matches).unwrap().is_match("feature/main-api"));
}

#[test]
fn query_matcher_reports_match_ranges() {
    assert_eq!(
        QueryMatcher::new("main", QueryMode::Contains).unwrap().match_ranges("feature/main-api"),
        vec![(8, 12)]
    );
    assert_eq!(
        QueryMatcher::new("mn", QueryMode::Fuzzy).unwrap().match_ranges("main"),
        vec![(0, 1), (3, 4)]
    );
    assert_eq!(
        QueryMatcher::new("m.*n", QueryMode::Regex).unwrap().match_ranges("main"),
        vec![(0, 4)]
    );
}

#[test]
fn matched_text_reports_query_ranges() {
    let matcher = QueryMatcher::new("gfind", QueryMode::Contains).unwrap();
    let matched = matched_text("git@github.com:bwestlin/gfind.git", &matcher).unwrap();

    assert_eq!(matched.ranges, vec![(24, 29)]);
}

#[test]
fn branch_name_highlighting_uses_matched_branch_part() {
    assert_eq!(
        QueryMatcher::new("main", QueryMode::Exact).unwrap().branch_match_ranges("origin/main"),
        vec![(7, 11)]
    );
    assert_eq!(
        QueryMatcher::new("api", QueryMode::Contains).unwrap().branch_match_ranges("feature/main-api"),
        vec![(13, 16)]
    );
}

#[test]
fn invalid_regex_queries_are_errors() {
    let err = QueryMatcher::new("(", QueryMode::Regex).unwrap_err();
    assert!(err.text().starts_with("invalid regex query \"(\": "));
    assert!(err.text().len() > "invalid regex query \"(\": ".len());
    assert!(QueryMatcher::new("(", QueryMode::Contains).is_ok());
}

#[test]
fn contains_matching_ignores_case_and_finds_every_occurrence() {
    assert_eq!(case_insensitive_substring_ranges("Main main MAIN", "main"), vec![(0, 4), (5, 9), (10, 14)]);
    assert_eq!(case_insensitive_substring_ranges("aaaa", "aa"), vec![(0, 2), (2, 4)]);
    assert_eq!(case_insensitive_substring_ranges("abc", ""), vec![(0, 3)]);
    assert!(case_insensitive_substring_ranges("abc", "x").is_empty());
    assert!(QueryMatcher::new("", QueryMode::Contains).unwrap().is_match("anything"));
}

#[test]
fn contains_matching_handles_non_ascii_text() {
    assert_eq!(case_insensitive_substring_ranges("Ångström", "ström"), vec![(4, 10)]);
    assert!(QueryMatcher::new("ÅNG", QueryMode::Contains).unwrap().is_match("ångström"));
}

#[test]
fn exact_matching_ignores_case() {
    let m = QueryMatcher::new("Main", QueryMode::Exact).unwrap();
    assert!(m.is_match("MAIN"));
    assert!(!m.is_match("main2"));
    assert_eq!(m.match_ranges("mAiN"), vec![(0, 4)]);
    assert!(m.match_ranges("xmain").is_empty());
    assert!(QueryMatcher::new("ä", QueryMode::Exact).unwrap().is_match("Ä"));
    let apfel = QueryMatcher::new("ÄPFEL", QueryMode::Exact).unwrap();
    assert!(apfel.is_match("äpfel"));
    assert_eq!(apfel.match_ranges("äpfel"), vec![(0, 6)]);
    assert!(!apfel.is_match("äpfel!"));
}

#[test]
fn fuzzy_matching_takes_chars_in_order() {
    assert!(fuzzy_match("fbr", "foo/bar"));
    assert!(!fuzzy_match("rbf", "foo/bar"));
    assert!(fuzzy_match("", "x"));
    assert!(fuzzy_match("FB", "foo/bar"));
    assert_eq!(fuzzy_match_ranges("fb", "foo/bar"), vec![(0, 1), (4, 5)]);
    assert!(fuzzy_match_ranges("zz", "foo").is_empty());
    assert_eq!(fuzzy_match_ranges("", "foo"), vec![(0, 3)]);
}

#[test]
fn regex_matching_drops_empty_matches() {
    let m = QueryMatcher::new("x*", QueryMode::Regex).unwrap();
    assert!(m.is_match("abc"));
    assert!(m.match_ranges("abc").is_empty());
    assert_eq!(m.match_ranges("axxb"), vec![(1, 3)]);
}

#[test]
fn branch_ranges_prefer_the_whole_name() {
    let m = QueryMatcher::new("origin", QueryMode::Contains).unwrap();
    assert_eq!(m.branch_match_ranges("origin/main"), vec![(0, 6)]);
    let none = QueryMatcher::new("zzz", QueryMode::Contains).unwrap();
    assert!(none.branch_match_ranges("origin/main").is_empty());
    assert!(none.branch_match_ranges("main").is_empty());
}

#[test]
fn branch_names_are_highlighted_in_the_matched_part() {
    let m = QueryMatcher::new("main", QueryMode::Exact).unwrap();
    let style = OutputStyle { enabled: true };
    assert_eq!(
        m.highlight_branch_name("origin/main", &style),
        "\x1b[36morigin/\x1b[39m\x1b[36;100mmain\x1b[0m"
    );
    let plain = OutputStyle { enabled: false };
    assert_eq!(m.highlight_branch_name("origin/main", &plain), "origin/main");
}

#[test]
fn query_modes_have_names() {
    assert_eq!(QueryMode::Contains.as_str(), "contains");
    assert_eq!(QueryMode::Matches.as_str(), "matches");
    assert_eq!(QueryMode::Exact.as_str(), "exact");
    assert_eq!(QueryMode::Fuzzy.as_str(), "fuzzy");
    assert_eq!(QueryMode::Regex.as_str(), "regex");
    assert_eq!(QueryMode::Matches.normalized(), QueryMode::Contains);
    assert_eq!(QueryMode::Fuzzy.normalized(), QueryMode::Fuzzy);
}
