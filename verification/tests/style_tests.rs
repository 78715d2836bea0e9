use gfind::style::HighlightStyle;
use gfind::style::OutputStyle;
use gfind::style::merged_ranges;

#[test]
fn output_highlight_uses_dark_gray_background_for_matched_text() {
    let style = OutputStyle { enabled: true };
    let highlighted = style.highlight_plain("feature/main", &[(8, 12)]);

    assert!(highlighted.contains("\x1b[100m"));
    assert!(!highlighted.contains("\x1b[1m"));
    assert!(!highlighted.contains("\x1b[4m"));
    assert!(highlighted.contains("main"));
}

#[test]
fn styles_write_exact_escape_sequences() {
    let s = OutputStyle { enabled: true };
    assert_eq!(s.repo("r"), "\x1b[1m\x1b[36mr\x1b[39m\x1b[0m");
    assert_eq!(s.label("l"), "\x1b[2ml\x1b[0m");
    assert_eq!(s.commit("c"), "\x1b[33mc\x1b[39m");
    assert_eq!(s.branch("b"), "\x1b[36mb\x1b[39m");
    assert_eq!(s.stash_ref("s"), "\x1b[35ms\x1b[39m");
    assert_eq!(s.current("yes"), "\x1b[1m\x1b[32myes\x1b[39m\x1b[0m");
    assert_eq!(s.apply_match_style("m", HighlightStyle::Repo), "\x1b[36;100mm\x1b[0m");
    assert_eq!(s.apply_match_style("m", HighlightStyle::Commit), "\x1b[33;100mm\x1b[0m");
    assert_eq!(s.apply_match_style("m", HighlightStyle::StashRef), "\x1b[35;100mm\x1b[0m");
    assert_eq!(s.apply_match_style("m", HighlightStyle::Plain), "\x1b[100mm\x1b[49m");
    assert_eq!(s.apply_style("p", HighlightStyle::Plain), "p");
}

#[test]
fn status_and_reason_colors_follow_their_words() {
    let s = OutputStyle { enabled: true };
    assert_eq!(s.status("up-to-date with origin/main"), "\x1b[32mup-to-date with origin/main\x1b[39m");
    assert_eq!(s.status("no upstream"), "\x1b[31mno upstream\x1b[39m");
    assert_eq!(s.status("differs from origin/main"), "\x1b[31mdiffers from origin/main\x1b[39m");
    assert_eq!(s.status("behind 2 from origin/main"), "\x1b[31mbehind 2 from origin/main\x1b[39m");
    assert_eq!(s.status("ahead 2 of origin/main"), "\x1b[33mahead 2 of origin/main\x1b[39m");
    assert_eq!(s.reason("dirty"), "\x1b[31mdirty\x1b[39m");
    assert_eq!(s.reason("ahead 3"), "\x1b[33mahead 3\x1b[39m");
}

#[test]
fn disabled_style_writes_plain_text() {
    let s = OutputStyle { enabled: false };
    assert_eq!(s.repo("r"), "r");
    assert_eq!(s.label("l"), "l");
    assert_eq!(s.status("no upstream"), "no upstream");
    assert_eq!(s.reason("dirty"), "dirty");
    assert_eq!(s.highlight_repo("some/path", &[(0, 4), (5, 9)]), "some/path");
    assert_eq!(s.apply_match_style("m", HighlightStyle::Branch), "m");
}

#[test]
fn colors_need_a_terminal_and_no_no_color() {
    assert!(OutputStyle::for_terminal(true, false).enabled);
    assert!(!OutputStyle::for_terminal(true, true).enabled);
    assert!(!OutputStyle::for_terminal(false, false).enabled);
}

#[test]
fn highlight_merges_overlapping_ranges() {
    let s = OutputStyle { enabled: true };
    assert_eq!(
        s.highlight_plain("abcdef", &[(3, 5), (1, 4)]),
        "a\x1b[100mbcde\x1b[49mf"
    );
    assert_eq!(
        s.highlight_commit("abc", &[(0, 3)]),
        "\x1b[33;100mabc\x1b[0m"
    );
    assert_eq!(
        s.highlight_repo("a/b", &[]),
        "\x1b[1m\x1b[36ma/b\x1b[39m\x1b[0m"
    );
    assert_eq!(
        s.highlight_stash_ref("stash@{0}", &[(0, 5)]),
        "\x1b[35;100mstash\x1b[0m\x1b[35m@{0}\x1b[39m"
    );
    assert_eq!(s.highlight("x", &[(0, 1)]), "\x1b[36;100mx\x1b[0m");
}

#[test]
fn merged_ranges_joins_touching_ranges_and_drops_invalid_ones() {
    assert_eq!(merged_ranges(&[(4, 6), (0, 2), (2, 3)], 10), vec![(0, 3), (4, 6)]);
    assert_eq!(merged_ranges(&[(0, 0), (5, 3), (8, 12)], 10), Vec::<(usize, usize)>::new());
    assert_eq!(merged_ranges(&[(1, 5), (2, 3)], 10), vec![(1, 5)]);
    let once = merged_ranges(&[(7, 9), (1, 2), (2, 4)], 10);
    assert_eq!(merged_ranges(&once, 10), once);
}

#[test]
fn highlight_cuts_only_at_merged_range_ends() {
    let s = OutputStyle { enabled: true };
    // (0, 2) ends inside "é", but merged with (1, 3) the highlighted range is (0, 3).
    assert_eq!(s.highlight_plain("aéb", &[(0, 2), (1, 3)]), "\x1b[100maé\x1b[49mb");
}

#[test]
fn removing_escape_sequences_from_highlighted_text_gives_the_value() {
    let style = OutputStyle::for_terminal(true, false);
    let value = "fëature/äpfel-branch";
    let ranges = vec![(0, 3), (2, 6), (9, 15), (30, 40)];
    let kinds = vec![
        HighlightStyle::Repo,
        HighlightStyle::Branch,
        HighlightStyle::Commit,
        HighlightStyle::StashRef,
        HighlightStyle::Plain,
    ];
    for kind in kinds {
        let styled = style.highlight_as(value, &ranges, kind);
        assert!(styled.contains('\u{1b}'));
        let mut stripped = String::new();
        let mut in_escape = false;
        for c in styled.chars() {
            if in_escape {
                if c == 'm' {
                    in_escape = false;
                }
            } else if c == '\u{1b}' {
                in_escape = true;
            } else {
                stripped.push(c);
            }
        }
        assert_eq!(stripped, value);
    }
}
