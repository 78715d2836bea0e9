//! Terminal styling of output text, and highlighting of matched ranges.
use owo_colors::OwoColorize;
use vstd::prelude::*;
use vstd::utf8::*;
use vstd::string::*;

use crate::text::{byte_len, contains_bytes, contains_bytes_exec, push_str, string_of, substr, substr_from};

verus! {

broadcast use vstd::utf8::group_utf8_lib;

/* ANSI escape sequences written by `owo_colors` */

/// The select-graphic-rendition escape sequence `ESC [ code m`.
pub open spec fn sgr(code: Seq<char>) -> Seq<char> {
    seq!['\u{1b}', '['] + code + seq!['m']
}

/// Text in a foreground color, ended by the default-foreground code.
pub open spec fn with_fg(code: Seq<char>, t: Seq<char>) -> Seq<char> {
    sgr(code) + t + sgr("39"@)
}

/// Text on a background color, ended by the default-background code.
pub open spec fn with_bg(code: Seq<char>, t: Seq<char>) -> Seq<char> {
    sgr(code) + t + sgr("49"@)
}

/// Text in a foreground color on a background color, ended by the reset code.
pub open spec fn with_fg_bg(fg: Seq<char>, bg: Seq<char>, t: Seq<char>) -> Seq<char> {
    sgr(fg + ";"@ + bg) + t + sgr("0"@)
}

/// Bold text, ended by the reset code.
pub open spec fn with_bold(t: Seq<char>) -> Seq<char> {
    sgr("1"@) + t + sgr("0"@)
}

/// Dimmed text, ended by the reset code.
pub open spec fn with_dim(t: Seq<char>) -> Seq<char> {
    sgr("2"@) + t + sgr("0"@)
}

/// `text.cyan().bold()` displayed: `BoldDisplay` around `FgColorDisplay<Cyan>`.
#[verifier::external_body]
fn paint_cyan_bold(text: &str) -> (r: String)
    ensures
        r@ == with_bold(with_fg("36"@, text@)),
{
    text.cyan().bold().to_string()
}

/// `text.green().bold()` displayed: `BoldDisplay` around `FgColorDisplay<Green>`.
#[verifier::external_body]
fn paint_green_bold(text: &str) -> (r: String)
    ensures
        r@ == with_bold(with_fg("32"@, text@)),
{
    text.green().bold().to_string()
}

/// `text.dimmed()` displayed: `DimDisplay`.
#[verifier::external_body]
fn paint_dimmed(text: &str) -> (r: String)
    ensures
        r@ == with_dim(text@),
{
    text.dimmed().to_string()
}

/// `text.cyan()` displayed: `FgColorDisplay<Cyan>`.
#[verifier::external_body]
fn paint_cyan(text: &str) -> (r: String)
    ensures
        r@ == with_fg("36"@, text@),
{
    text.cyan().to_string()
}

/// `text.yellow()` displayed: `FgColorDisplay<Yellow>`.
#[verifier::external_body]
fn paint_yellow(text: &str) -> (r: String)
    ensures
        r@ == with_fg("33"@, text@),
{
    text.yellow().to_string()
}

/// `text.magenta()` displayed: `FgColorDisplay<Magenta>`.
#[verifier::external_body]
fn paint_magenta(text: &str) -> (r: String)
    ensures
        r@ == with_fg("35"@, text@),
{
    text.magenta().to_string()
}

/// `text.green()` displayed: `FgColorDisplay<Green>`.
#[verifier::external_body]
fn paint_green(text: &str) -> (r: String)
    ensures
        r@ == with_fg("32"@, text@),
{
    text.green().to_string()
}

/// `text.red()` displayed: `FgColorDisplay<Red>`.
#[verifier::external_body]
fn paint_red(text: &str) -> (r: String)
    ensures
        r@ == with_fg("31"@, text@),
{
    text.red().to_string()
}

/// `text.cyan().on_bright_black()` displayed: `ComboColorDisplay<Cyan, BrightBlack>`.
#[verifier::external_body]
fn paint_cyan_on_bright_black(text: &str) -> (r: String)
    ensures
        r@ == with_fg_bg("36"@, "100"@, text@),
{
    text.cyan().on_bright_black().to_string()
}

/// `text.yellow().on_bright_black()` displayed: `ComboColorDisplay<Yellow, BrightBlack>`.
#[verifier::external_body]
fn paint_yellow_on_bright_black(text: &str) -> (r: String)
    ensures
        r@ == with_fg_bg("33"@, "100"@, text@),
{
    text.yellow().on_bright_black().to_string()
}

/// `text.magenta().on_bright_black()` displayed: `ComboColorDisplay<Magenta, BrightBlack>`.
#[verifier::external_body]
fn paint_magenta_on_bright_black(text: &str) -> (r: String)
    ensures
        r@ == with_fg_bg("35"@, "100"@, text@),
{
    text.magenta().on_bright_black().to_string()
}

/// `text.on_bright_black()` displayed: `BgColorDisplay<BrightBlack>`.
#[verifier::external_body]
fn paint_on_bright_black(text: &str) -> (r: String)
    ensures
        r@ == with_bg("100"@, text@),
{
    text.on_bright_black().to_string()
}

/// Whether the text holds `pattern`.
pub open spec fn text_contains(text: Seq<char>, pattern: Seq<char>) -> bool {
    contains_bytes(encode_utf8(text), encode_utf8(pattern))
}

fn contains_text(text: &str, pattern: &str) -> (r: bool)
    ensures
        r == text_contains(text@, pattern@),
{
    contains_bytes_exec(text.as_bytes(), pattern.as_bytes())
}

/// How text is styled when colors are on.
pub struct OutputStyle {
    /// Whether ANSI colors are written.
    pub enabled: bool,
}

/// The kinds of text that can be highlighted.
#[derive(Clone, Copy, Debug, PartialEq, Eq, Structural)]
pub enum HighlightStyle {
    /// A repository path.
    Repo,
    /// A branch name.
    Branch,
    /// A commit.
    Commit,
    /// A stash reference.
    StashRef,
    /// Text without a color of its own.
    Plain,
}

impl OutputStyle {
    /// `t` as a repository path: bold cyan when colors are on.
    pub open spec fn repo_spec(self, t: Seq<char>) -> Seq<char> {
        if self.enabled { with_bold(with_fg("36"@, t)) } else { t }
    }

    /// `t` as a label: dimmed when colors are on.
    pub open spec fn label_spec(self, t: Seq<char>) -> Seq<char> {
        if self.enabled { with_dim(t) } else { t }
    }

    /// `t` as a commit: yellow when colors are on.
    pub open spec fn commit_spec(self, t: Seq<char>) -> Seq<char> {
        if self.enabled { with_fg("33"@, t) } else { t }
    }

    /// `t` as a branch name: cyan when colors are on.
    pub open spec fn branch_spec(self, t: Seq<char>) -> Seq<char> {
        if self.enabled { with_fg("36"@, t) } else { t }
    }

    /// `t` as a stash reference: magenta when colors are on.
    pub open spec fn stash_ref_spec(self, t: Seq<char>) -> Seq<char> {
        if self.enabled { with_fg("35"@, t) } else { t }
    }

    /// `t` marking the current branch: bold green when colors are on.
    pub open spec fn current_spec(self, t: Seq<char>) -> Seq<char> {
        if self.enabled { with_bold(with_fg("32"@, t)) } else { t }
    }

    /// An upstream status: green when up to date, red when there is no upstream or it differs or
    /// is ahead, yellow otherwise; plain when colors are off.
    pub open spec fn status_spec(self, t: Seq<char>) -> Seq<char> {
        if !self.enabled {
            t
        } else if text_contains(t, "up-to-date"@) {
            with_fg("32"@, t)
        } else if text_contains(t, "no upstream"@) || text_contains(t, "differs"@) || text_contains(t, "behind"@) {
            with_fg("31"@, t)
        } else {
            with_fg("33"@, t)
        }
    }

    /// A status reason: red when dirty, yellow otherwise; plain when colors are off.
    pub open spec fn reason_spec(self, t: Seq<char>) -> Seq<char> {
        if !self.enabled {
            t
        } else if text_contains(t, "dirty"@) {
            with_fg("31"@, t)
        } else {
            with_fg("33"@, t)
        }
    }

    /// Text outside matched ranges, in the given style.
    pub open spec fn apply_style_spec(self, t: Seq<char>, style: HighlightStyle) -> Seq<char> {
        match style {
            HighlightStyle::Repo => self.repo_spec(t),
            HighlightStyle::Branch => self.branch_spec(t),
            HighlightStyle::Commit => self.commit_spec(t),
            HighlightStyle::StashRef => self.stash_ref_spec(t),
            HighlightStyle::Plain => t,
        }
    }

    /// Text inside a matched range, in the given style: the style's color on bright black.
    pub open spec fn apply_match_style_spec(self, t: Seq<char>, style: HighlightStyle) -> Seq<char> {
        if !self.enabled {
            t
        } else {
            match style {
                HighlightStyle::Repo | HighlightStyle::Branch => with_fg_bg("36"@, "100"@, t),
                HighlightStyle::Commit => with_fg_bg("33"@, "100"@, t),
                HighlightStyle::StashRef => with_fg_bg("35"@, "100"@, t),
                HighlightStyle::Plain => with_bg("100"@, t),
            }
        }
    }

    /// Colors are written to a terminal unless `NO_COLOR` is set.
    pub fn for_terminal(is_terminal: bool, no_color: bool) -> (r: OutputStyle)
        ensures
            r.enabled == (is_terminal && !no_color),
    {
        OutputStyle { enabled: is_terminal && !no_color }
    }

    /// A repository path.
    pub fn repo(&self, text: &str) -> (r: String)
        ensures
            r@ == self.repo_spec(text@),
    {
        if self.enabled { paint_cyan_bold(text) } else { string_of(text) }
    }

    /// A label.
    pub fn label(&self, text: &str) -> (r: String)
        ensures
            r@ == self.label_spec(text@),
    {
        if self.enabled { paint_dimmed(text) } else { string_of(text) }
    }

    /// A commit.
    pub fn commit(&self, text: &str) -> (r: String)
        ensures
            r@ == self.commit_spec(text@),
    {
        if self.enabled { paint_yellow(text) } else { string_of(text) }
    }

    /// A branch name.
    pub fn branch(&self, text: &str) -> (r: String)
        ensures
            r@ == self.branch_spec(text@),
    {
        if self.enabled { paint_cyan(text) } else { string_of(text) }
    }

    /// A stash reference.
    pub fn stash_ref(&self, text: &str) -> (r: String)
        ensures
            r@ == self.stash_ref_spec(text@),
    {
        if self.enabled { paint_magenta(text) } else { string_of(text) }
    }

    /// The marker of the current branch.
    pub fn current(&self, text: &str) -> (r: String)
        ensures
            r@ == self.current_spec(text@),
    {
        if self.enabled { paint_green_bold(text) } else { string_of(text) }
    }

    /// An upstream status.
    pub fn status(&self, text: &str) -> (r: String)
        ensures
            r@ == self.status_spec(text@),
    {
        if !self.enabled {
            return string_of(text);
        }
        if contains_text(text, "up-to-date") {
            paint_green(text)
        } else if contains_text(text, "no upstream") || contains_text(text, "differs") || contains_text(text, "behind") {
            paint_red(text)
        } else {
            paint_yellow(text)
        }
    }

    /// A status reason.
    pub fn reason(&self, text: &str) -> (r: String)
        ensures
            r@ == self.reason_spec(text@),
    {
        if !self.enabled {
            return string_of(text);
        }
        if contains_text(text, "dirty") {
            paint_red(text)
        } else {
            paint_yellow(text)
        }
    }

    /// Text outside matched ranges.
    pub fn apply_style(&self, value: &str, style: HighlightStyle) -> (r: String)
        ensures
            r@ == self.apply_style_spec(value@, style),
    {
        match style {
            HighlightStyle::Repo => self.repo(value),
            HighlightStyle::Branch => self.branch(value),
            HighlightStyle::Commit => self.commit(value),
            HighlightStyle::StashRef => self.stash_ref(value),
            HighlightStyle::Plain => string_of(value),
        }
    }

    /// Text inside a matched range.
    pub fn apply_match_style(&self, value: &str, style: HighlightStyle) -> (r: String)
        ensures
            r@ == self.apply_match_style_spec(value@, style),
    {
        if !self.enabled {
            return string_of(value);
        }
        match style {
            HighlightStyle::Repo | HighlightStyle::Branch => paint_cyan_on_bright_black(value),
            HighlightStyle::Commit => paint_yellow_on_bright_black(value),
            HighlightStyle::StashRef => paint_magenta_on_bright_black(value),
            HighlightStyle::Plain => paint_on_bright_black(value),
        }
    }
}

} // verus!

verus! {

/* Merging highlight ranges */

/// Whether byte `p` lies in the range.
pub open spec fn in_range(r: (usize, usize), p: int) -> bool {
    r.0 <= p < r.1
}

/// Whether the range is not empty and ends within `len`.
pub open spec fn valid_range(r: (usize, usize), len: int) -> bool {
    r.0 < r.1 && r.1 <= len
}

/// Whether byte `p` lies in one of the ranges.
pub open spec fn covered(rs: Seq<(usize, usize)>, p: int) -> bool {
    exists|i: int| 0 <= i < rs.len() && #[trigger] in_range(rs[i], p)
}

/// Whether byte `p` lies in one of the ranges that are valid for `len`.
pub open spec fn covered_valid(rs: Seq<(usize, usize)>, len: int, p: int) -> bool {
    exists|i: int| 0 <= i < rs.len() && valid_range(rs[i], len) && #[trigger] in_range(rs[i], p)
}

/// Non-empty ranges within `len`, in increasing order, each ending before the next one starts.
pub open spec fn separated_ranges(m: Seq<(usize, usize)>, len: int) -> bool {
    &&& forall|i: int| 0 <= i < m.len() ==> valid_range(#[trigger] m[i], len)
    &&& forall|i: int, j: int| 0 <= i < j < m.len() ==> (#[trigger] m[i]).1 < (#[trigger] m[j]).0
}

/// `m` covers exactly the bytes that the valid ranges of `ranges` cover, as separated ranges.
pub open spec fn is_merge_of(m: Seq<(usize, usize)>, ranges: Seq<(usize, usize)>, len: int) -> bool {
    &&& separated_ranges(m, len)
    &&& forall|p: int| covered(m, p) <==> covered_valid(ranges, len, p)
}

/// The ranges that `merged_ranges` returns: the union of the valid ranges as maximal separated
/// ranges (unique, see `lemma_merge_unique`).
pub open spec fn merged_spec(ranges: Seq<(usize, usize)>, len: int) -> Seq<(usize, usize)> {
    choose|m: Seq<(usize, usize)>| is_merge_of(m, ranges, len)
}

/// Whether a valid range of `ranges` starts at `x`.
pub open spec fn has_start(ranges: Seq<(usize, usize)>, len: int, x: usize) -> bool {
    exists|j: int| 0 <= j < ranges.len() && valid_range(ranges[j], len) && #[trigger] ranges[j].0 == x
}

/// Whether a valid range of `ranges` ends at `x`.
pub open spec fn has_end(ranges: Seq<(usize, usize)>, len: int, x: usize) -> bool {
    exists|j: int| 0 <= j < ranges.len() && valid_range(ranges[j], len) && #[trigger] ranges[j].1 == x
}

/// Whether each range of `m` starts where a valid range of `ranges` starts and ends where one ends.
pub open spec fn endpoints_from(m: Seq<(usize, usize)>, ranges: Seq<(usize, usize)>, len: int) -> bool {
    forall|i: int| 0 <= i < m.len() ==> has_start(ranges, len, (#[trigger] m[i]).0) && has_end(ranges, len, m[i].1)
}

/// The valid ranges sorted by start.
fn sorted_valid_ranges(ranges: &[(usize, usize)], len: usize) -> (r: Vec<(usize, usize)>)
    ensures
        forall|i: int| 0 <= i < r@.len() ==> valid_range(#[trigger] r@[i], len as int),
        forall|i: int, j: int| 0 <= i <= j < r@.len() ==> (#[trigger] r@[i]).0 <= (#[trigger] r@[j]).0,
        forall|x: (usize, usize)| r@.contains(x) <==> (ranges@.contains(x) && valid_range(x, len as int)),
{
    let mut sorted: Vec<(usize, usize)> = Vec::new();
    let mut i: usize = 0;
    while i < ranges.len()
        invariant
            i <= ranges.len(),
            forall|k: int| 0 <= k < sorted@.len() ==> valid_range(#[trigger] sorted@[k], len as int),
            forall|a: int, b: int| 0 <= a <= b < sorted@.len() ==> (#[trigger] sorted@[a]).0 <= (#[trigger] sorted@[b]).0,
            forall|x: (usize, usize)| sorted@.contains(x) <==> (ranges@.take(i as int).contains(x) && valid_range(x, len as int)),
        decreases ranges.len() - i,
    {
        let x = ranges[i];
        let ghost before = sorted@;
        let ghost mut ins: int = -1;
        if x.0 < x.1 && x.1 <= len {
            let mut p: usize = 0;
            while p < sorted.len() && sorted[p].0 <= x.0
                invariant
                    p <= sorted@.len(),
                    sorted@ == before,
                    forall|k: int| 0 <= k < p ==> (#[trigger] sorted@[k]).0 <= x.0,
                decreases sorted.len() - p,
            {
                p += 1;
            }
            sorted.insert(p, x);
            proof { ins = p as int; }
            assert forall|a: int, b: int| 0 <= a <= b < sorted@.len() implies (#[trigger] sorted@[a]).0 <= (#[trigger] sorted@[b]).0 by {
                if a < p && b > p {
                    assert(sorted@[a] == before[a]);
                    assert(sorted@[b] == before[b - 1]);
                } else if a < p && b == p {
                } else if a == p && b > p {
                    assert(sorted@[b] == before[b - 1]);
                    assert(before[p as int].0 > x.0);
                    assert(before[p as int].0 <= before[b - 1].0);
                } else if a > p {
                    assert(sorted@[a] == before[a - 1]);
                    assert(sorted@[b] == before[b - 1]);
                }
            }
        }
        let ghost t0 = ranges@.take(i as int);
        let ghost t1 = ranges@.take(i + 1);
        assert(t1 =~= t0.push(x));
        assert(valid_range(x, len as int) ==> sorted@ == before.insert(ins, x) && 0 <= ins <= before.len());
        assert(!valid_range(x, len as int) ==> sorted@ == before);
        assert forall|y: (usize, usize)| sorted@.contains(y) <==> (t1.contains(y) && valid_range(y, len as int)) by {
            if sorted@.contains(y) {
                let k = choose|k: int| 0 <= k < sorted@.len() && sorted@[k] == y;
                if y != x {
                    assert(before.contains(y)) by {
                        if valid_range(x, len as int) {
                            if k < ins { assert(before[k] == y); } else { assert(before[k - 1] == y); }
                        } else {
                            assert(before[k] == y);
                        }
                    }
                    let j = choose|j: int| 0 <= j < t0.len() && #[trigger] t0[j] == y;
                    assert(t1[j] == y);
                } else {
                    assert(t1[i as int] == y);
                }
            }
            if t1.contains(y) && valid_range(y, len as int) {
                let j = choose|j: int| 0 <= j < t1.len() && #[trigger] t1[j] == y;
                if j < i {
                    assert(t0[j] == y);
                    assert(before.contains(y));
                    let k = choose|k: int| 0 <= k < before.len() && #[trigger] before[k] == y;
                    if valid_range(x, len as int) {
                        if k < ins { assert(sorted@[k] == y); } else { assert(sorted@[k + 1] == y); }
                    } else {
                        assert(sorted@[k] == y);
                    }
                } else {
                    assert(sorted@[ins] == y);
                }
            }
        }
        i += 1;
    }
    assert(ranges@.take(ranges.len() as int) =~= ranges@);
    sorted
}

} // verus!

verus! {

/// Coverage of the ranges after the first one of separated ranges.
proof fn lemma_covered_tail(a: Seq<(usize, usize)>, len: int, p: int)
    requires
        separated_ranges(a, len),
        a.len() > 0,
    ensures
        covered(a.drop_first(), p) <==> (covered(a, p) && p >= a[0].1),
{
    let t = a.drop_first();
    if covered(t, p) {
        let j = choose|j: int| 0 <= j < t.len() && #[trigger] in_range(t[j], p);
        assert(t[j] == a[j + 1]);
        assert(a[0].1 < a[j + 1].0);
        assert(in_range(a[j + 1], p));
    }
    if covered(a, p) && p >= a[0].1 {
        let j = choose|j: int| 0 <= j < a.len() && #[trigger] in_range(a[j], p);
        assert(j != 0);
        assert(t[j - 1] == a[j]);
        assert(in_range(t[j - 1], p));
    }
}

/// Separated ranges covering the same bytes are the same ranges.
pub proof fn lemma_merge_unique(a: Seq<(usize, usize)>, b: Seq<(usize, usize)>, len: int)
    requires
        separated_ranges(a, len),
        separated_ranges(b, len),
        forall|p: int| covered(a, p) <==> covered(b, p),
    ensures
        a == b,
    decreases a.len() + b.len(),
{
    if a.len() == 0 || b.len() == 0 {
        if a.len() > 0 {
            assert(in_range(a[0], a[0].0 as int));
            assert(covered(a, a[0].0 as int));
        }
        if b.len() > 0 {
            assert(in_range(b[0], b[0].0 as int));
            assert(covered(b, b[0].0 as int));
        }
        assert(a =~= b);
    } else {
        let a0 = a[0];
        let b0 = b[0];
        // The first ranges start at the same byte.
        assert(in_range(a[0], a0.0 as int));
        assert(covered(a, a0.0 as int));
        let j = choose|j: int| 0 <= j < b.len() && #[trigger] in_range(b[j], a0.0 as int);
        if j > 0 { assert(b[0].1 < b[j].0); }
        assert(in_range(b[0], b0.0 as int));
        assert(covered(b, b0.0 as int));
        let k = choose|k: int| 0 <= k < a.len() && #[trigger] in_range(a[k], b0.0 as int);
        if k > 0 { assert(a[0].1 < a[k].0); }
        assert(a0.0 == b0.0);
        // The first ranges end at the same byte.
        if a0.1 < b0.1 {
            assert(in_range(b[0], a0.1 as int));
            assert(covered(b, a0.1 as int));
            let m = choose|m: int| 0 <= m < a.len() && #[trigger] in_range(a[m], a0.1 as int);
            if m > 0 { assert(a[0].1 < a[m].0); }
        }
        if b0.1 < a0.1 {
            assert(in_range(a[0], b0.1 as int));
            assert(covered(a, b0.1 as int));
            let m = choose|m: int| 0 <= m < b.len() && #[trigger] in_range(b[m], b0.1 as int);
            if m > 0 { assert(b[0].1 < b[m].0); }
        }
        assert(a0 == b0);
        let ta = a.drop_first();
        let tb = b.drop_first();
        assert forall|p: int| covered(ta, p) <==> covered(tb, p) by {
            lemma_covered_tail(a, len, p);
            lemma_covered_tail(b, len, p);
        }
        assert(separated_ranges(ta, len)) by {
            assert forall|i: int, j: int| 0 <= i < j < ta.len() implies (#[trigger] ta[i]).1 < (#[trigger] ta[j]).0 by {
                assert(ta[i] == a[i + 1]);
                assert(ta[j] == a[j + 1]);
            }
        }
        assert(separated_ranges(tb, len)) by {
            assert forall|i: int, j: int| 0 <= i < j < tb.len() implies (#[trigger] tb[i]).1 < (#[trigger] tb[j]).0 by {
                assert(tb[i] == b[i + 1]);
                assert(tb[j] == b[j + 1]);
            }
        }
        lemma_merge_unique(ta, tb, len);
        assert(a =~= seq![a0] + ta);
        assert(b =~= seq![b0] + tb);
    }
}

/// The valid ranges (non-empty, ending within `len`) merged into separated ranges in increasing
/// order; ranges that overlap or touch are joined.
pub fn merged_ranges(ranges: &[(usize, usize)], len: usize) -> (r: Vec<(usize, usize)>)
    ensures
        r@ == merged_spec(ranges@, len as int),
        is_merge_of(r@, ranges@, len as int),
        endpoints_from(r@, ranges@, len as int),
{
    let sorted = sorted_valid_ranges(ranges, len);
    let mut merged: Vec<(usize, usize)> = Vec::new();
    let mut i: usize = 0;
    while i < sorted.len()
        invariant
            i <= sorted@.len(),
            forall|k: int| 0 <= k < sorted@.len() ==> valid_range(#[trigger] sorted@[k], len as int),
            forall|a: int, b: int| 0 <= a <= b < sorted@.len() ==> (#[trigger] sorted@[a]).0 <= (#[trigger] sorted@[b]).0,
            separated_ranges(merged@, len as int),
            forall|p: int| covered(merged@, p) <==> #[trigger] covered(sorted@.take(i as int), p),
            merged@.len() > 0 ==> forall|k: int| i <= k < sorted@.len() ==> merged@.last().0 <= (#[trigger] sorted@[k]).0,
            merged@.len() == 0 ==> i == 0,
            endpoints_from(merged@, sorted@, len as int),
        decreases sorted.len() - i,
    {
        let (s, e) = sorted[i];
        let ghost old_m = merged@;
        let ghost t0 = sorted@.take(i as int);
        let ghost t1 = sorted@.take(i + 1);
        assert(t1 =~= t0.push((s, e)));
        assert forall|p: int| #[trigger] covered(t1, p) <==> (covered(t0, p) || in_range((s, e), p)) by {
            if covered(t1, p) {
                let j = choose|j: int| 0 <= j < t1.len() && #[trigger] in_range(t1[j], p);
                if j < i { assert(t0[j] == t1[j]); }
            }
            if covered(t0, p) {
                let j = choose|j: int| 0 <= j < t0.len() && #[trigger] in_range(t0[j], p);
                assert(t1[j] == t0[j]);
            }
            if in_range((s, e), p) {
                assert(t1[i as int] == (s, e));
            }
        }
        if merged.len() > 0 && s <= merged[merged.len() - 1].1 {
            let last = merged.len() - 1;
            let (ls, le) = merged[last];
            let ne = if le >= e { le } else { e };
            merged.set(last, (ls, ne));
            assert(ls <= s);
            assert forall|p: int| covered(merged@, p) <==> (covered(old_m, p) || in_range((s, e), p)) by {
                if covered(merged@, p) {
                    let j = choose|j: int| 0 <= j < merged@.len() && #[trigger] in_range(merged@[j], p);
                    if j < last {
                        assert(old_m[j] == merged@[j]);
                        assert(in_range(old_m[j], p));
                    } else if p < le {
                        assert(in_range(old_m[last as int], p));
                    } else {
                        assert(in_range((s, e), p));
                    }
                }
                if covered(old_m, p) {
                    let j = choose|j: int| 0 <= j < old_m.len() && #[trigger] in_range(old_m[j], p);
                    if j < last {
                        assert(in_range(merged@[j], p));
                    } else {
                        assert(in_range(merged@[last as int], p));
                    }
                }
                if in_range((s, e), p) {
                    assert(in_range(merged@[last as int], p));
                }
            }
            assert(separated_ranges(merged@, len as int)) by {
                assert forall|a: int, b: int| 0 <= a < b < merged@.len() implies (#[trigger] merged@[a]).1 < (#[trigger] merged@[b]).0 by {
                    assert(old_m[a].1 < old_m[b].0);
                }
            }
            assert(endpoints_from(merged@, sorted@, len as int)) by {
                assert forall|a: int| 0 <= a < merged@.len() implies has_start(sorted@, len as int, (#[trigger] merged@[a]).0) && has_end(sorted@, len as int, merged@[a].1) by {
                    assert(old_m[a].0 == merged@[a].0);
                    if a == last && ne == e {
                        assert(sorted@[i as int].1 == merged@[a].1);
                    } else {
                        assert(old_m[a].1 == merged@[a].1);
                    }
                }
            }
        } else {
            merged.push((s, e));
            assert forall|p: int| covered(merged@, p) <==> (covered(old_m, p) || in_range((s, e), p)) by {
                if covered(merged@, p) {
                    let j = choose|j: int| 0 <= j < merged@.len() && #[trigger] in_range(merged@[j], p);
                    if j < old_m.len() {
                        assert(old_m[j] == merged@[j]);
                        assert(in_range(old_m[j], p));
                    }
                }
                if covered(old_m, p) {
                    let j = choose|j: int| 0 <= j < old_m.len() && #[trigger] in_range(old_m[j], p);
                    assert(in_range(merged@[j], p));
                }
                if in_range((s, e), p) {
                    assert(in_range(merged@[old_m.len() as int], p));
                }
            }
            assert(separated_ranges(merged@, len as int)) by {
                assert forall|a: int, b: int| 0 <= a < b < merged@.len() implies (#[trigger] merged@[a]).1 < (#[trigger] merged@[b]).0 by {
                    if b == old_m.len() {
                        let l = old_m.len() - 1;
                        assert(old_m[l].1 < s);
                        if a < l {
                            assert(old_m[a].1 < old_m[l].0);
                        }
                    } else {
                        assert(old_m[a].1 < old_m[b].0);
                    }
                }
            }
            assert(endpoints_from(merged@, sorted@, len as int)) by {
                assert forall|a: int| 0 <= a < merged@.len() implies has_start(sorted@, len as int, (#[trigger] merged@[a]).0) && has_end(sorted@, len as int, merged@[a].1) by {
                    if a == old_m.len() {
                        assert(sorted@[i as int].0 == merged@[a].0);
                        assert(sorted@[i as int].1 == merged@[a].1);
                    } else {
                        assert(old_m[a] == merged@[a]);
                    }
                }
            }
        }
        assert forall|p: int| covered(merged@, p) <==> #[trigger] covered(t1, p) by {
            assert(covered(old_m, p) <==> covered(t0, p));
        }
        i += 1;
    }
    assert(sorted@.take(sorted@.len() as int) =~= sorted@);
    assert forall|p: int| covered(merged@, p) <==> covered_valid(ranges@, len as int, p) by {
        if covered(merged@, p) {
            assert(covered(sorted@, p));
            let j = choose|j: int| 0 <= j < sorted@.len() && #[trigger] in_range(sorted@[j], p);
            assert(sorted@.contains(sorted@[j]));
            let k = choose|k: int| 0 <= k < ranges@.len() && ranges@[k] == sorted@[j];
            assert(in_range(ranges@[k], p));
        }
        if covered_valid(ranges@, len as int, p) {
            let k = choose|k: int| 0 <= k < ranges@.len() && valid_range(ranges@[k], len as int) && #[trigger] in_range(ranges@[k], p);
            assert(ranges@.contains(ranges@[k]));
            assert(sorted@.contains(ranges@[k]));
            let j = choose|j: int| 0 <= j < sorted@.len() && sorted@[j] == ranges@[k];
            assert(in_range(sorted@[j], p));
            assert(covered(sorted@.take(sorted@.len() as int), p));
        }
    }
    assert(endpoints_from(merged@, ranges@, len as int)) by {
        assert forall|a: int| 0 <= a < merged@.len() implies has_start(ranges@, len as int, (#[trigger] merged@[a]).0) && has_end(ranges@, len as int, merged@[a].1) by {
            assert(has_start(sorted@, len as int, merged@[a].0));
            assert(has_end(sorted@, len as int, merged@[a].1));
            let j = choose|j: int| 0 <= j < sorted@.len() && valid_range(sorted@[j], len as int) && #[trigger] sorted@[j].0 == merged@[a].0;
            let k = choose|k: int| 0 <= k < sorted@.len() && valid_range(sorted@[k], len as int) && #[trigger] sorted@[k].1 == merged@[a].1;
            assert(sorted@.contains(sorted@[j]));
            assert(sorted@.contains(sorted@[k]));
            let j2 = choose|j2: int| 0 <= j2 < ranges@.len() && ranges@[j2] == sorted@[j];
            let k2 = choose|k2: int| 0 <= k2 < ranges@.len() && ranges@[k2] == sorted@[k];
            assert(valid_range(ranges@[j2], len as int));
            assert(ranges@[j2].0 == merged@[a].0);
            assert(ranges@[k2].1 == merged@[a].1);
        }
    }
    proof {
        let m = merged_spec(ranges@, len as int);
        assert(is_merge_of(merged@, ranges@, len as int));
        assert(is_merge_of(m, ranges@, len as int));
        lemma_merge_unique(merged@, m, len as int);
    }
    merged
}

} // verus!

verus! {

/* Highlighting */

/// Whether every valid range of `ranges` starts and ends on a char boundary of `bytes`.
pub open spec fn ranges_on_boundaries(bytes: Seq<u8>, ranges: Seq<(usize, usize)>) -> bool {
    forall|i: int|
        0 <= i < ranges.len() && valid_range(#[trigger] ranges[i], bytes.len() as int) ==> {
            &&& is_char_boundary(bytes, ranges[i].0 as int)
            &&& is_char_boundary(bytes, ranges[i].1 as int)
        }
}

/// Whether the valid ranges' coverage begins or ends at byte `x`: `x` is covered and `x - 1` is
/// not, or the other way round.
pub open spec fn coverage_edge(ranges: Seq<(usize, usize)>, len: int, x: int) -> bool {
    covered_valid(ranges, len, x) != covered_valid(ranges, len, x - 1)
}

/// Whether every byte position where the valid ranges' coverage begins or ends is a char
/// boundary of `bytes`: these are the endpoints of the merged ranges, the only positions at
/// which the text is cut.
pub open spec fn coverage_on_boundaries(bytes: Seq<u8>, ranges: Seq<(usize, usize)>) -> bool {
    forall|x: int|
        0 <= x <= bytes.len() && #[trigger] coverage_edge(ranges, bytes.len() as int, x) ==> is_char_boundary(bytes, x)
}

/// Ranges that start and end on char boundaries begin and end their coverage on char boundaries.
pub proof fn lemma_coverage_on_boundaries(bytes: Seq<u8>, ranges: Seq<(usize, usize)>)
    requires
        ranges_on_boundaries(bytes, ranges),
    ensures
        coverage_on_boundaries(bytes, ranges),
{
    let len = bytes.len() as int;
    assert forall|x: int| 0 <= x <= len && #[trigger] coverage_edge(ranges, len, x) implies is_char_boundary(bytes, x) by {
        if covered_valid(ranges, len, x) {
            let i = choose|i: int| 0 <= i < ranges.len() && valid_range(ranges[i], len) && #[trigger] in_range(ranges[i], x);
            if ranges[i].0 < x {
                assert(in_range(ranges[i], x - 1));
            }
            assert(ranges[i].0 == x);
        } else {
            let i = choose|i: int| 0 <= i < ranges.len() && valid_range(ranges[i], len) && #[trigger] in_range(ranges[i], x - 1);
            if ranges[i].1 > x {
                assert(in_range(ranges[i], x));
            }
            assert(ranges[i].1 == x);
        }
    }
}

/// The coverage of the ranges begins where a range of their merge starts and ends where it ends.
proof fn lemma_merged_endpoints_are_edges(m: Seq<(usize, usize)>, ranges: Seq<(usize, usize)>, len: int, k: int)
    requires
        is_merge_of(m, ranges, len),
        0 <= k < m.len(),
    ensures
        coverage_edge(ranges, len, m[k].0 as int),
        coverage_edge(ranges, len, m[k].1 as int),
{
    let s = m[k].0 as int;
    let e = m[k].1 as int;
    assert(in_range(m[k], s));
    assert(covered(m, s));
    assert(in_range(m[k], e - 1));
    assert(covered(m, e - 1));
    assert(!covered(m, s - 1)) by {
        if covered(m, s - 1) {
            let j = choose|j: int| 0 <= j < m.len() && #[trigger] in_range(m[j], s - 1);
            if j < k {
                assert(m[j].1 < m[k].0);
            } else if j > k {
                assert(m[k].1 < m[j].0);
            }
        }
    }
    assert(!covered(m, e)) by {
        if covered(m, e) {
            let j = choose|j: int| 0 <= j < m.len() && #[trigger] in_range(m[j], e);
            if j < k {
                assert(m[j].1 < m[k].0);
            } else if j > k {
                assert(m[k].1 < m[j].0);
            }
        }
    }
}

/// The chars encoded by `bytes[a..b]`.
pub open spec fn decoded(bytes: Seq<u8>, a: int, b: int) -> Seq<char> {
    decode_utf8(bytes.subrange(a, b))
}

impl OutputStyle {
    /// The pieces of `bytes` from `cursor` on: the text before each of the separated ranges `m` in
    /// the style, the text of each range in the style's match style, and the text after the last
    /// range in the style.
    pub open spec fn highlighted_from(
        self,
        bytes: Seq<u8>,
        m: Seq<(usize, usize)>,
        style: HighlightStyle,
        cursor: int,
    ) -> Seq<char>
        decreases m.len(),
    {
        if m.len() == 0 {
            if cursor < bytes.len() {
                self.apply_style_spec(decoded(bytes, cursor, bytes.len() as int), style)
            } else {
                seq![]
            }
        } else {
            (if cursor < m[0].0 {
                self.apply_style_spec(decoded(bytes, cursor, m[0].0 as int), style)
            } else {
                seq![]
            }) + self.apply_match_style_spec(decoded(bytes, m[0].0 as int, m[0].1 as int), style)
                + self.highlighted_from(bytes, m.drop_first(), style, m[0].1 as int)
        }
    }

    /// `value` with the byte ranges highlighted: when colors are off or there are no ranges, all
    /// of it in the style; otherwise the ranges merged and highlighted in turn.
    pub open spec fn highlight_spec(self, value: Seq<char>, ranges: Seq<(usize, usize)>, style: HighlightStyle) -> Seq<char> {
        if !self.enabled || ranges.len() == 0 {
            self.apply_style_spec(value, style)
        } else {
            let bytes = encode_utf8(value);
            self.highlighted_from(bytes, merged_spec(ranges, bytes.len() as int), style, 0)
        }
    }

    /// `value` with the given byte ranges highlighted in the given style.
    pub fn highlight_as(&self, value: &str, ranges: &[(usize, usize)], style: HighlightStyle) -> (r: String)
        requires
            coverage_on_boundaries(value.spec_bytes(), ranges@),
        ensures
            r@ == self.highlight_spec(value@, ranges@, style),
            no_escape(value@) ==> strip_sgr(r@) == value@,
    {
        if !self.enabled || ranges.len() == 0 {
            proof {
                if no_escape(value@) {
                    self.law_styles_strip_to_text(value@, seq![], style);
                    assert(self.apply_style_spec(value@, style) + seq![] =~= self.apply_style_spec(value@, style));
                    assert(value@ + seq![] =~= value@);
                }
            }
            return self.apply_style(value, style);
        }
        let n = byte_len(value);
        let merged = merged_ranges(ranges, n);
        let ghost bytes = value.spec_bytes();
        let ghost m = merged@;
        proof { is_char_boundary_start_end_of_seq(bytes); }
        let mut result = String::new();
        let mut cursor: usize = 0;
        let mut k: usize = 0;
        assert(m.skip(0) =~= m);
        while k < merged.len()
            invariant
                k <= m.len(),
                m == merged@,
                bytes == value.spec_bytes(),
                n == bytes.len(),
                self.enabled,
                is_merge_of(m, ranges@, n as int),
                endpoints_from(m, ranges@, n as int),
                coverage_on_boundaries(bytes, ranges@),
                cursor <= n,
                is_char_boundary(bytes, cursor as int),
                k < m.len() ==> cursor <= m[k as int].0,
                result@ + self.highlighted_from(bytes, m.skip(k as int), style, cursor as int)
                    == self.highlighted_from(bytes, m, style, 0),
            decreases m.len() - k,
        {
            let (start, end) = merged[k];
            let ghost rest = m.skip(k as int);
            assert(rest[0] == (start, end));
            assert(rest.drop_first() =~= m.skip(k + 1));
            assert(valid_range(m[k as int], n as int));
            proof { lemma_merged_endpoints_are_edges(m, ranges@, n as int, k as int); }
            assert(is_char_boundary(bytes, start as int));
            assert(is_char_boundary(bytes, end as int));
            let ghost before = result@;
            if cursor < start {
                let piece = self.apply_style(substr(value, cursor, start), style);
                push_str(&mut result, piece.as_str());
            }
            let matched = self.apply_match_style(substr(value, start, end), style);
            push_str(&mut result, matched.as_str());
            assert(result@ + self.highlighted_from(bytes, m.skip(k + 1), style, end as int)
                =~= before + self.highlighted_from(bytes, rest, style, cursor as int));
            assert(k + 1 < m.len() ==> m[k as int].1 < m[k + 1].0);
            cursor = end;
            k += 1;
        }
        let ghost before = result@;
        if cursor < n {
            let piece = self.apply_style(substr_from(value, cursor), style);
            push_str(&mut result, piece.as_str());
        }
        assert(m.skip(k as int) =~= Seq::<(usize, usize)>::empty());
        assert(result@ =~= before + self.highlighted_from(bytes, m.skip(k as int), style, cursor as int));
        proof {
            if no_escape(value@) {
                encode_utf8_valid_utf8(value@);
                encode_utf8_decode_utf8(value@);
                assert(bytes.subrange(0, n as int) =~= bytes);
                assert forall|i: int| 0 <= i < m.len() implies is_char_boundary(bytes, (#[trigger] m[i]).0 as int)
                    && is_char_boundary(bytes, m[i].1 as int) by {
                    lemma_merged_endpoints_are_edges(m, ranges@, n as int, i);
                    assert(valid_range(m[i], n as int));
                }
                self.law_highlight_strips_to_text(bytes, m, style, 0);
            }
        }
        result
    }

    /// `value` as a branch name, with the ranges highlighted.
    pub fn highlight(&self, value: &str, ranges: &[(usize, usize)]) -> (r: String)
        requires
            coverage_on_boundaries(value.spec_bytes(), ranges@),
        ensures
            r@ == self.highlight_spec(value@, ranges@, HighlightStyle::Branch),
            no_escape(value@) ==> strip_sgr(r@) == value@,
    {
        self.highlight_as(value, ranges, HighlightStyle::Branch)
    }

    /// `value` as a repository path, with the ranges highlighted.
    pub fn highlight_repo(&self, value: &str, ranges: &[(usize, usize)]) -> (r: String)
        requires
            coverage_on_boundaries(value.spec_bytes(), ranges@),
        ensures
            r@ == self.highlight_spec(value@, ranges@, HighlightStyle::Repo),
            no_escape(value@) ==> strip_sgr(r@) == value@,
    {
        self.highlight_as(value, ranges, HighlightStyle::Repo)
    }

    /// `value` as a stash reference, with the ranges highlighted.
    pub fn highlight_stash_ref(&self, value: &str, ranges: &[(usize, usize)]) -> (r: String)
        requires
            coverage_on_boundaries(value.spec_bytes(), ranges@),
        ensures
            r@ == self.highlight_spec(value@, ranges@, HighlightStyle::StashRef),
            no_escape(value@) ==> strip_sgr(r@) == value@,
    {
        self.highlight_as(value, ranges, HighlightStyle::StashRef)
    }

    /// `value` as a commit, with the ranges highlighted.
    pub fn highlight_commit(&self, value: &str, ranges: &[(usize, usize)]) -> (r: String)
        requires
            coverage_on_boundaries(value.spec_bytes(), ranges@),
        ensures
            r@ == self.highlight_spec(value@, ranges@, HighlightStyle::Commit),
            no_escape(value@) ==> strip_sgr(r@) == value@,
    {
        self.highlight_as(value, ranges, HighlightStyle::Commit)
    }

    /// `value` as plain text, with the ranges highlighted.
    pub fn highlight_plain(&self, value: &str, ranges: &[(usize, usize)]) -> (r: String)
        requires
            coverage_on_boundaries(value.spec_bytes(), ranges@),
        ensures
            r@ == self.highlight_spec(value@, ranges@, HighlightStyle::Plain),
            no_escape(value@) ==> strip_sgr(r@) == value@,
    {
        self.highlight_as(value, ranges, HighlightStyle::Plain)
    }
}

} // verus!

verus! {

/* Laws */

/// With colors off, every kind of highlighting gives back the text unchanged.
pub proof fn law_disabled_style_is_plain(value: Seq<char>, ranges: Seq<(usize, usize)>, style: HighlightStyle)
    ensures
        (OutputStyle { enabled: false }).highlight_spec(value, ranges, style) == value,
        (OutputStyle { enabled: false }).repo_spec(value) == value,
        (OutputStyle { enabled: false }).label_spec(value) == value,
        (OutputStyle { enabled: false }).commit_spec(value) == value,
        (OutputStyle { enabled: false }).branch_spec(value) == value,
        (OutputStyle { enabled: false }).stash_ref_spec(value) == value,
        (OutputStyle { enabled: false }).current_spec(value) == value,
        (OutputStyle { enabled: false }).status_spec(value) == value,
        (OutputStyle { enabled: false }).reason_spec(value) == value,
{
}

/// Separated ranges are their own merge: merging is idempotent.
pub proof fn law_merge_idempotent(m: Seq<(usize, usize)>, len: int)
    requires
        separated_ranges(m, len),
    ensures
        merged_spec(m, len) == m,
{
    assert forall|p: int| covered(m, p) <==> covered_valid(m, len, p) by {
        if covered(m, p) {
            let j = choose|j: int| 0 <= j < m.len() && #[trigger] in_range(m[j], p);
            assert(valid_range(m[j], len));
        }
    }
    assert(is_merge_of(m, m, len));
    let c = merged_spec(m, len);
    assert(is_merge_of(c, m, len));
    lemma_merge_unique(c, m, len);
}

/// The pieces that highlighting cuts `bytes[cursor..]` into, without any styling, joined.
pub open spec fn plain_pieces(bytes: Seq<u8>, m: Seq<(usize, usize)>, cursor: int) -> Seq<char> {
    (OutputStyle { enabled: false }).highlighted_from(bytes, m, HighlightStyle::Plain, cursor)
}

/// Splitting a valid UTF-8 range at an inner char boundary splits its chars.
proof fn lemma_decoded_split(bytes: Seq<u8>, a: int, b: int, c: int)
    requires
        valid_utf8(bytes),
        0 <= a <= b <= c <= bytes.len(),
        is_char_boundary(bytes, a),
        is_char_boundary(bytes, b),
        is_char_boundary(bytes, c),
    ensures
        decoded(bytes, a, c) == decoded(bytes, a, b) + decoded(bytes, b, c),
{
    let s = bytes.subrange(a, c);
    let head = bytes.subrange(0, c);
    // `bytes[..c]` is valid, and `b` and `a` are boundaries within it.
    valid_utf8_split(bytes, c);
    is_char_boundary_start_end_of_seq(head);
    assert(is_char_boundary(head, a)) by { lemma_boundary_in_prefix(bytes, c, a); }
    assert(is_char_boundary(head, b)) by { lemma_boundary_in_prefix(bytes, c, b); }
    crate::text::lemma_boundary_in_suffix(head, a, b);
    assert(s =~= head.subrange(a, head.len() as int));
    decode_utf8_split(s, b - a);
    assert(s.subrange(0, b - a) =~= bytes.subrange(a, b));
    assert(s.subrange(b - a, s.len() as int) =~= bytes.subrange(b, c));
}

/// A boundary before `c` is a boundary of `bytes[..c]`, when `c` is one.
proof fn lemma_boundary_in_prefix(bytes: Seq<u8>, c: int, x: int)
    requires
        valid_utf8(bytes),
        is_char_boundary(bytes, c),
        is_char_boundary(bytes, x),
        0 <= x <= c <= bytes.len(),
    ensures
        is_char_boundary(bytes.subrange(0, c), x),
{
    let head = bytes.subrange(0, c);
    valid_utf8_split(bytes, c);
    is_char_boundary_start_end_of_seq(head);
    if x < c {
        is_char_boundary_iff_not_is_continuation_byte(bytes, x);
        is_char_boundary_iff_not_is_continuation_byte(head, x);
        assert(head[x] == bytes[x]);
    }
}

/// Highlighting only puts styling around pieces of the text: over separated ranges on char
/// boundaries, the pieces joined give back the text from `cursor` on.
pub proof fn law_highlight_pieces_cover_text(bytes: Seq<u8>, m: Seq<(usize, usize)>, cursor: int)
    requires
        valid_utf8(bytes),
        separated_ranges(m, bytes.len() as int),
        forall|i: int| 0 <= i < m.len() ==> is_char_boundary(bytes, (#[trigger] m[i]).0 as int)
            && is_char_boundary(bytes, m[i].1 as int),
        0 <= cursor <= bytes.len(),
        is_char_boundary(bytes, cursor),
        m.len() > 0 ==> cursor <= m[0].0,
    ensures
        plain_pieces(bytes, m, cursor) == decoded(bytes, cursor, bytes.len() as int),
    decreases m.len(),
{
    let n = bytes.len() as int;
    is_char_boundary_start_end_of_seq(bytes);
    if m.len() == 0 {
        if cursor >= n {
            assert(bytes.subrange(cursor, n) =~= Seq::<u8>::empty());
            assert(decode_utf8(Seq::<u8>::empty()) =~= Seq::<char>::empty());
        }
    } else {
        let s = m[0].0 as int;
        let e = m[0].1 as int;
        let t = m.drop_first();
        assert(separated_ranges(t, n)) by {
            assert forall|i: int, j: int| 0 <= i < j < t.len() implies (#[trigger] t[i]).1 < (#[trigger] t[j]).0 by {
                assert(t[i] == m[i + 1]);
                assert(t[j] == m[j + 1]);
            }
        }
        assert forall|i: int| 0 <= i < t.len() implies is_char_boundary(bytes, (#[trigger] t[i]).0 as int)
            && is_char_boundary(bytes, t[i].1 as int) by {
            assert(t[i] == m[i + 1]);
        }
        if t.len() > 0 {
            assert(t[0] == m[1]);
            assert(m[0].1 < m[1].0);
        }
        assert(valid_range(m[0], n));
        law_highlight_pieces_cover_text(bytes, t, e);
        lemma_decoded_split(bytes, s, e, n);
        if cursor < s {
            lemma_decoded_split(bytes, cursor, s, n);
        } else {
            assert(bytes.subrange(cursor, s) =~= Seq::<u8>::empty());
        }
        assert(plain_pieces(bytes, m, cursor) =~= decoded(bytes, cursor, n));
    }
}

} // verus!

verus! {

/* Removing the styling */

/// Whether the text holds no escape char.
pub open spec fn no_escape(t: Seq<char>) -> bool {
    forall|i: int| 0 <= i < t.len() ==> t[i] != '\u{1b}'
}

/// Whether the text holds no `m`, the char that ends an escape sequence.
pub open spec fn no_sgr_end(t: Seq<char>) -> bool {
    forall|i: int| 0 <= i < t.len() ==> t[i] != 'm'
}

/// `t` with its escape sequences removed: each escape char and everything after it up to and
/// including the next `m`.
pub open spec fn strip_sgr(t: Seq<char>) -> Seq<char>
    decreases t.len(), 1int,
{
    if t.len() == 0 {
        seq![]
    } else if t[0] == '\u{1b}' {
        skip_sgr(t.drop_first())
    } else {
        seq![t[0]] + strip_sgr(t.drop_first())
    }
}

/// The rest of an escape sequence skipped, up to and including its `m`, and the text after it
/// stripped.
pub open spec fn skip_sgr(t: Seq<char>) -> Seq<char>
    decreases t.len(), 0int,
{
    if t.len() == 0 {
        seq![]
    } else if t[0] == 'm' {
        strip_sgr(t.drop_first())
    } else {
        skip_sgr(t.drop_first())
    }
}

proof fn lemma_strip_plain_prefix(a: Seq<char>, b: Seq<char>)
    requires
        no_escape(a),
    ensures
        strip_sgr(a + b) == a + strip_sgr(b),
    decreases a.len(),
{
    if a.len() > 0 {
        assert((a + b)[0] == a[0]);
        assert((a + b).drop_first() =~= a.drop_first() + b);
        lemma_strip_plain_prefix(a.drop_first(), b);
        assert(a =~= seq![a[0]] + a.drop_first());
    } else {
        assert(a + b =~= b);
    }
}

proof fn lemma_skip_to_sgr_end(p: Seq<char>, b: Seq<char>)
    requires
        no_sgr_end(p),
    ensures
        skip_sgr(p + seq!['m'] + b) == strip_sgr(b),
    decreases p.len(),
{
    let t = p + seq!['m'] + b;
    if p.len() > 0 {
        assert(t[0] == p[0]);
        assert(t.drop_first() =~= p.drop_first() + seq!['m'] + b);
        lemma_skip_to_sgr_end(p.drop_first(), b);
    } else {
        assert(t[0] == 'm');
        assert(t.drop_first() =~= b);
    }
}

/// An escape sequence with a code that holds no `m` is removed whole.
proof fn lemma_strip_sgr_code(code: Seq<char>, b: Seq<char>)
    requires
        no_sgr_end(code),
    ensures
        strip_sgr(sgr(code) + b) == strip_sgr(b),
{
    let t = sgr(code) + b;
    let p = seq!['['] + code;
    assert(t[0] == '\u{1b}');
    assert(t.drop_first() =~= p + seq!['m'] + b);
    assert(no_sgr_end(p)) by {
        assert forall|i: int| 0 <= i < p.len() implies p[i] != 'm' by {
            if i > 0 {
                assert(p[i] == code[i - 1]);
            }
        }
    }
    lemma_skip_to_sgr_end(p, b);
}

/// Text between two escape sequences is kept.
proof fn lemma_strip_wrapped(c1: Seq<char>, t: Seq<char>, c2: Seq<char>, b: Seq<char>)
    requires
        no_sgr_end(c1),
        no_sgr_end(c2),
        no_escape(t),
    ensures
        strip_sgr(sgr(c1) + t + sgr(c2) + b) == t + strip_sgr(b),
{
    assert(sgr(c1) + t + sgr(c2) + b =~= sgr(c1) + (t + (sgr(c2) + b)));
    lemma_strip_sgr_code(c1, t + (sgr(c2) + b));
    lemma_strip_plain_prefix(t, sgr(c2) + b);
    lemma_strip_sgr_code(c2, b);
}

/// The codes that the styles write hold no `m`.
proof fn lemma_codes_have_no_sgr_end()
    ensures
        no_sgr_end("0"@),
        no_sgr_end("1"@),
        no_sgr_end("2"@),
        no_sgr_end("31"@),
        no_sgr_end("32"@),
        no_sgr_end("33"@),
        no_sgr_end("35"@),
        no_sgr_end("36"@),
        no_sgr_end("39"@),
        no_sgr_end("49"@),
        no_sgr_end("100"@),
        no_sgr_end("36;100"@),
        no_sgr_end("33;100"@),
        no_sgr_end("35;100"@),
{
    reveal_strlit("0");
    reveal_strlit("1");
    reveal_strlit("2");
    reveal_strlit("31");
    reveal_strlit("32");
    reveal_strlit("33");
    reveal_strlit("35");
    reveal_strlit("36");
    reveal_strlit("39");
    reveal_strlit("49");
    reveal_strlit("100");
    reveal_strlit("36;100");
    reveal_strlit("33;100");
    reveal_strlit("35;100");
    reveal_strlit(";");
}

/// A foreground color around text is removed, and the text is kept.
proof fn lemma_strip_fg(code: Seq<char>, t: Seq<char>, b: Seq<char>)
    requires
        no_sgr_end(code),
        no_escape(t),
    ensures
        strip_sgr(with_fg(code, t) + b) == t + strip_sgr(b),
{
    lemma_codes_have_no_sgr_end();
    lemma_strip_wrapped(code, t, "39"@, b);
}

/// A bold or dimmed foreground color around text is removed, and the text is kept.
proof fn lemma_strip_attr_fg(attr: Seq<char>, code: Seq<char>, t: Seq<char>, b: Seq<char>)
    requires
        no_sgr_end(attr),
        no_sgr_end(code),
        no_escape(t),
    ensures
        strip_sgr(sgr(attr) + with_fg(code, t) + sgr("0"@) + b) == t + strip_sgr(b),
{
    lemma_codes_have_no_sgr_end();
    assert(sgr(attr) + with_fg(code, t) + sgr("0"@) + b =~= sgr(attr) + (with_fg(code, t) + (sgr("0"@) + b)));
    lemma_strip_sgr_code(attr, with_fg(code, t) + (sgr("0"@) + b));
    lemma_strip_fg(code, t, sgr("0"@) + b);
    lemma_strip_sgr_code("0"@, b);
}

impl OutputStyle {
    /// Removing the escape sequences of styled text gives back the text, when it holds none of
    /// its own: for every style and for text in or outside a matched range.
    pub proof fn law_styles_strip_to_text(self, t: Seq<char>, b: Seq<char>, style: HighlightStyle)
        requires
            no_escape(t),
        ensures
            strip_sgr(self.repo_spec(t) + b) == t + strip_sgr(b),
            strip_sgr(self.label_spec(t) + b) == t + strip_sgr(b),
            strip_sgr(self.commit_spec(t) + b) == t + strip_sgr(b),
            strip_sgr(self.branch_spec(t) + b) == t + strip_sgr(b),
            strip_sgr(self.stash_ref_spec(t) + b) == t + strip_sgr(b),
            strip_sgr(self.current_spec(t) + b) == t + strip_sgr(b),
            strip_sgr(self.status_spec(t) + b) == t + strip_sgr(b),
            strip_sgr(self.reason_spec(t) + b) == t + strip_sgr(b),
            strip_sgr(self.apply_style_spec(t, style) + b) == t + strip_sgr(b),
            strip_sgr(self.apply_match_style_spec(t, style) + b) == t + strip_sgr(b),
    {
        lemma_codes_have_no_sgr_end();
        lemma_strip_plain_prefix(t, b);
        lemma_strip_fg("31"@, t, b);
        lemma_strip_fg("32"@, t, b);
        lemma_strip_fg("33"@, t, b);
        lemma_strip_fg("35"@, t, b);
        lemma_strip_fg("36"@, t, b);
        assert(with_bold(with_fg("36"@, t)) + b =~= sgr("1"@) + with_fg("36"@, t) + sgr("0"@) + b);
        lemma_strip_attr_fg("1"@, "36"@, t, b);
        assert(with_bold(with_fg("32"@, t)) + b =~= sgr("1"@) + with_fg("32"@, t) + sgr("0"@) + b);
        lemma_strip_attr_fg("1"@, "32"@, t, b);
        assert(with_dim(t) + b =~= sgr("2"@) + t + sgr("0"@) + b);
        lemma_strip_wrapped("2"@, t, "0"@, b);
        assert(with_bg("100"@, t) + b =~= sgr("100"@) + t + sgr("49"@) + b);
        lemma_strip_wrapped("100"@, t, "49"@, b);
        assert(with_fg_bg("36"@, "100"@, t) + b =~= sgr("36;100"@) + t + sgr("0"@) + b) by {
            reveal_strlit("36;100");
            reveal_strlit("36");
            reveal_strlit("100");
            reveal_strlit(";");
        }
        lemma_strip_wrapped("36;100"@, t, "0"@, b);
        assert(with_fg_bg("33"@, "100"@, t) + b =~= sgr("33;100"@) + t + sgr("0"@) + b) by {
            reveal_strlit("33;100");
            reveal_strlit("33");
            reveal_strlit("100");
            reveal_strlit(";");
        }
        lemma_strip_wrapped("33;100"@, t, "0"@, b);
        assert(with_fg_bg("35"@, "100"@, t) + b =~= sgr("35;100"@) + t + sgr("0"@) + b) by {
            reveal_strlit("35;100");
            reveal_strlit("35");
            reveal_strlit("100");
            reveal_strlit(";");
        }
        lemma_strip_wrapped("35;100"@, t, "0"@, b);
    }

    /// Removing the escape sequences of highlighted text gives back the text from `cursor` on,
    /// when it holds none of its own.
    pub proof fn law_highlight_strips_to_text(
        self,
        bytes: Seq<u8>,
        m: Seq<(usize, usize)>,
        style: HighlightStyle,
        cursor: int,
    )
        requires
            valid_utf8(bytes),
            separated_ranges(m, bytes.len() as int),
            forall|i: int| 0 <= i < m.len() ==> is_char_boundary(bytes, (#[trigger] m[i]).0 as int)
                && is_char_boundary(bytes, m[i].1 as int),
            0 <= cursor <= bytes.len(),
            is_char_boundary(bytes, cursor),
            m.len() > 0 ==> cursor <= m[0].0,
            no_escape(decoded(bytes, cursor, bytes.len() as int)),
        ensures
            strip_sgr(self.highlighted_from(bytes, m, style, cursor)) == decoded(bytes, cursor, bytes.len() as int),
        decreases m.len(),
    {
        let n = bytes.len() as int;
        is_char_boundary_start_end_of_seq(bytes);
        if m.len() == 0 {
            if cursor < n {
                let d = decoded(bytes, cursor, n);
                self.law_styles_strip_to_text(d, seq![], style);
                assert(self.apply_style_spec(d, style) + seq![] =~= self.apply_style_spec(d, style));
                assert(d + seq![] =~= d);
            } else {
                assert(bytes.subrange(cursor, n) =~= Seq::<u8>::empty());
                assert(decode_utf8(Seq::<u8>::empty()) =~= Seq::<char>::empty());
            }
        } else {
            let s = m[0].0 as int;
            let e = m[0].1 as int;
            let t = m.drop_first();
            assert(separated_ranges(t, n)) by {
                assert forall|i: int, j: int| 0 <= i < j < t.len() implies (#[trigger] t[i]).1 < (#[trigger] t[j]).0 by {
                    assert(t[i] == m[i + 1]);
                    assert(t[j] == m[j + 1]);
                }
            }
            assert forall|i: int| 0 <= i < t.len() implies is_char_boundary(bytes, (#[trigger] t[i]).0 as int)
                && is_char_boundary(bytes, t[i].1 as int) by {
                assert(t[i] == m[i + 1]);
            }
            if t.len() > 0 {
                assert(t[0] == m[1]);
                assert(m[0].1 < m[1].0);
            }
            assert(valid_range(m[0], n));
            let whole = decoded(bytes, cursor, n);
            let before = decoded(bytes, cursor, s);
            let inside = decoded(bytes, s, e);
            let after = decoded(bytes, e, n);
            lemma_decoded_split(bytes, s, e, n);
            if cursor < s {
                lemma_decoded_split(bytes, cursor, s, n);
            } else {
                assert(bytes.subrange(cursor, s) =~= Seq::<u8>::empty());
                assert(decode_utf8(Seq::<u8>::empty()) =~= Seq::<char>::empty());
            }
            assert(whole =~= before + (inside + after));
            lemma_no_escape_split(before, inside + after);
            lemma_no_escape_split(inside, after);
            self.law_highlight_strips_to_text(bytes, t, style, e);
            let rest = self.highlighted_from(bytes, t, style, e);
            let marked = self.apply_match_style_spec(inside, style);
            self.law_styles_strip_to_text(inside, rest, style);
            if cursor < s {
                let lead = self.apply_style_spec(before, style);
                self.law_styles_strip_to_text(before, marked + rest, style);
                assert(self.highlighted_from(bytes, m, style, cursor) =~= lead + (marked + rest));
            } else {
                assert(self.highlighted_from(bytes, m, style, cursor) =~= marked + rest);
            }
        }
    }
}

/// A text without escape chars is made of parts without them.
proof fn lemma_no_escape_split(a: Seq<char>, b: Seq<char>)
    requires
        no_escape(a + b),
    ensures
        no_escape(a),
        no_escape(b),
{
    assert forall|i: int| 0 <= i < a.len() implies a[i] != '\u{1b}' by {
        assert((a + b)[i] == a[i]);
    }
    assert forall|i: int| 0 <= i < b.len() implies b[i] != '\u{1b}' by {
        assert((a + b)[a.len() + i] == b[i]);
    }
}

} // verus!
