//! Stashes: reading `git stash list` lines, selecting the requested and matching ones, and
//! reporting them.
use vstd::prelude::*;
use vstd::utf8::*;

use crate::branch::opt_str_view;
use crate::query::QueryMatcher;
use crate::style::HighlightStyle;
use crate::style::OutputStyle;
use crate::style::lemma_coverage_on_boundaries;
use crate::text::all_ascii_digits;
use crate::text::all_digits;
use crate::text::is_digit;
use crate::text::lines;
use crate::text::lines_spec;
use crate::text::push_str;
use crate::text::split_once;
use crate::text::split_once_spec;
use crate::text::str_eq;
use crate::text::string_of;

verus! {

/* Stash entries */

/// One line of `git stash list --format=%gd%x09%gs`: the stash reference and its subject.
#[derive(Debug, Clone, PartialEq, Eq)]
pub struct StashEntry {
    pub reference: String,
    pub subject: String,
}

/// The reference and subject of a stash list line: the parts before and after its first tab.
pub open spec fn stash_entry_spec(line: Seq<char>) -> Option<(Seq<char>, Seq<char>)> {
    split_once_spec(line, '\t')
}

/// Splits a stash list line at its first tab; a line without a tab is no entry.
pub fn parse_stash_entry(line: &str) -> (r: Option<StashEntry>)
    ensures
        match r {
            Some(e) => stash_entry_spec(line@) == Some((e.reference@, e.subject@)),
            None => stash_entry_spec(line@) is None,
        },
{
    match split_once(line, '\t') {
        Some((reference, subject)) => Some(StashEntry { reference, subject }),
        None => None,
    }
}

/// A stash given by its index alone (only ASCII digits) stands for `stash@{index}`; any other
/// text is a reference already.
pub open spec fn normalized_stash_ref(stash: Seq<char>) -> Seq<char> {
    if all_digits(stash) {
        "stash@{"@ + stash + "}"@
    } else {
        stash
    }
}

/// The stash reference a `--stash` argument names.
pub fn normalize_stash_ref(stash: &str) -> (r: String)
    ensures
        r@ == normalized_stash_ref(stash@),
{
    if all_ascii_digits(stash) {
        let mut r = string_of("stash@{");
        push_str(&mut r, stash);
        push_str(&mut r, "}");
        r
    } else {
        string_of(stash)
    }
}

/// Normalizing a stash reference a second time changes nothing.
pub proof fn law_normalize_stash_ref_idempotent(stash: Seq<char>)
    ensures
        normalized_stash_ref(normalized_stash_ref(stash)) == normalized_stash_ref(stash),
{
    if all_digits(stash) {
        reveal_strlit("stash@{");
        let n = normalized_stash_ref(stash);
        assert(n[0] == 's');
        assert(!is_digit(n[0]));
    }
}

/// Whether the query matches the entry's reference or its subject.
pub open spec fn stash_matches_spec(reference: Seq<char>, subject: Seq<char>, matcher: QueryMatcher) -> bool {
    matcher.spec_is_match(reference) || matcher.spec_is_match(subject)
}

/// Whether the query matches the entry's reference or its subject.
pub fn stash_matches(entry: &StashEntry, matcher: &QueryMatcher) -> (r: bool)
    ensures
        r == stash_matches_spec(entry.reference@, entry.subject@, *matcher),
{
    matcher.is_match(entry.reference.as_str()) || matcher.is_match(entry.subject.as_str())
}

/// The matcher behind an optional reference.
pub open spec fn opt_matcher(m: Option<&QueryMatcher>) -> Option<QueryMatcher> {
    match m {
        Some(q) => Some(*q),
        None => None,
    }
}

/// Whether an entry is kept: it is the requested stash, if one was requested, and the query
/// matches it, if there is a query.
pub open spec fn stash_selected(e: (Seq<char>, Seq<char>), matcher: Option<QueryMatcher>, stash: Option<Seq<char>>) -> bool {
    &&& (stash matches Some(s) ==> e.0 == normalized_stash_ref(s))
    &&& (matcher matches Some(q) ==> stash_matches_spec(e.0, e.1, q))
}

/// The entries of the stash list lines that are kept, in order.
pub open spec fn matching_stashes_spec(lines: Seq<Seq<char>>, matcher: Option<QueryMatcher>, stash: Option<Seq<char>>) -> Seq<(Seq<char>, Seq<char>)>
    decreases lines.len(),
{
    if lines.len() == 0 {
        seq![]
    } else {
        let rest = matching_stashes_spec(lines.drop_last(), matcher, stash);
        match stash_entry_spec(lines.last()) {
            Some(e) => if stash_selected(e, matcher, stash) {
                rest.push(e)
            } else {
                rest
            },
            None => rest,
        }
    }
}

/// The reference and subject of each entry.
pub open spec fn entries_view(v: Seq<StashEntry>) -> Seq<(Seq<char>, Seq<char>)> {
    v.map_values(|e: StashEntry| (e.reference@, e.subject@))
}

/// The entries of `git stash list` output that are the requested stash and that the query
/// matches, in the order listed.
pub fn matching_stashes(output: &str, matcher: Option<&QueryMatcher>, stash: Option<&str>) -> (r: Vec<StashEntry>)
    ensures
        entries_view(r@) == matching_stashes_spec(lines_spec(output@), opt_matcher(matcher), opt_str_view(stash)),
{
    let wanted: Option<String> = match stash {
        Some(s) => Some(normalize_stash_ref(s)),
        None => None,
    };
    let ls = lines(output);
    let ghost lv = lines_spec(output@);
    let mut out: Vec<StashEntry> = Vec::new();
    let mut i: usize = 0;
    while i < ls.len()
        invariant
            i <= ls@.len(),
            ls@.map_values(|l: String| l@) == lv,
            stash is Some <==> wanted is Some,
            stash matches Some(s) ==> wanted->0@ == normalized_stash_ref(s@),
            entries_view(out@) == matching_stashes_spec(lv.take(i as int), opt_matcher(matcher), opt_str_view(stash)),
        decreases ls.len() - i,
    {
        assert(lv.take(i + 1).drop_last() =~= lv.take(i as int));
        assert(lv.take(i + 1).last() == ls@[i as int]@);
        match parse_stash_entry(ls[i].as_str()) {
            Some(entry) => {
                let is_wanted = match &wanted {
                    Some(w) => str_eq(entry.reference.as_str(), w.as_str()),
                    None => true,
                };
                let is_match = match matcher {
                    Some(q) => stash_matches(&entry, q),
                    None => true,
                };
                if is_wanted && is_match {
                    let ghost before = out@;
                    out.push(entry);
                    assert(entries_view(out@) =~= entries_view(before).push((entry.reference@, entry.subject@)));
                }
            },
            None => {},
        }
        i += 1;
    }
    assert(lv.take(ls.len() as int) =~= lv);
    out
}

/* Reporting stash matches */

/// The line of a stash entry: the reference, then a colon, then the subject; with a query, the
/// parts it matches are highlighted.
pub open spec fn stash_entry_line_spec(reference: Seq<char>, subject: Seq<char>, matcher: Option<QueryMatcher>, style: OutputStyle) -> Seq<char> {
    let r = match matcher {
        Some(q) => style.highlight_spec(reference, q.spec_match_ranges(reference), HighlightStyle::StashRef),
        None => style.stash_ref_spec(reference),
    };
    let s = match matcher {
        Some(q) => style.highlight_spec(subject, q.spec_match_ranges(subject), HighlightStyle::Plain),
        None => subject,
    };
    "  "@ + r + ": "@ + s
}

/// The line that reports a stash entry.
pub fn stash_entry_line(entry: &StashEntry, matcher: Option<&QueryMatcher>, style: &OutputStyle) -> (r: String)
    ensures
        r@ == stash_entry_line_spec(entry.reference@, entry.subject@, opt_matcher(matcher), *style),
{
    let reference = match matcher {
        Some(q) => {
            let ranges = q.match_ranges(entry.reference.as_str());
            proof { lemma_coverage_on_boundaries(encode_utf8(entry.reference@), ranges@); }
            style.highlight_stash_ref(entry.reference.as_str(), ranges.as_slice())
        },
        None => style.stash_ref(entry.reference.as_str()),
    };
    let subject = match matcher {
        Some(q) => {
            let ranges = q.match_ranges(entry.subject.as_str());
            proof { lemma_coverage_on_boundaries(encode_utf8(entry.subject@), ranges@); }
            style.highlight_plain(entry.subject.as_str(), ranges.as_slice())
        },
        None => string_of(entry.subject.as_str()),
    };
    let mut line = string_of("  ");
    push_str(&mut line, reference.as_str());
    push_str(&mut line, ": ");
    push_str(&mut line, subject.as_str());
    line
}

/// The lines of `git stash show` output, each indented by four spaces.
pub fn indented_show_lines(output: &str) -> (r: Vec<String>)
    ensures
        r@.len() == lines_spec(output@).len(),
        forall|i: int| 0 <= i < r@.len() ==> (#[trigger] r@[i])@ == "    "@ + lines_spec(output@)[i],
{
    let ls = lines(output);
    let ghost lv = lines_spec(output@);
    let mut out: Vec<String> = Vec::new();
    let mut i: usize = 0;
    while i < ls.len()
        invariant
            i <= ls@.len(),
            ls@.map_values(|l: String| l@) == lv,
            out@.len() == i,
            forall|k: int| 0 <= k < i ==> (#[trigger] out@[k])@ == "    "@ + lv[k],
        decreases ls.len() - i,
    {
        let mut line = string_of("    ");
        push_str(&mut line, ls[i].as_str());
        assert(lv[i as int] == ls@[i as int]@);
        out.push(line);
        i += 1;
    }
    out
}

} // verus!

verus! {

/* Laws */

/// A stash query matches an entry by its reference or by its subject: either one matching is
/// enough, and neither matching leaves the entry out.
pub proof fn law_stash_query_matches_reference_or_subject(reference: Seq<char>, subject: Seq<char>, m: QueryMatcher)
    ensures
        m.spec_is_match(reference) ==> stash_matches_spec(reference, subject, m),
        m.spec_is_match(subject) ==> stash_matches_spec(reference, subject, m),
        !m.spec_is_match(reference) && !m.spec_is_match(subject) ==> !stash_matches_spec(reference, subject, m),
{
}

/// A stash list line is its reference, a tab and its subject: it splits back into them (the
/// subject may hold tabs); a line without a tab is no entry.
pub proof fn law_stash_line_splits_into_reference_and_subject(reference: Seq<char>, subject: Seq<char>, line: Seq<char>)
    ensures
        !reference.contains('\t') ==> stash_entry_spec(reference + seq!['\t'] + subject) == Some((reference, subject)),
        !line.contains('\t') ==> stash_entry_spec(line) is None,
{
    if !reference.contains('\t') {
        crate::text::lemma_split_at_first(reference, '\t', subject);
    }
    if !line.contains('\t') {
        crate::text::lemma_split_without(line, '\t');
    }
}

/// A stash index (ASCII digits only) stands for `stash@{index}`; text with any other char is
/// taken as a reference as it is.
pub proof fn law_stash_index_names_a_stash_ref(stash: Seq<char>)
    ensures
        (forall|i: int| 0 <= i < stash.len() ==> '0' <= #[trigger] stash[i] <= '9')
            ==> normalized_stash_ref(stash) == "stash@{"@ + stash + "}"@,
        (exists|i: int| 0 <= i < stash.len() && !('0' <= #[trigger] stash[i] <= '9'))
            ==> normalized_stash_ref(stash) == stash,
{
    if exists|i: int| 0 <= i < stash.len() && !('0' <= #[trigger] stash[i] <= '9') {
        let i = choose|i: int| 0 <= i < stash.len() && !('0' <= #[trigger] stash[i] <= '9');
        assert(!crate::text::is_digit(stash[i]));
    }
}

/// Without colors, a stash entry is reported as `  <reference>: <subject>`, with or without a
/// query.
pub proof fn law_plain_stash_line(reference: Seq<char>, subject: Seq<char>, matcher: Option<QueryMatcher>)
    ensures
        stash_entry_line_spec(reference, subject, matcher, OutputStyle { enabled: false }) == "  "@ + reference + ": "@ + subject,
{
    if let Some(q) = matcher {
        crate::style::law_disabled_style_is_plain(reference, q.spec_match_ranges(reference), HighlightStyle::StashRef);
        crate::style::law_disabled_style_is_plain(subject, q.spec_match_ranges(subject), HighlightStyle::Plain);
    } else {
        crate::style::law_disabled_style_is_plain(reference, seq![], HighlightStyle::Plain);
    }
}

/// Whether a stash list line is an entry that is kept.
pub open spec fn kept_line(l: Seq<char>, matcher: Option<QueryMatcher>, stash: Option<Seq<char>>) -> bool {
    stash_entry_spec(l) matches Some(e) && stash_selected(e, matcher, stash)
}

/// The stashes reported are the entries of the stash list lines that parse and are selected
/// (the requested stash, if any, matching the query, if any), in the order of the list.
pub proof fn law_stashes_are_the_selected_entries(lines: Seq<Seq<char>>, matcher: Option<QueryMatcher>, stash: Option<Seq<char>>)
    ensures
        matching_stashes_spec(lines, matcher, stash)
            == lines.filter(|l: Seq<char>| kept_line(l, matcher, stash)).map_values(|l: Seq<char>| stash_entry_spec(l)->0),
    decreases lines.len(),
{
    reveal(Seq::filter);
    if lines.len() > 0 {
        law_stashes_are_the_selected_entries(lines.drop_last(), matcher, stash);
        let f = lines.drop_last().filter(|l: Seq<char>| kept_line(l, matcher, stash));
        assert(f.push(lines.last()).map_values(|l: Seq<char>| stash_entry_spec(l)->0)
            =~= f.map_values(|l: Seq<char>| stash_entry_spec(l)->0).push(stash_entry_spec(lines.last())->0));
    }
}

} // verus!

