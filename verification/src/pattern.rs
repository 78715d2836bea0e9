//! Regular expression matching through the `regex` crate.
use vstd::prelude::*;
use vstd::utf8::*;
use vstd::string::*;

verus! {

/// The `Display` text of the error `regex::Regex::new` reports for `pattern`, or `None` when the
/// pattern compiles.
pub uninterp spec fn regex_new_error(pattern: Seq<char>) -> Option<Seq<char>>;

/// Whether `regex::Regex::is_match` finds a match of `pattern` in `haystack`.
pub uninterp spec fn regex_is_match(pattern: Seq<char>, haystack: Seq<char>) -> bool;

/// The byte spans of the matches `regex::Regex::find_iter` yields for `pattern` in `haystack`.
pub uninterp spec fn regex_find_all(pattern: Seq<char>, haystack: Seq<char>) -> Seq<(usize, usize)>;

/// The `Display` text of the error `regex::RegexSet::new` reports for `patterns`, or `None` when
/// the set compiles.
pub uninterp spec fn regex_set_new_error(patterns: Seq<Seq<char>>) -> Option<Seq<char>>;

/// The text `format!("{:?}", s)` writes for a string: `s` quoted, with `str::escape_debug` applied.
pub uninterp spec fn debug_quoted(s: Seq<char>) -> Seq<char>;

/// Whether the spans are ordered byte ranges of `bytes` that start and end on char boundaries.
pub open spec fn spans_on_boundaries(bytes: Seq<u8>, spans: Seq<(usize, usize)>) -> bool {
    forall|i: int|
        0 <= i < spans.len() ==> {
            &&& (#[trigger] spans[i]).0 <= spans[i].1 <= bytes.len()
            &&& is_char_boundary(bytes, spans[i].0 as int)
            &&& is_char_boundary(bytes, spans[i].1 as int)
        }
}

/// Whether the spans come in order without overlapping: no span starts before an earlier one
/// ends.
pub open spec fn spans_in_order(spans: Seq<(usize, usize)>) -> bool {
    forall|i: int, j: int| 0 <= i < j < spans.len() ==> (#[trigger] spans[i]).1 <= (#[trigger] spans[j]).0
}

/// Whether one of `patterns` matches `haystack`.
pub open spec fn some_regex_matches(patterns: Seq<Seq<char>>, haystack: Seq<char>) -> bool {
    exists|i: int| 0 <= i < patterns.len() && #[trigger] regex_is_match(patterns[i], haystack)
}

/// `regex::Regex::new`: `Ok` exactly when `regex_new_error` is `None`, else the error's text.
#[verifier::external_body]
pub(crate) fn regex_check(pattern: &str) -> (r: Result<(), String>)
    ensures
        match r {
            Ok(()) => regex_new_error(pattern@) is None,
            Err(e) => regex_new_error(pattern@) == Some(e@),
        },
{
    match regex::Regex::new(pattern) {
        Ok(_) => Ok(()),
        Err(err) => Err(err.to_string()),
    }
}

/// `regex::Regex::is_match` on a pattern that compiles.
#[verifier::external_body]
pub(crate) fn regex_matches(pattern: &str, haystack: &str) -> (r: bool)
    requires
        regex_new_error(pattern@) is None,
    ensures
        r == regex_is_match(pattern@, haystack@),
{
    match regex::Regex::new(pattern) {
        Ok(re) => re.is_match(haystack),
        Err(_) => false,
    }
}

/// `regex::Regex::find_iter` on a pattern that compiles, each match as its byte span. The crate
/// documents that successive matches do not overlap, that a match's start is at most its end,
/// that both fall on UTF-8 boundaries of the haystack, and that `is_match` is true exactly when
/// there is a match, so matches are found exactly when `is_match` holds.
#[verifier::external_body]
pub(crate) fn regex_spans(pattern: &str, haystack: &str) -> (r: Vec<(usize, usize)>)
    requires
        regex_new_error(pattern@) is None,
    ensures
        r@ == regex_find_all(pattern@, haystack@),
        spans_on_boundaries(haystack.spec_bytes(), r@),
        spans_in_order(r@),
        r@.len() > 0 <==> regex_is_match(pattern@, haystack@),
{
    match regex::Regex::new(pattern) {
        Ok(re) => re.find_iter(haystack).map(|m| (m.start(), m.end())).collect(),
        Err(_) => Vec::new(),
    }
}

/// `regex::RegexSet::new`: `Ok` exactly when `regex_set_new_error` is `None`, else the error's text.
#[verifier::external_body]
pub(crate) fn regex_set_check(patterns: &Vec<String>) -> (r: Result<(), String>)
    ensures
        match r {
            Ok(()) => regex_set_new_error(patterns.deep_view()) is None,
            Err(e) => regex_set_new_error(patterns.deep_view()) == Some(e@),
        },
{
    match regex::RegexSet::new(patterns) {
        Ok(_) => Ok(()),
        Err(err) => Err(err.to_string()),
    }
}

/// `regex::RegexSet::is_match` on a set that compiles: the crate documents that it is true exactly
/// when one of the regexes of the set matches the haystack.
#[verifier::external_body]
pub(crate) fn regex_set_matches(patterns: &Vec<String>, haystack: &str) -> (r: bool)
    requires
        regex_set_new_error(patterns.deep_view()) is None,
    ensures
        r == some_regex_matches(patterns.deep_view(), haystack@),
{
    match regex::RegexSet::new(patterns) {
        Ok(set) => set.is_match(haystack),
        Err(_) => false,
    }
}

/// `format!("{:?}", s)` for a string slice.
#[verifier::external_body]
pub(crate) fn debug_quote(s: &str) -> (r: String)
    ensures
        r@ == debug_quoted(s@),
{
    format!("{:?}", s)
}

} // verus!
