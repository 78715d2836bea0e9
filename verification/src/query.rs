//! Query matching: which strings a query matches, and where.
use vstd::prelude::*;
use vstd::utf8::*;
use vstd::string::*;

use crate::error::Error;
use crate::style::{HighlightStyle, OutputStyle, lemma_coverage_on_boundaries};
use crate::pattern::{spans_in_order, debug_quote, debug_quoted, regex_check, regex_find_all, regex_is_match, regex_matches, regex_new_error, regex_spans, spans_on_boundaries};
use crate::text::{byte_len, contains_bytes, contains_bytes_exec, find_char, lemma_boundary_shift, lemma_encode_concat, lemma_encode_push, lemma_find_char_from, push_str, str_eq, split_once, split_once_spec, string_of, byte_offset, char_to_lowercase, char_width, chars_of, lemma_byte_offset_boundary, lemma_byte_offset_next, lowercase_char, find_bytes, occurs_at, first_occurrence, lemma_first_occurrence, lowercase_str, to_lowercase};

verus! {

broadcast use vstd::utf8::group_utf8_lib;

/// How a query is matched against a value.
#[derive(Clone, Copy, Debug, PartialEq, Eq, Structural)]
pub enum QueryMode {
    /// Case-insensitive substring matching.
    Contains,
    /// Same as `Contains`.
    Matches,
    /// Case-insensitive whole-string matching: the lowercased texts are equal.
    Exact,
    /// The query's chars, lowercased, appear in order in the value.
    Fuzzy,
    /// Regular expression matching.
    Regex,
}

impl QueryMode {
    /// The name of the mode, as configuration and the command line spell it.
    pub open spec fn name(self) -> Seq<char> {
        match self {
            QueryMode::Contains => "contains"@,
            QueryMode::Matches => "matches"@,
            QueryMode::Exact => "exact"@,
            QueryMode::Fuzzy => "fuzzy"@,
            QueryMode::Regex => "regex"@,
        }
    }

    /// The name of the mode.
    pub fn as_str(self) -> (r: &'static str)
        ensures
            r@ == self.name(),
    {
        match self {
            QueryMode::Contains => "contains",
            QueryMode::Matches => "matches",
            QueryMode::Exact => "exact",
            QueryMode::Fuzzy => "fuzzy",
            QueryMode::Regex => "regex",
        }
    }

    /// `Matches` is another name for `Contains`.
    pub open spec fn spec_normalized(self) -> QueryMode {
        match self {
            QueryMode::Matches => QueryMode::Contains,
            other => other,
        }
    }

    /// The mode with `Matches` replaced by `Contains`.
    pub fn normalized(self) -> (r: QueryMode)
        ensures
            r == self.spec_normalized(),
    {
        match self {
            QueryMode::Matches => QueryMode::Contains,
            other => other,
        }
    }
}

/* Substring ranges */

/// The successive non-overlapping occurrences of `needle` in `hay`, searching from `from` and
/// continuing after the end of each occurrence until the end of `hay` is reached.
pub open spec fn occurrence_spans(hay: Seq<u8>, needle: Seq<u8>, from: int) -> Seq<(int, int)>
    decreases hay.len() + 1 - from,
{
    match first_occurrence(hay, needle, from) {
        Some(s) => {
            let e = s + needle.len();
            if e >= hay.len() || e <= from {
                seq![(s, e)]
            } else {
                seq![(s, e)] + occurrence_spans(hay, needle, e)
            }
        },
        None => seq![],
    }
}

/// The spans whose both ends are char boundaries of `bytes`.
pub open spec fn boundary_spans(bytes: Seq<u8>, spans: Seq<(int, int)>) -> Seq<(usize, usize)>
    decreases spans.len(),
{
    if spans.len() == 0 {
        seq![]
    } else {
        let rest = boundary_spans(bytes, spans.drop_last());
        let last = spans.last();
        if is_char_boundary(bytes, last.0) && is_char_boundary(bytes, last.1) {
            rest.push((last.0 as usize, last.1 as usize))
        } else {
            rest
        }
    }
}

/// Byte ranges of `value` where the lowercased `query` occurs in the lowercased `value`. The
/// occurrences are found in the lowercased value and kept only where their byte positions are
/// char boundaries of `value` itself. An empty query covers all of `value`.
pub open spec fn substring_ranges_spec(value: Seq<char>, query: Seq<char>) -> Seq<(usize, usize)> {
    if query.len() == 0 {
        seq![(0usize, encode_utf8(value).len() as usize)]
    } else {
        boundary_spans(
            encode_utf8(value),
            occurrence_spans(encode_utf8(lowercase_str(value)), encode_utf8(lowercase_str(query)), 0),
        )
    }
}

/// A char boundary lies within the sequence.
proof fn lemma_boundary_in_range(b: Seq<u8>, x: int)
    requires
        valid_utf8(b),
        is_char_boundary(b, x),
    ensures
        0 <= x <= b.len(),
{
}

/// The byte ranges of `value` where `query` occurs, ignoring case.
pub fn case_insensitive_substring_ranges(value: &str, query: &str) -> (r: Vec<(usize, usize)>)
    ensures
        r@ == substring_ranges_spec(value@, query@),
        spans_on_boundaries(value.spec_bytes(), r@),
        spans_in_order(r@),
        query@.len() > 0 && r@.len() > 0 ==> contains_bytes(
            encode_utf8(lowercase_str(value@)),
            encode_utf8(lowercase_str(query@)),
        ),
{
    proof { is_char_boundary_start_end_of_seq(value.spec_bytes()); }
    if query.is_empty() {
        let mut r = Vec::new();
        r.push((0, byte_len(value)));
        assert(spans_on_boundaries(value.spec_bytes(), r@));
        return r;
    }
    let value_lower = to_lowercase(value);
    let query_lower = to_lowercase(query);
    let hay = value_lower.as_str().as_bytes();
    let needle = query_lower.as_str().as_bytes();
    let ghost vbytes = value.spec_bytes();
    let mut ranges: Vec<(usize, usize)> = Vec::new();
    let mut search_start: usize = 0;
    let ghost mut done: Seq<(int, int)> = seq![];
    loop
        invariant_except_break
            occurrence_spans(hay@, needle@, 0) == done + occurrence_spans(hay@, needle@, search_start as int),
            ranges@ == boundary_spans(vbytes, done),
            forall|k: int| 0 <= k < ranges@.len() ==> (#[trigger] ranges@[k]).1 <= search_start,
        invariant
            search_start <= hay@.len(),
            hay@.len() == hay.len(),
            vbytes == value.spec_bytes(),
            spans_on_boundaries(vbytes, ranges@),
            spans_in_order(ranges@),
            ranges@.len() > 0 ==> contains_bytes(hay@, needle@),
            hay@ == encode_utf8(lowercase_str(value@)),
            needle@ == encode_utf8(lowercase_str(query@)),
        ensures
            ranges@ == boundary_spans(vbytes, occurrence_spans(hay@, needle@, 0)),
        decreases hay@.len() - search_start,
    {
        proof { lemma_first_occurrence(hay@, needle@, search_start as int); }
        match find_bytes(hay, needle, search_start) {
            None => {
                assert(done + occurrence_spans(hay@, needle@, search_start as int) =~= done);
                break;
            },
            Some(start) => {
                assert(occurs_at(hay@, needle@, start as int));
                let end = start + needle.len();
                let ghost prev = done;
                proof {
                    done = done.push((start as int, end as int));
                    assert(done.drop_last() =~= prev);
                }
                if value.is_char_boundary(start) && value.is_char_boundary(end) {
                    proof {
                        lemma_boundary_in_range(vbytes, start as int);
                        lemma_boundary_in_range(vbytes, end as int);
                    }
                    assert(contains_bytes(hay@, needle@));
                    ranges.push((start, end));
                }
                assert(ranges@ == boundary_spans(vbytes, done));
                if end >= hay.len() || end <= search_start {
                    assert(prev + occurrence_spans(hay@, needle@, search_start as int) =~= done);
                    break;
                }
                assert(prev + occurrence_spans(hay@, needle@, search_start as int)
                    =~= done + occurrence_spans(hay@, needle@, end as int));
                search_start = end;
            },
        }
    }
    ranges
}

} // verus!

verus! {

/* Fuzzy matching */

/// The query's chars, each replaced by its lowercase mapping.
pub open spec fn lowercase_all(q: Seq<char>) -> Seq<char>
    decreases q.len(),
{
    if q.len() == 0 {
        seq![]
    } else {
        lowercase_all(q.drop_last()) + lowercase_char(q.last())
    }
}

/// The char positions of `v` from `i` on that greedily match `qs[k..]`: each expected char is
/// matched by the first later char of `v` whose lowercase mapping contains it.
pub open spec fn fuzzy_positions(qs: Seq<char>, v: Seq<char>, i: int, k: int) -> Option<Seq<int>>
    decreases v.len() - i,
{
    if k >= qs.len() {
        Some(seq![])
    } else if i < 0 || i >= v.len() {
        None
    } else if lowercase_char(v[i]).contains(qs[k]) {
        match fuzzy_positions(qs, v, i + 1, k + 1) {
            Some(r) => Some(seq![i] + r),
            None => None,
        }
    } else {
        fuzzy_positions(qs, v, i + 1, k)
    }
}

/// The byte range of the char at index `i` of `v`.
pub open spec fn char_span(v: Seq<char>, i: int) -> (usize, usize) {
    (byte_offset(v, i) as usize, byte_offset(v, i + 1) as usize)
}

/// The byte ranges of the chars of `value` that the fuzzy query matches; all of `value` when the
/// lowercased query is empty; none when the query's chars do not all appear in order.
pub open spec fn fuzzy_ranges_spec(query: Seq<char>, value: Seq<char>) -> Seq<(usize, usize)> {
    let qs = lowercase_all(query);
    if qs.len() == 0 {
        seq![(0usize, encode_utf8(value).len() as usize)]
    } else {
        match fuzzy_positions(qs, value, 0, 0) {
            Some(p) => p.map_values(|i: int| char_span(value, i)),
            None => seq![],
        }
    }
}

/// `prefix` followed by the positions, if there are any.
pub open spec fn prepend_positions(prefix: Seq<int>, o: Option<Seq<int>>) -> Option<Seq<int>> {
    match o {
        Some(r) => Some(prefix + r),
        None => None,
    }
}

/// The chars of `query`, each replaced by its lowercase mapping.
fn lowercase_query_chars(query: &str) -> (r: Vec<char>)
    ensures
        r@ == lowercase_all(query@),
{
    let q = chars_of(query);
    let mut out: Vec<char> = Vec::new();
    let mut j: usize = 0;
    while j < q.len()
        invariant
            j <= q.len(),
            q@ == query@,
            out@ == lowercase_all(q@.take(j as int)),
        decreases q.len() - j,
    {
        let lowered = char_to_lowercase(q[j]);
        let mut t: usize = 0;
        let ghost base = out@;
        while t < lowered.len()
            invariant
                t <= lowered.len(),
                out@ == base + lowered@.take(t as int),
            decreases lowered.len() - t,
        {
            out.push(lowered[t]);
            assert(lowered@.take(t + 1) =~= lowered@.take(t as int).push(lowered@[t as int]));
            t += 1;
        }
        assert(lowered@.take(t as int) =~= lowered@);
        assert(q@.take(j + 1).drop_last() =~= q@.take(j as int));
        j += 1;
    }
    assert(q@.take(q.len() as int) =~= q@);
    out
}

/// Whether `v` holds `c`.
fn contains_char(v: &Vec<char>, c: char) -> (r: bool)
    ensures
        r == v@.contains(c),
{
    let mut i: usize = 0;
    while i < v.len()
        invariant
            i <= v.len(),
            forall|k: int| 0 <= k < i ==> v@[k] != c,
        decreases v.len() - i,
    {
        if v[i] == c {
            return true;
        }
        i += 1;
    }
    false
}

/// Byte ranges of the chars of `value` that match the query's chars in order.
pub fn fuzzy_match_ranges(query: &str, value: &str) -> (r: Vec<(usize, usize)>)
    ensures
        r@ == fuzzy_ranges_spec(query@, value@),
        spans_on_boundaries(value.spec_bytes(), r@),
        spans_in_order(r@),
        r@.len() > 0 <==> occurs_in_order(lowercase_all(query@), value@),
{
    let n = byte_len(value);
    proof { law_fuzzy_ranges_in_order(query@, value@); }
    proof { law_fuzzy_is_ordered_char_matching(query@, value@); }
    proof { is_char_boundary_start_end_of_seq(value.spec_bytes()); }
    let qs = lowercase_query_chars(query);
    if qs.len() == 0 {
        let mut r = Vec::new();
        r.push((0, n));
        return r;
    }
    let v = chars_of(value);
    let mut ranges: Vec<(usize, usize)> = Vec::new();
    let mut k: usize = 0;
    let mut off: usize = 0;
    let mut i: usize = 0;
    let ghost mut pos: Seq<int> = seq![];
    assert(v@.take(0) =~= Seq::<char>::empty());
    while i < v.len()
        invariant
            i <= v.len(),
            v@ == value@,
            n == encode_utf8(value@).len(),
            qs@ == lowercase_all(query@),
            k < qs.len(),
            k == pos.len(),
            fuzzy_positions(qs@, v@, 0, 0) == prepend_positions(pos, fuzzy_positions(qs@, v@, i as int, k as int)),
            ranges@ == pos.map_values(|p: int| char_span(v@, p)),
            off == byte_offset(v@, i as int),
            spans_on_boundaries(value.spec_bytes(), ranges@),
            spans_in_order(fuzzy_ranges_spec(query@, value@)),
        decreases v.len() - i,
    {
        let c = v[i];
        let w = char_width(c);
        proof {
            lemma_byte_offset_next(v@, i as int);
            lemma_byte_offset_boundary(v@, i as int);
            lemma_byte_offset_boundary(v@, i + 1);
        }
        let lowered = char_to_lowercase(c);
        if contains_char(&lowered, qs[k]) {
            let ghost old_pos = pos;
            ranges.push((off, off + w));
            proof {
                pos = pos.push(i as int);
                assert(pos.map_values(|p: int| char_span(v@, p))
                    =~= old_pos.map_values(|p: int| char_span(v@, p)).push(char_span(v@, i as int)));
                assert(old_pos + (seq![i as int] + fuzzy_positions(qs@, v@, i + 1, k + 1)->0)
                    =~= pos + fuzzy_positions(qs@, v@, i + 1, k + 1)->0);
            }
            if k + 1 == qs.len() {
                assert(pos + Seq::<int>::empty() =~= pos);
                proof { law_fuzzy_is_ordered_char_matching(query@, value@); }
                return ranges;
            }
            k += 1;
        }
        off += w;
        i += 1;
    }
    Vec::new()
}

/// Whether the fuzzy query matches: its chars appear in order, or it is empty.
pub open spec fn fuzzy_match_spec(query: Seq<char>, value: Seq<char>) -> bool {
    fuzzy_ranges_spec(query, value).len() > 0 || query.len() == 0
}

/// Whether the query's chars appear in `value` in order, ignoring case.
pub fn fuzzy_match(query: &str, value: &str) -> (r: bool)
    ensures
        r == fuzzy_match_spec(query@, value@),
        r == occurs_in_order(lowercase_all(query@), value@),
{
    proof { law_fuzzy_is_ordered_char_matching(query@, value@); }
    let ranges = fuzzy_match_ranges(query, value);
    ranges.len() > 0 || query.is_empty()
}

} // verus!

verus! {

/* Matchers */

/// The spans that are not empty, in order.
pub open spec fn nonempty_spans(spans: Seq<(usize, usize)>) -> Seq<(usize, usize)>
    decreases spans.len(),
{
    if spans.len() == 0 {
        seq![]
    } else {
        let rest = nonempty_spans(spans.drop_last());
        if spans.last().0 < spans.last().1 {
            rest.push(spans.last())
        } else {
            rest
        }
    }
}

/// The spans moved `d` bytes to the right.
pub open spec fn shift_spans(spans: Seq<(usize, usize)>, d: int) -> Seq<(usize, usize)> {
    spans.map_values(|x: (usize, usize)| ((x.0 + d) as usize, (x.1 + d) as usize))
}

/// The message for a regex query that does not compile.
pub open spec fn invalid_regex_message(query: Seq<char>) -> Seq<char> {
    "invalid regex query "@ + debug_quoted(query) + ": "@ + regex_new_error(query)->0
}

/// A query with the way it is matched.
#[derive(Debug)]
pub struct QueryMatcher {
    query: String,
    mode: QueryMode,
}

impl QueryMatcher {
    #[verifier::type_invariant]
    spec fn well_formed(self) -> bool {
        &&& self.mode != QueryMode::Matches
        &&& self.mode == QueryMode::Regex ==> regex_new_error(self.query@) is None
    }

    /// The query text.
    pub closed spec fn query(self) -> Seq<char> {
        self.query@
    }

    /// The matching mode; never `Matches`.
    pub closed spec fn mode(self) -> QueryMode {
        self.mode
    }

    /// Whether the query matches `v`.
    pub open spec fn spec_is_match(self, v: Seq<char>) -> bool {
        let q = self.query();
        match self.mode() {
            QueryMode::Contains | QueryMode::Matches => contains_bytes(
                encode_utf8(lowercase_str(v)),
                encode_utf8(lowercase_str(q)),
            ),
            QueryMode::Exact => lowercase_str(v) == lowercase_str(q),
            QueryMode::Fuzzy => fuzzy_match_spec(q, v),
            QueryMode::Regex => regex_is_match(q, v),
        }
    }

    /// The byte ranges of `v` that the query matches.
    pub open spec fn spec_match_ranges(self, v: Seq<char>) -> Seq<(usize, usize)> {
        let q = self.query();
        match self.mode() {
            QueryMode::Contains | QueryMode::Matches => substring_ranges_spec(v, q),
            QueryMode::Exact => if lowercase_str(v) == lowercase_str(q) {
                seq![(0usize, encode_utf8(v).len() as usize)]
            } else {
                seq![]
            },
            QueryMode::Fuzzy => fuzzy_ranges_spec(q, v),
            QueryMode::Regex => nonempty_spans(regex_find_all(q, v)),
        }
    }

    /// The ranges of a branch name that the query matches: those of the whole name, or when there
    /// are none, those of the part after the first `/`, placed within the whole name.
    pub open spec fn spec_branch_match_ranges(self, v: Seq<char>) -> Seq<(usize, usize)> {
        let r = self.spec_match_ranges(v);
        if r.len() > 0 {
            r
        } else {
            match split_once_spec(v, '/') {
                Some((prefix, branch)) => shift_spans(
                    self.spec_match_ranges(branch),
                    encode_utf8(prefix).len() as int + 1,
                ),
                None => r,
            }
        }
    }

    /// A matcher for `query` in `mode`; a regex query that does not compile is an error.
    pub fn new(query: &str, mode: QueryMode) -> (r: Result<QueryMatcher, Error>)
        ensures
            r is Ok <==> !(mode.spec_normalized() == QueryMode::Regex && regex_new_error(query@) is Some),
            match r {
                Ok(m) => m.query() == query@ && m.mode() == mode.spec_normalized(),
                Err(e) => e.message() == invalid_regex_message(query@),
            },
    {
        let mode = mode.normalized();
        if mode == QueryMode::Regex {
            match regex_check(query) {
                Ok(()) => {},
                Err(err) => {
                    let mut message = string_of("invalid regex query ");
                    let quoted = debug_quote(query);
                    push_str(&mut message, quoted.as_str());
                    push_str(&mut message, ": ");
                    push_str(&mut message, err.as_str());
                    return Err(Error::Message(message));
                },
            }
        }
        Ok(QueryMatcher { query: string_of(query), mode })
    }

    /// Whether the query matches `value`.
    pub fn is_match(&self, value: &str) -> (r: bool)
        ensures
            r == self.spec_is_match(value@),
    {
        proof { use_type_invariant(self); }
        match self.mode {
            QueryMode::Contains | QueryMode::Matches => {
                let value_lower = to_lowercase(value);
                let query_lower = to_lowercase(self.query.as_str());
                contains_bytes_exec(value_lower.as_str().as_bytes(), query_lower.as_str().as_bytes())
            },
            QueryMode::Exact => {
                let value_lower = to_lowercase(value);
                let query_lower = to_lowercase(self.query.as_str());
                str_eq(value_lower.as_str(), query_lower.as_str())
            },
            QueryMode::Fuzzy => fuzzy_match(self.query.as_str(), value),
            QueryMode::Regex => regex_matches(self.query.as_str(), value),
        }
    }

    /// The byte ranges of `value` that the query matches.
    pub fn match_ranges(&self, value: &str) -> (r: Vec<(usize, usize)>)
        ensures
            r@ == self.spec_match_ranges(value@),
            spans_on_boundaries(value.spec_bytes(), r@),
            spans_in_order(r@),
            r@.len() > 0 ==> self.spec_is_match(value@),
    {
        proof { use_type_invariant(self); is_char_boundary_start_end_of_seq(value.spec_bytes()); }
        match self.mode {
            QueryMode::Contains | QueryMode::Matches => {
                let r = case_insensitive_substring_ranges(value, self.query.as_str());
                if self.query.as_str().is_empty() {
                    // Lowercasing the empty query gives the empty text, which every text contains.
                    let _lowered = to_lowercase(self.query.as_str());
                    let ghost hay = encode_utf8(lowercase_str(value@));
                    assert(hay.subrange(0, 0) =~= encode_utf8(lowercase_str(self.query@)));
                    assert(occurs_at(hay, encode_utf8(lowercase_str(self.query@)), 0));
                }
                r
            },
            QueryMode::Exact => {
                let mut r = Vec::new();
                let value_lower = to_lowercase(value);
                let query_lower = to_lowercase(self.query.as_str());
                if str_eq(value_lower.as_str(), query_lower.as_str()) {
                    r.push((0, byte_len(value)));
                }
                r
            },
            QueryMode::Fuzzy => fuzzy_match_ranges(self.query.as_str(), value),
            QueryMode::Regex => {
                let spans = regex_spans(self.query.as_str(), value);
                let mut r: Vec<(usize, usize)> = Vec::new();
                let mut i: usize = 0;
                while i < spans.len()
                    invariant
                        i <= spans.len(),
                        r@ == nonempty_spans(spans@.take(i as int)),
                        spans_on_boundaries(value.spec_bytes(), spans@),
                        spans_on_boundaries(value.spec_bytes(), r@),
                        spans_in_order(spans@),
                        spans_in_order(r@),
                        forall|a: int, b: int| 0 <= a < r@.len() && i <= b < spans@.len() ==>
                            (#[trigger] r@[a]).1 <= (#[trigger] spans@[b]).0,
                        r@.len() > 0 ==> regex_is_match(self.query@, value@),
                        spans@.len() > 0 ==> regex_is_match(self.query@, value@),
                    decreases spans.len() - i,
                {
                    let (s, e) = spans[i];
                    assert(spans@.take(i + 1).drop_last() =~= spans@.take(i as int));
                    if s < e {
                        r.push((s, e));
                    }
                    i += 1;
                }
                assert(spans@.take(spans.len() as int) =~= spans@);
                r
            },
        }
    }

    /// The byte ranges of a branch name that the query matches, falling back to the part of the
    /// name after its first `/`.
    pub fn branch_match_ranges(&self, value: &str) -> (r: Vec<(usize, usize)>)
        ensures
            r@ == self.spec_branch_match_ranges(value@),
            spans_on_boundaries(value.spec_bytes(), r@),
    {
        let ranges = self.match_ranges(value);
        if ranges.len() > 0 {
            return ranges;
        }
        match split_once(value, '/') {
            None => ranges,
            Some((prefix, branch)) => {
                let ghost v = value@;
                let ghost i = find_char(v, '/')->0;
                proof {
                    lemma_find_char_from(v, '/', 0);
                    assert(v =~= prefix@.push('/') + branch@);
                    lemma_encode_push(prefix@, '/');
                    lemma_encode_concat(prefix@.push('/'), branch@);
                }
                let n = byte_len(value);
                let offset = byte_len(prefix.as_str()) + 1;
                let inner = self.match_ranges(branch.as_str());
                let mut r: Vec<(usize, usize)> = Vec::new();
                let mut k: usize = 0;
                while k < inner.len()
                    invariant
                        k <= inner.len(),
                        n == value.spec_bytes().len(),
                        value.spec_bytes() == encode_utf8(prefix@.push('/')) + encode_utf8(branch@),
                        offset == encode_utf8(prefix@.push('/')).len(),
                        spans_on_boundaries(encode_utf8(branch@), inner@),
                        r@ == shift_spans(inner@.take(k as int), offset as int),
                        spans_on_boundaries(value.spec_bytes(), r@),
                    decreases inner.len() - k,
                {
                    let (s, e) = inner[k];
                    proof {
                        lemma_boundary_shift(encode_utf8(prefix@.push('/')), encode_utf8(branch@), s as int);
                        lemma_boundary_shift(encode_utf8(prefix@.push('/')), encode_utf8(branch@), e as int);
                    }
                    r.push((s + offset, e + offset));
                    assert(shift_spans(inner@.take(k + 1), offset as int)
                        =~= shift_spans(inner@.take(k as int), offset as int).push(((s + offset) as usize, (e + offset) as usize)));
                    k += 1;
                }
                assert(inner@.take(inner.len() as int) =~= inner@);
                r
            },
        }
    }
}

} // verus!

verus! {

impl QueryMatcher {
    /// A branch name with the ranges that the query matches highlighted.
    pub fn highlight_branch_name(&self, value: &str, style: &OutputStyle) -> (r: String)
        ensures
            r@ == style.highlight_spec(value@, self.spec_branch_match_ranges(value@), HighlightStyle::Branch),
    {
        let ranges = self.branch_match_ranges(value);
        proof { lemma_coverage_on_boundaries(value.spec_bytes(), ranges@); }
        style.highlight(value, ranges.as_slice())
    }
}

} // verus!

verus! {

/* Laws */

/// `Matches` is an alias for `Contains`: matchers built from the same query in the two modes
/// match the same values at the same ranges.
pub proof fn law_matches_is_contains(a: QueryMatcher, b: QueryMatcher, v: Seq<char>)
    requires
        a.query() == b.query(),
        a.mode() == QueryMode::Matches.spec_normalized(),
        b.mode() == QueryMode::Contains.spec_normalized(),
    ensures
        a.spec_is_match(v) == b.spec_is_match(v),
        a.spec_match_ranges(v) == b.spec_match_ranges(v),
{
}

/// Exact matching is case-insensitive whole-string matching (the lowercased texts are equal), and
/// it matches exactly when it reports a range, which is then the whole value.
pub proof fn law_exact_matches_whole_value(m: QueryMatcher, v: Seq<char>)
    requires
        m.mode() == QueryMode::Exact,
    ensures
        m.spec_is_match(v) == (lowercase_str(v) == lowercase_str(m.query())),
        m.spec_is_match(v) <==> m.spec_match_ranges(v).len() > 0,
        m.spec_is_match(v) ==> m.spec_match_ranges(v) == seq![(0usize, encode_utf8(v).len() as usize)],
{
}

/// The greedy fuzzy positions lie within the value, in increasing order, one per expected char.
proof fn lemma_fuzzy_positions_increasing(qs: Seq<char>, v: Seq<char>, i: int, k: int)
    requires
        0 <= i,
        0 <= k <= qs.len(),
    ensures
        fuzzy_positions(qs, v, i, k) matches Some(p) ==> {
            &&& p.len() == qs.len() - k
            &&& forall|j: int| 0 <= j < p.len() ==> i <= #[trigger] p[j] < v.len()
            &&& forall|a: int, b: int| 0 <= a < b < p.len() ==> #[trigger] p[a] < #[trigger] p[b]
        },
    decreases v.len() - i,
{
    if k < qs.len() && i < v.len() {
        if lowercase_char(v[i]).contains(qs[k]) {
            lemma_fuzzy_positions_increasing(qs, v, i + 1, k + 1);
            if let Some(r) = fuzzy_positions(qs, v, i + 1, k + 1) {
                let p = seq![i] + r;
                assert forall|a: int, b: int| 0 <= a < b < p.len() implies #[trigger] p[a] < #[trigger] p[b] by {
                    if a > 0 {
                        assert(p[a] == r[a - 1]);
                    }
                    assert(p[b] == r[b - 1]);
                }
                assert forall|j: int| 0 <= j < p.len() implies i <= #[trigger] p[j] < v.len() by {
                    if j > 0 {
                        assert(p[j] == r[j - 1]);
                    }
                }
            }
        } else {
            lemma_fuzzy_positions_increasing(qs, v, i + 1, k);
        }
    }
}

/// Whether `p` picks, in increasing order, a char of `v` for each char of `qs` whose lowercase
/// mapping holds that char.
pub open spec fn in_order_positions(qs: Seq<char>, v: Seq<char>, p: Seq<int>) -> bool {
    &&& p.len() == qs.len()
    &&& forall|j: int| 0 <= j < p.len() ==> 0 <= #[trigger] p[j] < v.len() && lowercase_char(v[p[j]]).contains(qs[j])
    &&& forall|a: int, b: int| 0 <= a < b < p.len() ==> #[trigger] p[a] < #[trigger] p[b]
}

/// Whether the chars of `qs` occur in `v` in order, each as (part of) a char's lowercase mapping.
pub open spec fn occurs_in_order(qs: Seq<char>, v: Seq<char>) -> bool {
    exists|p: Seq<int>| in_order_positions(qs, v, p)
}

/// Wherever the rest of the query occurs in order from `i` on, the greedy scan from `i` finds
/// a position for each of its chars.
proof fn lemma_greedy_finds(qs: Seq<char>, v: Seq<char>, i: int, k: int, p: Seq<int>)
    requires
        0 <= i,
        0 <= k <= qs.len(),
        p.len() == qs.len() - k,
        forall|j: int| 0 <= j < p.len() ==> i <= #[trigger] p[j] < v.len() && lowercase_char(v[p[j]]).contains(qs[k + j]),
        forall|a: int, b: int| 0 <= a < b < p.len() ==> #[trigger] p[a] < #[trigger] p[b],
    ensures
        fuzzy_positions(qs, v, i, k) matches Some(r) && r.len() == qs.len() - k,
    decreases v.len() - i,
{
    if k < qs.len() {
        assert(i <= p[0] < v.len());
        if lowercase_char(v[i]).contains(qs[k]) {
            let t = p.drop_first();
            assert forall|j: int| 0 <= j < t.len() implies i + 1 <= #[trigger] t[j] < v.len()
                && lowercase_char(v[t[j]]).contains(qs[k + 1 + j]) by {
                assert(t[j] == p[j + 1]);
                assert(p[0] < p[j + 1]);
            }
            assert forall|a: int, b: int| 0 <= a < b < t.len() implies #[trigger] t[a] < #[trigger] t[b] by {
                assert(t[a] == p[a + 1]);
                assert(t[b] == p[b + 1]);
            }
            lemma_greedy_finds(qs, v, i + 1, k + 1, t);
        } else {
            assert(p[0] != i);
            assert forall|j: int| 0 <= j < p.len() implies i + 1 <= #[trigger] p[j] < v.len()
                && lowercase_char(v[p[j]]).contains(qs[k + j]) by {
                if j > 0 {
                    assert(p[0] < p[j]);
                }
            }
            lemma_greedy_finds(qs, v, i + 1, k, p);
        }
    }
}

/// Each position the greedy scan finds holds its query char.
proof fn lemma_greedy_positions_match(qs: Seq<char>, v: Seq<char>, i: int, k: int)
    requires
        0 <= i,
        0 <= k <= qs.len(),
    ensures
        fuzzy_positions(qs, v, i, k) matches Some(r) ==> forall|j: int|
            0 <= j < r.len() ==> lowercase_char(v[#[trigger] r[j]]).contains(qs[k + j]),
    decreases v.len() - i,
{
    if k < qs.len() && 0 <= i < v.len() {
        if lowercase_char(v[i]).contains(qs[k]) {
            lemma_greedy_positions_match(qs, v, i + 1, k + 1);
            if let Some(t) = fuzzy_positions(qs, v, i + 1, k + 1) {
                let r = seq![i] + t;
                assert forall|j: int| 0 <= j < r.len() implies lowercase_char(v[#[trigger] r[j]]).contains(qs[k + j]) by {
                    if j > 0 {
                        assert(r[j] == t[j - 1]);
                    }
                }
            }
        } else {
            lemma_greedy_positions_match(qs, v, i + 1, k);
        }
    }
}

/// Fuzzy matching is ordered char matching: a value matches exactly when the query's lowercased
/// chars occur in it in order, wherever they occur, and then a range is reported for each of
/// them (the whole value for an empty query).
pub proof fn law_fuzzy_is_ordered_char_matching(query: Seq<char>, value: Seq<char>)
    ensures
        fuzzy_match_spec(query, value) <==> occurs_in_order(lowercase_all(query), value),
        occurs_in_order(lowercase_all(query), value) ==> fuzzy_ranges_spec(query, value).len() > 0,
        occurs_in_order(lowercase_all(query), value) && lowercase_all(query).len() > 0
            ==> fuzzy_ranges_spec(query, value).len() == lowercase_all(query).len(),
{
    let qs = lowercase_all(query);
    if query.len() == 0 {
        assert(qs =~= Seq::<char>::empty());
    }
    if qs.len() == 0 {
        assert(in_order_positions(qs, value, Seq::<int>::empty()));
    } else {
        lemma_fuzzy_positions_increasing(qs, value, 0, 0);
        lemma_greedy_positions_match(qs, value, 0, 0);
        if let Some(r) = fuzzy_positions(qs, value, 0, 0) {
            assert forall|j: int| 0 <= j < r.len() implies 0 <= #[trigger] r[j] < value.len()
                && lowercase_char(value[r[j]]).contains(qs[j]) by {
                assert(qs[0 + j] == qs[j]);
            }
            assert(in_order_positions(qs, value, r));
        }
        if occurs_in_order(qs, value) {
            let p = choose|p: Seq<int>| in_order_positions(qs, value, p);
            assert forall|j: int| 0 <= j < p.len() implies 0 <= #[trigger] p[j] < value.len()
                && lowercase_char(value[p[j]]).contains(qs[0 + j]) by {
                assert(qs[0 + j] == qs[j]);
            }
            lemma_greedy_finds(qs, value, 0, 0, p);
        }
    }
}

/// A fuzzy matcher matches a value exactly when the query's lowercased chars occur in it in
/// order, and it then reports at least one range.
pub proof fn law_fuzzy_matcher_matches_ordered_chars(m: QueryMatcher, v: Seq<char>)
    requires
        m.mode() == QueryMode::Fuzzy,
    ensures
        m.spec_is_match(v) <==> occurs_in_order(lowercase_all(m.query()), v),
        occurs_in_order(lowercase_all(m.query()), v) ==> m.spec_match_ranges(v).len() > 0,
{
    law_fuzzy_is_ordered_char_matching(m.query(), v);
}

/// Each span the search finds is an occurrence of the needle, from `from` on.
proof fn lemma_occurrence_spans_sound(hay: Seq<u8>, needle: Seq<u8>, from: int)
    requires
        0 <= from,
    ensures
        forall|k: int| 0 <= k < occurrence_spans(hay, needle, from).len() ==> {
            let sp = #[trigger] occurrence_spans(hay, needle, from)[k];
            &&& from <= sp.0
            &&& occurs_at(hay, needle, sp.0)
            &&& sp.1 == sp.0 + needle.len()
        },
    decreases hay.len() + 1 - from,
{
    lemma_first_occurrence(hay, needle, from);
    if let Some(st) = first_occurrence(hay, needle, from) {
        let e = st + needle.len();
        if !(e >= hay.len() || e <= from) {
            lemma_occurrence_spans_sound(hay, needle, e);
            let rest = occurrence_spans(hay, needle, e);
            let all = occurrence_spans(hay, needle, from);
            assert forall|k: int| 0 <= k < all.len() implies {
                let sp = #[trigger] all[k];
                &&& from <= sp.0
                &&& occurs_at(hay, needle, sp.0)
                &&& sp.1 == sp.0 + needle.len()
            } by {
                if k > 0 {
                    assert(all[k] == rest[k - 1]);
                }
            }
        }
    }
}

/// Every occurrence of a non-empty needle from `from` on lies within a span the search finds:
/// the search skips only occurrences that overlap one it found.
proof fn lemma_occurrence_spans_complete(hay: Seq<u8>, needle: Seq<u8>, from: int, x: int)
    requires
        0 <= from <= x,
        needle.len() > 0,
        occurs_at(hay, needle, x),
    ensures
        exists|k: int| 0 <= k < occurrence_spans(hay, needle, from).len()
            && (#[trigger] occurrence_spans(hay, needle, from)[k]).0 <= x < occurrence_spans(hay, needle, from)[k].1,
    decreases hay.len() + 1 - from,
{
    lemma_first_occurrence(hay, needle, from);
    let all = occurrence_spans(hay, needle, from);
    let st = first_occurrence(hay, needle, from)->0;
    let e = st + needle.len();
    assert(st <= x);
    if x < e {
        assert(all[0].0 <= x < all[0].1);
    } else {
        assert(e < hay.len());
        lemma_occurrence_spans_complete(hay, needle, e, x);
        let rest = occurrence_spans(hay, needle, e);
        let k = choose|k: int| 0 <= k < rest.len() && (#[trigger] rest[k]).0 <= x < rest[k].1;
        assert(all[k + 1] == rest[k]);
    }
}

/// The spans kept are exactly those with both ends on char boundaries, in order.
proof fn lemma_boundary_spans(bytes: Seq<u8>, spans: Seq<(int, int)>)
    requires
        valid_utf8(bytes),
        bytes.len() <= usize::MAX,
    ensures
        forall|i: int| 0 <= i < boundary_spans(bytes, spans).len() ==> exists|j: int| 0 <= j < spans.len()
            && spans[j].0 == (#[trigger] boundary_spans(bytes, spans)[i]).0 && spans[j].1 == boundary_spans(bytes, spans)[i].1
            && is_char_boundary(bytes, spans[j].0) && is_char_boundary(bytes, spans[j].1),
        forall|j: int| 0 <= j < spans.len() && is_char_boundary(bytes, (#[trigger] spans[j]).0) && is_char_boundary(bytes, spans[j].1)
            ==> boundary_spans(bytes, spans).contains((spans[j].0 as usize, spans[j].1 as usize)),
    decreases spans.len(),
{
    if spans.len() > 0 {
        let init = spans.drop_last();
        lemma_boundary_spans(bytes, init);
        let rest = boundary_spans(bytes, init);
        let res = boundary_spans(bytes, spans);
        let last = spans.last();
        assert forall|i: int| 0 <= i < res.len() implies exists|j: int| 0 <= j < spans.len()
            && spans[j].0 == (#[trigger] res[i]).0 && spans[j].1 == res[i].1
            && is_char_boundary(bytes, spans[j].0) && is_char_boundary(bytes, spans[j].1) by {
            if i < rest.len() {
                assert(res[i] == rest[i]);
                let j = choose|j: int| 0 <= j < init.len()
                    && init[j].0 == (#[trigger] rest[i]).0 && init[j].1 == rest[i].1
                    && is_char_boundary(bytes, init[j].0) && is_char_boundary(bytes, init[j].1);
                assert(spans[j] == init[j]);
            } else {
                lemma_boundary_in_range(bytes, last.0);
                lemma_boundary_in_range(bytes, last.1);
                assert(spans[spans.len() - 1] == last);
            }
        }
        assert forall|j: int| 0 <= j < spans.len() && is_char_boundary(bytes, (#[trigger] spans[j]).0) && is_char_boundary(bytes, spans[j].1)
            implies res.contains((spans[j].0 as usize, spans[j].1 as usize)) by {
            if j < init.len() {
                assert(init[j] == spans[j]);
                let k = choose|k: int| 0 <= k < rest.len() && rest[k] == (init[j].0 as usize, init[j].1 as usize);
                assert(res[k] == rest[k]);
            } else {
                assert(spans[j] == last);
                assert(res[res.len() - 1] == (last.0 as usize, last.1 as usize));
            }
        }
    }
}

/// Substring matching reports occurrences: each range covers the lowercased query where it
/// occurs in the lowercased value, on char boundaries of the value. And it misses none: each
/// occurrence lies within an occurrence the left-to-right search finds, and each occurrence that
/// search finds on char boundaries is reported.
pub proof fn law_contains_ranges_are_occurrences(value: Seq<char>, query: Seq<char>)
    requires
        query.len() > 0,
        encode_utf8(value).len() <= usize::MAX,
    ensures
        ({
            let hay = encode_utf8(lowercase_str(value));
            let needle = encode_utf8(lowercase_str(query));
            let r = substring_ranges_spec(value, query);
            let found = occurrence_spans(hay, needle, 0);
            &&& forall|i: int| 0 <= i < r.len() ==> occurs_at(hay, needle, (#[trigger] r[i]).0 as int)
                && r[i].1 == r[i].0 + needle.len()
                && is_char_boundary(encode_utf8(value), r[i].0 as int)
                && is_char_boundary(encode_utf8(value), r[i].1 as int)
            &&& needle.len() > 0 ==> forall|x: int| #[trigger] occurs_at(hay, needle, x) ==> exists|k: int|
                0 <= k < found.len() && (#[trigger] found[k]).0 <= x < found[k].1
            &&& forall|k: int| 0 <= k < found.len() && is_char_boundary(encode_utf8(value), (#[trigger] found[k]).0)
                && is_char_boundary(encode_utf8(value), found[k].1) ==> r.contains((found[k].0 as usize, found[k].1 as usize))
        }),
{
    let hay = encode_utf8(lowercase_str(value));
    let needle = encode_utf8(lowercase_str(query));
    let bytes = encode_utf8(value);
    let found = occurrence_spans(hay, needle, 0);
    let r = substring_ranges_spec(value, query);
    lemma_occurrence_spans_sound(hay, needle, 0);
    lemma_boundary_spans(bytes, found);
    assert forall|i: int| 0 <= i < r.len() implies occurs_at(hay, needle, (#[trigger] r[i]).0 as int)
        && r[i].1 == r[i].0 + needle.len()
        && is_char_boundary(bytes, r[i].0 as int)
        && is_char_boundary(bytes, r[i].1 as int) by {
        let j = choose|j: int| 0 <= j < found.len()
            && found[j].0 == (#[trigger] r[i]).0 && found[j].1 == r[i].1
            && is_char_boundary(bytes, found[j].0) && is_char_boundary(bytes, found[j].1);
        assert(found[j] == found[j]);
    }
    if needle.len() > 0 {
        assert forall|x: int| #[trigger] occurs_at(hay, needle, x) implies exists|k: int|
            0 <= k < found.len() && (#[trigger] found[k]).0 <= x < found[k].1 by {
            lemma_occurrence_spans_complete(hay, needle, 0, x);
        }
    }
}

/// Regex matching reports the non-empty matches `find_iter` yields, in order, and matches
/// exactly when the regex matches somewhere.
pub proof fn law_regex_ranges_are_nonempty_matches(m: QueryMatcher, v: Seq<char>)
    requires
        m.mode() == QueryMode::Regex,
    ensures
        m.spec_is_match(v) == regex_is_match(m.query(), v),
        m.spec_match_ranges(v) == regex_find_all(m.query(), v).filter(|sp: (usize, usize)| sp.0 < sp.1),
{
    lemma_nonempty_spans_filter(regex_find_all(m.query(), v));
}

proof fn lemma_nonempty_spans_filter(spans: Seq<(usize, usize)>)
    ensures
        nonempty_spans(spans) == spans.filter(|sp: (usize, usize)| sp.0 < sp.1),
    decreases spans.len(),
{
    reveal(Seq::filter);
    if spans.len() > 0 {
        lemma_nonempty_spans_filter(spans.drop_last());
    }
}

/// Substring matching (`contains`, and `matches` alike) holds exactly when the lowercased query
/// occurs in the lowercased value.
pub proof fn law_contains_matches_lowercased_substring(m: QueryMatcher, v: Seq<char>)
    requires
        m.mode() == QueryMode::Contains || m.mode() == QueryMode::Matches,
    ensures
        m.spec_is_match(v) <==> exists|i: int| occurs_at(encode_utf8(lowercase_str(v)), encode_utf8(lowercase_str(m.query())), i),
{
}

/// A branch name is matched as a whole first; when the query matches nothing of it, the part
/// after the first `/` (a remote's branch) is matched, and its ranges are placed after the
/// remote and the `/`.
pub proof fn law_branch_ranges_fall_back_to_branch_part(m: QueryMatcher, remote: Seq<char>, branch: Seq<char>)
    requires
        !remote.contains('/'),
    ensures
        m.spec_match_ranges(remote + seq!['/'] + branch).len() > 0 ==> m.spec_branch_match_ranges(remote + seq!['/'] + branch)
            == m.spec_match_ranges(remote + seq!['/'] + branch),
        m.spec_match_ranges(remote + seq!['/'] + branch).len() == 0 ==> m.spec_branch_match_ranges(remote + seq!['/'] + branch)
            == shift_spans(m.spec_match_ranges(branch), encode_utf8(remote).len() as int + 1),
{
    crate::text::lemma_split_at_first(remote, '/', branch);
}

/// Byte offsets grow with the char index.
proof fn lemma_byte_offset_monotone(v: Seq<char>, a: int, b: int)
    requires
        0 <= a <= b <= v.len(),
    ensures
        byte_offset(v, a) <= byte_offset(v, b),
{
    assert(v.take(b) =~= v.take(a) + v.subrange(a, b));
    lemma_encode_concat(v.take(a), v.subrange(a, b));
}

/// Fuzzy matching is ordered character matching: the ranges it reports follow one another
/// without overlapping.
pub proof fn law_fuzzy_ranges_in_order(query: Seq<char>, value: Seq<char>)
    requires
        encode_utf8(value).len() <= usize::MAX,
    ensures
        spans_in_order(fuzzy_ranges_spec(query, value)),
{
    let qs = lowercase_all(query);
    if qs.len() > 0 {
        lemma_fuzzy_positions_increasing(qs, value, 0, 0);
        if let Some(p) = fuzzy_positions(qs, value, 0, 0) {
            let r = p.map_values(|i: int| char_span(value, i));
            assert forall|a: int, b: int| 0 <= a < b < r.len() implies (#[trigger] r[a]).1 <= (#[trigger] r[b]).0 by {
                assert(p[a] < p[b]);
                lemma_byte_offset_monotone(value, p[a] + 1, p[b]);
                lemma_byte_offset_boundary(value, p[b]);
                lemma_byte_offset_boundary(value, p[a] + 1);
                assert(r[a] == char_span(value, p[a]));
                assert(r[b] == char_span(value, p[b]));
            }
        }
    }
}

} // verus!
