//! What the repos, commit and status commands decide and print for a repository.
use vstd::prelude::*;
use vstd::string::*;
use vstd::utf8::*;

use crate::error::Error;
use crate::pattern::spans_on_boundaries;
use crate::query::QueryMatcher;
use crate::branch::opt_str_view;
use crate::branch::opt_view;
use crate::style::HighlightStyle;
use crate::style::OutputStyle;
use crate::style::lemma_coverage_on_boundaries;
use crate::style::ranges_on_boundaries;
use crate::text::byte_len;
use crate::text::decimal;
use crate::text::lines;
use crate::text::lines_spec;
use crate::text::parse_u32;
use crate::text::parse_u32_error;
use crate::text::parse_u32_error_spec;
use crate::text::parse_u32_spec;
use crate::text::push_decimal;
use crate::text::push_str;
use crate::text::string_of;
use crate::text::trim;
use crate::text::trim_spec;

verus! {

/* Matched text */

/// Text and the byte ranges of it that a query matched.
#[derive(Debug)]
pub struct MatchedText {
    pub text: String,
    pub ranges: Vec<(usize, usize)>,
}

impl MatchedText {
    /// Whether the ranges are ordered byte ranges of the text on char boundaries.
    pub open spec fn well_formed(&self) -> bool {
        spans_on_boundaries(encode_utf8(self.text@), self.ranges@)
    }
}

/// The text with the ranges that the query matches, when it matches some.
pub fn matched_text(text: &str, matcher: &QueryMatcher) -> (r: Option<MatchedText>)
    ensures
        r is Some <==> matcher.spec_match_ranges(text@).len() > 0,
        r matches Some(m) ==> m.text@ == text@ && m.ranges@ == matcher.spec_match_ranges(text@) && m.well_formed(),
{
    let ranges = matcher.match_ranges(text);
    if ranges.len() > 0 {
        Some(MatchedText { text: string_of(text), ranges })
    } else {
        None
    }
}

/// The lines of `git remote -v` output that the query matches, in order.
pub open spec fn matching_lines_spec(lines: Seq<Seq<char>>, matcher: QueryMatcher) -> Seq<Seq<char>>
    decreases lines.len(),
{
    if lines.len() == 0 {
        seq![]
    } else {
        let rest = matching_lines_spec(lines.drop_last(), matcher);
        if matcher.spec_match_ranges(lines.last()).len() > 0 {
            rest.push(lines.last())
        } else {
            rest
        }
    }
}

/// The lines of `git remote -v` output that the query matches, with their ranges.
pub fn matching_remote_lines(output: &str, matcher: &QueryMatcher) -> (r: Vec<MatchedText>)
    ensures
        r@.map_values(|m: MatchedText| m.text@) == matching_lines_spec(lines_spec(output@), *matcher),
        forall|i: int| 0 <= i < r@.len() ==> (#[trigger] r@[i]).well_formed()
            && r@[i].ranges@ == matcher.spec_match_ranges(r@[i].text@),
{
    let ls = lines(output);
    let ghost lv = lines_spec(output@);
    let mut out: Vec<MatchedText> = Vec::new();
    let mut i: usize = 0;
    while i < ls.len()
        invariant
            i <= ls@.len(),
            ls@.map_values(|l: String| l@) == lv,
            out@.map_values(|m: MatchedText| m.text@) == matching_lines_spec(lv.take(i as int), *matcher),
            forall|k: int| 0 <= k < out@.len() ==> (#[trigger] out@[k]).well_formed()
                && out@[k].ranges@ == matcher.spec_match_ranges(out@[k].text@),
        decreases ls.len() - i,
    {
        assert(lv.take(i + 1).drop_last() =~= lv.take(i as int));
        assert(lv.take(i + 1).last() == ls@[i as int]@);
        let ghost before = out@;
        match matched_text(ls[i].as_str(), matcher) {
            Some(m) => {
                out.push(m);
                assert(out@.map_values(|m: MatchedText| m.text@)
                    =~= before.map_values(|m: MatchedText| m.text@).push(ls@[i as int]@));
            },
            None => {},
        }
        i += 1;
    }
    assert(lv.take(ls.len() as int) =~= lv);
    out
}

/* Repository matches */

/// How a repository matched a repos query.
#[derive(Debug)]
pub struct RepoMatch {
    /// The path as displayed.
    pub display_path: String,
    /// The ranges of the displayed path that the query matched.
    pub display_ranges: Vec<(usize, usize)>,
    /// The absolute path, when only it matched.
    pub absolute_path: Option<MatchedText>,
    /// The matching remote lines, when neither path matched.
    pub remotes: Vec<MatchedText>,
}

impl RepoMatch {
    /// Whether all ranges lie on char boundaries of their text.
    pub open spec fn well_formed(&self) -> bool {
        &&& spans_on_boundaries(encode_utf8(self.display_path@), self.display_ranges@)
        &&& (self.absolute_path matches Some(a) ==> a.well_formed())
        &&& forall|i: int| 0 <= i < self.remotes@.len() ==> (#[trigger] self.remotes@[i]).well_formed()
    }

    /// Whether the displayed or the absolute path matched.
    pub open spec fn spec_path_matches(&self) -> bool {
        self.display_ranges@.len() > 0 || self.absolute_path is Some
    }

    /// Whether the displayed or the absolute path matched.
    pub fn path_matches(&self) -> (r: bool)
        ensures
            r == self.spec_path_matches(),
    {
        self.display_ranges.len() > 0 || self.absolute_path.is_some()
    }
}

/// Every repository is listed when there is no query, with nothing highlighted.
pub fn unfiltered_repo_match(display_path: &str) -> (r: RepoMatch)
    ensures
        r.display_path@ == display_path@,
        r.display_ranges@.len() == 0,
        r.absolute_path is None,
        r.remotes@.len() == 0,
        r.well_formed(),
{
    RepoMatch { display_path: string_of(display_path), display_ranges: Vec::new(), absolute_path: None, remotes: Vec::new() }
}

/// How the paths of a repository match the query: the ranges of the displayed path, and the
/// absolute path with its ranges when the displayed path does not match but it does.
pub fn repo_path_match(display_path: &str, absolute_path: &str, matcher: &QueryMatcher) -> (r: RepoMatch)
    ensures
        r.display_path@ == display_path@,
        r.display_ranges@ == matcher.spec_match_ranges(display_path@),
        r.absolute_path is Some <==> (matcher.spec_match_ranges(display_path@).len() == 0
            && matcher.spec_match_ranges(absolute_path@).len() > 0),
        r.absolute_path matches Some(a) ==> a.text@ == absolute_path@ && a.ranges@ == matcher.spec_match_ranges(absolute_path@),
        r.remotes@.len() == 0,
        r.well_formed(),
{
    let display_ranges = matcher.match_ranges(display_path);
    let absolute = if display_ranges.len() == 0 {
        matched_text(absolute_path, matcher)
    } else {
        None
    };
    RepoMatch { display_path: string_of(display_path), display_ranges, absolute_path: absolute, remotes: Vec::new() }
}

/// A repository whose paths do not match is still reported when remote lines match: `remotes`
/// is the `git remote -v` output (none when it failed). A repository whose path matched is
/// reported as it is, without looking at its remotes.
pub fn with_matching_remotes(m: RepoMatch, remotes: Option<&str>, matcher: &QueryMatcher) -> (r: Option<RepoMatch>)
    requires
        m.well_formed(),
    ensures
        m.spec_path_matches() ==> r == Some(m),
        !m.spec_path_matches() ==> match remotes {
            None => r is None,
            Some(o) => {
                let found = matching_lines_spec(lines_spec(o@), *matcher);
                &&& r is Some <==> found.len() > 0
                &&& r matches Some(x) ==> x.display_path == m.display_path && x.display_ranges == m.display_ranges
                    && x.absolute_path == m.absolute_path
                    && x.remotes@.map_values(|t: MatchedText| t.text@) == found
                    && forall|i: int| 0 <= i < x.remotes@.len() ==>
                        (#[trigger] x.remotes@[i]).ranges@ == matcher.spec_match_ranges(x.remotes@[i].text@)
            },
        },
        r matches Some(x) ==> x.well_formed(),
{
    if m.path_matches() {
        return Some(m);
    }
    match remotes {
        None => None,
        Some(o) => {
            let found = matching_remote_lines(o, matcher);
            if found.len() > 0 {
                Some(RepoMatch {
                    display_path: m.display_path,
                    display_ranges: m.display_ranges,
                    absolute_path: m.absolute_path,
                    remotes: found,
                })
            } else {
                None
            }
        },
    }
}

/// The lines that report a repository match: the displayed path, then the absolute path and the
/// remote lines that matched, each with its matched ranges highlighted.
pub open spec fn repo_report_spec(m: RepoMatch, style: OutputStyle) -> Seq<Seq<char>> {
    seq![style.highlight_spec(m.display_path@, m.display_ranges@, HighlightStyle::Repo)] + (match m.absolute_path {
        Some(a) => seq!["  "@ + style.label_spec("absolute"@) + ": "@ + style.highlight_spec(a.text@, a.ranges@, HighlightStyle::Repo)],
        None => seq![],
    }) + m.remotes@.map_values(|t: MatchedText|
        "  "@ + style.label_spec("remote"@) + ": "@ + style.highlight_spec(t.text@, t.ranges@, HighlightStyle::Plain))
}

/// The lines that report a repository match.
pub fn repo_report(m: &RepoMatch, style: &OutputStyle) -> (r: Vec<String>)
    requires
        m.well_formed(),
    ensures
        r@.map_values(|s: String| s@) == repo_report_spec(*m, *style),
{
    let mut out: Vec<String> = Vec::new();
    proof { lemma_coverage_on_boundaries(encode_utf8(m.display_path@), m.display_ranges@); }
    out.push(style.highlight_repo(m.display_path.as_str(), m.display_ranges.as_slice()));
    match &m.absolute_path {
        Some(a) => {
            let mut line = string_of("  ");
            let label = style.label("absolute");
            push_str(&mut line, label.as_str());
            push_str(&mut line, ": ");
            proof { lemma_coverage_on_boundaries(encode_utf8(a.text@), a.ranges@); }
            let text = style.highlight_repo(a.text.as_str(), a.ranges.as_slice());
            push_str(&mut line, text.as_str());
            out.push(line);
        },
        None => {},
    }
    let ghost head = out@.map_values(|s: String| s@);
    let ghost remote_lines = m.remotes@.map_values(|t: MatchedText|
        "  "@ + style.label_spec("remote"@) + ": "@ + style.highlight_spec(t.text@, t.ranges@, HighlightStyle::Plain));
    let mut i: usize = 0;
    while i < m.remotes.len()
        invariant
            i <= m.remotes@.len(),
            m.well_formed(),
            remote_lines == m.remotes@.map_values(|t: MatchedText|
                "  "@ + style.label_spec("remote"@) + ": "@ + style.highlight_spec(t.text@, t.ranges@, HighlightStyle::Plain)),
            out@.map_values(|s: String| s@) == head + remote_lines.take(i as int),
        decreases m.remotes.len() - i,
    {
        let t = &m.remotes[i];
        assert(t.well_formed());
        let mut line = string_of("  ");
        let label = style.label("remote");
        push_str(&mut line, label.as_str());
        push_str(&mut line, ": ");
        proof { lemma_coverage_on_boundaries(encode_utf8(t.text@), t.ranges@); }
        let text = style.highlight_plain(t.text.as_str(), t.ranges.as_slice());
        push_str(&mut line, text.as_str());
        let ghost before = out@;
        out.push(line);
        assert(out@.map_values(|s: String| s@) =~= before.map_values(|s: String| s@).push(line@));
        assert(remote_lines.take(i + 1) =~= remote_lines.take(i as int).push(remote_lines[i as int]));
        i += 1;
    }
    assert(remote_lines.take(m.remotes@.len() as int) =~= remote_lines);
    assert(out@.map_values(|s: String| s@) =~= repo_report_spec(*m, *style));
    out
}

/* Commits */

/// The git arguments that test for the commit: whether it is an ancestor of `HEAD` when it must
/// be reachable, else whether the object exists as a commit.
pub open spec fn commit_check_args_spec(rev: Seq<char>, reachable: bool) -> Seq<Seq<char>> {
    if reachable {
        seq!["merge-base"@, "--is-ancestor"@, rev, "HEAD"@]
    } else {
        seq!["cat-file"@, "-e"@, rev + "^{commit}"@]
    }
}

/// The git arguments that test whether a repository has the commit.
pub fn commit_check_args(rev: &str, reachable: bool) -> (r: Vec<String>)
    ensures
        r@.map_values(|s: String| s@) == commit_check_args_spec(rev@, reachable),
{
    let mut r: Vec<String> = Vec::new();
    if reachable {
        r.push(string_of("merge-base"));
        r.push(string_of("--is-ancestor"));
        r.push(string_of(rev));
        r.push(string_of("HEAD"));
    } else {
        r.push(string_of("cat-file"));
        r.push(string_of("-e"));
        let mut c = string_of(rev);
        push_str(&mut c, "^{commit}");
        r.push(c);
    }
    assert(r@.map_values(|s: String| s@) =~= commit_check_args_spec(rev@, reachable));
    r
}

/// The lines that report a repository that has the commit: the repository, then the commit,
/// highlighted as a whole.
pub open spec fn commit_report_spec(repo: Seq<char>, rev: Seq<char>, style: OutputStyle) -> Seq<Seq<char>> {
    seq![
        style.repo_spec(repo),
        "  "@ + style.label_spec("commit"@) + ": "@
            + style.highlight_spec(rev, seq![(0usize, encode_utf8(rev).len() as usize)], HighlightStyle::Commit),
    ]
}

/// The lines that report a repository that has the commit.
pub fn commit_report(repo: &str, rev: &str, style: &OutputStyle) -> (r: Vec<String>)
    ensures
        r@.map_values(|s: String| s@) == commit_report_spec(repo@, rev@, *style),
{
    let mut r: Vec<String> = Vec::new();
    r.push(style.repo(repo));
    let n = byte_len(rev);
    let mut ranges: Vec<(usize, usize)> = Vec::new();
    ranges.push((0, n));
    assert(ranges@ =~= seq![(0usize, encode_utf8(rev@).len() as usize)]);
    proof {
        encode_utf8_valid_utf8(rev@);
        is_char_boundary_start_end_of_seq(rev.spec_bytes());
    }
    assert(ranges_on_boundaries(rev.spec_bytes(), ranges@));
    proof { lemma_coverage_on_boundaries(rev.spec_bytes(), ranges@); }
    let mut line = string_of("  ");
    let label = style.label("commit");
    push_str(&mut line, label.as_str());
    push_str(&mut line, ": ");
    let text = style.highlight_commit(rev, ranges.as_slice());
    push_str(&mut line, text.as_str());
    assert(text@ == style.highlight_spec(rev@, seq![(0usize, encode_utf8(rev@).len() as usize)], HighlightStyle::Commit));
    r.push(line);
    assert(r@.map_values(|s: String| s@) =~= commit_report_spec(repo@, rev@, *style));
    r
}

/* Status */

/// Whether a repository has uncommitted changes and how many commits it is ahead of its upstream
/// (none when it has no upstream).
#[derive(Debug, Clone, Copy, PartialEq, Eq)]
pub struct RepoStatus {
    pub dirty: bool,
    pub ahead: Option<u32>,
}

/// A repository is dirty when `git status --porcelain=v1` succeeded and printed more than
/// whitespace.
pub open spec fn is_dirty_spec(status_output: Option<Seq<char>>) -> bool {
    status_output matches Some(o) && trim_spec(o).len() > 0
}

/// Whether `git status --porcelain=v1` output (none when it failed) shows changes.
pub fn is_dirty(status_output: Option<&str>) -> (r: bool)
    ensures
        r == is_dirty_spec(opt_str_view(status_output)),
{
    match status_output {
        Some(o) => {
            let t = trim(o);
            !t.as_str().is_empty()
        },
        None => false,
    }
}

/// The revision range of the commits on `HEAD` that the upstream lacks, given the upstream name
/// that `git rev-parse` printed.
pub fn ahead_range(upstream: &str) -> (r: String)
    ensures
        r@ == trim_spec(upstream@) + "..HEAD"@,
{
    let mut r = trim(upstream);
    push_str(&mut r, "..HEAD");
    r
}

/// The error for a commit count that does not parse.
pub open spec fn ahead_count_message(repo: Seq<char>, count: Seq<char>) -> Seq<char> {
    "failed to parse ahead count for "@ + repo + ": "@ + parse_u32_error_spec(trim_spec(count))
}

/// The number of commits ahead of the upstream from `git rev-list --count` output, trimmed: none
/// when there is no output (no upstream), an error when it does not parse.
pub fn upstream_ahead_count(count_output: Option<&str>, repo: &str) -> (r: Result<Option<u32>, Error>)
    ensures
        match count_output {
            None => r matches Ok(None),
            Some(c) => match r {
                Ok(Some(n)) => parse_u32_spec(trim_spec(c@)) == Some(n),
                Ok(None) => false,
                Err(e) => parse_u32_spec(trim_spec(c@)) is None && e.message() == ahead_count_message(repo@, c@),
            },
        },
{
    let count = match count_output {
        Some(c) => c,
        None => return Ok(None),
    };
    let t = trim(count);
    match parse_u32(t.as_str()) {
        Some(n) => Ok(Some(n)),
        None => {
            let mut m = string_of("failed to parse ahead count for ");
            push_str(&mut m, repo);
            push_str(&mut m, ": ");
            push_str(&mut m, parse_u32_error(t.as_str()));
            Err(Error::Message(m))
        },
    }
}

/// The number of commits ahead of the upstream, from what `git rev-parse --abbrev-ref
/// --symbolic-full-name @{upstream}` printed (none when it failed: there is no upstream) and what
/// `git rev-list --count` printed for the `ahead_range` of that upstream (none when it failed; not
/// asked, and so not read, without an upstream).
pub fn upstream_ahead(upstream_output: Option<&str>, count_output: Option<&str>, repo: &str) -> (r: Result<Option<u32>, Error>)
    ensures
        upstream_output is None ==> r matches Ok(None),
        upstream_output is Some ==> match count_output {
            None => r matches Ok(None),
            Some(c) => match r {
                Ok(Some(n)) => parse_u32_spec(trim_spec(c@)) == Some(n),
                Ok(None) => false,
                Err(e) => parse_u32_spec(trim_spec(c@)) is None && e.message() == ahead_count_message(repo@, c@),
            },
        },
{
    match upstream_output {
        None => Ok(None),
        Some(_) => upstream_ahead_count(count_output, repo),
    }
}

/// The status of a repository from `git status --porcelain=v1` output (none when it failed) and
/// its count of commits ahead.
pub fn repo_status(status_output: Option<&str>, ahead: Option<u32>) -> (r: RepoStatus)
    ensures
        r.dirty == is_dirty_spec(opt_str_view(status_output)),
        r.ahead == ahead,
{
    RepoStatus { dirty: is_dirty(status_output), ahead }
}

/// The status line of a repository: the repository, then in parentheses `dirty` when it is dirty
/// (unless only unpushed repositories are wanted) and `ahead N` when it is ahead of its upstream
/// (unless only dirty repositories are wanted), joined by a comma; none when neither applies.
pub open spec fn status_line_spec(repo: Seq<char>, status: RepoStatus, dirty_only: bool, unpushed_only: bool, style: OutputStyle) -> Option<Seq<char>> {
    let dirty = status.dirty && !unpushed_only;
    let unpushed = (status.ahead matches Some(a) && a > 0) && !dirty_only;
    let ahead = style.reason_spec("ahead "@ + decimal(status.ahead->0 as nat));
    let head = style.repo_spec(repo) + " ("@;
    if dirty && unpushed {
        Some(head + style.reason_spec("dirty"@) + ", "@ + ahead + ")"@)
    } else if dirty {
        Some(head + style.reason_spec("dirty"@) + ")"@)
    } else if unpushed {
        Some(head + ahead + ")"@)
    } else {
        None
    }
}

/// The status line of a repository, when it is reported.
pub fn status_line(repo: &str, status: RepoStatus, dirty_only: bool, unpushed_only: bool, style: &OutputStyle) -> (r: Option<String>)
    ensures
        opt_view(r) == status_line_spec(repo@, status, dirty_only, unpushed_only, *style),
{
    let dirty = status.dirty && !unpushed_only;
    let unpushed = match status.ahead {
        Some(a) => a > 0 && !dirty_only,
        None => false,
    };
    if !dirty && !unpushed {
        return None;
    }
    let mut line = style.repo(repo);
    push_str(&mut line, " (");
    if dirty {
        let d = style.reason("dirty");
        push_str(&mut line, d.as_str());
    }
    if unpushed {
        if dirty {
            push_str(&mut line, ", ");
        }
        let mut text = string_of("ahead ");
        push_decimal(&mut text, status.ahead.unwrap());
        let a = style.reason(text.as_str());
        push_str(&mut line, a.as_str());
    }
    push_str(&mut line, ")");
    Some(line)
}

/* Git commands */

/// How a git command is written in log messages: `git -C <repo>` and the arguments, separated
/// by spaces.
pub open spec fn git_command_text(repo: Seq<char>, args: Seq<Seq<char>>) -> Seq<char>
    decreases args.len(),
{
    if args.len() == 0 {
        "git -C "@ + repo
    } else {
        git_command_text(repo, args.drop_last()) + " "@ + args.last()
    }
}

/// The log text of a git command run in `repo`.
pub fn format_git_command(repo: &str, args: &Vec<String>) -> (r: String)
    ensures
        r@ == git_command_text(repo@, args@.map_values(|s: String| s@)),
{
    let ghost av = args@.map_values(|s: String| s@);
    let mut command = string_of("git -C ");
    push_str(&mut command, repo);
    let mut i: usize = 0;
    while i < args.len()
        invariant
            i <= args@.len(),
            av == args@.map_values(|s: String| s@),
            command@ == git_command_text(repo@, av.take(i as int)),
        decreases args.len() - i,
    {
        push_str(&mut command, " ");
        push_str(&mut command, args[i].as_str());
        assert(av.take(i + 1).drop_last() =~= av.take(i as int));
        i += 1;
    }
    assert(av.take(args.len() as int) =~= av);
    command
}

} // verus!

verus! {

/* Laws */

/// The remote lines reported for a repository are exactly the lines of `git remote -v` output
/// that the query matches somewhere, in their order.
pub proof fn law_remote_lines_are_the_matching_lines(lines: Seq<Seq<char>>, m: QueryMatcher)
    ensures
        matching_lines_spec(lines, m) == lines.filter(|l: Seq<char>| m.spec_match_ranges(l).len() > 0),
    decreases lines.len(),
{
    reveal(Seq::filter);
    if lines.len() > 0 {
        law_remote_lines_are_the_matching_lines(lines.drop_last(), m);
    }
}

/// Without colors, a repository match is reported as its displayed path, then
/// `  absolute: <path>` when only the absolute path matched, then `  remote: <line>` for each
/// matching remote line, in order.
pub proof fn law_plain_repo_report(m: RepoMatch)
    ensures
        repo_report_spec(m, OutputStyle { enabled: false })
            == seq![m.display_path@]
                + (match m.absolute_path {
                    Some(a) => seq!["  "@ + "absolute"@ + ": "@ + a.text@],
                    None => Seq::<Seq<char>>::empty(),
                })
                + m.remotes@.map_values(|t: MatchedText| "  "@ + "remote"@ + ": "@ + t.text@),
{
    let off = OutputStyle { enabled: false };
    crate::style::law_disabled_style_is_plain(m.display_path@, m.display_ranges@, HighlightStyle::Repo);
    crate::style::law_disabled_style_is_plain("absolute"@, seq![], HighlightStyle::Plain);
    crate::style::law_disabled_style_is_plain("remote"@, seq![], HighlightStyle::Plain);
    if let Some(a) = m.absolute_path {
        crate::style::law_disabled_style_is_plain(a.text@, a.ranges@, HighlightStyle::Repo);
    }
    let styled = m.remotes@.map_values(|t: MatchedText|
        "  "@ + off.label_spec("remote"@) + ": "@ + off.highlight_spec(t.text@, t.ranges@, HighlightStyle::Plain));
    let plain = m.remotes@.map_values(|t: MatchedText| "  "@ + "remote"@ + ": "@ + t.text@);
    assert forall|i: int| 0 <= i < styled.len() implies styled[i] == plain[i] by {
        crate::style::law_disabled_style_is_plain(m.remotes@[i].text@, m.remotes@[i].ranges@, HighlightStyle::Plain);
    }
    assert(styled =~= plain);
}

/// Without colors, a repository that has the commit is reported as the repository, then
/// `  commit: <rev>`.
pub proof fn law_plain_commit_report(repo: Seq<char>, rev: Seq<char>)
    ensures
        commit_report_spec(repo, rev, OutputStyle { enabled: false }) == seq![repo, "  "@ + "commit"@ + ": "@ + rev],
{
    crate::style::law_disabled_style_is_plain(rev, seq![(0usize, encode_utf8(rev).len() as usize)], HighlightStyle::Commit);
    crate::style::law_disabled_style_is_plain(repo, seq![], HighlightStyle::Plain);
    crate::style::law_disabled_style_is_plain("commit"@, seq![], HighlightStyle::Plain);
}

/// A commit is looked for as an ancestor of `HEAD` when it must be reachable, else as a commit
/// object that exists; the revision is passed unchanged either way.
pub proof fn law_commit_check_args(rev: Seq<char>)
    ensures
        commit_check_args_spec(rev, true) == seq!["merge-base"@, "--is-ancestor"@, rev, "HEAD"@],
        commit_check_args_spec(rev, false) == seq!["cat-file"@, "-e"@, rev + "^{commit}"@],
{
}

/// A repository is dirty exactly when `git status --porcelain=v1` succeeded and printed
/// something other than whitespace.
pub proof fn law_dirty_means_status_output(status_output: Option<Seq<char>>)
    ensures
        is_dirty_spec(status_output) <==> (status_output matches Some(o)
            && exists|i: int| 0 <= i < o.len() && !crate::text::is_ws(#[trigger] o[i])),
{
    if let Some(o) = status_output {
        crate::text::lemma_trim_empty_iff_all_ws(o);
    }
}

/// Whether `s` ends with `t`.
pub open spec fn ends_with_text(s: Seq<char>, t: Seq<char>) -> bool {
    t.len() <= s.len() && s.skip(s.len() - t.len()) == t
}

/// Whether `s` begins with `t`.
pub open spec fn starts_with_text(s: Seq<char>, t: Seq<char>) -> bool {
    t.len() <= s.len() && s.take(t.len() as int) == t
}

/// A repository's status line reports it as dirty when it is dirty and not only unpushed
/// repositories are wanted; it reports `ahead N` when it is ahead of its upstream and not only
/// dirty repositories are wanted, whether or not it is dirty; there is a line exactly when one of
/// the two is reported. The line starts with the repository and ends with the last reported
/// reason in parentheses.
pub proof fn law_status_line_reports_dirty_and_ahead(
    repo: Seq<char>,
    status: RepoStatus,
    dirty_only: bool,
    unpushed_only: bool,
    style: OutputStyle,
)
    ensures
        ({
            let shows_dirty = status.dirty && !unpushed_only;
            let shows_ahead = (status.ahead matches Some(a) && a > 0) && !dirty_only;
            let line = status_line_spec(repo, status, dirty_only, unpushed_only, style);
            let head = style.repo_spec(repo) + " ("@;
            let dirty_text = style.reason_spec("dirty"@);
            &&& (line is Some <==> (shows_dirty || shows_ahead))
            &&& line is Some ==> starts_with_text(line->0, head)
            &&& shows_dirty ==> starts_with_text(line->0, head + dirty_text)
            &&& shows_ahead ==> ends_with_text(
                line->0,
                style.reason_spec("ahead "@ + decimal(status.ahead->0 as nat)) + ")"@,
            )
            &&& shows_dirty && !shows_ahead ==> ends_with_text(line->0, dirty_text + ")"@)
        }),
{
    let shows_dirty = status.dirty && !unpushed_only;
    let shows_ahead = (status.ahead matches Some(a) && a > 0) && !dirty_only;
    let line = status_line_spec(repo, status, dirty_only, unpushed_only, style);
    let head = style.repo_spec(repo) + " ("@;
    let dirty_text = style.reason_spec("dirty"@);
    let ahead = style.reason_spec("ahead "@ + decimal(status.ahead->0 as nat));
    if shows_dirty && shows_ahead {
        let l = head + dirty_text + ", "@ + ahead + ")"@;
        assert(l.take(head.len() as int) =~= head);
        assert(l.take((head + dirty_text).len() as int) =~= head + dirty_text);
        assert(l.skip(l.len() - (ahead + ")"@).len()) =~= ahead + ")"@);
    } else if shows_dirty {
        let l = head + dirty_text + ")"@;
        assert(l.take(head.len() as int) =~= head);
        assert(l.take((head + dirty_text).len() as int) =~= head + dirty_text);
        assert(l.skip(l.len() - (dirty_text + ")"@).len()) =~= dirty_text + ")"@);
    } else if shows_ahead {
        let l = head + ahead + ")"@;
        assert(l.take(head.len() as int) =~= head);
        assert(l.skip(l.len() - (ahead + ")"@).len()) =~= ahead + ")"@);
    }
}

} // verus!

