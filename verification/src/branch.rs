//! Branch queries: branch refs, upstream freshness, and how they are reported.
use vstd::prelude::*;

use crate::config::{BranchHash, BranchSearch, ConfigFile};
use crate::error::Error;
use crate::query::QueryMatcher;
use crate::style::{HighlightStyle, OutputStyle};
use crate::text::{chars_eq, chars_of, lemma_str_lt_irreflexive, lemma_str_lt_total, lemma_str_lt_transitive, str_less, str_lt, decimal, lines, lines_spec, next_token, next_token_in, parse_u32, parse_u32_spec, push_decimal, push_str, split_once, split_once_spec, str_eq, string_from_chars, string_of, strip_prefix, strip_prefix_spec, trim, trim_spec};

verus! {

/// How a branch compares with the live origin branch.
#[derive(Clone, Debug, PartialEq, Eq)]
pub enum BranchFreshness {
    /// Same commit.
    UpToDate,
    /// Commits only on the local branch.
    Ahead(u32),
    /// Commits only on the remote branch.
    Behind(u32),
    /// Commits on both sides.
    Diverged { ahead: u32, behind: u32 },
    /// The commits differ and could not be counted.
    Different,
}

/// The upstream freshness of a local branch.
#[derive(Clone, Debug, PartialEq, Eq)]
pub enum BranchUpstreamStatus {
    /// The branch tracks no upstream.
    NoUpstream,
    /// Compared with the live origin branch.
    Origin { remote: String, remote_hash: Option<String>, freshness: BranchFreshness },
    /// Compared with the local upstream tracking ref.
    Tracking { upstream: String, upstream_hash: Option<String>, ahead: u32, behind: u32 },
}

/// The chars of an optional string.
pub open spec fn opt_view(o: Option<String>) -> Option<Seq<char>> {
    match o {
        Some(s) => Some(s@),
        None => None,
    }
}

/// An upstream name followed by ` @ ` and its commit hash when there is one.
pub open spec fn upstream_text(upstream: Seq<char>, hash: Option<Seq<char>>) -> Seq<char> {
    match hash {
        Some(h) => upstream + " @ "@ + h,
        None => upstream,
    }
}

/// The words that put a branch in relation to the branch it is compared with.
pub open spec fn freshness_text(f: BranchFreshness) -> Seq<char> {
    match f {
        BranchFreshness::UpToDate => "up-to-date with"@,
        BranchFreshness::Ahead(a) => "ahead "@ + decimal(a as nat) + " of"@,
        BranchFreshness::Behind(b) => "behind "@ + decimal(b as nat) + " from"@,
        BranchFreshness::Diverged { ahead, behind } => "ahead "@ + decimal(ahead as nat) + ", behind "@
            + decimal(behind as nat) + " vs"@,
        BranchFreshness::Different => "differs from"@,
    }
}

/// The text of an upstream status.
pub open spec fn status_text(s: BranchUpstreamStatus) -> Seq<char> {
    match s {
        BranchUpstreamStatus::NoUpstream => "no upstream"@,
        BranchUpstreamStatus::Origin { remote, remote_hash, freshness } => freshness_text(freshness)
            + " "@ + upstream_text(remote@, opt_view(remote_hash)),
        BranchUpstreamStatus::Tracking { upstream, upstream_hash, ahead, behind } => {
            let u = upstream_text(upstream@, opt_view(upstream_hash));
            if ahead == 0 && behind == 0 {
                "up-to-date with "@ + u
            } else if behind == 0 {
                "ahead "@ + decimal(ahead as nat) + " of "@ + u
            } else if ahead == 0 {
                "behind "@ + decimal(behind as nat) + " from "@ + u
            } else {
                "ahead "@ + decimal(ahead as nat) + ", behind "@ + decimal(behind as nat) + " vs "@ + u
            }
        },
    }
}

/// An upstream name with its hash, as `name @ hash`.
pub fn format_upstream(upstream: &str, upstream_hash: &Option<String>) -> (r: String)
    ensures
        r@ == upstream_text(upstream@, opt_view(*upstream_hash)),
{
    let mut r = string_of(upstream);
    match upstream_hash {
        Some(hash) => {
            push_str(&mut r, " @ ");
            push_str(&mut r, hash.as_str());
        },
        None => {},
    }
    r
}

/// The words for a freshness.
pub fn format_branch_freshness(freshness: &BranchFreshness) -> (r: String)
    ensures
        r@ == freshness_text(*freshness),
{
    match freshness {
        BranchFreshness::UpToDate => string_of("up-to-date with"),
        BranchFreshness::Ahead(ahead) => {
            let mut r = string_of("ahead ");
            push_decimal(&mut r, *ahead);
            push_str(&mut r, " of");
            r
        },
        BranchFreshness::Behind(behind) => {
            let mut r = string_of("behind ");
            push_decimal(&mut r, *behind);
            push_str(&mut r, " from");
            r
        },
        BranchFreshness::Diverged { ahead, behind } => {
            let mut r = string_of("ahead ");
            push_decimal(&mut r, *ahead);
            push_str(&mut r, ", behind ");
            push_decimal(&mut r, *behind);
            push_str(&mut r, " vs");
            r
        },
        BranchFreshness::Different => string_of("differs from"),
    }
}

/// The text of an upstream status.
pub fn format_branch_upstream_status(status: &BranchUpstreamStatus) -> (r: String)
    ensures
        r@ == status_text(*status),
{
    match status {
        BranchUpstreamStatus::NoUpstream => string_of("no upstream"),
        BranchUpstreamStatus::Origin { remote, remote_hash, freshness } => {
            let mut r = format_branch_freshness(freshness);
            push_str(&mut r, " ");
            let u = format_upstream(remote.as_str(), remote_hash);
            push_str(&mut r, u.as_str());
            r
        },
        BranchUpstreamStatus::Tracking { upstream, upstream_hash, ahead, behind } => {
            let u = format_upstream(upstream.as_str(), upstream_hash);
            let mut r;
            if *ahead == 0 && *behind == 0 {
                r = string_of("up-to-date with ");
            } else if *behind == 0 {
                r = string_of("ahead ");
                push_decimal(&mut r, *ahead);
                push_str(&mut r, " of ");
            } else if *ahead == 0 {
                r = string_of("behind ");
                push_decimal(&mut r, *behind);
                push_str(&mut r, " from ");
            } else {
                r = string_of("ahead ");
                push_decimal(&mut r, *ahead);
                push_str(&mut r, ", behind ");
                push_decimal(&mut r, *behind);
                push_str(&mut r, " vs ");
            }
            push_str(&mut r, u.as_str());
            r
        },
    }
}

} // verus!

verus! {

/// A branch ref that a query matched.
#[derive(Clone, Debug, PartialEq, Eq)]
pub struct BranchRef {
    /// The branch name: without `refs/heads/` for local branches, `remote/branch` for remote ones.
    pub name: String,
    /// The commit hash, when hashes are shown.
    pub commit_hash: Option<String>,
    /// The upstream freshness, when it is shown.
    pub upstream_status: Option<BranchUpstreamStatus>,
}

/// Local or remote-tracking branch refs.
#[derive(Clone, Copy, Debug, PartialEq, Eq, Structural)]
pub enum BranchRefKind {
    /// `refs/heads`.
    Local,
    /// `refs/remotes`.
    Remote,
}

/// A `for-each-ref` line split into the ref and the hash that follows a tab, if any.
pub open spec fn ref_and_hash(line: Seq<char>) -> (Seq<char>, Option<Seq<char>>) {
    match split_once_spec(line, '\t') {
        Some((r, h)) => (r, Some(h)),
        None => (line, None),
    }
}

/// The name and hash of the branch a `for-each-ref` line names, when the query matches it: a
/// local branch by its name, a remote branch by its name without the remote or with it.
pub open spec fn printable_branch_ref_spec(line: Seq<char>, m: QueryMatcher, kind: BranchRefKind) -> Option<(Seq<char>, Option<Seq<char>>)> {
    let (reference, hash) = ref_and_hash(line);
    match kind {
        BranchRefKind::Local => match strip_prefix_spec(reference, "refs/heads/"@) {
            Some(local) => if m.spec_is_match(local) { Some((local, hash)) } else { None },
            None => None,
        },
        BranchRefKind::Remote => match strip_prefix_spec(reference, "refs/remotes/"@) {
            Some(remote) => match split_once_spec(remote, '/') {
                Some((_, branch)) => if m.spec_is_match(branch) || m.spec_is_match(remote) {
                    Some((remote, hash))
                } else {
                    None
                },
                None => None,
            },
            None => None,
        },
    }
}

/// Whether the branch ref has the given name and hash and no upstream status.
pub open spec fn branch_ref_is(b: BranchRef, name: Seq<char>, hash: Option<Seq<char>>) -> bool {
    b.name@ == name && opt_view(b.commit_hash) == hash && b.upstream_status is None
}

/// The branch a `for-each-ref` line names, when the query matches it.
pub fn printable_branch_ref(reference: &str, matcher: &QueryMatcher, kind: BranchRefKind) -> (r: Option<BranchRef>)
    ensures
        match (r, printable_branch_ref_spec(reference@, *matcher, kind)) {
            (Some(b), Some((name, hash))) => branch_ref_is(b, name, hash),
            (None, None) => true,
            _ => false,
        },
{
    let (name_part, commit_hash) = match split_once(reference, '\t') {
        Some((r, h)) => (r, Some(h)),
        None => (string_of(reference), None),
    };
    match kind {
        BranchRefKind::Local => match strip_prefix(name_part.as_str(), "refs/heads/") {
            Some(local) => {
                if matcher.is_match(local.as_str()) {
                    Some(BranchRef { name: local, commit_hash, upstream_status: None })
                } else {
                    None
                }
            },
            None => None,
        },
        BranchRefKind::Remote => match strip_prefix(name_part.as_str(), "refs/remotes/") {
            Some(remote) => match split_once(remote.as_str(), '/') {
                Some((_, remote_branch)) => {
                    if matcher.is_match(remote_branch.as_str()) || matcher.is_match(remote.as_str()) {
                        Some(BranchRef { name: remote, commit_hash, upstream_status: None })
                    } else {
                        None
                    }
                },
                None => None,
            },
            None => None,
        },
    }
}

/// The hash of the first `ls-remote` line whose ref, after a tab, is `expected`.
pub open spec fn ls_remote_hash_spec(lines: Seq<Seq<char>>, expected: Seq<char>) -> Option<Seq<char>>
    decreases lines.len(),
{
    if lines.len() == 0 {
        None
    } else {
        match split_once_spec(lines[0], '\t') {
            Some((hash, reference)) => if reference == expected {
                Some(hash)
            } else {
                ls_remote_hash_spec(lines.drop_first(), expected)
            },
            None => ls_remote_hash_spec(lines.drop_first(), expected),
        }
    }
}

/// The hash `git ls-remote` reports for `expected_ref`.
pub fn parse_ls_remote_hash(output: &str, expected_ref: &str) -> (r: Option<String>)
    ensures
        opt_view(r) == ls_remote_hash_spec(lines_spec(output@), expected_ref@),
{
    let lines = lines(output);
    let ghost ls = lines_spec(output@);
    let mut i: usize = 0;
    assert(ls.skip(0) =~= ls);
    while i < lines.len()
        invariant
            i <= lines@.len(),
            ls == lines_spec(output@),
            lines@.map_values(|l: String| l@) == ls,
            ls_remote_hash_spec(ls, expected_ref@) == ls_remote_hash_spec(ls.skip(i as int), expected_ref@),
        decreases lines.len() - i,
    {
        assert(ls.skip(i as int)[0] == lines@[i as int]@);
        assert(ls.skip(i as int).drop_first() =~= ls.skip(i + 1));
        match split_once(lines[i].as_str(), '\t') {
            Some((hash, reference)) => {
                if str_eq(reference.as_str(), expected_ref) {
                    return Some(hash);
                }
            },
            None => {},
        }
        i += 1;
    }
    None
}

/// A hash as it is shown: not at all, its first 7 chars, or in full.
pub open spec fn display_hash_spec(hash: Seq<char>, mode: BranchHash) -> Option<Seq<char>> {
    match mode {
        BranchHash::Omitted => None,
        BranchHash::Short => Some(if hash.len() <= 7 { hash } else { hash.take(7) }),
        BranchHash::Full => Some(hash),
    }
}

/// A hash as it is shown in the given mode.
pub fn display_hash(hash: &str, mode: BranchHash) -> (r: Option<String>)
    ensures
        opt_view(r) == display_hash_spec(hash@, mode),
{
    match mode {
        BranchHash::Omitted => None,
        BranchHash::Short => {
            let v = chars_of(hash);
            let end = if v.len() <= 7 { v.len() } else { 7 };
            let s = string_from_chars(&v, 0, end);
            assert(v.len() <= 7 ==> s@ =~= hash@);
            assert(v.len() > 7 ==> s@ =~= hash@.take(7));
            Some(s)
        },
        BranchHash::Full => Some(string_of(hash)),
    }
}

/// The first two whitespace separated numbers of `output`.
pub open spec fn ahead_behind_spec(output: Seq<char>) -> Option<(u32, u32)> {
    match next_token(output, 0) {
        Some((t1, e1)) => match parse_u32_spec(t1) {
            Some(ahead) => match next_token(output, e1) {
                Some((t2, _)) => match parse_u32_spec(t2) {
                    Some(behind) => Some((ahead, behind)),
                    None => None,
                },
                None => None,
            },
            None => None,
        },
        None => None,
    }
}

/// The counts `git rev-list --left-right --count` prints.
pub fn parse_ahead_behind(output: &str) -> (r: Option<(u32, u32)>)
    ensures
        r == ahead_behind_spec(output@),
{
    let v = chars_of(output);
    let (t1, e1) = match next_token_in(&v, 0) {
        Some(x) => x,
        None => return None,
    };
    let ahead = match parse_u32(t1.as_str()) {
        Some(a) => a,
        None => return None,
    };
    let (t2, _) = match next_token_in(&v, e1) {
        Some(x) => x,
        None => return None,
    };
    let behind = match parse_u32(t2.as_str()) {
        Some(b) => b,
        None => return None,
    };
    Some((ahead, behind))
}

/// The freshness that ahead and behind counts describe.
pub open spec fn freshness_of_counts(ahead: u32, behind: u32) -> BranchFreshness {
    if ahead == 0 && behind == 0 {
        BranchFreshness::UpToDate
    } else if behind == 0 {
        BranchFreshness::Ahead(ahead)
    } else if ahead == 0 {
        BranchFreshness::Behind(behind)
    } else {
        BranchFreshness::Diverged { ahead, behind }
    }
}

/// The freshness from the output of `git rev-list --left-right --count`, or `Different` when
/// there is no output or it cannot be read.
pub fn freshness_from_counts(counts: Option<&str>) -> (r: BranchFreshness)
    ensures
        r == match counts {
            Some(c) => match ahead_behind_spec(c@) {
                Some((a, b)) => freshness_of_counts(a, b),
                None => BranchFreshness::Different,
            },
            None => BranchFreshness::Different,
        },
{
    let counts = match counts {
        Some(c) => c,
        None => return BranchFreshness::Different,
    };
    match parse_ahead_behind(counts) {
        None => BranchFreshness::Different,
        Some((ahead, behind)) => {
            if ahead == 0 && behind == 0 {
                BranchFreshness::UpToDate
            } else if behind == 0 {
                BranchFreshness::Ahead(ahead)
            } else if ahead == 0 {
                BranchFreshness::Behind(behind)
            } else {
                BranchFreshness::Diverged { ahead, behind }
            }
        },
    }
}

} // verus!

verus! {

/* Steps of the upstream and origin comparisons */

/// The `git rev-parse` flag that prints a hash in the given mode, if one is printed.
pub fn rev_parse_hash_flag(hash: BranchHash) -> (r: Option<&'static str>)
    ensures
        match hash {
            BranchHash::Omitted => r is None,
            BranchHash::Short => r is Some && r->0@ == "--short"@,
            BranchHash::Full => r is Some && r->0@ == "--verify"@,
        },
{
    match hash {
        BranchHash::Omitted => None,
        BranchHash::Short => Some("--short"),
        BranchHash::Full => Some("--verify"),
    }
}

/// Command output without surrounding whitespace, when something is left.
pub open spec fn trimmed_nonempty_spec(output: Option<Seq<char>>) -> Option<Seq<char>> {
    match output {
        Some(o) => if trim_spec(o).len() > 0 { Some(trim_spec(o)) } else { None },
        None => None,
    }
}

/// The view of an optional string slice.
pub open spec fn opt_str_view(o: Option<&str>) -> Option<Seq<char>> {
    match o {
        Some(s) => Some(s@),
        None => None,
    }
}

/// Command output without surrounding whitespace, when something is left.
pub fn trimmed_nonempty(output: Option<&str>) -> (r: Option<String>)
    ensures
        opt_view(r) == trimmed_nonempty_spec(opt_str_view(output)),
{
    match output {
        Some(o) => {
            let t = trim(o);
            if !t.as_str().is_empty() {
                Some(t)
            } else {
                None
            }
        },
        None => None,
    }
}

/// The checked out branch from `git branch --show-current` output: none when the command failed
/// or printed only whitespace (a detached `HEAD`).
pub fn current_branch(output: Option<&str>) -> (r: Option<String>)
    ensures
        opt_view(r) == trimmed_nonempty_spec(opt_str_view(output)),
{
    trimmed_nonempty(output)
}

/// The hash of a revision in the given mode, from the output of `git rev-parse` with the flag of
/// `rev_parse_hash_flag`: none when hashes are not shown, else the trimmed output when there is
/// some.
pub fn branch_commit_hash(hash: BranchHash, output: Option<&str>) -> (r: Option<String>)
    ensures
        hash == BranchHash::Omitted ==> r is None,
        hash != BranchHash::Omitted ==> opt_view(r) == trimmed_nonempty_spec(opt_str_view(output)),
{
    match hash {
        BranchHash::Omitted => None,
        _ => trimmed_nonempty(output),
    }
}

/// `s` followed by `t`.
pub fn concat(s: &str, t: &str) -> (r: String)
    ensures
        r@ == s@ + t@,
{
    let mut r = string_of(s);
    push_str(&mut r, t);
    r
}

/// The revision that names a branch's upstream: `branch@{upstream}`.
pub fn upstream_ref(branch: &str) -> (r: String)
    ensures
        r@ == branch@ + "@{upstream}"@,
{
    concat(branch, "@{upstream}")
}

/// The symmetric difference range `a...b`.
pub fn symmetric_range(a: &str, b: &str) -> (r: String)
    ensures
        r@ == a@ + "..."@ + b@,
{
    let mut r = string_of(a);
    push_str(&mut r, "...");
    push_str(&mut r, b);
    r
}

/// The full ref of a local branch: `refs/heads/branch`.
pub fn local_branch_ref(branch: &str) -> (r: String)
    ensures
        r@ == "refs/heads/"@ + branch@,
{
    concat("refs/heads/", branch)
}

/// The message when the upstream counts of a branch cannot be read.
pub open spec fn upstream_parse_message(repo: Seq<char>, branch: Seq<char>) -> Seq<char> {
    "failed to parse upstream status for "@ + repo + " branch "@ + branch
}

/// The tracking status of `branch` against `upstream` from the output of
/// `git rev-list --left-right --count branch...upstream`: no upstream when there is no output, an
/// error when the counts cannot be read.
pub fn tracking_status(
    repo: &str,
    branch: &str,
    upstream: &str,
    upstream_hash: Option<String>,
    counts: Option<&str>,
) -> (r: Result<BranchUpstreamStatus, Error>)
    ensures
        match counts {
            None => r == Ok::<BranchUpstreamStatus, Error>(BranchUpstreamStatus::NoUpstream),
            Some(c) => match ahead_behind_spec(c@) {
                None => r is Err && r->Err_0.message() == upstream_parse_message(repo@, branch@),
                Some((a, b)) => r is Ok && match r->Ok_0 {
                    BranchUpstreamStatus::Tracking { upstream: u, upstream_hash: h, ahead, behind } =>
                        u@ == upstream@ && h == upstream_hash && ahead == a && behind == b,
                    _ => false,
                },
            },
        },
{
    let counts = match counts {
        Some(c) => c,
        None => return Ok(BranchUpstreamStatus::NoUpstream),
    };
    match parse_ahead_behind(counts) {
        Some((ahead, behind)) => Ok(BranchUpstreamStatus::Tracking {
            upstream: string_of(upstream),
            upstream_hash,
            ahead,
            behind,
        }),
        None => {
            let mut m = string_of("failed to parse upstream status for ");
            push_str(&mut m, repo);
            push_str(&mut m, " branch ");
            push_str(&mut m, branch);
            Err(Error::Message(m))
        },
    }
}

/// The status of `branch` against the live origin branch with the given full hash.
pub fn origin_status(branch: &str, remote_hash_full: &str, hash: BranchHash, freshness: BranchFreshness) -> (r: BranchUpstreamStatus)
    ensures
        match r {
            BranchUpstreamStatus::Origin { remote, remote_hash, freshness: f } =>
                remote@ == "origin/"@ + branch@ && opt_view(remote_hash) == display_hash_spec(remote_hash_full@, hash)
                    && f == freshness,
            _ => false,
        },
{
    BranchUpstreamStatus::Origin {
        remote: concat("origin/", branch),
        remote_hash: display_hash(remote_hash_full, hash),
        freshness,
    }
}

/* The branch matches of a repository */

/// The branches of a repository that a query matched.
pub struct BranchMatches {
    /// Whether the checked out branch matched.
    pub current: bool,
    /// The checked out branch.
    pub current_name: Option<String>,
    /// The commit of the checked out branch, when it matched and hashes are shown.
    pub current_hash: Option<String>,
    /// The freshness of the checked out branch, when it matched and freshness is shown.
    pub current_upstream_status: Option<BranchUpstreamStatus>,
    /// Matching local branches, in order.
    pub local: Vec<BranchRef>,
    /// Matching remote branches, in order.
    pub remote: Vec<BranchRef>,
}

impl BranchMatches {
    /// Whether there is something to report for the search mode.
    pub open spec fn spec_has_matches(&self, mode: BranchSearch) -> bool {
        match mode {
            BranchSearch::Current => self.current,
            BranchSearch::Local => self.local@.len() > 0,
            BranchSearch::Remote => self.remote@.len() > 0,
            BranchSearch::All => self.current || self.local@.len() > 0 || self.remote@.len() > 0,
        }
    }

    /// Whether there is something to report for the search mode.
    pub fn has_matches(&self, mode: BranchSearch) -> (r: bool)
        ensures
            r == self.spec_has_matches(mode),
    {
        match mode {
            BranchSearch::Current => self.current,
            BranchSearch::Local => self.local.len() > 0,
            BranchSearch::Remote => self.remote.len() > 0,
            BranchSearch::All => self.current || self.local.len() > 0 || self.remote.len() > 0,
        }
    }
}

} // verus!

verus! {

/* Reporting branch matches */

/// The chars of each line.
pub open spec fn lines_view(v: Seq<String>) -> Seq<Seq<char>> {
    v.map_values(|s: String| s@)
}

/// An indented `label: value` line with the label styled.
pub open spec fn field_line(style: OutputStyle, indent: Seq<char>, label: Seq<char>, value: Seq<char>) -> Seq<char> {
    indent + style.label_spec(label) + ": "@ + value
}

/// An indented `label: value` line with the label styled.
pub fn format_field_line(style: &OutputStyle, indent: &str, label: &str, value: &str) -> (r: String)
    ensures
        r@ == field_line(*style, indent@, label@, value@),
{
    let mut r = string_of(indent);
    let l = style.label(label);
    push_str(&mut r, l.as_str());
    push_str(&mut r, ": ");
    push_str(&mut r, value);
    r
}

/// A branch name with the ranges the query matches highlighted.
pub open spec fn branch_name_text(style: OutputStyle, q: QueryMatcher, name: Seq<char>) -> Seq<char> {
    style.highlight_spec(name, q.spec_branch_match_ranges(name), HighlightStyle::Branch)
}

/// The `commit` line of a branch, when it has a hash.
pub open spec fn hash_lines(style: OutputStyle, hash: Option<String>) -> Seq<Seq<char>> {
    match hash {
        Some(h) => seq![field_line(style, "    "@, "commit"@, style.commit_spec(h@))],
        None => seq![],
    }
}

/// The `status` line of a branch, when it has an upstream status.
pub open spec fn status_lines(style: OutputStyle, status: Option<BranchUpstreamStatus>) -> Seq<Seq<char>> {
    match status {
        Some(s) => seq![field_line(style, "    "@, "status"@, style.status_spec(status_text(s)))],
        None => seq![],
    }
}

/// The lines that describe the checked out branch.
pub open spec fn current_branch_lines_spec(m: BranchMatches, q: QueryMatcher, style: OutputStyle) -> Seq<Seq<char>> {
    (match m.current_name {
        Some(b) => seq![field_line(style, "  "@, "current"@, branch_name_text(style, q, b@))],
        None => seq![],
    }) + hash_lines(style, m.current_hash) + status_lines(style, m.current_upstream_status)
}

/// The lines that describe a matching branch ref of the given kind.
pub open spec fn branch_ref_lines_spec(kind: Seq<char>, b: BranchRef, current: bool, q: QueryMatcher, style: OutputStyle) -> Seq<Seq<char>> {
    seq![field_line(style, "  "@, kind, branch_name_text(style, q, b.name@))] + hash_lines(style, b.commit_hash)
        + status_lines(style, b.upstream_status) + (if current {
        seq![field_line(style, "    "@, "current"@, style.current_spec("yes"@))]
    } else {
        seq![]
    })
}

fn push_hash_line(out: &mut Vec<String>, style: &OutputStyle, hash: &Option<String>)
    ensures
        lines_view(final(out)@) == lines_view(old(out)@) + hash_lines(*style, *hash),
{
    let ghost before = lines_view(out@);
    match hash {
        Some(h) => {
            let c = style.commit(h.as_str());
            let line = format_field_line(style, "    ", "commit", c.as_str());
            out.push(line);
            assert(lines_view(out@) =~= before + hash_lines(*style, *hash));
        },
        None => {
            assert(lines_view(out@) =~= before + hash_lines(*style, *hash));
        },
    }
}

fn push_status_line(out: &mut Vec<String>, style: &OutputStyle, status: &Option<BranchUpstreamStatus>)
    ensures
        lines_view(final(out)@) == lines_view(old(out)@) + status_lines(*style, *status),
{
    let ghost before = lines_view(out@);
    match status {
        Some(s) => {
            let text = format_branch_upstream_status(s);
            let styled = style.status(text.as_str());
            let line = format_field_line(style, "    ", "status", styled.as_str());
            out.push(line);
            assert(lines_view(out@) =~= before + status_lines(*style, *status));
        },
        None => {
            assert(lines_view(out@) =~= before + status_lines(*style, *status));
        },
    }
}

/// Appends the lines that describe the checked out branch.
pub fn current_branch_lines(out: &mut Vec<String>, matches: &BranchMatches, matcher: &QueryMatcher, style: &OutputStyle)
    ensures
        lines_view(final(out)@) == lines_view(old(out)@) + current_branch_lines_spec(*matches, *matcher, *style),
{
    let ghost before = lines_view(out@);
    match &matches.current_name {
        Some(branch) => {
            let name = matcher.highlight_branch_name(branch.as_str(), style);
            let line = format_field_line(style, "  ", "current", name.as_str());
            out.push(line);
        },
        None => {},
    }
    let ghost mid = lines_view(out@);
    assert(mid =~= before + (match matches.current_name {
        Some(b) => seq![field_line(*style, "  "@, "current"@, branch_name_text(*style, *matcher, b@))],
        None => Seq::<Seq<char>>::empty(),
    }));
    push_hash_line(out, style, &matches.current_hash);
    push_status_line(out, style, &matches.current_upstream_status);
    assert(lines_view(out@) =~= before + current_branch_lines_spec(*matches, *matcher, *style));
}

/// Appends the lines that describe a matching branch ref of the given kind.
pub fn branch_ref_lines(out: &mut Vec<String>, kind: &str, branch: &BranchRef, current: bool, matcher: &QueryMatcher, style: &OutputStyle)
    ensures
        lines_view(final(out)@) == lines_view(old(out)@) + branch_ref_lines_spec(kind@, *branch, current, *matcher, *style),
{
    let ghost before = lines_view(out@);
    let name = matcher.highlight_branch_name(branch.name.as_str(), style);
    let line = format_field_line(style, "  ", kind, name.as_str());
    out.push(line);
    assert(lines_view(out@) =~= before + seq![field_line(*style, "  "@, kind@, branch_name_text(*style, *matcher, branch.name@))]);
    push_hash_line(out, style, &branch.commit_hash);
    push_status_line(out, style, &branch.upstream_status);
    let ghost mid = lines_view(out@);
    if current {
        let yes = style.current("yes");
        let line = format_field_line(style, "    ", "current", yes.as_str());
        out.push(line);
    }
    assert(lines_view(out@) =~= mid + (if current {
        seq![field_line(*style, "    "@, "current"@, style.current_spec("yes"@))]
    } else {
        Seq::<Seq<char>>::empty()
    }));
    assert(lines_view(out@) =~= before + branch_ref_lines_spec(kind@, *branch, current, *matcher, *style));
}

/// Whether `b` is the checked out branch.
pub open spec fn is_current_branch(m: BranchMatches, b: BranchRef) -> bool {
    m.current_name is Some && m.current_name->0@ == b.name@
}

/// Whether the checked out branch is `name`.
fn names_current(matches: &BranchMatches, name: &String) -> (r: bool)
    ensures
        r == (matches.current_name is Some && matches.current_name->0@ == name@),
{
    match &matches.current_name {
        Some(c) => str_eq(c.as_str(), name.as_str()),
        None => false,
    }
}

/// The lines of each branch ref of the given kind.
pub open spec fn refs_lines_spec(kind: Seq<char>, refs: Seq<BranchRef>, m: BranchMatches, mark_current: bool, q: QueryMatcher, style: OutputStyle) -> Seq<Seq<char>>
    decreases refs.len(),
{
    if refs.len() == 0 {
        seq![]
    } else {
        refs_lines_spec(kind, refs.drop_last(), m, mark_current, q, style)
            + branch_ref_lines_spec(kind, refs.last(), mark_current && is_current_branch(m, refs.last()), q, style)
    }
}

fn refs_lines(out: &mut Vec<String>, kind: &str, refs: &Vec<BranchRef>, matches: &BranchMatches, mark_current: bool, matcher: &QueryMatcher, style: &OutputStyle)
    ensures
        lines_view(final(out)@) == lines_view(old(out)@) + refs_lines_spec(kind@, refs@, *matches, mark_current, *matcher, *style),
{
    let ghost before = lines_view(out@);
    let mut i: usize = 0;
    while i < refs.len()
        invariant
            i <= refs.len(),
            lines_view(out@) == before + refs_lines_spec(kind@, refs@.take(i as int), *matches, mark_current, *matcher, *style),
        decreases refs.len() - i,
    {
        let current = mark_current && names_current(matches, &refs[i].name);
        branch_ref_lines(out, kind, &refs[i], current, matcher, style);
        assert(refs@.take(i + 1).drop_last() =~= refs@.take(i as int));
        assert(refs@.take(i + 1).last() == refs@[i as int]);
        i += 1;
    }
    assert(refs@.take(refs.len() as int) =~= refs@);
}

/// Whether a local branch of the matches is the checked out one.
pub open spec fn current_among_local(m: BranchMatches) -> bool {
    exists|i: int| 0 <= i < m.local@.len() && is_current_branch(m, #[trigger] m.local@[i])
}

/// The report of a repository's branch matches: nothing when there is nothing to report for the
/// search mode; otherwise the repository line, then the checked out branch (for `current`, and for
/// `all` when no local branch is it), the local branches (marking the checked out one), and the
/// remote branches.
pub open spec fn branch_report_spec(repo: Seq<char>, m: BranchMatches, q: QueryMatcher, search: BranchSearch, style: OutputStyle) -> Seq<Seq<char>> {
    if !m.spec_has_matches(search) {
        seq![]
    } else {
        seq![style.repo_spec(repo)] + match search {
            BranchSearch::Current => current_branch_lines_spec(m, q, style),
            BranchSearch::Local => refs_lines_spec("local"@, m.local@, m, true, q, style),
            BranchSearch::Remote => refs_lines_spec("remote"@, m.remote@, m, false, q, style),
            BranchSearch::All => (if m.current && !current_among_local(m) {
                current_branch_lines_spec(m, q, style)
            } else {
                seq![]
            }) + refs_lines_spec("local"@, m.local@, m, true, q, style) + refs_lines_spec("remote"@, m.remote@, m, false, q, style),
        }
    }
}

/// The lines that report a repository's branch matches.
pub fn branch_report(repo: &str, matches: &BranchMatches, matcher: &QueryMatcher, search: BranchSearch, style: &OutputStyle) -> (r: Vec<String>)
    ensures
        lines_view(r@) == branch_report_spec(repo@, *matches, *matcher, search, *style),
{
    let mut out: Vec<String> = Vec::new();
    if !matches.has_matches(search) {
        assert(lines_view(out@) =~= Seq::<Seq<char>>::empty());
        return out;
    }
    out.push(style.repo(repo));
    let ghost first = lines_view(out@);
    assert(first =~= seq![style.repo_spec(repo@)]);
    match search {
        BranchSearch::Current => current_branch_lines(&mut out, matches, matcher, style),
        BranchSearch::Local => refs_lines(&mut out, "local", &matches.local, matches, true, matcher, style),
        BranchSearch::Remote => refs_lines(&mut out, "remote", &matches.remote, matches, false, matcher, style),
        BranchSearch::All => {
            let mut any_local_current = false;
            let mut i: usize = 0;
            while i < matches.local.len()
                invariant
                    i <= matches.local@.len(),
                    any_local_current == exists|k: int| 0 <= k < i && is_current_branch(*matches, #[trigger] matches.local@[k]),
                decreases matches.local.len() - i,
            {
                if names_current(matches, &matches.local[i].name) {
                    any_local_current = true;
                }
                i += 1;
            }
            let ghost before = lines_view(out@);
            if matches.current && !any_local_current {
                current_branch_lines(&mut out, matches, matcher, style);
            }
            assert(lines_view(out@) =~= before + (if matches.current && !current_among_local(*matches) {
                current_branch_lines_spec(*matches, *matcher, *style)
            } else {
                Seq::<Seq<char>>::empty()
            }));
            refs_lines(&mut out, "local", &matches.local, matches, true, matcher, style);
            refs_lines(&mut out, "remote", &matches.remote, matches, false, matcher, style);
        },
    }
    out
}

} // verus!

verus! {

/* Ordering of branch refs */

/// The order of optional strings: none first.
pub open spec fn opt_lt(a: Option<Seq<char>>, b: Option<Seq<char>>) -> bool {
    match (a, b) {
        (None, Some(_)) => true,
        (Some(x), Some(y)) => str_lt(x, y),
        _ => false,
    }
}

/// The name and hash of a branch ref, by which refs are ordered.
pub open spec fn ref_key(b: BranchRef) -> (Seq<char>, Option<Seq<char>>) {
    (b.name@, opt_view(b.commit_hash))
}

/// The order of branch refs: by name, then by hash.
pub open spec fn key_lt(x: (Seq<char>, Option<Seq<char>>), y: (Seq<char>, Option<Seq<char>>)) -> bool {
    str_lt(x.0, y.0) || (x.0 == y.0 && opt_lt(x.1, y.1))
}

proof fn lemma_key_lt_order(x: (Seq<char>, Option<Seq<char>>), y: (Seq<char>, Option<Seq<char>>), z: (Seq<char>, Option<Seq<char>>))
    ensures
        !key_lt(x, x),
        key_lt(x, y) && key_lt(y, z) ==> key_lt(x, z),
        key_lt(x, y) || key_lt(y, x) || x == y,
{
    lemma_str_lt_irreflexive(x.0);
    if x.1 is Some { lemma_str_lt_irreflexive(x.1->0); }
    if key_lt(x, y) && key_lt(y, z) {
        if str_lt(x.0, y.0) && str_lt(y.0, z.0) { lemma_str_lt_transitive(x.0, y.0, z.0); }
        if x.1 is Some && y.1 is Some && z.1 is Some && str_lt(x.1->0, y.1->0) && str_lt(y.1->0, z.1->0) {
            lemma_str_lt_transitive(x.1->0, y.1->0, z.1->0);
        }
    }
    lemma_str_lt_total(x.0, y.0);
    if x.1 is Some && y.1 is Some {
        lemma_str_lt_total(x.1->0, y.1->0);
    }
}

/// Whether `x` comes before `y`: by name, then by hash.
fn ref_less(x: &BranchRef, y: &BranchRef) -> (r: bool)
    ensures
        r == key_lt(ref_key(*x), ref_key(*y)),
{
    let xn = chars_of(x.name.as_str());
    let yn = chars_of(y.name.as_str());
    if str_less(&xn, &yn) {
        return true;
    }
    if !chars_eq(&xn, &yn) {
        return false;
    }
    match (&x.commit_hash, &y.commit_hash) {
        (None, Some(_)) => true,
        (Some(a), Some(b)) => {
            let av = chars_of(a.as_str());
            let bv = chars_of(b.as_str());
            str_less(&av, &bv)
        },
        _ => false,
    }
}

/// Whether the refs are in strictly increasing order.
pub open spec fn refs_sorted(r: Seq<BranchRef>) -> bool {
    forall|i: int, j: int| 0 <= i < j < r.len() ==> key_lt(ref_key(#[trigger] r[i]), ref_key(#[trigger] r[j]))
}

/// Whether one of the refs has the key.
pub open spec fn has_key(r: Seq<BranchRef>, k: (Seq<char>, Option<Seq<char>>)) -> bool {
    exists|i: int| 0 <= i < r.len() && ref_key(#[trigger] r[i]) == k
}

/// Inserts `x` into the sorted refs unless a ref with its key is there already, as inserting into
/// a `BTreeSet` does for refs that differ only in their key.
fn insert_sorted(refs: &mut Vec<BranchRef>, x: BranchRef)
    requires
        refs_sorted(old(refs)@),
    ensures
        refs_sorted(final(refs)@),
        forall|k: (Seq<char>, Option<Seq<char>>)| has_key(final(refs)@, k) <==> (has_key(old(refs)@, k) || k == ref_key(x)),
        forall|y: BranchRef| final(refs)@.contains(y) ==> old(refs)@.contains(y) || y == x,
{
    let ghost before = refs@;
    let mut p: usize = 0;
    while p < refs.len() && ref_less(&refs[p], &x)
        invariant
            p <= refs@.len(),
            refs@ == before,
            forall|k: int| 0 <= k < p ==> key_lt(ref_key(#[trigger] refs@[k]), ref_key(x)),
        decreases refs.len() - p,
    {
        p += 1;
    }
    if p < refs.len() && !ref_less(&x, &refs[p]) {
        // Neither comes first: a ref with the same key is there.
        proof { lemma_key_lt_order(ref_key(refs@[p as int]), ref_key(x), ref_key(x)); }
        assert(ref_key(refs@[p as int]) == ref_key(x));
        assert forall|k: (Seq<char>, Option<Seq<char>>)| has_key(refs@, k) <==> (has_key(before, k) || k == ref_key(x)) by {
            if k == ref_key(x) {
                assert(ref_key(refs@[p as int]) == k);
            }
        }
        return;
    }
    let ghost xk = ref_key(x);
    refs.insert(p, x);
    assert forall|a: int, b: int| 0 <= a < b < refs@.len() implies key_lt(ref_key(#[trigger] refs@[a]), ref_key(#[trigger] refs@[b])) by {
        if a < p && b > p {
            assert(refs@[a] == before[a]);
            assert(refs@[b] == before[b - 1]);
        } else if a < p && b == p {
        } else if a == p && b > p {
            assert(refs@[b] == before[b - 1]);
            lemma_key_lt_order(xk, ref_key(before[p as int]), ref_key(before[b - 1]));
            if b - 1 > p {
                assert(key_lt(ref_key(before[p as int]), ref_key(before[b - 1])));
            }
        } else if a > p {
            assert(refs@[a] == before[a - 1]);
            assert(refs@[b] == before[b - 1]);
        }
    }
    assert forall|k: (Seq<char>, Option<Seq<char>>)| has_key(refs@, k) <==> (has_key(before, k) || k == xk) by {
        if has_key(refs@, k) {
            let i = choose|i: int| 0 <= i < refs@.len() && ref_key(#[trigger] refs@[i]) == k;
            if i < p { assert(refs@[i] == before[i]); } else if i > p { assert(refs@[i] == before[i - 1]); }
        }
        if has_key(before, k) {
            let i = choose|i: int| 0 <= i < before.len() && ref_key(#[trigger] before[i]) == k;
            if i < p { assert(refs@[i] == before[i]); } else { assert(refs@[i + 1] == before[i]); }
        }
        if k == xk {
            assert(refs@[p as int] == x);
        }
    }
    assert forall|y: BranchRef| refs@.contains(y) implies before.contains(y) || y == x by {
        let i = choose|i: int| 0 <= i < refs@.len() && refs@[i] == y;
        if i < p { assert(before[i] == y); } else if i > p { assert(before[i - 1] == y); }
    }
}

/// The branch refs that `for-each-ref` lines name and the query matches, in increasing order of
/// name and hash, one per name and hash.
pub open spec fn printable_key_of(lines: Seq<Seq<char>>, m: QueryMatcher, kind: BranchRefKind, k: (Seq<char>, Option<Seq<char>>)) -> bool {
    exists|i: int| 0 <= i < lines.len() && #[trigger] printable_branch_ref_spec(lines[i], m, kind) == Some(k)
}

/// The matching branch refs of `git for-each-ref` output, ordered and without repeats, as
/// collecting them into a `BTreeSet` gives them.
pub fn matching_branch_refs(output: &str, matcher: &QueryMatcher, kind: BranchRefKind) -> (r: Vec<BranchRef>)
    ensures
        refs_sorted(r@),
        forall|k: (Seq<char>, Option<Seq<char>>)| has_key(r@, k) <==> printable_key_of(lines_spec(output@), *matcher, kind, k),
        forall|i: int| 0 <= i < r@.len() ==> (#[trigger] r@[i]).upstream_status is None,
{
    let ls = lines(output);
    let ghost lv = lines_spec(output@);
    let mut refs: Vec<BranchRef> = Vec::new();
    let mut i: usize = 0;
    while i < ls.len()
        invariant
            i <= ls@.len(),
            ls@.map_values(|l: String| l@) == lv,
            refs_sorted(refs@),
            forall|k: (Seq<char>, Option<Seq<char>>)| has_key(refs@, k) <==> printable_key_of(lv.take(i as int), *matcher, kind, k),
            forall|j: int| 0 <= j < refs@.len() ==> (#[trigger] refs@[j]).upstream_status is None,
        decreases ls.len() - i,
    {
        let ghost t0 = lv.take(i as int);
        let ghost t1 = lv.take(i + 1);
        assert(t1 =~= t0.push(ls@[i as int]@));
        let ghost before = refs@;
        match printable_branch_ref(ls[i].as_str(), matcher, kind) {
            Some(b) => {
                let ghost bk = ref_key(b);
                insert_sorted(&mut refs, b);
                assert forall|j: int| 0 <= j < refs@.len() implies (#[trigger] refs@[j]).upstream_status is None by {
                    assert(refs@.contains(refs@[j]));
                    if refs@[j] != b {
                        let jj = choose|jj: int| 0 <= jj < before.len() && before[jj] == refs@[j];
                    }
                }
                assert forall|k: (Seq<char>, Option<Seq<char>>)| has_key(refs@, k) <==> printable_key_of(t1, *matcher, kind, k) by {
                    if printable_key_of(t1, *matcher, kind, k) {
                        let j = choose|j: int| 0 <= j < t1.len() && #[trigger] printable_branch_ref_spec(t1[j], *matcher, kind) == Some(k);
                        if j < i { assert(t0[j] == t1[j]); assert(printable_key_of(t0, *matcher, kind, k)); }
                    }
                    if printable_key_of(t0, *matcher, kind, k) {
                        let j = choose|j: int| 0 <= j < t0.len() && #[trigger] printable_branch_ref_spec(t0[j], *matcher, kind) == Some(k);
                        assert(t1[j] == t0[j]);
                    }
                    if k == bk {
                        assert(printable_branch_ref_spec(t1[i as int], *matcher, kind) == Some(k));
                    }
                }
            },
            None => {
                assert forall|k: (Seq<char>, Option<Seq<char>>)| has_key(refs@, k) <==> printable_key_of(t1, *matcher, kind, k) by {
                    if printable_key_of(t1, *matcher, kind, k) {
                        let j = choose|j: int| 0 <= j < t1.len() && #[trigger] printable_branch_ref_spec(t1[j], *matcher, kind) == Some(k);
                        if j < i { assert(t0[j] == t1[j]); assert(printable_key_of(t0, *matcher, kind, k)); }
                    }
                    if printable_key_of(t0, *matcher, kind, k) {
                        let j = choose|j: int| 0 <= j < t0.len() && #[trigger] printable_branch_ref_spec(t0[j], *matcher, kind) == Some(k);
                        assert(t1[j] == t0[j]);
                    }
                }
            },
        }
        i += 1;
    }
    assert(lv.take(ls.len() as int) =~= lv);
    refs
}

} // verus!

verus! {

/* Laws */

/// A `for-each-ref` line: the ref, then a tab and the commit hash when there is one.
pub open spec fn ref_line(reference: Seq<char>, hash: Option<Seq<char>>) -> Seq<char> {
    match hash {
        Some(h) => reference + seq!['\t'] + h,
        None => reference,
    }
}

/// The ref and hash of a line are the ref and hash it was written from.
proof fn lemma_ref_and_hash_of_line(reference: Seq<char>, hash: Option<Seq<char>>)
    requires
        !reference.contains('\t'),
    ensures
        ref_and_hash(ref_line(reference, hash)) == (reference, hash),
{
    match hash {
        Some(h) => crate::text::lemma_split_at_first(reference, '\t', h),
        None => crate::text::lemma_split_without(reference, '\t'),
    }
}

/// A text with a prefix strips to what follows it.
proof fn lemma_strip_own_prefix(p: Seq<char>, rest: Seq<char>)
    ensures
        strip_prefix_spec(p + rest, p) == Some(rest),
{
    assert((p + rest).take(p.len() as int) =~= p);
    assert((p + rest).skip(p.len() as int) =~= rest);
}

/// A remote-tracking ref `refs/remotes/<remote>/<branch>` is reported, under its full name
/// `<remote>/<branch>` and with its hash, exactly when the query matches the branch name or the
/// full name.
pub proof fn law_remote_ref_matches_branch_or_full_name(m: QueryMatcher, remote: Seq<char>, branch: Seq<char>, hash: Option<Seq<char>>)
    requires
        !remote.contains('/'),
        !remote.contains('\t'),
        !branch.contains('\t'),
    ensures
        printable_branch_ref_spec(ref_line("refs/remotes/"@ + remote + seq!['/'] + branch, hash), m, BranchRefKind::Remote)
            == (if m.spec_is_match(branch) || m.spec_is_match(remote + seq!['/'] + branch) {
                Some((remote + seq!['/'] + branch, hash))
            } else {
                None
            }),
{
    reveal_strlit("refs/remotes/");
    let full = remote + seq!['/'] + branch;
    let reference = "refs/remotes/"@ + full;
    assert("refs/remotes/"@ + remote + seq!['/'] + branch =~= reference);
    assert(!reference.contains('\t')) by {
        if reference.contains('\t') {
            let i = choose|i: int| 0 <= i < reference.len() && reference[i] == '\t';
            if i < 13 {
                assert(reference[i] == "refs/remotes/"@[i]);
            } else if i < 13 + remote.len() {
                assert(reference[i] == remote[i - 13]);
                assert(remote.contains('\t'));
            } else if i == 13 + remote.len() {
                assert(reference[i] == '/');
            } else {
                assert(reference[i] == branch[i - 14 - remote.len()]);
                assert(branch.contains('\t'));
            }
        }
    }
    lemma_ref_and_hash_of_line(reference, hash);
    lemma_strip_own_prefix("refs/remotes/"@, full);
    crate::text::lemma_split_at_first(remote, '/', branch);
}

/// A local ref `refs/heads/<branch>` is reported, under its name and with its hash, exactly when
/// the query matches the name.
pub proof fn law_local_ref_matches_name(m: QueryMatcher, branch: Seq<char>, hash: Option<Seq<char>>)
    requires
        !branch.contains('\t'),
    ensures
        printable_branch_ref_spec(ref_line("refs/heads/"@ + branch, hash), m, BranchRefKind::Local)
            == (if m.spec_is_match(branch) { Some((branch, hash)) } else { None }),
{
    reveal_strlit("refs/heads/");
    let reference = "refs/heads/"@ + branch;
    assert(!reference.contains('\t')) by {
        if reference.contains('\t') {
            let i = choose|i: int| 0 <= i < reference.len() && reference[i] == '\t';
            if i < 11 {
                assert(reference[i] == "refs/heads/"@[i]);
            } else {
                assert(reference[i] == branch[i - 11]);
                assert(branch.contains('\t'));
            }
        }
    }
    lemma_ref_and_hash_of_line(reference, hash);
    lemma_strip_own_prefix("refs/heads/"@, branch);
}

/// The remote search reports nothing without matching remote refs; with one, the repository and
/// then that ref as `remote`.
pub proof fn law_remote_report_of_one_ref(repo: Seq<char>, m: BranchMatches, b: BranchRef, q: QueryMatcher, style: OutputStyle)
    ensures
        m.remote@.len() == 0 ==> branch_report_spec(repo, m, q, BranchSearch::Remote, style) == Seq::<Seq<char>>::empty(),
        m.remote@ == seq![b] ==> branch_report_spec(repo, m, q, BranchSearch::Remote, style)
            == seq![style.repo_spec(repo)] + branch_ref_lines_spec("remote"@, b, false, q, style),
{
    if m.remote@ == seq![b] {
        assert(m.remote@.drop_last() =~= Seq::<BranchRef>::empty());
        assert(m.remote@.last() == b);
        assert(refs_lines_spec("remote"@, Seq::<BranchRef>::empty(), m, false, q, style) == Seq::<Seq<char>>::empty());
        assert(refs_lines_spec("remote"@, m.remote@, m, false, q, style)
            == branch_ref_lines_spec("remote"@, b, false, q, style));
        assert(Seq::<Seq<char>>::empty() + branch_ref_lines_spec("remote"@, b, false, q, style)
            =~= branch_ref_lines_spec("remote"@, b, false, q, style));
    }
}

/// One more matching remote ref adds its lines, as `remote`, at the end of the remote search's
/// report.
pub proof fn law_remote_report_adds_each_ref(
    repo: Seq<char>,
    m1: BranchMatches,
    m2: BranchMatches,
    b: BranchRef,
    q: QueryMatcher,
    style: OutputStyle,
)
    requires
        m1.remote@.len() > 0,
        m2.remote@ == m1.remote@.push(b),
    ensures
        branch_report_spec(repo, m2, q, BranchSearch::Remote, style)
            == branch_report_spec(repo, m1, q, BranchSearch::Remote, style) + branch_ref_lines_spec("remote"@, b, false, q, style),
{
    assert(m2.remote@.drop_last() =~= m1.remote@);
    let head = seq![style.repo_spec(repo)];
    let prev = refs_lines_spec("remote"@, m1.remote@, m1, false, q, style);
    let more = branch_ref_lines_spec("remote"@, b, false, q, style);
    assert(refs_lines_spec("remote"@, m1.remote@, m2, false, q, style) == prev) by {
        lemma_refs_lines_unmarked(m1.remote@, m1, m2, q, style);
    }
    assert(head + (prev + more) =~= (head + prev) + more);
}

/// Unmarked ref lines do not depend on the rest of the matches.
proof fn lemma_refs_lines_unmarked(refs: Seq<BranchRef>, m1: BranchMatches, m2: BranchMatches, q: QueryMatcher, style: OutputStyle)
    ensures
        refs_lines_spec("remote"@, refs, m1, false, q, style) == refs_lines_spec("remote"@, refs, m2, false, q, style),
{
    lemma_refs_lines_same_current("remote"@, refs, m1, m2, false, q, style);
}

/// Ref lines depend on the rest of the matches only through the checked out branch, and only
/// when it is marked.
proof fn lemma_refs_lines_same_current(
    kind: Seq<char>,
    refs: Seq<BranchRef>,
    m1: BranchMatches,
    m2: BranchMatches,
    mark: bool,
    q: QueryMatcher,
    style: OutputStyle,
)
    requires
        mark ==> m1.current_name == m2.current_name,
    ensures
        refs_lines_spec(kind, refs, m1, mark, q, style) == refs_lines_spec(kind, refs, m2, mark, q, style),
    decreases refs.len(),
{
    if refs.len() > 0 {
        lemma_refs_lines_same_current(kind, refs.drop_last(), m1, m2, mark, q, style);
    }
}

/// The local search reports nothing without matching local refs; with one, the repository and
/// then that ref as `local`, marked current when it is the checked out branch.
pub proof fn law_local_report_of_one_ref(repo: Seq<char>, m: BranchMatches, b: BranchRef, q: QueryMatcher, style: OutputStyle)
    ensures
        m.local@.len() == 0 ==> branch_report_spec(repo, m, q, BranchSearch::Local, style) == Seq::<Seq<char>>::empty(),
        m.local@ == seq![b] ==> branch_report_spec(repo, m, q, BranchSearch::Local, style)
            == seq![style.repo_spec(repo)] + branch_ref_lines_spec("local"@, b, is_current_branch(m, b), q, style),
{
    if m.local@ == seq![b] {
        assert(m.local@.drop_last() =~= Seq::<BranchRef>::empty());
        assert(m.local@.last() == b);
        assert(refs_lines_spec("local"@, Seq::<BranchRef>::empty(), m, true, q, style) == Seq::<Seq<char>>::empty());
        assert(refs_lines_spec("local"@, m.local@, m, true, q, style)
            == branch_ref_lines_spec("local"@, b, is_current_branch(m, b), q, style));
        assert(Seq::<Seq<char>>::empty() + branch_ref_lines_spec("local"@, b, is_current_branch(m, b), q, style)
            =~= branch_ref_lines_spec("local"@, b, is_current_branch(m, b), q, style));
    }
}

/// One more matching local ref adds its lines, as `local` (marked current when it is the
/// checked out branch), at the end of the local search's report.
pub proof fn law_local_report_adds_each_ref(
    repo: Seq<char>,
    m1: BranchMatches,
    m2: BranchMatches,
    b: BranchRef,
    q: QueryMatcher,
    style: OutputStyle,
)
    requires
        m1.local@.len() > 0,
        m2.local@ == m1.local@.push(b),
        m2.current_name == m1.current_name,
    ensures
        branch_report_spec(repo, m2, q, BranchSearch::Local, style)
            == branch_report_spec(repo, m1, q, BranchSearch::Local, style)
                + branch_ref_lines_spec("local"@, b, is_current_branch(m2, b), q, style),
{
    assert(m2.local@.drop_last() =~= m1.local@);
    let head = seq![style.repo_spec(repo)];
    let prev = refs_lines_spec("local"@, m1.local@, m1, true, q, style);
    let more = branch_ref_lines_spec("local"@, b, is_current_branch(m2, b), q, style);
    lemma_refs_lines_same_current("local"@, m1.local@, m1, m2, true, q, style);
    assert(head + (prev + more) =~= (head + prev) + more);
}

/// The local search's report depends only on the matching local refs and the name of the
/// checked out branch: remote refs never appear in it.
pub proof fn law_local_report_only_local_refs(repo: Seq<char>, m1: BranchMatches, m2: BranchMatches, q: QueryMatcher, style: OutputStyle)
    requires
        m1.local@ == m2.local@,
        m1.current_name == m2.current_name,
    ensures
        branch_report_spec(repo, m1, q, BranchSearch::Local, style) == branch_report_spec(repo, m2, q, BranchSearch::Local, style),
{
    lemma_refs_lines_same_current("local"@, m1.local@, m1, m2, true, q, style);
}

/// The current search reports the repository and the checked out branch (its name, hash and
/// status) exactly when the checked out branch matched, and nothing else.
pub proof fn law_current_report(repo: Seq<char>, m: BranchMatches, q: QueryMatcher, style: OutputStyle)
    ensures
        !m.current ==> branch_report_spec(repo, m, q, BranchSearch::Current, style) == Seq::<Seq<char>>::empty(),
        m.current ==> branch_report_spec(repo, m, q, BranchSearch::Current, style)
            == seq![style.repo_spec(repo)] + (match m.current_name {
                Some(b) => seq![field_line(style, "  "@, "current"@, branch_name_text(style, q, b@))],
                None => Seq::<Seq<char>>::empty(),
            }) + hash_lines(style, m.current_hash) + status_lines(style, m.current_upstream_status),
{
}

/// What follows the repository line of a report (nothing when there is no report).
pub open spec fn report_body(lines: Seq<Seq<char>>) -> Seq<Seq<char>> {
    if lines.len() > 0 { lines.skip(1) } else { lines }
}

/// Searching all branches reports the repository once, then what the current search reports
/// when no matching local branch is the checked out one, then what the local search reports,
/// then what the remote search reports; nothing when none of them reports anything.
pub proof fn law_all_report_combines_searches(repo: Seq<char>, m: BranchMatches, q: QueryMatcher, style: OutputStyle)
    ensures
        ({
            let all = branch_report_spec(repo, m, q, BranchSearch::All, style);
            let current = branch_report_spec(repo, m, q, BranchSearch::Current, style);
            let local = branch_report_spec(repo, m, q, BranchSearch::Local, style);
            let remote = branch_report_spec(repo, m, q, BranchSearch::Remote, style);
            &&& (all.len() == 0 <==> (current.len() == 0 && local.len() == 0 && remote.len() == 0))
            &&& all.len() > 0 ==> all == seq![style.repo_spec(repo)]
                + (if current_among_local(m) { Seq::<Seq<char>>::empty() } else { report_body(current) })
                + report_body(local) + report_body(remote)
        }),
{
    let head = seq![style.repo_spec(repo)];
    let cur = current_branch_lines_spec(m, q, style);
    let loc = refs_lines_spec("local"@, m.local@, m, true, q, style);
    let rem = refs_lines_spec("remote"@, m.remote@, m, false, q, style);
    assert((head + cur).skip(1) =~= cur);
    assert((head + loc).skip(1) =~= loc);
    assert((head + rem).skip(1) =~= rem);
    if m.local@.len() == 0 {
        assert(m.local@ =~= Seq::<BranchRef>::empty());
    }
    if m.remote@.len() == 0 {
        assert(m.remote@ =~= Seq::<BranchRef>::empty());
    }
    assert(refs_lines_spec("local"@, Seq::<BranchRef>::empty(), m, true, q, style) == Seq::<Seq<char>>::empty());
    assert(refs_lines_spec("remote"@, Seq::<BranchRef>::empty(), m, false, q, style) == Seq::<Seq<char>>::empty());
    let c2 = if m.current && !current_among_local(m) { cur } else { Seq::<Seq<char>>::empty() };
    let c3 = if current_among_local(m) { Seq::<Seq<char>>::empty() } else { report_body(branch_report_spec(repo, m, q, BranchSearch::Current, style)) };
    assert(c2 == c3);
    let l3 = report_body(branch_report_spec(repo, m, q, BranchSearch::Local, style));
    let r3 = report_body(branch_report_spec(repo, m, q, BranchSearch::Remote, style));
    assert(l3 == loc);
    assert(r3 == rem);
    assert(head + (c2 + loc + rem) =~= head + c3 + l3 + r3);
}

/// The remote search's report depends only on the matching remote refs: local refs and the
/// checked out branch never appear in it.
pub proof fn law_remote_report_only_remote_refs(repo: Seq<char>, m1: BranchMatches, m2: BranchMatches, q: QueryMatcher, style: OutputStyle)
    requires
        m1.remote@ == m2.remote@,
    ensures
        branch_report_spec(repo, m1, q, BranchSearch::Remote, style) == branch_report_spec(repo, m2, q, BranchSearch::Remote, style),
{
    lemma_refs_lines_unmarked(m1.remote@, m1, m2, q, style);
}

/// The first count of `git rev-list --left-right --count` is the commits only on the branch
/// (ahead), the second those only on the other side (behind): no commits on either side is
/// up to date, commits on one side only are ahead or behind by that many, commits on both are
/// diverged with both counts.
pub proof fn law_freshness_of_counts(ahead: u32, behind: u32)
    ensures
        freshness_of_counts(ahead, behind) == BranchFreshness::UpToDate <==> (ahead == 0 && behind == 0),
        ahead > 0 && behind == 0 ==> freshness_of_counts(ahead, behind) == BranchFreshness::Ahead(ahead),
        ahead == 0 && behind > 0 ==> freshness_of_counts(ahead, behind) == BranchFreshness::Behind(behind),
        ahead > 0 && behind > 0 ==> freshness_of_counts(ahead, behind) == (BranchFreshness::Diverged { ahead, behind }),
        freshness_of_counts(ahead, behind) != BranchFreshness::Different,
{
}

/// A hash is shown in full, as its first seven chars (all of it when shorter), or not at all.
pub proof fn law_display_hash(hash: Seq<char>)
    ensures
        display_hash_spec(hash, BranchHash::Full) == Some(hash),
        display_hash_spec(hash, BranchHash::Omitted) is None,
        display_hash_spec(hash, BranchHash::Short) matches Some(s) && s.len() == (if hash.len() < 7 { hash.len() } else { 7 })
            && s == hash.take(s.len() as int),
{
    if hash.len() <= 7 {
        assert(hash.take(hash.len() as int) =~= hash);
    }
}

/// Without colors, a branch ref is reported as `  <kind>: <name>`, then `    commit: <hash>` when
/// it has a hash, `    status: <status>` when it has an upstream status, and `    current: yes`
/// when it is the checked out branch.
pub proof fn law_plain_branch_ref_lines(kind: Seq<char>, b: BranchRef, current: bool, q: QueryMatcher)
    ensures
        branch_ref_lines_spec(kind, b, current, q, OutputStyle { enabled: false })
            == seq!["  "@ + kind + ": "@ + b.name@]
                + (match b.commit_hash {
                    Some(h) => seq!["    "@ + "commit"@ + ": "@ + h@],
                    None => Seq::<Seq<char>>::empty(),
                })
                + (match b.upstream_status {
                    Some(st) => seq!["    "@ + "status"@ + ": "@ + status_text(st)],
                    None => Seq::<Seq<char>>::empty(),
                })
                + (if current { seq!["    "@ + "current"@ + ": "@ + "yes"@] } else { Seq::<Seq<char>>::empty() }),
{
    crate::style::law_disabled_style_is_plain(b.name@, q.spec_branch_match_ranges(b.name@), HighlightStyle::Branch);
    crate::style::law_disabled_style_is_plain(kind, seq![], HighlightStyle::Plain);
    crate::style::law_disabled_style_is_plain("commit"@, seq![], HighlightStyle::Plain);
    crate::style::law_disabled_style_is_plain("status"@, seq![], HighlightStyle::Plain);
    crate::style::law_disabled_style_is_plain("current"@, seq![], HighlightStyle::Plain);
    crate::style::law_disabled_style_is_plain("yes"@, seq![], HighlightStyle::Plain);
    if let Some(h) = b.commit_hash {
        crate::style::law_disabled_style_is_plain(h@, seq![], HighlightStyle::Plain);
    }
    if let Some(st) = b.upstream_status {
        crate::style::law_disabled_style_is_plain(status_text(st), seq![], HighlightStyle::Plain);
    }
}

/// `git ls-remote` reports the hash of the first line whose ref, after the tab, is the expected
/// one: lines before it for other refs are passed over; without such a line there is no hash.
pub proof fn law_ls_remote_hash_of_first_matching_line(lines: Seq<Seq<char>>, expected: Seq<char>, k: int, hash: Seq<char>)
    requires
        0 <= k <= lines.len(),
        forall|j: int| 0 <= j < k ==> !(split_once_spec(#[trigger] lines[j], '\t') matches Some((_, r)) && r == expected),
    ensures
        k < lines.len() && lines[k] == hash + seq!['\t'] + expected && !hash.contains('\t')
            ==> ls_remote_hash_spec(lines, expected) == Some(hash),
        k == lines.len() ==> ls_remote_hash_spec(lines, expected) is None,
    decreases k,
{
    if k < lines.len() && lines[k] == hash + seq!['\t'] + expected && !hash.contains('\t') {
        crate::text::lemma_split_at_first(hash, '\t', expected);
    }
    if k > 0 {
        let t = lines.drop_first();
        assert forall|j: int| 0 <= j < k - 1 implies !(split_once_spec(#[trigger] t[j], '\t') matches Some((_, r)) && r == expected) by {
            assert(t[j] == lines[j + 1]);
        }
        law_ls_remote_hash_of_first_matching_line(t, expected, k - 1, hash);
        assert(!(split_once_spec(lines[0], '\t') matches Some((_, r)) && r == expected));
    } else if k < lines.len() && lines[k] == hash + seq!['\t'] + expected && !hash.contains('\t') {
        assert(split_once_spec(lines[0], '\t') == Some((hash, expected)));
    }
}

/// A tracking status reads as the freshness its counts give, then the upstream: the local
/// upstream and the live origin are reported in the same words.
pub proof fn law_tracking_text_is_freshness_text(upstream: String, upstream_hash: Option<String>, ahead: u32, behind: u32)
    ensures
        status_text(BranchUpstreamStatus::Tracking { upstream, upstream_hash, ahead, behind })
            == freshness_text(freshness_of_counts(ahead, behind)) + " "@ + upstream_text(upstream@, opt_view(upstream_hash)),
{
    reveal_strlit("up-to-date with");
    reveal_strlit("up-to-date with ");
    reveal_strlit(" of");
    reveal_strlit(" of ");
    reveal_strlit(" from");
    reveal_strlit(" from ");
    reveal_strlit(" vs");
    reveal_strlit(" vs ");
    reveal_strlit(" ");
    let u = upstream_text(upstream@, opt_view(upstream_hash));
    let a = decimal(ahead as nat);
    let b = decimal(behind as nat);
    assert("up-to-date with"@ + " "@ + u =~= "up-to-date with "@ + u);
    assert("ahead "@ + a + " of"@ + " "@ + u =~= "ahead "@ + a + " of "@ + u);
    assert("behind "@ + b + " from"@ + " "@ + u =~= "behind "@ + b + " from "@ + u);
    assert("ahead "@ + a + ", behind "@ + b + " vs"@ + " "@ + u =~= "ahead "@ + a + ", behind "@ + b + " vs "@ + u);
}

} // verus!
