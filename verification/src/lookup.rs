//! Finding a branch's upstream status takes several git commands, each chosen by what the
//! previous ones printed. The choices are a state machine: the caller runs the command a step
//! asks for and hands its output to the next step.
use vstd::prelude::*;

use crate::branch::BranchFreshness;
use crate::branch::BranchUpstreamStatus;
use crate::branch::ahead_behind_spec;
use crate::branch::display_hash_spec;
use crate::branch::freshness_from_counts;
use crate::branch::freshness_of_counts;
use crate::branch::local_branch_ref;
use crate::branch::ls_remote_hash_spec;
use crate::branch::opt_str_view;
use crate::branch::opt_view;
use crate::branch::origin_status;
use crate::branch::parse_ls_remote_hash;
use crate::branch::rev_parse_hash_flag;
use crate::branch::symmetric_range;
use crate::branch::tracking_status;
use crate::branch::trimmed_nonempty;
use crate::branch::trimmed_nonempty_spec;
use crate::branch::upstream_parse_message;
use crate::branch::upstream_ref;
use crate::config::BranchHash;
use crate::config::strings_view;
use crate::error::Error;
use crate::text::lines_spec;
use crate::text::str_eq;
use crate::text::string_of;

verus! {

/// What a lookup waits for.
pub enum StatusLookup {
    /// The output of `git ls-remote origin refs/heads/<branch>`.
    OriginRef { branch: String, hash: BranchHash },
    /// The output of `git rev-parse --verify refs/heads/<branch>`, the origin having `remote_hash`.
    LocalHash { branch: String, hash: BranchHash, remote_hash: String },
    /// The output of `git rev-list --left-right --count refs/heads/<branch>...<remote_hash>`.
    OriginCounts { branch: String, hash: BranchHash, remote_hash: String },
    /// The output of `git rev-parse --abbrev-ref <branch>@{upstream}`.
    Upstream { branch: String, hash: BranchHash },
    /// The output of `git rev-parse` for the hash of `upstream`.
    UpstreamHash { branch: String, hash: BranchHash, upstream: String },
    /// The output of `git rev-list --left-right --count <branch>...<upstream>`.
    UpstreamCounts { branch: String, upstream: String, upstream_hash: Option<String> },
}

/// A step of the lookup.
pub enum StatusStep {
    /// Run git with these arguments, then hand its output (none when it fails) to the lookup.
    Run(StatusLookup, Vec<String>),
    /// The status is found.
    Done(Result<BranchUpstreamStatus, Error>),
}

/// A lookup state by the text of its fields.
pub enum LookupView {
    OriginRef(Seq<char>, BranchHash),
    LocalHash(Seq<char>, BranchHash, Seq<char>),
    OriginCounts(Seq<char>, BranchHash, Seq<char>),
    Upstream(Seq<char>, BranchHash),
    UpstreamHash(Seq<char>, BranchHash, Seq<char>),
    UpstreamCounts(Seq<char>, Seq<char>, Option<Seq<char>>),
}

/// An upstream status by the text of its fields.
pub enum StatusView {
    NoUpstream,
    Origin(Seq<char>, Option<Seq<char>>, BranchFreshness),
    Tracking(Seq<char>, Option<Seq<char>>, u32, u32),
}

/// A step by the text of its parts; an error by its message.
pub enum StepView {
    Run(LookupView, Seq<Seq<char>>),
    Done(Result<StatusView, Seq<char>>),
}

impl StatusLookup {
    /// The state by the text of its fields.
    pub open spec fn view_of(&self) -> LookupView {
        match self {
            StatusLookup::OriginRef { branch, hash } => LookupView::OriginRef(branch@, *hash),
            StatusLookup::LocalHash { branch, hash, remote_hash } => LookupView::LocalHash(branch@, *hash, remote_hash@),
            StatusLookup::OriginCounts { branch, hash, remote_hash } => LookupView::OriginCounts(branch@, *hash, remote_hash@),
            StatusLookup::Upstream { branch, hash } => LookupView::Upstream(branch@, *hash),
            StatusLookup::UpstreamHash { branch, hash, upstream } => LookupView::UpstreamHash(branch@, *hash, upstream@),
            StatusLookup::UpstreamCounts { branch, upstream, upstream_hash } =>
                LookupView::UpstreamCounts(branch@, upstream@, opt_view(*upstream_hash)),
        }
    }
}

/// An upstream status by the text of its fields.
pub open spec fn status_view(s: BranchUpstreamStatus) -> StatusView {
    match s {
        BranchUpstreamStatus::NoUpstream => StatusView::NoUpstream,
        BranchUpstreamStatus::Origin { remote, remote_hash, freshness } =>
            StatusView::Origin(remote@, opt_view(remote_hash), freshness),
        BranchUpstreamStatus::Tracking { upstream, upstream_hash, ahead, behind } =>
            StatusView::Tracking(upstream@, opt_view(upstream_hash), ahead, behind),
    }
}

impl StatusStep {
    /// The step by the text of its parts.
    pub open spec fn view_of(&self) -> StepView {
        match self {
            StatusStep::Run(s, args) => StepView::Run(s.view_of(), strings_view(args@)),
            StatusStep::Done(Ok(s)) => StepView::Done(Ok(status_view(*s))),
            StatusStep::Done(Err(e)) => StepView::Done(Err(e.message())),
        }
    }
}

/* The git commands of the lookup */

/// `git ls-remote origin refs/heads/<branch>`.
pub open spec fn origin_ref_args(branch: Seq<char>) -> Seq<Seq<char>> {
    seq!["ls-remote"@, "origin"@, "refs/heads/"@ + branch]
}

/// `git rev-parse --verify refs/heads/<branch>`.
pub open spec fn local_hash_args(branch: Seq<char>) -> Seq<Seq<char>> {
    seq!["rev-parse"@, "--verify"@, "refs/heads/"@ + branch]
}

/// `git rev-parse --abbrev-ref <branch>@{upstream}`.
pub open spec fn upstream_args(branch: Seq<char>) -> Seq<Seq<char>> {
    seq!["rev-parse"@, "--abbrev-ref"@, branch + "@{upstream}"@]
}

/// `git rev-parse --short <rev>` or `git rev-parse --verify <rev>`, as the hash mode asks.
pub open spec fn hash_args(hash: BranchHash, rev: Seq<char>) -> Seq<Seq<char>> {
    seq!["rev-parse"@, if hash == BranchHash::Short { "--short"@ } else { "--verify"@ }, rev]
}

/// `git rev-list --left-right --count <range>`.
pub open spec fn counts_args(range: Seq<char>) -> Seq<Seq<char>> {
    seq!["rev-list"@, "--left-right"@, "--count"@, range]
}

/* The steps */

/// Looking up the local upstream: asking for the name of `branch`'s upstream.
pub open spec fn upstream_start(branch: Seq<char>, hash: BranchHash) -> StepView {
    StepView::Run(LookupView::Upstream(branch, hash), upstream_args(branch))
}

/// The first step: the live origin first when it is preferred, else the local upstream.
pub open spec fn start_spec(branch: Seq<char>, hash: BranchHash, prefer_origin: bool) -> StepView {
    if prefer_origin {
        StepView::Run(LookupView::OriginRef(branch, hash), origin_ref_args(branch))
    } else {
        upstream_start(branch, hash)
    }
}

/// The origin status of `branch` with the origin's full hash and a freshness.
pub open spec fn origin_view(branch: Seq<char>, remote_hash: Seq<char>, hash: BranchHash, f: BranchFreshness) -> StepView {
    StepView::Done(Ok(StatusView::Origin("origin/"@ + branch, display_hash_spec(remote_hash, hash), f)))
}

/// What the lookup does with the output of the command it waited for:
/// - the origin's ref: without a hash for `refs/heads/<branch>` (or output), fall back to the
///   local upstream; else ask for the local branch's full hash;
/// - the local hash: without one, fall back; the same commit is up to date with the origin;
///   else count the commits of `refs/heads/<branch>...<remote hash>`;
/// - the origin counts: the freshness they give (`Different` when they cannot be read);
/// - the upstream's name: without one there is no upstream; else ask for its hash when hashes
///   are shown, or count the commits of `<branch>...<upstream>`;
/// - the upstream's hash: count the commits, with the hash (trimmed, when there is one);
/// - the upstream counts: the tracking status; no upstream without output, an error when they
///   cannot be read.
pub open spec fn next_spec(state: LookupView, reply: Option<Seq<char>>, repo: Seq<char>) -> StepView {
    match state {
        LookupView::OriginRef(branch, hash) => {
            let found = match reply {
                Some(o) => ls_remote_hash_spec(lines_spec(o), "refs/heads/"@ + branch),
                None => None,
            };
            match found {
                Some(remote) => StepView::Run(LookupView::LocalHash(branch, hash, remote), local_hash_args(branch)),
                None => upstream_start(branch, hash),
            }
        },
        LookupView::LocalHash(branch, hash, remote) => match trimmed_nonempty_spec(reply) {
            Some(local) => if local == remote {
                origin_view(branch, remote, hash, BranchFreshness::UpToDate)
            } else {
                StepView::Run(
                    LookupView::OriginCounts(branch, hash, remote),
                    counts_args("refs/heads/"@ + branch + "..."@ + remote),
                )
            },
            None => upstream_start(branch, hash),
        },
        LookupView::OriginCounts(branch, hash, remote) => {
            let f = match reply {
                Some(c) => match ahead_behind_spec(c) {
                    Some((a, b)) => freshness_of_counts(a, b),
                    None => BranchFreshness::Different,
                },
                None => BranchFreshness::Different,
            };
            origin_view(branch, remote, hash, f)
        },
        LookupView::Upstream(branch, hash) => match trimmed_nonempty_spec(reply) {
            Some(upstream) => if hash == BranchHash::Omitted {
                StepView::Run(LookupView::UpstreamCounts(branch, upstream, None), counts_args(branch + "..."@ + upstream))
            } else {
                StepView::Run(LookupView::UpstreamHash(branch, hash, upstream), hash_args(hash, upstream))
            },
            None => StepView::Done(Ok(StatusView::NoUpstream)),
        },
        LookupView::UpstreamHash(branch, hash, upstream) => StepView::Run(
            LookupView::UpstreamCounts(branch, upstream, trimmed_nonempty_spec(reply)),
            counts_args(branch + "..."@ + upstream),
        ),
        LookupView::UpstreamCounts(branch, upstream, upstream_hash) => match reply {
            None => StepView::Done(Ok(StatusView::NoUpstream)),
            Some(c) => match ahead_behind_spec(c) {
                Some((a, b)) => StepView::Done(Ok(StatusView::Tracking(upstream, upstream_hash, a, b))),
                None => StepView::Done(Err(upstream_parse_message(repo, branch))),
            },
        },
    }
}

/// A vector of the strings.
fn strings(items: &[&str]) -> (r: Vec<String>)
    ensures
        r@.len() == items@.len(),
        forall|i: int| 0 <= i < items@.len() ==> (#[trigger] r@[i])@ == items@[i]@,
{
    let mut r: Vec<String> = Vec::new();
    let mut i: usize = 0;
    while i < items.len()
        invariant
            i <= items@.len(),
            r@.len() == i,
            forall|k: int| 0 <= k < i ==> (#[trigger] r@[k])@ == items@[k]@,
        decreases items.len() - i,
    {
        r.push(string_of(items[i]));
        i += 1;
    }
    r
}

/// Asks for the name of `branch`'s upstream.
fn ask_upstream(branch: &str, hash: BranchHash) -> (r: StatusStep)
    ensures
        r.view_of() == upstream_start(branch@, hash),
{
    let u = upstream_ref(branch);
    let args = strings(&["rev-parse", "--abbrev-ref", u.as_str()]);
    assert(strings_view(args@) =~= upstream_args(branch@));
    StatusStep::Run(StatusLookup::Upstream { branch: string_of(branch), hash }, args)
}

/// Counts the commits of a range.
fn count_args(range: &str) -> (r: Vec<String>)
    ensures
        strings_view(r@) == counts_args(range@),
{
    let args = strings(&["rev-list", "--left-right", "--count", range]);
    assert(strings_view(args@) =~= counts_args(range@));
    args
}

/// The first step of looking up `branch`'s upstream status.
pub fn start_lookup(branch: &str, hash: BranchHash, prefer_origin: bool) -> (r: StatusStep)
    ensures
        r.view_of() == start_spec(branch@, hash, prefer_origin),
{
    if prefer_origin {
        let branch_ref = local_branch_ref(branch);
        let args = strings(&["ls-remote", "origin", branch_ref.as_str()]);
        assert(strings_view(args@) =~= origin_ref_args(branch@));
        StatusStep::Run(StatusLookup::OriginRef { branch: string_of(branch), hash }, args)
    } else {
        ask_upstream(branch, hash)
    }
}

impl StatusLookup {
    /// The next step, given the output of the command this lookup waited for (none when it
    /// failed); `repo` names the repository in errors.
    pub fn next(self, reply: Option<&str>, repo: &str) -> (r: StatusStep)
        ensures
            r.view_of() == next_spec(self.view_of(), opt_str_view(reply), repo@),
    {
        match self {
            StatusLookup::OriginRef { branch, hash } => {
                let branch_ref = local_branch_ref(branch.as_str());
                let found = match reply {
                    Some(o) => parse_ls_remote_hash(o, branch_ref.as_str()),
                    None => None,
                };
                match found {
                    Some(remote_hash) => {
                        let args = strings(&["rev-parse", "--verify", branch_ref.as_str()]);
                        assert(strings_view(args@) =~= local_hash_args(branch@));
                        StatusStep::Run(StatusLookup::LocalHash { branch, hash, remote_hash }, args)
                    },
                    None => ask_upstream(branch.as_str(), hash),
                }
            },
            StatusLookup::LocalHash { branch, hash, remote_hash } => match trimmed_nonempty(reply) {
                Some(local) => {
                    if str_eq(local.as_str(), remote_hash.as_str()) {
                        let s = origin_status(branch.as_str(), remote_hash.as_str(), hash, BranchFreshness::UpToDate);
                        StatusStep::Done(Ok(s))
                    } else {
                        let branch_ref = local_branch_ref(branch.as_str());
                        let range = symmetric_range(branch_ref.as_str(), remote_hash.as_str());
                        let args = count_args(range.as_str());
                        StatusStep::Run(StatusLookup::OriginCounts { branch, hash, remote_hash }, args)
                    }
                },
                None => ask_upstream(branch.as_str(), hash),
            },
            StatusLookup::OriginCounts { branch, hash, remote_hash } => {
                let f = freshness_from_counts(reply);
                StatusStep::Done(Ok(origin_status(branch.as_str(), remote_hash.as_str(), hash, f)))
            },
            StatusLookup::Upstream { branch, hash } => match trimmed_nonempty(reply) {
                Some(upstream) => match rev_parse_hash_flag(hash) {
                    None => {
                        let range = symmetric_range(branch.as_str(), upstream.as_str());
                        let args = count_args(range.as_str());
                        StatusStep::Run(StatusLookup::UpstreamCounts { branch, upstream, upstream_hash: None }, args)
                    },
                    Some(flag) => {
                        let args = strings(&["rev-parse", flag, upstream.as_str()]);
                        assert(strings_view(args@) =~= hash_args(hash, upstream@));
                        StatusStep::Run(StatusLookup::UpstreamHash { branch, hash, upstream }, args)
                    },
                },
                None => StatusStep::Done(Ok(BranchUpstreamStatus::NoUpstream)),
            },
            StatusLookup::UpstreamHash { branch, upstream, .. } => {
                let upstream_hash = trimmed_nonempty(reply);
                let range = symmetric_range(branch.as_str(), upstream.as_str());
                let args = count_args(range.as_str());
                StatusStep::Run(StatusLookup::UpstreamCounts { branch, upstream, upstream_hash }, args)
            },
            StatusLookup::UpstreamCounts { branch, upstream, upstream_hash } => {
                match tracking_status(repo, branch.as_str(), upstream.as_str(), upstream_hash, reply) {
                    Ok(s) => StatusStep::Done(Ok(s)),
                    Err(e) => StatusStep::Done(Err(e)),
                }
            },
        }
    }
}

/* The lookup as a whole */

/// Where a lookup ends when the git outputs `replies` are handed to its steps in turn: the status
/// it finds, or the step still waiting when the outputs run out.
pub open spec fn drive(step: StepView, replies: Seq<Option<Seq<char>>>, repo: Seq<char>) -> StepView
    decreases replies.len(),
{
    match step {
        StepView::Run(state, _) => if replies.len() > 0 {
            drive(next_spec(state, replies[0], repo), replies.drop_first(), repo)
        } else {
            step
        },
        StepView::Done(_) => step,
    }
}

/// The local upstream status from the outputs of the upstream name, the upstream's hash and the
/// counts: no upstream without a name or without counts, an error when the counts cannot be read,
/// else the tracking status with the trimmed hash (none when hashes are not shown).
pub open spec fn upstream_outcome(
    branch: Seq<char>,
    hash: BranchHash,
    repo: Seq<char>,
    upstream_out: Option<Seq<char>>,
    hash_out: Option<Seq<char>>,
    counts_out: Option<Seq<char>>,
) -> StepView {
    match trimmed_nonempty_spec(upstream_out) {
        None => StepView::Done(Ok(StatusView::NoUpstream)),
        Some(u) => match counts_out {
            None => StepView::Done(Ok(StatusView::NoUpstream)),
            Some(c) => match ahead_behind_spec(c) {
                Some((a, b)) => StepView::Done(Ok(StatusView::Tracking(
                    u,
                    if hash == BranchHash::Omitted { None } else { trimmed_nonempty_spec(hash_out) },
                    a,
                    b,
                ))),
                None => StepView::Done(Err(upstream_parse_message(repo, branch))),
            },
        },
    }
}

/// Looking up the local upstream alone asks for its name, then its hash when hashes are shown,
/// then the counts, and finds the status that those outputs give.
pub proof fn law_upstream_lookup(
    branch: Seq<char>,
    hash: BranchHash,
    repo: Seq<char>,
    upstream_out: Option<Seq<char>>,
    hash_out: Option<Seq<char>>,
    counts_out: Option<Seq<char>>,
)
    ensures
        drive(
            start_spec(branch, hash, false),
            if hash == BranchHash::Omitted { seq![upstream_out, counts_out] } else { seq![upstream_out, hash_out, counts_out] },
            repo,
        ) == upstream_outcome(branch, hash, repo, upstream_out, hash_out, counts_out),
{
    let replies = if hash == BranchHash::Omitted { seq![upstream_out, counts_out] } else { seq![upstream_out, hash_out, counts_out] };
    let s1 = next_spec(LookupView::Upstream(branch, hash), upstream_out, repo);
    assert(replies[0] == upstream_out);
    assert(drive(start_spec(branch, hash, false), replies, repo) == drive(s1, replies.drop_first(), repo));
    if let Some(u) = trimmed_nonempty_spec(upstream_out) {
        if hash == BranchHash::Omitted {
            let r1 = replies.drop_first();
            assert(r1 =~= seq![counts_out]);
            let s2 = next_spec(LookupView::UpstreamCounts(branch, u, None), counts_out, repo);
            assert(drive(s1, r1, repo) == drive(s2, r1.drop_first(), repo));
        } else {
            let r1 = replies.drop_first();
            assert(r1 =~= seq![hash_out, counts_out]);
            let s2 = next_spec(LookupView::UpstreamHash(branch, hash, u), hash_out, repo);
            assert(drive(s1, r1, repo) == drive(s2, r1.drop_first(), repo));
            let r2 = r1.drop_first();
            assert(r2 =~= seq![counts_out]);
            let s3 = next_spec(LookupView::UpstreamCounts(branch, u, trimmed_nonempty_spec(hash_out)), counts_out, repo);
            assert(drive(s2, r2, repo) == drive(s3, r2.drop_first(), repo));
        }
    }
}

/// The hash that the origin reports for `branch`, if any.
pub open spec fn origin_hash(branch: Seq<char>, ls_out: Option<Seq<char>>) -> Option<Seq<char>> {
    match ls_out {
        Some(o) => ls_remote_hash_spec(lines_spec(o), "refs/heads/"@ + branch),
        None => None,
    }
}

/// Preferring the live origin, when it has the branch and the local branch has a hash, finds the
/// origin status: up to date for the same commit, else the freshness that the counts give; the
/// local upstream is not looked at.
pub proof fn law_origin_lookup_found(
    branch: Seq<char>,
    hash: BranchHash,
    repo: Seq<char>,
    ls_out: Option<Seq<char>>,
    local_out: Option<Seq<char>>,
    counts_out: Option<Seq<char>>,
    rest: Seq<Option<Seq<char>>>,
)
    requires
        origin_hash(branch, ls_out) is Some,
        trimmed_nonempty_spec(local_out) is Some,
    ensures
        drive(start_spec(branch, hash, true), seq![ls_out, local_out, counts_out] + rest, repo) == origin_view(
            branch,
            origin_hash(branch, ls_out)->0,
            hash,
            if trimmed_nonempty_spec(local_out) == origin_hash(branch, ls_out) {
                BranchFreshness::UpToDate
            } else {
                match counts_out {
                    Some(c) => match ahead_behind_spec(c) {
                        Some((a, b)) => freshness_of_counts(a, b),
                        None => BranchFreshness::Different,
                    },
                    None => BranchFreshness::Different,
                }
            },
        ),
{
    let remote = origin_hash(branch, ls_out)->0;
    let replies = seq![ls_out, local_out, counts_out] + rest;
    assert(replies[0] == ls_out);
    let s1 = next_spec(LookupView::OriginRef(branch, hash), ls_out, repo);
    assert(s1 == StepView::Run(LookupView::LocalHash(branch, hash, remote), local_hash_args(branch)));
    let r1 = replies.drop_first();
    assert(r1 =~= seq![local_out, counts_out] + rest);
    assert(r1[0] == local_out);
    let s2 = next_spec(LookupView::LocalHash(branch, hash, remote), local_out, repo);
    assert(drive(s1, r1, repo) == drive(s2, r1.drop_first(), repo));
    if trimmed_nonempty_spec(local_out) != origin_hash(branch, ls_out) {
        let r2 = r1.drop_first();
        assert(r2 =~= seq![counts_out] + rest);
        assert(r2[0] == counts_out);
        let s3 = next_spec(LookupView::OriginCounts(branch, hash, remote), counts_out, repo);
        assert(drive(s2, r2, repo) == drive(s3, r2.drop_first(), repo));
    }
}

/// Preferring the live origin falls back to the local upstream when the origin does not report
/// the branch: the lookup goes on as if the upstream had been looked up from the start.
pub proof fn law_origin_lookup_without_remote_hash(
    branch: Seq<char>,
    hash: BranchHash,
    repo: Seq<char>,
    ls_out: Option<Seq<char>>,
    rest: Seq<Option<Seq<char>>>,
)
    requires
        origin_hash(branch, ls_out) is None,
    ensures
        drive(start_spec(branch, hash, true), seq![ls_out] + rest, repo) == drive(start_spec(branch, hash, false), rest, repo),
{
    let replies = seq![ls_out] + rest;
    assert(replies[0] == ls_out);
    assert(replies.drop_first() =~= rest);
}

/// Preferring the live origin falls back to the local upstream when the local branch has no hash.
pub proof fn law_origin_lookup_without_local_hash(
    branch: Seq<char>,
    hash: BranchHash,
    repo: Seq<char>,
    ls_out: Option<Seq<char>>,
    local_out: Option<Seq<char>>,
    rest: Seq<Option<Seq<char>>>,
)
    requires
        origin_hash(branch, ls_out) is Some,
        trimmed_nonempty_spec(local_out) is None,
    ensures
        drive(start_spec(branch, hash, true), seq![ls_out, local_out] + rest, repo) == drive(start_spec(branch, hash, false), rest, repo),
{
    let remote = origin_hash(branch, ls_out)->0;
    let replies = seq![ls_out, local_out] + rest;
    assert(replies[0] == ls_out);
    let s1 = next_spec(LookupView::OriginRef(branch, hash), ls_out, repo);
    let r1 = replies.drop_first();
    assert(r1 =~= seq![local_out] + rest);
    assert(r1[0] == local_out);
    assert(drive(s1, r1, repo) == drive(next_spec(LookupView::LocalHash(branch, hash, remote), local_out, repo), r1.drop_first(), repo));
    assert(r1.drop_first() =~= rest);
}

/// The git command a step asks for, if it asks for one.
pub open spec fn asked(step: StepView) -> Option<Seq<Seq<char>>> {
    match step {
        StepView::Run(_, args) => Some(args),
        StepView::Done(_) => None,
    }
}

/// The lookup asks git, in turn: the live origin's ref `refs/heads/<branch>` when the origin is
/// preferred, else the name of `<branch>@{upstream}`; after the origin reports a hash, the local
/// branch's full hash; when the two differ, the counts of `refs/heads/<branch>...<remote hash>`;
/// after the upstream's name, its hash (short or full, as shown) or, when hashes are not shown,
/// the counts of `<branch>...<upstream>`, which also follow the upstream's hash.
pub proof fn law_lookup_asks_git(
    branch: Seq<char>,
    hash: BranchHash,
    repo: Seq<char>,
    reply: Option<Seq<char>>,
    remote: Seq<char>,
    upstream: Seq<char>,
)
    ensures
        asked(start_spec(branch, hash, true)) == Some(seq!["ls-remote"@, "origin"@, "refs/heads/"@ + branch]),
        asked(start_spec(branch, hash, false)) == Some(seq!["rev-parse"@, "--abbrev-ref"@, branch + "@{upstream}"@]),
        origin_hash(branch, reply) is Some ==> asked(next_spec(LookupView::OriginRef(branch, hash), reply, repo))
            == Some(seq!["rev-parse"@, "--verify"@, "refs/heads/"@ + branch]),
        trimmed_nonempty_spec(reply) matches Some(local) && local != remote
            ==> asked(next_spec(LookupView::LocalHash(branch, hash, remote), reply, repo))
                == Some(seq!["rev-list"@, "--left-right"@, "--count"@, "refs/heads/"@ + branch + "..."@ + remote]),
        trimmed_nonempty_spec(reply) == Some(upstream) && hash == BranchHash::Omitted
            ==> asked(next_spec(LookupView::Upstream(branch, hash), reply, repo))
                == Some(seq!["rev-list"@, "--left-right"@, "--count"@, branch + "..."@ + upstream]),
        trimmed_nonempty_spec(reply) == Some(upstream) && hash == BranchHash::Short
            ==> asked(next_spec(LookupView::Upstream(branch, hash), reply, repo)) == Some(seq!["rev-parse"@, "--short"@, upstream]),
        trimmed_nonempty_spec(reply) == Some(upstream) && hash == BranchHash::Full
            ==> asked(next_spec(LookupView::Upstream(branch, hash), reply, repo)) == Some(seq!["rev-parse"@, "--verify"@, upstream]),
        asked(next_spec(LookupView::UpstreamHash(branch, hash, upstream), reply, repo))
            == Some(seq!["rev-list"@, "--left-right"@, "--count"@, branch + "..."@ + upstream]),
        trimmed_nonempty_spec(reply) is None ==> next_spec(LookupView::Upstream(branch, hash), reply, repo)
            == StepView::Done(Ok(StatusView::NoUpstream)),
{
}

} // verus!

