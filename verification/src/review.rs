//! Patchsets, verdicts and findings: what may be recorded together, and what each refers to.
use crate::closing::patchset_at;
use crate::event::{Anchor, InlineFinding, Payload, Side};
use crate::model::{ReviewCause, Severity, Verdict};
use crate::order::{chosen, ints, lemma_chosen, lemma_ints_contain};
use crate::state::{ChangeState, FindingState, Patchset};
use crate::text::{
    begins, decimal, decimal_of, opt_view, same, same_option, starts_with, trim, trimmed, views,
};
use crate::verify::brief_at;
use vstd::prelude::*;

verus! {

/// The format of the verdicts on a change that are written as JSON.
pub const REVIEW_SCHEMA: &'static str = "arc-review/1";

/// The place in a file that a remark is said to be about.
pub struct AnchorArgs {
    pub path: Option<String>,
    pub side: Side,
    pub line_start: Option<u32>,
    pub line_end: Option<u32>,
    pub context: Option<String>,
}

/// Why a patchset is not found.
#[derive(Clone, Copy, Debug, PartialEq, Eq, Structural)]
pub enum PatchsetRefusal {
    Unknown,
    Ambiguous { matches: usize },
}

/// The positions of the patchsets whose head begins with a text.
pub open spec fn headed(state: ChangeState, reference: Seq<char>) -> Seq<int> {
    chosen(state.patchsets@.len(), |i: int| begins(state.patchsets@[i].head@, reference))
}

/// Whether some patchset has this identity.
pub open spec fn has_patchset(state: ChangeState, id: Seq<char>) -> bool {
    exists|k: int| 0 <= k < state.patchsets@.len() && #[trigger] state.patchsets@[k].id@ == id
}

/// The position of the patchset of this identity.
pub fn find_patchset(state: &ChangeState, id: &str) -> (r: Option<usize>)
    ensures
        match r {
            Some(k) => patchset_at(*state, id@, k as int) && has_patchset(*state, id@),
            None => !has_patchset(*state, id@),
        },
{
    let all = &state.patchsets;
    for k in 0..all.len()
        invariant
            all@ == state.patchsets@,
            forall|j: int| 0 <= j < k ==> (#[trigger] state.patchsets@[j]).id@ != id@,
    {
        if same(all[k].id.as_str(), id) {
            assert(state.patchsets@[k as int].id@ == id@);
            return Some(k);
        }
    }
    None
}

/// Whether `r` is the patchset that a reference means, or why it means none.
pub open spec fn resolves_patchset(
    state: &ChangeState,
    patchset: &Option<String>,
    r: Result< Option<String>, PatchsetRefusal, >,
) -> bool {
    match *patchset {
            None => match r {
                Ok(id) => opt_view(id) == (if state.patchsets@.len() == 0 {
                    None
                } else {
                    Some(state.patchsets@.last().id@)
                }),
                Err(_) => false,
            },
            Some(reference) => match r {
                Ok(Some(id)) => if has_patchset(*state, reference@) {
                    id@ == reference@
                } else {
                    exists|k: int|
                        headed(*state, reference@) == seq![k] && 0 <= k < state.patchsets@.len()
                            && id@ == (#[trigger] state.patchsets@[k]).id@
                },
                Ok(None) => false,
                Err(PatchsetRefusal::Unknown) => !has_patchset(*state, reference@) && headed(
                    *state,
                    reference@,
                ).len() == 0,
                Err(PatchsetRefusal::Ambiguous { matches }) => !has_patchset(*state, reference@)
                    && headed(*state, reference@).len() == matches && matches > 1,
            },
        }
}

/// The patchset that a reference means: one of that identity, or else the only one whose head
/// begins with it; the latest where there is no reference.
pub fn resolve_patchset_id(state: &ChangeState, patchset: &Option<String>) -> (r: Result<
    Option<String>,
    PatchsetRefusal,
>)
    ensures
        resolves_patchset(state, patchset, r),
{
    let reference = match patchset {
        Some(reference) => reference.as_str(),
        None => {
            return if state.patchsets.len() == 0 {
                Ok(None)
            } else {
                Ok(Some(state.patchsets[state.patchsets.len() - 1].id.clone()))
            };
        },
    };
    if find_patchset(state, reference).is_some() {
        return Ok(Some(reference.to_string()));
    }
    let all = &state.patchsets;
    let mut matching: Vec<usize> = Vec::new();
    for i in 0..all.len()
        invariant
            all@ == state.patchsets@,
            ints(matching@) == chosen(
                i as nat,
                |k: int| begins(state.patchsets@[k].head@, reference@),
            ),
            forall|k: int| 0 <= k < matching@.len() ==> #[trigger] matching@[k] < i,
    {
        let ghost before = ints(matching@);
        if starts_with(all[i].head.as_str(), reference) {
            matching.push(i);
            assert(ints(matching@) =~= before.push(i as int));
        }
    }
    assert(ints(matching@).len() == matching@.len());
    if matching.len() == 0 {
        return Err(PatchsetRefusal::Unknown);
    }
    if matching.len() > 1 {
        return Err(PatchsetRefusal::Ambiguous { matches: matching.len() });
    }
    assert(ints(matching@) =~= seq![matching@[0] as int]);
    assert(state.patchsets@[matching@[0] as int].id@ == all@[matching@[0] as int].id@);
    Ok(Some(all[matching[0]].id.clone()))
}

/// A line was given without the file it is in.
#[derive(Debug, PartialEq, Eq, Structural)]
pub struct LineNeedsPath;

/// The revision that an anchor points into: that side of the patchset of this identity, or of the
/// latest one.
pub fn anchor_revision<'a>(state: &'a ChangeState, patchset_id: Option<&str>, side: Side) -> (r:
    Option<&'a str>)
    ensures
        match r {
            Some(revision) => exists|k: int|
                anchored_in(*state, patchset_id, k) && revision@ == (match side {
                    Side::Base => (#[trigger] state.patchsets@[k]).base@,
                    Side::Head => state.patchsets@[k].head@,
                }),
            None => match patchset_id {
                Some(id) => !has_patchset(*state, id@),
                None => state.patchsets@.len() == 0,
            },
        },
{
    let k: usize = match patchset_id {
        Some(id) => match find_patchset(state, id) {
            Some(k) => k,
            None => return None,
        },
        None => {
            if state.patchsets.len() == 0 {
                return None;
            }
            state.patchsets.len() - 1
        },
    };
    let patchset = &state.patchsets[k];
    assert(anchored_in(*state, patchset_id, k as int));
    assert(state.patchsets@[k as int] == *patchset);
    Some(
        match side {
            Side::Base => patchset.base.as_str(),
            Side::Head => patchset.head.as_str(),
        },
    )
}

/// Whether the patchset at `k` is the one that an anchor points into.
pub open spec fn anchored_in(state: ChangeState, patchset_id: Option<&str>, k: int) -> bool {
    match patchset_id {
        Some(id) => patchset_at(state, id@, k),
        None => state.patchsets@.len() > 0 && k == state.patchsets@.len() - 1,
    }
}

/// Whether `r` is the anchor of a remark.
pub open spec fn builds_anchor(
    args: &AnchorArgs,
    blob: Option<String>,
    r: Result< Option<Anchor>, LineNeedsPath, >,
) -> bool {
    match r {
            Ok(Some(anchor)) => args.path is Some && anchor.path@ == args.path->0@ && anchor.side
                == args.side && anchor.blob == blob && anchor.line_start == args.line_start
                && anchor.line_end == (if args.line_end is Some {
                args.line_end
            } else {
                args.line_start
            }) && opt_view(anchor.context) == opt_view(args.context),
            Ok(None) => args.path is None && args.line_start is None,
            Err(_) => args.path is None && args.line_start is Some,
        }
}

/// The anchor of a remark: none without a file, and a line only within one. A single line ends
/// where it starts. `blob` is the content of the file at the revision that the anchor points into.
pub fn build_anchor(args: &AnchorArgs, blob: Option<String>) -> (r: Result<
    Option<Anchor>,
    LineNeedsPath,
>)
    ensures
        builds_anchor(args, blob, r),
{
    let path = match &args.path {
        Some(path) => path,
        None => {
            return if args.line_start.is_some() {
                Err(LineNeedsPath)
            } else {
                Ok(None)
            };
        },
    };
    let line_end = if args.line_end.is_some() {
        args.line_end
    } else {
        args.line_start
    };
    Ok(
        Some(
            Anchor {
                path: path.clone(),
                side: args.side,
                blob,
                line_start: args.line_start,
                line_end,
                context: args.context.clone(),
            },
        ),
    )
}

/// What a review asks to record.
pub struct ReviewArgs {
    pub verdict: Verdict,
    pub body: Option<String>,
    pub provisional: Option<String>,
    pub patchset: Option<String>,
    pub causes: Vec<ReviewCause>,
    pub findings_json: Option<String>,
    pub snapshot_first: bool,
}

/// Why a review is not recorded.
#[derive(Clone, Copy, Debug, PartialEq, Eq, Structural)]
pub enum ReviewRefusal {
    ProvisionalNeedsApproval,
    EmptyProvisional,
    CauseRequired,
    CauseNotAllowed,
    SnapshotExcludesPatchset,
    /// A snapshot is taken of the branch of the change, checked out and clean.
    SnapshotNeedsCleanCheckout,
}

/// What a review records, once its flags are found to go together.
#[derive(Debug)]
pub struct ReviewPlan {
    pub causes: Vec<ReviewCause>,
    pub provisional: Option<String>,
}

/// The place of a cause in the order of causes.
pub open spec fn cause_rank(cause: ReviewCause) -> int {
    match cause {
        ReviewCause::Brief => 0,
        ReviewCause::Executor => 1,
        ReviewCause::IntegrationStaleness => 2,
    }
}

/// Whether causes are in order, each once.
pub open spec fn causes_ascend(causes: Seq<ReviewCause>) -> bool {
    forall|i: int, j: int|
        0 <= i < j < causes.len() ==> cause_rank(#[trigger] causes[i]) < cause_rank(
            #[trigger] causes[j],
        )
}

fn holds_cause(causes: &Vec<ReviewCause>, wanted: ReviewCause) -> (r: bool)
    ensures
        r == causes@.contains(wanted),
{
    for i in 0..causes.len()
        invariant
            forall|k: int| 0 <= k < i ==> #[trigger] causes@[k] != wanted,
    {
        if causes[i] == wanted {
            return true;
        }
    }
    false
}

/// The causes in order, each once.
pub fn ordered_causes(causes: &Vec<ReviewCause>) -> (r: Vec<ReviewCause>)
    ensures
        causes_ascend(r@),
        forall|cause: ReviewCause| #[trigger] r@.contains(cause) <==> causes@.contains(cause),
{
    let mut out: Vec<ReviewCause> = Vec::new();
    let brief = holds_cause(causes, ReviewCause::Brief);
    let executor = holds_cause(causes, ReviewCause::Executor);
    let staleness = holds_cause(causes, ReviewCause::IntegrationStaleness);
    if brief {
        out.push(ReviewCause::Brief);
    }
    if executor {
        out.push(ReviewCause::Executor);
    }
    if staleness {
        out.push(ReviewCause::IntegrationStaleness);
    }
    proof {
        assert forall|cause: ReviewCause| #[trigger] out@.contains(cause) <==> causes@.contains(
            cause,
        ) by {
            let a = if brief {
                1int
            } else {
                0int
            };
            let b = a + (if executor {
                1int
            } else {
                0int
            });
            if brief {
                assert(out@[0] == ReviewCause::Brief);
            }
            if executor {
                assert(out@[a] == ReviewCause::Executor);
            }
            if staleness {
                assert(out@[b] == ReviewCause::IntegrationStaleness);
            }
        }
    }
    out
}

/// Whether a snapshot can be taken here: the branch of the change is checked out, and clean.
pub open spec fn snapshot_place(
    state: ChangeState,
    current: Option<Seq<char>>,
    clean: bool,
) -> bool {
    clean && current == Some(state.branch@)
}

/// Whether a snapshot can be taken here, where `current` is the branch that is checked out.
pub fn may_snapshot(state: &ChangeState, current: &Option<String>, clean: bool) -> (r: bool)
    ensures
        r == snapshot_place(*state, opt_view(*current), clean),
{
    match current {
        Some(branch) => clean && same(branch.as_str(), state.branch.as_str()),
        None => false,
    }
}

/// Why a review is not recorded, where it is not: the first reason that holds.
pub open spec fn review_refusal(
    args: ReviewArgs,
    state: ChangeState,
    current: Option<Seq<char>>,
    clean: bool,
) -> Option<ReviewRefusal> {
    if args.provisional is Some && args.verdict != Verdict::Approved {
        Some(ReviewRefusal::ProvisionalNeedsApproval)
    } else if args.provisional is Some && trimmed(args.provisional->0@).len() == 0 {
        Some(ReviewRefusal::EmptyProvisional)
    } else if args.verdict == Verdict::ChangesRequested && args.causes@.len() == 0 {
        Some(ReviewRefusal::CauseRequired)
    } else if args.verdict != Verdict::ChangesRequested && args.causes@.len() > 0 {
        Some(ReviewRefusal::CauseNotAllowed)
    } else if args.snapshot_first && args.patchset is Some {
        Some(ReviewRefusal::SnapshotExcludesPatchset)
    } else if args.snapshot_first && !snapshot_place(state, current, clean) {
        Some(ReviewRefusal::SnapshotNeedsCleanCheckout)
    } else {
        None
    }
}

/// Whether `r` is what a review records, or why it does not.
pub open spec fn answers_review(
    args: &ReviewArgs,
    state: &ChangeState,
    current: &Option<String>,
    clean: bool,
    r: Result<ReviewPlan, ReviewRefusal>,
) -> bool {
    match r {
            Ok(plan) => {
                &&& review_refusal(*args, *state, opt_view(*current), clean) is None
                &&& causes_ascend(plan.causes@)
                &&& forall|cause: ReviewCause| #[trigger]
                    plan.causes@.contains(cause) <==> args.causes@.contains(cause)
                &&& opt_view(plan.provisional) == match args.provisional {
                    Some(reason) => Some(trimmed(reason@)),
                    None => None,
                }
            },
            Err(refusal) => review_refusal(*args, *state, opt_view(*current), clean) == Some(
                refusal,
            ),
        }
}

/// What a review records, or why it does not. `current` is the branch that is checked out here, and
/// `clean` says whether the worktree is.
pub fn review(args: &ReviewArgs, state: &ChangeState, current: &Option<String>, clean: bool) -> (r:
    Result<ReviewPlan, ReviewRefusal>)
    ensures
        answers_review(args, state, current, clean, r),
{
    let causes = ordered_causes(&args.causes);
    if args.provisional.is_some() && args.verdict != Verdict::Approved {
        return Err(ReviewRefusal::ProvisionalNeedsApproval);
    }
    let provisional = match &args.provisional {
        Some(reason) => {
            let reason = trim(reason.as_str());
            if reason.as_str().is_empty() {
                return Err(ReviewRefusal::EmptyProvisional);
            }
            Some(reason)
        },
        None => None,
    };
    if args.verdict == Verdict::ChangesRequested && args.causes.len() == 0 {
        return Err(ReviewRefusal::CauseRequired);
    }
    if args.verdict != Verdict::ChangesRequested && args.causes.len() > 0 {
        return Err(ReviewRefusal::CauseNotAllowed);
    }
    if args.snapshot_first && args.patchset.is_some() {
        return Err(ReviewRefusal::SnapshotExcludesPatchset);
    }
    if args.snapshot_first && !may_snapshot(state, current, clean) {
        return Err(ReviewRefusal::SnapshotNeedsCleanCheckout);
    }
    Ok(ReviewPlan { causes, provisional })
}

/// Why a verdict is not recorded.
#[derive(Clone, Copy, Debug, PartialEq, Eq, Structural)]
pub enum VerdictRefusal {
    NoPatchset,
    ApprovalWithBlockingFindings,
}

/// Whether some finding is blocking.
pub open spec fn any_blocking(findings: Seq<InlineFinding>) -> bool {
    exists|i: int| 0 <= i < findings.len() && (#[trigger] findings[i]).blocking
}

/// Whether some finding is blocking.
pub fn has_blocking(findings: &Vec<InlineFinding>) -> (r: bool)
    ensures
        r == any_blocking(findings@),
{
    for i in 0..findings.len()
        invariant
            forall|k: int| 0 <= k < i ==> !(#[trigger] findings@[k]).blocking,
    {
        if findings[i].blocking {
            return true;
        }
    }
    false
}

/// Whether `r` records a decision on a patchset, or says why not.
pub open spec fn records_decision(
    patchset_id: Option<String>,
    verdict: Verdict,
    plan: ReviewPlan,
    body: Option<String>,
    findings: Vec<InlineFinding>,
    r: Result<Payload, VerdictRefusal>,
) -> bool {
    r == (if patchset_id is None {
            Err(VerdictRefusal::NoPatchset)
        } else if verdict == Verdict::Approved && any_blocking(findings@) {
            Err(VerdictRefusal::ApprovalWithBlockingFindings)
        } else {
            Ok(
                Payload::VerdictRecorded {
                    patchset_id: patchset_id->0,
                    verdict,
                    causes: plan.causes,
                    body,
                    findings,
                    provisional: plan.provisional,
                },
            )
        })
}

/// What records a decision on a patchset. No blocking finding comes with an approval.
pub fn verdict_payload(
    patchset_id: Option<String>,
    verdict: Verdict,
    plan: ReviewPlan,
    body: Option<String>,
    findings: Vec<InlineFinding>,
) -> (r: Result<Payload, VerdictRefusal>)
    ensures
        records_decision(patchset_id, verdict, plan, body, findings, r),
{
    match patchset_id {
        Some(patchset_id) => {
            if verdict == Verdict::Approved && has_blocking(&findings) {
                return Err(VerdictRefusal::ApprovalWithBlockingFindings);
            }
            Ok(
                Payload::VerdictRecorded {
                    patchset_id,
                    verdict,
                    causes: plan.causes,
                    body,
                    findings,
                    provisional: plan.provisional,
                },
            )
        },
        None => Err(VerdictRefusal::NoPatchset),
    }
}

/// What the repository says of the head that a snapshot records.
pub struct SnapshotFacts {
    pub head: String,
    /// The base that the caller names, resolved.
    pub named_base: Option<String>,
    pub merge_base: Option<String>,
    pub author_name: String,
    pub author_email: String,
    pub committer_name: String,
    pub committer_email: String,
    /// Whether the claim on the change is active.
    pub claim_active: bool,
}

/// The base of a snapshot: the one that is named, or else where the branch left its target, or
/// else the base of the change.
pub open spec fn snapshot_base(state: ChangeState, facts: SnapshotFacts) -> Seq<char> {
    match facts.named_base {
        Some(base) => base@,
        None => match facts.merge_base {
            Some(base) => base@,
            None => state.base@,
        },
    }
}

/// The brief that a snapshot is made from.
pub open spec fn snapshot_brief(state: ChangeState, version: Option<usize>) -> Option<Seq<char>> {
    match brief_at(state, version) {
        Some(k) => Some(state.briefs@[k].event_id@),
        None => None,
    }
}

/// Whether the latest patchset already records this head, base and brief.
pub open spec fn unchanged(
    state: ChangeState,
    head: Seq<char>,
    base: Seq<char>,
    brief: Option<Seq<char>>,
) -> bool {
    state.patchsets@.len() > 0 && state.patchsets@.last().head@ == head
        && state.patchsets@.last().base@ == base && opt_view(state.patchsets@.last().brief_ref)
        == brief
}

/// The identity of the `n`th patchset: its number, of two digits at least.
pub open spec fn patchset_name(n: nat) -> Seq<char> {
    "ps-"@ + (if n < 10 {
        "0"@ + decimal_of(n)
    } else {
        decimal_of(n)
    })
}

/// A snapshot: what would record it, and the patchset that already does.
#[derive(Debug)]
pub struct Snapshot {
    pub patchset_id: String,
    pub payload: Payload,
    pub unchanged: Option<String>,
}

/// No brief has that version.
#[derive(Debug, PartialEq, Eq, Structural)]
pub struct NoSuchBrief;

/// Whether `payload` records a snapshot.
pub open spec fn records_snapshot(
    payload: Payload,
    state: ChangeState,
    facts: SnapshotFacts,
    version: Option<usize>,
    contributors: Seq<Seq<char>>,
) -> bool {
    match payload {
        Payload::PatchsetAdded {
            patchset_id,
            base,
            head,
            merge_base,
            brief_ref,
            author_name,
            author_email,
            committer_name,
            committer_email,
            contributors: named,
            claim_id,
            claim_actor,
        } => {
            &&& patchset_id@ == patchset_name((state.patchsets@.len() + 1) as nat)
            &&& base@ == snapshot_base(state, facts)
            &&& head@ == facts.head@
            &&& opt_view(merge_base) == opt_view(facts.merge_base)
            &&& opt_view(brief_ref) == snapshot_brief(state, version)
            &&& opt_view(author_name) == Some(facts.author_name@)
            &&& opt_view(author_email) == Some(facts.author_email@)
            &&& opt_view(committer_name) == Some(facts.committer_name@)
            &&& opt_view(committer_email) == Some(facts.committer_email@)
            &&& views(named@) == contributors
            &&& if state.claim is Some && facts.claim_active {
                &&& opt_view(claim_id) == Some(state.claim->0.claim_id@)
                &&& opt_view(claim_actor) == Some(state.claim->0.owner.actor@)
            } else {
                claim_id is None && claim_actor is None
            }
        },
        _ => false,
    }
}

/// Whether `r` is a snapshot of the head of a change.
pub open spec fn takes_snapshot(
    state: &ChangeState,
    facts: &SnapshotFacts,
    brief_version: Option<usize>,
    contributors: Vec<String>,
    r: Result<Snapshot, NoSuchBrief>,
) -> bool {
    match r {
            Ok(snapshot) => {
                &&& brief_version is Some ==> brief_at(*state, brief_version) is Some
                &&& snapshot.patchset_id@ == patchset_name((state.patchsets@.len() + 1) as nat)
                &&& records_snapshot(
                    snapshot.payload,
                    *state,
                    *facts,
                    brief_version,
                    views(contributors@),
                )
                &&& opt_view(snapshot.unchanged) == (if unchanged(
                    *state,
                    facts.head@,
                    snapshot_base(*state, *facts),
                    snapshot_brief(*state, brief_version),
                ) {
                    Some(state.patchsets@.last().id@)
                } else {
                    None
                })
            },
            Err(_) => brief_version is Some && brief_at(*state, brief_version) is None,
        }
}

/// A snapshot of the head of a change, from the brief of this version or the latest one.
pub fn snapshot(
    state: &ChangeState,
    facts: &SnapshotFacts,
    brief_version: Option<usize>,
    contributors: Vec<String>,
) -> (r: Result<Snapshot, NoSuchBrief>)
    requires
        state.patchsets@.len() < u64::MAX,
    ensures
        takes_snapshot(state, facts, brief_version, contributors, r),
{
    let base = match &facts.named_base {
        Some(base) => base.clone(),
        None => match &facts.merge_base {
            Some(base) => base.clone(),
            None => state.base.clone(),
        },
    };
    let total: usize = state.briefs.len();
    let brief_ref = match brief_version {
        Some(version) => {
            if version == 0 || version > total {
                return Err(NoSuchBrief);
            }
            Some(state.briefs[version - 1].event_id.clone())
        },
        None => if total == 0 {
            None
        } else {
            Some(state.briefs[total - 1].event_id.clone())
        },
    };
    let mut known: Option<String> = None;
    if state.patchsets.len() > 0 {
        let last = &state.patchsets[state.patchsets.len() - 1];
        if same(last.head.as_str(), facts.head.as_str()) && same(last.base.as_str(), base.as_str())
            && same_option(&last.brief_ref, &brief_ref) {
            known = Some(last.id.clone());
        }
    }
    let number: u64 = state.patchsets.len() as u64 + 1;
    let mut patchset_id = String::new();
    patchset_id.append("ps-");
    if number < 10 {
        patchset_id.append("0");
    }
    patchset_id.append(decimal(number).as_str());
    assert(patchset_id@ =~= patchset_name(number as nat));
    let (claim_id, claim_actor) = match &state.claim {
        Some(claim) => if facts.claim_active {
            (Some(claim.claim_id.clone()), Some(claim.owner.actor.clone()))
        } else {
            (None, None)
        },
        None => (None, None),
    };
    let payload = Payload::PatchsetAdded {
        patchset_id: patchset_id.clone(),
        base,
        head: facts.head.clone(),
        merge_base: facts.merge_base.clone(),
        brief_ref,
        author_name: Some(facts.author_name.clone()),
        author_email: Some(facts.author_email.clone()),
        committer_name: Some(facts.committer_name.clone()),
        committer_email: Some(facts.committer_email.clone()),
        contributors,
        claim_id,
        claim_actor,
    };
    Ok(Snapshot { patchset_id, payload, unchanged: known })
}

/// Recording a snapshot again without a new head, base or brief finds the patchset that it
/// recorded: a patchset that holds what a snapshot says is found unchanged.
pub proof fn repeated_snapshots_change_nothing(
    state: ChangeState,
    facts: SnapshotFacts,
    version: Option<usize>,
    patchset: Patchset,
    after: ChangeState,
)
    requires
        patchset.head@ == facts.head@,
        patchset.base@ == snapshot_base(state, facts),
        opt_view(patchset.brief_ref) == snapshot_brief(state, version),
        after.patchsets@ == state.patchsets@.push(patchset),
        after.briefs@ == state.briefs@,
        after.base@ == state.base@,
    ensures
        unchanged(after, facts.head@, snapshot_base(after, facts), snapshot_brief(after, version)),
{
}

/// A finding as it is handed in for a batch.
pub struct FindingInput {
    pub blocking: bool,
    pub severity: Severity,
    pub summary: String,
    pub body: Option<String>,
    pub anchor: Option<AnchorArgs>,
}

/// The finding of a batch at a position carries a line anchor, which an audit cannot offer.
#[derive(Debug, PartialEq, Eq, Structural)]
pub struct AnchoredAuditFinding {
    pub index: usize,
}

/// Whether `finding` records a finding that was handed in, under an identity.
pub open spec fn records_finding(
    finding: InlineFinding,
    input: FindingInput,
    id: Seq<char>,
    anchor: Option<Anchor>,
) -> bool {
    &&& finding.finding_id@ == id
    &&& finding.blocking == input.blocking
    &&& finding.severity == input.severity
    &&& finding.summary@ == input.summary@
    &&& opt_view(finding.body) == opt_view(input.body)
    &&& finding.anchor == anchor
}

/// Whether `r` are the findings of an audit, or which of them is refused.
pub open spec fn reads_findings(
    inputs: &Vec<FindingInput>,
    ids: &Vec<String>,
    r: Result< Vec<InlineFinding>, AnchoredAuditFinding, >,
) -> bool {
    match r {
            Ok(findings) => findings@.len() == inputs@.len() && forall|i: int|
                0 <= i < inputs@.len() ==> inputs@[i].anchor is None && records_finding(
                    #[trigger] findings@[i],
                    inputs@[i],
                    ids@[i]@,
                    None,
                ),
            Err(refusal) => refusal.index < inputs@.len()
                && inputs@[refusal.index as int].anchor is Some && forall|i: int|
                0 <= i < refusal.index ==> (#[trigger] inputs@[i]).anchor is None,
        }
}

/// The findings of an audit: an audit looks at an integrated revision, and anchors resolve
/// through the diff of a patchset, so none is offered.
pub fn parse_inline_findings(inputs: &Vec<FindingInput>, ids: &Vec<String>) -> (r: Result<
    Vec<InlineFinding>,
    AnchoredAuditFinding,
>)
    requires
        ids@.len() == inputs@.len(),
    ensures
        reads_findings(inputs, ids, r),
{
    let mut out: Vec<InlineFinding> = Vec::new();
    for i in 0..inputs.len()
        invariant
            ids@.len() == inputs@.len(),
            out@.len() == i,
            forall|k: int| 0 <= k < i ==> (#[trigger] inputs@[k]).anchor is None,
            forall|k: int|
                0 <= k < i ==> records_finding(#[trigger] out@[k], inputs@[k], ids@[k]@, None),
    {
        let input = &inputs[i];
        if input.anchor.is_some() {
            return Err(AnchoredAuditFinding { index: i });
        }
        let finding = InlineFinding {
            finding_id: ids[i].clone(),
            blocking: input.blocking,
            severity: input.severity,
            summary: input.summary.clone(),
            body: input.body.clone(),
            anchor: None,
        };
        assert(records_finding(finding, inputs@[i as int], ids@[i as int]@, None));
        out.push(finding);
    }
    Ok(out)
}

/// The anchor of a finding in a batch, where it has one that points into a file.
pub open spec fn batch_anchored(
    input: FindingInput,
    blob: Option<String>,
    anchor: Option<Anchor>,
) -> bool {
    if input.anchor is Some && input.anchor->0.path is Some {
        anchor is Some && anchored(input.anchor->0, blob, anchor)
    } else {
        anchor is None
    }
}

/// Whether `r` are the findings of a review.
pub open spec fn hands_findings(
    inputs: &Vec<FindingInput>,
    ids: &Vec<String>,
    blobs: &Vec<Option<String>>,
    r: Vec<InlineFinding>,
) -> bool {
    &&& r@.len() == inputs@.len()
    &&& forall|i: int|
            0 <= i < inputs@.len() ==> records_finding(
                #[trigger] r@[i],
                inputs@[i],
                ids@[i]@,
                r@[i].anchor,
            ) && batch_anchored(inputs@[i], blobs@[i], r@[i].anchor)
}

/// The findings of a review, each under a fresh identity. `blobs` holds, for each, the content of
/// the file at the revision that its anchor points into.
pub fn review_findings(
    inputs: &Vec<FindingInput>,
    ids: &Vec<String>,
    blobs: &Vec<Option<String>>,
) -> (r: Vec<InlineFinding>)
    requires
        ids@.len() == inputs@.len(),
        blobs@.len() == inputs@.len(),
    ensures
        hands_findings(inputs, ids, blobs, r),
{
    let mut out: Vec<InlineFinding> = Vec::new();
    for i in 0..inputs.len()
        invariant
            ids@.len() == inputs@.len(),
            blobs@.len() == inputs@.len(),
            out@.len() == i,
            forall|k: int|
                0 <= k < i ==> records_finding(
                    #[trigger] out@[k],
                    inputs@[k],
                    ids@[k]@,
                    out@[k].anchor,
                ) && batch_anchored(inputs@[k], blobs@[k], out@[k].anchor),
    {
        let input = &inputs[i];
        let blob = match &blobs[i] {
            Some(blob) => Some(blob.clone()),
            None => None,
        };
        let anchor = match &input.anchor {
            Some(args) => match build_anchor(args, blob) {
                Ok(anchor) => anchor,
                Err(_) => None,
            },
            None => None,
        };
        assert(batch_anchored(*input, blobs@[i as int], anchor));
        let finding = InlineFinding {
            finding_id: ids[i].clone(),
            blocking: input.blocking,
            severity: input.severity,
            summary: input.summary.clone(),
            body: input.body.clone(),
            anchor,
        };
        out.push(finding);
    }
    out
}

/// Why a finding is not resolved.
#[derive(Clone, Copy, Debug, PartialEq, Eq, Structural)]
pub enum ResolveRefusal {
    IsAComment,
    Unknown,
}

/// A finding of a change: raised before its integration, or by an audit after it.
#[derive(Debug)]
pub struct FindingRef {
    pub finding_id: String,
    pub audit: bool,
}

/// Whether one of some findings has this identity.
pub open spec fn has_finding(findings: Seq<FindingState>, id: Seq<char>) -> bool {
    exists|k: int| 0 <= k < findings.len() && #[trigger] findings[k].finding_id@ == id
}

/// The position of the finding of this identity.
pub fn find_finding(findings: &Vec<FindingState>, id: &str) -> (r: Option<usize>)
    ensures
        match r {
            Some(k) => k < findings@.len() && findings@[k as int].finding_id@ == id@ && has_finding(
                findings@,
                id@,
            ),
            None => !has_finding(findings@, id@),
        },
{
    for k in 0..findings.len()
        invariant
            forall|j: int| 0 <= j < k ==> (#[trigger] findings@[j]).finding_id@ != id@,
    {
        if same(findings[k].finding_id.as_str(), id) {
            assert(findings@[k as int].finding_id@ == id@);
            return Some(k);
        }
    }
    None
}

/// What a resolved finding reference means: the finding that a discussion event added, or the
/// finding of that identity where no event is meant.
pub open spec fn resolves_to(
    state: ChangeState,
    event: Option<Payload>,
    reference: Seq<char>,
) -> Result<(Seq<char>, bool), ResolveRefusal> {
    match event {
        Some(Payload::FindingAdded { finding_id, .. }) => Ok((finding_id@, false)),
        Some(Payload::AuditFindingAdded { finding_id, .. }) => Ok((finding_id@, true)),
        Some(_) => Err(ResolveRefusal::IsAComment),
        None => if has_finding(state.findings@, reference) {
            Ok((reference, false))
        } else if has_finding(state.audit_findings@, reference) {
            Ok((reference, true))
        } else {
            Err(ResolveRefusal::Unknown)
        },
    }
}

/// The finding that a reference means: the one that a discussion event added, or the one of that
/// identity where no event is meant.
pub fn resolve(state: &ChangeState, event: Option<&Payload>, reference: &str) -> (r: Result<
    FindingRef,
    ResolveRefusal,
>)
    ensures
        ({
            let meant = resolves_to(
                *state,
                match event {
                    Some(payload) => Some(*payload),
                    None => None,
                },
                reference@,
            );
            match r {
                Ok(found) => meant == Ok::<(Seq<char>, bool), ResolveRefusal>(
                    (found.finding_id@, found.audit),
                ),
                Err(refusal) => meant == Err::<(Seq<char>, bool), ResolveRefusal>(refusal),
            }
        }),
{
    match event {
        Some(payload) => match payload {
            Payload::FindingAdded { finding_id, .. } => Ok(
                FindingRef { finding_id: finding_id.clone(), audit: false },
            ),
            Payload::AuditFindingAdded { finding_id, .. } => Ok(
                FindingRef { finding_id: finding_id.clone(), audit: true },
            ),
            _ => Err(ResolveRefusal::IsAComment),
        },
        None => if find_finding(&state.findings, reference).is_some() {
            Ok(FindingRef { finding_id: reference.to_string(), audit: false })
        } else if find_finding(&state.audit_findings, reference).is_some() {
            Ok(FindingRef { finding_id: reference.to_string(), audit: true })
        } else {
            Err(ResolveRefusal::Unknown)
        },
    }
}

/// Whether `tips` are the dispositions of a finding of this identity that none has superseded.
pub open spec fn are_tips(
    findings: Seq<FindingState>,
    id: Seq<char>,
    tips: Seq<Seq<char>>,
) -> bool {
    exists|k: int|
        0 <= k < findings.len() && (#[trigger] findings[k]).finding_id@ == id && tips == views(
            findings[k].tips@,
        )
}

/// Whether `r` records the disposition of a finding.
pub open spec fn disposes(
    state: &ChangeState,
    finding: &FindingRef,
    status: String,
    commit: Option<String>,
    evidence: Option<String>,
    r: Option<Payload>,
) -> bool {
    match r {
            Some(Payload::DispositionRecorded {
                finding_id,
                status: s,
                commit: c,
                evidence: e,
                supersedes,
            }) => !finding.audit && finding_id@ == finding.finding_id@ && s == status && c == commit
                && e == evidence && are_tips(
                state.findings@,
                finding.finding_id@,
                views(supersedes@),
            ),
            Some(Payload::AuditDispositionRecorded {
                finding_id,
                status: s,
                commit: c,
                evidence: e,
                supersedes,
            }) => finding.audit && finding_id@ == finding.finding_id@ && s == status && c == commit
                && e == evidence && are_tips(
                state.audit_findings@,
                finding.finding_id@,
                views(supersedes@),
            ),
            Some(_) => false,
            None => !has_finding(
                if finding.audit {
                    state.audit_findings@
                } else {
                    state.findings@
                },
                finding.finding_id@,
            ),
        }
}

/// What records the disposition of a finding: it supersedes every disposition that none has
/// superseded yet.
pub fn disposition_payload(
    state: &ChangeState,
    finding: &FindingRef,
    status: String,
    commit: Option<String>,
    evidence: Option<String>,
) -> (r: Option<Payload>)
    ensures
        disposes(state, finding, status, commit, evidence, r),
{
    let findings = if finding.audit {
        &state.audit_findings
    } else {
        &state.findings
    };
    let k: usize = match find_finding(findings, finding.finding_id.as_str()) {
        Some(k) => k,
        None => return None,
    };
    let supersedes = findings[k].tips.clone();
    assert(views(supersedes@) =~= views(findings@[k as int].tips@));
    assert(are_tips(findings@, finding.finding_id@, views(supersedes@)));
    if finding.audit {
        Some(
            Payload::AuditDispositionRecorded {
                finding_id: finding.finding_id.clone(),
                status,
                commit,
                evidence,
                supersedes,
            },
        )
    } else {
        Some(
            Payload::DispositionRecorded {
                finding_id: finding.finding_id.clone(),
                status,
                commit,
                evidence,
                supersedes,
            },
        )
    }
}

/// One verdict of a change, as a review shows it.
pub struct ReviewVerdict {
    /// The position of the verdict.
    pub verdict: usize,
    pub valid_for_current_head: bool,
    /// The position of the patchset that it is on.
    pub patchset: Option<usize>,
    /// The positions of the findings that it recorded.
    pub findings: Vec<usize>,
}

/// Whether `row` shows the verdict at `k`: valid where it is the one that has authority and that
/// one is valid, with its patchset and the findings that it recorded.
pub open spec fn shows_verdict(
    row: ReviewVerdict,
    state: ChangeState,
    k: int,
    latest_is_valid: bool,
) -> bool {
    let verdict = state.verdicts@[k];
    &&& row.verdict == k
    &&& row.valid_for_current_head == (latest_is_valid && state.authoritative() is Some
        && state.verdicts@[state.authoritative()->0].event_id@ == verdict.event_id@)
    &&& match row.patchset {
        Some(p) => patchset_at(state, verdict.patchset_id@, p as int),
        None => !has_patchset(state, verdict.patchset_id@),
    }
    &&& ints(row.findings@) == chosen(
        state.findings@.len(),
        |i: int| state.findings@[i].origin_event@ == verdict.event_id@,
    )
}

fn review_verdict(state: &ChangeState, k: usize, latest_is_valid: bool) -> (r: ReviewVerdict)
    requires
        k < state.verdicts@.len(),
    ensures
        shows_verdict(r, *state, k as int, latest_is_valid),
{
    let verdict = &state.verdicts[k];
    let valid_for_current_head = latest_is_valid && match state.latest_verdict() {
        Some(latest) => same(
            state.verdicts[latest].event_id.as_str(),
            verdict.event_id.as_str(),
        ),
        None => false,
    };
    let mut findings: Vec<usize> = Vec::new();
    let all = &state.findings;
    for i in 0..all.len()
        invariant
            all@ == state.findings@,
            *verdict == state.verdicts@[k as int],
            ints(findings@) == chosen(
                i as nat,
                |j: int| state.findings@[j].origin_event@ == state.verdicts@[k as int].event_id@,
            ),
    {
        let ghost before = ints(findings@);
        if same(all[i].origin_event.as_str(), verdict.event_id.as_str()) {
            findings.push(i);
            assert(ints(findings@) =~= before.push(i as int));
        }
    }
    ReviewVerdict {
        verdict: k,
        valid_for_current_head,
        patchset: find_patchset(state, verdict.patchset_id.as_str()),
        findings,
    }
}

/// Whether `r` are the verdicts of a change as a review shows them.
pub open spec fn shows_verdicts(
    state: &ChangeState,
    latest_is_valid: bool,
    r: Vec<ReviewVerdict>,
) -> bool {
    &&& r@.len() == state.verdicts@.len()
    &&& forall|i: int|
            0 <= i < r@.len() ==> shows_verdict(
                #[trigger] r@[i],
                *state,
                state.verdicts@.len() - 1 - i,
                latest_is_valid,
            )
}

/// The verdicts of a change as a review shows them, the latest first.
pub fn read_review(state: &ChangeState, latest_is_valid: bool) -> (r: Vec<ReviewVerdict>)
    ensures
        shows_verdicts(state, latest_is_valid, r),
{
    let mut out: Vec<ReviewVerdict> = Vec::new();
    let total: usize = state.verdicts.len();
    for i in 0..total
        invariant
            total == state.verdicts@.len(),
            out@.len() == i,
            forall|k: int|
                0 <= k < i ==> shows_verdict(
                    #[trigger] out@[k],
                    *state,
                    state.verdicts@.len() - 1 - k,
                    latest_is_valid,
                ),
    {
        out.push(review_verdict(state, total - 1 - i, latest_is_valid));
    }
    out
}

/// Only what the event of the verdict with authority recorded is valid for the current head: any
/// other verdict never is.
pub proof fn other_verdicts_are_stale(state: ChangeState, row: ReviewVerdict, k: int, valid: bool)
    requires
        0 <= k < state.verdicts@.len(),
        shows_verdict(row, state, k, valid),
        state.authoritative() matches Some(a) ==> state.verdicts@[k].event_id@
            != state.verdicts@[a].event_id@,
    ensures
        !row.valid_for_current_head,
{
}

/// Why a remark is not recorded.
#[derive(Clone, Copy, Debug, PartialEq, Eq, Structural)]
pub enum RemarkRefusal {
    Patchset { refusal: PatchsetRefusal },
    LineNeedsPath,
}

/// Whether an identity is that of the patchset that a reference means.
pub open spec fn means_patchset(
    state: ChangeState,
    patchset: Option<String>,
    id: Option<Seq<char>>,
) -> bool {
    match patchset {
        None => id == (if state.patchsets@.len() == 0 {
            None
        } else {
            Some(state.patchsets@.last().id@)
        }),
        Some(reference) => if has_patchset(state, reference@) {
            id == Some(reference@)
        } else {
            exists|k: int|
                headed(state, reference@) == seq![k] && 0 <= k < state.patchsets@.len() && id
                    == Some((#[trigger] state.patchsets@[k]).id@)
        },
    }
}

/// Whether no patchset is meant by a reference, or more than one.
pub open spec fn means_none(
    state: ChangeState,
    patchset: Option<String>,
    refusal: PatchsetRefusal,
) -> bool {
    patchset matches Some(reference) && !has_patchset(state, reference@) && match refusal {
        PatchsetRefusal::Unknown => headed(state, reference@).len() == 0,
        PatchsetRefusal::Ambiguous { matches } => matches > 1 && headed(state, reference@).len()
            == matches,
    }
}

/// Whether a reference means no patchset, or more than one.
pub open spec fn means_other(state: ChangeState, patchset: Option<String>) -> bool {
    patchset matches Some(reference) && !has_patchset(state, reference@) && headed(
        state,
        reference@,
    ).len() != 1
}

/// Whether an anchor is the one that the arguments describe.
pub open spec fn anchored(args: AnchorArgs, blob: Option<String>, anchor: Option<Anchor>) -> bool {
    match anchor {
        Some(anchor) => {
            &&& args.path is Some
            &&& anchor.path@ == args.path->0@
            &&& anchor.side == args.side
            &&& anchor.blob == blob
            &&& anchor.line_start == args.line_start
            &&& anchor.line_end == (if args.line_end is Some {
                args.line_end
            } else {
                args.line_start
            })
            &&& opt_view(anchor.context) == opt_view(args.context)
        },
        None => args.path is None && args.line_start is None,
    }
}

fn place_remark(
    state: &ChangeState,
    patchset: &Option<String>,
    args: &AnchorArgs,
    blob: Option<String>,
) -> (r: Result<(Option<String>, Option<Anchor>), RemarkRefusal>)
    ensures
        match r {
            Ok((id, anchor)) => means_patchset(*state, *patchset, opt_view(id)) && anchored(
                *args,
                blob,
                anchor,
            ),
            Err(RemarkRefusal::Patchset { refusal }) => means_none(*state, *patchset, refusal),
            Err(RemarkRefusal::LineNeedsPath) => !means_other(*state, *patchset) && args.path is None
                && args.line_start is Some,
        },
{
    let id = match resolve_patchset_id(state, patchset) {
        Ok(id) => id,
        Err(refusal) => {
            return Err(RemarkRefusal::Patchset { refusal });
        },
    };
    match build_anchor(args, blob) {
        Ok(anchor) => Ok((id, anchor)),
        Err(_) => Err(RemarkRefusal::LineNeedsPath),
    }
}

/// What records a comment.
pub fn comment(
    state: &ChangeState,
    body: String,
    patchset: &Option<String>,
    args: &AnchorArgs,
    blob: Option<String>,
) -> (r: Result<Payload, RemarkRefusal>)
    ensures
        match r {
            Ok(Payload::CommentAdded { body: text, patchset_id, anchor }) => {
                &&& text == body
                &&& means_patchset(*state, *patchset, opt_view(patchset_id))
                &&& anchored(*args, blob, anchor)
            },
            Ok(_) => false,
            Err(RemarkRefusal::Patchset { refusal }) => means_none(*state, *patchset, refusal),
            Err(RemarkRefusal::LineNeedsPath) => !means_other(*state, *patchset) && args.path is None
                && args.line_start is Some,
        },
{
    match place_remark(state, patchset, args, blob) {
        Ok((patchset_id, anchor)) => Ok(Payload::CommentAdded { body, patchset_id, anchor }),
        Err(refusal) => Err(refusal),
    }
}

/// What is said of a finding that is added.
pub struct AddedFinding {
    pub summary: String,
    pub body: Option<String>,
    pub blocking: bool,
    pub severity: Severity,
}

/// What records a finding.
pub fn finding(
    state: &ChangeState,
    finding_id: String,
    input: AddedFinding,
    patchset: &Option<String>,
    args: &AnchorArgs,
    blob: Option<String>,
) -> (r: Result<Payload, RemarkRefusal>)
    ensures
        match r {
            Ok(
                Payload::FindingAdded {
                    finding_id: id,
                    blocking,
                    severity,
                    summary,
                    body,
                    patchset_id,
                    anchor,
                },
            ) => {
                &&& id == finding_id
                &&& blocking == input.blocking
                &&& severity == input.severity
                &&& summary == input.summary
                &&& body == input.body
                &&& means_patchset(*state, *patchset, opt_view(patchset_id))
                &&& anchored(*args, blob, anchor)
            },
            Ok(_) => false,
            Err(RemarkRefusal::Patchset { refusal }) => means_none(*state, *patchset, refusal),
            Err(RemarkRefusal::LineNeedsPath) => !means_other(*state, *patchset) && args.path is None
                && args.line_start is Some,
        },
{
    match place_remark(state, patchset, args, blob) {
        Ok((patchset_id, anchor)) => Ok(
            Payload::FindingAdded {
                finding_id,
                blocking: input.blocking,
                severity: input.severity,
                summary: input.summary,
                body: input.body,
                patchset_id,
                anchor,
            },
        ),
        Err(refusal) => Err(refusal),
    }
}

/// What is said of an approval that counts for nothing, and why.
pub fn inert_approval(change_id: &str, reason: &str) -> (r: String)
    ensures
        r@ == "note: this approval does not gate — "@ + reason@
            + ".\n      integration will still refuse. Record the review this change owes with `arc integrate "@
            + change_id@
            + " --audit-debt <reason>`, or obtain a verdict from a different actor."@,
{
    let mut out = "note: this approval does not gate — ".to_string();
    out.append(reason);
    out.append(
        ".\n      integration will still refuse. Record the review this change owes with `arc integrate ",
    );
    out.append(change_id);
    out.append(" --audit-debt <reason>`, or obtain a verdict from a different actor.");
    out
}

/// A reference means the patchset of that identity where there is one; without a reference the
/// latest is meant, and what is meant is always a patchset of the change.
pub proof fn references_mean_patchsets(
    state: &ChangeState,
    patchset: &Option<String>,
    r: Result<Option<String>, PatchsetRefusal>,
)
    requires
        resolves_patchset(state, patchset, r),
    ensures
        r matches Ok(Some(id)) ==> exists|k: int|
            0 <= k < state.patchsets@.len() && (#[trigger] state.patchsets@[k]).id@ == id@,
        *patchset matches Some(reference) ==> (forall|k: int|
            0 <= k < state.patchsets@.len() && (#[trigger] state.patchsets@[k]).id@ == reference@
                ==> (r matches Ok(Some(id)) && id@ == reference@)),
        patchset is None ==> r is Ok && (r->Ok_0 is Some <==> state.patchsets@.len() > 0),
        patchset is None && state.patchsets@.len() > 0 ==> (r->Ok_0)->0@
            == state.patchsets@.last().id@,
        *patchset matches Some(reference) ==> forall|k: int|
            0 <= k < state.patchsets@.len() && begins(
                (#[trigger] state.patchsets@[k]).head@,
                reference@,
            ) ==> r != Err::<Option<String>, PatchsetRefusal>(PatchsetRefusal::Unknown),
{
    if let Some(reference) = *patchset {
        let wanted = |i: int| begins(state.patchsets@[i].head@, reference@);
        lemma_chosen(state.patchsets@.len(), wanted);
        assert(headed(*state, reference@) =~= chosen(state.patchsets@.len(), wanted));
        assert forall|k: int|
            0 <= k < state.patchsets@.len() && begins(
                (#[trigger] state.patchsets@[k]).head@,
                reference@,
            ) implies r != Err::<Option<String>, PatchsetRefusal>(PatchsetRefusal::Unknown) by {
            assert(wanted(k));
            assert(headed(*state, reference@).contains(k));
        }
    }
}

/// A remark has an anchor exactly where a file is given; a line without a file is refused; and one
/// line ends where it starts.
pub proof fn anchors_lie_in_files(
    args: &AnchorArgs,
    blob: Option<String>,
    r: Result<Option<Anchor>, LineNeedsPath>,
)
    requires
        builds_anchor(args, blob, r),
    ensures
        r is Err <==> args.path is None && args.line_start is Some,
        args.path is Some ==> r is Ok && r->Ok_0 is Some && (r->Ok_0)->0.path@ == args.path->0@ && (
        r->Ok_0)->0.line_start == args.line_start && (r->Ok_0)->0.side == args.side,
        args.path is Some && args.line_end is None ==> (r->Ok_0)->0.line_end == args.line_start,
        args.path is Some && args.line_end is Some ==> (r->Ok_0)->0.line_end == args.line_end,
        args.path is None && args.line_start is None ==> r is Ok && r->Ok_0 is None,
{
}

/// A request for changes says why, and nothing else does; only an approval is provisional, and it
/// says on what account; a snapshot is taken first only of the branch of the change, checked out
/// and clean, and never for a named patchset. A review that keeps to this is recorded.
pub proof fn reviews_are_coherent(
    args: &ReviewArgs,
    state: &ChangeState,
    current: &Option<String>,
    clean: bool,
    r: Result<ReviewPlan, ReviewRefusal>,
)
    requires
        answers_review(args, state, current, clean, r),
    ensures
        r is Ok <==> {
            &&& args.verdict == Verdict::ChangesRequested <==> args.causes@.len() > 0
            &&& args.provisional matches Some(reason) ==> args.verdict == Verdict::Approved
                && trimmed(reason@).len() > 0
            &&& args.snapshot_first ==> args.patchset is None && clean && (
            *current matches Some(branch) && branch@ == state.branch@)
        },
{
}

/// What a review records is what it was given: its causes, each once, and its reason.
pub proof fn reviews_keep_their_causes(
    args: &ReviewArgs,
    state: &ChangeState,
    current: &Option<String>,
    clean: bool,
    r: Result<ReviewPlan, ReviewRefusal>,
)
    requires
        answers_review(args, state, current, clean, r),
        r is Ok,
    ensures
        forall|cause: ReviewCause| #[trigger]
            r->Ok_0.causes@.contains(cause) <==> args.causes@.contains(cause),
        r->Ok_0.causes@.no_duplicates(),
        r->Ok_0.provisional is Some == args.provisional is Some,
{
}

/// The reason that a refused review is given holds of it.
pub proof fn refusals_of_reviews_hold(
    args: &ReviewArgs,
    state: &ChangeState,
    current: &Option<String>,
    clean: bool,
    r: Result<ReviewPlan, ReviewRefusal>,
)
    requires
        answers_review(args, state, current, clean, r),
        r is Err,
    ensures
        match r->Err_0 {
            ReviewRefusal::ProvisionalNeedsApproval => args.provisional is Some && args.verdict
                != Verdict::Approved,
            ReviewRefusal::EmptyProvisional => args.provisional is Some && args.verdict
                == Verdict::Approved,
            ReviewRefusal::CauseRequired => args.verdict == Verdict::ChangesRequested
                && args.causes@.len() == 0,
            ReviewRefusal::CauseNotAllowed => args.verdict != Verdict::ChangesRequested
                && args.causes@.len() > 0,
            ReviewRefusal::SnapshotExcludesPatchset => args.snapshot_first && args.patchset is Some,
            ReviewRefusal::SnapshotNeedsCleanCheckout => args.snapshot_first && (!clean || !(
            *current matches Some(branch) && branch@ == state.branch@)),
        },
{
}

/// No approval is recorded together with a blocking finding; any other verdict on a patchset is
/// recorded with whatever it found.
pub proof fn approvals_block_nothing(
    patchset_id: Option<String>,
    verdict: Verdict,
    plan: ReviewPlan,
    body: Option<String>,
    findings: Vec<InlineFinding>,
    r: Result<Payload, VerdictRefusal>,
)
    requires
        records_decision(patchset_id, verdict, plan, body, findings, r),
    ensures
        patchset_id is None ==> r is Err,
        patchset_id is Some && verdict != Verdict::Approved ==> r is Ok,
        patchset_id is Some && verdict == Verdict::Approved ==> (r is Ok <==> forall|i: int|
            0 <= i < findings@.len() ==> !(#[trigger] findings@[i]).blocking),
        r matches Ok(payload) ==> (payload matches Payload::VerdictRecorded {
            patchset_id: on,
            verdict: given,
            causes,
            findings: found,
            provisional,
            ..
        } && Some(on) == patchset_id && given == verdict && causes == plan.causes && found
            == findings && provisional == plan.provisional),
{
}

/// A snapshot records the head that it was taken of. Its base is the one that was named, and
/// otherwise where the branch left its target; the claim on the change is named exactly while it
/// is active; and the snapshot is found unchanged only where the latest patchset has that head.
pub proof fn snapshots_record_the_head(
    state: &ChangeState,
    facts: &SnapshotFacts,
    brief_version: Option<usize>,
    contributors: Vec<String>,
    r: Result<Snapshot, NoSuchBrief>,
)
    requires
        takes_snapshot(state, facts, brief_version, contributors, r),
    ensures
        brief_version is None ==> r is Ok,
        r matches Ok(snapshot) ==> (snapshot.payload matches Payload::PatchsetAdded {
            patchset_id,
            base,
            head,
            claim_id,
            claim_actor,
            ..
        } && {
            &&& patchset_id@ == snapshot.patchset_id@
            &&& head@ == facts.head@
            &&& facts.named_base matches Some(named) ==> base@ == named@
            &&& facts.named_base is None && facts.merge_base is Some ==> base@
                == facts.merge_base->0@
            &&& facts.named_base is None && facts.merge_base is None ==> base@ == state.base@
            &&& claim_id is Some <==> state.claim is Some && facts.claim_active
            &&& claim_actor is Some <==> claim_id is Some
            &&& claim_id matches Some(claim) ==> claim@ == state.claim->0.claim_id@
            &&& state.patchsets@.len() == 0 ==> snapshot.unchanged is None
            &&& state.patchsets@.len() > 0 && state.patchsets@.last().head@ != head@
                ==> snapshot.unchanged is None
            &&& state.patchsets@.len() > 0 && state.patchsets@.last().base@ != base@
                ==> snapshot.unchanged is None
            &&& snapshot.unchanged matches Some(id) ==> id@ == state.patchsets@.last().id@
        }),
{
}

/// The findings of an audit are taken exactly where none of them is anchored, each as it was handed
/// in.
pub proof fn audits_anchor_nothing(
    inputs: &Vec<FindingInput>,
    ids: &Vec<String>,
    r: Result<Vec<InlineFinding>, AnchoredAuditFinding>,
)
    requires
        reads_findings(inputs, ids, r),
    ensures
        r is Ok <==> forall|i: int| 0 <= i < inputs@.len() ==> (#[trigger] inputs@[i]).anchor is None,
        r matches Ok(findings) ==> findings@.len() == inputs@.len() && forall|i: int|
            0 <= i < inputs@.len() ==> (#[trigger] findings@[i]).blocking == inputs@[i].blocking
                && findings@[i].severity == inputs@[i].severity && findings@[i].summary@
                == inputs@[i].summary@ && findings@[i].finding_id@ == ids@[i]@
                && findings@[i].anchor is None,
{
    if let Ok(findings) = r {
        assert forall|i: int| 0 <= i < inputs@.len() implies (#[trigger] inputs@[i]).anchor is None by {
            assert(records_finding(findings@[i], inputs@[i], ids@[i]@, None));
        }
    }
}

/// The findings of a review are those that were handed in, in their order, anchored exactly where
/// they name a file.
pub proof fn findings_are_kept_as_handed_in(
    inputs: &Vec<FindingInput>,
    ids: &Vec<String>,
    blobs: &Vec<Option<String>>,
    i: int,
    r: Vec<InlineFinding>,
)
    requires
        hands_findings(inputs, ids, blobs, r),
        0 <= i < inputs@.len(),
    ensures
        r@.len() == inputs@.len(),
        r@[i].finding_id@ == ids@[i]@,
        r@[i].blocking == inputs@[i].blocking,
        r@[i].severity == inputs@[i].severity,
        r@[i].summary@ == inputs@[i].summary@,
        r@[i].anchor is Some <==> inputs@[i].anchor is Some && inputs@[i].anchor->0.path is Some,
        r@[i].anchor matches Some(anchor) ==> anchor.path@ == inputs@[i].anchor->0.path->0@
            && anchor.line_start == inputs@[i].anchor->0.line_start,
{
    assert(records_finding(r@[i], inputs@[i], ids@[i]@, r@[i].anchor));
}

/// A reference to an event means the finding that the event added, raised in review or by an audit
/// as the event says, and a comment is no finding. Otherwise it means a finding of that identity,
/// and one raised in review before one of an audit.
pub proof fn references_mean_findings(
    state: ChangeState,
    event: Option<Payload>,
    reference: Seq<char>,
)
    ensures
        ({
            let meant = resolves_to(state, event, reference);
            match event {
                Some(payload) => {
                    &&& meant is Ok <==> payload is FindingAdded || payload is AuditFindingAdded
                    &&& payload matches Payload::FindingAdded { finding_id, .. } ==> meant->Ok_0 == (
                        finding_id@,
                        false,
                    )
                    &&& payload matches Payload::AuditFindingAdded { finding_id, .. }
                        ==> meant->Ok_0 == (finding_id@, true)
                },
                None => {
                    &&& meant is Ok ==> (meant->Ok_0).0 == reference
                    &&& forall|k: int|
                        0 <= k < state.findings@.len() && (#[trigger] state.findings@[k]).finding_id@
                            == reference ==> meant is Ok && !(meant->Ok_0).1
                    &&& forall|k: int|
                        0 <= k < state.audit_findings@.len() && (
                        #[trigger] state.audit_findings@[k]).finding_id@ == reference ==> meant is Ok
                },
            }
        }),
{
    assert forall|k: int|
        0 <= k < state.findings@.len() && (#[trigger] state.findings@[k]).finding_id@
            == reference implies has_finding(state.findings@, reference) by {
    }
    assert forall|k: int|
        0 <= k < state.audit_findings@.len() && (#[trigger] state.audit_findings@[k]).finding_id@
            == reference implies has_finding(state.audit_findings@, reference) by {
    }
}

/// The findings that were raised in review, or by an audit.
pub open spec fn raised(state: ChangeState, audit: bool) -> Seq<FindingState> {
    if audit {
        state.audit_findings@
    } else {
        state.findings@
    }
}

/// A disposition of a finding that is there supersedes all that none has superseded yet, and an
/// audit's finding is disposed of as one.
pub proof fn dispositions_supersede_the_tips(
    state: &ChangeState,
    finding: &FindingRef,
    status: String,
    commit: Option<String>,
    evidence: Option<String>,
    k: int,
    r: Option<Payload>,
)
    requires
        disposes(state, finding, status, commit, evidence, r),
        0 <= k < raised(*state, finding.audit).len(),
        raised(*state, finding.audit)[k].finding_id@ == finding.finding_id@,
        forall|j: int|
            0 <= j < raised(*state, finding.audit).len() && j != k ==> (#[trigger] raised(
                *state,
                finding.audit,
            )[j]).finding_id@ != finding.finding_id@,
    ensures
        !finding.audit ==> (r matches Some(Payload::DispositionRecorded {
            finding_id,
            status: given,
            commit: at,
            supersedes,
            ..
        }) && finding_id@ == finding.finding_id@ && given == status && at == commit && views(
            supersedes@,
        ) == views(state.findings@[k].tips@)),
        finding.audit ==> (r matches Some(Payload::AuditDispositionRecorded {
            finding_id,
            status: given,
            commit: at,
            supersedes,
            ..
        }) && finding_id@ == finding.finding_id@ && given == status && at == commit && views(
            supersedes@,
        ) == views(state.audit_findings@[k].tips@)),
{
    let findings = raised(*state, finding.audit);
    assert(findings[k].finding_id@ == finding.finding_id@);
    assert(has_finding(findings, finding.finding_id@));
    assert forall|tips: Seq<Seq<char>>| #[trigger]
        are_tips(findings, finding.finding_id@, tips) implies tips == views(findings[k].tips@) by {
        let j = choose|j: int|
            0 <= j < findings.len() && (#[trigger] findings[j]).finding_id@ == finding.finding_id@
                && tips == views(findings[j].tips@);
        assert(findings[j].finding_id@ == finding.finding_id@);
    }
}

/// A review shows every verdict, the latest first, each with the findings that it recorded, and
/// none valid for the current head where the latest is not.
pub proof fn reviews_show_every_verdict(
    state: &ChangeState,
    latest_is_valid: bool,
    i: int,
    f: usize,
    r: Vec<ReviewVerdict>,
)
    requires
        shows_verdicts(state, latest_is_valid, r),
        0 <= i < state.verdicts@.len(),
        f < state.findings@.len(),
    ensures
        r@.len() == state.verdicts@.len(),
        r@[i].verdict + i == state.verdicts@.len() - 1,
        !latest_is_valid ==> !r@[i].valid_for_current_head,
        r@[i].findings@.contains(f) <==> state.findings@[f as int].origin_event@
            == state.verdicts@[r@[i].verdict as int].event_id@,
{
    let k = state.verdicts@.len() - 1 - i;
    assert(shows_verdict(r@[i], *state, k, latest_is_valid));
    let wanted = |j: int| state.findings@[j].origin_event@ == state.verdicts@[k].event_id@;
    lemma_chosen(state.findings@.len(), wanted);
    lemma_ints_contain(r@[i].findings@, f);
    assert(chosen(state.findings@.len(), wanted).contains(f as int) <==> wanted(f as int));
}

} // verus!
