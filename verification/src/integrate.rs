//! Integrating a change: what is asked for, what authorizes the merge, and what the merge has to
//! carry before it is recorded.
use crate::dependency::{carries, carries_tags, successor};
use crate::event::{
    AuthorizationBasis, NormalizedGate, NormalizedPolicy, Payload, PrerequisiteClosure,
};
use crate::graph::{cyclic, dependency_order, dependency_ordered};
use crate::input::{all_tags, first_invalid, normalize_tags, tagged};
use crate::model::{Closure, Verdict};
use crate::order::{chosen, ints, lemma_chosen, lemma_distinct_bounded, lemma_ints_contain};
use crate::state::{
    known, ledger, lemma_at, outcome, position, ChangeState, ClaimIdentity, ClaimTiming, GateReport,
    StatusReport,
};
use crate::table::{listed, Register};
use crate::text::{among, opt_view, same, same_option, same_texts, views};
use vstd::prelude::*;

verus! {

/// Why an integration is refused before the ledger is read.
#[derive(Debug)]
pub enum IntegrateRefusal {
    Fork,
    IntoNeedsOneChange,
    MessageNeedsOneChange,
    DryRunNeedsOneChange,
    ChangeAndTags,
    Nothing,
    InvalidTag { tag: String },
}

/// Whether one change is integrated, or every change that carries some tags.
#[derive(Debug)]
pub enum IntegrateRequest {
    One,
    Tagged { tags: Vec<String> },
}

/// Whether `r` is what is asked to be integrated, or why that is refused.
pub open spec fn answers_integrate(
    in_fork: bool,
    reference: Option<&str>,
    tags: &Vec<String>,
    into: &Option<String>,
    message: &Option<String>,
    dry_run: bool,
    r: Result<IntegrateRequest, IntegrateRefusal>,
) -> bool {
    match r {
            Ok(IntegrateRequest::One) => !in_fork && reference is Some && tags@.len() == 0,
            Ok(IntegrateRequest::Tagged { tags: t }) => !in_fork && reference is None && tags@.len()
                > 0 && into is None && message is None && !dry_run && views(t@)
                == listed(tagged(tags@)) && all_tags(tags@),
            Err(IntegrateRefusal::Fork) => in_fork,
            Err(IntegrateRefusal::ChangeAndTags) => !in_fork && reference is Some && tags@.len() > 0,
            Err(IntegrateRefusal::Nothing) => !in_fork && reference is None && tags@.len() == 0,
            Err(IntegrateRefusal::IntoNeedsOneChange) => !in_fork && reference is None && tags@.len()
                > 0 && into is Some,
            Err(IntegrateRefusal::MessageNeedsOneChange) => !in_fork && reference is None
                && tags@.len() > 0 && into is None && message is Some,
            Err(IntegrateRefusal::DryRunNeedsOneChange) => !in_fork && reference is None
                && tags@.len() > 0 && into is None && message is None && dry_run,
            Err(IntegrateRefusal::InvalidTag { tag }) => !in_fork && reference is None && tags@.len()
                > 0 && into is None && message is None && !dry_run && first_invalid(
                tags@,
                tag@,
            ),
        }
}

/// What is asked to be integrated, or why that is refused: a fork stays unintegrated on purpose,
/// and what belongs to one merge is not given for several.
pub fn integrate(
    in_fork: bool,
    reference: Option<&str>,
    tags: &Vec<String>,
    into: &Option<String>,
    message: &Option<String>,
    dry_run: bool,
) -> (r: Result<IntegrateRequest, IntegrateRefusal>)
    ensures
        answers_integrate(in_fork, reference, tags, into, message, dry_run, r),
{
    if in_fork {
        return Err(IntegrateRefusal::Fork);
    }
    if reference.is_some() {
        if tags.len() > 0 {
            return Err(IntegrateRefusal::ChangeAndTags);
        }
        return Ok(IntegrateRequest::One);
    }
    if tags.len() == 0 {
        return Err(IntegrateRefusal::Nothing);
    }
    if into.is_some() {
        return Err(IntegrateRefusal::IntoNeedsOneChange);
    }
    if message.is_some() {
        return Err(IntegrateRefusal::MessageNeedsOneChange);
    }
    if dry_run {
        return Err(IntegrateRefusal::DryRunNeedsOneChange);
    }
    match normalize_tags(tags) {
        Ok(tags) => Ok(IntegrateRequest::Tagged { tags }),
        Err(invalid) => Err(IntegrateRefusal::InvalidTag { tag: invalid.tag }),
    }
}

/// Nothing is integrated from a fork; one change is taken exactly where it alone is named, and what
/// belongs to one merge is not given for several.
pub proof fn integrations_name_what_they_merge(
    in_fork: bool,
    reference: Option<&str>,
    tags: &Vec<String>,
    into: &Option<String>,
    message: &Option<String>,
    dry_run: bool,
    r: Result<IntegrateRequest, IntegrateRefusal>,
)
    requires
        answers_integrate(in_fork, reference, tags, into, message, dry_run, r),
    ensures
        in_fork ==> r is Err && r->Err_0 is Fork,
        r is Ok && r->Ok_0 is One <==> !in_fork && reference is Some && tags@.len() == 0,
        r is Ok && r->Ok_0 is Tagged ==> *into is None && *message is None && !dry_run && reference
            is None && tags@.len() > 0,
        !in_fork && reference is None && tags@.len() > 0 && *into is None && *message is None
            && !dry_run ==> (r is Ok && r->Ok_0 is Tagged) || (r is Err && r->Err_0 is InvalidTag),
{
}

/// What a closed change means for an integration.
#[derive(Clone, Copy, Debug, PartialEq, Eq, Structural)]
pub enum ClosedBehavior {
    Refuse,
    SkipTagged,
}

/// How an integration begins.
#[derive(Debug)]
pub enum IntegrationStart {
    /// The change declares that it is iterating.
    Iterating,
    DryRun { target: String },
    Proceed { target: String },
}

/// Where an integration goes: the branch that is named, or else the target of the change.
pub open spec fn target_of(state: ChangeState, into: Option<Seq<char>>) -> Seq<char> {
    match into {
        Some(branch) => branch,
        None => state.target_branch@,
    }
}

/// Whether `r` is how an integration begins.
pub open spec fn starts_integration(
    state: &ChangeState,
    into: &Option<String>,
    dry_run: bool,
    r: IntegrationStart,
) -> bool {
    match r {
            IntegrationStart::Iterating => state.iterating,
            IntegrationStart::DryRun { target } => !state.iterating && dry_run && target@
                == target_of(*state, opt_view(*into)),
            IntegrationStart::Proceed { target } => !state.iterating && !dry_run && target@
                == target_of(*state, opt_view(*into)),
        }
}

/// How an integration begins: not at all while the change is iterating.
pub fn begin_integration(state: &ChangeState, into: &Option<String>, dry_run: bool) -> (r:
    IntegrationStart)
    ensures
        starts_integration(state, into, dry_run, r),
{
    if state.iterating {
        return IntegrationStart::Iterating;
    }
    let target = match into {
        Some(branch) => branch.clone(),
        None => state.target_branch.clone(),
    };
    if dry_run {
        IntegrationStart::DryRun { target }
    } else {
        IntegrationStart::Proceed { target }
    }
}

/// A change that declares that it is iterating is not integrated, not even on trial, and any other
/// goes to the branch that is named, or else to its own target.
pub proof fn iterating_changes_are_not_integrated(
    state: &ChangeState,
    into: &Option<String>,
    dry_run: bool,
    r: IntegrationStart,
)
    requires
        starts_integration(state, into, dry_run, r),
    ensures
        r is Iterating <==> state.iterating,
        r is DryRun <==> !state.iterating && dry_run,
        r matches IntegrationStart::DryRun { target } ==> target@ == (if *into is Some {
            into->0@
        } else {
            state.target_branch@
        }),
        r matches IntegrationStart::Proceed { target } ==> target@ == (if *into is Some {
            into->0@
        } else {
            state.target_branch@
        }),
{
}

/// Whether `r` says if somebody else holds a live claim.
pub open spec fn says_foreign(
    state: &ChangeState,
    timing: &ClaimTiming,
    caller: &ClaimIdentity,
    r: bool,
) -> bool {
    r == (state.claim is Some && timing.active && !(state.claim->0.owner.actor@ == caller.actor@
            && state.claim->0.owner.harness@ == caller.harness@ && state.claim->0.owner.session@
            == caller.session@))
}

/// Whether somebody else holds an active claim on a change: worth a warning, not a refusal.
pub fn foreign_claim(state: &ChangeState, timing: &ClaimTiming, caller: &ClaimIdentity) -> (r: bool)
    ensures
        says_foreign(state, timing, caller, r),
{
    match &state.claim {
        Some(claim) => timing.active && !(same(claim.owner.actor.as_str(), caller.actor.as_str())
            && same(claim.owner.harness.as_str(), caller.harness.as_str()) && same(
            claim.owner.session.as_str(),
            caller.session.as_str(),
        )),
        None => false,
    }
}

/// Whether a change may be merged now.
#[derive(Clone, Copy, Debug, PartialEq, Eq, Structural)]
pub enum Readiness {
    /// The change is closed, and a tagged integration passes over it.
    Skipped,
    NotReady { exit_code: i32 },
    /// Nothing says what was approved.
    NoPatchset,
    Ready { patchset: usize },
}

/// Whether `r` says if a change is ready to be merged.
pub open spec fn is_readiness(
    state: &ChangeState,
    report: &StatusReport,
    closed: ClosedBehavior,
    r: Readiness,
) -> bool {
    r == (if state.closure is Some && closed == ClosedBehavior::SkipTagged {
            Readiness::Skipped
        } else if !report.integrate_ready {
            Readiness::NotReady { exit_code: report.exit_code }
        } else if state.patchsets@.len() == 0 {
            Readiness::NoPatchset
        } else {
            Readiness::Ready { patchset: (state.patchsets@.len() - 1) as usize }
        })
}

/// Whether a change may be merged now: the approved patchset is the latest one.
pub fn readiness(state: &ChangeState, report: &StatusReport, closed: ClosedBehavior) -> (r:
    Readiness)
    ensures
        is_readiness(state, report, closed, r),
{
    if state.is_closed() && closed == ClosedBehavior::SkipTagged {
        return Readiness::Skipped;
    }
    if !report.integrate_ready {
        return Readiness::NotReady { exit_code: report.exit_code };
    }
    if state.patchsets.len() == 0 {
        return Readiness::NoPatchset;
    }
    Readiness::Ready { patchset: state.patchsets.len() - 1 }
}

/// Whether the verdict at `k` is the last that approves a patchset.
pub open spec fn approval_at(state: ChangeState, patchset_id: Seq<char>, k: int) -> bool {
    &&& 0 <= k < state.verdicts@.len()
    &&& approves(state, patchset_id, k)
    &&& forall|j: int| k < j < state.verdicts@.len() ==> !#[trigger] approves(state, patchset_id, j)
}

/// Whether the verdict at `k` approves a patchset.
pub open spec fn approves(state: ChangeState, patchset_id: Seq<char>, k: int) -> bool {
    state.verdicts@[k].patchset_id@ == patchset_id && state.verdicts@[k].verdict == Verdict::Approved
}

/// Whether no verdict approves a patchset.
pub open spec fn unapproved(state: ChangeState, patchset_id: Seq<char>) -> bool {
    forall|j: int| 0 <= j < state.verdicts@.len() ==> !#[trigger] approves(state, patchset_id, j)
}

/// A patchset is approved by its last approving verdict, whatever came before it, and not by what
/// was said of another; a verdict that asks for changes, or only comments, approves nothing.
pub proof fn only_approvals_approve(state: ChangeState, patchset_id: Seq<char>, k: int)
    requires
        0 <= k < state.verdicts@.len(),
    ensures
        approves(state, patchset_id, k) <==> state.verdicts@[k].patchset_id@ == patchset_id
            && state.verdicts@[k].verdict == Verdict::Approved,
        approval_at(state, patchset_id, k) ==> state.verdicts@[k].verdict == Verdict::Approved
            && state.verdicts@[k].patchset_id@ == patchset_id,
        state.verdicts@[k].verdict == Verdict::Approved && state.verdicts@[k].patchset_id@
            == patchset_id ==> !unapproved(state, patchset_id),
        unapproved(state, patchset_id) ==> !authorized(
            state,
            patchset_id,
            DebtStanding { waives_latest_patchset: false, event_id: None },
        ),
{
    if state.verdicts@[k].verdict == Verdict::Approved && state.verdicts@[k].patchset_id@
        == patchset_id {
        assert(approves(state, patchset_id, k));
    }
}

/// The position of the last verdict that approves a patchset.
pub fn find_approval(state: &ChangeState, patchset_id: &str) -> (r: Option<usize>)
    ensures
        match r {
            Some(k) => approval_at(*state, patchset_id@, k as int),
            None => unapproved(*state, patchset_id@),
        },
{
    let all = &state.verdicts;
    let mut k: usize = all.len();
    while k > 0
        invariant
            all@ == state.verdicts@,
            k <= all@.len(),
            forall|j: int|
                k <= j < state.verdicts@.len() ==> !#[trigger] approves(*state, patchset_id@, j),
        decreases k,
    {
        k -= 1;
        let ghost here = approves(*state, patchset_id@, k as int);
        if same(all[k].patchset_id.as_str(), patchset_id) && all[k].verdict == Verdict::Approved {
            return Some(k);
        }
    }
    None
}

/// Whether `path` leads from a change along supersessions for as long as they go on: each change
/// on it is the successor of the one before, none comes twice, and the last has no successor that
/// is known and not on it.
pub open spec fn supersession_path(
    changes: Seq<ChangeState>,
    start: Seq<char>,
    path: Seq<usize>,
) -> bool {
    &&& path.len() > 0
    &&& path.no_duplicates()
    &&& forall|i: int| 0 <= i < path.len() ==> #[trigger] path[i] < changes.len()
    &&& changes[path[0] as int].change_id@ == start
    &&& forall|i: int|
        0 <= i < path.len() - 1 ==> successor(changes, (#[trigger] changes[path[i] as int]).change_id@)
            == Some(changes[path[i + 1] as int].change_id@)
    &&& match successor(changes, changes[path.last() as int].change_id@) {
        Some(next) => !known(changes, next) || exists|i: int|
            0 <= i < path.len() && #[trigger] changes[path[i] as int].change_id@ == next,
        None => true,
    }
}

/// Whether the change at `k` stands for a prerequisite: it is where the supersessions from it end.
pub open spec fn stands_for(changes: Seq<ChangeState>, id: Seq<char>, k: int) -> bool {
    exists|path: Seq<usize>| #[trigger]
        supersession_path(changes, id, path) && path.last() == k
}

/// The change that stands for a prerequisite, where the prerequisite is known.
pub fn standing_prerequisite(changes: &Vec<ChangeState>, id: &str) -> (r: Option<usize>)
    requires
        ledger(changes@),
    ensures
        match r {
            Some(k) => k < changes@.len() && stands_for(changes@, id@, k as int),
            None => !known(changes@, id@),
        },
{
    let mut here: usize = match position(changes, id) {
        Some(i) => i,
        None => return None,
    };
    let mut path: Vec<usize> = Vec::new();
    path.push(here);
    loop
        invariant
            ledger(changes@),
            here < changes@.len(),
            path@.len() > 0,
            path@.last() == here,
            path@.no_duplicates(),
            forall|i: int| 0 <= i < path@.len() ==> #[trigger] path@[i] < changes@.len(),
            changes@[path@[0] as int].change_id@ == id@,
            forall|i: int|
                0 <= i < path@.len() - 1 ==> successor(
                    changes@,
                    (#[trigger] changes@[path@[i] as int]).change_id@,
                ) == Some(changes@[path@[i + 1] as int].change_id@),
        decreases changes@.len() - path@.len(),
    {
        proof {
            lemma_distinct_bounded(path@, changes@.len());
            lemma_at(changes@, changes@[here as int].change_id@, here as int);
        }
        let next: Option<usize> = match &changes[here].closure {
            Some(closure) => if closure.outcome == Closure::Superseded {
                match &closure.superseded_by {
                    Some(name) => position(changes, name.as_str()),
                    None => None,
                }
            } else {
                None
            },
            None => None,
        };
        match next {
            None => {
                assert(supersession_path(changes@, id@, path@));
                return Some(here);
            },
            Some(k) => {
                if holds(&path, k) {
                    proof {
                        let i = choose|i: int| 0 <= i < path@.len() && path@[i] == k;
                        assert(changes@[path@[i] as int].change_id@ == changes@[k as int].change_id@);
                        assert(supersession_path(changes@, id@, path@));
                    }
                    return Some(here);
                }
                let ghost before = path@;
                path.push(k);
                proof {
                    assert forall|i: int| 0 <= i < path@.len() - 1 implies successor(
                        changes@,
                        (#[trigger] changes@[path@[i] as int]).change_id@,
                    ) == Some(changes@[path@[i + 1] as int].change_id@) by {
                        if i < before.len() - 1 {
                            assert(changes@[before[i] as int].change_id@
                                == changes@[path@[i] as int].change_id@);
                            assert(before[i + 1] == path@[i + 1]);
                        }
                    }
                    lemma_distinct_bounded(path@, changes@.len());
                }
                here = k;
            },
        }
    }
}

fn holds(positions: &Vec<usize>, wanted: usize) -> (r: bool)
    ensures
        r == positions@.contains(wanted),
{
    for k in 0..positions.len()
        invariant
            forall|j: int| 0 <= j < k ==> #[trigger] positions@[j] != wanted,
    {
        if positions[k] == wanted {
            return true;
        }
    }
    false
}

/// What a basis says of one prerequisite.
pub struct PrerequisiteView {
    pub change_id: Seq<char>,
    pub closure_event_id: Seq<char>,
    pub integrated_commit: Option<Seq<char>>,
}

/// What a basis says of its prerequisites.
pub open spec fn prerequisite_views(prerequisites: Seq<PrerequisiteClosure>) -> Seq<
    PrerequisiteView,
> {
    Seq::new(
        prerequisites.len(),
        |i: int|
            PrerequisiteView {
                change_id: prerequisites[i].change_id@,
                closure_event_id: prerequisites[i].closure_event_id@,
                integrated_commit: opt_view(prerequisites[i].integrated_commit),
            },
    )
}

/// The closures of some changes, those that are closed, in order.
pub open spec fn closures_of(changes: Seq<ChangeState>, standing: Seq<usize>) -> Seq<
    PrerequisiteView,
>
    decreases standing.len(),
{
    if standing.len() == 0 {
        Seq::empty()
    } else {
        let before = closures_of(changes, standing.drop_last());
        let state = changes[standing.last() as int];
        match state.closure {
            Some(closure) => before.push(
                PrerequisiteView {
                    change_id: state.change_id@,
                    closure_event_id: closure.event_id@,
                    integrated_commit: opt_view(closure.integrated_commit),
                },
            ),
            None => before,
        }
    }
}

/// Whether `standing` holds, for each prerequisite of a change, the change that stands for it.
pub open spec fn all_stand(
    changes: Seq<ChangeState>,
    blocked_by: Seq<String>,
    standing: Seq<usize>,
) -> bool {
    standing.len() == blocked_by.len() && forall|i: int|
        0 <= i < standing.len() ==> #[trigger] standing[i] < changes.len() && stands_for(
            changes,
            blocked_by[i]@,
            standing[i] as int,
        )
}

/// The evidence of some gates, under their names.
pub open spec fn evidence_of(gates: Seq<GateReport>) -> Map<Seq<char>, Seq<char>>
    decreases gates.len(),
{
    if gates.len() == 0 {
        Map::empty()
    } else {
        evidence_of(gates.drop_last()).insert(
            gates.last().name@,
            gates.last().evidence_event_id->0@,
        )
    }
}

/// Why there is nothing to record as the basis of a merge.
#[derive(Clone, Copy, Debug, PartialEq, Eq, Structural)]
pub enum BasisRefusal {
    /// Neither an approving verdict nor a declared debt authorizes the patchset.
    Unauthorized,
    /// A gate is green with no recorded evidence.
    NoEvidence { gate: usize },
    /// A prerequisite cannot be read.
    UnknownPrerequisite { index: usize },
}

/// What stands in for a review that nobody performed.
pub struct DebtStanding {
    /// Whether the declared debt covers the latest patchset.
    pub waives_latest_patchset: bool,
    pub event_id: Option<String>,
}

fn collect_evidence(gates: &Vec<GateReport>) -> (r: Result<Register, usize>)
    ensures
        match r {
            Ok(evidence) => evidence.well_formed() && evidence@ == evidence_of(gates@) && forall|
                i: int,
            |
                0 <= i < gates@.len() ==> (#[trigger] gates@[i]).evidence_event_id is Some,
            Err(k) => k < gates@.len() && gates@[k as int].evidence_event_id is None && forall|
                i: int,
            |
                0 <= i < k ==> (#[trigger] gates@[i]).evidence_event_id is Some,
        },
{
    let mut out = Register::new();
    assert(gates@.take(0) =~= Seq::empty());
    for k in 0..gates.len()
        invariant
            out.well_formed(),
            out@ == evidence_of(gates@.take(k as int)),
            forall|i: int| 0 <= i < k ==> (#[trigger] gates@[i]).evidence_event_id is Some,
    {
        assert(gates@.take(k + 1).drop_last() =~= gates@.take(k as int));
        match &gates[k].evidence_event_id {
            Some(event) => out.put(gates[k].name.as_str(), event.as_str()),
            None => return Err(k),
        }
    }
    assert(gates@.take(gates@.len() as int) =~= gates@);
    Ok(out)
}

fn collect_prerequisites(changes: &Vec<ChangeState>, blocked_by: &Vec<String>) -> (r: Result<
    Vec<PrerequisiteClosure>,
    usize,
>)
    requires
        ledger(changes@),
    ensures
        match r {
            Ok(prerequisites) => exists|standing: Seq<usize>| #[trigger]
                all_stand(changes@, blocked_by@, standing) && prerequisite_views(prerequisites@)
                    == closures_of(changes@, standing),
            Err(k) => k < blocked_by@.len() && !known(changes@, blocked_by@[k as int]@) && forall|
                i: int,
            |
                0 <= i < k ==> known(changes@, (#[trigger] blocked_by@[i])@),
        },
{
    let mut out: Vec<PrerequisiteClosure> = Vec::new();
    let ghost mut standing: Seq<usize> = Seq::empty();
    assert(prerequisite_views(out@) =~= Seq::empty());
    for k in 0..blocked_by.len()
        invariant
            ledger(changes@),
            all_stand(changes@, blocked_by@.take(k as int), standing),
            prerequisite_views(out@) == closures_of(changes@, standing),
            forall|i: int| 0 <= i < k ==> known(changes@, (#[trigger] blocked_by@[i])@),
    {
        let here: usize = match standing_prerequisite(changes, blocked_by[k].as_str()) {
            Some(here) => here,
            None => return Err(k),
        };
        let ghost before = standing;
        let ghost had = prerequisite_views(out@);
        proof {
            standing = before.push(here);
            assert(standing.drop_last() =~= before);
            let path = choose|path: Seq<usize>| #[trigger]
                supersession_path(changes@, blocked_by@[k as int]@, path) && path.last() == here;
            lemma_at(changes@, blocked_by@[k as int]@, path[0] as int);
        }
        let state = &changes[here];
        if let Some(closure) = &state.closure {
            let prerequisite = PrerequisiteClosure {
                change_id: state.change_id.clone(),
                closure_event_id: closure.event_id.clone(),
                integrated_commit: closure.integrated_commit.clone(),
            };
            out.push(prerequisite);
            assert(prerequisite_views(out@) =~= had.push(
                PrerequisiteView {
                    change_id: state.change_id@,
                    closure_event_id: closure.event_id@,
                    integrated_commit: opt_view(closure.integrated_commit),
                },
            ));
        }
        proof {
            let now = blocked_by@.take(k + 1);
            assert forall|i: int| 0 <= i < standing.len() implies #[trigger] standing[i]
                < changes@.len() && stands_for(changes@, now[i]@, standing[i] as int) by {
                if i < before.len() {
                    assert(before[i] < changes@.len());
                    assert(now[i] == blocked_by@.take(k as int)[i]);
                }
            }
        }
    }
    assert(blocked_by@.take(blocked_by@.len() as int) =~= blocked_by@);
    Ok(out)
}

/// Whether a basis holds everything that authorizes one merge: the last verdict that approves the
/// patchset, or nothing where a declared debt stands in for one; the evidence of every gate; the
/// closures of the prerequisites; and the gates and the policy in effect.
pub open spec fn is_basis(
    state: ChangeState,
    report: StatusReport,
    patchset_id: Seq<char>,
    debt: DebtStanding,
    changes: Seq<ChangeState>,
    gates: Vec<NormalizedGate>,
    policy: NormalizedPolicy,
    basis: AuthorizationBasis,
) -> bool {
    &&& match basis.verdict_event_id {
        Some(event_id) => exists|k: int| #[trigger]
            approval_at(state, patchset_id, k) && event_id@ == state.verdicts@[k].event_id@
                && opt_view(basis.verdict_provisional) == opt_view(state.verdicts@[k].provisional),
        None => unapproved(state, patchset_id) && debt.waives_latest_patchset
            && basis.verdict_provisional is None,
    }
    &&& all_evidenced(report.gates@)
    &&& basis.gate_evidence.well_formed()
    &&& basis.gate_evidence@ == evidence_of(report.gates@)
    &&& exists|standing: Seq<usize>| #[trigger]
        all_stand(changes, state.blocked_by@, standing) && prerequisite_views(
            basis.prerequisites@,
        ) == closures_of(changes, standing)
    &&& views(basis.blocking_findings@) == views(report.open_blocking_findings@)
    &&& views(basis.holds@) == views(report.holds@)
    &&& basis.gates == gates
    &&& basis.policy == policy
    &&& opt_view(basis.danger) == Some(report.danger@)
    &&& opt_view(basis.audit_debt_event_id) == (if report.approval_waived_by_debt {
        opt_view(debt.event_id)
    } else {
        None
    })
}

/// Whether every gate has recorded evidence.
pub open spec fn all_evidenced(gates: Seq<GateReport>) -> bool {
    forall|i: int| 0 <= i < gates.len() ==> (#[trigger] gates[i]).evidence_event_id is Some
}

/// Whether a patchset is authorized: a verdict approves it, or a declared debt stands in for one.
pub open spec fn authorized(state: ChangeState, patchset_id: Seq<char>, debt: DebtStanding) -> bool {
    !unapproved(state, patchset_id) || debt.waives_latest_patchset
}

/// Whether `refusal` is the first thing that keeps a basis from being read.
pub open spec fn refuses_basis(
    state: ChangeState,
    report: StatusReport,
    patchset_id: Seq<char>,
    debt: DebtStanding,
    changes: Seq<ChangeState>,
    refusal: BasisRefusal,
) -> bool {
    match refusal {
        BasisRefusal::Unauthorized => !authorized(state, patchset_id, debt),
        BasisRefusal::NoEvidence { gate } => {
            &&& authorized(state, patchset_id, debt)
            &&& gate < report.gates@.len()
            &&& report.gates@[gate as int].evidence_event_id is None
            &&& all_evidenced(report.gates@.take(gate as int))
        },
        BasisRefusal::UnknownPrerequisite { index } => {
            &&& authorized(state, patchset_id, debt)
            &&& all_evidenced(report.gates@)
            &&& index < state.blocked_by@.len()
            &&& !known(changes, state.blocked_by@[index as int]@)
            &&& forall|i: int| 0 <= i < index ==> known(changes, (#[trigger] state.blocked_by@[i])@)
        },
    }
}

/// Everything that authorizes one merge.
pub fn authorization_basis(
    state: &ChangeState,
    report: &StatusReport,
    patchset_id: &str,
    debt: &DebtStanding,
    changes: &Vec<ChangeState>,
    gates: Vec<NormalizedGate>,
    policy: NormalizedPolicy,
) -> (r: Result<AuthorizationBasis, BasisRefusal>)
    requires
        ledger(changes@),
    ensures
        match r {
            Ok(basis) => is_basis(
                *state,
                *report,
                patchset_id@,
                *debt,
                changes@,
                gates,
                policy,
                basis,
            ),
            Err(refusal) => refuses_basis(
                *state,
                *report,
                patchset_id@,
                *debt,
                changes@,
                refusal,
            ),
        },
{
    let verdict = find_approval(state, patchset_id);
    let (verdict_event_id, verdict_provisional) = match verdict {
        Some(k) => {
            assert(approves(*state, patchset_id@, k as int));
            (Some(state.verdicts[k].event_id.clone()), state.verdicts[k].provisional.clone())
        },
        None => {
            if !debt.waives_latest_patchset {
                return Err(BasisRefusal::Unauthorized);
            }
            (None, None)
        },
    };
    let gate_evidence = match collect_evidence(&report.gates) {
        Ok(evidence) => evidence,
        Err(gate) => return Err(BasisRefusal::NoEvidence { gate }),
    };
    let prerequisites = match collect_prerequisites(changes, &state.blocked_by) {
        Ok(prerequisites) => prerequisites,
        Err(index) => return Err(BasisRefusal::UnknownPrerequisite { index }),
    };
    let audit_debt_event_id = if report.approval_waived_by_debt {
        debt.event_id.clone()
    } else {
        None
    };
    Ok(
        AuthorizationBasis {
            verdict_event_id,
            verdict_provisional,
            gate_evidence,
            prerequisites,
            blocking_findings: report.open_blocking_findings.clone(),
            holds: report.holds.clone(),
            gates,
            policy,
            danger: Some(report.danger.clone()),
            audit_debt_event_id,
        },
    )
}

/// What a basis says of one gate.
pub struct GateView {
    pub name: Seq<char>,
    pub command: Seq<char>,
    pub profiles: Seq<Seq<char>>,
    pub timeout: Option<u64>,
}

/// What a basis says of its gates.
pub open spec fn gate_views(gates: Seq<NormalizedGate>) -> Seq<GateView> {
    Seq::new(
        gates.len(),
        |i: int|
            GateView {
                name: gates[i].name@,
                command: gates[i].command@,
                profiles: views(gates[i].profiles@),
                timeout: gates[i].timeout,
            },
    )
}

/// Whether two bases say the same.
pub open spec fn same_basis(a: AuthorizationBasis, b: AuthorizationBasis) -> bool {
    &&& opt_view(a.verdict_event_id) == opt_view(b.verdict_event_id)
    &&& opt_view(a.verdict_provisional) == opt_view(b.verdict_provisional)
    &&& a.gate_evidence@ == b.gate_evidence@
    &&& prerequisite_views(a.prerequisites@) == prerequisite_views(b.prerequisites@)
    &&& views(a.blocking_findings@) == views(b.blocking_findings@)
    &&& views(a.holds@) == views(b.holds@)
    &&& gate_views(a.gates@) == gate_views(b.gates@)
    &&& a.policy.forbid_self_approval == b.policy.forbid_self_approval
    &&& a.policy.require_declared_actor == b.policy.require_declared_actor
    &&& a.policy.provenance_git_identity@ == b.policy.provenance_git_identity@
    &&& opt_view(a.danger) == opt_view(b.danger)
    &&& opt_view(a.audit_debt_event_id) == opt_view(b.audit_debt_event_id)
}

/// Two readings say the same only where they agree in everything that authorizes a merge.
pub proof fn confirmed_bases_agree(a: AuthorizationBasis, b: AuthorizationBasis)
    requires
        same_basis(a, b),
    ensures
        opt_view(a.verdict_event_id) == opt_view(b.verdict_event_id),
        opt_view(a.verdict_provisional) == opt_view(b.verdict_provisional),
        a.gate_evidence@ == b.gate_evidence@,
        a.prerequisites@.len() == b.prerequisites@.len(),
        forall|i: int|
            0 <= i < a.prerequisites@.len() ==> (#[trigger] a.prerequisites@[i]).change_id@
                == b.prerequisites@[i].change_id@ && a.prerequisites@[i].closure_event_id@
                == b.prerequisites@[i].closure_event_id@ && opt_view(
                a.prerequisites@[i].integrated_commit,
            ) == opt_view(b.prerequisites@[i].integrated_commit),
        views(a.blocking_findings@) == views(b.blocking_findings@),
        views(a.holds@) == views(b.holds@),
        a.gates@.len() == b.gates@.len(),
        forall|i: int|
            0 <= i < a.gates@.len() ==> (#[trigger] a.gates@[i]).name@ == b.gates@[i].name@
                && a.gates@[i].command@ == b.gates@[i].command@ && views(a.gates@[i].profiles@)
                == views(b.gates@[i].profiles@) && a.gates@[i].timeout == b.gates@[i].timeout,
        a.policy.forbid_self_approval == b.policy.forbid_self_approval,
        a.policy.require_declared_actor == b.policy.require_declared_actor,
        a.policy.provenance_git_identity@ == b.policy.provenance_git_identity@,
        opt_view(a.danger) == opt_view(b.danger),
        opt_view(a.audit_debt_event_id) == opt_view(b.audit_debt_event_id),
{
    assert(prerequisite_views(a.prerequisites@).len() == prerequisite_views(
        b.prerequisites@,
    ).len());
    assert(gate_views(a.gates@).len() == gate_views(b.gates@).len());
    assert forall|i: int| 0 <= i < a.prerequisites@.len() implies (
    #[trigger] a.prerequisites@[i]).change_id@ == b.prerequisites@[i].change_id@
        && a.prerequisites@[i].closure_event_id@ == b.prerequisites@[i].closure_event_id@
        && opt_view(a.prerequisites@[i].integrated_commit) == opt_view(
        b.prerequisites@[i].integrated_commit,
    ) by {
        assert(prerequisite_views(a.prerequisites@)[i] == prerequisite_views(
            b.prerequisites@,
        )[i]);
    }
    assert forall|i: int| 0 <= i < a.gates@.len() implies (#[trigger] a.gates@[i]).name@
        == b.gates@[i].name@ && a.gates@[i].command@ == b.gates@[i].command@ && views(
        a.gates@[i].profiles@,
    ) == views(b.gates@[i].profiles@) && a.gates@[i].timeout == b.gates@[i].timeout by {
        assert(gate_views(a.gates@)[i] == gate_views(b.gates@)[i]);
    }
}

/// A reading that did not move is confirmed.
pub proof fn settled_bases_are_confirmed(a: AuthorizationBasis)
    ensures
        same_basis(a, a),
{
}

fn same_prerequisites(a: &Vec<PrerequisiteClosure>, b: &Vec<PrerequisiteClosure>) -> (r: bool)
    ensures
        r == (prerequisite_views(a@) == prerequisite_views(b@)),
{
    if a.len() != b.len() {
        assert(prerequisite_views(a@).len() != prerequisite_views(b@).len());
        return false;
    }
    for i in 0..a.len()
        invariant
            a@.len() == b@.len(),
            forall|k: int|
                0 <= k < i ==> #[trigger] prerequisite_views(a@)[k] == prerequisite_views(b@)[k],
    {
        let ghost x = prerequisite_views(a@)[i as int];
        let ghost y = prerequisite_views(b@)[i as int];
        if !same(a[i].change_id.as_str(), b[i].change_id.as_str()) || !same(
            a[i].closure_event_id.as_str(),
            b[i].closure_event_id.as_str(),
        ) || !same_option(&a[i].integrated_commit, &b[i].integrated_commit) {
            assert(x != y);
            return false;
        }
        assert(x == y);
    }
    assert(prerequisite_views(a@) =~= prerequisite_views(b@));
    true
}

fn same_gates(a: &Vec<NormalizedGate>, b: &Vec<NormalizedGate>) -> (r: bool)
    ensures
        r == (gate_views(a@) == gate_views(b@)),
{
    if a.len() != b.len() {
        assert(gate_views(a@).len() != gate_views(b@).len());
        return false;
    }
    for i in 0..a.len()
        invariant
            a@.len() == b@.len(),
            forall|k: int| 0 <= k < i ==> #[trigger] gate_views(a@)[k] == gate_views(b@)[k],
    {
        let ghost x = gate_views(a@)[i as int];
        let ghost y = gate_views(b@)[i as int];
        let same_timeout = match (a[i].timeout, b[i].timeout) {
            (Some(m), Some(n)) => m == n,
            (None, None) => true,
            _ => false,
        };
        if !same(a[i].name.as_str(), b[i].name.as_str()) || !same(
            a[i].command.as_str(),
            b[i].command.as_str(),
        ) || !same_texts(&a[i].profiles, &b[i].profiles) || !same_timeout {
            assert(x != y);
            return false;
        }
        assert(x == y);
    }
    assert(gate_views(a@) =~= gate_views(b@));
    true
}

/// Whether a merge may go on: its basis is still what it was, and the change is still ready.
pub fn confirm_authorization(
    basis: &AuthorizationBasis,
    confirmed: &AuthorizationBasis,
    still_ready: bool,
) -> (r: bool)
    requires
        basis.gate_evidence.well_formed(),
        confirmed.gate_evidence.well_formed(),
    ensures
        r == (still_ready && same_basis(*basis, *confirmed)),
{
    still_ready && same_option(&basis.verdict_event_id, &confirmed.verdict_event_id) && same_option(
        &basis.verdict_provisional,
        &confirmed.verdict_provisional,
    ) && basis.gate_evidence.same_as(&confirmed.gate_evidence) && same_prerequisites(
        &basis.prerequisites,
        &confirmed.prerequisites,
    ) && same_texts(&basis.blocking_findings, &confirmed.blocking_findings) && same_texts(
        &basis.holds,
        &confirmed.holds,
    ) && same_gates(&basis.gates, &confirmed.gates) && basis.policy.forbid_self_approval
        == confirmed.policy.forbid_self_approval && basis.policy.require_declared_actor
        == confirmed.policy.require_declared_actor && same(
        basis.policy.provenance_git_identity.as_str(),
        confirmed.policy.provenance_git_identity.as_str(),
    ) && same_option(&basis.danger, &confirmed.danger) && same_option(
        &basis.audit_debt_event_id,
        &confirmed.audit_debt_event_id,
    )
}

/// The message of a merge: the one given, or one that names the change.
pub open spec fn message_of(state: ChangeState, message: Option<Seq<char>>) -> Seq<char> {
    match message {
        Some(text) => text,
        None => "merge("@ + state.slug@ + "): "@ + state.title@,
    }
}

/// The message of a merge.
pub fn merge_message(state: &ChangeState, message: &Option<String>) -> (r: String)
    ensures
        r@ == message_of(*state, opt_view(*message)),
{
    match message {
        Some(text) => text.clone(),
        None => {
            let mut out = String::new();
            out.append("merge(");
            out.append(state.slug.as_str());
            out.append("): ");
            out.append(state.title.as_str());
            assert(out@ =~= "merge("@ + state.slug@ + "): "@ + state.title@);
            out
        },
    }
}

/// Why a merge that Git made is not recorded.
#[derive(Clone, Copy, Debug, PartialEq, Eq, Structural)]
pub enum MergeRefusal {
    /// Its parents are not the target as it was and the approved head.
    UnexpectedParents,
    /// It carries content that nothing evaluated: the target is reset.
    UnevaluatedTree,
}

/// Whether a merge joins the target as it was and the approved head, in that order.
pub open spec fn joins(parents: Seq<String>, old_target: Seq<char>, approved_head: Seq<char>) -> bool {
    views(parents) == seq![old_target, approved_head]
}

/// Whether a merge that Git made may be recorded: it joins the target as it was and the approved
/// head, and it carries the tree that was evaluated, where there was one.
pub fn check_merge(
    parents: &Vec<String>,
    old_target: &str,
    approved_head: &str,
    evaluated_tree: &Option<String>,
    shipped_tree: &str,
) -> (r: Result<(), MergeRefusal>)
    ensures
        match r {
            Ok(()) => joins(parents@, old_target@, approved_head@) && (evaluated_tree is Some
                ==> evaluated_tree->0@ == shipped_tree@),
            Err(MergeRefusal::UnexpectedParents) => !joins(parents@, old_target@, approved_head@),
            Err(MergeRefusal::UnevaluatedTree) => joins(parents@, old_target@, approved_head@)
                && evaluated_tree is Some && evaluated_tree->0@ != shipped_tree@,
        },
{
    let ghost wanted = seq![old_target@, approved_head@];
    if parents.len() != 2 {
        assert(views(parents@).len() != wanted.len());
        return Err(MergeRefusal::UnexpectedParents);
    }
    if !same(parents[0].as_str(), old_target) {
        assert(views(parents@)[0] != wanted[0]);
        return Err(MergeRefusal::UnexpectedParents);
    }
    if !same(parents[1].as_str(), approved_head) {
        assert(views(parents@)[1] != wanted[1]);
        return Err(MergeRefusal::UnexpectedParents);
    }
    assert(views(parents@) =~= wanted);
    if let Some(expected) = evaluated_tree {
        if !same(expected.as_str(), shipped_tree) {
            return Err(MergeRefusal::UnevaluatedTree);
        }
    }
    Ok(())
}

/// What records an integration: the head of the approved patchset is the head that was merged.
pub fn integration_payload(
    state: &ChangeState,
    patchset: usize,
    merged: &str,
    target: &str,
    old_target: &str,
    authorization: AuthorizationBasis,
) -> (r: Payload)
    requires
        patchset < state.patchsets@.len(),
    ensures
        match r {
            Payload::ChangeIntegrated {
                integrated_commit,
                source_patchset_id,
                source_head,
                target_branch,
                target_before,
                authorization: basis,
            } => {
                &&& integrated_commit@ == merged@
                &&& source_patchset_id@ == state.patchsets@[patchset as int].id@
                &&& source_head@ == state.patchsets@[patchset as int].head@
                &&& target_branch@ == target@
                &&& target_before@ == old_target@
                &&& basis == Some(authorization)
            },
            _ => false,
        },
{
    Payload::ChangeIntegrated {
        integrated_commit: merged.to_string(),
        source_patchset_id: state.patchsets[patchset].id.clone(),
        source_head: state.patchsets[patchset].head.clone(),
        target_branch: target.to_string(),
        target_before: old_target.to_string(),
        authorization: Some(authorization),
    }
}

/// What a dry run says of a merge that is ready.
pub open spec fn dry_run_lines(
    state: ChangeState,
    target: Seq<char>,
    message: Option<Seq<char>>,
    target_head: Seq<char>,
    approved_head: Seq<char>,
    conflicts: bool,
    tree: Option<Seq<char>>,
    basis: Seq<char>,
) -> Seq<char> {
    let head = "dry-run: would integrate "@ + state.change_id@ + " into "@ + target + "\n"@
        + "  merge message: "@ + message_of(state, message) + "\n"@ + "  merge parents: ["@
        + target_head + ", "@ + approved_head + "]\n"@ + (if conflicts {
        "  merge result: conflict — rebase required\n"@
    } else {
        "  merge result: clean\n"@
    });
    let with_tree = match tree {
        Some(name) => head + "  merge tree: "@ + name + "\n"@,
        None => head,
    };
    let with_basis = if conflicts {
        with_tree
    } else {
        with_tree + "  authorization basis it would record:\n"@ + basis + "\n"@
    };
    with_basis + "  no events, refs, or worktrees were modified\n"@
}

/// What a dry run says of a merge that is ready. `basis` is the rendered basis that the merge
/// would record; it is left out where the merge conflicts and would record nothing.
pub fn dry_run_text(
    state: &ChangeState,
    target: &str,
    message: &Option<String>,
    target_head: &str,
    approved_head: &str,
    conflicts: bool,
    tree: &Option<String>,
    basis: &str,
) -> (r: String)
    ensures
        r@ == dry_run_lines(
            *state,
            target@,
            opt_view(*message),
            target_head@,
            approved_head@,
            conflicts,
            opt_view(*tree),
            basis@,
        ),
{
    let mut out = String::new();
    out.append("dry-run: would integrate ");
    out.append(state.change_id.as_str());
    out.append(" into ");
    out.append(target);
    out.append("\n");
    out.append("  merge message: ");
    out.append(merge_message(state, message).as_str());
    out.append("\n");
    out.append("  merge parents: [");
    out.append(target_head);
    out.append(", ");
    out.append(approved_head);
    out.append("]\n");
    if conflicts {
        out.append("  merge result: conflict — rebase required\n");
    } else {
        out.append("  merge result: clean\n");
    }
    if let Some(name) = tree {
        out.append("  merge tree: ");
        out.append(name.as_str());
        out.append("\n");
    }
    if !conflicts {
        out.append("  authorization basis it would record:\n");
        out.append(basis);
        out.append("\n");
    }
    out.append("  no events, refs, or worktrees were modified\n");
    out
}

/// What a dry run says of a change that is not ready.
pub fn not_ready_line(change_id: &str, reason: &str) -> (r: String)
    ensures
        r@ == "dry-run: would not integrate "@ + change_id@ + " ("@ + reason@ + ")"@,
{
    let mut out = "dry-run: would not integrate ".to_string();
    out.append(change_id);
    out.append(" (");
    out.append(reason);
    out.append(")");
    out
}

/// Why a dry run tells nothing.
#[derive(Clone, Copy, Debug, PartialEq, Eq, Structural)]
pub enum DryRunRefusal {
    UndeclaredActor,
    /// The target is checked out nowhere.
    NoWorktree,
    /// The worktree of the target has changes that no commit has.
    NotClean,
    NoPatchset,
    /// What the merge would rest on cannot be told.
    NoBasis,
}

/// Where a dry run stands.
#[derive(Clone, Copy, Debug, PartialEq, Eq, Structural)]
pub enum DryRunStep {
    /// Whoever asks is declared.
    Actor,
    /// The worktree of the target is found.
    Worktree,
    /// The worktree of the target is clean.
    Clean,
    /// The change is ready.
    Report,
    /// The patchset that would be merged is found.
    Patchset,
    /// The merge is tried, and goes well where nothing conflicts.
    Merge,
    /// What the merge would rest on is collected.
    Basis,
    Refused { refusal: DryRunRefusal },
    NotReady { code: i32 },
    Shown { code: i32 },
}

/// The step after one that went well or not. Whatever a merge refuses before it touches anything
/// is refused here too, and in its order. A change that is not ready ends the run with the code of
/// its check, and a merge that conflicts with the code that asks for a rebase.
pub open spec fn dry_run_after(step: DryRunStep, well: bool, code: i32) -> DryRunStep {
    match step {
        DryRunStep::Actor => if well {
            DryRunStep::Worktree
        } else {
            DryRunStep::Refused { refusal: DryRunRefusal::UndeclaredActor }
        },
        DryRunStep::Worktree => if well {
            DryRunStep::Clean
        } else {
            DryRunStep::Refused { refusal: DryRunRefusal::NoWorktree }
        },
        DryRunStep::Clean => if well {
            DryRunStep::Report
        } else {
            DryRunStep::Refused { refusal: DryRunRefusal::NotClean }
        },
        DryRunStep::Report => if well {
            DryRunStep::Patchset
        } else {
            DryRunStep::NotReady { code }
        },
        DryRunStep::Patchset => if well {
            DryRunStep::Merge
        } else {
            DryRunStep::Refused { refusal: DryRunRefusal::NoPatchset }
        },
        DryRunStep::Merge => if well {
            DryRunStep::Basis
        } else {
            DryRunStep::Shown { code }
        },
        DryRunStep::Basis => if well {
            DryRunStep::Shown { code: 0 }
        } else {
            DryRunStep::Refused { refusal: DryRunRefusal::NoBasis }
        },
        _ => step,
    }
}

/// The step after one that went well or not, where `code` is what a run that ends there ends with.
pub fn dry_run_step(step: DryRunStep, well: bool, code: i32) -> (r: DryRunStep)
    ensures
        r == dry_run_after(step, well, code),
{
    match step {
        DryRunStep::Report => if well {
            DryRunStep::Patchset
        } else {
            DryRunStep::NotReady { code }
        },
        DryRunStep::Merge => if well {
            DryRunStep::Basis
        } else {
            DryRunStep::Shown { code }
        },
        DryRunStep::Refused { .. } => step,
        DryRunStep::NotReady { .. } => step,
        DryRunStep::Shown { .. } => step,
        DryRunStep::Actor => if well {
            DryRunStep::Worktree
        } else {
            DryRunStep::Refused { refusal: DryRunRefusal::UndeclaredActor }
        },
        DryRunStep::Worktree => if well {
            DryRunStep::Clean
        } else {
            DryRunStep::Refused { refusal: DryRunRefusal::NoWorktree }
        },
        DryRunStep::Clean => if well {
            DryRunStep::Report
        } else {
            DryRunStep::Refused { refusal: DryRunRefusal::NotClean }
        },
        DryRunStep::Patchset => if well {
            DryRunStep::Merge
        } else {
            DryRunStep::Refused { refusal: DryRunRefusal::NoPatchset }
        },
        DryRunStep::Basis => if well {
            DryRunStep::Shown { code: 0 }
        } else {
            DryRunStep::Refused { refusal: DryRunRefusal::NoBasis }
        },
    }
}

/// What one step of a dry run came to.
pub struct DryRunOutcome {
    pub well: bool,
    pub code: i32,
}

/// Whether some steps are those of a dry run: it starts with whoever asks, and each step follows
/// from what the one before came to.
pub open spec fn rehearsal(steps: Seq<DryRunStep>, outcomes: Seq<DryRunOutcome>) -> bool {
    &&& steps.len() > 0
    &&& outcomes.len() == steps.len()
    &&& steps[0] == DryRunStep::Actor
    &&& forall|i: int|
        0 <= i < steps.len() - 1 ==> #[trigger] dry_run_after(
            steps[i],
            outcomes[i].well,
            outcomes[i].code,
        ) == steps[i + 1]
}

/// The number of steps before one that does not end a dry run.
spec fn steps_before(step: DryRunStep) -> int {
    match step {
        DryRunStep::Actor => 0,
        DryRunStep::Worktree => 1,
        DryRunStep::Clean => 2,
        DryRunStep::Report => 3,
        DryRunStep::Patchset => 4,
        DryRunStep::Merge => 5,
        DryRunStep::Basis => 6,
        _ => -1,
    }
}

proof fn lemma_rehearsed_before(steps: Seq<DryRunStep>, outcomes: Seq<DryRunOutcome>, n: int)
    requires
        rehearsal(steps, outcomes),
        0 <= n < steps.len(),
        steps_before(steps[n]) >= 0,
    ensures
        steps_before(steps[n]) == n,
        forall|i: int| 0 <= i < n ==> #[trigger] outcomes[i].well && steps_before(steps[i]) == i,
    decreases n,
{
    if n > 0 {
        let last = outcomes[n - 1];
        assert(dry_run_after(steps[n - 1], last.well, last.code) == steps[n]);
        lemma_rehearsed_before(steps, outcomes, n - 1);
        assert forall|i: int| 0 <= i < n implies #[trigger] outcomes[i].well && steps_before(
            steps[i],
        ) == i by {
            if i == n - 1 {
                assert(outcomes[i] == last);
            }
        }
    }
}

/// A dry run tries no merge that a real one would have refused before: whoever asks is declared,
/// the target has a clean worktree, and the change is ready.
pub proof fn dry_runs_refuse_first(
    steps: Seq<DryRunStep>,
    outcomes: Seq<DryRunOutcome>,
    n: int,
)
    requires
        rehearsal(steps, outcomes),
        0 <= n < steps.len(),
        steps[n] == DryRunStep::Merge,
    ensures
        n == 5,
        steps[0] == DryRunStep::Actor && steps[1] == DryRunStep::Worktree && steps[2]
            == DryRunStep::Clean && steps[3] == DryRunStep::Report && steps[4]
            == DryRunStep::Patchset,
        forall|i: int| 0 <= i < n ==> #[trigger] outcomes[i].well,
{
    lemma_rehearsed_before(steps, outcomes, n);
    assert(outcomes[0].well && outcomes[1].well && outcomes[2].well && outcomes[3].well
        && outcomes[4].well);
}

/// A dry run in which everything goes well ends with code zero after the basis; a merge that
/// conflicts ends it with the code that asks for a rebase, and a change that is not ready with the
/// code of its check; and nothing else ends it but a refusal.
pub proof fn dry_runs_end_as_merges_would(code: i32)
    ensures
        dry_run_after(DryRunStep::Basis, true, code) == (DryRunStep::Shown { code: 0 }),
        dry_run_after(DryRunStep::Merge, true, code) == DryRunStep::Basis,
        dry_run_after(DryRunStep::Merge, false, code) == (DryRunStep::Shown { code }),
        dry_run_after(DryRunStep::Report, false, code) == (DryRunStep::NotReady { code }),
        forall|step: DryRunStep, well: bool|
            (#[trigger] dry_run_after(step, well, code)) is Refused && !(step is Refused) ==> !well
                && !(step is Report) && !(step is Merge),
        dry_run_after(DryRunStep::Actor, false, code) == (DryRunStep::Refused {
            refusal: DryRunRefusal::UndeclaredActor,
        }),
        dry_run_after(DryRunStep::Worktree, false, code) == (DryRunStep::Refused {
            refusal: DryRunRefusal::NoWorktree,
        }),
        dry_run_after(DryRunStep::Clean, false, code) == (DryRunStep::Refused {
            refusal: DryRunRefusal::NotClean,
        }),
        dry_run_after(DryRunStep::Patchset, false, code) == (DryRunStep::Refused {
            refusal: DryRunRefusal::NoPatchset,
        }),
        dry_run_after(DryRunStep::Basis, false, code) == (DryRunStep::Refused {
            refusal: DryRunRefusal::NoBasis,
        }),
{
}

/// The exit code of a dry run that got as far as the merge.
pub fn dry_run_exit_code(conflicts: bool, needs_rebase: i32) -> (r: i32)
    ensures
        r == (if conflicts {
            needs_rebase
        } else {
            0
        }),
{
    if conflicts {
        needs_rebase
    } else {
        0
    }
}

/// Why nothing is integrated for some tags.
#[derive(Clone, Copy, Debug, PartialEq, Eq, Structural)]
pub enum TaggedRefusal {
    NoMatch,
    DependencyCycle,
}

/// The positions of the changes that carry some tags.
pub open spec fn tagged_positions(changes: Seq<ChangeState>, tags: Seq<String>) -> Seq<int> {
    chosen(changes.len(), |i: int| carries(changes[i], tags))
}

/// Whether the members are the changes that carry some tags, in the order of the ledger.
pub open spec fn tagged_members(
    changes: Seq<ChangeState>,
    tags: Seq<String>,
    members: Seq<usize>,
) -> bool {
    ints(members) == tagged_positions(changes, tags)
}

/// The positions of the changes that carry some tags.
pub fn select_tagged(changes: &Vec<ChangeState>, tags: &Vec<String>) -> (r: Vec<usize>)
    ensures
        tagged_members(changes@, tags@, r@),
        r@.no_duplicates(),
        forall|k: int| 0 <= k < r@.len() ==> #[trigger] r@[k] < changes@.len(),
{
    let mut out: Vec<usize> = Vec::new();
    for i in 0..changes.len()
        invariant
            ints(out@) == chosen(i as nat, |k: int| carries(changes@[k], tags@)),
            out@.no_duplicates(),
            forall|k: int| 0 <= k < out@.len() ==> #[trigger] out@[k] < i,
    {
        let ghost before = ints(out@);
        if carries_tags(&changes[i], tags) {
            out.push(i);
            assert(ints(out@) =~= before.push(i as int));
        }
    }
    out
}

/// The members under some tags are the changes that carry every one of them, open or closed, and no
/// others.
pub proof fn members_carry_every_tag(
    changes: Seq<ChangeState>,
    tags: Seq<String>,
    members: Seq<usize>,
    i: usize,
)
    requires
        tagged_members(changes, tags, members),
        i < changes.len(),
    ensures
        members.contains(i) <==> forall|k: int|
            0 <= k < tags.len() ==> exists|j: int|
                0 <= j < changes[i as int].tags@.len() && (#[trigger] changes[i as int].tags@[j])@
                    == (#[trigger] tags[k])@,
{
    let wanted = |i: int| carries(changes[i], tags);
    lemma_chosen(changes.len(), wanted);
    lemma_ints_contain(members, i);
    assert(chosen(changes.len(), wanted).contains(i as int) <==> wanted(i as int));
    if carries(changes[i as int], tags) {
        assert forall|k: int| 0 <= k < tags.len() implies exists|j: int|
            0 <= j < changes[i as int].tags@.len() && (#[trigger] changes[i as int].tags@[j])@ == (
            #[trigger] tags[k])@ by {
            assert(among(changes[i as int].tags@, tags[k]@));
        }
    }
    if forall|k: int|
        0 <= k < tags.len() ==> exists|j: int|
            0 <= j < changes[i as int].tags@.len() && (#[trigger] changes[i as int].tags@[j])@ == (
            #[trigger] tags[k])@ {
        assert forall|k: int| 0 <= k < tags.len() implies among(
            changes[i as int].tags@,
            (#[trigger] tags[k])@,
        ) by {}
    }
}

/// The order in which the changes that carry some tags are integrated: prerequisites first.
pub fn integrate_tagged(changes: &Vec<ChangeState>, tags: &Vec<String>) -> (r: Result<
    Vec<usize>,
    TaggedRefusal,
>)
    requires
        ledger(changes@),
    ensures
        exists|members: Seq<usize>| #[trigger]
            tagged_members(changes@, tags@, members) && match r {
                Ok(order) => members.len() > 0 && dependency_ordered(changes@, members, order@)
                    && !cyclic(changes@, members),
                Err(TaggedRefusal::NoMatch) => members.len() == 0,
                Err(TaggedRefusal::DependencyCycle) => members.len() > 0 && cyclic(
                    changes@,
                    members,
                ),
            },
{
    let members = select_tagged(changes, tags);
    if members.len() == 0 {
        return Err(TaggedRefusal::NoMatch);
    }
    match dependency_order(changes, &members) {
        Ok(order) => Ok(order),
        Err(_) => Err(TaggedRefusal::DependencyCycle),
    }
}

/// A claim stands in the way exactly where it is live and differs from the caller in its actor, its
/// harness or its session.
pub proof fn only_live_claims_of_others_are_foreign(
    state: &ChangeState,
    timing: &ClaimTiming,
    caller: &ClaimIdentity,
    r: bool,
)
    requires
        says_foreign(state, timing, caller, r),
    ensures
        !timing.active ==> !r,
        state.claim is None ==> !r,
        state.claim matches Some(claim) ==> (timing.active ==> (r <==> claim.owner.actor@
            != caller.actor@ || claim.owner.harness@ != caller.harness@ || claim.owner.session@
            != caller.session@)),
{
}

/// A change is merged from its last patchset exactly where its report says that it is ready and it
/// has one; a tagged integration passes over what is closed, whatever closed it.
pub proof fn readiness_follows_the_report(
    state: &ChangeState,
    report: &StatusReport,
    closed: ClosedBehavior,
    r: Readiness,
)
    requires
        is_readiness(state, report, closed, r),
    ensures
        r is Skipped <==> state.closure is Some && closed == ClosedBehavior::SkipTagged,
        r is Ready <==> !(r is Skipped) && report.integrate_ready && state.patchsets@.len() > 0,
        r matches Readiness::Ready { patchset } ==> patchset + 1 == state.patchsets@.len(),
        r matches Readiness::NotReady { exit_code } ==> exit_code == report.exit_code
            && !report.integrate_ready,
        r is NoPatchset ==> state.patchsets@.len() == 0 && report.integrate_ready,
{
    assert(state.patchsets.len() == state.patchsets@.len());
}

} // verus!
