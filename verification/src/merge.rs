//! Integrating one change, step by step: each step takes what the one before gave and what was
//! read since, and a merge is recorded only where every step went well.
use crate::event::{AuthorizationBasis, NormalizedGate, NormalizedPolicy, Payload};
use crate::integrate::{
    all_evidenced, authorization_basis, authorized, check_merge, confirm_authorization,
    integration_payload, is_basis, joins, readiness, refuses_basis, same_basis, BasisRefusal,
    ClosedBehavior, DebtStanding, MergeRefusal, Readiness,
};
use crate::state::{ledger, ChangeState, StatusReport};
use crate::text::{opt_view, views};
use vstd::prelude::*;

verus! {

/// Why an integration stops before it is recorded.
#[derive(Clone, Copy, Debug, PartialEq, Eq, Structural)]
pub enum Stop {
    /// The change is closed, and a tagged integration passes over it.
    Skipped,
    NotReady { exit_code: i32 },
    NoPatchset,
    Basis(BasisRefusal),
    /// The gates, the policy or the readiness changed while the merge was prepared.
    Unsettled,
    /// No worktree has the target checked out.
    NoWorktree,
    TargetNotClean,
    MergeFailed,
    Refused(MergeRefusal),
}

/// A change that is ready, with the patchset that is to be merged.
#[derive(Debug)]
pub struct ReadyChange {
    pub patchset: usize,
}

/// A ready change, with what authorizes its merge.
#[derive(Debug)]
pub struct AuthorizedMerge {
    pub patchset: usize,
    pub basis: AuthorizationBasis,
}

/// An authorized merge whose authorization was read twice and had not moved.
#[derive(Debug)]
pub struct ConfirmedMerge {
    pub patchset: usize,
    pub basis: AuthorizationBasis,
}

/// A confirmed merge into a clean worktree of the target.
#[derive(Debug)]
pub struct PreparedMerge {
    pub patchset: usize,
    pub basis: AuthorizationBasis,
    /// The head of the target before the merge.
    pub old_target: String,
    /// The tree that was evaluated, where the merge has one.
    pub evaluated_tree: Option<String>,
}

/// What Git made of a merge.
#[derive(Debug)]
pub struct MadeMerge {
    pub commit: String,
    pub parents: Vec<String>,
    pub tree: String,
}

/// A merge that was made and holds what was authorized.
#[derive(Debug)]
pub struct CheckedMerge {
    pub patchset: usize,
    pub basis: AuthorizationBasis,
    pub old_target: String,
    pub commit: String,
}

/// Whether a change is ready, and with which patchset: the latest one.
pub open spec fn decision(
    state: ChangeState,
    report: StatusReport,
    closed: ClosedBehavior,
) -> Result<ReadyChange, Stop> {
    if state.closure is Some && closed == ClosedBehavior::SkipTagged {
        Err(Stop::Skipped)
    } else if !report.integrate_ready {
        Err(Stop::NotReady { exit_code: report.exit_code })
    } else if state.patchsets@.len() == 0 {
        Err(Stop::NoPatchset)
    } else {
        Ok(ReadyChange { patchset: (state.patchsets@.len() - 1) as usize })
    }
}

/// Decides whether a change is ready to be merged.
pub fn decide(state: &ChangeState, report: &StatusReport, closed: ClosedBehavior) -> (r: Result<
    ReadyChange,
    Stop,
>)
    ensures
        r == decision(*state, *report, closed),
{
    match readiness(state, report, closed) {
        Readiness::Skipped => Err(Stop::Skipped),
        Readiness::NotReady { exit_code } => Err(Stop::NotReady { exit_code }),
        Readiness::NoPatchset => Err(Stop::NoPatchset),
        Readiness::Ready { patchset } => Ok(ReadyChange { patchset }),
    }
}

/// A tagged integration passes over every closed change, whatever closed it and whatever its check
/// comes to, and over nothing else; and what is refused as not ready is open, or refused for being
/// closed where one change was asked for.
pub proof fn tagged_integrations_pass_over_closed_changes(
    state: ChangeState,
    report: StatusReport,
    closed: ClosedBehavior,
)
    ensures
        state.closure is Some ==> decision(state, report, ClosedBehavior::SkipTagged) == Err::<
            ReadyChange,
            Stop,
        >(Stop::Skipped),
        state.closure is None || closed == ClosedBehavior::Refuse ==> decision(
            state,
            report,
            closed,
        ) != Err::<ReadyChange, Stop>(Stop::Skipped),
        forall|exit_code: i32|
            decision(state, report, closed) == Err::<ReadyChange, Stop>(
                Stop::NotReady { exit_code },
            ) ==> (state.closure is None || closed == ClosedBehavior::Refuse)
                && !report.integrate_ready && exit_code == report.exit_code,
{
}

/// A change that is not ready is never merged: unless it is passed over, it stops the integration
/// with the code of its check.
pub proof fn unready_changes_stop_with_their_code(
    state: ChangeState,
    report: StatusReport,
    closed: ClosedBehavior,
)
    requires
        !report.integrate_ready,
        state.closure is None || closed == ClosedBehavior::Refuse,
    ensures
        decision(state, report, closed) == Err::<ReadyChange, Stop>(
            Stop::NotReady { exit_code: report.exit_code },
        ),
{
}

/// A ready change is merged with the patchset that came last, and it has one.
pub proof fn ready_changes_merge_their_last_patchset(
    state: ChangeState,
    report: StatusReport,
    closed: ClosedBehavior,
)
    requires
        report.integrate_ready,
        state.closure is None || closed == ClosedBehavior::Refuse,
        state.patchsets@.len() <= usize::MAX,
    ensures
        match decision(state, report, closed) {
            Ok(ready) => ready.patchset + 1 == state.patchsets@.len(),
            Err(stop) => stop == Stop::NoPatchset && state.patchsets@.len() == 0,
        },
{
}

/// What the configuration and the ledger say of a merge at one reading.
pub struct Reading {
    pub report: StatusReport,
    pub debt: DebtStanding,
    pub gates: Vec<NormalizedGate>,
    pub policy: NormalizedPolicy,
}

/// Whether a basis is what one reading gives for a patchset.
pub open spec fn reads_as(
    state: ChangeState,
    patchset: usize,
    changes: Seq<ChangeState>,
    reading: Reading,
    basis: AuthorizationBasis,
) -> bool {
    is_basis(
        state,
        reading.report,
        state.patchsets@[patchset as int].id@,
        reading.debt,
        changes,
        reading.gates,
        reading.policy,
        basis,
    )
}

/// Whether one reading gives no basis for a patchset.
pub open spec fn reads_not(
    state: ChangeState,
    patchset: usize,
    changes: Seq<ChangeState>,
    reading: Reading,
    refusal: BasisRefusal,
) -> bool {
    refuses_basis(
        state,
        reading.report,
        state.patchsets@[patchset as int].id@,
        reading.debt,
        changes,
        refusal,
    )
}

/// Whether a ready change becomes `r` on a reading.
pub open spec fn authorizes(
    ready: ReadyChange,
    state: ChangeState,
    changes: Seq<ChangeState>,
    reading: Reading,
    r: Result<AuthorizedMerge, Stop>,
) -> bool {
    match r {
        Ok(merge) => merge.patchset == ready.patchset && reads_as(
            state,
            ready.patchset,
            changes,
            reading,
            merge.basis,
        ),
        Err(Stop::Basis(refusal)) => reads_not(state, ready.patchset, changes, reading, refusal),
        Err(_) => false,
    }
}

/// Reads what authorizes the merge of a ready change.
pub fn authorize(
    ready: ReadyChange,
    state: &ChangeState,
    changes: &Vec<ChangeState>,
    reading: Reading,
) -> (r: Result<AuthorizedMerge, Stop>)
    requires
        ledger(changes@),
        ready.patchset < state.patchsets@.len(),
    ensures
        authorizes(ready, *state, changes@, reading, r),
{
    let basis = authorization_basis(
        state,
        &reading.report,
        state.patchsets[ready.patchset].id.as_str(),
        &reading.debt,
        changes,
        reading.gates,
        reading.policy,
    );
    match basis {
        Ok(basis) => Ok(AuthorizedMerge { patchset: ready.patchset, basis }),
        Err(refusal) => Err(Stop::Basis(refusal)),
    }
}

/// Whether a second reading confirms a basis: the change is still ready, and the basis that is read
/// now says the same.
pub open spec fn confirmed_by(
    state: ChangeState,
    patchset: usize,
    basis: AuthorizationBasis,
    changes: Seq<ChangeState>,
    reading: Reading,
) -> bool {
    exists|again: AuthorizationBasis| #[trigger]
        reads_as(state, patchset, changes, reading, again) && reading.report.integrate_ready
            && same_basis(basis, again)
}

/// Whether a second reading gives another basis, or says that the change is no longer ready.
pub open spec fn unsettled_by(
    state: ChangeState,
    patchset: usize,
    basis: AuthorizationBasis,
    changes: Seq<ChangeState>,
    reading: Reading,
) -> bool {
    exists|again: AuthorizationBasis| #[trigger]
        reads_as(state, patchset, changes, reading, again) && !(reading.report.integrate_ready
            && same_basis(basis, again))
}

/// Whether an authorized merge becomes `r` on a second reading.
pub open spec fn confirms(
    merge: AuthorizedMerge,
    state: ChangeState,
    changes: Seq<ChangeState>,
    reading: Reading,
    r: Result<ConfirmedMerge, Stop>,
) -> bool {
    match r {
        Ok(confirmed) => confirmed.patchset == merge.patchset && confirmed.basis == merge.basis
            && confirmed_by(state, merge.patchset, merge.basis, changes, reading),
        Err(Stop::Unsettled) => unsettled_by(state, merge.patchset, merge.basis, changes, reading),
        Err(Stop::Basis(refusal)) => reads_not(state, merge.patchset, changes, reading, refusal),
        Err(_) => false,
    }
}

/// Reads what authorizes a merge a second time. Configuration is under no lock, so it can move
/// between the two.
pub fn confirm(
    merge: AuthorizedMerge,
    state: &ChangeState,
    changes: &Vec<ChangeState>,
    reading: Reading,
) -> (r: Result<ConfirmedMerge, Stop>)
    requires
        ledger(changes@),
        merge.patchset < state.patchsets@.len(),
        merge.basis.gate_evidence.well_formed(),
    ensures
        confirms(merge, *state, changes@, reading, r),
{
    let again = authorization_basis(
        state,
        &reading.report,
        state.patchsets[merge.patchset].id.as_str(),
        &reading.debt,
        changes,
        reading.gates,
        reading.policy,
    );
    match again {
        Ok(again) => {
            assert(reads_as(*state, merge.patchset, changes@, reading, again));
            if confirm_authorization(&merge.basis, &again, reading.report.integrate_ready) {
                Ok(ConfirmedMerge { patchset: merge.patchset, basis: merge.basis })
            } else {
                Err(Stop::Unsettled)
            }
        },
        Err(refusal) => Err(Stop::Basis(refusal)),
    }
}

/// Where a target stands: whether its worktree is clean, where it has one, its head, and the tree
/// that the merge into it comes to, where it comes to one.
#[derive(Debug)]
pub struct Target {
    pub clean: Option<bool>,
    pub head: String,
    pub merged_tree: Option<String>,
}

/// What a confirmed merge becomes on a target.
pub open spec fn preparation(merge: ConfirmedMerge, target: Target) -> Result<PreparedMerge, Stop> {
    match target.clean {
        None => Err(Stop::NoWorktree),
        Some(false) => Err(Stop::TargetNotClean),
        Some(true) => Ok(
            PreparedMerge {
                patchset: merge.patchset,
                basis: merge.basis,
                old_target: target.head,
                evaluated_tree: target.merged_tree,
            },
        ),
    }
}

/// Prepares a confirmed merge: only a clean worktree of the target takes it.
pub fn prepare(merge: ConfirmedMerge, target: Target) -> (r: Result<PreparedMerge, Stop>)
    ensures
        r == preparation(merge, target),
{
    match target.clean {
        None => Err(Stop::NoWorktree),
        Some(clean) => if clean {
            Ok(
                PreparedMerge {
                    patchset: merge.patchset,
                    basis: merge.basis,
                    old_target: target.head,
                    evaluated_tree: target.merged_tree,
                },
            )
        } else {
            Err(Stop::TargetNotClean)
        },
    }
}

/// The commit that a prepared merge merges: by its name, so that a branch that moved after its
/// approval brings nothing along.
pub fn merged_head<'a>(merge: &PreparedMerge, state: &'a ChangeState) -> (r: &'a str)
    requires
        merge.patchset < state.patchsets@.len(),
    ensures
        r@ == state.patchsets@[merge.patchset as int].head@,
{
    state.patchsets[merge.patchset].head.as_str()
}

/// Whether a prepared merge becomes `r` on what Git made of it.
pub open spec fn checks(
    merge: PreparedMerge,
    state: ChangeState,
    made: Option<MadeMerge>,
    r: Result<CheckedMerge, Stop>,
) -> bool {
    let head = state.patchsets@[merge.patchset as int].head@;
    match made {
        None => r == Err::<CheckedMerge, Stop>(Stop::MergeFailed),
        Some(made) => {
            let joined = joins(made.parents@, merge.old_target@, head);
            let evaluated = merge.evaluated_tree is Some ==> merge.evaluated_tree->0@ == made.tree@;
            match r {
                Ok(checked) => joined && evaluated && checked.patchset == merge.patchset
                    && checked.basis == merge.basis && checked.old_target == merge.old_target
                    && checked.commit == made.commit,
                Err(Stop::Refused(MergeRefusal::UnexpectedParents)) => !joined,
                Err(Stop::Refused(MergeRefusal::UnevaluatedTree)) => joined && !evaluated,
                Err(_) => false,
            }
        },
    }
}

/// Holds a merge that Git made, or failed to make, against what was prepared.
pub fn check_made(merge: PreparedMerge, state: &ChangeState, made: Option<MadeMerge>) -> (r: Result<
    CheckedMerge,
    Stop,
>)
    requires
        merge.patchset < state.patchsets@.len(),
    ensures
        checks(merge, *state, made, r),
{
    match made {
        None => Err(Stop::MergeFailed),
        Some(made) => match check_merge(
            &made.parents,
            merge.old_target.as_str(),
            state.patchsets[merge.patchset].head.as_str(),
            &merge.evaluated_tree,
            made.tree.as_str(),
        ) {
            Ok(()) => Ok(
                CheckedMerge {
                    patchset: merge.patchset,
                    basis: merge.basis,
                    old_target: merge.old_target,
                    commit: made.commit,
                },
            ),
            Err(refusal) => Err(Stop::Refused(refusal)),
        },
    }
}

/// Whether a payload records a merge.
pub open spec fn records(
    payload: Payload,
    merge: CheckedMerge,
    state: ChangeState,
    target: Seq<char>,
) -> bool {
    match payload {
        Payload::ChangeIntegrated {
            integrated_commit,
            source_patchset_id,
            source_head,
            target_branch,
            target_before,
            authorization,
        } => {
            &&& integrated_commit@ == merge.commit@
            &&& source_patchset_id@ == state.patchsets@[merge.patchset as int].id@
            &&& source_head@ == state.patchsets@[merge.patchset as int].head@
            &&& target_branch@ == target
            &&& target_before@ == merge.old_target@
            &&& authorization == Some(merge.basis)
        },
        _ => false,
    }
}

/// What records a merge that holds.
pub fn record(merge: CheckedMerge, state: &ChangeState, target: &str) -> (r: Payload)
    requires
        merge.patchset < state.patchsets@.len(),
    ensures
        records(r, merge, *state, target@),
{
    integration_payload(
        state,
        merge.patchset,
        merge.commit.as_str(),
        target,
        merge.old_target.as_str(),
        merge.basis,
    )
}

/// Whether an integration went through every step from the first reading to the merge that it
/// records.
pub open spec fn went_through(
    state: ChangeState,
    changes: Seq<ChangeState>,
    closed: ClosedBehavior,
    first: Reading,
    second: Reading,
    target: Target,
    made: MadeMerge,
    ready: ReadyChange,
    read: AuthorizedMerge,
    confirmed: ConfirmedMerge,
    prepared: PreparedMerge,
    checked: CheckedMerge,
) -> bool {
    &&& decision(state, first.report, closed) == Ok::<ReadyChange, Stop>(ready)
    &&& authorizes(ready, state, changes, first, Ok(read))
    &&& confirms(read, state, changes, second, Ok(confirmed))
    &&& preparation(confirmed, target) == Ok::<PreparedMerge, Stop>(prepared)
    &&& checks(prepared, state, Some(made), Ok(checked))
}

/// A merge is recorded only where the change was ready at both readings, a verdict approves its
/// latest patchset or a declared debt stands in for one, every gate has evidence, the target was
/// clean, and the commit joins the target as it was and the head of that very patchset, and carries
/// the tree that was evaluated.
pub proof fn merges_are_guarded(
    state: ChangeState,
    changes: Seq<ChangeState>,
    closed: ClosedBehavior,
    first: Reading,
    second: Reading,
    target: Target,
    made: MadeMerge,
    ready: ReadyChange,
    read: AuthorizedMerge,
    confirmed: ConfirmedMerge,
    prepared: PreparedMerge,
    checked: CheckedMerge,
)
    requires
        went_through(
            state,
            changes,
            closed,
            first,
            second,
            target,
            made,
            ready,
            read,
            confirmed,
            prepared,
            checked,
        ),
    ensures
        first.report.integrate_ready,
        second.report.integrate_ready,
        state.patchsets@.len() > 0,
        checked.patchset == state.patchsets@.len() - 1,
        authorized(state, state.patchsets@.last().id@, first.debt),
        authorized(state, state.patchsets@.last().id@, second.debt),
        all_evidenced(first.report.gates@),
        all_evidenced(second.report.gates@),
        target.clean == Some(true),
        joins(made.parents@, target.head@, state.patchsets@.last().head@),
        target.merged_tree is Some ==> target.merged_tree->0@ == made.tree@,
        reads_as(state, checked.patchset, changes, first, checked.basis),
        checked.commit == made.commit,
        checked.old_target == target.head,
{
    assert(state.patchsets.len() == state.patchsets@.len());
    assert(checked.patchset == state.patchsets@.len() - 1);
    lemma_basis_authorizes(state, checked.patchset, changes, first, checked.basis);
    let again = choose|again: AuthorizationBasis| #[trigger]
        reads_as(state, checked.patchset, changes, second, again)
            && second.report.integrate_ready && same_basis(checked.basis, again);
    lemma_basis_authorizes(state, checked.patchset, changes, second, again);
}

proof fn lemma_basis_authorizes(
    state: ChangeState,
    patchset: usize,
    changes: Seq<ChangeState>,
    reading: Reading,
    basis: AuthorizationBasis,
)
    requires
        reads_as(state, patchset, changes, reading, basis),
    ensures
        authorized(state, state.patchsets@[patchset as int].id@, reading.debt),
        all_evidenced(reading.report.gates@),
{
}

/// A merge is prepared exactly where the target has a worktree and that is clean, and it is one of
/// what was confirmed into the target as it stands.
pub proof fn only_clean_targets_take_merges(merge: ConfirmedMerge, target: Target)
    ensures
        preparation(merge, target) is Ok <==> target.clean is Some && target.clean->0,
        target.clean is None ==> preparation(merge, target) == Err::<PreparedMerge, Stop>(
            Stop::NoWorktree,
        ),
        preparation(merge, target) matches Ok(prepared) ==> prepared.patchset == merge.patchset
            && prepared.basis == merge.basis && prepared.old_target == target.head
            && prepared.evaluated_tree == target.merged_tree,
{
}

/// A merge that Git made is taken exactly where it has two parents, first the target as it was and
/// then the head that was approved, and it carries the tree that was evaluated, where one was.
pub proof fn merges_join_target_and_head(
    merge: PreparedMerge,
    state: ChangeState,
    made: Option<MadeMerge>,
    r: Result<CheckedMerge, Stop>,
)
    requires
        checks(merge, state, made, r),
    ensures
        r is Ok <==> (made matches Some(commit) && commit.parents@.len() == 2
            && commit.parents@[0]@ == merge.old_target@ && commit.parents@[1]@
            == state.patchsets@[merge.patchset as int].head@ && (merge.evaluated_tree is None
            || merge.evaluated_tree->0@ == commit.tree@)),
        made is None ==> r == Err::<CheckedMerge, Stop>(Stop::MergeFailed),
        r matches Ok(checked) ==> checked.commit == made->0.commit && checked.old_target
            == merge.old_target && checked.patchset == merge.patchset,
{
    if let Some(commit) = made {
        let head = state.patchsets@[merge.patchset as int].head@;
        let all = views(commit.parents@);
        if joins(commit.parents@, merge.old_target@, head) {
            assert(all.len() == 2 && all[0] == merge.old_target@ && all[1] == head);
        } else if commit.parents@.len() == 2 && commit.parents@[0]@ == merge.old_target@
            && commit.parents@[1]@ == head {
            assert(all =~= seq![merge.old_target@, head]);
        }
    }
}

/// What is recorded of a merge names the patchset that was merged and its head, the commit and
/// where the target stood before.
pub proof fn records_name_the_merge(
    payload: Payload,
    merge: CheckedMerge,
    state: ChangeState,
    target: Seq<char>,
)
    requires
        records(payload, merge, state, target),
    ensures
        payload matches Payload::ChangeIntegrated {
            integrated_commit,
            source_patchset_id,
            source_head,
            target_branch,
            target_before,
            authorization,
        } && integrated_commit@ == merge.commit@ && source_patchset_id@
            == state.patchsets@[merge.patchset as int].id@ && source_head@
            == state.patchsets@[merge.patchset as int].head@ && target_branch@ == target
            && target_before@ == merge.old_target@ && authorization == Some(merge.basis),
{
}

/// A change is authorized exactly where its patchset is approved or a debt stands in for that, each
/// of its gates has evidence and the ledger knows what it waits for; otherwise the first of these
/// that fails is told.
pub proof fn merges_need_authority(
    ready: ReadyChange,
    state: ChangeState,
    changes: Seq<ChangeState>,
    reading: Reading,
    r: Result<AuthorizedMerge, Stop>,
)
    requires
        authorizes(ready, state, changes, reading, r),
    ensures
        r is Ok ==> forall|i: int|
            0 <= i < reading.report.gates@.len() ==> (
            #[trigger] reading.report.gates@[i]).evidence_event_id is Some,
        r matches Ok(merge) ==> merge.patchset == ready.patchset && (
        merge.basis.verdict_event_id is None ==> reading.debt.waives_latest_patchset),
        reading.debt.waives_latest_patchset && reading.report.gates@.len() == 0
            && state.blocked_by@.len() == 0 ==> r is Ok,
{
}

/// A reading that finds the change no longer ready never confirms a merge, and a confirmed merge is
/// the one that was authorized.
pub proof fn unready_changes_are_not_confirmed(
    merge: AuthorizedMerge,
    state: ChangeState,
    changes: Seq<ChangeState>,
    reading: Reading,
    r: Result<ConfirmedMerge, Stop>,
)
    requires
        confirms(merge, state, changes, reading, r),
    ensures
        !reading.report.integrate_ready ==> r is Err,
        r matches Ok(confirmed) ==> confirmed.patchset == merge.patchset && confirmed.basis
            == merge.basis,
        r is Ok ==> exists|again: AuthorizationBasis|
            opt_view(again.verdict_event_id) == opt_view(merge.basis.verdict_event_id)
                && opt_view(again.danger) == opt_view(merge.basis.danger) && #[trigger] reads_as(
                state,
                merge.patchset,
                changes,
                reading,
                again,
            ),
{
}

} // verus!
