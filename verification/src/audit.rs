//! A review after the fact: declaring that one is owed, and performing it.
use crate::chain::{identity, identity_of, verdict_identity};
use crate::context::Ctx;
use crate::event::{DebtCoverage, DebtMissing, InlineFinding, Payload};
use crate::model::{ActorSource, Verdict};
use crate::order::count;
use crate::review::{any_blocking, has_blocking};
use crate::state::{ChangeState, VerdictState};
use crate::text::{opt_view, same, trim, trimmed};
use vstd::prelude::*;

verus! {

/// Nothing says what is owed, or why it could not run.
#[derive(Debug, PartialEq, Eq, Structural)]
pub struct EmptyReason;

/// The patchset that a debt is declared for: the latest of an open change, and none of a closed
/// one, which has no gate left to satisfy.
pub open spec fn owed_patchset(state: ChangeState) -> Option<Seq<char>> {
    if state.closure is Some || state.patchsets@.len() == 0 {
        None
    } else {
        Some(state.patchsets@.last().id@)
    }
}

/// What a debt says of one verdict.
pub struct CoverageView {
    pub reviewer: Seq<char>,
    pub model: Option<Seq<char>>,
}

/// What a debt says of the verdicts that there are.
pub open spec fn coverage_views(coverage: Seq<DebtCoverage>) -> Seq<CoverageView> {
    Seq::new(
        coverage.len(),
        |i: int|
            CoverageView {
                reviewer: coverage[i].reviewer@,
                model: opt_view(coverage[i].model),
            },
    )
}

/// Whose verdicts a patchset has.
pub open spec fn covered_by(verdicts: Seq<VerdictState>, patchset_id: Seq<char>) -> Seq<
    CoverageView,
>
    decreases verdicts.len(),
{
    if verdicts.len() == 0 {
        Seq::empty()
    } else {
        let before = covered_by(verdicts.drop_last(), patchset_id);
        let verdict = verdicts.last();
        if verdict.patchset_id@ == patchset_id {
            before.push(
                CoverageView {
                    reviewer: verdict_identity(verdict),
                    model: opt_view(verdict.model),
                },
            )
        } else {
            before
        }
    }
}

fn collect_coverage(verdicts: &Vec<VerdictState>, patchset_id: &str) -> (r: Vec<DebtCoverage>)
    ensures
        coverage_views(r@) == covered_by(verdicts@, patchset_id@),
{
    let mut out: Vec<DebtCoverage> = Vec::new();
    assert(coverage_views(out@) =~= Seq::empty());
    assert(verdicts@.take(0) =~= Seq::empty());
    for i in 0..verdicts.len()
        invariant
            coverage_views(out@) == covered_by(verdicts@.take(i as int), patchset_id@),
    {
        let ghost before = coverage_views(out@);
        assert(verdicts@.take(i + 1).drop_last() =~= verdicts@.take(i as int));
        let verdict = &verdicts[i];
        if same(verdict.patchset_id.as_str(), patchset_id) {
            out.push(
                DebtCoverage {
                    reviewer: identity(&verdict.actor, &verdict.on_behalf_of).to_string(),
                    model: verdict.model.clone(),
                },
            );
            assert(coverage_views(out@) =~= before.push(
                CoverageView {
                    reviewer: verdict_identity(*verdict),
                    model: opt_view(verdict.model),
                },
            ));
        }
    }
    assert(verdicts@.take(verdicts@.len() as int) =~= verdicts@);
    out
}

/// Whether `r` records that an independent look is owed.
pub open spec fn declares_debt(
    state: &ChangeState,
    reason: &str,
    r: Result<Payload, EmptyReason>,
) -> bool {
    match r {
            Ok(Payload::DebtDeclared { reason: text, patchset_id, missing, coverage }) => {
                &&& text@ == trimmed(reason@)
                &&& text@.len() > 0
                &&& opt_view(patchset_id) == owed_patchset(*state)
                &&& missing == DebtMissing::IndependentReview
                &&& coverage_views(coverage@) == (match owed_patchset(*state) {
                    Some(id) => covered_by(state.verdicts@, id),
                    None => Seq::empty(),
                })
            },
            Ok(_) => false,
            Err(_) => trimmed(reason@).len() == 0,
        }
}

/// What records that an independent review is owed.
pub fn declare_audit_debt(state: &ChangeState, reason: &str) -> (r: Result<Payload, EmptyReason>)
    ensures
        declares_debt(state, reason, r),
{
    let reason = trim(reason);
    if reason.as_str().is_empty() {
        return Err(EmptyReason);
    }
    if state.is_closed() || state.patchsets.len() == 0 {
        let coverage: Vec<DebtCoverage> = Vec::new();
        assert(coverage_views(coverage@) =~= Seq::empty());
        return Ok(
            Payload::DebtDeclared {
                reason,
                patchset_id: None,
                missing: DebtMissing::IndependentReview,
                coverage,
            },
        );
    }
    let id = state.patchsets[state.patchsets.len() - 1].id.clone();
    let coverage = collect_coverage(&state.verdicts, id.as_str());
    Ok(
        Payload::DebtDeclared {
            reason,
            patchset_id: Some(id),
            missing: DebtMissing::IndependentReview,
            coverage,
        },
    )
}

/// What an audit asks to record.
pub struct AuditArgs {
    pub verdict: Verdict,
    pub body: Option<String>,
    pub findings_json: Option<String>,
}

/// Why an audit is not recorded.
#[derive(Clone, Copy, Debug, PartialEq, Eq, Structural)]
pub enum AuditRefusal {
    NotClosed,
    NotIntegrated,
    /// Nobody declared the auditing identity, so it shows nobody independent.
    AssumedAuditor,
    /// Whoever audits contributed to the work.
    OwnWork,
    ApprovalWithBlockingFindings,
}

/// Why an audit is refused, where it is: it is of an integrated revision; an approving one is by
/// somebody who declared themselves and did not write the work, where the repository forbids
/// self-approval; and an approval comes with no blocking finding. `contributed` says whether the
/// auditor contributed to the latest patchset.
pub open spec fn audit_refusal(
    state: ChangeState,
    ctx: Ctx,
    verdict: Verdict,
    forbid_self_approval: bool,
    contributed: bool,
    blocking: bool,
) -> Option<AuditRefusal> {
    let guarded = verdict == Verdict::Approved && forbid_self_approval && state.patchsets@.len() > 0;
    if state.closure is None {
        Some(AuditRefusal::NotClosed)
    } else if state.closure->0.integrated_commit is None {
        Some(AuditRefusal::NotIntegrated)
    } else if guarded && ctx.on_behalf_of is None && ctx.actor_source == ActorSource::GitFallback {
        Some(AuditRefusal::AssumedAuditor)
    } else if guarded && contributed {
        Some(AuditRefusal::OwnWork)
    } else if verdict == Verdict::Approved && blocking {
        Some(AuditRefusal::ApprovalWithBlockingFindings)
    } else {
        None
    }
}

/// Whoever an audit is by.
pub fn auditor(ctx: &Ctx) -> (r: &str)
    ensures
        r@ == identity_of(ctx.actor@, opt_view(ctx.on_behalf_of)),
{
    identity(&ctx.actor, &ctx.on_behalf_of)
}

/// The revision that an audit looks at: what was integrated.
pub fn integrated_revision(state: &ChangeState) -> (r: Result<&str, AuditRefusal>)
    ensures
        match r {
            Ok(revision) => state.closure is Some && opt_view(state.closure->0.integrated_commit)
                == Some(revision@),
            Err(refusal) => refusal == (if state.closure is None {
                AuditRefusal::NotClosed
            } else {
                AuditRefusal::NotIntegrated
            }) && (state.closure is None || state.closure->0.integrated_commit is None),
        },
{
    match &state.closure {
        Some(closure) => match &closure.integrated_commit {
            Some(revision) => Ok(revision.as_str()),
            None => Err(AuditRefusal::NotIntegrated),
        },
        None => Err(AuditRefusal::NotClosed),
    }
}

/// Whether `r` refuses an approving audit for who performs it.
pub open spec fn guards_audit(
    ctx: &Ctx,
    state: &ChangeState,
    verdict: Verdict,
    forbid_self_approval: bool,
    contributed: bool,
    r: Result<(), AuditRefusal>,
) -> bool {
    ({
            let guarded = verdict == Verdict::Approved && forbid_self_approval
                && state.patchsets@.len() > 0;
            let assumed = ctx.on_behalf_of is None && ctx.actor_source == ActorSource::GitFallback;
            r == (if guarded && assumed {
                Err(AuditRefusal::AssumedAuditor)
            } else if guarded && contributed {
                Err(AuditRefusal::OwnWork)
            } else {
                Ok::<(), AuditRefusal>(())
            })
        })
}

/// Refuses an approving audit by somebody undeclared, or by somebody who wrote the work.
pub fn refuse_self_audit(
    ctx: &Ctx,
    state: &ChangeState,
    verdict: Verdict,
    forbid_self_approval: bool,
    contributed: bool,
) -> (r: Result<(), AuditRefusal>)
    ensures
        guards_audit(ctx, state, verdict, forbid_self_approval, contributed, r),
{
    if verdict != Verdict::Approved || !forbid_self_approval || state.patchsets.len() == 0 {
        return Ok(());
    }
    if ctx.on_behalf_of.is_none() && ctx.actor_source == ActorSource::GitFallback {
        return Err(AuditRefusal::AssumedAuditor);
    }
    if contributed {
        return Err(AuditRefusal::OwnWork);
    }
    Ok(())
}

/// Whether `r` records an audit, or says why it is not recorded.
pub open spec fn answers_audit(
    ctx: &Ctx,
    state: &ChangeState,
    verdict: Verdict,
    body: Option<String>,
    findings: Vec<InlineFinding>,
    forbid_self_approval: bool,
    contributed: bool,
    r: Result<Payload, AuditRefusal>,
) -> bool {
    ({
            let refusal = audit_refusal(
                *state,
                *ctx,
                verdict,
                forbid_self_approval,
                contributed,
                any_blocking(findings@),
            );
            match r {
                Ok(Payload::AuditVerdictRecorded {
                    revision,
                    verdict: given,
                    body: text,
                    findings: raised,
                }) => refusal is None && opt_view(state.closure->0.integrated_commit) == Some(
                    revision@,
                ) && given == verdict && text == body && raised == findings,
                Ok(_) => false,
                Err(error) => refusal == Some(error),
            }
        })
}

/// What records a review after integration, or why it is not recorded.
pub fn audit(
    ctx: &Ctx,
    state: &ChangeState,
    verdict: Verdict,
    body: Option<String>,
    findings: Vec<InlineFinding>,
    forbid_self_approval: bool,
    contributed: bool,
) -> (r: Result<Payload, AuditRefusal>)
    ensures
        answers_audit(
            ctx,
            state,
            verdict,
            body,
            findings,
            forbid_self_approval,
            contributed,
            r,
        ),
{
    let revision = match integrated_revision(state) {
        Ok(revision) => revision.to_string(),
        Err(refusal) => return Err(refusal),
    };
    if let Err(refusal) = refuse_self_audit(
        ctx,
        state,
        verdict,
        forbid_self_approval,
        contributed,
    ) {
        return Err(refusal);
    }
    if verdict == Verdict::Approved && has_blocking(&findings) {
        return Err(AuditRefusal::ApprovalWithBlockingFindings);
    }
    Ok(Payload::AuditVerdictRecorded { revision, verdict, body, findings })
}

/// Raising problems needs no independence: an audit that asks for changes is never refused for who
/// performs it.
pub proof fn anyone_may_ask_for_changes(
    state: ChangeState,
    ctx: Ctx,
    forbid_self_approval: bool,
    contributed: bool,
    blocking: bool,
)
    requires
        state.closure is Some,
        state.closure->0.integrated_commit is Some,
    ensures
        audit_refusal(
            state,
            ctx,
            Verdict::ChangesRequested,
            forbid_self_approval,
            contributed,
            blocking,
        ) is None,
{
}

/// A debt has a reason. It is owed for the latest patchset of an open change, and for none of a
/// closed one.
pub proof fn debts_are_of_the_latest_patchset(
    state: &ChangeState,
    reason: &str,
    r: Result<Payload, EmptyReason>,
)
    requires
        declares_debt(state, reason, r),
    ensures
        r is Ok <==> trimmed(reason@).len() > 0,
        r matches Ok(payload) ==> (payload matches Payload::DebtDeclared {
            reason: text,
            patchset_id,
            ..
        } && text@ == trimmed(reason@) && (patchset_id is Some <==> state.closure is None
            && state.patchsets@.len() > 0) && (patchset_id is Some ==> patchset_id->0@
            == state.patchsets@.last().id@)),
{
}

/// A debt names as many verdicts as its patchset has.
pub proof fn coverage_counts_the_verdicts(verdicts: Seq<VerdictState>, patchset_id: Seq<char>)
    ensures
        covered_by(verdicts, patchset_id).len() == count(
            verdicts,
            |verdict: VerdictState| verdict.patchset_id@ == patchset_id,
        ),
    decreases verdicts.len(),
{
    if verdicts.len() > 0 {
        coverage_counts_the_verdicts(verdicts.drop_last(), patchset_id);
    }
}

/// Only an approving audit where self-approval is forbidden asks who performs it: it is refused to
/// whoever is assumed and to whoever contributed.
pub proof fn approving_audits_are_independent(
    ctx: &Ctx,
    state: &ChangeState,
    verdict: Verdict,
    forbid_self_approval: bool,
    contributed: bool,
    r: Result<(), AuditRefusal>,
)
    requires
        guards_audit(ctx, state, verdict, forbid_self_approval, contributed, r),
    ensures
        r is Err <==> verdict == Verdict::Approved && forbid_self_approval && state.patchsets@.len()
            > 0 && (contributed || (ctx.on_behalf_of is None && ctx.actor_source
            == ActorSource::GitFallback)),
        r == Err::<(), AuditRefusal>(AuditRefusal::OwnWork) ==> contributed,
        r == Err::<(), AuditRefusal>(AuditRefusal::AssumedAuditor) ==> ctx.actor_source
            == ActorSource::GitFallback,
{
}

/// An audit is recorded exactly of what was integrated: of that commit, with the verdict and the
/// findings that were given, and no approval with a blocking one.
pub proof fn audits_are_of_what_was_integrated(
    ctx: &Ctx,
    state: &ChangeState,
    verdict: Verdict,
    body: Option<String>,
    findings: Vec<InlineFinding>,
    forbid_self_approval: bool,
    contributed: bool,
    r: Result<Payload, AuditRefusal>,
)
    requires
        answers_audit(ctx, state, verdict, body, findings, forbid_self_approval, contributed, r),
    ensures
        r is Ok ==> state.closure is Some && state.closure->0.integrated_commit is Some,
        r is Ok && verdict == Verdict::Approved ==> forall|i: int|
            0 <= i < findings@.len() ==> !(#[trigger] findings@[i]).blocking,
        r is Ok && verdict == Verdict::Approved && forbid_self_approval && state.patchsets@.len()
            > 0 ==> !contributed,
        state.closure is Some && state.closure->0.integrated_commit is Some && verdict
            != Verdict::Approved ==> r is Ok,
        state.closure is Some && state.closure->0.integrated_commit is Some
            && !forbid_self_approval && findings@.len() == 0 ==> r is Ok,
        r == Err::<Payload, AuditRefusal>(AuditRefusal::NotClosed) <==> state.closure is None,
        r matches Ok(payload) ==> (payload matches Payload::AuditVerdictRecorded {
            revision,
            verdict: given,
            findings: raised,
            ..
        } && revision@ == state.closure->0.integrated_commit->0@ && given == verdict && raised
            == findings),
{
}

} // verus!
