//! The state of a change, as its events leave it, and the ledger of all changes.
use crate::event::Anchor;
use crate::model::{AcceptanceProbe, Closure, ReviewCause, Severity, Verdict, VerifyResult};
use crate::text::{lemma_precedes_irreflexive, precedes, same};
use crate::time::Timestamp;
use vstd::prelude::*;

verus! {

/// One reviewed revision of a change.
pub struct Patchset {
    pub id: String,
    pub base: String,
    pub head: String,
    pub merge_base: Option<String>,
    pub actor: String,
    pub on_behalf_of: Option<String>,
    pub brief_ref: Option<String>,
    pub brief_version: Option<usize>,
    pub event_id: String,
}

/// One version of the instructions a change is worked from.
pub struct Brief {
    pub event_id: String,
    pub ts: Timestamp,
    pub actor: String,
    pub on_behalf_of: Option<String>,
    pub title: Option<String>,
    pub body: String,
    pub base_revision: Option<String>,
    pub acceptance_probes: Vec<AcceptanceProbe>,
    pub plan_ref: Option<String>,
    pub plan_slice: Option<String>,
}

/// One recorded verdict.
pub struct VerdictState {
    pub event_id: String,
    pub patchset_id: String,
    pub verdict: Verdict,
    pub causes: Vec<ReviewCause>,
    pub body: Option<String>,
    pub actor: String,
    pub on_behalf_of: Option<String>,
    pub model: Option<String>,
    pub created_at: Timestamp,
    pub provisional: Option<String>,
}

/// One recorded finding, with the status its dispositions leave it in.
pub struct FindingState {
    pub finding_id: String,
    pub origin_event: String,
    pub blocking: bool,
    pub severity: Severity,
    pub summary: String,
    pub body: Option<String>,
    pub patchset_id: Option<String>,
    pub anchor: Option<Anchor>,
    /// What its dispositions settled; a finding without one is open.
    pub status: Option<String>,
    /// The dispositions that no later one supersedes.
    pub tips: Vec<String>,
    /// The commits that its dispositions name.
    pub disposition_commits: Vec<String>,
}

/// One recorded run of a gate, a probe or an ad hoc command.
pub struct VerificationState {
    pub event_id: String,
    pub gate: Option<String>,
    pub command: String,
    pub revision: String,
    pub result: VerifyResult,
    pub attested: bool,
}

/// Who holds a claim.
pub struct ClaimIdentity {
    pub actor: String,
    pub harness: String,
    pub session: String,
}

/// The claim on a change.
pub struct ClaimState {
    pub claim_id: String,
    pub owner: ClaimIdentity,
}

/// Where a claim stands at one instant.
pub struct ClaimTiming {
    pub active: bool,
    pub stale: bool,
    pub expired: bool,
    pub stage: String,
}

/// A hold on a change.
pub struct HoldState {
    pub hold_event_id: String,
    pub reason: String,
    pub held_by: String,
}

/// How and when a change closed.
pub struct ClosureState {
    pub outcome: Closure,
    pub integrated_commit: Option<String>,
    pub superseded_by: Option<String>,
    pub target_before: Option<String>,
    pub event_id: String,
    pub created_at: Timestamp,
}

/// The changelog entry that was last recorded for a change.
pub struct ChangelogEntry {
    pub category: String,
    pub body: String,
    pub event_id: String,
    pub actor: String,
    pub on_behalf_of: Option<String>,
    pub harness: Option<String>,
    pub session: Option<String>,
    pub created_at: Timestamp,
}

impl ChangelogEntry {
    /// Whoever the entry was recorded for, or else whoever recorded it.
    pub open spec fn author(self) -> Seq<char> {
        match self.on_behalf_of {
            Some(name) => name@,
            None => self.actor@,
        }
    }

    /// Whoever the entry was recorded for, or else whoever recorded it.
    pub fn effective_author(&self) -> (r: &str)
        ensures
            r@ == self.author(),
    {
        match &self.on_behalf_of {
            Some(name) => name.as_str(),
            None => self.actor.as_str(),
        }
    }
}

/// A message that was left on a change.
pub struct MessageState {
    pub event_id: String,
    pub message_type: String,
    pub severity: String,
    pub summary: String,
    pub detail: Option<String>,
    /// A JSON object, as text.
    pub metadata: Option<String>,
    pub actor: String,
    pub harness: Option<String>,
    pub session: Option<String>,
    pub created_at: Timestamp,
}

/// A change, as its events leave it.
pub struct ChangeState {
    pub change_id: String,
    pub slug: String,
    pub title: String,
    pub profile: String,
    pub iterating: bool,
    pub target_branch: String,
    pub branch: String,
    pub base: String,
    pub worktree: Option<String>,
    pub opened_by: String,
    pub opened_harness: Option<String>,
    pub journal_ref: Option<String>,
    pub blocked_by: Vec<String>,
    pub tags: Vec<String>,
    pub assigned_to: Option<String>,
    pub priority: i32,
    pub opened_at: Timestamp,
    pub patchsets: Vec<Patchset>,
    pub briefs: Vec<Brief>,
    pub findings: Vec<FindingState>,
    pub audit_findings: Vec<FindingState>,
    pub verdicts: Vec<VerdictState>,
    /// The position of the verdict that has authority; verdicts that contest each other have none.
    pub authority: Option<usize>,
    pub verifications: Vec<VerificationState>,
    /// The revisions that runs of several gates were made at.
    pub run_revisions: Vec<String>,
    /// The revisions that audits were made at.
    pub audit_revisions: Vec<String>,
    pub claim: Option<ClaimState>,
    pub holds: Vec<HoldState>,
    pub closure: Option<ClosureState>,
    pub changelog: Option<ChangelogEntry>,
    pub messages: Vec<MessageState>,
}

impl ChangeState {
    /// The position of the verdict that has authority, where one has.
    pub open spec fn authoritative(self) -> Option<int> {
        match self.authority {
            Some(k) => if k < self.verdicts@.len() {
                Some(k as int)
            } else {
                None
            },
            None => None,
        }
    }

    /// The position of the verdict that has authority, where one has.
    pub fn latest_verdict(&self) -> (r: Option<usize>)
        ensures
            match r {
                Some(k) => self.authoritative() == Some(k as int) && k < self.verdicts@.len(),
                None => self.authoritative() is None,
            },
    {
        match self.authority {
            Some(k) => if k < self.verdicts.len() {
                Some(k)
            } else {
                None
            },
            None => None,
        }
    }

    /// Whether the change has closed.
    pub fn is_closed(&self) -> (r: bool)
        ensures
            r == self.closure is Some,
    {
        self.closure.is_some()
    }
}

/// What status says of a gate.
pub struct GateReport {
    pub name: String,
    pub evidence_event_id: Option<String>,
}

/// What status says of a change.
pub struct StatusReport {
    pub integrate_ready: bool,
    /// The exit code of a check: zero where nothing blocks.
    pub exit_code: i32,
    pub ready_reason: String,
    pub next_action: String,
    pub gates: Vec<GateReport>,
    pub open_blocking_findings: Vec<String>,
    pub holds: Vec<String>,
    pub danger: String,
    pub approval_waived_by_debt: bool,
}

/// How a change closed, where it did.
pub open spec fn outcome(state: ChangeState) -> Option<Closure> {
    match state.closure {
        Some(closure) => Some(closure.outcome),
        None => None,
    }
}

/// Whether the ledger holds a change of this identity.
pub open spec fn known(changes: Seq<ChangeState>, id: Seq<char>) -> bool {
    exists|i: int| 0 <= i < changes.len() && #[trigger] changes[i].change_id@ == id
}

/// The position of a known change.
pub open spec fn at(changes: Seq<ChangeState>, id: Seq<char>) -> int {
    choose|i: int| 0 <= i < changes.len() && #[trigger] changes[i].change_id@ == id
}

/// A ledger: changes in the order of their identities, each identity once.
pub open spec fn ledger(changes: Seq<ChangeState>) -> bool {
    forall|i: int, j: int|
        0 <= i < j < changes.len() ==> precedes(
            #[trigger] changes[i].change_id@,
            #[trigger] changes[j].change_id@,
        )
}

/// In a ledger an identity stands at one position.
pub proof fn lemma_at(changes: Seq<ChangeState>, id: Seq<char>, i: int)
    requires
        ledger(changes),
        0 <= i < changes.len(),
        changes[i].change_id@ == id,
    ensures
        known(changes, id),
        at(changes, id) == i,
{
    let j = at(changes, id);
    assert(0 <= j < changes.len() && changes[j].change_id@ == id);
    lemma_precedes_irreflexive(id);
    if i < j {
        assert(precedes(changes[i].change_id@, changes[j].change_id@));
    }
    if j < i {
        assert(precedes(changes[j].change_id@, changes[i].change_id@));
    }
}

/// The position of a change in the ledger, where it is known.
pub fn position(changes: &Vec<ChangeState>, id: &str) -> (r: Option<usize>)
    requires
        ledger(changes@),
    ensures
        match r {
            Some(i) => i < changes@.len() && known(changes@, id@) && at(changes@, id@) == i
                && changes@[i as int].change_id@ == id@,
            None => !known(changes@, id@),
        },
{
    for i in 0..changes.len()
        invariant
            ledger(changes@),
            forall|k: int| 0 <= k < i ==> #[trigger] changes@[k].change_id@ != id@,
    {
        if same(changes[i].change_id.as_str(), id) {
            proof {
                lemma_at(changes@, id@, i as int);
            }
            return Some(i);
        }
    }
    None
}

} // verus!
