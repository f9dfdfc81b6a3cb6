//! What the ledger records: events and their payloads.
use crate::model::{
    AcceptanceProbe, ActorSource, BlockerRef, ClaimStage, Closure, DisplacedClaim, ProbePhase,
    ReviewCause, Severity, StageBudget, Verdict, VerifyResult,
};
use crate::table::Register;
use crate::time::Timestamp;
use vstd::prelude::*;

verus! {

/// Which version of a file an anchor points into.
#[derive(Clone, Copy, Debug, PartialEq, Eq, Structural)]
pub enum Side {
    Base,
    Head,
}

/// The place in a file that a remark is about.
#[derive(Debug)]
pub struct Anchor {
    pub path: String,
    pub side: Side,
    pub blob: Option<String>,
    pub line_start: Option<u32>,
    pub line_end: Option<u32>,
    pub context: Option<String>,
}

/// Whether the gates of one verification run one after another.
#[derive(Clone, Copy, Debug, PartialEq, Eq, Structural)]
pub enum VerificationRunMode {
    Sequential,
    Parallel,
}

/// What a declared debt leaves out.
#[derive(Clone, Copy, Debug, PartialEq, Eq, Structural)]
pub enum DebtMissing {
    IndependentReview,
}

/// A finding recorded together with a verdict.
#[derive(Debug)]
pub struct InlineFinding {
    pub finding_id: String,
    pub blocking: bool,
    pub severity: Severity,
    pub summary: String,
    pub body: Option<String>,
    pub anchor: Option<Anchor>,
}

/// A finding that a delegated run raised.
#[derive(Debug)]
pub struct RunFinding {
    pub summary: String,
    pub severity: Option<Severity>,
}

/// A finding that a delegated run put off.
#[derive(Debug)]
pub struct DeferredFinding {
    pub id: String,
    pub summary: String,
    pub severity: Option<Severity>,
    pub why: String,
}

/// The commits from `base` to `head`.
#[derive(Debug)]
pub struct CommitRange {
    pub base: String,
    pub head: String,
}

/// One gate of a verification run, as it was declared.
#[derive(Debug)]
pub struct VerificationRunGate {
    pub name: String,
    pub command: String,
    pub timeout_seconds: Option<u64>,
}

/// The acceptance probe that evidence is about.
#[derive(Debug)]
pub struct ProbeEvidenceRef {
    pub brief_event_id: String,
    pub name: String,
    pub phase: ProbePhase,
}

/// The earlier failure that shows a check able to fail.
#[derive(Debug)]
pub struct Falsification {
    pub event_id: String,
    pub revision: String,
    pub predicted_reason: String,
}

/// A revision and what a rewrite turned it into, where anything survives it.
#[derive(Debug)]
pub struct RewrittenRevision {
    pub from: String,
    pub to: Option<String>,
}

/// Whose verdict a patchset had when a debt was declared for it.
#[derive(Debug)]
pub struct DebtCoverage {
    pub reviewer: String,
    pub model: Option<String>,
}

/// The closure that a merge rested on for one prerequisite.
#[derive(Debug)]
pub struct PrerequisiteClosure {
    pub change_id: String,
    pub closure_event_id: String,
    pub integrated_commit: Option<String>,
}

/// A gate as it was in effect for a merge.
#[derive(Debug)]
pub struct NormalizedGate {
    pub name: String,
    pub command: String,
    pub profiles: Vec<String>,
    pub timeout: Option<u64>,
}

/// The policy as it was in effect for a merge.
#[derive(Debug)]
pub struct NormalizedPolicy {
    pub forbid_self_approval: bool,
    pub require_declared_actor: bool,
    pub provenance_git_identity: String,
}

/// Everything that authorized one merge.
#[derive(Debug)]
pub struct AuthorizationBasis {
    pub verdict_event_id: Option<String>,
    pub verdict_provisional: Option<String>,
    pub gate_evidence: Register,
    pub prerequisites: Vec<PrerequisiteClosure>,
    pub blocking_findings: Vec<String>,
    pub holds: Vec<String>,
    pub gates: Vec<NormalizedGate>,
    pub policy: NormalizedPolicy,
    pub danger: Option<String>,
    pub audit_debt_event_id: Option<String>,
}

/// What one event records.
#[allow(inconsistent_fields)]
#[derive(Debug)]
pub enum Payload {
    ChangeOpened {
        slug: String,
        title: String,
        profile: String,
        target_branch: String,
        branch: String,
        base: String,
        worktree: Option<String>,
        blocked_by: Vec<String>,
        tags: Vec<String>,
        journal_ref: Option<String>,
        dangerous: bool,
    },
    MetadataUpdated {
        add_blocked_by: Vec<String>,
        remove_blocked_by: Vec<String>,
        add_tags: Vec<String>,
        remove_tags: Vec<String>,
        assign: Option<String>,
        priority: Option<i32>,
    },
    Message {
        message_type: String,
        severity: String,
        summary: String,
        detail: Option<String>,
        metadata: Option<String>,
    },
    BriefRecorded {
        title: Option<String>,
        body: String,
        base_revision: Option<String>,
        acceptance_probes: Vec<AcceptanceProbe>,
        plan_ref: Option<String>,
        plan_slice: Option<String>,
    },
    ChangelogRecorded { category: String, body: String },
    PatchsetAdded {
        patchset_id: String,
        base: String,
        head: String,
        merge_base: Option<String>,
        brief_ref: Option<String>,
        author_name: Option<String>,
        author_email: Option<String>,
        committer_name: Option<String>,
        committer_email: Option<String>,
        contributors: Vec<String>,
        claim_id: Option<String>,
        claim_actor: Option<String>,
    },
    ClaimSet {
        claim_id: String,
        ttl_seconds: u64,
        stage_budgets: Vec<(StageBudget, u64)>,
        displaced: Option<DisplacedClaim>,
    },
    ClaimReleased { claim_id: String },
    StageSet {
        claim_id: String,
        stage: ClaimStage,
        note: Option<String>,
        blocker: Option<BlockerRef>,
    },
    CommentAdded { body: String, patchset_id: Option<String>, anchor: Option<Anchor> },
    FindingAdded {
        finding_id: String,
        blocking: bool,
        severity: Severity,
        summary: String,
        body: Option<String>,
        patchset_id: Option<String>,
        anchor: Option<Anchor>,
    },
    ReplyAdded { parent_event_id: String, body: String },
    DispositionRecorded {
        finding_id: String,
        status: String,
        commit: Option<String>,
        evidence: Option<String>,
        supersedes: Vec<String>,
    },
    VerdictRecorded {
        patchset_id: String,
        verdict: Verdict,
        causes: Vec<ReviewCause>,
        body: Option<String>,
        findings: Vec<InlineFinding>,
        provisional: Option<String>,
    },
    VerificationRunStarted {
        revision: String,
        mode: VerificationRunMode,
        skip_green: bool,
        gates: Vec<VerificationRunGate>,
    },
    VerificationRecorded {
        run_id: Option<String>,
        probe: Option<ProbeEvidenceRef>,
        gate: Option<String>,
        command: String,
        timeout_seconds: Option<u64>,
        revision: String,
        result: VerifyResult,
        exit_code: Option<i32>,
        duration_ms: Option<u64>,
        output_tail: Option<String>,
        timed_out: bool,
        hostname: String,
        attested: bool,
        runner: Option<String>,
        note: Option<String>,
        falsification: Option<Falsification>,
        tree: Option<String>,
        against_target: Option<String>,
        tested_tree: Option<String>,
        worktree_dirty: Option<bool>,
        worktree_dirty_tracked: Option<bool>,
        worktree_dirty_untracked: Option<bool>,
        tree_moved: bool,
    },
    VerificationReused {
        run_id: String,
        gate: String,
        revision: String,
        evidence_event_id: String,
    },
    HoldSet { reason: String },
    HoldReleased { hold_event_id: Option<String>, reason: Option<String> },
    ChangeClosed {
        outcome: Closure,
        integrated_commit: Option<String>,
        superseded_by: Option<String>,
    },
    ChangeIntegrated {
        integrated_commit: String,
        source_patchset_id: String,
        source_head: String,
        target_branch: String,
        target_before: String,
        authorization: Option<AuthorizationBasis>,
    },
    IntegrationAsserted {
        integrated_commit: String,
        source_patchset_id: String,
        source_head: String,
        target_branch: String,
        target_before: Option<String>,
    },
    ForgeProjection {
        host: String,
        base_repo: String,
        base_ref: String,
        head_repo: String,
        head_ref: String,
        policy: String,
    },
    ForgeLink {
        pr_number: u64,
        url: String,
        base_repo: String,
        base_ref: String,
        head_repo: String,
        head_ref: String,
        head_sha: String,
    },
    ForgeChecks { pr_head: String, state: String, detail: Option<String> },
    ForgePrState {
        state: String,
        merge_sha: Option<String>,
        link_event_id: Option<String>,
        pr_head: Option<String>,
    },
    RunDispatched {
        route: String,
        worktree: String,
        change: Option<String>,
        fork: Option<String>,
        range: Option<CommitRange>,
        brief_event_id: Option<String>,
        note: Option<String>,
    },
    RunEnded {
        dispatch_event_id: String,
        outcome: String,
        reviewed_head: Option<String>,
        raised: Vec<RunFinding>,
        deferred: Vec<DeferredFinding>,
        collects: Vec<String>,
        note: Option<String>,
    },
    ReviewPassOpened { pass_id: String, members: Vec<String>, note: Option<String> },
    ReviewPassCompleted { pass_id: String, note: Option<String> },
    ReviewPassAbandoned { pass_id: String, reason: String },
    HistoryRewritten {
        mapping: Vec<RewrittenRevision>,
        reason: String,
        tool: Option<String>,
    },
    DirtyTreeWaived { reason: String, revision: String },
    DebtDeclared {
        reason: String,
        patchset_id: Option<String>,
        missing: DebtMissing,
        coverage: Vec<DebtCoverage>,
    },
    AuditVerdictRecorded {
        revision: String,
        verdict: Verdict,
        body: Option<String>,
        findings: Vec<InlineFinding>,
    },
    AuditFindingAdded {
        finding_id: String,
        blocking: bool,
        severity: Severity,
        summary: String,
        body: Option<String>,
        revision: String,
        anchor: Option<Anchor>,
    },
    AuditDispositionRecorded {
        finding_id: String,
        status: String,
        commit: Option<String>,
        evidence: Option<String>,
        supersedes: Vec<String>,
    },
    Unknown,
}

/// One event of the ledger.
#[derive(Debug)]
pub struct Event {
    pub schema_version: u32,
    pub event_id: String,
    pub repository_id: String,
    pub change_id: String,
    pub actor: String,
    pub actor_source: Option<ActorSource>,
    pub on_behalf_of: Option<String>,
    pub model: Option<String>,
    pub harness: Option<String>,
    pub session: Option<String>,
    pub created_at: Timestamp,
    pub payload: Payload,
}

/// The type name that a payload is recorded under; an unknown payload has none of its own.
pub open spec fn tag_text(payload: Payload) -> Option<Seq<char>> {
    match payload {
        Payload::ChangeOpened { .. } => Some("change-opened"@),
        Payload::MetadataUpdated { .. } => Some("metadata-updated"@),
        Payload::Message { .. } => Some("message"@),
        Payload::BriefRecorded { .. } => Some("brief-recorded"@),
        Payload::ChangelogRecorded { .. } => Some("changelog-recorded"@),
        Payload::PatchsetAdded { .. } => Some("patchset-added"@),
        Payload::ClaimSet { .. } => Some("claim-set"@),
        Payload::ClaimReleased { .. } => Some("claim-released"@),
        Payload::StageSet { .. } => Some("stage-set"@),
        Payload::CommentAdded { .. } => Some("comment-added"@),
        Payload::FindingAdded { .. } => Some("finding-added"@),
        Payload::ReplyAdded { .. } => Some("reply-added"@),
        Payload::DispositionRecorded { .. } => Some("disposition-recorded"@),
        Payload::VerdictRecorded { .. } => Some("verdict-recorded"@),
        Payload::VerificationRunStarted { .. } => Some("verification-run-started"@),
        Payload::VerificationRecorded { .. } => Some("verification-recorded"@),
        Payload::VerificationReused { .. } => Some("verification-reused"@),
        Payload::HoldSet { .. } => Some("hold-set"@),
        Payload::HoldReleased { .. } => Some("hold-released"@),
        Payload::ChangeClosed { .. } => Some("change-closed"@),
        Payload::ChangeIntegrated { .. } => Some("change-integrated"@),
        Payload::IntegrationAsserted { .. } => Some("integration-asserted"@),
        Payload::ForgeProjection { .. } => Some("forge-projection"@),
        Payload::ForgeLink { .. } => Some("forge-link"@),
        Payload::ForgeChecks { .. } => Some("forge-checks"@),
        Payload::ForgePrState { .. } => Some("forge-pr-state"@),
        Payload::RunDispatched { .. } => Some("run-dispatched"@),
        Payload::RunEnded { .. } => Some("run-ended"@),
        Payload::ReviewPassOpened { .. } => Some("review-pass-opened"@),
        Payload::ReviewPassCompleted { .. } => Some("review-pass-completed"@),
        Payload::ReviewPassAbandoned { .. } => Some("review-pass-abandoned"@),
        Payload::HistoryRewritten { .. } => Some("history-rewritten"@),
        Payload::DirtyTreeWaived { .. } => Some("dirty-tree-waived"@),
        Payload::DebtDeclared { .. } => Some("debt-declared"@),
        Payload::AuditVerdictRecorded { .. } => Some("audit-verdict-recorded"@),
        Payload::AuditFindingAdded { .. } => Some("audit-finding-added"@),
        Payload::AuditDispositionRecorded { .. } => Some("audit-disposition-recorded"@),
        Payload::Unknown => None,
    }
}

impl Payload {
    /// The type name that this payload is recorded under.
    pub fn tag(&self) -> (r: Option<&'static str>)
        ensures
            match r {
                Some(tag) => tag_text(*self) == Some(tag@),
                None => tag_text(*self) is None,
            },
    {
        match self {
            Payload::ChangeOpened { .. } => Some("change-opened"),
            Payload::MetadataUpdated { .. } => Some("metadata-updated"),
            Payload::Message { .. } => Some("message"),
            Payload::BriefRecorded { .. } => Some("brief-recorded"),
            Payload::ChangelogRecorded { .. } => Some("changelog-recorded"),
            Payload::PatchsetAdded { .. } => Some("patchset-added"),
            Payload::ClaimSet { .. } => Some("claim-set"),
            Payload::ClaimReleased { .. } => Some("claim-released"),
            Payload::StageSet { .. } => Some("stage-set"),
            Payload::CommentAdded { .. } => Some("comment-added"),
            Payload::FindingAdded { .. } => Some("finding-added"),
            Payload::ReplyAdded { .. } => Some("reply-added"),
            Payload::DispositionRecorded { .. } => Some("disposition-recorded"),
            Payload::VerdictRecorded { .. } => Some("verdict-recorded"),
            Payload::VerificationRunStarted { .. } => Some("verification-run-started"),
            Payload::VerificationRecorded { .. } => Some("verification-recorded"),
            Payload::VerificationReused { .. } => Some("verification-reused"),
            Payload::HoldSet { .. } => Some("hold-set"),
            Payload::HoldReleased { .. } => Some("hold-released"),
            Payload::ChangeClosed { .. } => Some("change-closed"),
            Payload::ChangeIntegrated { .. } => Some("change-integrated"),
            Payload::IntegrationAsserted { .. } => Some("integration-asserted"),
            Payload::ForgeProjection { .. } => Some("forge-projection"),
            Payload::ForgeLink { .. } => Some("forge-link"),
            Payload::ForgeChecks { .. } => Some("forge-checks"),
            Payload::ForgePrState { .. } => Some("forge-pr-state"),
            Payload::RunDispatched { .. } => Some("run-dispatched"),
            Payload::RunEnded { .. } => Some("run-ended"),
            Payload::ReviewPassOpened { .. } => Some("review-pass-opened"),
            Payload::ReviewPassCompleted { .. } => Some("review-pass-completed"),
            Payload::ReviewPassAbandoned { .. } => Some("review-pass-abandoned"),
            Payload::HistoryRewritten { .. } => Some("history-rewritten"),
            Payload::DirtyTreeWaived { .. } => Some("dirty-tree-waived"),
            Payload::DebtDeclared { .. } => Some("debt-declared"),
            Payload::AuditVerdictRecorded { .. } => Some("audit-verdict-recorded"),
            Payload::AuditFindingAdded { .. } => Some("audit-finding-added"),
            Payload::AuditDispositionRecorded { .. } => Some("audit-disposition-recorded"),
            Payload::Unknown => None,
        }
    }
}

} // verus!
