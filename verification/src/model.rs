//! The vocabulary of the ledger: who acts, what is decided, and what an event records.
use vstd::prelude::*;

verus! {

/// How a change left the open state.
#[derive(Clone, Copy, Debug, PartialEq, Eq, Structural)]
pub enum Closure {
    Integrated,
    Abandoned,
    Superseded,
}

/// A decision on one patchset.
#[derive(Clone, Copy, Debug, PartialEq, Eq, Structural)]
pub enum Verdict {
    Approved,
    ChangesRequested,
    CommentOnly,
}

/// Why a review asked for changes.
#[derive(Clone, Copy, Debug, PartialEq, Eq, Structural)]
pub enum ReviewCause {
    Brief,
    Executor,
    IntegrationStaleness,
}

/// How much a finding matters.
#[derive(Clone, Copy, Debug, PartialEq, Eq, Structural)]
pub enum Severity {
    Critical,
    Major,
    Minor,
    Note,
}

/// What a gate or an acceptance probe came to.
#[derive(Clone, Copy, Debug, PartialEq, Eq, Structural)]
pub enum VerifyResult {
    Pass,
    Fail,
}

/// When in the life of a change an acceptance probe is evaluated.
#[derive(Clone, Copy, Debug, PartialEq, Eq, Structural)]
pub enum ProbePhase {
    Baseline,
    Final,
}

/// What an executor holding a claim is doing.
#[derive(Clone, Copy, Debug, PartialEq, Eq, Structural)]
pub enum ClaimStage {
    Started,
    SpecRead,
    Implementing,
    Verifying,
    BlockedOn,
    Snapshotted,
}

/// The stages that carry a time budget within a claim.
#[derive(Clone, Copy, Debug, PartialEq, Eq, Structural)]
pub enum StageBudget {
    Launch,
    Started,
    SpecRead,
    Implementing,
    Verifying,
    BlockedOn,
    Snapshotted,
}

/// Where the name an event is recorded under came from.
#[derive(Clone, Copy, Debug, PartialEq, Eq, Structural)]
pub enum ActorSource {
    Flag,
    Environment,
    GitFallback,
}

/// What a blocked executor waits for.
#[derive(Debug)]
pub enum BlockerRef {
    Brief { brief_event_id: String },
    Finding { finding_id: String },
    Change { change_id: String },
    External,
}

/// The claim that a new claim put aside.
#[derive(Debug)]
pub struct DisplacedClaim {
    pub claim_id: String,
    pub actor: String,
    pub harness: String,
    pub session: String,
    pub stage: String,
}

/// A check that a brief declares and that its work has to pass.
#[derive(Debug)]
pub struct AcceptanceProbe {
    pub name: String,
    pub command: String,
}

/// The name of a stage.
pub open spec fn stage_text(stage: ClaimStage) -> Seq<char> {
    match stage {
        ClaimStage::Started => "started"@,
        ClaimStage::SpecRead => "spec-read"@,
        ClaimStage::Implementing => "implementing"@,
        ClaimStage::Verifying => "verifying"@,
        ClaimStage::BlockedOn => "blocked-on"@,
        ClaimStage::Snapshotted => "snapshotted"@,
    }
}

/// The name of a stage.
pub fn stage_name(stage: ClaimStage) -> (r: &'static str)
    ensures
        r@ == stage_text(stage),
{
    match stage {
        ClaimStage::Started => "started",
        ClaimStage::SpecRead => "spec-read",
        ClaimStage::Implementing => "implementing",
        ClaimStage::Verifying => "verifying",
        ClaimStage::BlockedOn => "blocked-on",
        ClaimStage::Snapshotted => "snapshotted",
    }
}

/// The name of a severity.
pub open spec fn severity_text(severity: Severity) -> Seq<char> {
    match severity {
        Severity::Critical => "critical"@,
        Severity::Major => "major"@,
        Severity::Minor => "minor"@,
        Severity::Note => "note"@,
    }
}

/// The name of a severity.
pub fn severity_name(severity: Severity) -> (r: &'static str)
    ensures
        r@ == severity_text(severity),
{
    match severity {
        Severity::Critical => "critical",
        Severity::Major => "major",
        Severity::Minor => "minor",
        Severity::Note => "note",
    }
}

/// How a severity is written in a heading.
pub open spec fn severity_label_text(severity: Severity) -> Seq<char> {
    match severity {
        Severity::Critical => "Critical"@,
        Severity::Major => "Major"@,
        Severity::Minor => "Minor"@,
        Severity::Note => "Note"@,
    }
}

/// How a severity is written in a heading.
pub fn severity_label(severity: Severity) -> (r: &'static str)
    ensures
        r@ == severity_label_text(severity),
{
    match severity {
        Severity::Critical => "Critical",
        Severity::Major => "Major",
        Severity::Minor => "Minor",
        Severity::Note => "Note",
    }
}

/// How a verdict is written in a heading.
pub open spec fn verdict_label_text(verdict: Verdict) -> Seq<char> {
    match verdict {
        Verdict::Approved => "Approved"@,
        Verdict::ChangesRequested => "ChangesRequested"@,
        Verdict::CommentOnly => "CommentOnly"@,
    }
}

/// How a verdict is written in a heading.
pub fn verdict_label(verdict: Verdict) -> (r: &'static str)
    ensures
        r@ == verdict_label_text(verdict),
{
    match verdict {
        Verdict::Approved => "Approved",
        Verdict::ChangesRequested => "ChangesRequested",
        Verdict::CommentOnly => "CommentOnly",
    }
}

/// The name of a review cause.
pub open spec fn review_cause_text(cause: ReviewCause) -> Seq<char> {
    match cause {
        ReviewCause::Brief => "brief"@,
        ReviewCause::Executor => "executor"@,
        ReviewCause::IntegrationStaleness => "integration-staleness"@,
    }
}

/// The name of a review cause.
pub fn review_cause_name(cause: ReviewCause) -> (r: &'static str)
    ensures
        r@ == review_cause_text(cause),
{
    match cause {
        ReviewCause::Brief => "brief",
        ReviewCause::Executor => "executor",
        ReviewCause::IntegrationStaleness => "integration-staleness",
    }
}

} // verus!
