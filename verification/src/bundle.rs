//! Bundles: the events of one change in a form that travels between repositories.
use crate::digest::{checksum, checksum_of};
use crate::event::{tag_text, Event, Payload};
use crate::json::{
    copy_value, get_string, holds_object, is_object, pretty_bytes, string_members, write_pretty,
};
use crate::model::{ClaimStage, DisplacedClaim, StageBudget};
use crate::order::{chosen, lemma_chosen};
use crate::text::{
    contains, is_blank, less, lemma_precedes_total, lemma_precedes_transitive, precedes, same, trim,
    trimmed,
};
use vstd::prelude::*;

verus! {

/// The schema of a bundle.
pub const BUNDLE_SCHEMA: &'static str = "arc-bundle/1";

/// The events of one change, with what is needed to check them.
pub struct Bundle {
    pub schema: String,
    pub repository_id: String,
    pub change_id: String,
    pub event_count: usize,
    pub events_sha256: String,
    pub events: Vec<serde_json::Value>,
}

/// The objects that one patchset refers to.
#[derive(Debug)]
pub struct PatchsetObject {
    pub event_id: String,
    pub patchset_id: String,
    pub base: String,
    pub head: String,
}

/// One event of a bundle that was checked.
pub struct ValidatedEvent {
    pub event_id: String,
    pub value: serde_json::Value,
    pub bytes: Vec<u8>,
    pub typed: Option<Event>,
}

/// A bundle that was checked.
pub struct ValidatedBundle {
    pub bundle: Bundle,
    pub events: Vec<ValidatedEvent>,
    pub patchsets: Vec<PatchsetObject>,
    pub unknown_event_types: Vec<(String, String)>,
}

/// The fields that every event carries.
pub struct EventEnvelope<'a> {
    pub event_id: &'a str,
    pub repository_id: &'a str,
    pub change_id: &'a str,
    pub event_type: &'a str,
}

/// The parts of the identity that claim events carry.
#[derive(Clone, Copy, Debug, PartialEq, Eq, Structural)]
pub enum IdentityField {
    Actor,
    Harness,
    Session,
}

/// The string fields of an event.
#[derive(Clone, Copy, Debug, PartialEq, Eq, Structural)]
pub enum EventField {
    EventId,
    RepositoryId,
    ChangeId,
    EventType,
    PatchsetId,
    Base,
    Head,
}

/// The key of a string field.
pub open spec fn key_of(field: EventField) -> Seq<char> {
    match field {
        EventField::EventId => "event_id"@,
        EventField::RepositoryId => "repository_id"@,
        EventField::ChangeId => "change_id"@,
        EventField::EventType => "event_type"@,
        EventField::PatchsetId => "patchset_id"@,
        EventField::Base => "base"@,
        EventField::Head => "head"@,
    }
}

/// Why a bundle is not accepted.
#[allow(inconsistent_fields)]
#[derive(Debug)]
pub enum BundleError {
    NoEvents,
    InvalidId { id: String },
    NotAnObject,
    MissingField { field: EventField },
    FileMismatch { file_event_id: String },
    WrongChange { event_id: String },
    UnsupportedSchema,
    CountMismatch,
    ChecksumMismatch { computed: String },
    WrongOrigin { event_id: String },
    NotAscending,
    Malformed { event_id: String },
    IdentityMissing { field: IdentityField },
    IdentityNotCanonical { field: IdentityField },
    ZeroTtl,
    MissingBudget { budget: StageBudget },
    SnapshottedStage,
    BlockedWithoutNote,
    DuplicatePatchset { patchset_id: String },
    EmptyObjectId { event_id: String },
    /// The events that import understands make no history.
    NotReplayable,
}

/// Whether the rule for identifiers can accept a text.
pub open spec fn accepted<F: Fn(&str) -> bool>(rule: F, text: Seq<char>) -> bool {
    exists|s: &str| s@ == text && #[trigger] call_ensures(rule, (s,), true)
}

/// Whether the rule for identifiers can refuse a text.
pub open spec fn refused<F: Fn(&str) -> bool>(rule: F, text: Seq<char>) -> bool {
    exists|s: &str| s@ == text && #[trigger] call_ensures(rule, (s,), false)
}

/// Whether the rule for identifiers answers for every text.
pub open spec fn answers_all<F: Fn(&str) -> bool>(rule: F) -> bool {
    forall|s: &str| #[trigger] call_requires(rule, (s,))
}

fn check_id<F: Fn(&str) -> bool>(rule: &F, id: &str) -> (r: Result<(), BundleError>)
    requires
        answers_all(*rule),
    ensures
        match r {
            Ok(()) => accepted(*rule, id@),
            Err(BundleError::InvalidId { id: named }) => named@ == id@ && refused(*rule, id@),
            Err(_) => false,
        },
{
    if rule(id) {
        Ok(())
    } else {
        Err(BundleError::InvalidId { id: id.to_string() })
    }
}

/// A string field of an event.
pub open spec fn field(value: serde_json::Value, which: EventField) -> Option<Seq<char>> {
    let members = string_members(value);
    if is_object(value) && members.dom().contains(key_of(which)) {
        Some(members[key_of(which)])
    } else {
        None
    }
}

fn string_field<'a>(value: &'a serde_json::Value, which: EventField) -> (r: Option<&'a str>)
    ensures
        match r {
            Some(text) => field(*value, which) == Some(text@),
            None => field(*value, which) is None,
        },
{
    let key = match which {
        EventField::EventId => "event_id",
        EventField::RepositoryId => "repository_id",
        EventField::ChangeId => "change_id",
        EventField::EventType => "event_type",
        EventField::PatchsetId => "patchset_id",
        EventField::Base => "base",
        EventField::Head => "head",
    };
    get_string(value, key)
}

/// Whether an event has every field that events carry, with identifiers that the rule accepts.
pub open spec fn enveloped<F: Fn(&str) -> bool>(value: serde_json::Value, rule: F) -> bool {
    &&& is_object(value)
    &&& field(value, EventField::EventId) is Some
    &&& field(value, EventField::RepositoryId) is Some
    &&& field(value, EventField::ChangeId) is Some
    &&& field(value, EventField::EventType) is Some
    &&& accepted(rule, field(value, EventField::EventId)->0)
    &&& accepted(rule, field(value, EventField::RepositoryId)->0)
    &&& accepted(rule, field(value, EventField::ChangeId)->0)
}

/// Why an event lacks what events carry: the first of its fields that is missing, and after
/// them the first identifier that the rule refuses.
pub open spec fn envelope_fault<F: Fn(&str) -> bool>(
    value: serde_json::Value,
    rule: F,
    error: BundleError,
) -> bool {
    let event_id = field(value, EventField::EventId);
    let repository_id = field(value, EventField::RepositoryId);
    let change_id = field(value, EventField::ChangeId);
    let event_type = field(value, EventField::EventType);
    match error {
        BundleError::NotAnObject => !is_object(value),
        BundleError::MissingField { field } => is_object(value) && match field {
            EventField::EventId => event_id is None,
            EventField::RepositoryId => event_id is Some && repository_id is None,
            EventField::ChangeId => event_id is Some && repository_id is Some && change_id is None,
            EventField::EventType => event_id is Some && repository_id is Some && change_id is Some
                && event_type is None,
            _ => false,
        },
        BundleError::InvalidId { id } => {
            &&& event_id is Some
            &&& repository_id is Some
            &&& change_id is Some
            &&& event_type is Some
            &&& refused(rule, id@)
            &&& {
                ||| id@ == event_id->0
                ||| accepted(rule, event_id->0) && id@ == repository_id->0
                ||| accepted(rule, event_id->0) && accepted(rule, repository_id->0) && id@
                    == change_id->0
            }
        },
        _ => false,
    }
}

/// The fields that an event carries.
pub fn event_envelope<'a, F: Fn(&str) -> bool>(value: &'a serde_json::Value, rule: &F) -> (r: Result<
    EventEnvelope<'a>,
    BundleError,
>)
    requires
        answers_all(*rule),
    ensures
        match r {
            Ok(envelope) => {
                &&& enveloped(*value, *rule)
                &&& field(*value, EventField::EventId) == Some(envelope.event_id@)
                &&& field(*value, EventField::RepositoryId) == Some(envelope.repository_id@)
                &&& field(*value, EventField::ChangeId) == Some(envelope.change_id@)
                &&& field(*value, EventField::EventType) == Some(envelope.event_type@)
            },
            Err(error) => envelope_fault(*value, *rule, error),
        },
{
    if !holds_object(value) {
        return Err(BundleError::NotAnObject);
    }
    let event_id = match string_field(value, EventField::EventId) {
        Some(text) => text,
        None => {
            return Err(BundleError::MissingField { field: EventField::EventId });
        },
    };
    let repository_id = match string_field(value, EventField::RepositoryId) {
        Some(text) => text,
        None => {
            return Err(BundleError::MissingField { field: EventField::RepositoryId });
        },
    };
    let change_id = match string_field(value, EventField::ChangeId) {
        Some(text) => text,
        None => {
            return Err(BundleError::MissingField { field: EventField::ChangeId });
        },
    };
    let event_type = match string_field(value, EventField::EventType) {
        Some(text) => text,
        None => {
            return Err(BundleError::MissingField { field: EventField::EventType });
        },
    };
    if let Err(error) = check_id(rule, event_id) {
        return Err(error);
    }
    if let Err(error) = check_id(rule, repository_id) {
        return Err(error);
    }
    if let Err(error) = check_id(rule, change_id) {
        return Err(error);
    }
    Ok(EventEnvelope { event_id, repository_id, change_id, event_type })
}

/// Whether a type name is one that import understands.
pub open spec fn known_tag(tag: Seq<char>) -> bool {
    ||| tag == "change-opened"@
    ||| tag == "metadata-updated"@
    ||| tag == "message"@
    ||| tag == "brief-recorded"@
    ||| tag == "changelog-recorded"@
    ||| tag == "patchset-added"@
    ||| tag == "claim-set"@
    ||| tag == "claim-released"@
    ||| tag == "stage-set"@
    ||| tag == "comment-added"@
    ||| tag == "finding-added"@
    ||| tag == "reply-added"@
    ||| tag == "disposition-recorded"@
    ||| tag == "verdict-recorded"@
    ||| tag == "verification-run-started"@
    ||| tag == "verification-recorded"@
    ||| tag == "verification-reused"@
    ||| tag == "hold-set"@
    ||| tag == "hold-released"@
    ||| tag == "change-closed"@
    ||| tag == "change-integrated"@
    ||| tag == "integration-asserted"@
    ||| tag == "forge-projection"@
    ||| tag == "forge-link"@
    ||| tag == "forge-checks"@
    ||| tag == "forge-pr-state"@
    ||| tag == "run-dispatched"@
    ||| tag == "run-ended"@
    ||| tag == "review-pass-opened"@
    ||| tag == "review-pass-completed"@
    ||| tag == "review-pass-abandoned"@
    ||| tag == "history-rewritten"@
    ||| tag == "dirty-tree-waived"@
    ||| tag == "debt-declared"@
    ||| tag == "audit-verdict-recorded"@
    ||| tag == "audit-finding-added"@
    ||| tag == "audit-disposition-recorded"@
}

/// Whether a type name is one of the work on a change.
fn is_work_type(event_type: &str) -> (r: bool)
    ensures
        r == {
            ||| event_type@ == "change-opened"@
            ||| event_type@ == "metadata-updated"@
            ||| event_type@ == "message"@
            ||| event_type@ == "brief-recorded"@
            ||| event_type@ == "changelog-recorded"@
            ||| event_type@ == "patchset-added"@
            ||| event_type@ == "claim-set"@
            ||| event_type@ == "claim-released"@
            ||| event_type@ == "stage-set"@
        },
{
    same(event_type, "change-opened")
        || same(event_type, "metadata-updated")
        || same(event_type, "message")
        || same(event_type, "brief-recorded")
        || same(event_type, "changelog-recorded")
        || same(event_type, "patchset-added")
        || same(event_type, "claim-set")
        || same(event_type, "claim-released")
        || same(event_type, "stage-set")
}

/// Whether a type name is one of reviews and evidence.
fn is_review_type(event_type: &str) -> (r: bool)
    ensures
        r == {
            ||| event_type@ == "comment-added"@
            ||| event_type@ == "finding-added"@
            ||| event_type@ == "reply-added"@
            ||| event_type@ == "disposition-recorded"@
            ||| event_type@ == "verdict-recorded"@
            ||| event_type@ == "verification-run-started"@
            ||| event_type@ == "verification-recorded"@
            ||| event_type@ == "verification-reused"@
        },
{
    same(event_type, "comment-added")
        || same(event_type, "finding-added")
        || same(event_type, "reply-added")
        || same(event_type, "disposition-recorded")
        || same(event_type, "verdict-recorded")
        || same(event_type, "verification-run-started")
        || same(event_type, "verification-recorded")
        || same(event_type, "verification-reused")
}

/// Whether a type name is one of holds, endings and the forge.
fn is_ending_type(event_type: &str) -> (r: bool)
    ensures
        r == {
            ||| event_type@ == "hold-set"@
            ||| event_type@ == "hold-released"@
            ||| event_type@ == "change-closed"@
            ||| event_type@ == "change-integrated"@
            ||| event_type@ == "integration-asserted"@
            ||| event_type@ == "forge-projection"@
            ||| event_type@ == "forge-link"@
            ||| event_type@ == "forge-checks"@
            ||| event_type@ == "forge-pr-state"@
        },
{
    same(event_type, "hold-set")
        || same(event_type, "hold-released")
        || same(event_type, "change-closed")
        || same(event_type, "change-integrated")
        || same(event_type, "integration-asserted")
        || same(event_type, "forge-projection")
        || same(event_type, "forge-link")
        || same(event_type, "forge-checks")
        || same(event_type, "forge-pr-state")
}

/// Whether a type name is one of runs, passes, rewrites, debts and audits.
fn is_record_type(event_type: &str) -> (r: bool)
    ensures
        r == {
            ||| event_type@ == "run-dispatched"@
            ||| event_type@ == "run-ended"@
            ||| event_type@ == "review-pass-opened"@
            ||| event_type@ == "review-pass-completed"@
            ||| event_type@ == "review-pass-abandoned"@
            ||| event_type@ == "history-rewritten"@
            ||| event_type@ == "dirty-tree-waived"@
            ||| event_type@ == "debt-declared"@
            ||| event_type@ == "audit-verdict-recorded"@
            ||| event_type@ == "audit-finding-added"@
            ||| event_type@ == "audit-disposition-recorded"@
        },
{
    same(event_type, "run-dispatched")
        || same(event_type, "run-ended")
        || same(event_type, "review-pass-opened")
        || same(event_type, "review-pass-completed")
        || same(event_type, "review-pass-abandoned")
        || same(event_type, "history-rewritten")
        || same(event_type, "dirty-tree-waived")
        || same(event_type, "debt-declared")
        || same(event_type, "audit-verdict-recorded")
        || same(event_type, "audit-finding-added")
        || same(event_type, "audit-disposition-recorded")
}

/// Whether a type name is one that import understands.
pub fn known_event_type(event_type: &str) -> (r: bool)
    ensures
        r == known_tag(event_type@),
{
    is_work_type(event_type) || is_review_type(event_type) || is_ending_type(event_type)
        || is_record_type(event_type)
}

/// Import understands every payload that has a type name of its own.
pub proof fn every_payload_is_understood(payload: Payload)
    requires
        !(payload is Unknown),
    ensures
        tag_text(payload) is Some,
        known_tag(tag_text(payload)->0),
{
}

/// Whether a text is not empty and has no white space around it.
pub open spec fn canonical(text: Seq<char>) -> bool {
    trimmed(text).len() > 0 && trimmed(text) == text
}

/// Whether an event carries the whole identity that claim events need.
pub open spec fn claim_identified(event: Event) -> bool {
    &&& canonical(event.actor@)
    &&& event.harness is Some && canonical(event.harness->0@)
    &&& event.session is Some && canonical(event.session->0@)
}

/// Why an event lacks the identity that claim events need.
pub open spec fn identity_fault(event: Event, error: BundleError) -> bool {
    match error {
        BundleError::IdentityNotCanonical { field } => match field {
            IdentityField::Actor => !canonical(event.actor@),
            IdentityField::Harness => canonical(event.actor@) && event.harness is Some
                && !canonical(event.harness->0@),
            IdentityField::Session => canonical(event.actor@) && event.harness is Some && canonical(
                event.harness->0@,
            ) && event.session is Some && !canonical(event.session->0@),
        },
        BundleError::IdentityMissing { field } => match field {
            IdentityField::Actor => false,
            IdentityField::Harness => canonical(event.actor@) && event.harness is None,
            IdentityField::Session => canonical(event.actor@) && event.harness is Some && canonical(
                event.harness->0@,
            ) && event.session is None,
        },
        _ => false,
    }
}

fn is_canonical(text: &str) -> (r: bool)
    ensures
        r == canonical(text@),
{
    let bare = trim(text);
    !bare.as_str().is_empty() && same(bare.as_str(), text)
}

/// What a claim or body event is called in a complaint about it.
pub open spec fn event_kind(payload: Payload) -> Seq<char> {
    match payload {
        Payload::BriefRecorded { .. } => "brief"@,
        Payload::ChangelogRecorded { .. } => "changelog"@,
        Payload::ClaimSet { .. } => "claim"@,
        Payload::ClaimReleased { .. } => "claim-release"@,
        Payload::StageSet { .. } => "stage"@,
        _ => "event"@,
    }
}

/// What a claim or body event is called in a complaint about it.
pub fn event_type(payload: &Payload) -> (r: &'static str)
    ensures
        r@ == event_kind(*payload),
{
    match payload {
        Payload::BriefRecorded { .. } => "brief",
        Payload::ChangelogRecorded { .. } => "changelog",
        Payload::ClaimSet { .. } => "claim",
        Payload::ClaimReleased { .. } => "claim-release",
        Payload::StageSet { .. } => "stage",
        _ => "event",
    }
}

/// Checks that an event carries the whole identity that claim events need.
pub fn validate_claim_identity(event: &Event) -> (r: Result<(), BundleError>)
    ensures
        match r {
            Ok(()) => claim_identified(*event),
            Err(error) => identity_fault(*event, error),
        },
{
    if !is_canonical(event.actor.as_str()) {
        return Err(BundleError::IdentityNotCanonical { field: IdentityField::Actor });
    }
    match &event.harness {
        None => {
            return Err(BundleError::IdentityMissing { field: IdentityField::Harness });
        },
        Some(harness) => if !is_canonical(harness.as_str()) {
            return Err(BundleError::IdentityNotCanonical { field: IdentityField::Harness });
        },
    }
    match &event.session {
        None => {
            return Err(BundleError::IdentityMissing { field: IdentityField::Session });
        },
        Some(session) => if !is_canonical(session.as_str()) {
            return Err(BundleError::IdentityNotCanonical { field: IdentityField::Session });
        },
    }
    Ok(())
}

/// Whether a claim gives a stage a positive budget.
pub open spec fn budgeted(budgets: Seq<(StageBudget, u64)>, key: StageBudget) -> bool {
    exists|i: int| 0 <= i < budgets.len() && (#[trigger] budgets[i]).0 == key && budgets[i].1 > 0
}

fn has_budget(budgets: &Vec<(StageBudget, u64)>, key: StageBudget) -> (r: bool)
    ensures
        r == budgeted(budgets@, key),
{
    for i in 0..budgets.len()
        invariant
            forall|k: int|
                0 <= k < i ==> !((#[trigger] budgets@[k]).0 == key && budgets@[k].1 > 0),
    {
        if budgets[i].0 == key && budgets[i].1 > 0 {
            return true;
        }
    }
    false
}

/// Whether a decoded event is one that import accepts: claims, releases and stages carry an
/// identity and their own fields, and everything else goes as it is.
pub open spec fn payload_accepted<F: Fn(&str) -> bool>(event: Event, rule: F) -> bool {
    match event.payload {
        Payload::ClaimSet { claim_id, ttl_seconds, stage_budgets, displaced } => {
            &&& claim_identified(event)
            &&& claim_named(claim_id, displaced, rule)
            &&& ttl_seconds > 0
            &&& budgeted(stage_budgets@, StageBudget::Launch)
            &&& budgeted(stage_budgets@, StageBudget::Started)
            &&& budgeted(stage_budgets@, StageBudget::SpecRead)
            &&& budgeted(stage_budgets@, StageBudget::Implementing)
            &&& budgeted(stage_budgets@, StageBudget::Verifying)
        },
        Payload::ClaimReleased { claim_id } => claim_identified(event) && accepted(rule, claim_id@),
        Payload::StageSet { claim_id, stage, note, .. } => {
            &&& claim_identified(event)
            &&& accepted(rule, claim_id@)
            &&& stage != ClaimStage::Snapshotted
            &&& stage == ClaimStage::BlockedOn ==> note is Some && trimmed(note->0@).len() > 0
        },
        _ => true,
    }
}

/// Whether the rule accepts the identifiers of a claim.
pub open spec fn claim_named<F: Fn(&str) -> bool>(
    claim_id: String,
    displaced: Option<DisplacedClaim>,
    rule: F,
) -> bool {
    accepted(rule, claim_id@) && (displaced is Some ==> accepted(rule, displaced->0.claim_id@))
}

/// Why a decoded event is not accepted: the first of the checks that it fails.
pub open spec fn payload_fault<F: Fn(&str) -> bool>(
    event: Event,
    rule: F,
    error: BundleError,
) -> bool {
    match event.payload {
        Payload::ClaimSet { claim_id, ttl_seconds, stage_budgets, displaced } => {
            ||| identity_fault(event, error)
            ||| claim_identified(event) && match error {
                BundleError::InvalidId { id } => refused(rule, id@) && (id@ == claim_id@ || (accepted(
                    rule,
                    claim_id@,
                ) && displaced is Some && id@ == displaced->0.claim_id@)),
                BundleError::ZeroTtl => claim_named(claim_id, displaced, rule) && ttl_seconds == 0,
                BundleError::MissingBudget { budget } => claim_named(claim_id, displaced, rule)
                    && ttl_seconds > 0 && !budgeted(stage_budgets@, budget) && match budget {
                    StageBudget::Launch => true,
                    StageBudget::Started => budgeted(stage_budgets@, StageBudget::Launch),
                    StageBudget::SpecRead => budgeted(stage_budgets@, StageBudget::Launch)
                        && budgeted(stage_budgets@, StageBudget::Started),
                    StageBudget::Implementing => budgeted(stage_budgets@, StageBudget::Launch)
                        && budgeted(stage_budgets@, StageBudget::Started) && budgeted(
                        stage_budgets@,
                        StageBudget::SpecRead,
                    ),
                    StageBudget::Verifying => budgeted(stage_budgets@, StageBudget::Launch)
                        && budgeted(stage_budgets@, StageBudget::Started) && budgeted(
                        stage_budgets@,
                        StageBudget::SpecRead,
                    ) && budgeted(stage_budgets@, StageBudget::Implementing),
                    _ => false,
                },
                _ => false,
            }
        },
        Payload::ClaimReleased { claim_id } => {
            ||| identity_fault(event, error)
            ||| claim_identified(event) && (error matches BundleError::InvalidId { id } && id@
                == claim_id@ && refused(rule, id@))
        },
        Payload::StageSet { claim_id, stage, note, .. } => {
            ||| identity_fault(event, error)
            ||| claim_identified(event) && match error {
                BundleError::InvalidId { id } => id@ == claim_id@ && refused(rule, id@),
                BundleError::SnapshottedStage => accepted(rule, claim_id@) && stage
                    == ClaimStage::Snapshotted,
                BundleError::BlockedWithoutNote => accepted(rule, claim_id@) && stage
                    == ClaimStage::BlockedOn && (note is None || trimmed(note->0@).len() == 0),
                _ => false,
            }
        },
        _ => false,
    }
}

/// Checks what a decoded event says.
pub fn validate_payload<F: Fn(&str) -> bool>(event: &Event, rule: &F) -> (r: Result<
    (),
    BundleError,
>)
    requires
        answers_all(*rule),
    ensures
        match r {
            Ok(()) => payload_accepted(*event, *rule),
            Err(error) => payload_fault(*event, *rule, error),
        },
{
    match &event.payload {
        Payload::ClaimSet { claim_id, ttl_seconds, stage_budgets, displaced } => {
            if let Err(error) = validate_claim_identity(event) {
                return Err(error);
            }
            if let Err(error) = check_id(rule, claim_id.as_str()) {
                return Err(error);
            }
            if let Some(displaced) = displaced {
                if let Err(error) = check_id(rule, displaced.claim_id.as_str()) {
                    return Err(error);
                }
            }
            if *ttl_seconds == 0 {
                return Err(BundleError::ZeroTtl);
            }
            if !has_budget(stage_budgets, StageBudget::Launch) {
                return Err(BundleError::MissingBudget { budget: StageBudget::Launch });
            }
            if !has_budget(stage_budgets, StageBudget::Started) {
                return Err(BundleError::MissingBudget { budget: StageBudget::Started });
            }
            if !has_budget(stage_budgets, StageBudget::SpecRead) {
                return Err(BundleError::MissingBudget { budget: StageBudget::SpecRead });
            }
            if !has_budget(stage_budgets, StageBudget::Implementing) {
                return Err(BundleError::MissingBudget { budget: StageBudget::Implementing });
            }
            if !has_budget(stage_budgets, StageBudget::Verifying) {
                return Err(BundleError::MissingBudget { budget: StageBudget::Verifying });
            }
            Ok(())
        },
        Payload::ClaimReleased { claim_id } => {
            if let Err(error) = validate_claim_identity(event) {
                return Err(error);
            }
            check_id(rule, claim_id.as_str())
        },
        Payload::StageSet { claim_id, stage, note, .. } => {
            if let Err(error) = validate_claim_identity(event) {
                return Err(error);
            }
            if let Err(error) = check_id(rule, claim_id.as_str()) {
                return Err(error);
            }
            if *stage == ClaimStage::Snapshotted {
                return Err(BundleError::SnapshottedStage);
            }
            if *stage == ClaimStage::BlockedOn {
                match note {
                    None => {
                        return Err(BundleError::BlockedWithoutNote);
                    },
                    Some(note) => if is_blank(note.as_str()) {
                        return Err(BundleError::BlockedWithoutNote);
                    },
                }
            }
            Ok(())
        },
        _ => Ok(()),
    }
}

/// Whether an event is acceptable as a known event, or is of an unknown type.
pub open spec fn known_accepted<F: Fn(&str) -> bool>(
    value: serde_json::Value,
    decoded: Option<Event>,
    rule: F,
) -> bool {
    enveloped(value, rule) && (known_tag(field(value, EventField::EventType)->0) ==> decoded is Some
        && payload_accepted(decoded->0, rule))
}

/// Why an event is not acceptable.
pub open spec fn known_fault<F: Fn(&str) -> bool>(
    value: serde_json::Value,
    decoded: Option<Event>,
    rule: F,
    error: BundleError,
) -> bool {
    ||| envelope_fault(value, rule, error)
    ||| enveloped(value, rule) && known_tag(field(value, EventField::EventType)->0) && match decoded {
        None => error matches BundleError::Malformed { event_id } && Some(event_id@) == field(
            value,
            EventField::EventId,
        ),
        Some(event) => payload_fault(event, rule, error),
    }
}

/// Checks one event. `decoded` is what the event decodes to, where it does; an event of an
/// unknown type stays opaque.
pub fn parse_known_event<F: Fn(&str) -> bool>(
    value: &serde_json::Value,
    decoded: Option<Event>,
    rule: &F,
) -> (r: Result<Option<Event>, BundleError>)
    requires
        answers_all(*rule),
    ensures
        match r {
            Ok(typed) => known_accepted(*value, decoded, *rule) && typed == (if known_tag(
                field(*value, EventField::EventType)->0,
            ) {
                decoded
            } else {
                None
            }),
            Err(error) => known_fault(*value, decoded, *rule, error),
        },
{
    let envelope = match event_envelope(value, rule) {
        Ok(envelope) => envelope,
        Err(error) => {
            return Err(error);
        },
    };
    if !known_event_type(envelope.event_type) {
        return Ok(None);
    }
    match decoded {
        None => Err(BundleError::Malformed { event_id: envelope.event_id.to_string() }),
        Some(event) => match validate_payload(&event, rule) {
            Ok(()) => Ok(Some(event)),
            Err(error) => Err(error),
        },
    }
}

/// The bytes of an event file: the event, indented, and a line feed.
pub open spec fn file_bytes(value: serde_json::Value) -> Seq<u8> {
    pretty_bytes(value).push(10u8)
}

/// The bytes of an event file.
pub fn event_file_bytes(value: &serde_json::Value) -> (r: Vec<u8>)
    ensures
        r@ == file_bytes(*value),
{
    let mut bytes = write_pretty(value);
    bytes.push(10u8);
    bytes
}

/// The order of exported events: by identity, and as they came among equal ones.
pub open spec fn exported_before(raw: Seq<(String, serde_json::Value)>, a: int, b: int) -> bool {
    precedes(raw[a].0@, raw[b].0@) || (raw[a].0@ == raw[b].0@ && a < b)
}

/// Whether `order` names every raw event once, in the order of export.
pub open spec fn export_order(raw: Seq<(String, serde_json::Value)>, order: Seq<int>) -> bool {
    &&& order.len() == raw.len()
    &&& order.no_duplicates()
    &&& forall|k: int| 0 <= k < order.len() ==> 0 <= #[trigger] order[k] < raw.len()
    &&& forall|a: int, b: int|
        0 <= a < b < order.len() ==> exported_before(raw, #[trigger] order[a], #[trigger] order[b])
}

/// Whether a raw event file holds an event of the change, under its own identity.
pub open spec fn exportable<F: Fn(&str) -> bool>(
    raw: (String, serde_json::Value),
    change_id: Seq<char>,
    rule: F,
) -> bool {
    &&& enveloped(raw.1, rule)
    &&& field(raw.1, EventField::EventId) == Some(raw.0@)
    &&& field(raw.1, EventField::ChangeId) == Some(change_id)
}

/// Why a raw event file cannot be exported.
pub open spec fn export_fault<F: Fn(&str) -> bool>(
    raw: (String, serde_json::Value),
    change_id: Seq<char>,
    rule: F,
    error: BundleError,
) -> bool {
    ||| envelope_fault(raw.1, rule, error)
    ||| enveloped(raw.1, rule) && match error {
        BundleError::FileMismatch { file_event_id } => file_event_id@ == raw.0@ && field(
            raw.1,
            EventField::EventId,
        ) != Some(raw.0@),
        BundleError::WrongChange { event_id } => field(raw.1, EventField::EventId) == Some(raw.0@)
            && event_id@ == raw.0@ && field(raw.1, EventField::ChangeId) != Some(change_id),
        _ => false,
    }
}

/// Whether a bundle is the export of some raw event files.
pub open spec fn exports<F: Fn(&str) -> bool>(
    bundle: Bundle,
    raw: Seq<(String, serde_json::Value)>,
    change_id: Seq<char>,
    rule: F,
) -> bool {
    &&& raw.len() > 0
    &&& forall|i: int| 0 <= i < raw.len() ==> exportable(#[trigger] raw[i], change_id, rule)
    &&& bundle.schema@ == BUNDLE_SCHEMA@
    &&& field(raw[0].1, EventField::RepositoryId) == Some(bundle.repository_id@)
    &&& bundle.change_id@ == change_id
    &&& bundle.event_count == raw.len()
    &&& bundle.events_sha256@ == checksum_of(bundle.events@)
    &&& bundle.events@.len() == raw.len()
    &&& exists|order: Seq<int>| #[trigger]
        export_order(raw, order) && forall|k: int|
            0 <= k < order.len() ==> #[trigger] bundle.events@[k] == raw[order[k]].1
}

proof fn lemma_insert_order(
    raw: Seq<(String, serde_json::Value)>,
    order: Seq<int>,
    at: int,
    i: int,
)
    requires
        0 <= i < raw.len(),
        order.len() == i,
        order.no_duplicates(),
        0 <= at <= order.len(),
        forall|k: int| 0 <= k < order.len() ==> 0 <= #[trigger] order[k] < i,
        forall|a: int, b: int|
            0 <= a < b < order.len() ==> exported_before(
                raw,
                #[trigger] order[a],
                #[trigger] order[b],
            ),
        forall|k: int| 0 <= k < at ==> !precedes(raw[i].0@, raw[#[trigger] order[k]].0@),
        at < order.len() ==> precedes(raw[i].0@, raw[order[at]].0@),
    ensures
        ({
            let next = order.insert(at, i);
            &&& next.no_duplicates()
            &&& forall|k: int| 0 <= k < next.len() ==> 0 <= #[trigger] next[k] < i + 1
            &&& forall|a: int, b: int|
                0 <= a < b < next.len() ==> exported_before(
                    raw,
                    #[trigger] next[a],
                    #[trigger] next[b],
                )
        }),
{
    let next = order.insert(at, i);
    assert forall|a: int, b: int|
        0 <= a < next.len() && 0 <= b < next.len() && a != b implies next[a] != next[b] by {
        let x = if a < at { a } else { a - 1 };
        let y = if b < at { b } else { b - 1 };
        if a != at && b != at {
            assert(next[a] == order[x] && next[b] == order[y]);
        } else if a == at {
            assert(next[b] == order[y]);
        } else {
            assert(next[a] == order[x]);
        }
    }
    assert forall|k: int| 0 <= k < next.len() implies 0 <= #[trigger] next[k] < i + 1 by {
        if k < at {
            assert(next[k] == order[k]);
        } else if k > at {
            assert(next[k] == order[k - 1]);
        }
    }
    assert forall|a: int, b: int| 0 <= a < b < next.len() implies exported_before(
        raw,
        #[trigger] next[a],
        #[trigger] next[b],
    ) by {
        if b < at {
            assert(next[a] == order[a] && next[b] == order[b]);
        } else if b == at {
            assert(next[a] == order[a] && next[b] == i);
            lemma_precedes_total(raw[order[a]].0@, raw[i].0@);
        } else if a < at {
            assert(next[a] == order[a] && next[b] == order[b - 1]);
        } else if a == at {
            assert(next[a] == i && next[b] == order[b - 1]);
            if b - 1 > at {
                assert(exported_before(raw, order[at], order[b - 1]));
                if precedes(raw[order[at]].0@, raw[order[b - 1]].0@) {
                    lemma_precedes_transitive(
                        raw[i].0@,
                        raw[order[at]].0@,
                        raw[order[b - 1]].0@,
                    );
                }
            }
        } else {
            assert(next[a] == order[a - 1] && next[b] == order[b - 1]);
        }
    }
}

impl Bundle {
    /// The bundle of a change, from its raw event files: each its file's identity and its value.
    pub fn export<F: Fn(&str) -> bool>(
        raw: Vec<(String, serde_json::Value)>,
        change_id: &str,
        rule: &F,
    ) -> (r: Result<Bundle, BundleError>)
        requires
            answers_all(*rule),
        ensures
            match r {
                Ok(bundle) => accepted(*rule, change_id@) && exports(
                    bundle,
                    raw@,
                    change_id@,
                    *rule,
                ),
                Err(error) => {
                    ||| error matches BundleError::InvalidId { id } && id@ == change_id@ && refused(
                        *rule,
                        id@,
                    )
                    ||| accepted(*rule, change_id@) && error is NoEvents && raw@.len() == 0
                    ||| accepted(*rule, change_id@) && exists|i: int|
                        {
                            &&& 0 <= i < raw@.len()
                            &&& export_fault(#[trigger] raw@[i], change_id@, *rule, error)
                            &&& forall|k: int|
                                0 <= k < i ==> exportable(#[trigger] raw@[k], change_id@, *rule)
                        }
                },
            },
    {
        if let Err(error) = check_id(rule, change_id) {
            return Err(error);
        }
        let ghost all = raw@;
        let total: usize = raw.len();
        let mut rest = raw;
        let mut events: Vec<serde_json::Value> = Vec::new();
        let mut keys: Vec<String> = Vec::new();
        let mut origin: Option<String> = None;
        let ghost mut order: Seq<int> = Seq::empty();
        let mut i: usize = 0;
        assert(all.skip(0) =~= all);
        while i < total
            invariant
                answers_all(*rule),
                accepted(*rule, change_id@),
                all == raw@,
                i <= total,
                total == all.len(),
                rest@ == all.skip(i as int),
                events@.len() == i,
                keys@.len() == i,
                order.len() == i,
                order.no_duplicates(),
                forall|k: int| 0 <= k < i ==> exportable(#[trigger] all[k], change_id@, *rule),
                forall|k: int| 0 <= k < i ==> 0 <= #[trigger] order[k] < i,
                forall|k: int| 0 <= k < i ==> #[trigger] keys@[k]@ == all[order[k]].0@,
                forall|k: int| 0 <= k < i ==> #[trigger] events@[k] == all[order[k]].1,
                forall|a: int, b: int|
                    0 <= a < b < i ==> exported_before(all, #[trigger] order[a], #[trigger] order[b]),
                i == 0 <==> origin is None,
                origin is Some ==> field(all[0].1, EventField::RepositoryId) == Some(origin->0@),
            decreases total - i,
        {
            let (file_event_id, value) = rest.remove(0);
            proof {
                assert(all.skip(i as int)[0] == all[i as int]);
                assert(all.skip(i as int).remove(0) =~= all.skip(i + 1));
            }
            let ghost here = all[i as int];
            match event_envelope(&value, rule) {
                Ok(envelope) => {
                    if !same(envelope.event_id, file_event_id.as_str()) {
                        assert(export_fault(here, change_id@, *rule, BundleError::FileMismatch {
                            file_event_id,
                        }));
                        return Err(BundleError::FileMismatch { file_event_id });
                    }
                    if !same(envelope.change_id, change_id) {
                        let event_id = envelope.event_id.to_string();
                        assert(export_fault(here, change_id@, *rule, BundleError::WrongChange {
                            event_id,
                        }));
                        return Err(BundleError::WrongChange { event_id });
                    }
                    if origin.is_none() {
                        origin = Some(envelope.repository_id.to_string());
                    }
                },
                Err(error) => {
                    assert(export_fault(here, change_id@, *rule, error));
                    return Err(error);
                },
            }
            let mut at: usize = 0;
            while at < keys.len() && !less(file_event_id.as_str(), keys[at].as_str())
                invariant
                    at <= keys@.len(),
                    forall|k: int|
                        0 <= k < at ==> !precedes(file_event_id@, (#[trigger] keys@[k])@),
                decreases keys.len() - at,
            {
                at += 1;
            }
            proof {
                assert forall|k: int| 0 <= k < at implies !precedes(
                    all[i as int].0@,
                    all[#[trigger] order[k]].0@,
                ) by {
                    assert(keys@[k]@ == all[order[k]].0@);
                }
                if at < order.len() {
                    assert(keys@[at as int]@ == all[order[at as int]].0@);
                }
                lemma_insert_order(all, order, at as int, i as int);
            }
            let ghost before_keys = keys@;
            let ghost before_events = events@;
            let ghost before_order = order;
            keys.insert(at, file_event_id);
            events.insert(at, value);
            proof {
                order = order.insert(at as int, i as int);
                assert forall|k: int| 0 <= k < i + 1 implies #[trigger] keys@[k]@
                    == all[order[k]].0@ by {
                    if k < at {
                        assert(keys@[k] == before_keys[k] && order[k] == before_order[k]);
                    } else if k > at {
                        assert(keys@[k] == before_keys[k - 1] && order[k] == before_order[k - 1]);
                    }
                }
                assert forall|k: int| 0 <= k < i + 1 implies #[trigger] events@[k]
                    == all[order[k]].1 by {
                    if k < at {
                        assert(events@[k] == before_events[k] && order[k] == before_order[k]);
                    } else if k > at {
                        assert(events@[k] == before_events[k - 1] && order[k] == before_order[k
                            - 1]);
                    }
                }
            }
            i += 1;
        }
        let repository_id = match origin {
            Some(origin) => origin,
            None => {
                return Err(BundleError::NoEvents);
            },
        };
        let events_sha256 = checksum(&events);
        assert(export_order(all, order));
        Ok(
            Bundle {
                schema: BUNDLE_SCHEMA.to_string(),
                repository_id,
                change_id: change_id.to_string(),
                event_count: events.len(),
                events_sha256,
                events,
            },
        )
    }
}

/// Whether an event adds a patchset.
pub open spec fn is_patchset(value: serde_json::Value) -> bool {
    field(value, EventField::EventType) == Some("patchset-added"@)
}

/// Whether a patchset identity was taken by an earlier event.
pub open spec fn patchset_taken(events: Seq<serde_json::Value>, i: int, id: Seq<char>) -> bool {
    exists|k: int|
        0 <= k < i && is_patchset(#[trigger] events[k]) && field(events[k], EventField::PatchsetId)
            == Some(id)
}

/// Whether an event stands in its place: it belongs to the bundle's change, the first comes
/// from the bundle's origin, and each has a later identity than the one before it.
pub open spec fn well_placed(bundle: Bundle, i: int) -> bool {
    let value = bundle.events@[i];
    &&& i == 0 ==> field(value, EventField::RepositoryId) == Some(bundle.repository_id@)
    &&& field(value, EventField::ChangeId) == Some(bundle.change_id@)
    &&& i > 0 ==> precedes(
        field(bundle.events@[i - 1], EventField::EventId)->0,
        field(value, EventField::EventId)->0,
    )
}

/// Whether a patchset event names a patchset of its own and both its objects.
pub open spec fn patchset_named<F: Fn(&str) -> bool>(bundle: Bundle, i: int, rule: F) -> bool {
    let value = bundle.events@[i];
    let id = field(value, EventField::PatchsetId);
    let base = field(value, EventField::Base);
    let head = field(value, EventField::Head);
    &&& id is Some
    &&& accepted(rule, id->0)
    &&& !patchset_taken(bundle.events@, i, id->0)
    &&& base is Some
    &&& head is Some
    &&& base->0.len() > 0
    &&& head->0.len() > 0
}

/// Why a patchset event is not accepted: the first of the checks that it fails.
pub open spec fn patchset_fault<F: Fn(&str) -> bool>(
    bundle: Bundle,
    i: int,
    rule: F,
    error: BundleError,
) -> bool {
    let value = bundle.events@[i];
    let id = field(value, EventField::PatchsetId);
    let base = field(value, EventField::Base);
    let head = field(value, EventField::Head);
    let fresh = id is Some && accepted(rule, id->0) && !patchset_taken(bundle.events@, i, id->0);
    match error {
        BundleError::MissingField { field } => match field {
            EventField::PatchsetId => id is None,
            EventField::Base => fresh && base is None,
            EventField::Head => fresh && base is Some && head is None,
            _ => false,
        },
        BundleError::InvalidId { id: named } => id == Some(named@) && refused(rule, named@),
        BundleError::DuplicatePatchset { patchset_id } => id == Some(patchset_id@) && accepted(
            rule,
            patchset_id@,
        ) && patchset_taken(bundle.events@, i, patchset_id@),
        BundleError::EmptyObjectId { event_id } => fresh && base is Some && head is Some && (
        base->0.len() == 0 || head->0.len() == 0) && field(value, EventField::EventId) == Some(
            event_id@,
        ),
        _ => false,
    }
}

/// Whether one event of a bundle is accepted.
pub open spec fn event_passes<F: Fn(&str) -> bool>(
    bundle: Bundle,
    decoded: Seq<Option<Event>>,
    i: int,
    rule: F,
) -> bool {
    &&& known_accepted(bundle.events@[i], decoded[i], rule)
    &&& well_placed(bundle, i)
    &&& is_patchset(bundle.events@[i]) ==> patchset_named(bundle, i, rule)
}

/// Why one event of a bundle is not accepted.
pub open spec fn event_fault<F: Fn(&str) -> bool>(
    bundle: Bundle,
    decoded: Seq<Option<Event>>,
    i: int,
    rule: F,
    error: BundleError,
) -> bool {
    let value = bundle.events@[i];
    let event_id = field(value, EventField::EventId);
    let origin = i > 0 || field(value, EventField::RepositoryId) == Some(bundle.repository_id@);
    let owned = field(value, EventField::ChangeId) == Some(bundle.change_id@);
    ||| envelope_fault(value, rule, error)
    ||| enveloped(value, rule) && (error matches BundleError::WrongOrigin { event_id: named }
        && event_id == Some(named@) && !origin)
    ||| enveloped(value, rule) && origin && (error matches BundleError::WrongChange {
        event_id: named,
    } && event_id == Some(named@) && !owned)
    ||| enveloped(value, rule) && origin && owned && error is NotAscending && !well_placed(
        bundle,
        i,
    )
    ||| well_placed(bundle, i) && known_fault(value, decoded[i], rule, error)
    ||| well_placed(bundle, i) && known_accepted(value, decoded[i], rule) && is_patchset(value)
        && patchset_fault(bundle, i, rule, error)
}

/// Whether the header of a bundle is accepted.
pub open spec fn header_passes<F: Fn(&str) -> bool>(bundle: Bundle, rule: F) -> bool {
    &&& bundle.schema@ == BUNDLE_SCHEMA@
    &&& accepted(rule, bundle.repository_id@)
    &&& accepted(rule, bundle.change_id@)
    &&& bundle.event_count == bundle.events@.len()
    &&& bundle.events_sha256@ == checksum_of(bundle.events@)
}

/// Why the header of a bundle is not accepted: the first of the checks that it fails.
pub open spec fn header_fault<F: Fn(&str) -> bool>(
    bundle: Bundle,
    rule: F,
    error: BundleError,
) -> bool {
    let named = bundle.schema@ == BUNDLE_SCHEMA@ && accepted(rule, bundle.repository_id@)
        && accepted(rule, bundle.change_id@);
    match error {
        BundleError::UnsupportedSchema => bundle.schema@ != BUNDLE_SCHEMA@,
        BundleError::InvalidId { id } => bundle.schema@ == BUNDLE_SCHEMA@ && refused(rule, id@) && (
        id@ == bundle.repository_id@ || (accepted(rule, bundle.repository_id@) && id@
            == bundle.change_id@)),
        BundleError::CountMismatch => named && bundle.event_count != bundle.events@.len(),
        BundleError::ChecksumMismatch { computed } => named && bundle.event_count
            == bundle.events@.len() && computed@ == checksum_of(bundle.events@)
            && bundle.events_sha256@ != computed@,
        _ => false,
    }
}

/// Whether a checked bundle holds what the checks found in a bundle.
pub open spec fn validates(
    checked: ValidatedBundle,
    bundle: Bundle,
    decoded: Seq<Option<Event>>,
) -> bool {
    let n = bundle.events@.len();
    let patchsets = chosen(n, |i: int| is_patchset(bundle.events@[i]));
    let unknown = chosen(
        n,
        |i: int| !known_tag(field(bundle.events@[i], EventField::EventType)->0),
    );
    &&& checked.bundle == bundle
    &&& checked.events@.len() == n
    &&& forall|i: int|
        0 <= i < n ==> event_validates(
            #[trigger] checked.events@[i],
            bundle.events@[i],
            decoded[i],
        )
    &&& checked.patchsets@.len() == patchsets.len()
    &&& forall|k: int|
        0 <= k < patchsets.len() ==> patchset_reads(
            #[trigger] checked.patchsets@[k],
            bundle.events@[patchsets[k]],
        )
    &&& checked.unknown_event_types@.len() == unknown.len()
    &&& forall|k: int|
        0 <= k < unknown.len() ==> unknown_reads(
            #[trigger] checked.unknown_event_types@[k],
            bundle.events@[unknown[k]],
        )
}

/// Whether a checked event is what an event of a bundle comes to.
pub open spec fn event_validates(
    checked: ValidatedEvent,
    value: serde_json::Value,
    decoded: Option<Event>,
) -> bool {
    &&& field(value, EventField::EventId) == Some(checked.event_id@)
    &&& checked.value == value
    &&& checked.bytes@ == file_bytes(value)
    &&& checked.typed == (if known_tag(field(value, EventField::EventType)->0) {
        decoded
    } else {
        None
    })
}

/// Whether the objects of a patchset are those that an event names.
pub open spec fn patchset_reads(patchset: PatchsetObject, value: serde_json::Value) -> bool {
    &&& field(value, EventField::EventId) == Some(patchset.event_id@)
    &&& field(value, EventField::PatchsetId) == Some(patchset.patchset_id@)
    &&& field(value, EventField::Base) == Some(patchset.base@)
    &&& field(value, EventField::Head) == Some(patchset.head@)
}

/// Whether a pair names the identity and the type of an event.
pub open spec fn unknown_reads(named: (String, String), value: serde_json::Value) -> bool {
    field(value, EventField::EventId) == Some(named.0@) && field(value, EventField::EventType)
        == Some(named.1@)
}

fn check_header<F: Fn(&str) -> bool>(bundle: &Bundle, rule: &F) -> (r: Result<(), BundleError>)
    requires
        answers_all(*rule),
    ensures
        match r {
            Ok(()) => header_passes(*bundle, *rule),
            Err(error) => header_fault(*bundle, *rule, error),
        },
{
    if !same(bundle.schema.as_str(), BUNDLE_SCHEMA) {
        return Err(BundleError::UnsupportedSchema);
    }
    if let Err(error) = check_id(rule, bundle.repository_id.as_str()) {
        return Err(error);
    }
    if let Err(error) = check_id(rule, bundle.change_id.as_str()) {
        return Err(error);
    }
    if bundle.event_count != bundle.events.len() {
        return Err(BundleError::CountMismatch);
    }
    let computed = checksum(&bundle.events);
    if !same(bundle.events_sha256.as_str(), computed.as_str()) {
        return Err(BundleError::ChecksumMismatch { computed });
    }
    Ok(())
}

/// Checks that an event stands in its place.
fn check_place(bundle: &Bundle, i: usize, envelope: &EventEnvelope) -> (r: Result<(), BundleError>)
    requires
        i < bundle.events@.len(),
        field(bundle.events@[i as int], EventField::EventId) == Some(envelope.event_id@),
        field(bundle.events@[i as int], EventField::RepositoryId) == Some(envelope.repository_id@),
        field(bundle.events@[i as int], EventField::ChangeId) == Some(envelope.change_id@),
        i > 0 ==> field(bundle.events@[i - 1], EventField::EventId) is Some,
    ensures
        match r {
            Ok(()) => well_placed(*bundle, i as int),
            Err(BundleError::WrongOrigin { event_id }) => i == 0 && event_id@ == envelope.event_id@
                && envelope.repository_id@ != bundle.repository_id@,
            Err(BundleError::WrongChange { event_id }) => (i > 0 || envelope.repository_id@
                == bundle.repository_id@) && event_id@ == envelope.event_id@ && envelope.change_id@
                != bundle.change_id@,
            Err(BundleError::NotAscending) => (i > 0 || envelope.repository_id@
                == bundle.repository_id@) && envelope.change_id@ == bundle.change_id@
                && !well_placed(*bundle, i as int),
            Err(_) => false,
        },
{
    if i == 0 && !same(envelope.repository_id, bundle.repository_id.as_str()) {
        return Err(BundleError::WrongOrigin { event_id: envelope.event_id.to_string() });
    }
    if !same(envelope.change_id, bundle.change_id.as_str()) {
        return Err(BundleError::WrongChange { event_id: envelope.event_id.to_string() });
    }
    if i > 0 {
        match string_field(&bundle.events[i - 1], EventField::EventId) {
            Some(previous) => if !less(previous, envelope.event_id) {
                return Err(BundleError::NotAscending);
            },
            None => {},
        }
    }
    Ok(())
}

fn is_taken(bundle: &Bundle, i: usize, id: &str) -> (r: bool)
    requires
        i <= bundle.events@.len(),
    ensures
        r == patchset_taken(bundle.events@, i as int, id@),
{
    for k in 0..i
        invariant
            i <= bundle.events@.len(),
            forall|m: int|
                0 <= m < k ==> !(is_patchset(#[trigger] bundle.events@[m]) && field(
                    bundle.events@[m],
                    EventField::PatchsetId,
                ) == Some(id@)),
    {
        let value = &bundle.events[k];
        if let Some(event_type) = string_field(value, EventField::EventType) {
            if same(event_type, "patchset-added") {
                if let Some(taken) = string_field(value, EventField::PatchsetId) {
                    if same(taken, id) {
                        assert(is_patchset(bundle.events@[k as int]));
                        return true;
                    }
                }
            }
        }
    }
    false
}

/// Checks a patchset event and reads the objects that it names.
fn read_patchset<F: Fn(&str) -> bool>(
    bundle: &Bundle,
    i: usize,
    event_id: &str,
    rule: &F,
) -> (r: Result<PatchsetObject, BundleError>)
    requires
        answers_all(*rule),
        i < bundle.events@.len(),
        field(bundle.events@[i as int], EventField::EventId) == Some(event_id@),
    ensures
        match r {
            Ok(patchset) => patchset_named(*bundle, i as int, *rule) && patchset_reads(
                patchset,
                bundle.events@[i as int],
            ),
            Err(error) => patchset_fault(*bundle, i as int, *rule, error),
        },
{
    let value = &bundle.events[i];
    let patchset_id = match string_field(value, EventField::PatchsetId) {
        Some(id) => id,
        None => {
            return Err(BundleError::MissingField { field: EventField::PatchsetId });
        },
    };
    if let Err(error) = check_id(rule, patchset_id) {
        return Err(error);
    }
    if is_taken(bundle, i, patchset_id) {
        return Err(BundleError::DuplicatePatchset { patchset_id: patchset_id.to_string() });
    }
    let base = match string_field(value, EventField::Base) {
        Some(base) => base,
        None => {
            return Err(BundleError::MissingField { field: EventField::Base });
        },
    };
    let head = match string_field(value, EventField::Head) {
        Some(head) => head,
        None => {
            return Err(BundleError::MissingField { field: EventField::Head });
        },
    };
    if base.is_empty() || head.is_empty() {
        return Err(BundleError::EmptyObjectId { event_id: event_id.to_string() });
    }
    Ok(
        PatchsetObject {
            event_id: event_id.to_string(),
            patchset_id: patchset_id.to_string(),
            base: base.to_string(),
            head: head.to_string(),
        },
    )
}

/// What one event of a bundle comes to.
struct CheckedEvent {
    event: ValidatedEvent,
    patchset: Option<PatchsetObject>,
    unknown: Option<(String, String)>,
}

fn check_event<F: Fn(&str) -> bool>(
    bundle: &Bundle,
    decoded: Option<Event>,
    i: usize,
    rule: &F,
    Ghost(all): Ghost<Seq<Option<Event>>>,
) -> (r: Result<CheckedEvent, BundleError>)
    requires
        answers_all(*rule),
        i < bundle.events@.len(),
        all.len() == bundle.events@.len(),
        all[i as int] == decoded,
        i > 0 ==> field(bundle.events@[i - 1], EventField::EventId) is Some,
    ensures
        match r {
            Ok(checked) => {
                let value = bundle.events@[i as int];
                &&& event_passes(*bundle, all, i as int, *rule)
                &&& event_validates(checked.event, value, decoded)
                &&& checked.patchset is Some <==> is_patchset(value)
                &&& checked.patchset is Some ==> patchset_reads(checked.patchset->0, value)
                &&& checked.unknown is Some <==> !known_tag(
                    field(value, EventField::EventType)->0,
                )
                &&& checked.unknown is Some ==> unknown_reads(checked.unknown->0, value)
            },
            Err(error) => event_fault(*bundle, all, i as int, *rule, error),
        },
{
    let value = &bundle.events[i];
    let envelope = match event_envelope(value, rule) {
        Ok(envelope) => envelope,
        Err(error) => {
            return Err(error);
        },
    };
    if let Err(error) = check_place(bundle, i, &envelope) {
        return Err(error);
    }
    let typed = match parse_known_event(value, decoded, rule) {
        Ok(typed) => typed,
        Err(error) => {
            return Err(error);
        },
    };
    let mut patchset: Option<PatchsetObject> = None;
    let mut unknown: Option<(String, String)> = None;
    if same(envelope.event_type, "patchset-added") {
        match read_patchset(bundle, i, envelope.event_id, rule) {
            Ok(read) => {
                patchset = Some(read);
            },
            Err(error) => {
                return Err(error);
            },
        }
    } else if !known_event_type(envelope.event_type) {
        unknown = Some((envelope.event_id.to_string(), envelope.event_type.to_string()));
    }
    Ok(
        CheckedEvent {
            event: ValidatedEvent {
                event_id: envelope.event_id.to_string(),
                value: copy_value(value),
                bytes: event_file_bytes(value),
                typed,
            },
            patchset,
            unknown,
        },
    )
}

impl Bundle {
    /// Checks a bundle. `decoded` holds what each of its events decodes to, where it does, and
    /// `replays` says whether those that import understands make a history.
    pub fn parse<F: Fn(&str) -> bool>(
        bundle: Bundle,
        decoded: Vec<Option<Event>>,
        replays: bool,
        rule: &F,
    ) -> (r: Result<ValidatedBundle, BundleError>)
        requires
            answers_all(*rule),
            decoded@.len() == bundle.events@.len(),
        ensures
            match r {
                Ok(checked) => {
                    &&& header_passes(bundle, *rule)
                    &&& forall|i: int|
                        0 <= i < bundle.events@.len() ==> event_passes(bundle, decoded@, i, *rule)
                    &&& validates(checked, bundle, decoded@)
                    &&& replays
                },
                Err(BundleError::NotReplayable) => {
                    &&& header_passes(bundle, *rule)
                    &&& forall|i: int|
                        0 <= i < bundle.events@.len() ==> event_passes(bundle, decoded@, i, *rule)
                    &&& !replays
                },
                Err(error) => {
                    ||| header_fault(bundle, *rule, error)
                    ||| header_passes(bundle, *rule) && exists|i: int|
                        {
                            &&& 0 <= i < bundle.events@.len()
                            &&& #[trigger] event_fault(bundle, decoded@, i, *rule, error)
                            &&& forall|k: int|
                                0 <= k < i ==> event_passes(bundle, decoded@, k, *rule)
                        }
                },
            },
    {
        if let Err(error) = check_header(&bundle, rule) {
            return Err(error);
        }
        let ghost all = decoded@;
        let ghost wanted_patchset = |i: int| is_patchset(bundle.events@[i]);
        let ghost wanted_unknown = |i: int|
            !known_tag(field(bundle.events@[i], EventField::EventType)->0);
        let total: usize = bundle.events.len();
        let mut rest = decoded;
        let mut events: Vec<ValidatedEvent> = Vec::new();
        let mut patchsets: Vec<PatchsetObject> = Vec::new();
        let mut unknown_event_types: Vec<(String, String)> = Vec::new();
        let mut i: usize = 0;
        assert(all.skip(0) =~= all);
        while i < total
            invariant
                answers_all(*rule),
                header_passes(bundle, *rule),
                i <= total,
                total == bundle.events@.len(),
                all == decoded@,
                all.len() == total,
                rest@ == all.skip(i as int),
                wanted_patchset == (|i: int| is_patchset(bundle.events@[i])),
                wanted_unknown == (|i: int|
                    !known_tag(field(bundle.events@[i], EventField::EventType)->0)),
                forall|k: int| 0 <= k < i ==> event_passes(bundle, all, k, *rule),
                events@.len() == i,
                forall|k: int|
                    0 <= k < i ==> event_validates(
                        #[trigger] events@[k],
                        bundle.events@[k],
                        all[k],
                    ),
                patchsets@.len() == chosen(i as nat, wanted_patchset).len(),
                forall|k: int|
                    0 <= k < patchsets@.len() ==> patchset_reads(
                        #[trigger] patchsets@[k],
                        bundle.events@[chosen(i as nat, wanted_patchset)[k]],
                    ),
                unknown_event_types@.len() == chosen(i as nat, wanted_unknown).len(),
                forall|k: int|
                    0 <= k < unknown_event_types@.len() ==> unknown_reads(
                        #[trigger] unknown_event_types@[k],
                        bundle.events@[chosen(i as nat, wanted_unknown)[k]],
                    ),
            decreases total - i,
        {
            let next = rest.remove(0);
            proof {
                assert(all.skip(i as int)[0] == all[i as int]);
                assert(all.skip(i as int).remove(0) =~= all.skip(i + 1));
                if i > 0 {
                    assert(event_passes(bundle, all, i - 1, *rule));
                }
            }
            let checked = match check_event(&bundle, next, i, rule, Ghost(all)) {
                Ok(checked) => checked,
                Err(error) => {
                    return Err(error);
                },
            };
            let ghost chosen_patchsets = chosen(i as nat, wanted_patchset);
            let ghost chosen_unknown = chosen(i as nat, wanted_unknown);
            if let Some(patchset) = checked.patchset {
                patchsets.push(patchset);
                assert(chosen((i + 1) as nat, wanted_patchset) == chosen_patchsets.push(i as int));
            }
            if let Some(unknown) = checked.unknown {
                unknown_event_types.push(unknown);
                assert(chosen((i + 1) as nat, wanted_unknown) == chosen_unknown.push(i as int));
            }
            events.push(checked.event);
            i += 1;
        }
        if !replays {
            return Err(BundleError::NotReplayable);
        }
        Ok(ValidatedBundle { bundle, events, patchsets, unknown_event_types })
    }
}

/// What export writes, the checks on a bundle let through: its header is accepted and every event
/// stands in its place. The files have identities of their own, and the first of them is the
/// earliest.
pub proof fn exports_are_accepted<F: Fn(&str) -> bool>(
    bundle: Bundle,
    raw: Seq<(String, serde_json::Value)>,
    change_id: Seq<char>,
    rule: F,
)
    requires
        exports(bundle, raw, change_id, rule),
        accepted(rule, change_id),
        forall|a: int, b: int| 0 <= a < b < raw.len() ==> (#[trigger] raw[a]).0@ != (#[trigger] raw[b]).0@,
        forall|k: int| 0 <= k < raw.len() ==> !precedes((#[trigger] raw[k]).0@, raw[0].0@),
    ensures
        header_passes(bundle, rule),
        forall|i: int|
            0 <= i < bundle.events@.len() ==> #[trigger] well_placed(bundle, i) && enveloped(
                bundle.events@[i],
                rule,
            ),
{
    let order = choose|order: Seq<int>| #[trigger]
        export_order(raw, order) && forall|k: int|
            0 <= k < order.len() ==> #[trigger] bundle.events@[k] == raw[order[k]].1;
    assert(exportable(raw[0], change_id, rule));
    lemma_order_starts_at_first(raw, order);
    assert forall|i: int| 0 <= i < bundle.events@.len() implies #[trigger] well_placed(bundle, i)
        && enveloped(bundle.events@[i], rule) by {
        assert(bundle.events@[i] == raw[order[i]].1);
        assert(exportable(raw[order[i]], change_id, rule));
        if i > 0 {
            assert(bundle.events@[i - 1] == raw[order[i - 1]].1);
            assert(exportable(raw[order[i - 1]], change_id, rule));
            assert(exported_before(raw, order[i - 1], order[i]));
        }
    }
}

proof fn lemma_order_starts_at_first(raw: Seq<(String, serde_json::Value)>, order: Seq<int>)
    requires
        raw.len() > 0,
        export_order(raw, order),
        forall|a: int, b: int| 0 <= a < b < raw.len() ==> (#[trigger] raw[a]).0@ != (#[trigger] raw[b]).0@,
        forall|k: int| 0 <= k < raw.len() ==> !precedes((#[trigger] raw[k]).0@, raw[0].0@),
    ensures
        order[0] == 0,
{
    lemma_all_present(order, raw.len());
    let k = choose|k: int| 0 <= k < order.len() && order[k] == 0;
    if k > 0 {
        assert(exported_before(raw, order[0], order[k]));
        let first = order[0];
        assert(0 <= first < raw.len());
        assert(order[0] != order[k]);
        assert(raw[0].0@ != raw[first].0@);
        assert(precedes(raw[first].0@, raw[0].0@));
    }
}

/// As many different positions below `n` as there are hold the position zero.
proof fn lemma_all_present(order: Seq<int>, n: nat)
    requires
        n > 0,
        order.len() == n,
        order.no_duplicates(),
        forall|k: int| 0 <= k < order.len() ==> 0 <= #[trigger] order[k] < n,
    ensures
        order.contains(0),
{
    order.unique_seq_to_set();
    let range = vstd::set_lib::set_int_range(0, n as int);
    vstd::set_lib::lemma_int_range(0, n as int);
    if !order.contains(0) {
        let fewer = range.remove(0);
        assert(order.to_set().subset_of(fewer)) by {
            assert forall|x: int| order.to_set().contains(x) implies fewer.contains(x) by {
                let k = choose|k: int| 0 <= k < order.len() && order[k] == x;
                assert(0 <= order[k] < n);
            }
        }
        vstd::set_lib::lemma_len_subset(order.to_set(), fewer);
    }
}

/// What travels is accepted only whole: of a known format, with as many events as it says, under
/// the checksum of what it holds.
pub proof fn accepted_bundles_are_whole<F: Fn(&str) -> bool>(bundle: Bundle, rule: F)
    ensures
        header_passes(bundle, rule) <==> bundle.schema@ == "arc-bundle/1"@ && bundle.event_count
            == bundle.events@.len() && bundle.events_sha256@ == checksum_of(bundle.events@)
            && accepted(rule, bundle.repository_id@) && accepted(rule, bundle.change_id@),
{
}

/// The events of an accepted bundle are all of its change, come from its origin, and each has an
/// identity of its own, later than those before it.
pub proof fn accepted_events_ascend<F: Fn(&str) -> bool>(
    bundle: Bundle,
    decoded: Seq<Option<Event>>,
    rule: F,
    a: int,
    b: int,
)
    requires
        forall|i: int|
            0 <= i < bundle.events@.len() ==> #[trigger] event_passes(bundle, decoded, i, rule),
        0 <= a < b < bundle.events@.len(),
    ensures
        precedes(
            field(bundle.events@[a], EventField::EventId)->0,
            field(bundle.events@[b], EventField::EventId)->0,
        ),
        field(bundle.events@[a], EventField::ChangeId) == Some(bundle.change_id@),
        field(bundle.events@[0], EventField::RepositoryId) == Some(bundle.repository_id@),
    decreases b - a,
{
    assert(event_passes(bundle, decoded, a, rule));
    assert(event_passes(bundle, decoded, b, rule));
    assert(event_passes(bundle, decoded, 0, rule));
    if a + 1 < b {
        accepted_events_ascend(bundle, decoded, rule, a, b - 1);
        lemma_precedes_transitive(
            field(bundle.events@[a], EventField::EventId)->0,
            field(bundle.events@[b - 1], EventField::EventId)->0,
            field(bundle.events@[b], EventField::EventId)->0,
        );
    }
}

/// No two events of an accepted bundle add one patchset.
pub proof fn accepted_patchsets_are_added_once<F: Fn(&str) -> bool>(
    bundle: Bundle,
    decoded: Seq<Option<Event>>,
    rule: F,
    a: int,
    b: int,
)
    requires
        forall|i: int|
            0 <= i < bundle.events@.len() ==> #[trigger] event_passes(bundle, decoded, i, rule),
        0 <= a < b < bundle.events@.len(),
        field(bundle.events@[a], EventField::EventType) == Some("patchset-added"@),
        field(bundle.events@[b], EventField::EventType) == Some("patchset-added"@),
    ensures
        field(bundle.events@[a], EventField::PatchsetId) != field(
            bundle.events@[b],
            EventField::PatchsetId,
        ),
        field(bundle.events@[b], EventField::Base) is Some,
        field(bundle.events@[b], EventField::Head) is Some,
        field(bundle.events@[b], EventField::Head)->0.len() > 0,
        field(bundle.events@[b], EventField::Base)->0.len() > 0,
{
    assert(event_passes(bundle, decoded, a, rule));
    assert(event_passes(bundle, decoded, b, rule));
    assert(is_patchset(bundle.events@[a]));
}

/// A claim that travels says who claims, lives for some time and has a budget for every stage of
/// the work; a stage is set by whoever claims, is no snapshot, and says what a block waits for.
pub proof fn travelling_claims_are_whole<F: Fn(&str) -> bool>(event: Event, rule: F)
    requires
        payload_accepted(event, rule),
    ensures
        event.payload is ClaimSet || event.payload is ClaimReleased || event.payload is StageSet
            ==> trimmed(event.actor@).len() > 0 && trimmed(event.actor@) == event.actor@
            && event.harness is Some && trimmed(event.harness->0@).len() > 0 && event.session
            is Some && trimmed(event.session->0@).len() > 0,
        event.payload matches Payload::ClaimSet { ttl_seconds, stage_budgets, .. } ==> ttl_seconds
            > 0 && stage_budgets@.len() > 0,
        event.payload matches Payload::StageSet { stage, note, .. } ==> stage
            != ClaimStage::Snapshotted && (stage == ClaimStage::BlockedOn ==> note is Some
            && trimmed(note->0@).len() > 0),
{
}

/// What neither claims nor releases nor sets a stage travels as it is.
pub proof fn other_events_travel_as_they_are<F: Fn(&str) -> bool>(event: Event, rule: F)
    requires
        !(event.payload is ClaimSet),
        !(event.payload is ClaimReleased),
        !(event.payload is StageSet),
    ensures
        payload_accepted(event, rule),
{
}

/// Every patchset of an accepted bundle is told with its objects, and every event of a type that
/// import does not understand is told with its type.
pub proof fn patchsets_and_unknown_events_are_told(
    checked: ValidatedBundle,
    bundle: Bundle,
    decoded: Seq<Option<Event>>,
    i: int,
)
    requires
        validates(checked, bundle, decoded),
        0 <= i < bundle.events@.len(),
    ensures
        field(bundle.events@[i], EventField::EventType) == Some("patchset-added"@) ==> exists|
            k: int,
        |
            0 <= k < checked.patchsets@.len() && field(bundle.events@[i], EventField::Head) == Some(
                (#[trigger] checked.patchsets@[k]).head@,
            ),
        !known_tag(field(bundle.events@[i], EventField::EventType)->0) ==> exists|k: int|
            0 <= k < checked.unknown_event_types@.len() && field(
                bundle.events@[i],
                EventField::EventId,
            ) == Some((#[trigger] checked.unknown_event_types@[k]).0@),
        checked.events@.len() == bundle.events@.len(),
        checked.events@[i].value == bundle.events@[i],
{
    let n = bundle.events@.len();
    let added = |i: int| is_patchset(bundle.events@[i]);
    let unknown = |i: int| !known_tag(field(bundle.events@[i], EventField::EventType)->0);
    lemma_chosen(n, added);
    lemma_chosen(n, unknown);
    let patchsets = chosen(n, added);
    let others = chosen(n, unknown);
    if added(i) {
        assert(patchsets.contains(i));
        let k = choose|k: int| 0 <= k < patchsets.len() && patchsets[k] == i;
        assert(patchset_reads(checked.patchsets@[k], bundle.events@[patchsets[k]]));
    }
    if unknown(i) {
        assert(others.contains(i));
        let k = choose|k: int| 0 <= k < others.len() && others[k] == i;
        assert(unknown_reads(checked.unknown_event_types@[k], bundle.events@[others[k]]));
    }
    assert(event_validates(checked.events@[i], bundle.events@[i], decoded[i]));
}

} // verus!
