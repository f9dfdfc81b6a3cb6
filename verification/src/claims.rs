//! Advisory claims: who works on a change, for how long, and at which stage.
use crate::context::{
    append_allowed, ensure_append_allowed, AppendPermission, AppendRefusal, Ctx, SCHEMA_VERSION,
};
use crate::dependency::{carries, idle, offered_before, ready_candidate, satisfied};
use crate::event::{Event, Payload};
use crate::input::{
    all_tags, duration_of, first_invalid, normalize_tags, parse_duration, tagged, DurationError,
    InvalidTag,
};
use crate::metadata::{normal_tags, normal_tags_are_the_tags};
use crate::model::{stage_text, BlockerRef, ClaimStage, DisplacedClaim, StageBudget};
use crate::state::{ledger, outcome, ChangeState, ClaimIdentity, ClaimState, ClaimTiming};
use crate::table::listed;
use crate::text::{
    among, first_index, lemma_first_index, number_of, opt_view, parse_number, same, split_once,
    strip_prefix, trim, trimmed, views,
};
use crate::time::{instant_text, write_instant, Timestamp};
use vstd::prelude::*;

verus! {

/// How long a claim lives where nobody says otherwise.
pub const DEFAULT_TTL_SECONDS: u64 = 7200;

/// Why a command has no identity to claim under.
#[derive(Debug, PartialEq, Eq, Structural)]
pub enum IdentityError {
    NoActor,
    NoHarness,
    NoSession,
}

/// An identity as texts: actor, harness and session.
pub open spec fn identity_text(identity: ClaimIdentity) -> (Seq<char>, Seq<char>, Seq<char>) {
    (identity.actor@, identity.harness@, identity.session@)
}

/// A value without the white space around it, where that leaves something.
pub open spec fn present(value: Option<String>) -> Option<Seq<char>> {
    match value {
        Some(text) => if trimmed(text@).len() > 0 {
            Some(trimmed(text@))
        } else {
            None
        },
        None => None,
    }
}

/// A value without the white space around it, where that leaves something.
pub fn present_text(value: &Option<String>) -> (r: Option<String>)
    ensures
        match r {
            Some(text) => present(*value) == Some(text@),
            None => present(*value) is None,
        },
{
    match value {
        Some(text) => {
            let text = trim(text.as_str());
            if text.as_str().is_empty() {
                None
            } else {
                Some(text)
            }
        },
        None => None,
    }
}

/// The identity that a command claims under.
pub open spec fn identity_of(ctx: Ctx) -> Result<(Seq<char>, Seq<char>, Seq<char>), IdentityError> {
    if trimmed(ctx.actor@).len() == 0 {
        Err(IdentityError::NoActor)
    } else {
        match present(ctx.harness) {
            None => Err(IdentityError::NoHarness),
            Some(harness) => match present(ctx.session) {
                None => Err(IdentityError::NoSession),
                Some(session) => Ok((trimmed(ctx.actor@), harness, session)),
            },
        }
    }
}

/// The identity that a command claims under.
pub fn command_identity(ctx: &Ctx) -> (r: Result<ClaimIdentity, IdentityError>)
    ensures
        match r {
            Ok(identity) => identity_of(*ctx) == Ok::<
                (Seq<char>, Seq<char>, Seq<char>),
                IdentityError,
            >(identity_text(identity)),
            Err(error) => identity_of(*ctx) == Err::<
                (Seq<char>, Seq<char>, Seq<char>),
                IdentityError,
            >(error),
        },
{
    let actor = trim(ctx.actor.as_str());
    if actor.as_str().is_empty() {
        return Err(IdentityError::NoActor);
    }
    let harness = match present_text(&ctx.harness) {
        Some(harness) => harness,
        None => {
            return Err(IdentityError::NoHarness);
        },
    };
    let session = match present_text(&ctx.session) {
        Some(session) => session,
        None => {
            return Err(IdentityError::NoSession);
        },
    };
    Ok(ClaimIdentity { actor, harness, session })
}

/// Whether two identities are the same.
pub fn same_identity(left: &ClaimIdentity, right: &ClaimIdentity) -> (r: bool)
    ensures
        r == (identity_text(*left) == identity_text(*right)),
{
    same(left.actor.as_str(), right.actor.as_str()) && same(
        left.harness.as_str(),
        right.harness.as_str(),
    ) && same(left.session.as_str(), right.session.as_str())
}

/// The stage budget of a name.
pub open spec fn budget_named(name: Seq<char>) -> Option<StageBudget> {
    if name == "launch"@ {
        Some(StageBudget::Launch)
    } else if name == "started"@ {
        Some(StageBudget::Started)
    } else if name == "spec-read"@ {
        Some(StageBudget::SpecRead)
    } else if name == "implementing"@ {
        Some(StageBudget::Implementing)
    } else if name == "verifying"@ {
        Some(StageBudget::Verifying)
    } else if name == "blocked-on"@ {
        Some(StageBudget::BlockedOn)
    } else if name == "snapshotted"@ {
        Some(StageBudget::Snapshotted)
    } else {
        None
    }
}

/// Why a text is no stage budget.
#[derive(Debug, PartialEq, Eq, Structural)]
pub enum BudgetError {
    NoSeparator,
    UnknownStage,
    Duration(DurationError),
}

/// The stage budget that a text sets: a stage name, an equals sign and a duration.
pub open spec fn budget_of(raw: Seq<char>) -> Result<(StageBudget, nat), BudgetError> {
    let n = first_index(raw, '=');
    if n == raw.len() {
        Err(BudgetError::NoSeparator)
    } else {
        match budget_named(raw.take(n)) {
            None => Err(BudgetError::UnknownStage),
            Some(key) => match duration_of(raw.skip(n + 1)) {
                Ok(seconds) => Ok((key, seconds)),
                Err(error) => Err(BudgetError::Duration(error)),
            },
        }
    }
}

/// The stage budget that a text sets.
pub fn parse_stage_budget(raw: &str) -> (r: Result<(StageBudget, u64), BudgetError>)
    ensures
        match r {
            Ok((key, seconds)) => budget_of(raw@) == Ok::<(StageBudget, nat), BudgetError>(
                (key, seconds as nat),
            ),
            Err(error) => budget_of(raw@) == Err::<(StageBudget, nat), BudgetError>(error),
        },
{
    proof {
        lemma_first_index(raw@, '=');
    }
    let (name, duration) = match split_once(raw, '=') {
        Some(parts) => parts,
        None => {
            return Err(BudgetError::NoSeparator);
        },
    };
    let name = name.as_str();
    let key = if same(name, "launch") {
        StageBudget::Launch
    } else if same(name, "started") {
        StageBudget::Started
    } else if same(name, "spec-read") {
        StageBudget::SpecRead
    } else if same(name, "implementing") {
        StageBudget::Implementing
    } else if same(name, "verifying") {
        StageBudget::Verifying
    } else if same(name, "blocked-on") {
        StageBudget::BlockedOn
    } else if same(name, "snapshotted") {
        StageBudget::Snapshotted
    } else {
        return Err(BudgetError::UnknownStage);
    };
    match parse_duration(duration.as_str()) {
        Ok(seconds) => Ok((key, seconds)),
        Err(error) => Err(BudgetError::Duration(error)),
    }
}

/// The place of a stage among the budgets of a claim.
pub open spec fn budget_rank(key: StageBudget) -> int {
    match key {
        StageBudget::Launch => 0,
        StageBudget::Started => 1,
        StageBudget::SpecRead => 2,
        StageBudget::Implementing => 3,
        StageBudget::Verifying => 4,
        StageBudget::BlockedOn => 5,
        StageBudget::Snapshotted => 6,
    }
}

fn rank(key: StageBudget) -> (r: usize)
    ensures
        r == budget_rank(key),
{
    match key {
        StageBudget::Launch => 0,
        StageBudget::Started => 1,
        StageBudget::SpecRead => 2,
        StageBudget::Implementing => 3,
        StageBudget::Verifying => 4,
        StageBudget::BlockedOn => 5,
        StageBudget::Snapshotted => 6,
    }
}

/// The budget of a stage where nobody says otherwise.
pub open spec fn default_budget(key: StageBudget) -> nat {
    match key {
        StageBudget::Launch => 60,
        StageBudget::Started => 300,
        StageBudget::SpecRead => 120,
        StageBudget::Implementing => 1800,
        StageBudget::Verifying => 900,
        StageBudget::BlockedOn => 900,
        StageBudget::Snapshotted => 3600,
    }
}

/// The budget that raw budgets leave a stage with: that of the last one that names it.
pub open spec fn budget_after(raws: Seq<String>, key: StageBudget) -> nat
    decreases raws.len(),
{
    if raws.len() == 0 {
        default_budget(key)
    } else {
        match budget_of(raws.last()@) {
            Ok((named, seconds)) => if named == key {
                seconds
            } else {
                budget_after(raws.drop_last(), key)
            },
            Err(_) => budget_after(raws.drop_last(), key),
        }
    }
}

/// Whether budgets hold every stage once, in order, each with what raw budgets leave it with.
pub open spec fn budgets_after(budgets: Seq<(StageBudget, u64)>, raws: Seq<String>) -> bool {
    &&& budgets.len() == 7
    &&& forall|key: StageBudget|
        budgets[#[trigger] budget_rank(key)].0 == key && budgets[budget_rank(key)].1
            == budget_after(raws, key)
}

/// The budgets of a claim where nobody says otherwise.
pub fn default_stage_budgets() -> (r: Vec<(StageBudget, u64)>)
    ensures
        budgets_after(r@, Seq::empty()),
{
    vec![
        (StageBudget::Launch, 60),
        (StageBudget::Started, 300),
        (StageBudget::SpecRead, 120),
        (StageBudget::Implementing, 1800),
        (StageBudget::Verifying, 900),
        (StageBudget::BlockedOn, 900),
        (StageBudget::Snapshotted, 3600),
    ]
}

/// The budgets of a claim, or the first raw budget that is none.
pub fn stage_budgets(raws: &Vec<String>) -> (r: Result<Vec<(StageBudget, u64)>, BudgetError>)
    ensures
        match r {
            Ok(budgets) => budgets_after(budgets@, raws@) && forall|i: int|
                0 <= i < raws@.len() ==> budget_of((#[trigger] raws@[i])@) is Ok,
            Err(error) => exists|i: int|
                {
                    &&& 0 <= i < raws@.len()
                    &&& budget_of((#[trigger] raws@[i])@) == Err::<(StageBudget, nat), BudgetError>(
                        error,
                    )
                    &&& forall|k: int| 0 <= k < i ==> budget_of((#[trigger] raws@[k])@) is Ok
                },
        },
{
    let mut budgets = default_stage_budgets();
    assert(raws@.take(0) =~= Seq::<String>::empty());
    for i in 0..raws.len()
        invariant
            budgets_after(budgets@, raws@.take(i as int)),
            forall|k: int| 0 <= k < i ==> budget_of((#[trigger] raws@[k])@) is Ok,
    {
        let ghost before = budgets@;
        match parse_stage_budget(raws[i].as_str()) {
            Ok((key, seconds)) => {
                let at: usize = rank(key);
                budgets.set(at, (key, seconds));
                proof {
                    assert(raws@.take(i + 1).drop_last() =~= raws@.take(i as int));
                    assert(raws@.take(i + 1).last() == raws@[i as int]);
                    assert forall|other: StageBudget|
                        budgets@[#[trigger] budget_rank(other)].0 == other && budgets@[budget_rank(
                            other,
                        )].1 == budget_after(raws@.take(i + 1), other) by {
                        assert(before[budget_rank(other)].0 == other);
                    }
                }
            },
            Err(error) => {
                return Err(error);
            },
        }
    }
    assert(raws@.take(raws@.len() as int) =~= raws@);
    Ok(budgets)
}

/// How a claim is asked for.
#[derive(Clone, Copy, Debug, PartialEq, Eq, Structural)]
pub enum ClaimMode {
    Standard { takeover: bool },
    RequireAbandoned,
}

/// Why a claim is not granted.
#[derive(Clone, Copy, Debug, PartialEq, Eq, Structural)]
pub enum ClaimConflict {
    /// Somebody else holds the claim, and it is not stale.
    Held,
    /// Somebody else holds a stale claim, and nobody asked to take it over.
    HeldStale,
    /// The claim has to be another's, and stale or expired.
    NotAbandoned,
}

/// What becomes of the claim that is there when another is asked for.
#[derive(Clone, Copy, Debug, PartialEq, Eq, Structural)]
pub enum ClaimDecision {
    Conflict(ClaimConflict),
    /// A claim under a new identity that puts the existing one aside.
    Displace,
    /// The existing claim, renewed.
    Renew,
    /// A claim under a new identity, with nothing put aside.
    Fresh,
}

/// What becomes of the claim that is there. `owned` says that the asking identity holds it.
pub open spec fn claim_decision(
    exists_claim: bool,
    owned: bool,
    timing: ClaimTiming,
    mode: ClaimMode,
) -> ClaimDecision {
    if !exists_claim {
        if mode == ClaimMode::RequireAbandoned {
            ClaimDecision::Conflict(ClaimConflict::NotAbandoned)
        } else {
            ClaimDecision::Fresh
        }
    } else if timing.active && !owned {
        if !timing.stale {
            ClaimDecision::Conflict(ClaimConflict::Held)
        } else if mode == (ClaimMode::Standard { takeover: false }) {
            ClaimDecision::Conflict(ClaimConflict::HeldStale)
        } else {
            ClaimDecision::Displace
        }
    } else if timing.expired && (mode is Standard || !owned) {
        ClaimDecision::Displace
    } else if mode == ClaimMode::RequireAbandoned {
        ClaimDecision::Conflict(ClaimConflict::NotAbandoned)
    } else if owned && timing.active {
        ClaimDecision::Renew
    } else {
        ClaimDecision::Fresh
    }
}

/// What becomes of the claim that is there when `owner` asks for one.
pub fn decide_claim(
    existing: &Option<ClaimState>,
    timing: &ClaimTiming,
    owner: &ClaimIdentity,
    mode: ClaimMode,
) -> (r: ClaimDecision)
    ensures
        r == claim_decision(
            existing is Some,
            existing is Some && identity_text(existing->0.owner) == identity_text(*owner),
            *timing,
            mode,
        ),
{
    let require_abandoned = matches!(mode, ClaimMode::RequireAbandoned);
    match existing {
        Some(claim) => {
            let owned = same_identity(&claim.owner, owner);
            if timing.active && !owned {
                if !timing.stale {
                    ClaimDecision::Conflict(ClaimConflict::Held)
                } else if matches!(mode, ClaimMode::Standard { takeover: false }) {
                    ClaimDecision::Conflict(ClaimConflict::HeldStale)
                } else {
                    ClaimDecision::Displace
                }
            } else if timing.expired && (!require_abandoned || !owned) {
                ClaimDecision::Displace
            } else if require_abandoned {
                ClaimDecision::Conflict(ClaimConflict::NotAbandoned)
            } else if owned && timing.active {
                ClaimDecision::Renew
            } else {
                ClaimDecision::Fresh
            }
        },
        None => if require_abandoned {
            ClaimDecision::Conflict(ClaimConflict::NotAbandoned)
        } else {
            ClaimDecision::Fresh
        },
    }
}

/// A live claim that is not stale is never put aside by anybody but its owner.
pub proof fn live_claims_stand(timing: ClaimTiming, mode: ClaimMode)
    requires
        timing.active,
        !timing.stale,
    ensures
        claim_decision(true, false, timing, mode) == ClaimDecision::Conflict(ClaimConflict::Held),
{
}

/// A stale claim is put aside by another only where that is asked for.
pub proof fn stale_claims_yield_to_takeover(timing: ClaimTiming, takeover: bool)
    requires
        timing.active,
        timing.stale,
    ensures
        claim_decision(true, false, timing, ClaimMode::Standard { takeover })
            == ClaimDecision::Displace <==> takeover,
{
}

/// Whoever holds the claim is not refused it: where it is live, however long its stage has lasted,
/// it is renewed, and where it has run out it is put aside for another.
pub proof fn owners_are_not_refused(timing: ClaimTiming, takeover: bool)
    ensures
        !(claim_decision(true, true, timing, ClaimMode::Standard { takeover }) is Conflict),
        timing.active && !timing.expired ==> claim_decision(
            true,
            true,
            timing,
            ClaimMode::Standard { takeover },
        ) == ClaimDecision::Renew,
        timing.expired ==> claim_decision(true, true, timing, ClaimMode::Standard { takeover })
            == ClaimDecision::Displace,
{
}

/// Only whoever holds a live claim renews it.
pub proof fn only_owners_renew(exists_claim: bool, owned: bool, timing: ClaimTiming, mode: ClaimMode)
    requires
        claim_decision(exists_claim, owned, timing, mode) == ClaimDecision::Renew,
    ensures
        exists_claim && owned && timing.active && mode is Standard,
{
}

/// A change that nobody claims is free to whoever asks, and a claim that has run out is put aside
/// by whoever asks.
pub proof fn unclaimed_changes_are_free(owned: bool, timing: ClaimTiming, takeover: bool)
    ensures
        claim_decision(false, owned, timing, ClaimMode::Standard { takeover })
            == ClaimDecision::Fresh,
        timing.expired && !timing.active ==> claim_decision(
            true,
            owned,
            timing,
            ClaimMode::Standard { takeover },
        ) == ClaimDecision::Displace,
{
}

/// What was abandoned is taken over from another whose claim is stale or has run out, and from
/// nobody else.
pub proof fn only_the_abandoned_is_rescued(exists_claim: bool, owned: bool, timing: ClaimTiming)
    ensures
        claim_decision(exists_claim, owned, timing, ClaimMode::RequireAbandoned)
            == ClaimDecision::Displace <==> exists_claim && !owned && (if timing.active {
            timing.stale
        } else {
            timing.expired
        }),
        claim_decision(exists_claim, owned, timing, ClaimMode::RequireAbandoned)
            == ClaimDecision::Displace || claim_decision(
            exists_claim,
            owned,
            timing,
            ClaimMode::RequireAbandoned,
        ) is Conflict,
{
}

/// What a claim put aside looks like in the claim that replaces it.
pub open spec fn displaces(displaced: DisplacedClaim, claim: ClaimState, timing: ClaimTiming) -> bool {
    &&& displaced.claim_id@ == claim.claim_id@
    &&& displaced.actor@ == claim.owner.actor@
    &&& displaced.harness@ == claim.owner.harness@
    &&& displaced.session@ == claim.owner.session@
    &&& displaced.stage@ == timing.stage@
}

/// What a claim put aside looks like in the claim that replaces it.
pub fn displaced_claim(existing: &ClaimState, timing: &ClaimTiming) -> (r: DisplacedClaim)
    ensures
        displaces(r, *existing, *timing),
{
    DisplacedClaim {
        claim_id: existing.claim_id.clone(),
        actor: existing.owner.actor.clone(),
        harness: existing.owner.harness.clone(),
        session: existing.owner.session.clone(),
        stage: timing.stage.clone(),
    }
}

/// Why a claim command fails.
#[derive(Debug, PartialEq, Eq, Structural)]
pub enum ClaimError {
    Identity(IdentityError),
    Ttl(DurationError),
    Budget(BudgetError),
    Append(AppendRefusal),
}

/// What a claim command comes to.
#[derive(Debug)]
pub enum ClaimOutcome {
    Conflict(ClaimConflict),
    Claimed {
        claim_id: String,
        ttl_seconds: u64,
        stage_budgets: Vec<(StageBudget, u64)>,
        displaced: Option<DisplacedClaim>,
    },
}

impl ClaimOutcome {
    /// The exit code: 8 on a conflict.
    pub fn exit_code(&self) -> (r: i32)
        ensures
            r == (if self is Conflict {
                8int
            } else {
                0
            }),
    {
        match self {
            ClaimOutcome::Conflict(_) => 8,
            ClaimOutcome::Claimed { .. } => 0,
        }
    }
}

/// What is said of a claim that stands in the way.
pub open spec fn conflict_text(
    message: Seq<char>,
    claim: ClaimState,
    timing: ClaimTiming,
    expires_at: Timestamp,
) -> Seq<char> {
    "claim conflict: "@ + message + "; owner="@ + claim.owner.actor@ + " harness="@
        + claim.owner.harness@ + " session="@ + claim.owner.session@ + " stage="@ + timing.stage@
        + " expires="@ + instant_text(expires_at.secs(), expires_at.nanos())
}

/// What is said of a claim that stands in the way.
pub fn claim_conflict(
    message: &str,
    claim: &ClaimState,
    timing: &ClaimTiming,
    expires_at: Timestamp,
) -> (r: String)
    ensures
        r@ == conflict_text(message@, *claim, *timing, expires_at),
{
    let expires = write_instant(expires_at);
    let mut out = "claim conflict: ".to_string();
    out.append(message);
    out.append("; owner=");
    out.append(claim.owner.actor.as_str());
    out.append(" harness=");
    out.append(claim.owner.harness.as_str());
    out.append(" session=");
    out.append(claim.owner.session.as_str());
    out.append(" stage=");
    out.append(timing.stage.as_str());
    out.append(" expires=");
    out.append(expires.as_str());
    out
}

impl ClaimConflict {
    /// What a caller is told of the way out of a conflict.
    pub fn advice(self) -> (r: &'static str)
        ensures
            r@ == (match self {
                ClaimConflict::Held =>
                    "--takeover is unavailable because the claim is not yet stale"@,
                ClaimConflict::HeldStale => "--takeover would displace this stale claim"@,
                ClaimConflict::NotAbandoned =>
                    "rescue --take requires a claim owned by another identity that is stale or expired"@,
            }),
    {
        match self {
            ClaimConflict::Held => "--takeover is unavailable because the claim is not yet stale",
            ClaimConflict::HeldStale => "--takeover would displace this stale claim",
            ClaimConflict::NotAbandoned =>
                "rescue --take requires a claim owned by another identity that is stale or expired",
        }
    }
}

/// The seconds that a claim lives.
pub open spec fn ttl_of(ttl: Option<String>) -> Result<nat, DurationError> {
    match ttl {
        Some(raw) => duration_of(raw@),
        None => Ok(DEFAULT_TTL_SECONDS as nat),
    }
}

/// The seconds that a claim lives.
pub fn parse_ttl(ttl: &Option<String>) -> (r: Result<u64, DurationError>)
    ensures
        match r {
            Ok(seconds) => ttl_of(*ttl) == Ok::<nat, DurationError>(seconds as nat),
            Err(error) => ttl_of(*ttl) == Err::<nat, DurationError>(error),
        },
{
    match ttl {
        Some(raw) => parse_duration(raw.as_str()),
        None => Ok(DEFAULT_TTL_SECONDS),
    }
}

/// Whether a claim command comes to an outcome.
pub open spec fn claim_comes_to(
    owner: (Seq<char>, Seq<char>, Seq<char>),
    ttl_seconds: nat,
    raws: Seq<String>,
    state: ChangeState,
    timing: ClaimTiming,
    mode: ClaimMode,
    fresh_id: Seq<char>,
    outcome: ClaimOutcome,
) -> bool {
    match decision_for(owner, state, timing, mode) {
        ClaimDecision::Conflict(conflict) => outcome == ClaimOutcome::Conflict(conflict),
        ClaimDecision::Displace => outcome matches ClaimOutcome::Claimed {
            claim_id,
            ttl_seconds: ttl,
            stage_budgets,
            displaced: Some(displaced),
        } && claim_id@ == fresh_id && ttl == ttl_seconds && budgets_after(stage_budgets@, raws)
            && displaces(displaced, state.claim->0, timing),
        ClaimDecision::Renew => outcome matches ClaimOutcome::Claimed {
            claim_id,
            ttl_seconds: ttl,
            stage_budgets,
            displaced: None,
        } && claim_id@ == state.claim->0.claim_id@ && ttl == ttl_seconds && budgets_after(
            stage_budgets@,
            raws,
        ),
        ClaimDecision::Fresh => outcome matches ClaimOutcome::Claimed {
            claim_id,
            ttl_seconds: ttl,
            stage_budgets,
            displaced: None,
        } && claim_id@ == fresh_id && ttl == ttl_seconds && budgets_after(stage_budgets@, raws),
    }
}

/// What decides over a change for an identity.
pub open spec fn decision_for(
    owner: (Seq<char>, Seq<char>, Seq<char>),
    state: ChangeState,
    timing: ClaimTiming,
    mode: ClaimMode,
) -> ClaimDecision {
    claim_decision(
        state.claim is Some,
        state.claim is Some && identity_text(state.claim->0.owner) == owner,
        timing,
        mode,
    )
}

/// Whether every budget is readable.
pub open spec fn budgets_readable(raws: Seq<String>) -> bool {
    forall|i: int| 0 <= i < raws.len() ==> budget_of((#[trigger] raws[i])@) is Ok
}

/// Whether `error` is that of the first budget that is not readable.
pub open spec fn first_budget_error(raws: Seq<String>, error: BudgetError) -> bool {
    exists|i: int|
        {
            &&& 0 <= i < raws.len()
            &&& budget_of((#[trigger] raws[i])@) == Err::<(StageBudget, nat), BudgetError>(error)
            &&& forall|k: int| 0 <= k < i ==> budget_of((#[trigger] raws[k])@) is Ok
        }
}

/// Whether `r` answers a claim command: the identity, the lifetime and the budgets are read in that
/// order, then a conflict is told, and only a claim that is to be recorded needs the permission to
/// append.
pub open spec fn answers_claim(
    ctx: Ctx,
    ttl: Option<String>,
    raws: Seq<String>,
    mode: ClaimMode,
    state: ChangeState,
    timing: ClaimTiming,
    fresh_id: Seq<char>,
    permission: AppendPermission,
    r: Result<ClaimOutcome, ClaimError>,
) -> bool {
    match r {
        Ok(done) => {
            &&& identity_of(ctx) is Ok
            &&& ttl_of(ttl) is Ok
            &&& budgets_readable(raws)
            &&& claim_comes_to(
                identity_of(ctx)->Ok_0,
                ttl_of(ttl)->Ok_0,
                raws,
                state,
                timing,
                mode,
                fresh_id,
                done,
            )
            &&& done is Claimed ==> append_allowed(outcome(state), permission) is Ok
        },
        Err(ClaimError::Identity(error)) => identity_of(ctx) == Err::<
            (Seq<char>, Seq<char>, Seq<char>),
            IdentityError,
        >(error),
        Err(ClaimError::Ttl(error)) => {
            &&& identity_of(ctx) is Ok
            &&& ttl_of(ttl) == Err::<nat, DurationError>(error)
        },
        Err(ClaimError::Budget(error)) => {
            &&& identity_of(ctx) is Ok
            &&& ttl_of(ttl) is Ok
            &&& first_budget_error(raws, error)
        },
        Err(ClaimError::Append(error)) => {
            &&& identity_of(ctx) is Ok
            &&& ttl_of(ttl) is Ok
            &&& budgets_readable(raws)
            &&& !(decision_for(identity_of(ctx)->Ok_0, state, timing, mode) is Conflict)
            &&& append_allowed(outcome(state), permission) == Err::<(), AppendRefusal>(error)
        },
    }
}

/// Claims a change. `timing` says where the existing claim stands now, `fresh_id` is the identity
/// of a claim that replaces it, and `permission` is that of claim events.
pub fn claim_inner(
    ctx: &Ctx,
    ttl: &Option<String>,
    raw_budgets: &Vec<String>,
    mode: ClaimMode,
    state: &ChangeState,
    timing: &ClaimTiming,
    fresh_id: String,
    permission: AppendPermission,
) -> (r: Result<ClaimOutcome, ClaimError>)
    ensures
        answers_claim(
            *ctx,
            *ttl,
            raw_budgets@,
            mode,
            *state,
            *timing,
            fresh_id@,
            permission,
            r,
        ),
{
    let owner = match command_identity(ctx) {
        Ok(owner) => owner,
        Err(error) => {
            return Err(ClaimError::Identity(error));
        },
    };
    let ttl_seconds: u64 = match parse_ttl(ttl) {
        Ok(seconds) => seconds,
        Err(error) => {
            return Err(ClaimError::Ttl(error));
        },
    };
    let stage_budgets = match stage_budgets(raw_budgets) {
        Ok(budgets) => budgets,
        Err(error) => {
            return Err(ClaimError::Budget(error));
        },
    };
    let decision = decide_claim(&state.claim, timing, &owner, mode);
    if let ClaimDecision::Conflict(conflict) = decision {
        return Ok(ClaimOutcome::Conflict(conflict));
    }
    if let Err(error) = ensure_append_allowed(state, permission) {
        return Err(ClaimError::Append(error));
    }
    match &state.claim {
        Some(existing) => match decision {
            ClaimDecision::Displace => Ok(
                ClaimOutcome::Claimed {
                    claim_id: fresh_id,
                    ttl_seconds,
                    stage_budgets,
                    displaced: Some(displaced_claim(existing, timing)),
                },
            ),
            ClaimDecision::Renew => Ok(
                ClaimOutcome::Claimed {
                    claim_id: existing.claim_id.clone(),
                    ttl_seconds,
                    stage_budgets,
                    displaced: None,
                },
            ),
            _ => Ok(
                ClaimOutcome::Claimed {
                    claim_id: fresh_id,
                    ttl_seconds,
                    stage_budgets,
                    displaced: None,
                },
            ),
        },
        None => Ok(
            ClaimOutcome::Claimed { claim_id: fresh_id, ttl_seconds, stage_budgets, displaced: None },
        ),
    }
}

/// Claims a change in the standard way.
pub fn claim(
    ctx: &Ctx,
    ttl: &Option<String>,
    raw_budgets: &Vec<String>,
    takeover: bool,
    state: &ChangeState,
    timing: &ClaimTiming,
    fresh_id: String,
    permission: AppendPermission,
) -> (r: Result<ClaimOutcome, ClaimError>)
    ensures
        answers_claim(
            *ctx,
            *ttl,
            raw_budgets@,
            (ClaimMode::Standard { takeover }),
            *state,
            *timing,
            fresh_id@,
            permission,
            r,
        ),
{
    claim_inner(
        ctx,
        ttl,
        raw_budgets,
        ClaimMode::Standard { takeover },
        state,
        timing,
        fresh_id,
        permission,
    )
}

/// A claim that the asking identity holds and that is live is renewed under its own identity, with
/// nothing put aside: whatever else the answer is, it is no conflict.
pub proof fn owned_claims_are_renewed(
    ctx: Ctx,
    ttl: Option<String>,
    raws: Seq<String>,
    takeover: bool,
    state: ChangeState,
    timing: ClaimTiming,
    fresh_id: Seq<char>,
    permission: AppendPermission,
    r: Result<ClaimOutcome, ClaimError>,
)
    requires
        answers_claim(
            ctx,
            ttl,
            raws,
            (ClaimMode::Standard { takeover }),
            state,
            timing,
            fresh_id,
            permission,
            r,
        ),
        state.claim is Some,
        identity_of(ctx) == Ok::<(Seq<char>, Seq<char>, Seq<char>), IdentityError>(
            (
                state.claim->0.owner.actor@,
                state.claim->0.owner.harness@,
                state.claim->0.owner.session@,
            ),
        ),
        timing.active,
        !timing.expired,
    ensures
        match r {
            Ok(ClaimOutcome::Claimed { claim_id, displaced, .. }) => claim_id@
                == state.claim->0.claim_id@ && displaced is None,
            Ok(ClaimOutcome::Conflict(_)) => false,
            Err(_) => true,
        },
{
}

/// A live claim that is not stale is not given to anybody else, and a claim that is given to
/// somebody else names the one that it put aside.
pub proof fn claims_are_not_stolen(
    ctx: Ctx,
    ttl: Option<String>,
    raws: Seq<String>,
    mode: ClaimMode,
    state: ChangeState,
    timing: ClaimTiming,
    fresh_id: Seq<char>,
    permission: AppendPermission,
    r: Result<ClaimOutcome, ClaimError>,
)
    requires
        answers_claim(ctx, ttl, raws, mode, state, timing, fresh_id, permission, r),
        state.claim is Some,
        identity_of(ctx) != Ok::<(Seq<char>, Seq<char>, Seq<char>), IdentityError>(
            (
                state.claim->0.owner.actor@,
                state.claim->0.owner.harness@,
                state.claim->0.owner.session@,
            ),
        ),
        timing.active,
    ensures
        r matches Ok(ClaimOutcome::Claimed { claim_id, displaced, .. }) ==> timing.stale && mode
            != (ClaimMode::Standard { takeover: false }) && claim_id@ == fresh_id && displaced
            is Some && displaced->0.claim_id@ == state.claim->0.claim_id@ && displaced->0.actor@
            == state.claim->0.owner.actor@ && displaced->0.harness@
            == state.claim->0.owner.harness@ && displaced->0.session@
            == state.claim->0.owner.session@ && displaced->0.stage@ == timing.stage@,
{
}

/// Takes over a change whose claim another identity let go stale or expire.
pub fn takeover_abandoned(
    ctx: &Ctx,
    state: &ChangeState,
    timing: &ClaimTiming,
    fresh_id: String,
    permission: AppendPermission,
) -> (r: Result<ClaimOutcome, ClaimError>)
    ensures
        answers_claim(
            *ctx,
            None,
            Seq::empty(),
            ClaimMode::RequireAbandoned,
            *state,
            *timing,
            fresh_id@,
            permission,
            r,
        ),
{
    let none: Vec<String> = Vec::new();
    let r = claim_inner(
        ctx,
        &None,
        &none,
        ClaimMode::RequireAbandoned,
        state,
        timing,
        fresh_id,
        permission,
    );
    assert(none@ =~= Seq::<String>::empty());
    r
}

/// What a release command comes to.
#[derive(Debug)]
pub enum ReleaseOutcome {
    NoClaim,
    Expired,
    Released { claim_id: String },
}

impl ReleaseOutcome {
    /// The exit code: 8 where there is no live claim.
    pub fn exit_code(&self) -> (r: i32)
        ensures
            r == (if self is Released {
                0int
            } else {
                8
            }),
    {
        match self {
            ReleaseOutcome::Released { .. } => 0,
            _ => 8,
        }
    }
}

/// Whether `r` answers a release command.
pub open spec fn answers_release(
    ctx: &Ctx,
    state: &ChangeState,
    timing: &ClaimTiming,
    r: Result< ReleaseOutcome, IdentityError, >,
) -> bool {
    match r {
            Ok(done) => identity_of(*ctx) is Ok && match state.claim {
                None => done is NoClaim,
                Some(claim) => if !timing.active {
                    done is Expired
                } else {
                    done matches ReleaseOutcome::Released { claim_id } && claim_id@
                        == claim.claim_id@
                },
            },
            Err(error) => identity_of(*ctx) == Err::<
                (Seq<char>, Seq<char>, Seq<char>),
                IdentityError,
            >(error),
        }
}

/// Releases the claim on a change, whoever holds it, where it is live.
pub fn release_claim(ctx: &Ctx, state: &ChangeState, timing: &ClaimTiming) -> (r: Result<
    ReleaseOutcome,
    IdentityError,
>)
    ensures
        answers_release(ctx, state, timing, r),
{
    if let Err(error) = command_identity(ctx) {
        return Err(error);
    }
    match &state.claim {
        None => Ok(ReleaseOutcome::NoClaim),
        Some(existing) => if !timing.active {
            Ok(ReleaseOutcome::Expired)
        } else {
            Ok(ReleaseOutcome::Released { claim_id: existing.claim_id.clone() })
        },
    }
}

/// The stages that a caller can set.
#[derive(Clone, Copy, Debug, PartialEq, Eq, Structural)]
pub enum StageArg {
    Started,
    SpecRead,
    Implementing,
    Verifying,
    BlockedOn,
}

/// The stage that a caller sets.
pub open spec fn stage_set(stage: StageArg) -> ClaimStage {
    match stage {
        StageArg::Started => ClaimStage::Started,
        StageArg::SpecRead => ClaimStage::SpecRead,
        StageArg::Implementing => ClaimStage::Implementing,
        StageArg::Verifying => ClaimStage::Verifying,
        StageArg::BlockedOn => ClaimStage::BlockedOn,
    }
}

impl From<StageArg> for ClaimStage {
    fn from(stage: StageArg) -> (r: Self) {
        match stage {
            StageArg::Started => ClaimStage::Started,
            StageArg::SpecRead => ClaimStage::SpecRead,
            StageArg::Implementing => ClaimStage::Implementing,
            StageArg::Verifying => ClaimStage::Verifying,
            StageArg::BlockedOn => ClaimStage::BlockedOn,
        }
    }
}

impl vstd::std_specs::convert::FromSpecImpl<StageArg> for ClaimStage {
    open spec fn obeys_from_spec() -> bool {
        true
    }

    open spec fn from_spec(stage: StageArg) -> Self {
        stage_set(stage)
    }
}

/// Why a stage cannot be set.
#[derive(Debug, PartialEq, Eq, Structural)]
pub enum StageError {
    Identity(IdentityError),
    NoteRequired,
    BlockerRequired,
    BlockerNotAllowed,
    Append(AppendRefusal),
}

/// Whether a stage can be set with a note and a blocker: only a block has a blocker, and it
/// needs both.
pub open spec fn stage_request(stage: StageArg, note: Option<Seq<char>>, blocker: bool) -> Result<
    (),
    StageError,
> {
    if stage == StageArg::BlockedOn && note is None {
        Err(StageError::NoteRequired)
    } else if stage == StageArg::BlockedOn && !blocker {
        Err(StageError::BlockerRequired)
    } else if stage != StageArg::BlockedOn && blocker {
        Err(StageError::BlockerNotAllowed)
    } else {
        Ok(())
    }
}

/// Whether `r` is the note of a stage that can be set, or why it cannot.
pub open spec fn checks_stage(
    stage: StageArg,
    note: &Option<String>,
    blocker: &Option<String>,
    r: Result< Option<String>, StageError, >,
) -> bool {
    match r {
            Ok(kept) => stage_request(stage, present(*note), blocker is Some) is Ok
                && opt_view(kept) == present(*note),
            Err(error) => stage_request(stage, present(*note), blocker is Some) == Err::<
                (),
                StageError,
            >(error),
        }
}

/// Checks what a caller wants to set, and gives the note without the white space around it.
pub fn check_stage(stage: StageArg, note: &Option<String>, blocker: &Option<String>) -> (r: Result<
    Option<String>,
    StageError,
>)
    ensures
        checks_stage(stage, note, blocker, r),
{
    let kept = present_text(note);
    if stage == StageArg::BlockedOn && kept.is_none() {
        return Err(StageError::NoteRequired);
    }
    if stage == StageArg::BlockedOn && blocker.is_none() {
        return Err(StageError::BlockerRequired);
    }
    if stage != StageArg::BlockedOn && blocker.is_some() {
        return Err(StageError::BlockerNotAllowed);
    }
    Ok(kept)
}

/// What setting a stage takes first.
#[derive(Debug)]
pub enum StageStep {
    /// Another holds a live claim.
    HeldByAnother,
    /// There is no claim.
    NoClaim,
    /// The claim has expired.
    Expired,
    /// The caller does not own the claim.
    NotOwner,
    /// A claim has to be set first.
    ClaimFirst { displaced: Option<DisplacedClaim> },
    /// The stage goes under this claim.
    Record { claim_id: String },
}

/// Whether an identity holds a live claim.
pub open spec fn owns_live(
    claim: Option<ClaimState>,
    timing: ClaimTiming,
    owner: (Seq<char>, Seq<char>, Seq<char>),
) -> bool {
    claim is Some && identity_text(claim->0.owner) == owner && timing.active
}

/// Whether an identity holds a live claim.
pub fn owns_live_claim(claim: &Option<ClaimState>, timing: &ClaimTiming, owner: &ClaimIdentity) -> (r:
    bool)
    ensures
        r == owns_live(*claim, *timing, identity_text(*owner)),
{
    match claim {
        Some(claim) => same_identity(&claim.owner, owner) && timing.active,
        None => false,
    }
}

/// Whether `r` is what setting a stage takes first.
pub open spec fn is_next_step(
    claim: &Option<ClaimState>,
    timing: &ClaimTiming,
    owner: &ClaimIdentity,
    claim_if_needed: bool,
    r: StageStep,
) -> bool {
    ({
            let who = identity_text(*owner);
            if claim_if_needed && !owns_live(*claim, *timing, who) {
                match claim {
                    Some(existing) => if timing.active && identity_text(existing.owner) != who {
                        r is HeldByAnother
                    } else {
                        r matches StageStep::ClaimFirst { displaced: Some(displaced) }
                            && displaces(displaced, *existing, *timing)
                    },
                    None => r == StageStep::ClaimFirst { displaced: None },
                }
            } else {
                match claim {
                    None => r is NoClaim,
                    Some(existing) => if !timing.active {
                        r is Expired
                    } else if identity_text(existing.owner) != who {
                        r is NotOwner
                    } else {
                        r matches StageStep::Record { claim_id } && claim_id@ == existing.claim_id@
                    },
                }
            }
        })
}

/// What setting a stage takes first, where a claim may be set on the way.
pub fn next_stage_step(
    claim: &Option<ClaimState>,
    timing: &ClaimTiming,
    owner: &ClaimIdentity,
    claim_if_needed: bool,
) -> (r: StageStep)
    ensures
        is_next_step(claim, timing, owner, claim_if_needed, r),
{
    if claim_if_needed && !owns_live_claim(claim, timing, owner) {
        return match claim {
            Some(existing) => if timing.active && !same_identity(&existing.owner, owner) {
                StageStep::HeldByAnother
            } else {
                StageStep::ClaimFirst { displaced: Some(displaced_claim(existing, timing)) }
            },
            None => StageStep::ClaimFirst { displaced: None },
        };
    }
    match claim {
        None => StageStep::NoClaim,
        Some(existing) => if !timing.active {
            StageStep::Expired
        } else if !same_identity(&existing.owner, owner) {
            StageStep::NotOwner
        } else {
            StageStep::Record { claim_id: existing.claim_id.clone() }
        },
    }
}

/// A blocker as a caller names it, resolved as far as the change itself says.
#[derive(Debug)]
pub enum NamedBlocker {
    Known(BlockerRef),
    Finding { reference: String },
    Change { reference: String },
}

/// Why a text names no blocker.
#[derive(Debug, PartialEq, Eq, Structural)]
pub enum BlockerError {
    NoKind,
    EmptyReference,
    BriefForm,
    BriefVersion,
    NoSuchBrief { version: usize },
    UnknownKind,
}

/// Whether a text names a blocker: `external`, `brief:vN`, `finding:ID` or `change:ID`.
pub open spec fn blocker_named(raw: Seq<char>, state: ChangeState, r: Result<NamedBlocker, BlockerError>) -> bool {
    let n = first_index(raw, ':');
    let kind = raw.take(n);
    let reference = raw.skip(n + 1);
    if raw == "external"@ {
        r == Ok::<NamedBlocker, BlockerError>(NamedBlocker::Known(BlockerRef::External))
    } else if n == raw.len() {
        r == Err::<NamedBlocker, BlockerError>(BlockerError::NoKind)
    } else if reference.len() == 0 {
        r == Err::<NamedBlocker, BlockerError>(BlockerError::EmptyReference)
    } else if kind == "brief"@ {
        if reference[0] != 'v' {
            r == Err::<NamedBlocker, BlockerError>(BlockerError::BriefForm)
        } else {
            match number_of(reference.drop_first()) {
                Some(version) => if version == 0 || version > usize::MAX {
                    r == Err::<NamedBlocker, BlockerError>(BlockerError::BriefVersion)
                } else if version > state.briefs@.len() {
                    r == Err::<NamedBlocker, BlockerError>(
                        BlockerError::NoSuchBrief { version: version as usize },
                    )
                } else {
                    r matches Ok(NamedBlocker::Known(BlockerRef::Brief { brief_event_id }))
                        && brief_event_id@ == state.briefs@[version - 1].event_id@
                },
                None => r == Err::<NamedBlocker, BlockerError>(BlockerError::BriefVersion),
            }
        }
    } else if kind == "finding"@ {
        r matches Ok(NamedBlocker::Finding { reference: named }) && named@ == reference
    } else if kind == "change"@ {
        r matches Ok(NamedBlocker::Change { reference: named }) && named@ == reference
    } else {
        r == Err::<NamedBlocker, BlockerError>(BlockerError::UnknownKind)
    }
}

/// The blocker that a text names. Findings and other changes are left to be looked up.
pub fn resolve_blocker(state: &ChangeState, raw: &str) -> (r: Result<NamedBlocker, BlockerError>)
    ensures
        blocker_named(raw@, *state, r),
{
    proof {
        lemma_first_index(raw@, ':');
    }
    if same(raw, "external") {
        return Ok(NamedBlocker::Known(BlockerRef::External));
    }
    let (kind, reference) = match split_once(raw, ':') {
        Some(parts) => parts,
        None => {
            return Err(BlockerError::NoKind);
        },
    };
    if reference.as_str().is_empty() {
        return Err(BlockerError::EmptyReference);
    }
    if same(kind.as_str(), "brief") {
        proof {
            reveal_strlit("v");
        }
        let digits = match strip_prefix(reference.as_str(), "v") {
            Some(digits) => digits,
            None => {
                assert(reference@.take(1) =~= seq![reference@[0]]);
                assert("v"@ =~= seq!['v']);
                return Err(BlockerError::BriefForm);
            },
        };
        assert(reference@.take(1) =~= seq![reference@[0]]);
        assert("v"@ =~= seq!['v']);
        assert(reference@[0] == 'v') by {
            assert(reference@.take(1)[0] == "v"@[0]);
        }
        assert(digits@ =~= reference@.drop_first());
        let version: usize = match parse_number(digits.as_str()) {
            Some(number) => if number > usize::MAX as u64 {
                return Err(BlockerError::BriefVersion);
            } else {
                number as usize
            },
            None => {
                return Err(BlockerError::BriefVersion);
            },
        };
        if version == 0 {
            return Err(BlockerError::BriefVersion);
        }
        if version > state.briefs.len() {
            return Err(BlockerError::NoSuchBrief { version });
        }
        Ok(
            NamedBlocker::Known(
                BlockerRef::Brief { brief_event_id: state.briefs[version - 1].event_id.clone() },
            ),
        )
    } else if same(kind.as_str(), "finding") {
        Ok(NamedBlocker::Finding { reference })
    } else if same(kind.as_str(), "change") {
        Ok(NamedBlocker::Change { reference })
    } else {
        Err(BlockerError::UnknownKind)
    }
}

/// Whether `r` is an event that is recorded in the name of the claiming identity.
pub open spec fn is_identity_event(
    ctx: &Ctx,
    event_id: String,
    repository_id: &str,
    change_id: &str,
    created_at: Timestamp,
    identity: &ClaimIdentity,
    payload: Payload,
    r: Event,
) -> bool {
    &&& r.schema_version == SCHEMA_VERSION
    &&& r.event_id == event_id
    &&& r.repository_id@ == repository_id@
    &&& r.change_id@ == change_id@
    &&& r.created_at == created_at
    &&& r.payload == payload
    &&& r.model == ctx.model
    &&& r.actor@ == identity.actor@
    &&& r.harness is Some && r.harness->0@ == identity.harness@
    &&& r.session is Some && r.session->0@ == identity.session@
    &&& r.on_behalf_of == ctx.on_behalf_of
    &&& r.actor_source == Some(ctx.actor_source)
}

/// An event of a claim: recorded in the name of the claiming identity.
pub fn identity_event_at(
    ctx: &Ctx,
    event_id: String,
    repository_id: &str,
    change_id: &str,
    created_at: Timestamp,
    identity: &ClaimIdentity,
    payload: Payload,
) -> (r: Event)
    ensures
        is_identity_event(
            ctx,
            event_id,
            repository_id,
            change_id,
            created_at,
            identity,
            payload,
            r,
        ),
{
    let mut event = ctx.event_at(event_id, repository_id, change_id, created_at, payload);
    event.actor = identity.actor.clone();
    event.harness = Some(identity.harness.clone());
    event.session = Some(identity.session.clone());
    event
}

/// Why nothing is taken.
#[derive(Debug)]
pub enum TakeError {
    Identity(IdentityError),
    Tag(InvalidTag),
    Ttl(DurationError),
}

/// A change that was taken, and what records it.
pub struct Taken {
    /// The position of the change.
    pub change: usize,
    pub owner: ClaimIdentity,
    pub payload: Payload,
}

/// Whether a payload claims a change anew, in place of a claim that it had.
pub open spec fn claims_anew(
    payload: Payload,
    state: ChangeState,
    timing: ClaimTiming,
    ttl_seconds: nat,
    fresh_id: Seq<char>,
) -> bool {
    match payload {
        Payload::ClaimSet { claim_id, ttl_seconds: lives, stage_budgets, displaced } => {
            &&& claim_id@ == fresh_id
            &&& lives == ttl_seconds
            &&& budgets_after(stage_budgets@, Seq::empty())
            &&& match (displaced, state.claim) {
                (Some(displaced), Some(claim)) => displaces(displaced, claim, timing),
                (None, None) => true,
                _ => false,
            }
        },
        _ => false,
    }
}

/// Whether a change is the one that is taken: idle, with every tag, and offered before all others.
pub open spec fn is_offered(
    changes: Seq<ChangeState>,
    timings: Seq<ClaimTiming>,
    tags: Seq<String>,
    best: usize,
) -> bool {
    &&& best < changes.len()
    &&& idle(changes, timings, best as int)
    &&& carries(changes[best as int], tags)
    &&& forall|i: usize|
        i < changes.len() && idle(changes, timings, i as int) && carries(changes[i as int], tags)
            && i != best ==> #[trigger] offered_before(changes)(best, i)
}

/// Whether no idle change carries every tag.
pub open spec fn nothing_offered(
    changes: Seq<ChangeState>,
    timings: Seq<ClaimTiming>,
    tags: Seq<String>,
) -> bool {
    forall|i: int|
        0 <= i < changes.len() ==> !(#[trigger] idle(changes, timings, i) && carries(
            changes[i],
            tags,
        ))
}

/// Whether `taken` is what taking a change with these tags comes to.
pub open spec fn takes(
    taken: Option<Taken>,
    owner: (Seq<char>, Seq<char>, Seq<char>),
    ttl_seconds: nat,
    changes: Seq<ChangeState>,
    timings: Seq<ClaimTiming>,
    tags: Seq<String>,
    fresh_id: Seq<char>,
) -> bool {
    match taken {
        Some(taken) => {
            &&& is_offered(changes, timings, tags, taken.change)
            &&& identity_text(taken.owner) == owner
            &&& claims_anew(
                taken.payload,
                changes[taken.change as int],
                timings[taken.change as int],
                ttl_seconds,
                fresh_id,
            )
        },
        None => nothing_offered(changes, timings, tags),
    }
}

/// Whether `r` answers the request to take a change.
pub open spec fn answers_take(
    ctx: &Ctx,
    tags: &Vec<String>,
    ttl: &Option<String>,
    changes: &Vec<ChangeState>,
    timings: &Vec<ClaimTiming>,
    fresh_id: String,
    r: Result<Option<Taken>, TakeError>,
) -> bool {
    match r {
            Ok(taken) => identity_of(*ctx) is Ok && all_tags(tags@) && ttl_of(*ttl) is Ok
                && exists|normalized: Seq<String>| #[trigger]
                views(normalized) == listed(tagged(tags@)) && takes(
                    taken,
                    identity_of(*ctx)->Ok_0,
                    ttl_of(*ttl)->Ok_0,
                    changes@,
                    timings@,
                    normalized,
                    fresh_id@,
                ),
            Err(TakeError::Identity(error)) => identity_of(*ctx) == Err::<
                (Seq<char>, Seq<char>, Seq<char>),
                IdentityError,
            >(error),
            Err(TakeError::Tag(invalid)) => identity_of(*ctx) is Ok && first_invalid(
                tags@,
                invalid.tag@,
            ),
            Err(TakeError::Ttl(error)) => identity_of(*ctx) is Ok && all_tags(tags@) && ttl_of(*ttl)
                == Err::<nat, DurationError>(error),
        }
}

/// Takes the change that is offered first among those with some tags.
pub fn take(
    ctx: &Ctx,
    tags: &Vec<String>,
    ttl: &Option<String>,
    changes: &Vec<ChangeState>,
    timings: &Vec<ClaimTiming>,
    fresh_id: String,
) -> (r: Result<Option<Taken>, TakeError>)
    requires
        ledger(changes@),
        timings@.len() == changes@.len(),
    ensures
        answers_take(ctx, tags, ttl, changes, timings, fresh_id, r),
{
    let owner = match command_identity(ctx) {
        Ok(owner) => owner,
        Err(error) => {
            return Err(TakeError::Identity(error));
        },
    };
    let tags = match normalize_tags(tags) {
        Ok(tags) => tags,
        Err(invalid) => {
            return Err(TakeError::Tag(invalid));
        },
    };
    let ttl_seconds: u64 = match parse_ttl(ttl) {
        Ok(seconds) => seconds,
        Err(error) => {
            return Err(TakeError::Ttl(error));
        },
    };
    let change: usize = match ready_candidate(changes, &tags, timings) {
        Some(change) => change,
        None => {
            assert(nothing_offered(changes@, timings@, tags@));
            return Ok(None);
        },
    };
    assert(is_offered(changes@, timings@, tags@, change));
    let displaced = match &changes[change].claim {
        Some(claim) => Some(displaced_claim(claim, &timings[change])),
        None => None,
    };
    let payload = Payload::ClaimSet {
        claim_id: fresh_id,
        ttl_seconds,
        stage_budgets: default_stage_budgets(),
        displaced,
    };
    Ok(Some(Taken { change, owner, payload }))
}

/// A command claims under an identity exactly where its actor, its harness and its session all say
/// something, and then under those three without the white space around them.
pub proof fn identities_are_whole(ctx: Ctx)
    ensures
        identity_of(ctx) is Ok <==> trimmed(ctx.actor@).len() > 0 && ctx.harness is Some && trimmed(
            ctx.harness->0@,
        ).len() > 0 && ctx.session is Some && trimmed(ctx.session->0@).len() > 0,
        identity_of(ctx) matches Ok(who) ==> who.0 == trimmed(ctx.actor@) && who.1 == trimmed(
            ctx.harness->0@,
        ) && who.2 == trimmed(ctx.session->0@),
        identity_of(ctx) == Err::<(Seq<char>, Seq<char>, Seq<char>), IdentityError>(
            IdentityError::NoActor,
        ) <==> trimmed(ctx.actor@).len() == 0,
        identity_of(ctx) matches Err(IdentityError::NoSession) ==> ctx.harness is Some,
{
}

/// A claim that nobody gives a lifetime lives two hours, and otherwise as long as was said.
pub proof fn claims_live_as_long_as_said(ttl: Option<String>)
    ensures
        ttl is None ==> ttl_of(ttl) == Ok::<nat, DurationError>(7200nat),
        ttl matches Some(raw) ==> ttl_of(ttl) == duration_of(raw@),
{
}

/// A later budget of a stage wins over an earlier one, and the budget of another stage changes
/// nothing.
pub proof fn later_budgets_win(raws: Seq<String>, raw: String, key: StageBudget)
    ensures
        budget_of(raw@) matches Ok((named, seconds)) ==> budget_after(raws.push(raw), key) == (
        if named == key {
            seconds
        } else {
            budget_after(raws, key)
        }),
        budget_of(raw@) is Err ==> budget_after(raws.push(raw), key) == budget_after(raws, key),
{
    assert(raws.push(raw).drop_last() =~= raws);
}

/// The claim on a change is released exactly where there is one that is live, by anybody who has an
/// identity.
pub proof fn live_claims_are_released(
    ctx: &Ctx,
    state: &ChangeState,
    timing: &ClaimTiming,
    r: Result<ReleaseOutcome, IdentityError>,
)
    requires
        answers_release(ctx, state, timing, r),
    ensures
        r is Ok <==> identity_of(*ctx) is Ok,
        r matches Ok(done) ==> (done is Released <==> state.claim is Some && timing.active),
        r matches Ok(done) ==> (done is NoClaim <==> state.claim is None),
        r matches Ok(ReleaseOutcome::Released { claim_id }) ==> claim_id@
            == state.claim->0.claim_id@,
{
}

/// Only a block has a blocker, and it needs one and a note that says something; any other stage can
/// be set, with a note or without.
pub proof fn blocks_say_what_they_wait_for(
    stage: StageArg,
    note: &Option<String>,
    blocker: &Option<String>,
    r: Result<Option<String>, StageError>,
)
    requires
        checks_stage(stage, note, blocker, r),
    ensures
        stage == StageArg::BlockedOn ==> (r is Ok <==> blocker is Some && note is Some && trimmed(
            note->0@,
        ).len() > 0),
        stage != StageArg::BlockedOn ==> (r is Ok <==> blocker is None),
        r matches Ok(Some(kept)) ==> note is Some && kept@ == trimmed(note->0@),
        r matches Ok(None) ==> note is None || trimmed(note->0@).len() == 0,
{
}

/// A stage goes only under the caller's own live claim. Where a claim may be set on the way, one is
/// set exactly where nobody else holds a live one and the caller has none; and without that leave
/// none ever is.
pub proof fn stages_go_under_own_claims(
    claim: &Option<ClaimState>,
    timing: &ClaimTiming,
    owner: &ClaimIdentity,
    claim_if_needed: bool,
    r: StageStep,
)
    requires
        is_next_step(claim, timing, owner, claim_if_needed, r),
    ensures
        ({
            let mine = *claim matches Some(held) && held.owner.actor@ == owner.actor@
                && held.owner.harness@ == owner.harness@ && held.owner.session@ == owner.session@;
            &&& r is Record <==> mine && timing.active
            &&& r is ClaimFirst <==> claim_if_needed && (claim is None || !timing.active)
            &&& r is HeldByAnother <==> claim_if_needed && claim is Some && timing.active && !mine
            &&& r is NotOwner <==> !claim_if_needed && claim is Some && timing.active && !mine
            &&& r is NoClaim <==> !claim_if_needed && claim is None
            &&& r matches StageStep::Record { claim_id } ==> claim_id@ == claim->0.claim_id@
            &&& r matches StageStep::ClaimFirst { displaced } ==> displaced is Some == claim is Some
        }),
{
}

/// A brief that a block waits for is one of the change's own, counted from one; and a block on
/// something outside says nothing more.
pub proof fn named_briefs_are_of_the_change(
    raw: Seq<char>,
    state: ChangeState,
    r: Result<NamedBlocker, BlockerError>,
)
    requires
        blocker_named(raw, state, r),
    ensures
        raw == "external"@ ==> r == Ok::<NamedBlocker, BlockerError>(
            NamedBlocker::Known(BlockerRef::External),
        ),
        r matches Ok(NamedBlocker::Known(BlockerRef::External)) ==> raw == "external"@,
        r matches Ok(NamedBlocker::Known(BlockerRef::Brief { brief_event_id })) ==> exists|k: int|
            0 <= k < state.briefs@.len() && brief_event_id@ == (
            #[trigger] state.briefs@[k]).event_id@,
        r matches Err(BlockerError::NoSuchBrief { version }) ==> version > state.briefs@.len(),
        raw != "external"@ && !raw.contains(':') ==> r == Err::<NamedBlocker, BlockerError>(
            BlockerError::NoKind,
        ),
{
    let n = first_index(raw, ':');
    lemma_first_index(raw, ':');
    if n < raw.len() {
        assert(raw[n] == ':');
    }
}

/// An event of a claim says who claims, and keeps what it records and whose command it was.
pub proof fn claim_events_name_the_claimant(
    ctx: &Ctx,
    event_id: String,
    repository_id: &str,
    change_id: &str,
    created_at: Timestamp,
    identity: &ClaimIdentity,
    payload: Payload,
    r: Event,
)
    requires
        is_identity_event(
            ctx,
            event_id,
            repository_id,
            change_id,
            created_at,
            identity,
            payload,
            r,
        ),
    ensures
        r.actor@ == identity.actor@,
        r.harness is Some,
        r.harness->0@ == identity.harness@,
        r.session is Some,
        r.session->0@ == identity.session@,
        r.change_id@ == change_id@,
        r.repository_id@ == repository_id@,
        r.payload == payload,
        r.created_at == created_at,
        r.event_id == event_id,
        r.on_behalf_of == ctx.on_behalf_of,
        r.model == ctx.model,
{
}

/// What is taken is open, not held, waits for nothing that is not met, and nobody else is at work
/// on it; it is claimed under the fresh identity, and a claim that it had is named as put aside.
pub proof fn taken_changes_were_free(
    ctx: &Ctx,
    tags: &Vec<String>,
    ttl: &Option<String>,
    changes: &Vec<ChangeState>,
    timings: &Vec<ClaimTiming>,
    fresh_id: String,
    taken: Taken,
    r: Result<Option<Taken>, TakeError>,
)
    requires
        answers_take(ctx, tags, ttl, changes, timings, fresh_id, r),
        r == Ok::<Option<Taken>, TakeError>(Some(taken)),
    ensures
        taken.change < changes@.len(),
        ({
            let state = changes@[taken.change as int];
            let timing = timings@[taken.change as int];
            &&& state.closure is None
            &&& state.holds@.len() == 0
            &&& forall|k: int|
                0 <= k < state.blocked_by@.len() ==> satisfied(
                    changes@,
                    (#[trigger] state.blocked_by@[k])@,
                )
            &&& state.claim is None || !timing.active || timing.stale
            &&& taken.payload matches Payload::ClaimSet { claim_id, displaced, .. } && claim_id@
                == fresh_id@ && displaced is Some == state.claim is Some && (displaced is Some
                ==> displaced->0.claim_id@ == state.claim->0.claim_id@)
            &&& taken.owner.actor@ == trimmed(ctx.actor@)
        }),
{
    let normalized = choose|normalized: Seq<String>| #[trigger]
        views(normalized) == listed(tagged(tags@)) && takes(
            Some(taken),
            identity_of(*ctx)->Ok_0,
            ttl_of(*ttl)->Ok_0,
            changes@,
            timings@,
            normalized,
            fresh_id@,
        );
    assert(is_offered(changes@, timings@, normalized, taken.change));
}

/// A change that carries the tags that were asked for and is free is not passed over: something is
/// taken, and what is taken has no lower a priority.
pub proof fn free_changes_are_taken(
    ctx: &Ctx,
    tags: &Vec<String>,
    ttl: &Option<String>,
    changes: &Vec<ChangeState>,
    timings: &Vec<ClaimTiming>,
    fresh_id: String,
    i: usize,
    r: Result<Option<Taken>, TakeError>,
)
    requires
        answers_take(ctx, tags, ttl, changes, timings, fresh_id, r),
        r is Ok,
        i < changes@.len(),
        changes@[i as int].closure is None,
        changes@[i as int].holds@.len() == 0,
        changes@[i as int].claim is None,
        changes@[i as int].blocked_by@.len() == 0,
        forall|k: int|
            0 <= k < tags@.len() ==> among(
                changes@[i as int].tags@,
                trimmed((#[trigger] tags@[k])@),
            ),
    ensures
        r->Ok_0 is Some,
        changes@[(r->Ok_0)->0.change as int].priority >= changes@[i as int].priority,
{
    let taken = r->Ok_0;
    let normalized = choose|normalized: Seq<String>| #[trigger]
        views(normalized) == listed(tagged(tags@)) && takes(
            taken,
            identity_of(*ctx)->Ok_0,
            ttl_of(*ttl)->Ok_0,
            changes@,
            timings@,
            normalized,
            fresh_id@,
        );
    normal_tags_are_the_tags(tags@);
    assert forall|k: int| 0 <= k < normalized.len() implies among(
        changes@[i as int].tags@,
        (#[trigger] normalized[k])@,
    ) by {
        let x = normalized[k]@;
        assert(views(normalized)[k] == x);
        assert(normal_tags(tags@).contains(x));
        let j = choose|j: int| 0 <= j < tags@.len() && trimmed((#[trigger] tags@[j])@) == x;
        assert(among(changes@[i as int].tags@, trimmed(tags@[j]@)));
    }
    assert(idle(changes@, timings@, i as int));
    assert(carries(changes@[i as int], normalized));
    if let Some(taken) = taken {
        if taken.change != i {
            assert(offered_before(changes@)(taken.change, i));
        }
    }
}

/// A budget is given to a stage under the name that the stage has.
pub proof fn stages_are_budgeted_under_their_names()
    ensures
        budget_named(stage_text(ClaimStage::Started)) == Some(StageBudget::Started),
        budget_named(stage_text(ClaimStage::SpecRead)) == Some(StageBudget::SpecRead),
        budget_named(stage_text(ClaimStage::Implementing)) == Some(StageBudget::Implementing),
        budget_named(stage_text(ClaimStage::Verifying)) == Some(StageBudget::Verifying),
        budget_named(stage_text(ClaimStage::BlockedOn)) == Some(StageBudget::BlockedOn),
        budget_named(stage_text(ClaimStage::Snapshotted)) == Some(StageBudget::Snapshotted),
{
    reveal_strlit("launch");
    reveal_strlit("started");
    reveal_strlit("spec-read");
    reveal_strlit("implementing");
    reveal_strlit("verifying");
    reveal_strlit("blocked-on");
    reveal_strlit("snapshotted");
    assert("launch"@.len() == 6 && "started"@.len() == 7 && "spec-read"@.len() == 9
        && "implementing"@.len() == 12 && "verifying"@.len() == 9 && "blocked-on"@.len() == 10
        && "snapshotted"@.len() == 11);
    assert("spec-read"@[0] == 's' && "verifying"@[0] == 'v');
}

} // verus!
