//! Figures derived from the ledger: durations, rates and percentiles. Nothing here writes.
use crate::event::{Event, Payload};
use crate::model::{
    review_cause_name, review_cause_text, severity_name, severity_text, stage_name, stage_text,
    BlockerRef, ClaimStage, Closure, ReviewCause, Severity, Verdict,
};
use crate::order::{chosen, count, lemma_chosen};
use crate::rework::{adds, requested, requested_patchsets};
use crate::state::FindingState;
use crate::table::{fits, lemma_tallied_within, listed, number_under, tallied, within, Tally};
use crate::text::{same, views};
use crate::time::{
    before, calendar, elapsed, instant, lemma_instant, seconds_between, shifted, shifted_nanos,
    shifted_secs, Timestamp,
};
use vstd::prelude::*;

verus! {

/// Whether an event opens a change.
pub open spec fn opens(event: Event) -> bool {
    event.payload is ChangeOpened
}

/// Whether an event says that its change was integrated.
pub open spec fn integrates(event: Event) -> bool {
    match event.payload {
        Payload::ChangeIntegrated { .. } => true,
        Payload::IntegrationAsserted { .. } => true,
        Payload::ChangeClosed { outcome, .. } => outcome == Closure::Integrated,
        _ => false,
    }
}

/// Whether `i` is the first position at which `wanted` holds of the event.
pub open spec fn first_event(events: Seq<Event>, wanted: spec_fn(Event) -> bool, i: int) -> bool {
    &&& 0 <= i < events.len()
    &&& wanted(events[i])
    &&& forall|k: int| 0 <= k < i ==> !wanted(#[trigger] events[k])
}

/// Whether `seconds` is the time from the opening of a change to its integration, absent where
/// one of the two is.
pub open spec fn is_wall_time(events: Seq<Event>, seconds: Option<u64>) -> bool {
    match seconds {
        Some(seconds) => exists|i: int, j: int|
            first_event(events, |e: Event| opens(e), i) && first_event(
                events,
                |e: Event| integrates(e),
                j,
            ) && seconds == elapsed(
                (#[trigger] events[i]).created_at,
                (#[trigger] events[j]).created_at,
            ),
        None => (forall|i: int| 0 <= i < events.len() ==> !opens(#[trigger] events[i])) || (forall|
            i: int,
        | 0 <= i < events.len() ==> !integrates(#[trigger] events[i])),
    }
}

/// The seconds from the opening of a change to its integration, where there were both.
pub fn wall_time(events: &Vec<Event>) -> (r: Option<u64>)
    ensures
        is_wall_time(events@, r),
{
    let mut opened: Option<usize> = None;
    let mut closed: Option<usize> = None;
    for i in 0..events.len()
        invariant
            match opened {
                Some(k) => first_event(events@, |e: Event| opens(e), k as int),
                None => forall|k: int| 0 <= k < i ==> !opens(#[trigger] events@[k]),
            },
            match closed {
                Some(k) => first_event(events@, |e: Event| integrates(e), k as int),
                None => forall|k: int| 0 <= k < i ==> !integrates(#[trigger] events@[k]),
            },
    {
        if opened.is_none() && matches!(&events[i].payload, Payload::ChangeOpened { .. }) {
            opened = Some(i);
        }
        let integrated = match &events[i].payload {
            Payload::ChangeIntegrated { .. } => true,
            Payload::IntegrationAsserted { .. } => true,
            Payload::ChangeClosed { outcome, .. } => *outcome == Closure::Integrated,
            _ => false,
        };
        if closed.is_none() && integrated {
            closed = Some(i);
        }
    }
    match opened {
        Some(i) => match closed {
            Some(j) => Some(seconds_between(events[i].created_at, events[j].created_at)),
            None => None,
        },
        None => None,
    }
}

/// Whether an event says that what its change holds was merged: by a merge of the ledger's own, by
/// one that was asserted, or by closing the change as integrated.
pub open spec fn says_merged(event: Event) -> bool {
    ||| event.payload is ChangeIntegrated
    ||| event.payload is IntegrationAsserted
    ||| event.payload matches Payload::ChangeClosed { outcome: Closure::Integrated, .. }
}

/// The wall time of a change that was opened and merged, in whichever way, runs from the first
/// event that opened it to the first that says that it was merged.
pub proof fn merged_changes_have_a_wall_time(
    events: Seq<Event>,
    opened: int,
    merged: int,
    seconds: Option<u64>,
)
    requires
        is_wall_time(events, seconds),
        0 <= opened < events.len(),
        events[opened].payload is ChangeOpened,
        forall|k: int| 0 <= k < opened ==> !((#[trigger] events[k]).payload is ChangeOpened),
        0 <= merged < events.len(),
        says_merged(events[merged]),
        forall|k: int| 0 <= k < merged ==> !says_merged(#[trigger] events[k]),
    ensures
        seconds is Some,
        seconds->0 == elapsed(events[opened].created_at, events[merged].created_at),
{
    assert(opens(events[opened]));
    assert(integrates(events[merged]));
    let (i, j) = choose|i: int, j: int|
        first_event(events, |e: Event| opens(e), i) && first_event(
            events,
            |e: Event| integrates(e),
            j,
        ) && seconds->0 == elapsed(
            (#[trigger] events[i]).created_at,
            (#[trigger] events[j]).created_at,
        );
    if i < opened {
        assert(!(events[i].payload is ChangeOpened));
    }
    if opened < i {
        assert(!opens(events[opened]));
    }
    if j < merged {
        assert(!says_merged(events[j]));
    }
    if merged < j {
        assert(!integrates(events[merged]));
    }
}

/// A change that was not opened, or that nothing says was merged, has no wall time: one that was
/// abandoned has none.
pub proof fn unmerged_changes_have_no_wall_time(events: Seq<Event>, seconds: Option<u64>)
    requires
        is_wall_time(events, seconds),
        (forall|k: int| 0 <= k < events.len() ==> !says_merged(#[trigger] events[k])) || (forall|
            k: int,
        |
            0 <= k < events.len() ==> !((#[trigger] events[k]).payload is ChangeOpened)),
    ensures
        seconds is None,
{
    if seconds is Some {
        let (i, j) = choose|i: int, j: int|
            first_event(events, |e: Event| opens(e), i) && first_event(
                events,
                |e: Event| integrates(e),
                j,
            ) && seconds->0 == elapsed(
                (#[trigger] events[i]).created_at,
                (#[trigger] events[j]).created_at,
            );
        assert(events[i].payload is ChangeOpened);
        assert(says_merged(events[j]));
    }
}

/// Where the derivation of stage durations stands after some events.
#[verifier::ext_equal]
pub struct StageFold {
    pub totals: Map<Seq<char>, nat>,
    pub open: Option<(ClaimStage, Timestamp)>,
    pub expiry: Option<Timestamp>,
}

/// The time to live of a claim, read as a signed number of seconds.
pub open spec fn signed_ttl(ttl_seconds: u64) -> int {
    if ttl_seconds <= i64::MAX {
        ttl_seconds as int
    } else {
        ttl_seconds - u64::MAX - 1
    }
}

/// The open stage ends at an instant.
pub open spec fn stage_ended(fold: StageFold, at: Timestamp) -> StageFold {
    match fold.open {
        Some((stage, start)) => StageFold {
            totals: tallied(fold.totals, stage_text(stage), elapsed(start, at)),
            open: None,
            expiry: fold.expiry,
        },
        None => fold,
    }
}

/// The open stage ends with its claim, which nobody released: at the expiry of the claim. A claim
/// that expired before the stage began adds nothing, and without a claim there is nothing to add.
pub open spec fn stage_lapsed(fold: StageFold) -> StageFold {
    match (fold.open, fold.expiry) {
        (Some((stage, start)), Some(expiry)) => StageFold {
            totals: if before(start, expiry) {
                tallied(fold.totals, stage_text(stage), elapsed(start, expiry))
            } else {
                fold.totals
            },
            open: None,
            expiry: fold.expiry,
        },
        _ => StageFold { totals: fold.totals, open: None, expiry: fold.expiry },
    }
}

/// Another claim or stage follows the open stage at an instant: the stage ends there, or with its
/// claim where the claim had expired by then.
pub open spec fn stage_followed(fold: StageFold, at: Timestamp) -> StageFold {
    if fold.expiry is Some && before(fold.expiry->0, at) {
        stage_lapsed(fold)
    } else {
        stage_ended(fold, at)
    }
}

/// What one event adds to the derivation of stage durations.
pub open spec fn stage_step(fold: StageFold, event: Event) -> StageFold {
    match event.payload {
        Payload::ClaimSet { ttl_seconds, .. } => StageFold {
            expiry: Some(
                instant(
                    shifted_secs(event.created_at, signed_ttl(ttl_seconds)),
                    shifted_nanos(event.created_at, signed_ttl(ttl_seconds)),
                ),
            ),
            ..stage_followed(fold, event.created_at)
        },
        Payload::StageSet { stage, .. } => StageFold {
            open: Some((stage, event.created_at)),
            ..stage_followed(fold, event.created_at)
        },
        Payload::ClaimReleased { .. } => stage_ended(fold, event.created_at),
        _ => fold,
    }
}

/// The derivation of stage durations over all events.
pub open spec fn stage_fold(events: Seq<Event>) -> StageFold
    decreases events.len(),
{
    if events.len() == 0 {
        StageFold { totals: Map::empty(), open: None, expiry: None }
    } else {
        stage_step(stage_fold(events.drop_last()), events.last())
    }
}

/// The seconds spent in each stage: from its transition to the release of its claim, or, where
/// nobody released it, to the next transition or claim and no further than the claim's expiry.
pub open spec fn stage_totals(events: Seq<Event>) -> Map<Seq<char>, nat> {
    stage_lapsed(stage_fold(events)).totals
}

/// A stage that is open when its claim is released lasted until the release; one that another claim
/// or stage follows lasted until then, but no longer than its claim; and nothing else that is
/// recorded ends a stage.
pub proof fn stages_last_until_they_end(events: Seq<Event>, event: Event)
    ensures
        ({
            let fold = stage_fold(events);
            let next = stage_fold(events.push(event));
            match fold.open {
                None => next.totals == fold.totals,
                Some((stage, start)) => {
                    &&& event.payload is ClaimReleased ==> next.totals == tallied(
                        fold.totals,
                        stage_text(stage),
                        elapsed(start, event.created_at),
                    ) && next.open is None
                    &&& (event.payload is ClaimSet || event.payload is StageSet) && (fold.expiry
                        is None || !before(fold.expiry->0, event.created_at)) ==> next.totals
                        == tallied(
                        fold.totals,
                        stage_text(stage),
                        elapsed(start, event.created_at),
                    )
                    &&& (event.payload is ClaimSet || event.payload is StageSet) && fold.expiry
                        is Some && before(fold.expiry->0, event.created_at) ==> next.totals == (
                    if before(start, fold.expiry->0) {
                        tallied(fold.totals, stage_text(stage), elapsed(start, fold.expiry->0))
                    } else {
                        fold.totals
                    })
                    &&& !(event.payload is ClaimReleased || event.payload is ClaimSet
                        || event.payload is StageSet) ==> next == fold
                },
            }
        }),
        ({
            let next = stage_fold(events.push(event));
            &&& event.payload matches Payload::StageSet { stage, .. } ==> next.open == Some(
                (stage, event.created_at),
            )
            &&& event.payload is ClaimSet ==> next.open is None && next.expiry is Some
            &&& !(event.payload is ClaimSet) ==> next.expiry == stage_fold(events).expiry
        }),
{
    assert(events.push(event).drop_last() =~= events);
}

/// What is open at the end of a history lasted until its claim ran out, and without a claim it adds
/// nothing.
pub proof fn open_stages_end_with_their_claim(events: Seq<Event>)
    ensures
        ({
            let fold = stage_fold(events);
            stage_totals(events) == (if fold.open is Some && fold.expiry is Some && before(
                (fold.open->0).1,
                fold.expiry->0,
            ) {
                tallied(
                    fold.totals,
                    stage_text((fold.open->0).0),
                    elapsed((fold.open->0).1, fold.expiry->0),
                )
            } else {
                fold.totals
            })
        }),
        events.len() == 0 ==> stage_totals(events) == Map::<Seq<char>, nat>::empty(),
{
}

/// Whether the calendar has the expiry of every claim.
pub open spec fn claims_expire(events: Seq<Event>) -> bool {
    forall|i: int|
        0 <= i < events.len() ==> match (#[trigger] events[i]).payload {
            Payload::ClaimSet { ttl_seconds, .. } => calendar(
                shifted_secs(events[i].created_at, signed_ttl(ttl_seconds)),
                shifted_nanos(events[i].created_at, signed_ttl(ttl_seconds)),
            ),
            _ => true,
        }
}

/// Whether one tally has at least what another has.
spec fn covers(more: Map<Seq<char>, nat>, less: Map<Seq<char>, nat>) -> bool {
    forall|name: Seq<char>| #[trigger]
        less.dom().contains(name) ==> more.dom().contains(name) && less[name] <= more[name]
}

proof fn lemma_fold_grows(events: Seq<Event>, n: int)
    requires
        0 <= n <= events.len(),
    ensures
        covers(stage_fold(events).totals, stage_fold(events.take(n)).totals),
    decreases events.len(),
{
    if n < events.len() {
        lemma_fold_grows(events.drop_last(), n);
        assert(events.drop_last().take(n) =~= events.take(n));
    } else {
        assert(events.take(n) =~= events);
    }
}

/// Ends the open stage at an instant.
fn end_stage(
    totals: &mut Tally,
    open: Option<(ClaimStage, Timestamp)>,
    at: Timestamp,
    Ghost(fold): Ghost<StageFold>,
)
    requires
        old(totals).well_formed(),
        fold.totals == old(totals)@,
        fold.open == open,
        fits(stage_ended(fold, at).totals),
    ensures
        final(totals).well_formed(),
        final(totals)@ == stage_ended(fold, at).totals,
{
    if let Some((stage, start)) = open {
        let seconds: u64 = seconds_between(start, at);
        assert(stage_ended(fold, at).totals.dom().contains(stage_text(stage)));
        totals.tally(stage_name(stage), seconds);
    }
}

/// Ends the open stage with its claim.
fn lapse_stage(
    totals: &mut Tally,
    open: Option<(ClaimStage, Timestamp)>,
    expiry: Option<Timestamp>,
    Ghost(fold): Ghost<StageFold>,
)
    requires
        old(totals).well_formed(),
        fold == (StageFold { totals: old(totals)@, open, expiry }),
        fits(stage_lapsed(fold).totals),
    ensures
        final(totals).well_formed(),
        final(totals)@ == stage_lapsed(fold).totals,
{
    if let Some((stage, start)) = open {
        if let Some(expiry) = expiry {
            if start.is_before(&expiry) {
                let seconds: u64 = seconds_between(start, expiry);
                assert(stage_lapsed(fold).totals.dom().contains(stage_text(stage)));
                totals.tally(stage_name(stage), seconds);
            }
        }
    }
}

/// Ends the open stage where another claim or stage follows it.
fn follow_stage(
    totals: &mut Tally,
    open: Option<(ClaimStage, Timestamp)>,
    expiry: Option<Timestamp>,
    at: Timestamp,
    Ghost(fold): Ghost<StageFold>,
)
    requires
        old(totals).well_formed(),
        fold == (StageFold { totals: old(totals)@, open, expiry }),
        fits(stage_followed(fold, at).totals),
    ensures
        final(totals).well_formed(),
        final(totals)@ == stage_followed(fold, at).totals,
{
    let lapsed = match expiry {
        Some(expiry) => expiry.is_before(&at),
        None => false,
    };
    if lapsed {
        lapse_stage(totals, open, expiry, Ghost(fold));
    } else {
        end_stage(totals, open, at, Ghost(fold));
    }
}

/// The seconds spent in each stage. A claim whose expiry the calendar does not have is not
/// accepted, nor are totals that do not fit.
pub fn stage_durations(events: &Vec<Event>) -> (r: Tally)
    requires
        claims_expire(events@),
        fits(stage_totals(events@)),
    ensures
        r.well_formed(),
        r@ == stage_totals(events@),
{
    let mut totals = Tally::new();
    let mut open: Option<(ClaimStage, Timestamp)> = None;
    let mut expiry: Option<Timestamp> = None;
    assert(events@.take(0) =~= Seq::<Event>::empty());
    for i in 0..events.len()
        invariant
            claims_expire(events@),
            fits(stage_totals(events@)),
            totals.well_formed(),
            stage_fold(events@.take(i as int)) == (StageFold { totals: totals@, open, expiry }),
    {
        let ghost here = events@.take(i as int);
        let ghost next = events@.take(i + 1);
        proof {
            assert(next.drop_last() =~= here);
            assert(next.last() == events@[i as int]);
            lemma_fold_grows(events@, i + 1);
            lemma_fits(events@, next);
        }
        let event = &events[i];
        match &event.payload {
            Payload::ClaimSet { ttl_seconds, .. } => {
                follow_stage(&mut totals, open, expiry, event.created_at, Ghost(stage_fold(here)));
                open = None;
                let ttl: i64 = if *ttl_seconds <= 0x7fff_ffff_ffff_ffff {
                    *ttl_seconds as i64
                } else {
                    -((0xffff_ffff_ffff_ffff - *ttl_seconds) as i64) - 1
                };
                assert(ttl == signed_ttl(*ttl_seconds));
                expiry = shifted(event.created_at, ttl);
                proof {
                    assert(expiry is Some);
                    lemma_instant(expiry->0);
                }
            },
            Payload::StageSet { stage, .. } => {
                follow_stage(&mut totals, open, expiry, event.created_at, Ghost(stage_fold(here)));
                open = Some((*stage, event.created_at));
            },
            Payload::ClaimReleased { .. } => {
                end_stage(&mut totals, open, event.created_at, Ghost(stage_fold(here)));
                open = None;
            },
            _ => {},
        }
    }
    assert(events@.take(events@.len() as int) =~= events@);
    lapse_stage(&mut totals, open, expiry, Ghost(stage_fold(events@)));
    totals
}

proof fn lemma_fits(events: Seq<Event>, next: Seq<Event>)
    requires
        fits(stage_totals(events)),
        covers(stage_fold(events).totals, stage_fold(next).totals),
    ensures
        fits(stage_fold(next).totals),
{
    let all = stage_totals(events);
    let some = stage_fold(events).totals;
    assert forall|name: Seq<char>| #[trigger]
        stage_fold(next).totals.dom().contains(name) implies stage_fold(next).totals[name]
        <= u64::MAX by {
        assert(some.dom().contains(name));
        assert(all.dom().contains(name));
    }
}

/// The patchset that an event gives a verdict on.
pub open spec fn judged_id(event: Event) -> Option<Seq<char>> {
    match event.payload {
        Payload::VerdictRecorded { patchset_id, .. } => Some(patchset_id@),
        _ => None,
    }
}

/// Whether the event at `i` is the first to add the patchset that the event at `j`, after it,
/// gives a verdict on.
pub open spec fn answers(events: Seq<Event>, i: int, j: int) -> bool {
    &&& 0 <= i < j < events.len()
    &&& judged_id(events[j]) is Some
    &&& adds(events[i], judged_id(events[j])->0)
    &&& forall|k: int| 0 <= k < i ==> !adds(#[trigger] events[k], judged_id(events[j])->0)
}

/// Whether `seconds` is the time from a snapshot to the first verdict on any patchset
/// snapshotted before it, absent where there is no such verdict.
pub open spec fn is_review_latency(events: Seq<Event>, seconds: Option<u64>) -> bool {
    match seconds {
        Some(seconds) => exists|i: int, j: int|
            {
                &&& #[trigger] answers(events, i, j)
                &&& forall|k: int, m: int| m < j ==> !#[trigger] answers(events, k, m)
                &&& seconds == elapsed(events[i].created_at, events[j].created_at)
            },
        None => forall|i: int, j: int| !#[trigger] answers(events, i, j),
    }
}

/// The review latency runs from the first snapshot of a patchset to the first verdict on any
/// patchset that was snapshotted before it, whatever the verdict says; a change without such a
/// verdict has none.
pub proof fn latencies_run_to_the_first_verdict(
    events: Seq<Event>,
    added: int,
    judged: int,
    id: Seq<char>,
    seconds: Option<u64>,
)
    requires
        is_review_latency(events, seconds),
        0 <= added < judged < events.len(),
        events[added].payload matches Payload::PatchsetAdded { patchset_id, .. } && patchset_id@
            == id,
        forall|k: int|
            0 <= k < added ==> !((#[trigger] events[k]).payload matches Payload::PatchsetAdded {
                patchset_id,
                ..
            } && patchset_id@ == id),
        events[judged].payload matches Payload::VerdictRecorded { patchset_id, .. }
            && patchset_id@ == id,
        forall|k: int|
            0 <= k < judged ==> !((#[trigger] events[k]).payload is VerdictRecorded),
    ensures
        seconds == Some(elapsed(events[added].created_at, events[judged].created_at) as u64),
{
    assert forall|k: int| 0 <= k < added implies !adds(#[trigger] events[k], id) by {
        assert(!(events[k].payload matches Payload::PatchsetAdded { patchset_id, .. }
            && patchset_id@ == id));
    }
    assert(answers(events, added, judged));
    if let Some(found) = seconds {
        let (i, j) = choose|i: int, j: int|
            {
                &&& #[trigger] answers(events, i, j)
                &&& forall|k: int, m: int| m < j ==> !#[trigger] answers(events, k, m)
                &&& found == elapsed(events[i].created_at, events[j].created_at)
            };
        if j < judged {
            assert(!(events[j].payload is VerdictRecorded));
        }
        if judged < j {
            assert(!answers(events, added, judged));
        }
        if i < added {
            assert(!adds(events[i], id));
        }
        if added < i {
            assert(!adds(events[added], id));
        }
    }
}

/// A change whose patchsets got no verdict has no review latency.
pub proof fn unreviewed_changes_have_no_latency(events: Seq<Event>, seconds: Option<u64>)
    requires
        is_review_latency(events, seconds),
        (forall|k: int|
            0 <= k < events.len() ==> !((#[trigger] events[k]).payload is VerdictRecorded)) || (
        forall|k: int|
            0 <= k < events.len() ==> !((#[trigger] events[k]).payload is PatchsetAdded)),
    ensures
        seconds is None,
{
    if let Some(found) = seconds {
        let (i, j) = choose|i: int, j: int|
            {
                &&& #[trigger] answers(events, i, j)
                &&& forall|k: int, m: int| m < j ==> !#[trigger] answers(events, k, m)
                &&& found == elapsed(events[i].created_at, events[j].created_at)
            };
        assert(events[j].payload is VerdictRecorded);
        assert(events[i].payload is PatchsetAdded);
    }
}

/// The seconds from a snapshot to the first verdict on any patchset snapshotted before it.
pub fn review_latency(events: &Vec<Event>) -> (r: Option<u64>)
    ensures
        is_review_latency(events@, r),
{
    for j in 0..events.len()
        invariant
            forall|k: int, m: int| m < j ==> !#[trigger] answers(events@, k, m),
    {
        if let Payload::VerdictRecorded { patchset_id, .. } = &events[j].payload {
            for i in 0..j
                invariant
                    j < events@.len(),
                    judged_id(events@[j as int]) == Some(patchset_id@),
                    forall|k: int, m: int| m < j ==> !#[trigger] answers(events@, k, m),
                    forall|k: int| 0 <= k < i ==> !adds(#[trigger] events@[k], patchset_id@),
            {
                if let Payload::PatchsetAdded { patchset_id: added, .. } = &events[i].payload {
                    if same(added.as_str(), patchset_id.as_str()) {
                        assert(answers(events@, i as int, j as int));
                        return Some(seconds_between(events[i].created_at, events[j].created_at));
                    }
                }
            }
        }
    }
    None
}

/// Gate name and whole seconds of a run that was observed and timed, and not merely attested.
pub open spec fn observed_run(event: Event) -> Option<(Seq<char>, u64)> {
    match event.payload {
        Payload::VerificationRecorded {
            gate,
            duration_ms,
            attested,
            ..
        } => if gate is Some && duration_ms is Some && !attested {
            Some((gate->0@, (duration_ms->0 / 1000) as u64))
        } else {
            None
        },
        _ => None,
    }
}

/// Whether `r` are the runs of gates that were observed and timed, in ledger order.
pub open spec fn observes_runs(
    events: &Vec<Event>,
    r: Vec<(String, u64)>,
) -> bool {
    ({
            let runs = chosen(events@.len(), |i: int| observed_run(events@[i]) is Some);
            &&& r@.len() == runs.len()
            &&& forall|k: int|
                0 <= k < runs.len() ==> observed_run(events@[runs[k]]) == Some(
                    ((#[trigger] r@[k]).0@, r@[k].1),
                )
        })
}

/// Gate runs that were observed and timed, in ledger order.
pub fn observed_gate_runs(events: &Vec<Event>) -> (r: Vec<(String, u64)>)
    ensures
        observes_runs(events, r),
{
    let mut out: Vec<(String, u64)> = Vec::new();
    let ghost wanted = |i: int| observed_run(events@[i]) is Some;
    for i in 0..events.len()
        invariant
            wanted == (|i: int| observed_run(events@[i]) is Some),
            out@.len() == chosen(i as nat, wanted).len(),
            forall|k: int|
                0 <= k < out@.len() ==> observed_run(events@[chosen(i as nat, wanted)[k]]) == Some(
                    ((#[trigger] out@[k]).0@, out@[k].1),
                ),
    {
        let ghost before_out = out@;
        let ghost picked = chosen(i as nat, wanted);
        if let Payload::VerificationRecorded {
            gate,
            duration_ms,
            attested,
            ..
        } = &events[i].payload {
            if !*attested {
                if let Some(gate) = gate {
                    if let Some(duration_ms) = duration_ms {
                        out.push((gate.clone(), *duration_ms / 1000));
                        assert(chosen((i + 1) as nat, wanted) == picked.push(i as int));
                    }
                }
            }
        }
    }
    out
}

/// Every run of a gate that was run and timed is told, whatever tree it ran on, in whole seconds;
/// a result that was only attested is not, and neither is a run of no gate.
pub proof fn timed_runs_are_told(events: &Vec<Event>, i: int, r: Vec<(String, u64)>)
    requires
        observes_runs(events, r),
        0 <= i < events@.len(),
    ensures
        events@[i].payload matches Payload::VerificationRecorded {
            gate: Some(gate),
            duration_ms: Some(duration),
            attested: false,
            ..
        } ==> exists|k: int|
            0 <= k < r@.len() && (#[trigger] r@[k]).0@ == gate@ && r@[k].1 == duration / 1000,
{
    if let Payload::VerificationRecorded {
        gate: Some(gate),
        duration_ms: Some(duration),
        attested: false,
        ..
    } = events@[i].payload {
        let wanted = |i: int| observed_run(events@[i]) is Some;
        lemma_chosen(events@.len(), wanted);
        let runs = chosen(events@.len(), wanted);
        assert(runs =~= chosen(events@.len(), |i: int| observed_run(events@[i]) is Some));
        assert(wanted(i));
        assert(runs.contains(i));
        let k = choose|k: int| 0 <= k < runs.len() && runs[k] == i;
        assert(observed_run(events@[runs[k]]) == Some((r@[k].0@, r@[k].1)));
    }
}

/// What is told as a run of a gate was recorded as one that was run and timed.
pub proof fn told_runs_were_timed(events: &Vec<Event>, k: int, r: Vec<(String, u64)>)
    requires
        observes_runs(events, r),
        0 <= k < r@.len(),
    ensures
        exists|i: int|
            0 <= i < events@.len() && ((#[trigger] events@[i]).payload matches
                Payload::VerificationRecorded { gate, duration_ms, attested, .. } && gate is Some
                && duration_ms is Some && !attested && gate->0@ == r@[k].0@ && r@[k].1
                == duration_ms->0 / 1000),
{
    let wanted = |i: int| observed_run(events@[i]) is Some;
    lemma_chosen(events@.len(), wanted);
    let runs = chosen(events@.len(), wanted);
    assert(runs =~= chosen(events@.len(), |i: int| observed_run(events@[i]) is Some));
    let i = runs[k];
    assert(0 <= i < events@.len() && wanted(i));
    assert(observed_run(events@[i]) == Some((r@[k].0@, r@[k].1)));
}

/// The kind of what a blocked executor waits for.
pub open spec fn block_kind(event: Event) -> Option<Seq<char>> {
    match event.payload {
        Payload::StageSet { stage, blocker, .. } => if stage == ClaimStage::BlockedOn {
            Some(
                match blocker {
                    Some(BlockerRef::Brief { .. }) => "brief"@,
                    Some(BlockerRef::Finding { .. }) => "finding"@,
                    Some(BlockerRef::Change { .. }) => "change"@,
                    Some(BlockerRef::External) => "external"@,
                    None => "unclassified"@,
                },
            )
        } else {
            None
        },
        _ => None,
    }
}

/// How many blocks of each kind some events record.
pub open spec fn kinds_blocked(events: Seq<Event>) -> Map<Seq<char>, nat>
    decreases events.len(),
{
    if events.len() == 0 {
        Map::empty()
    } else {
        let prior = kinds_blocked(events.drop_last());
        match block_kind(events.last()) {
            Some(kind) => tallied(prior, kind, 1),
            None => prior,
        }
    }
}

proof fn lemma_kinds_bounded(events: Seq<Event>)
    ensures
        within(kinds_blocked(events), events.len()),
    decreases events.len(),
{
    if events.len() > 0 {
        lemma_kinds_bounded(events.drop_last());
        if let Some(kind) = block_kind(events.last()) {
            let prior = kinds_blocked(events.drop_last());
            lemma_tallied_within(prior, kind, 1, (events.len() - 1) as nat);
        }
    }
}

/// How often executors reported a block, by the kind of what they waited for.
pub fn blocks_by_kind(events: &Vec<Event>) -> (r: Tally)
    ensures
        r.well_formed(),
        r@ == kinds_blocked(events@),
{
    let mut blocks = Tally::new();
    assert(events@.take(0) =~= Seq::<Event>::empty());
    let total: usize = events.len();
    for i in 0..total
        invariant
            total == events@.len(),
            blocks.well_formed(),
            blocks@ == kinds_blocked(events@.take(i as int)),
    {
        let ghost next = events@.take(i + 1);
        proof {
            assert(next.drop_last() =~= events@.take(i as int));
            lemma_kinds_bounded(events@.take(i as int));
        }
        if let Payload::StageSet { stage, blocker, .. } = &events[i].payload {
            if *stage == ClaimStage::BlockedOn {
                let kind = match blocker {
                    Some(BlockerRef::Brief { .. }) => "brief",
                    Some(BlockerRef::Finding { .. }) => "finding",
                    Some(BlockerRef::Change { .. }) => "change",
                    Some(BlockerRef::External) => "external",
                    None => "unclassified",
                };
                blocks.tally(kind, 1);
            }
        }
    }
    assert(events@.take(events@.len() as int) =~= events@);
    blocks
}

/// How many findings there are of each severity.
pub open spec fn severities(findings: Seq<FindingState>) -> Map<Seq<char>, nat>
    decreases findings.len(),
{
    if findings.len() == 0 {
        Map::empty()
    } else {
        tallied(severities(findings.drop_last()), severity_text(findings.last().severity), 1)
    }
}

proof fn lemma_severities_bounded(findings: Seq<FindingState>)
    ensures
        within(severities(findings), findings.len()),
    decreases findings.len(),
{
    if findings.len() > 0 {
        lemma_severities_bounded(findings.drop_last());
        lemma_tallied_within(
            severities(findings.drop_last()),
            severity_text(findings.last().severity),
            1,
            (findings.len() - 1) as nat,
        );
    }
}

/// How many findings there are of each severity.
pub fn findings_by_severity(findings: &Vec<FindingState>) -> (r: Tally)
    ensures
        r.well_formed(),
        r@ == severities(findings@),
{
    let mut out = Tally::new();
    assert(findings@.take(0) =~= Seq::<FindingState>::empty());
    let total: usize = findings.len();
    for i in 0..total
        invariant
            total == findings@.len(),
            out.well_formed(),
            out@ == severities(findings@.take(i as int)),
    {
        proof {
            assert(findings@.take(i + 1).drop_last() =~= findings@.take(i as int));
            lemma_severities_bounded(findings@.take(i as int));
        }
        out.tally(severity_name(findings[i].severity), 1);
    }
    assert(findings@.take(findings@.len() as int) =~= findings@);
    out
}

proof fn lemma_severity_names_differ(a: Severity, b: Severity)
    ensures
        severity_text(a) == severity_text(b) <==> a == b,
{
    reveal_strlit("critical");
    reveal_strlit("major");
    reveal_strlit("minor");
    reveal_strlit("note");
    assert("critical"@.len() == 8 && "major"@.len() == 5 && "minor"@.len() == 5 && "note"@.len()
        == 4);
    assert("major"@[1] == 'a' && "minor"@[1] == 'i');
}

/// Under a severity stand as many findings as have it, open or resolved.
pub proof fn findings_count_under_their_severity(findings: Seq<FindingState>, severity: Severity)
    ensures
        number_under(severities(findings), severity_text(severity)) == count(
            findings,
            |f: FindingState| f.severity == severity,
        ),
    decreases findings.len(),
{
    if findings.len() > 0 {
        findings_count_under_their_severity(findings.drop_last(), severity);
        lemma_severity_names_differ(severity, findings.last().severity);
    }
}

/// Under a cause stand as many rounds as have a verdict that asks for changes and cites it.
pub proof fn rounds_count_under_their_causes(
    events: Seq<Event>,
    ids: Seq<Seq<char>>,
    cause: ReviewCause,
)
    ensures
        number_under(rounds_citing(events, ids), review_cause_text(cause)) == count(
            ids,
            |id: Seq<char>|
                exists|i: int|
                    0 <= i < events.len() && ((#[trigger] events[i]).payload matches
                        Payload::VerdictRecorded {
                            patchset_id,
                            verdict: Verdict::ChangesRequested,
                            causes,
                            ..
                        } && patchset_id@ == id && causes@.contains(cause)),
        ),
    decreases ids.len(),
{
    if ids.len() > 0 {
        rounds_count_under_their_causes(events, ids.drop_last(), cause);
        lemma_cause_names_differ();
        let id = ids.last();
        if cites(events, id, cause) {
            let i = choose|i: int|
                0 <= i < events.len() && request_cites(#[trigger] events[i], id, cause);
            assert(events[i].payload matches Payload::VerdictRecorded {
                patchset_id,
                verdict: Verdict::ChangesRequested,
                causes,
                ..
            } && patchset_id@ == id && causes@.contains(cause));
        }
        if exists|i: int|
            0 <= i < events.len() && ((#[trigger] events[i]).payload matches
                Payload::VerdictRecorded {
                    patchset_id,
                    verdict: Verdict::ChangesRequested,
                    causes,
                    ..
                } && patchset_id@ == id && causes@.contains(cause)) {
            let i = choose|i: int|
                0 <= i < events.len() && ((#[trigger] events[i]).payload matches
                    Payload::VerdictRecorded {
                        patchset_id,
                        verdict: Verdict::ChangesRequested,
                        causes,
                        ..
                    } && patchset_id@ == id && causes@.contains(cause));
            assert(request_cites(events[i], id, cause));
        }
    }
}

/// Under a kind stand as many blocks as were reported for it: only a stage that says that it is
/// blocked counts, and one that does not say on what counts as unclassified.
pub proof fn blocks_count_under_their_kind(events: Seq<Event>, name: Seq<char>)
    ensures
        number_under(kinds_blocked(events), name) == count(
            events,
            |e: Event|
                e.payload matches Payload::StageSet { stage: ClaimStage::BlockedOn, blocker, .. }
                    && name == (match blocker {
                    Some(BlockerRef::Brief { .. }) => "brief"@,
                    Some(BlockerRef::Finding { .. }) => "finding"@,
                    Some(BlockerRef::Change { .. }) => "change"@,
                    Some(BlockerRef::External) => "external"@,
                    None => "unclassified"@,
                }),
        ),
    decreases events.len(),
{
    if events.len() > 0 {
        blocks_count_under_their_kind(events.drop_last(), name);
    }
}

/// Whether a verdict that sent a patchset back cites a cause.
pub open spec fn cites(events: Seq<Event>, id: Seq<char>, cause: ReviewCause) -> bool {
    exists|i: int| 0 <= i < events.len() && request_cites(#[trigger] events[i], id, cause)
}

/// Whether an event sends a patchset back for a cause.
pub open spec fn request_cites(event: Event, id: Seq<char>, cause: ReviewCause) -> bool {
    match event.payload {
        Payload::VerdictRecorded { patchset_id, verdict, causes, .. } => patchset_id@ == id
            && verdict == Verdict::ChangesRequested && causes@.contains(cause),
        _ => false,
    }
}

/// A tally with one more round under a cause that the round cites.
pub open spec fn with_cause(
    m: Map<Seq<char>, nat>,
    events: Seq<Event>,
    id: Seq<char>,
    cause: ReviewCause,
) -> Map<Seq<char>, nat> {
    if cites(events, id, cause) {
        tallied(m, review_cause_text(cause), 1)
    } else {
        m
    }
}

/// How many of the rounds cite each cause; a round that cites two counts under both.
pub open spec fn rounds_citing(events: Seq<Event>, ids: Seq<Seq<char>>) -> Map<Seq<char>, nat>
    decreases ids.len(),
{
    if ids.len() == 0 {
        Map::empty()
    } else {
        let prior = rounds_citing(events, ids.drop_last());
        let a = with_cause(prior, events, ids.last(), ReviewCause::Brief);
        let b = with_cause(a, events, ids.last(), ReviewCause::Executor);
        with_cause(b, events, ids.last(), ReviewCause::IntegrationStaleness)
    }
}

proof fn lemma_rounds_bounded(events: Seq<Event>, ids: Seq<Seq<char>>)
    ensures
        within(rounds_citing(events, ids), ids.len()),
    decreases ids.len(),
{
    if ids.len() > 0 {
        lemma_rounds_bounded(events, ids.drop_last());
        lemma_cause_names_differ();
        let prior = rounds_citing(events, ids.drop_last());
        let after = rounds_citing(events, ids);
        assert forall|name: Seq<char>| #[trigger] number_under(after, name) <= ids.len() by {
            assert(number_under(prior, name) <= ids.len() - 1);
        }
    }
}

proof fn lemma_cause_names_differ()
    ensures
        review_cause_text(ReviewCause::Brief) != review_cause_text(ReviewCause::Executor),
        review_cause_text(ReviewCause::Brief) != review_cause_text(
            ReviewCause::IntegrationStaleness,
        ),
        review_cause_text(ReviewCause::Executor) != review_cause_text(
            ReviewCause::IntegrationStaleness,
        ),
{
    reveal_strlit("brief");
    reveal_strlit("executor");
    reveal_strlit("integration-staleness");
    assert("brief"@.len() == 5);
    assert("executor"@.len() == 8);
    assert("integration-staleness"@.len() == 21);
}

fn does_cite(events: &Vec<Event>, id: &str, cause: ReviewCause) -> (r: bool)
    ensures
        r == cites(events@, id@, cause),
{
    for i in 0..events.len()
        invariant
            forall|k: int| 0 <= k < i ==> !request_cites(#[trigger] events@[k], id@, cause),
    {
        if let Payload::VerdictRecorded { patchset_id, verdict, causes, .. } = &events[i].payload {
            if same(patchset_id.as_str(), id) && *verdict == Verdict::ChangesRequested {
                for k in 0..causes.len()
                    invariant
                        forall|m: int| 0 <= m < k ==> #[trigger] causes@[m] != cause,
                        i < events@.len(),
                        events@[i as int].payload matches Payload::VerdictRecorded {
                            patchset_id: p,
                            verdict: v,
                            causes: c,
                            ..
                        } && p@ == id@ && v == Verdict::ChangesRequested && c == *causes,
                {
                    if causes[k] == cause {
                        assert(request_cites(events@[i as int], id@, cause));
                        return true;
                    }
                }
            }
        }
    }
    false
}

/// How many rounds cite each cause. A cause repeated in several verdicts of one round counts
/// once.
pub fn review_rounds_by_cause(events: &Vec<Event>) -> (r: Tally)
    ensures
        r.well_formed(),
        r@ == rounds_citing(events@, listed(requested(events@))),
{
    let ids = requested_patchsets(events);
    let mut rounds = Tally::new();
    assert(views(ids@).take(0) =~= Seq::<Seq<char>>::empty());
    let total: usize = ids.len();
    for i in 0..total
        invariant
            total == ids@.len(),
            rounds.well_formed(),
            rounds@ == rounds_citing(events@, views(ids@).take(i as int)),
    {
        let ghost prior = views(ids@).take(i as int);
        let ghost next = views(ids@).take(i + 1);
        proof {
            assert(next.drop_last() =~= prior);
            assert(next.last() == ids@[i as int]@);
            lemma_rounds_bounded(events@, prior);
            lemma_cause_names_differ();
            assert(number_under(rounds@, review_cause_text(ReviewCause::Brief)) <= i);
            assert(number_under(rounds@, review_cause_text(ReviewCause::Executor)) <= i);
            assert(number_under(rounds@, review_cause_text(ReviewCause::IntegrationStaleness))
                <= i);
        }
        let id = ids[i].as_str();
        if does_cite(events, id, ReviewCause::Brief) {
            rounds.tally(review_cause_name(ReviewCause::Brief), 1);
        }
        if does_cite(events, id, ReviewCause::Executor) {
            rounds.tally(review_cause_name(ReviewCause::Executor), 1);
        }
        if does_cite(events, id, ReviewCause::IntegrationStaleness) {
            rounds.tally(review_cause_name(ReviewCause::IntegrationStaleness), 1);
        }
    }
    assert(views(ids@).take(ids@.len() as int) =~= views(ids@));
    rounds
}

/// A claim runs out as many seconds after it was set as it was given.
pub proof fn claims_run_out_after_their_time(events: Seq<Event>, event: Event, ttl: u64)
    requires
        event.payload matches Payload::ClaimSet { ttl_seconds, .. } && ttl_seconds == ttl,
        ttl <= i64::MAX,
        event.created_at.nanos() < 1_000_000_000,
    ensures
        stage_fold(events.push(event)).expiry == Some(
            instant(event.created_at.secs() + ttl, event.created_at.nanos()),
        ),
{
    assert(events.push(event).drop_last() =~= events);
}

} // verus!
