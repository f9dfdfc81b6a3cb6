//! What each identity contributed: patchsets, verdicts and the rework its patchsets caused.
use crate::event::{Event, Payload};
use crate::order::{count, lemma_total_grows, total};
use crate::rework::{adds, completed, derive_rework, rounds_no_more_than_events};
use crate::table::{ascending, insert_name, lemma_views_listed, listed};
use crate::text::{among, blank, is_blank, same, views};
use vstd::prelude::*;

verus! {

/// The format of figures by identity that are written as JSON.
pub const STATS_BY_MODEL_SCHEMA: &'static str = "arc-stats-by-model/1";

/// The row of contributions for which no subject was recorded.
pub const UNATTRIBUTED: &'static str = "(unattributed)";

/// The subject that an event is attributed to: the one it was recorded on behalf of.
pub open spec fn subject_text(event: Event) -> Seq<char> {
    match event.on_behalf_of {
        Some(subject) => if blank(subject@) {
            UNATTRIBUTED@
        } else {
            subject@
        },
        None => UNATTRIBUTED@,
    }
}

/// The subject that an event is attributed to.
pub fn subject(event: &Event) -> (r: &str)
    ensures
        r@ == subject_text(*event),
{
    match &event.on_behalf_of {
        Some(subject) => if is_blank(subject.as_str()) {
            UNATTRIBUTED
        } else {
            subject.as_str()
        },
        None => UNATTRIBUTED,
    }
}

/// Whether an event is a contribution of an identity.
pub open spec fn contributes(identity: Seq<char>) -> spec_fn(Event) -> bool {
    |event: Event| subject_text(event) == identity
}

/// Whether an event is a patchset of an identity.
pub open spec fn snapshots(identity: Seq<char>) -> spec_fn(Event) -> bool {
    |event: Event| subject_text(event) == identity && event.payload is PatchsetAdded
}

/// Whether an event is a verdict of an identity, before integration or after.
pub open spec fn judges(identity: Seq<char>) -> spec_fn(Event) -> bool {
    |event: Event|
        subject_text(event) == identity && (event.payload is VerdictRecorded
            || event.payload is AuditVerdictRecorded)
}

/// The subject of the last event that adds a patchset.
pub open spec fn patchset_subject(events: Seq<Event>, id: Seq<char>) -> Seq<char>
    decreases events.len(),
{
    if events.len() == 0 {
        UNATTRIBUTED@
    } else if adds(events.last(), id) {
        subject_text(events.last())
    } else {
        patchset_subject(events.drop_last(), id)
    }
}

/// Whether a patchset is attributed to an identity.
pub open spec fn authored(events: Seq<Event>, identity: Seq<char>) -> spec_fn(Seq<char>) -> bool {
    |id: Seq<char>| patchset_subject(events, id) == identity
}

/// How many completed rounds the patchsets of an identity caused in one history.
pub open spec fn rounds_caused(events: Seq<Event>, identity: Seq<char>) -> nat {
    count(listed(completed(events)), authored(events, identity))
}

/// Whether an identity has a row: it contributed an event, or caused a completed round.
pub open spec fn appears(histories: Seq<Vec<Event>>) -> spec_fn(Seq<char>) -> bool {
    |identity: Seq<char>|
        exists|h: int|
            0 <= h < histories.len() && appears_in((#[trigger] histories[h])@, identity)
}

/// Whether an identity has a row on account of one history.
pub open spec fn appears_in(events: Seq<Event>, identity: Seq<char>) -> bool {
    ||| exists|i: int| 0 <= i < events.len() && subject_text(#[trigger] events[i]) == identity
    ||| exists|id: Seq<char>| #[trigger]
        completed(events)(id) && patchset_subject(events, id) == identity
}

/// One identity's contribution over some histories.
#[derive(Debug)]
pub struct ModelStats {
    pub identity: String,
    pub changes: usize,
    pub patchsets: usize,
    pub rework_rounds_caused: usize,
    pub verdicts: usize,
}

impl ModelStats {
    /// What this says of its identity over some histories.
    pub open spec fn measures(self, histories: Seq<Vec<Event>>) -> bool {
        let who = self.identity@;
        &&& self.changes == count(histories, |h: Vec<Event>| count(h@, contributes(who)) > 0)
        &&& self.patchsets == total(histories, |h: Vec<Event>| count(h@, snapshots(who)))
        &&& self.rework_rounds_caused == total(histories, |h: Vec<Event>| rounds_caused(h@, who))
        &&& self.verdicts == total(histories, |h: Vec<Event>| count(h@, judges(who)))
    }
}

/// How many events there are in all.
pub open spec fn event_total(histories: Seq<Vec<Event>>) -> nat {
    total(histories, |h: Vec<Event>| h@.len())
}

fn find_patchset_subject<'a>(events: &'a Vec<Event>, id: &str) -> (r: &'a str)
    ensures
        r@ == patchset_subject(events@, id@),
{
    let mut n: usize = events.len();
    assert(events@.take(n as int) =~= events@);
    while n > 0
        invariant
            n <= events@.len(),
            patchset_subject(events@.take(n as int), id@) == patchset_subject(events@, id@),
        decreases n,
    {
        let ghost upto = events@.take(n as int);
        assert(upto.last() == events@[n - 1]);
        assert(upto.drop_last() =~= events@.take(n - 1));
        let event = &events[n - 1];
        if let Payload::PatchsetAdded { patchset_id, .. } = &event.payload {
            if same(patchset_id.as_str(), id) {
                return subject(event);
            }
        }
        n -= 1;
    }
    UNATTRIBUTED
}

/// The counts of one identity in one history: contributions, patchsets, verdicts and rounds
/// caused.
fn count_in(events: &Vec<Event>, identity: &str) -> (r: (usize, usize, usize, usize))
    ensures
        r.0 == count(events@, contributes(identity@)),
        r.1 == count(events@, snapshots(identity@)),
        r.2 == count(events@, judges(identity@)),
        r.3 == rounds_caused(events@, identity@),
        r.1 <= events@.len(),
        r.2 <= events@.len(),
        r.3 <= events@.len(),
{
    let total: usize = events.len();
    let mut touched: usize = 0;
    let mut patchsets: usize = 0;
    let mut verdicts: usize = 0;
    assert(events@.take(0) =~= Seq::<Event>::empty());
    for i in 0..total
        invariant
            total == events@.len(),
            touched == count(events@.take(i as int), contributes(identity@)),
            patchsets == count(events@.take(i as int), snapshots(identity@)),
            verdicts == count(events@.take(i as int), judges(identity@)),
            touched <= i,
            patchsets <= i,
            verdicts <= i,
    {
        assert(events@.take(i + 1).drop_last() =~= events@.take(i as int));
        let event = &events[i];
        if same(subject(event), identity) {
            touched += 1;
            match &event.payload {
                Payload::PatchsetAdded { .. } => {
                    patchsets += 1;
                },
                Payload::VerdictRecorded { .. } => {
                    verdicts += 1;
                },
                Payload::AuditVerdictRecorded { .. } => {
                    verdicts += 1;
                },
                _ => {},
            }
        }
    }
    assert(events@.take(events@.len() as int) =~= events@);
    let rework = derive_rework(events);
    let ids = &rework.reworked_patchsets;
    proof {
        rounds_no_more_than_events(events@, ids@);
    }
    let ghost all = views(ids@);
    let mut rounds: usize = 0;
    assert(all.take(0) =~= Seq::<Seq<char>>::empty());
    for k in 0..ids.len()
        invariant
            all == views(ids@),
            rounds == count(all.take(k as int), authored(events@, identity@)),
            rounds <= k,
    {
        assert(all.take(k + 1).drop_last() =~= all.take(k as int));
        if same(find_patchset_subject(events, ids[k].as_str()), identity) {
            rounds += 1;
        }
    }
    assert(all.take(all.len() as int) =~= all);
    (touched, patchsets, verdicts, rounds)
}

/// The identities that have a row, in ascending order.
fn identities(histories: &Vec<Vec<Event>>) -> (r: Vec<String>)
    ensures
        ascending(views(r@)),
        forall|x: Seq<char>| #[trigger] among(r@, x) <==> appears(histories@)(x),
{
    let mut out: Vec<String> = Vec::new();
    for h in 0..histories.len()
        invariant
            ascending(views(out@)),
            forall|x: Seq<char>| #[trigger]
                among(out@, x) <==> exists|g: int|
                    0 <= g < h && appears_in((#[trigger] histories@[g])@, x),
    {
        let events = &histories[h];
        let ghost before_out = out@;
        for i in 0..events.len()
            invariant
                ascending(views(out@)),
                forall|x: Seq<char>| #[trigger]
                    among(out@, x) <==> among(before_out, x) || exists|k: int|
                        0 <= k < i && subject_text(#[trigger] events@[k]) == x,
        {
            insert_name(&mut out, subject(&events[i]));
            assert(subject_text(events@[i as int]) == subject_text(events@[i as int]));
        }
        let ghost middle = out@;
        let rework = derive_rework(events);
        let ids = &rework.reworked_patchsets;
        for k in 0..ids.len()
            invariant
                ascending(views(out@)),
                forall|x: Seq<char>| #[trigger]
                    among(out@, x) <==> among(middle, x) || exists|m: int|
                        0 <= m < k && patchset_subject(events@, (#[trigger] ids@[m])@) == x,
        {
            insert_name(&mut out, find_patchset_subject(events, ids[k].as_str()));
        }
        proof {
            assert forall|x: Seq<char>| #[trigger] among(out@, x) <==> exists|g: int|
                0 <= g < h + 1 && appears_in((#[trigger] histories@[g])@, x) by {
                assert(among(middle, x) <==> among(before_out, x) || exists|k: int|
                    0 <= k < events@.len() && subject_text(#[trigger] events@[k]) == x);
                if exists|m: int|
                    0 <= m < ids@.len() && patchset_subject(events@, (#[trigger] ids@[m])@) == x {
                    let m = choose|m: int|
                        0 <= m < ids@.len() && patchset_subject(events@, (#[trigger] ids@[m])@)
                            == x;
                    assert(among(ids@, ids@[m]@));
                    assert(completed(events@)(ids@[m]@));
                    assert(appears_in(histories@[h as int]@, x));
                }
                if appears_in(events@, x) {
                    if exists|id: Seq<char>| #[trigger]
                        completed(events@)(id) && patchset_subject(events@, id) == x {
                        let id = choose|id: Seq<char>| #[trigger]
                            completed(events@)(id) && patchset_subject(events@, id) == x;
                        assert(among(ids@, id));
                        let m = choose|m: int| 0 <= m < ids@.len() && #[trigger] ids@[m]@ == id;
                        assert(patchset_subject(events@, ids@[m]@) == x);
                    }
                }
                if among(before_out, x) {
                    let g = choose|g: int|
                        0 <= g < h && appears_in((#[trigger] histories@[g])@, x);
                    assert(0 <= g < h + 1 && appears_in(histories@[g]@, x));
                }
                if exists|g: int| 0 <= g < h + 1 && appears_in((#[trigger] histories@[g])@, x) {
                    let g = choose|g: int|
                        0 <= g < h + 1 && appears_in((#[trigger] histories@[g])@, x);
                    if g < h {
                        assert(among(before_out, x));
                    }
                }
                assert(histories@[h as int]@ == events@);
            }
        }
    }
    out
}

fn measure(histories: &Vec<Vec<Event>>, identity: &str) -> (r: ModelStats)
    requires
        event_total(histories@) <= usize::MAX,
    ensures
        r.identity@ == identity@,
        r.measures(histories@),
{
    let mut changes: usize = 0;
    let mut patchsets: usize = 0;
    let mut verdicts: usize = 0;
    let mut rounds: usize = 0;
    let ghost who = identity@;
    let ghost touched_by = |h: Vec<Event>| count(h@, contributes(who)) > 0;
    let ghost patchset_worth = |h: Vec<Event>| count(h@, snapshots(who));
    let ghost verdict_worth = |h: Vec<Event>| count(h@, judges(who));
    let ghost round_worth = |h: Vec<Event>| rounds_caused(h@, who);
    let ghost length = |h: Vec<Event>| h@.len();
    assert(histories@.take(0) =~= Seq::<Vec<Event>>::empty());
    for h in 0..histories.len()
        invariant
            who == identity@,
            event_total(histories@) <= usize::MAX,
            touched_by == (|h: Vec<Event>| count(h@, contributes(who)) > 0),
            patchset_worth == (|h: Vec<Event>| count(h@, snapshots(who))),
            verdict_worth == (|h: Vec<Event>| count(h@, judges(who))),
            round_worth == (|h: Vec<Event>| rounds_caused(h@, who)),
            length == (|h: Vec<Event>| h@.len()),
            changes == count(histories@.take(h as int), touched_by),
            patchsets == total(histories@.take(h as int), patchset_worth),
            verdicts == total(histories@.take(h as int), verdict_worth),
            rounds == total(histories@.take(h as int), round_worth),
            changes <= h,
            patchsets <= total(histories@.take(h as int), length),
            verdicts <= total(histories@.take(h as int), length),
            rounds <= total(histories@.take(h as int), length),
    {
        proof {
            assert(histories@.take(h + 1).drop_last() =~= histories@.take(h as int));
            lemma_total_grows(histories@, length, h + 1);
        }
        let (touched, more_patchsets, more_verdicts, more_rounds) = count_in(
            &histories[h],
            identity,
        );
        if touched > 0 {
            changes += 1;
        }
        patchsets += more_patchsets;
        verdicts += more_verdicts;
        rounds += more_rounds;
    }
    assert(histories@.take(histories@.len() as int) =~= histories@);
    ModelStats {
        identity: identity.to_string(),
        changes,
        patchsets,
        rework_rounds_caused: rounds,
        verdicts,
    }
}

/// What each identity contributed over some histories, by identity. A completed round is charged
/// to the identity whose patchset was sent back, not to the one that answered it.
pub fn by_model(histories: &Vec<Vec<Event>>) -> (r: Vec<ModelStats>)
    requires
        event_total(histories@) <= usize::MAX,
    ensures
        Seq::new(r@.len(), |k: int| r@[k].identity@) == listed(appears(histories@)),
        forall|k: int| 0 <= k < r@.len() ==> (#[trigger] r@[k]).measures(histories@),
{
    let names = identities(histories);
    let mut out: Vec<ModelStats> = Vec::new();
    for k in 0..names.len()
        invariant
            event_total(histories@) <= usize::MAX,
            out@.len() == k,
            forall|m: int| 0 <= m < k ==> (#[trigger] out@[m]).measures(histories@),
            forall|m: int| 0 <= m < k ==> (#[trigger] out@[m]).identity@ == names@[m]@,
    {
        out.push(measure(histories, names[k].as_str()));
    }
    proof {
        lemma_views_listed(names@, appears(histories@));
        assert(Seq::new(out@.len(), |k: int| out@[k].identity@) =~= views(names@));
    }
    out
}

/// A contribution belongs to whoever it was recorded on behalf of, and to nobody where that is not
/// said: never to whoever recorded it.
pub proof fn contributions_belong_to_their_subject(event: Event)
    ensures
        event.on_behalf_of matches Some(subject) ==> (!blank(subject@) ==> subject_text(event)
            == subject@) && (blank(subject@) ==> subject_text(event) == "(unattributed)"@),
        event.on_behalf_of is None ==> subject_text(event) == "(unattributed)"@,
{
}

/// A verdict counts for its identity whether it was given before integration or after, and a
/// snapshot counts as one; nothing else does.
pub proof fn verdicts_count_before_and_after(event: Event, identity: Seq<char>)
    ensures
        judges(identity)(event) <==> subject_text(event) == identity && (
        event.payload is VerdictRecorded || event.payload is AuditVerdictRecorded),
        snapshots(identity)(event) <==> subject_text(event) == identity
            && event.payload is PatchsetAdded,
        judges(identity)(event) || snapshots(identity)(event) ==> contributes(identity)(event),
{
}

/// A patchset belongs to the subject of the event that added it last.
pub proof fn patchsets_belong_to_who_added_them(events: Seq<Event>, id: Seq<char>, i: int)
    requires
        0 <= i < events.len(),
        events[i].payload matches Payload::PatchsetAdded { patchset_id, .. } && patchset_id@ == id,
        forall|j: int|
            i < j < events.len() ==> !((#[trigger] events[j]).payload matches
                Payload::PatchsetAdded { patchset_id, .. } && patchset_id@ == id),
    ensures
        patchset_subject(events, id) == subject_text(events[i]),
    decreases events.len(),
{
    if i < events.len() - 1 {
        let rest = events.drop_last();
        assert(!(events[events.len() - 1].payload matches Payload::PatchsetAdded { patchset_id, .. }
            && patchset_id@ == id));
        assert forall|j: int| i < j < rest.len() implies !((#[trigger] rest[j]).payload matches
            Payload::PatchsetAdded { patchset_id, .. } && patchset_id@ == id) by {
            assert(rest[j] == events[j]);
        }
        patchsets_belong_to_who_added_them(rest, id, i);
    }
}

/// One more event adds to the figures of its own subject, and to no other's.
pub proof fn events_count_for_one_subject(events: Seq<Event>, event: Event, identity: Seq<char>)
    ensures
        count(events.push(event), snapshots(identity)) == count(events, snapshots(identity)) + (
        if subject_text(event) == identity && event.payload is PatchsetAdded {
            1nat
        } else {
            0nat
        }),
        count(events.push(event), judges(identity)) == count(events, judges(identity)) + (
        if subject_text(event) == identity && (event.payload is VerdictRecorded
            || event.payload is AuditVerdictRecorded) {
            1nat
        } else {
            0nat
        }),
{
    assert(events.push(event).drop_last() =~= events);
}

} // verus!
