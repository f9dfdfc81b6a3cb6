//! Taking the events of a bundle into a ledger.
use crate::bundle::{event_file_bytes, field, file_bytes, EventField, PatchsetObject};
use crate::context::{append_allowed, AppendPermission};
use crate::event::{Event, Payload};
use crate::json::{equal_json, get_string, json_equal, json_of_bytes, plain, read_json_bytes};
use crate::model::Closure;
use crate::order::{
    chosen, in_order, ints, lemma_chosen, lemma_ints_contain, sort_positions, strict_order,
};
use crate::table::{
    ascending, find_place, lemma_insert_ascending, lemma_one_place, lemma_views_contain, Place,
};
use crate::text::{
    among, contains, decimal, decimal_of, lemma_precedes_irreflexive, lemma_precedes_total,
    lemma_precedes_transitive, less, precedes, same, views,
};
use vstd::prelude::*;

verus! {

/// Where an event of a bundle stands in the ledger that takes it.
#[derive(Clone, Copy, Debug, PartialEq, Eq, Structural)]
pub enum EventStanding {
    New,
    /// The ledger has it already.
    Held,
    /// The ledger has something else under its identity.
    Conflict,
}

/// Where an event of a bundle stands, from the bytes that the ledger has under its identity.
pub open spec fn standing(stored: Option<Vec<u8>>, value: serde_json::Value) -> EventStanding {
    match stored {
        None => EventStanding::New,
        Some(bytes) => match json_of_bytes(bytes@) {
            Some(held) => if json_equal(held, value) {
                EventStanding::Held
            } else {
                EventStanding::Conflict
            },
            None => EventStanding::Conflict,
        },
    }
}

/// Whether a ledger holds the very bytes that taking an event writes.
pub open spec fn written(stored: Option<Vec<u8>>, value: serde_json::Value) -> bool {
    stored is Some && stored->0@ == file_bytes(value)
}

/// Where an event of a bundle stands. What taking it wrote is recognized: an event that was taken
/// is held.
pub fn event_standing(stored: &Option<Vec<u8>>, value: &serde_json::Value) -> (r: EventStanding)
    ensures
        r == standing(*stored, *value),
        written(*stored, *value) && plain(*value) ==> r == EventStanding::Held,
{
    match stored {
        None => EventStanding::New,
        Some(bytes) => match read_json_bytes(bytes) {
            Some(held) => if equal_json(&held, value) {
                EventStanding::Held
            } else {
                EventStanding::Conflict
            },
            None => EventStanding::Conflict,
        },
    }
}

/// What becomes of the events of a bundle.
pub struct ImportEventPlan {
    pub new_events: Vec<String>,
    pub skipped_events: Vec<String>,
    pub conflicts: Vec<String>,
}

/// The identities of the first `n` events that stand in one way.
pub open spec fn standing_so(
    ids: Seq<String>,
    standings: Seq<EventStanding>,
    wanted: EventStanding,
    n: int,
) -> Seq<Seq<char>>
    decreases n,
{
    if n <= 0 {
        Seq::empty()
    } else if standings[n - 1] == wanted {
        standing_so(ids, standings, wanted, n - 1).push(ids[n - 1]@)
    } else {
        standing_so(ids, standings, wanted, n - 1)
    }
}

/// Whether a plan follows from where the events stand.
pub open spec fn plans_import(
    plan: ImportEventPlan,
    ids: Seq<String>,
    standings: Seq<EventStanding>,
) -> bool {
    let n = ids.len() as int;
    &&& views(plan.new_events@) == standing_so(ids, standings, EventStanding::New, n)
    &&& views(plan.skipped_events@) == standing_so(ids, standings, EventStanding::Held, n)
    &&& views(plan.conflicts@) == standing_so(ids, standings, EventStanding::Conflict, n)
}

/// What becomes of events, from where they stand.
pub fn plan_import(ids: &Vec<String>, standings: &Vec<EventStanding>) -> (r: ImportEventPlan)
    requires
        standings@.len() == ids@.len(),
    ensures
        plans_import(r, ids@, standings@),
{
    let mut new_events: Vec<String> = Vec::new();
    let mut skipped_events: Vec<String> = Vec::new();
    let mut conflicts: Vec<String> = Vec::new();
    let ghost none = Seq::<Seq<char>>::empty();
    assert(views(new_events@) =~= none);
    assert(views(skipped_events@) =~= none);
    assert(views(conflicts@) =~= none);
    for i in 0..ids.len()
        invariant
            standings@.len() == ids@.len(),
            views(new_events@) == standing_so(ids@, standings@, EventStanding::New, i as int),
            views(skipped_events@) == standing_so(ids@, standings@, EventStanding::Held, i as int),
            views(conflicts@) == standing_so(ids@, standings@, EventStanding::Conflict, i as int),
    {
        let ghost added = ids@[i as int]@;
        match standings[i] {
            EventStanding::New => {
                let ghost before = views(new_events@);
                new_events.push(ids[i].clone());
                assert(views(new_events@) =~= before.push(added));
            },
            EventStanding::Held => {
                let ghost before = views(skipped_events@);
                skipped_events.push(ids[i].clone());
                assert(views(skipped_events@) =~= before.push(added));
            },
            EventStanding::Conflict => {
                let ghost before = views(conflicts@);
                conflicts.push(ids[i].clone());
                assert(views(conflicts@) =~= before.push(added));
            },
        }
    }
    ImportEventPlan { new_events, skipped_events, conflicts }
}

/// Where each event stands.
pub open spec fn all_standings(stored: Seq<Option<Vec<u8>>>, values: Seq<serde_json::Value>) -> Seq<
    EventStanding,
> {
    Seq::new(values.len(), |i: int| standing(stored[i], values[i]))
}

proof fn lemma_all_held(ids: Seq<String>, standings: Seq<EventStanding>, n: int)
    requires
        0 <= n <= ids.len(),
        standings.len() == ids.len(),
        forall|i: int| 0 <= i < n ==> #[trigger] standings[i] == EventStanding::Held,
    ensures
        standing_so(ids, standings, EventStanding::New, n) == Seq::<Seq<char>>::empty(),
        standing_so(ids, standings, EventStanding::Conflict, n) == Seq::<Seq<char>>::empty(),
        standing_so(ids, standings, EventStanding::Held, n) == views(ids).take(n),
    decreases n,
{
    if n > 0 {
        lemma_all_held(ids, standings, n - 1);
        assert(views(ids).take(n) =~= views(ids).take(n - 1).push(ids[n - 1]@));
    } else {
        assert(views(ids).take(0) =~= Seq::<Seq<char>>::empty());
    }
}

/// Whether a ledger holds the very bytes that taking the events writes.
pub open spec fn all_written(stored: Seq<Option<Vec<u8>>>, values: Seq<serde_json::Value>) -> bool {
    forall|i: int|
        0 <= i < values.len() ==> #[trigger] written(stored[i], values[i]) && plain(values[i])
}

/// What becomes of events, from the bytes that the ledger has under the identity of each. Taking
/// events again adds nothing: those that were taken are skipped.
pub fn classify_import_events(
    ids: &Vec<String>,
    values: &Vec<serde_json::Value>,
    stored: &Vec<Option<Vec<u8>>>,
) -> (r: ImportEventPlan)
    requires
        values@.len() == ids@.len(),
        stored@.len() == ids@.len(),
    ensures
        plans_import(r, ids@, all_standings(stored@, values@)),
        all_written(stored@, values@) ==> {
            &&& r.new_events@.len() == 0
            &&& r.conflicts@.len() == 0
            &&& views(r.skipped_events@) == views(ids@)
        },
{
    let mut standings: Vec<EventStanding> = Vec::new();
    for i in 0..values.len()
        invariant
            values@.len() == ids@.len(),
            stored@.len() == ids@.len(),
            standings@.len() == i,
            forall|j: int|
                0 <= j < i ==> #[trigger] standings@[j] == standing(stored@[j], values@[j]),
            forall|j: int|
                0 <= j < i && written(stored@[j], values@[j]) && plain(values@[j])
                    ==> #[trigger] standings@[j] == EventStanding::Held,
    {
        standings.push(event_standing(&stored[i], &values[i]));
    }
    assert(standings@ =~= all_standings(stored@, values@));
    let plan = plan_import(ids, &standings);
    proof {
        if all_written(stored@, values@) {
            assert forall|j: int| 0 <= j < ids@.len() implies #[trigger] standings@[j]
                == EventStanding::Held by {
                assert(written(stored@[j], values@[j]) && plain(values@[j]));
            }
            lemma_all_held(ids@, standings@, ids@.len() as int);
            assert(views(plan.new_events@).len() == 0);
            assert(views(plan.conflicts@).len() == 0);
            assert(views(ids@).take(ids@.len() as int) =~= views(ids@));
        }
    }
    plan
}

/// Why the events of the repository in a bundle are not taken.
#[derive(Clone, Copy, Debug, PartialEq, Eq, Structural)]
pub enum RepositoryRefusal {
    NoId { index: usize },
    /// The ledger has something else under its identity.
    Conflict { index: usize },
    /// The bundle itself has something else under its identity.
    TwoDifferent { index: usize },
}

/// The identity that an event of the repository names.
pub open spec fn id_of(value: serde_json::Value) -> Option<Seq<char>> {
    field(value, EventField::EventId)
}

/// Events of the repository that are written: in the order of their identities, each once.
pub struct IncomingEvents {
    pub ids: Vec<String>,
    pub bytes: Vec<Vec<u8>>,
}

/// Whether one of the first `n` values has an identity.
pub open spec fn named_among(values: Seq<serde_json::Value>, n: int, id: Seq<char>) -> bool {
    exists|j: int| 0 <= j < n && #[trigger] id_of(values[j]) == Some(id)
}

/// Whether the events are those that the first `n` values are, without a contradiction.
pub open spec fn gathers(incoming: IncomingEvents, values: Seq<serde_json::Value>, n: int) -> bool {
    &&& ascending(views(incoming.ids@))
    &&& incoming.bytes@.len() == incoming.ids@.len()
    &&& forall|id: Seq<char>| #[trigger]
        among(incoming.ids@, id) <==> named_among(values, n, id)
    &&& forall|k: int, j: int|
        0 <= k < incoming.ids@.len() && 0 <= j < n && #[trigger] id_of(values[j]) == Some(
            incoming.ids@[k]@,
        ) ==> (#[trigger] incoming.bytes@[k])@ == file_bytes(values[j])
}

/// Whether two byte sequences are the same.
pub fn same_bytes(a: &Vec<u8>, b: &Vec<u8>) -> (r: bool)
    ensures
        r == (a@ == b@),
{
    if a.len() != b.len() {
        return false;
    }
    for i in 0..a.len()
        invariant
            a@.len() == b@.len(),
            forall|j: int| 0 <= j < i ==> a@[j] == b@[j],
    {
        if a[i] != b[i] {
            return false;
        }
    }
    assert(a@ =~= b@);
    true
}

proof fn lemma_named_step(values: Seq<serde_json::Value>, n: int, id: Seq<char>)
    requires
        0 <= n < values.len(),
    ensures
        named_among(values, n + 1, id) <==> named_among(values, n, id) || id_of(values[n]) == Some(
            id,
        ),
{
    if named_among(values, n, id) {
        let j = choose|j: int| 0 <= j < n && #[trigger] id_of(values[j]) == Some(id);
        assert(id_of(values[j]) == Some(id));
    }
    if named_among(values, n + 1, id) {
        let j = choose|j: int| 0 <= j < n + 1 && #[trigger] id_of(values[j]) == Some(id);
        if j < n {
            assert(named_among(values, n, id));
        }
    }
}

fn gather(
    incoming: &mut IncomingEvents,
    values: &Vec<serde_json::Value>,
    n: usize,
    id: &str,
    bytes: Vec<u8>,
) -> (r: bool)
    requires
        n < values@.len(),
        id_of(values@[n as int]) == Some(id@),
        bytes@ == file_bytes(values@[n as int]),
        gathers(*old(incoming), values@, n as int),
    ensures
        r ==> gathers(*final(incoming), values@, n + 1),
        !r ==> exists|j: int|
            0 <= j < n && #[trigger] id_of(values@[j]) == Some(id@) && file_bytes(values@[j])
                != file_bytes(values@[n as int]),
{
    let ghost before = *incoming;
    match find_place(&incoming.ids, id) {
        Place::At(k) => {
            proof {
                assert(among(incoming.ids@, id@));
                assert(named_among(values@, n as int, id@));
            }
            let ghost j = choose|j: int|
                0 <= j < n && #[trigger] id_of(values@[j]) == Some(id@);
            assert(incoming.bytes@[k as int]@ == file_bytes(values@[j]));
            if !same_bytes(&incoming.bytes[k], &bytes) {
                assert(id_of(values@[j]) == Some(id@));
                return false;
            }
            proof {
                assert forall|x: Seq<char>| #[trigger] among(incoming.ids@, x) <==> named_among(
                    values@,
                    n + 1,
                    x,
                ) by {
                    lemma_named_step(values@, n as int, x);
                    assert(among(before.ids@, x) <==> named_among(values@, n as int, x));
                }
                assert forall|m: int, q: int|
                    0 <= m < incoming.ids@.len() && 0 <= q < n + 1 && #[trigger] id_of(
                        values@[q],
                    ) == Some(incoming.ids@[m]@) implies (#[trigger] incoming.bytes@[m])@
                    == file_bytes(values@[q]) by {
                    if q == n {
                        lemma_one_place(views(incoming.ids@), m, k as int);
                    }
                }
            }
            true
        },
        Place::Before(i) => {
            incoming.ids.insert(i, id.to_string());
            incoming.bytes.insert(i, bytes);
            proof {
                assert(views(incoming.ids@) =~= views(before.ids@).insert(i as int, id@));
                lemma_insert_ascending(views(before.ids@), id@, i as int);
                assert(!among(before.ids@, id@));
                assert(!named_among(values@, n as int, id@));
                assert forall|x: Seq<char>| #[trigger] among(incoming.ids@, x) <==> named_among(
                    values@,
                    n + 1,
                    x,
                ) by {
                    lemma_named_step(values@, n as int, x);
                    assert(among(before.ids@, x) <==> named_among(values@, n as int, x));
                    if among(before.ids@, x) {
                        let j = choose|j: int|
                            0 <= j < before.ids@.len() && #[trigger] before.ids@[j]@ == x;
                        if j < i {
                            assert(incoming.ids@[j]@ == x);
                        } else {
                            assert(incoming.ids@[j + 1]@ == x);
                        }
                    }
                    if among(incoming.ids@, x) {
                        let j = choose|j: int|
                            0 <= j < incoming.ids@.len() && #[trigger] incoming.ids@[j]@ == x;
                        if j < i {
                            assert(before.ids@[j]@ == x);
                        } else if j > i {
                            assert(before.ids@[j - 1]@ == x);
                        }
                    }
                    assert(incoming.ids@[i as int]@ == id@);
                }
                assert forall|m: int, q: int|
                    0 <= m < incoming.ids@.len() && 0 <= q < n + 1 && #[trigger] id_of(
                        values@[q],
                    ) == Some(incoming.ids@[m]@) implies (#[trigger] incoming.bytes@[m])@
                    == file_bytes(values@[q]) by {
                    if m == i {
                        if q < n {
                            assert(named_among(values@, n as int, id@));
                        }
                    } else {
                        let old_m = if m < i {
                            m
                        } else {
                            m - 1
                        };
                        assert(incoming.ids@[m] == before.ids@[old_m]);
                        assert(incoming.bytes@[m] == before.bytes@[old_m]);
                        if q == n {
                            assert(before.ids@[old_m]@ == id@);
                            assert(among(before.ids@, id@));
                        }
                    }
                }
            }
            true
        },
    }
}

/// Whether the first `n` values are without a contradiction.
pub open spec fn agree_until(
    values: Seq<serde_json::Value>,
    conflicting: Seq<bool>,
    n: int,
) -> bool {
    &&& forall|i: int| 0 <= i < n ==> #[trigger] id_of(values[i]) is Some && !conflicting[i]
    &&& forall|i: int, j: int|
        0 <= i < j < n && #[trigger] id_of(values[i]) == #[trigger] id_of(values[j])
            ==> file_bytes(values[i]) == file_bytes(values[j])
}

/// What is wrong with the first value that cannot be taken.
pub open spec fn repository_fault(
    values: Seq<serde_json::Value>,
    conflicting: Seq<bool>,
    refusal: RepositoryRefusal,
) -> bool {
    match refusal {
        RepositoryRefusal::NoId { index } => index < values.len() && agree_until(
            values,
            conflicting,
            index as int,
        ) && id_of(values[index as int]) is None,
        RepositoryRefusal::Conflict { index } => index < values.len() && agree_until(
            values,
            conflicting,
            index as int,
        ) && id_of(values[index as int]) is Some && conflicting[index as int],
        RepositoryRefusal::TwoDifferent { index } => index < values.len() && agree_until(
            values,
            conflicting,
            index as int,
        ) && id_of(values[index as int]) is Some && !conflicting[index as int] && exists|j: int|
            0 <= j < index && #[trigger] id_of(values[j]) == id_of(values[index as int])
                && file_bytes(values[j]) != file_bytes(values[index as int]),
    }
}

proof fn lemma_gathered_agree(
    incoming: IncomingEvents,
    values: Seq<serde_json::Value>,
    conflicting: Seq<bool>,
    n: int,
)
    requires
        gathers(incoming, values, n),
        forall|j: int| 0 <= j < n ==> #[trigger] id_of(values[j]) is Some && !conflicting[j],
    ensures
        agree_until(values, conflicting, n),
{
    assert forall|i: int, j: int|
        0 <= i < j < n && #[trigger] id_of(values[i]) == #[trigger] id_of(
            values[j],
        ) implies file_bytes(values[i]) == file_bytes(values[j]) by {
        let id = id_of(values[i])->0;
        assert(named_among(values, n, id));
        assert(among(incoming.ids@, id));
        let k = choose|k: int| 0 <= k < incoming.ids@.len() && #[trigger] incoming.ids@[k]@ == id;
        assert(incoming.bytes@[k]@ == file_bytes(values[i]));
        assert(incoming.bytes@[k]@ == file_bytes(values[j]));
    }
}

/// The events of the repository that an import writes, without any contradiction. `conflicting`
/// says of each whether the ledger has something else under its identity.
pub fn plan_repository_events(values: &Vec<serde_json::Value>, conflicting: &Vec<bool>) -> (r:
    Result<IncomingEvents, RepositoryRefusal>)
    requires
        conflicting@.len() == values@.len(),
    ensures
        match r {
            Ok(incoming) => gathers(incoming, values@, values@.len() as int) && forall|i: int|
                0 <= i < values@.len() ==> #[trigger] id_of(values@[i]) is Some
                    && !conflicting@[i],
            Err(refusal) => repository_fault(values@, conflicting@, refusal),
        },
{
    let mut incoming = IncomingEvents { ids: Vec::new(), bytes: Vec::new() };
    assert(gathers(incoming, values@, 0));
    for i in 0..values.len()
        invariant
            conflicting@.len() == values@.len(),
            gathers(incoming, values@, i as int),
            forall|j: int|
                0 <= j < i ==> #[trigger] id_of(values@[j]) is Some && !conflicting@[j],
    {
        proof {
            lemma_gathered_agree(incoming, values@, conflicting@, i as int);
        }
        let id = match get_string(&values[i], "event_id") {
            Some(id) => id,
            None => {
                return Err(RepositoryRefusal::NoId { index: i });
            },
        };
        assert(id_of(values@[i as int]) == Some(id@));
        if conflicting[i] {
            return Err(RepositoryRefusal::Conflict { index: i });
        }
        let bytes = event_file_bytes(&values[i]);
        if !gather(&mut incoming, values, i, id, bytes) {
            return Err(RepositoryRefusal::TwoDifferent { index: i });
        }
    }
    Ok(incoming)
}

/// The events that the ledger would have: those that it has, and the new ones of a bundle.
pub open spec fn pool<'a>(local: Seq<Event>, bundled: Seq<Option<Event>>, k: int) -> Event {
    if k < local.len() {
        local[k]
    } else {
        bundled[k - local.len()]->0
    }
}

/// Whether the event at a position of the pool counts.
pub open spec fn pooled(
    local: Seq<Event>,
    ids: Seq<String>,
    bundled: Seq<Option<Event>>,
    new_events: Seq<String>,
    k: int,
) -> bool {
    if k < local.len() {
        0 <= k
    } else {
        k - local.len() < bundled.len() && bundled[k - local.len()] is Some && among(
            new_events,
            ids[k - local.len()]@,
        )
    }
}

/// By identity; those of one identity stay in their order.
pub open spec fn recorded_earlier(local: Seq<Event>, bundled: Seq<Option<Event>>) -> spec_fn(
    usize,
    usize,
) -> bool {
    |a: usize, b: usize|
        precedes(pool(local, bundled, a as int).event_id@, pool(local, bundled, b as int).event_id@)
            || (pool(local, bundled, a as int).event_id@ == pool(
            local,
            bundled,
            b as int,
        ).event_id@ && a < b)
}

proof fn lemma_recorded_earlier(local: Seq<Event>, bundled: Seq<Option<Event>>)
    ensures
        strict_order(recorded_earlier(local, bundled)),
{
    let order = recorded_earlier(local, bundled);
    assert forall|a: usize| !#[trigger] order(a, a) by {
        lemma_precedes_irreflexive(pool(local, bundled, a as int).event_id@);
    }
    assert forall|a: usize, b: usize, c: usize| #[trigger] order(a, b) && #[trigger] order(
        b,
        c,
    ) implies order(a, c) by {
        let x = pool(local, bundled, a as int).event_id@;
        let y = pool(local, bundled, b as int).event_id@;
        let z = pool(local, bundled, c as int).event_id@;
        if precedes(x, y) && precedes(y, z) {
            lemma_precedes_transitive(x, y, z);
        }
    }
    assert forall|a: usize, b: usize| a != b implies #[trigger] order(a, b) || order(b, a) by {
        lemma_precedes_total(
            pool(local, bundled, a as int).event_id@,
            pool(local, bundled, b as int).event_id@,
        );
    }
}

/// Whether the candidate is the history that an import would leave.
pub open spec fn is_candidate(
    candidate: Seq<&Event>,
    local: Seq<Event>,
    ids: Seq<String>,
    bundled: Seq<Option<Event>>,
    new_events: Seq<String>,
) -> bool {
    exists|order: Seq<usize>| #[trigger]
        in_order(order, recorded_earlier(local, bundled)) && (forall|a: usize| #[trigger]
            order.contains(a) <==> pooled(local, ids, bundled, new_events, a as int))
            && candidate.len() == order.len() && forall|k: int|
            0 <= k < order.len() ==> *(#[trigger] candidate[k]) == pool(
                local,
                bundled,
                order[k] as int,
            )
}

fn pool_at<'a>(local: &'a Vec<Event>, bundled: &'a Vec<Option<Event>>, k: usize) -> (r: &'a Event)
    requires
        k < local@.len() || (k - local@.len() < bundled@.len() && bundled@[k
            - local@.len()] is Some),
    ensures
        *r == pool(local@, bundled@, k as int),
{
    if k < local.len() {
        &local[k]
    } else {
        match &bundled[k - local.len()] {
            Some(event) => event,
            None => &local[0],
        }
    }
}

fn find_pooled(
    local: &Vec<Event>,
    ids: &Vec<String>,
    bundled: &Vec<Option<Event>>,
    new_events: &Vec<String>,
) -> (r: Vec<usize>)
    requires
        ids@.len() == bundled@.len(),
        local@.len() + bundled@.len() <= usize::MAX,
    ensures
        r@.no_duplicates(),
        forall|a: usize| #[trigger]
            r@.contains(a) <==> pooled(local@, ids@, bundled@, new_events@, a as int),
{
    let mut found: Vec<usize> = Vec::new();
    for k in 0..local.len() + bundled.len()
        invariant
            ids@.len() == bundled@.len(),
            local@.len() + bundled@.len() <= usize::MAX,
            found@.no_duplicates(),
            forall|a: usize| #[trigger]
                found@.contains(a) <==> a < k && pooled(
                    local@,
                    ids@,
                    bundled@,
                    new_events@,
                    a as int,
                ),
    {
        let ghost before = found@;
        let counts = if k < local.len() {
            true
        } else {
            bundled[k - local.len()].is_some() && contains(
                new_events,
                ids[k - local.len()].as_str(),
            )
        };
        if counts {
            found.push(k);
        }
        assert forall|a: usize| #[trigger] found@.contains(a) <==> a < k + 1 && pooled(
            local@,
            ids@,
            bundled@,
            new_events@,
            a as int,
        ) by {
            assert(before.contains(a) <==> a < k && pooled(
                local@,
                ids@,
                bundled@,
                new_events@,
                a as int,
            ));
            if before.contains(a) {
                let m = choose|m: int| 0 <= m < before.len() && before[m] == a;
                assert(found@[m] == a);
            }
            if found@.contains(a) {
                let m = choose|m: int| 0 <= m < found@.len() && found@[m] == a;
                if m < before.len() {
                    assert(before[m] == a);
                }
            }
            if counts {
                assert(found@[before.len() as int] == k);
            }
        }
        assert(!before.contains(k));
    }
    found
}

/// The history that an import would leave, where a number holds its length: `ids` are the
/// identities of the events of the bundle, and `bundled` those of them that are known.
pub fn import_candidate<'a>(
    local: &'a Vec<Event>,
    ids: &Vec<String>,
    bundled: &'a Vec<Option<Event>>,
    new_events: &Vec<String>,
) -> (r: Vec<&'a Event>)
    requires
        ids@.len() == bundled@.len(),
        local@.len() + bundled@.len() <= usize::MAX,
    ensures
        is_candidate(r@, local@, ids@, bundled@, new_events@),
{
    let found = find_pooled(local, ids, bundled, new_events);
    proof {
        lemma_recorded_earlier(local@, bundled@);
    }
    let earlier = |a: usize, b: usize| -> (out: bool)
        requires
            pooled(local@, ids@, bundled@, new_events@, a as int),
            pooled(local@, ids@, bundled@, new_events@, b as int),
        ensures
            out == recorded_earlier(local@, bundled@)(a, b),
        {
            let x = pool_at(local, bundled, a);
            let y = pool_at(local, bundled, b);
            less(x.event_id.as_str(), y.event_id.as_str()) || (same(
                x.event_id.as_str(),
                y.event_id.as_str(),
            ) && a < b)
        };
    let order = sort_positions(&found, earlier, Ghost(recorded_earlier(local@, bundled@)));
    let mut out: Vec<&'a Event> = Vec::new();
    for k in 0..order.len()
        invariant
            forall|a: usize| #[trigger]
                order@.contains(a) <==> pooled(local@, ids@, bundled@, new_events@, a as int),
            out@.len() == k,
            forall|m: int|
                0 <= m < k ==> *(#[trigger] out@[m]) == pool(
                    local@,
                    bundled@,
                    order@[m] as int,
                ),
    {
        assert(order@.contains(order@[k as int]));
        out.push(pool_at(local, bundled, order[k]));
    }
    out
}

/// Whether an event closes its change.
pub open spec fn terminal(event: Event) -> bool {
    event.payload is ChangeClosed || event.payload is ChangeIntegrated
        || event.payload is IntegrationAsserted
}

/// Whether an event closes its change as integrated.
pub open spec fn integrates(event: Event) -> bool {
    match event.payload {
        Payload::ChangeIntegrated { .. } => true,
        Payload::IntegrationAsserted { .. } => true,
        Payload::ChangeClosed { outcome, .. } => outcome == Closure::Integrated,
        _ => false,
    }
}

/// Whether something may be recorded after a change closed: a fact of any phase, and after an
/// integration also what belongs to one.
pub open spec fn may_follow(permission: AppendPermission, integrated: bool) -> bool {
    match permission {
        AppendPermission::AnyPhaseFact => true,
        AppendPermission::IntegratedOnlyFact => integrated,
        AppendPermission::OpenOrIntegratedFact => integrated,
        _ => false,
    }
}

/// Whether the event at `t` is the first that closes the change.
pub open spec fn first_closing(candidate: Seq<&Event>, t: int) -> bool {
    &&& 0 <= t < candidate.len()
    &&& terminal(*candidate[t])
    &&& forall|j: int| 0 <= j < t ==> !terminal(*(#[trigger] candidate[j]))
}

/// Whether the event at `i` contradicts that the event at `t` closed the change.
pub open spec fn contradicts(
    candidate: Seq<&Event>,
    permissions: Seq<AppendPermission>,
    t: int,
    i: int,
) -> bool {
    t < i && (terminal(*candidate[i]) || !may_follow(permissions[i], integrates(*candidate[t])))
}

/// Whether no event before the one at `n` contradicts that the event at `t` closed the change.
pub open spec fn stands_until(
    candidate: Seq<&Event>,
    permissions: Seq<AppendPermission>,
    t: int,
    n: int,
) -> bool {
    forall|i: int| 0 <= i < n ==> !(#[trigger] contradicts(candidate, permissions, t, i))
}

/// Why a history cannot exist: it does not replay, or an event is the first that contradicts the
/// closing.
#[derive(Clone, Copy, Debug, PartialEq, Eq, Structural)]
pub enum HistoryFault {
    NotReplayable,
    ClosedTwice { first: usize, again: usize },
    WorkAfterClosing { closed: usize, event: usize },
}

/// Whether a history is without contradiction.
pub open spec fn consistent(candidate: Seq<&Event>, permissions: Seq<AppendPermission>) -> bool {
    forall|t: int, i: int|
        0 <= i < candidate.len() && #[trigger] first_closing(candidate, t) ==> !(
        #[trigger] contradicts(candidate, permissions, t, i))
}

fn is_terminal(event: &Event) -> (r: bool)
    ensures
        r == terminal(*event),
{
    matches!(event.payload, Payload::ChangeClosed { .. }) || matches!(
        event.payload,
        Payload::ChangeIntegrated { .. }
    ) || matches!(event.payload, Payload::IntegrationAsserted { .. })
}

fn is_integration(event: &Event) -> (r: bool)
    ensures
        r == integrates(*event),
{
    match &event.payload {
        Payload::ChangeIntegrated { .. } => true,
        Payload::IntegrationAsserted { .. } => true,
        Payload::ChangeClosed { outcome, .. } => *outcome == Closure::Integrated,
        _ => false,
    }
}

fn can_follow(permission: AppendPermission, integrated: bool) -> (r: bool)
    ensures
        r == may_follow(permission, integrated),
{
    match permission {
        AppendPermission::AnyPhaseFact => true,
        AppendPermission::IntegratedOnlyFact => integrated,
        AppendPermission::OpenOrIntegratedFact => integrated,
        _ => false,
    }
}

/// Whether `fault` is the first thing that is wrong with a history: the replay is looked at first.
pub open spec fn history_fault(
    candidate: Seq<&Event>,
    permissions: Seq<AppendPermission>,
    replays: bool,
    fault: HistoryFault,
) -> bool {
    match fault {
        HistoryFault::NotReplayable => !replays,
        HistoryFault::ClosedTwice { first, again } => {
            &&& replays
            &&& first_closing(candidate, first as int)
            &&& first < again < candidate.len()
            &&& terminal(*candidate[again as int])
            &&& stands_until(candidate, permissions, first as int, again as int)
        },
        HistoryFault::WorkAfterClosing { closed, event } => {
            &&& replays
            &&& first_closing(candidate, closed as int)
            &&& closed < event < candidate.len()
            &&& !terminal(*candidate[event as int])
            &&& !may_follow(permissions[event as int], integrates(*candidate[closed as int]))
            &&& stands_until(candidate, permissions, closed as int, event as int)
        },
    }
}

/// Whether `r` answers whether a history can exist.
pub open spec fn answers_history(
    candidate: Seq<&Event>,
    permissions: Seq<AppendPermission>,
    replays: bool,
    r: Result<(), HistoryFault>,
) -> bool {
    match r {
        Ok(()) => replays && consistent(candidate, permissions),
        Err(fault) => history_fault(candidate, permissions, replays, fault),
    }
}

/// Whether a history can exist: it replays, a change closes once, and nothing is recorded after
/// that which belongs before it. `permissions` says of each event when it may be recorded, and
/// `replays` what replaying the history came to.
pub fn validate_import_candidate(
    candidate: &Vec<&Event>,
    permissions: &Vec<AppendPermission>,
    replays: bool,
) -> (r: Result<(), HistoryFault>)
    requires
        permissions@.len() == candidate@.len(),
    ensures
        answers_history(candidate@, permissions@, replays, r),
{
    if !replays {
        return Err(HistoryFault::NotReplayable);
    }
    let mut closed: Option<usize> = None;
    let mut integrated = false;
    for i in 0..candidate.len()
        invariant
            replays,
            permissions@.len() == candidate@.len(),
            match closed {
                Some(t) => t < i && first_closing(candidate@, t as int) && integrated
                    == integrates(*candidate@[t as int]),
                None => forall|j: int| 0 <= j < i ==> !terminal(*(#[trigger] candidate@[j])),
            },
            forall|t: int, j: int|
                0 <= j < i && #[trigger] first_closing(candidate@, t) ==> !(
                #[trigger] contradicts(candidate@, permissions@, t, j)),
    {
        let closes = is_terminal(candidate[i]);
        if let Some(first) = closed {
            if closes {
                return Err(HistoryFault::ClosedTwice { first, again: i });
            }
            if !can_follow(permissions[i], integrated) {
                return Err(HistoryFault::WorkAfterClosing { closed: first, event: i });
            }
        }
        proof {
            assert forall|t: int, j: int|
                0 <= j < i + 1 && #[trigger] first_closing(candidate@, t) implies !(
            #[trigger] contradicts(candidate@, permissions@, t, j)) by {
                if j == i && t < i {
                    assert(terminal(*candidate@[t]));
                    let first = closed->0;
                    assert(first_closing(candidate@, first as int));
                    if t < first {
                        assert(!terminal(*candidate@[t]));
                    }
                    if first < t {
                        assert(!terminal(*candidate@[first as int]));
                    }
                }
            }
        }
        if closes {
            closed = Some(i);
            integrated = is_integration(candidate[i]);
            assert(first_closing(candidate@, i as int));
        }
    }
    Ok(())
}

/// Whether an event is recorded when its change ends.
pub open spec fn ends_change(event: Event) -> bool {
    event.payload is ChangeClosed || event.payload is ChangeIntegrated
        || event.payload is IntegrationAsserted
}

/// Whether an event is recorded when its change ends, and says that what it holds was merged.
pub open spec fn ends_merged(event: Event) -> bool {
    ||| event.payload is ChangeIntegrated
    ||| event.payload is IntegrationAsserted
    ||| event.payload matches Payload::ChangeClosed { outcome: Closure::Integrated, .. }
}

/// Whether the event at `t` is the only one in a history that is recorded when its change ends.
pub open spec fn ends_once(candidate: Seq<&Event>, t: int) -> bool {
    &&& 0 <= t < candidate.len()
    &&& forall|i: int|
        0 <= i < candidate.len() ==> (ends_change(*(#[trigger] candidate[i])) <==> i == t)
}

proof fn lemma_ends_once(candidate: Seq<&Event>, t: int)
    requires
        ends_once(candidate, t),
    ensures
        first_closing(candidate, t),
        forall|u: int| #[trigger] first_closing(candidate, u) ==> u == t,
{
    assert(ends_change(*candidate[t]));
    assert forall|j: int| 0 <= j < t implies !terminal(*(#[trigger] candidate[j])) by {
        assert(!ends_change(*candidate[j]));
    }
    assert forall|u: int| #[trigger] first_closing(candidate, u) implies u == t by {
        assert(ends_change(*candidate[u]));
    }
}

/// A history that replays and never ends its change can exist, whatever is recorded in it.
pub proof fn open_histories_can_exist(
    candidate: Seq<&Event>,
    permissions: Seq<AppendPermission>,
    r: Result<(), HistoryFault>,
)
    requires
        answers_history(candidate, permissions, true, r),
        forall|i: int| 0 <= i < candidate.len() ==> !ends_change(*(#[trigger] candidate[i])),
    ensures
        r is Ok,
{
    if let Err(HistoryFault::ClosedTwice { first, again }) = r {
        assert(!ends_change(*candidate[first as int]));
    }
    if let Err(HistoryFault::WorkAfterClosing { closed, event }) = r {
        assert(!ends_change(*candidate[closed as int]));
    }
}

/// A change that was merged, by a merge of the ledger's own, by one that was asserted, or closed as
/// integrated, takes in after that what any phase takes and what an integration takes: such a
/// history can exist.
pub proof fn merged_changes_take_later_facts(
    candidate: Seq<&Event>,
    permissions: Seq<AppendPermission>,
    t: int,
    r: Result<(), HistoryFault>,
)
    requires
        answers_history(candidate, permissions, true, r),
        ends_once(candidate, t),
        ends_merged(*candidate[t]),
        forall|i: int|
            t < i < candidate.len() ==> (#[trigger] permissions[i]) == AppendPermission::AnyPhaseFact
                || permissions[i] == AppendPermission::IntegratedOnlyFact || permissions[i]
                == AppendPermission::OpenOrIntegratedFact,
    ensures
        r is Ok,
{
    lemma_ends_once(candidate, t);
    if let Err(HistoryFault::ClosedTwice { first, again }) = r {
        assert(ends_change(*candidate[again as int]));
    }
    if let Err(HistoryFault::WorkAfterClosing { closed, event }) = r {
        assert(permissions[event as int] == AppendPermission::AnyPhaseFact
            || permissions[event as int] == AppendPermission::IntegratedOnlyFact
            || permissions[event as int] == AppendPermission::OpenOrIntegratedFact);
    }
}

/// A change that ended without a merge takes in nothing after that but facts of any phase, and no
/// change takes in work after its end: a history that says otherwise is refused with the first
/// event that does not belong there.
pub proof fn ended_changes_take_no_work(
    candidate: Seq<&Event>,
    permissions: Seq<AppendPermission>,
    t: int,
    n: int,
    r: Result<(), HistoryFault>,
)
    requires
        answers_history(candidate, permissions, true, r),
        ends_once(candidate, t),
        t < n < candidate.len() <= usize::MAX,
        permissions[n] != AppendPermission::AnyPhaseFact,
        !ends_merged(*candidate[t]) || (permissions[n] != AppendPermission::IntegratedOnlyFact
            && permissions[n] != AppendPermission::OpenOrIntegratedFact),
        forall|i: int|
            t < i < n ==> (#[trigger] permissions[i]) == AppendPermission::AnyPhaseFact,
    ensures
        r == Err::<(), HistoryFault>(
            HistoryFault::WorkAfterClosing { closed: t as usize, event: n as usize },
        ),
{
    lemma_ends_once(candidate, t);
    assert(ends_change(*candidate[t]));
    assert(!ends_change(*candidate[n]));
    assert(contradicts(candidate, permissions, t, n));
    if let Err(HistoryFault::ClosedTwice { first, again }) = r {
        assert(ends_change(*candidate[again as int]));
    }
    if let Err(HistoryFault::WorkAfterClosing { closed, event }) = r {
        if event < n {
            assert(permissions[event as int] == AppendPermission::AnyPhaseFact);
        }
        if n < event {
            assert(!contradicts(candidate, permissions, t, n));
        }
    }
}

/// What may be imported after a change closed is what may be appended to it then.
pub proof fn imports_take_what_appending_takes(outcome: Closure, permission: AppendPermission)
    ensures
        may_follow(permission, outcome == Closure::Integrated) <==> append_allowed(
            Some(outcome),
            permission,
        ) is Ok,
{
}

/// No history ends its change twice: one that does is refused, and so is one that does not replay,
/// before anything else is said of it.
pub proof fn changes_end_once(
    candidate: Seq<&Event>,
    permissions: Seq<AppendPermission>,
    replays: bool,
    a: int,
    b: int,
    r: Result<(), HistoryFault>,
)
    requires
        answers_history(candidate, permissions, replays, r),
    ensures
        !replays <==> r == Err::<(), HistoryFault>(HistoryFault::NotReplayable),
        0 <= a < b < candidate.len() && ends_change(*candidate[a]) && ends_change(*candidate[b])
            ==> r is Err,
        r matches Err(HistoryFault::ClosedTwice { first, again }) ==> first < again
            < candidate.len() && ends_change(*candidate[first as int]) && ends_change(
            *candidate[again as int],
        ),
{
    if r is Ok && 0 <= a < b < candidate.len() && ends_change(*candidate[a]) && ends_change(
        *candidate[b],
    ) {
        consistent_histories_close_once(candidate, permissions, a, b);
    }
}

/// A history without contradiction closes its change at most once.
pub proof fn consistent_histories_close_once(
    candidate: Seq<&Event>,
    permissions: Seq<AppendPermission>,
    a: int,
    b: int,
)
    requires
        consistent(candidate, permissions),
        0 <= a < b < candidate.len(),
        terminal(*candidate[a]),
    ensures
        !terminal(*candidate[b]),
{
    if terminal(*candidate[b]) {
        let t = lemma_first_closing(candidate, a);
        assert(first_closing(candidate, t));
        assert(contradicts(candidate, permissions, t, b));
    }
}

proof fn lemma_first_closing(candidate: Seq<&Event>, a: int) -> (t: int)
    requires
        0 <= a < candidate.len(),
        terminal(*candidate[a]),
    ensures
        0 <= t <= a,
        first_closing(candidate, t),
    decreases a,
{
    if exists|j: int| 0 <= j < a && terminal(*(#[trigger] candidate[j])) {
        let j = choose|j: int| 0 <= j < a && terminal(*(#[trigger] candidate[j]));
        lemma_first_closing(candidate, j)
    } else {
        a
    }
}

/// A commit of a patchset that the repository does not have.
pub struct MissingObject {
    pub patchset: usize,
    /// Whether it is the head; else it is the base.
    pub head: bool,
}

/// The commits of the first `n` patchsets that the repository does not have.
pub open spec fn missing_of(bases: Seq<bool>, heads: Seq<bool>, n: int) -> Seq<(int, bool)>
    decreases n,
{
    if n <= 0 {
        Seq::empty()
    } else {
        missing_of(bases, heads, n - 1) + (if bases[n - 1] {
            Seq::empty()
        } else {
            seq![(n - 1, false)]
        }) + (if heads[n - 1] {
            Seq::empty()
        } else {
            seq![(n - 1, true)]
        })
    }
}

/// The missing commits, by their views.
pub open spec fn missing_views(missing: Seq<MissingObject>) -> Seq<(int, bool)> {
    Seq::new(missing.len(), |i: int| (missing[i].patchset as int, missing[i].head))
}

/// Whether `r` are the objects that are missing, and the heads that are here.
pub open spec fn plans_objects(
    bases: &Vec<bool>,
    heads: &Vec<bool>,
    r: (Vec<MissingObject>, Vec<usize>),
) -> bool {
    &&& missing_views(r.0@) == missing_of(bases@, heads@, heads@.len() as int)
    &&& ints(r.1@) == chosen(heads@.len(), |i: int| heads@[i])
}

/// The commits that the repository does not have, and the patchsets whose heads are pinned:
/// those whose heads it has. `bases` and `heads` say of each patchset whether it has the commit.
pub fn plan_objects(bases: &Vec<bool>, heads: &Vec<bool>) -> (r: (Vec<MissingObject>, Vec<usize>))
    requires
        bases@.len() == heads@.len(),
    ensures
        plans_objects(bases, heads, r),
{
    let mut missing: Vec<MissingObject> = Vec::new();
    let mut pins: Vec<usize> = Vec::new();
    let ghost wanted = |i: int| heads@[i];
    assert(missing_views(missing@) =~= missing_of(bases@, heads@, 0));
    assert(ints(pins@) =~= Seq::<int>::empty());
    for i in 0..heads.len()
        invariant
            bases@.len() == heads@.len(),
            wanted == (|i: int| heads@[i]),
            missing_views(missing@) == missing_of(bases@, heads@, i as int),
            ints(pins@) == chosen(i as nat, wanted),
    {
        let ghost before = missing_views(missing@);
        let ghost pins_before = ints(pins@);
        if !bases[i] {
            missing.push(MissingObject { patchset: i, head: false });
        }
        if heads[i] {
            pins.push(i);
            assert(ints(pins@) =~= pins_before.push(i as int));
        } else {
            missing.push(MissingObject { patchset: i, head: true });
        }
        assert(missing_views(missing@) =~= missing_of(bases@, heads@, i + 1));
    }
    (missing, pins)
}

/// Whether `r` is the exit code of an import.
pub open spec fn is_exit_code(
    plan: &ImportEventPlan,
    r: i32,
) -> bool {
    r == (if plan.conflicts@.len() > 0 {
            1i32
        } else {
            0i32
        })
}

/// The exit code of an import: one that conflicts writes nothing.
pub fn import_exit_code(plan: &ImportEventPlan) -> (r: i32)
    ensures
        is_exit_code(plan, r),
{
    if plan.conflicts.len() > 0 {
        1
    } else {
        0
    }
}

/// Each of some texts after a label.
pub open spec fn labelled(label: Seq<char>, texts: Seq<String>) -> Seq<Seq<char>> {
    Seq::new(texts.len(), |i: int| label + texts[i]@)
}

fn write_labelled(label: &str, texts: &Vec<String>) -> (r: Vec<String>)
    ensures
        views(r@) == labelled(label@, texts@),
{
    let mut out: Vec<String> = Vec::new();
    for i in 0..texts.len()
        invariant
            out@.len() == i,
            forall|j: int| 0 <= j < i ==> (#[trigger] out@[j])@ == label@ + texts@[j]@,
    {
        let mut line = label.to_string();
        line.append(texts[i].as_str());
        out.push(line);
    }
    assert(views(out@) =~= labelled(label@, texts@));
    out
}

/// The line that sums up an import.
pub open spec fn summary_line(plan: ImportEventPlan, missing: nat) -> Seq<char> {
    "summary: new="@ + decimal_of(plan.new_events@.len()) + " skipped="@ + decimal_of(
        plan.skipped_events@.len(),
    ) + " conflicts="@ + decimal_of(plan.conflicts@.len()) + " missing_objects="@ + decimal_of(
        missing,
    )
}

/// The line of a commit that the repository does not have.
pub open spec fn missing_line(missing: MissingObject, patchsets: Seq<PatchsetObject>) -> Seq<char> {
    let patchset = patchsets[missing.patchset as int];
    "warning: event "@ + patchset.event_id@ + " is missing "@ + (if missing.head {
        "head"@
    } else {
        "base"@
    }) + " commit "@ + (if missing.head {
        patchset.head@
    } else {
        patchset.base@
    })
}

/// The line of a missing commit.
pub fn write_missing(missing: &MissingObject, patchsets: &Vec<PatchsetObject>) -> (r: String)
    requires
        missing.patchset < patchsets@.len(),
    ensures
        r@ == missing_line(*missing, patchsets@),
{
    let patchset = &patchsets[missing.patchset];
    let mut out = "warning: event ".to_string();
    out.append(patchset.event_id.as_str());
    out.append(" is missing ");
    out.append(if missing.head { "head" } else { "base" });
    out.append(" commit ");
    if missing.head {
        out.append(patchset.head.as_str());
    } else {
        out.append(patchset.base.as_str());
    }
    out
}

/// The lines that tell what becomes of the events of a bundle.
pub fn import_lines(plan: &ImportEventPlan) -> (r: Vec<String>)
    ensures
        views(r@) == labelled("new: "@, plan.new_events@) + labelled(
            "skipped: "@,
            plan.skipped_events@,
        ) + labelled("conflict: "@, plan.conflicts@),
{
    let mut out = write_labelled("new: ", &plan.new_events);
    let mut skipped = write_labelled("skipped: ", &plan.skipped_events);
    let mut conflicts = write_labelled("conflict: ", &plan.conflicts);
    let ghost a = out@;
    let ghost b = skipped@;
    let ghost c = conflicts@;
    out.append(&mut skipped);
    out.append(&mut conflicts);
    assert(views(out@) =~= views(a) + views(b) + views(c));
    out
}

/// The line that sums up an import.
pub fn import_summary(plan: &ImportEventPlan, missing: usize) -> (r: String)
    ensures
        r@ == summary_line(*plan, missing as nat),
{
    let fresh = decimal(plan.new_events.len() as u64);
    let skipped = decimal(plan.skipped_events.len() as u64);
    let conflicts = decimal(plan.conflicts.len() as u64);
    let objects = decimal(missing as u64);
    let mut out = "summary: new=".to_string();
    out.append(fresh.as_str());
    out.append(" skipped=");
    out.append(skipped.as_str());
    out.append(" conflicts=");
    out.append(conflicts.as_str());
    out.append(" missing_objects=");
    out.append(objects.as_str());
    out
}

/// What an import does.
pub enum ImportDecision {
    /// The ledger holds something else under the identity of an event: nothing is written.
    Conflicts,
    /// The ledger and the bundle make no history together: nothing is written.
    History { fault: HistoryFault },
    /// The events of the repository contradict something: nothing is written.
    Repository { refusal: RepositoryRefusal },
    /// Everything could be written, and only that was asked.
    Preview,
    /// These events of the repository are written, and then the new events of the change.
    Write { incoming: IncomingEvents },
}

/// Whether an import of this plan comes to a decision. Conflicts are looked at first, then the
/// history, then the events of the repository.
pub open spec fn decides_import(
    plan: ImportEventPlan,
    candidate: Seq<&Event>,
    permissions: Seq<AppendPermission>,
    replays: bool,
    values: Seq<serde_json::Value>,
    conflicting: Seq<bool>,
    dry_run: bool,
    decision: ImportDecision,
) -> bool {
    let clear = plan.conflicts@.len() == 0;
    let sound = clear && replays && consistent(candidate, permissions);
    let agreeing = sound && agree_until(values, conflicting, values.len() as int);
    match decision {
        ImportDecision::Conflicts => !clear,
        ImportDecision::History { fault } => clear && history_fault(
            candidate,
            permissions,
            replays,
            fault,
        ),
        ImportDecision::Repository { refusal } => sound && repository_fault(
            values,
            conflicting,
            refusal,
        ),
        ImportDecision::Preview => agreeing && dry_run,
        ImportDecision::Write { incoming } => agreeing && !dry_run && gathers(
            incoming,
            values,
            values.len() as int,
        ),
    }
}

/// What an import does: `values` are the events of the repository in the bundle, and `conflicting`
/// says of each whether the ledger has something else under its identity.
pub fn decide_import(
    plan: &ImportEventPlan,
    candidate: &Vec<&Event>,
    permissions: &Vec<AppendPermission>,
    replays: bool,
    values: &Vec<serde_json::Value>,
    conflicting: &Vec<bool>,
    dry_run: bool,
) -> (r: ImportDecision)
    requires
        permissions@.len() == candidate@.len(),
        conflicting@.len() == values@.len(),
    ensures
        decides_import(
            *plan,
            candidate@,
            permissions@,
            replays,
            values@,
            conflicting@,
            dry_run,
            r,
        ),
{
    if plan.conflicts.len() > 0 {
        return ImportDecision::Conflicts;
    }
    if let Err(fault) = validate_import_candidate(candidate, permissions, replays) {
        return ImportDecision::History { fault };
    }
    let incoming = match plan_repository_events(values, conflicting) {
        Ok(incoming) => incoming,
        Err(refusal) => {
            return ImportDecision::Repository { refusal };
        },
    };
    proof {
        lemma_gathered_agree(incoming, values@, conflicting@, values@.len() as int);
    }
    if dry_run {
        ImportDecision::Preview
    } else {
        ImportDecision::Write { incoming }
    }
}

impl ImportDecision {
    /// The exit code of an import; a refusal is an error and has none.
    pub fn exit_code(&self) -> (r: Option<i32>)
        ensures
            r == (match *self {
                ImportDecision::Conflicts => Some(1i32),
                ImportDecision::Preview => Some(0i32),
                ImportDecision::Write { .. } => Some(0i32),
                _ => None,
            }),
    {
        match self {
            ImportDecision::Conflicts => Some(1),
            ImportDecision::Preview => Some(0),
            ImportDecision::Write { .. } => Some(0),
            _ => None,
        }
    }
}

/// One thing that an import writes.
#[derive(Clone, Copy, Debug, PartialEq, Eq, Structural)]
pub enum ImportWrite {
    /// The event of the repository at this position of those that are written.
    RepositoryEvent { index: usize },
    /// The new event of the change at this position of the plan.
    Event { index: usize },
    /// The ref at this position that keeps a head from being collected.
    Pin { index: usize },
}

/// What an import writes after `done` things: the events of the repository, then the new events of
/// the change, then the refs. Nothing where it was refused or only asked.
pub open spec fn write_after(
    decision: ImportDecision,
    new_events: nat,
    pins: nat,
    done: nat,
) -> Option<ImportWrite> {
    match decision {
        ImportDecision::Write { incoming } => {
            let repository = incoming.ids@.len();
            if done < repository {
                Some(ImportWrite::RepositoryEvent { index: done as usize })
            } else if done < repository + new_events {
                Some(ImportWrite::Event { index: (done - repository) as usize })
            } else if done < repository + new_events + pins {
                Some(ImportWrite::Pin { index: (done - repository - new_events) as usize })
            } else {
                None
            }
        },
        _ => None,
    }
}

/// What an import writes next, after `done` things.
pub fn next_write(decision: &ImportDecision, plan: &ImportEventPlan, pins: usize, done: usize) -> (r:
    Option<ImportWrite>)
    ensures
        r == write_after(*decision, plan.new_events@.len(), pins as nat, done as nat),
{
    match decision {
        ImportDecision::Write { incoming } => {
            let repository: usize = incoming.ids.len();
            let events: usize = plan.new_events.len();
            if done < repository {
                return Some(ImportWrite::RepositoryEvent { index: done });
            }
            let rest: usize = done - repository;
            if rest < events {
                return Some(ImportWrite::Event { index: rest });
            }
            let last: usize = rest - events;
            if last < pins {
                return Some(ImportWrite::Pin { index: last });
            }
            None
        },
        _ => None,
    }
}

/// An import writes nothing before every refusal was passed: where it writes anything, no event
/// conflicts, the history replays and is consistent, the events of the repository agree, and more
/// than a preview was asked.
pub proof fn refusals_come_before_writes(
    plan: ImportEventPlan,
    candidate: Seq<&Event>,
    permissions: Seq<AppendPermission>,
    replays: bool,
    values: Seq<serde_json::Value>,
    conflicting: Seq<bool>,
    dry_run: bool,
    decision: ImportDecision,
    pins: nat,
    done: nat,
)
    requires
        decides_import(
            plan,
            candidate,
            permissions,
            replays,
            values,
            conflicting,
            dry_run,
            decision,
        ),
        write_after(decision, plan.new_events@.len(), pins, done) is Some,
    ensures
        plan.conflicts@.len() == 0,
        replays,
        consistent(candidate, permissions),
        agree_until(values, conflicting, values.len() as int),
        !dry_run,
{
}

/// The events of the repository are written before any event of the change, and those before any
/// ref.
pub proof fn repository_events_are_written_first(
    decision: ImportDecision,
    new_events: nat,
    pins: nat,
    earlier: nat,
    later: nat,
)
    requires
        earlier < later,
    ensures
        write_after(decision, new_events, pins, earlier) matches Some(ImportWrite::Event { .. })
            ==> !(write_after(decision, new_events, pins, later) matches Some(
            ImportWrite::RepositoryEvent { .. },
        )),
        write_after(decision, new_events, pins, earlier) matches Some(ImportWrite::Pin { .. })
            ==> (write_after(decision, new_events, pins, later) is None || write_after(
            decision,
            new_events,
            pins,
            later,
        ) matches Some(ImportWrite::Pin { .. })),
{
}

proof fn lemma_standing_so(
    ids: Seq<String>,
    standings: Seq<EventStanding>,
    wanted: EventStanding,
    n: int,
    i: int,
)
    requires
        0 <= i < n <= ids.len(),
        standings[i] == wanted,
    ensures
        standing_so(ids, standings, wanted, n).contains(ids[i]@),
    decreases n,
{
    let all = standing_so(ids, standings, wanted, n);
    if i == n - 1 {
        assert(all[all.len() - 1] == ids[i]@);
    } else {
        lemma_standing_so(ids, standings, wanted, n - 1, i);
        let prior = standing_so(ids, standings, wanted, n - 1);
        let k = choose|k: int| 0 <= k < prior.len() && prior[k] == ids[i]@;
        assert(all[k] == ids[i]@);
    }
}

proof fn lemma_standings_count(ids: Seq<String>, standings: Seq<EventStanding>, n: int)
    requires
        0 <= n <= ids.len(),
    ensures
        standing_so(ids, standings, EventStanding::New, n).len() + standing_so(
            ids,
            standings,
            EventStanding::Held,
            n,
        ).len() + standing_so(ids, standings, EventStanding::Conflict, n).len() == n,
    decreases n,
{
    if n > 0 {
        lemma_standings_count(ids, standings, n - 1);
    }
}

/// Every event of a bundle is planned once: what is not stored is new, what is stored and reads the
/// same is skipped, and what is stored and does not is a conflict.
pub proof fn every_event_is_planned_once(
    plan: ImportEventPlan,
    ids: Seq<String>,
    stored: Seq<Option<Vec<u8>>>,
    values: Seq<serde_json::Value>,
    i: int,
)
    requires
        plans_import(plan, ids, all_standings(stored, values)),
        values.len() == ids.len(),
        stored.len() == ids.len(),
        0 <= i < ids.len(),
    ensures
        stored[i] is None ==> among(plan.new_events@, ids[i]@),
        stored[i] is Some ==> (json_of_bytes(stored[i]->0@) matches Some(held) && json_equal(
            held,
            values[i],
        )) ==> among(plan.skipped_events@, ids[i]@),
        stored[i] is Some && !(json_of_bytes(stored[i]->0@) matches Some(held) && json_equal(
            held,
            values[i],
        )) ==> among(plan.conflicts@, ids[i]@),
        plan.new_events@.len() + plan.skipped_events@.len() + plan.conflicts@.len() == ids.len(),
{
    let standings = all_standings(stored, values);
    let n = ids.len() as int;
    lemma_standing_so(ids, standings, standings[i], n, i);
    lemma_standings_count(ids, standings, n);
    lemma_views_contain(plan.new_events@, ids[i]@);
    lemma_views_contain(plan.skipped_events@, ids[i]@);
    lemma_views_contain(plan.conflicts@, ids[i]@);
    assert(views(plan.new_events@).len() == plan.new_events@.len());
    assert(views(plan.skipped_events@).len() == plan.skipped_events@.len());
    assert(views(plan.conflicts@).len() == plan.conflicts@.len());
}

/// An import fails exactly on a conflict.
pub proof fn imports_fail_on_conflicts(plan: &ImportEventPlan, r: i32)
    requires
        is_exit_code(plan, r),
    ensures
        r == 0 <==> plan.conflicts@.len() == 0,
        r == 0 || r == 1,
{
}

/// What is imported into keeps every event that it has, and gets every one that is new and
/// understood, and no other.
pub proof fn candidates_hold_old_and_new(
    candidate: Seq<&Event>,
    local: Seq<Event>,
    ids: Seq<String>,
    bundled: Seq<Option<Event>>,
    new_events: Seq<String>,
    i: int,
)
    requires
        is_candidate(candidate, local, ids, bundled, new_events),
        local.len() + bundled.len() <= usize::MAX,
    ensures
        0 <= i < local.len() ==> exists|k: int|
            0 <= k < candidate.len() && *(#[trigger] candidate[k]) == local[i],
        0 <= i < bundled.len() && bundled[i] is Some && among(new_events, ids[i]@) ==> exists|k: int|
            0 <= k < candidate.len() && *(#[trigger] candidate[k]) == bundled[i]->0,
        forall|k: int|
            0 <= k < candidate.len() ==> (exists|j: int|
                0 <= j < local.len() && *(#[trigger] candidate[k]) == #[trigger] local[j]) || exists|
                j: int,
            |
                0 <= j < bundled.len() && among(new_events, ids[j]@) && bundled[j] is Some
                    && *candidate[k] == (#[trigger] bundled[j])->0,
{
    let order = choose|order: Seq<usize>| #[trigger]
        in_order(order, recorded_earlier(local, bundled)) && (forall|a: usize| #[trigger]
            order.contains(a) <==> pooled(local, ids, bundled, new_events, a as int))
            && candidate.len() == order.len() && forall|k: int|
            0 <= k < order.len() ==> *(#[trigger] candidate[k]) == pool(
                local,
                bundled,
                order[k] as int,
            );
    if 0 <= i < local.len() {
        assert(order.contains(i as usize));
        let k = choose|k: int| 0 <= k < order.len() && order[k] == i as usize;
        assert(*candidate[k] == local[i]);
    }
    if 0 <= i < bundled.len() && bundled[i] is Some && among(new_events, ids[i]@) {
        let a = (local.len() + i) as usize;
        assert(pooled(local, ids, bundled, new_events, a as int));
        assert(order.contains(a));
        let k = choose|k: int| 0 <= k < order.len() && order[k] == a;
        assert(*candidate[k] == bundled[i]->0);
    }
    assert forall|k: int| 0 <= k < candidate.len() implies (exists|j: int|
        0 <= j < local.len() && *(#[trigger] candidate[k]) == #[trigger] local[j]) || exists|
        j: int,
    |
        0 <= j < bundled.len() && among(new_events, ids[j]@) && bundled[j] is Some && *candidate[k]
            == (#[trigger] bundled[j])->0 by {
        assert(order.contains(order[k]));
        let a = order[k] as int;
        if a < local.len() {
            assert(*candidate[k] == local[a]);
        } else {
            assert(*candidate[k] == bundled[a - local.len()]->0);
        }
    }
}

/// The heads that are kept are those that are here.
pub proof fn present_heads_are_kept(
    bases: &Vec<bool>,
    heads: &Vec<bool>,
    i: usize,
    r: (Vec<MissingObject>, Vec<usize>),
)
    requires
        plans_objects(bases, heads, r),
        i < heads@.len(),
    ensures
        r.1@.contains(i) <==> heads@[i as int],
        (forall|k: int| 0 <= k < heads@.len() ==> #[trigger] heads@[k] && bases@[k])
            ==> r.0@.len() == 0,
{
    let wanted = |i: int| heads@[i];
    lemma_chosen(heads@.len(), wanted);
    lemma_ints_contain(r.1@, i);
    assert(chosen(heads@.len(), wanted).contains(i as int) <==> wanted(i as int));
    if forall|k: int| 0 <= k < heads@.len() ==> #[trigger] heads@[k] && bases@[k] {
        lemma_nothing_missing(bases@, heads@, heads@.len() as int);
        assert(missing_views(r.0@).len() == r.0@.len());
    }
}

proof fn lemma_nothing_missing(bases: Seq<bool>, heads: Seq<bool>, n: int)
    requires
        0 <= n <= heads.len(),
        forall|k: int| 0 <= k < heads.len() ==> #[trigger] heads[k] && bases[k],
    ensures
        missing_of(bases, heads, n).len() == 0,
    decreases n,
{
    if n > 0 {
        lemma_nothing_missing(bases, heads, n - 1);
        assert(heads[n - 1] && bases[n - 1]);
    }
}

} // verus!
