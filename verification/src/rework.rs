//! Revision cycles: which patchsets were sent back, and what answered them.
use crate::event::{Event, Payload};
use crate::model::Verdict;
use crate::table::{ascending, insert_name, lemma_one_place, lemma_views_listed, listed};
use crate::text::{among, precedes, same, views};
use vstd::prelude::*;
use vstd::set_lib::*;

verus! {

/// Whether an event asks for changes to a patchset.
pub open spec fn requests(event: Event, id: Seq<char>) -> bool {
    match event.payload {
        Payload::VerdictRecorded { patchset_id, verdict, .. } => patchset_id@ == id && verdict
            == Verdict::ChangesRequested,
        _ => false,
    }
}

/// Whether an event approves a patchset.
pub open spec fn approves(event: Event, id: Seq<char>) -> bool {
    match event.payload {
        Payload::VerdictRecorded { patchset_id, verdict, .. } => patchset_id@ == id && verdict
            == Verdict::Approved,
        _ => false,
    }
}

/// Whether an event adds a patchset of this identity.
pub open spec fn adds(event: Event, id: Seq<char>) -> bool {
    match event.payload {
        Payload::PatchsetAdded { patchset_id, .. } => patchset_id@ == id,
        _ => false,
    }
}

/// The identity of the patchset that an event adds.
pub open spec fn added_id(event: Event) -> Option<Seq<char>> {
    match event.payload {
        Payload::PatchsetAdded { patchset_id, .. } => Some(patchset_id@),
        _ => None,
    }
}

/// The head of the patchset that an event adds.
pub open spec fn added_head(event: Event) -> Option<Seq<char>> {
    match event.payload {
        Payload::PatchsetAdded { head, .. } => Some(head@),
        _ => None,
    }
}

/// Whether some event asks for changes to a patchset.
pub open spec fn requested(events: Seq<Event>) -> spec_fn(Seq<char>) -> bool {
    |id: Seq<char>| exists|i: int| 0 <= i < events.len() && requests(#[trigger] events[i], id)
}

/// The head of the first patchset of this identity.
pub open spec fn head_of(events: Seq<Event>, id: Seq<char>) -> Option<Seq<char>>
    decreases events.len(),
{
    if events.len() == 0 {
        None
    } else if adds(events[0], id) {
        added_head(events[0])
    } else {
        head_of(events.drop_first(), id)
    }
}

/// The head of the first patchset that some events add.
pub open spec fn first_head(events: Seq<Event>) -> Option<Seq<char>>
    decreases events.len(),
{
    if events.len() == 0 {
        None
    } else if events[0].payload is PatchsetAdded {
        added_head(events[0])
    } else {
        first_head(events.drop_first())
    }
}

/// The position of the first request for changes to a patchset.
pub open spec fn first_request(events: Seq<Event>, id: Seq<char>) -> int
    decreases events.len(),
{
    if events.len() == 0 || requests(events[0], id) {
        0
    } else {
        1 + first_request(events.drop_first(), id)
    }
}

/// Whether a patchset that was sent back was reworked: the next patchset after the first
/// request has another head, and after it came an approval of a patchset whose last
/// snapshot also came after the request.
pub open spec fn reworked(events: Seq<Event>, id: Seq<char>) -> bool {
    let request = first_request(events, id);
    &&& first_head(events.skip(request + 1)) != head_of(events, id)
    &&& exists|a: int, p: int|
        request < a < events.len() && request < p < events.len() && closes(
            #[trigger] events[a],
            #[trigger] events[p],
        )
}

/// Whether one event approves the patchset that another adds.
pub open spec fn closes(approval: Event, added: Event) -> bool {
    match added_id(added) {
        Some(id) => approves(approval, id),
        None => false,
    }
}

/// What the revision cycles of a change come to.
#[derive(Debug)]
pub struct ReworkStats {
    pub changes_requested_rounds: usize,
    pub completed_rework_rounds: usize,
    pub first_pass_approval: bool,
    pub reworked_patchsets: Vec<String>,
}

proof fn lemma_first_request(events: Seq<Event>, id: Seq<char>, n: int)
    requires
        0 <= n < events.len(),
        requests(events[n], id),
        forall|k: int| 0 <= k < n ==> !requests(#[trigger] events[k], id),
    ensures
        first_request(events, id) == n,
    decreases n,
{
    if n > 0 {
        let rest = events.drop_first();
        assert forall|k: int| 0 <= k < n - 1 implies !requests(#[trigger] rest[k], id) by {
            assert(rest[k] == events[k + 1]);
        }
        assert(rest[n - 1] == events[n]);
        lemma_first_request(rest, id, n - 1);
    }
}

fn is_request(event: &Event, id: &str) -> (r: bool)
    ensures
        r == requests(*event, id@),
{
    match &event.payload {
        Payload::VerdictRecorded { patchset_id, verdict, .. } => same(patchset_id.as_str(), id)
            && *verdict == Verdict::ChangesRequested,
        _ => false,
    }
}

fn is_approval(event: &Event, id: &str) -> (r: bool)
    ensures
        r == approves(*event, id@),
{
    match &event.payload {
        Payload::VerdictRecorded { patchset_id, verdict, .. } => same(patchset_id.as_str(), id)
            && *verdict == Verdict::Approved,
        _ => false,
    }
}

/// The first position at which changes to a patchset were requested.
fn find_request(events: &Vec<Event>, id: &str) -> (r: Option<usize>)
    ensures
        match r {
            Some(n) => n < events@.len() && n == first_request(events@, id@),
            None => !requested(events@)(id@),
        },
{
    for n in 0..events.len()
        invariant
            forall|k: int| 0 <= k < n ==> !requests(#[trigger] events@[k], id@),
    {
        if is_request(&events[n], id) {
            proof {
                lemma_first_request(events@, id@, n as int);
            }
            return Some(n);
        }
    }
    None
}

/// The head of the first patchset of this identity.
fn find_head<'a>(events: &'a Vec<Event>, id: &str) -> (r: Option<&'a String>)
    ensures
        match r {
            Some(head) => head_of(events@, id@) == Some(head@),
            None => head_of(events@, id@) is None,
        },
{
    assert(events@.skip(0) =~= events@);
    for n in 0..events.len()
        invariant
            head_of(events@.skip(n as int), id@) == head_of(events@, id@),
    {
        let ghost rest = events@.skip(n as int);
        assert(rest[0] == events@[n as int]);
        assert(rest.drop_first() =~= events@.skip(n + 1));
        if let Payload::PatchsetAdded { patchset_id, head, .. } = &events[n].payload {
            if same(patchset_id.as_str(), id) {
                return Some(head);
            }
        }
    }
    assert(events@.skip(events@.len() as int).len() == 0);
    None
}

/// The head of the first patchset added at or after a position.
fn find_head_from<'a>(events: &'a Vec<Event>, from: usize) -> (r: Option<&'a String>)
    requires
        from <= events@.len(),
    ensures
        match r {
            Some(head) => first_head(events@.skip(from as int)) == Some(head@),
            None => first_head(events@.skip(from as int)) is None,
        },
{
    for n in from..events.len()
        invariant
            from <= events@.len(),
            first_head(events@.skip(n as int)) == first_head(events@.skip(from as int)),
    {
        let ghost rest = events@.skip(n as int);
        assert(rest[0] == events@[n as int]);
        assert(rest.drop_first() =~= events@.skip(n + 1));
        if let Payload::PatchsetAdded { head, .. } = &events[n].payload {
            return Some(head);
        }
    }
    assert(events@.skip(events@.len() as int).len() == 0);
    None
}

/// Whether some patchset added after a position was also approved after it.
fn approved_after(events: &Vec<Event>, request: usize) -> (r: bool)
    requires
        request < events@.len(),
    ensures
        r == exists|a: int, p: int|
            request < a < events@.len() && request < p < events@.len() && closes(
                #[trigger] events@[a],
                #[trigger] events@[p],
            ),
{
    for p in request + 1..events.len()
        invariant
            request < events@.len(),
            forall|a: int, q: int|
                request < a < events@.len() && request < q < p ==> !closes(
                    #[trigger] events@[a],
                    #[trigger] events@[q],
                ),
    {
        if let Payload::PatchsetAdded { patchset_id, .. } = &events[p].payload {
            for a in request + 1..events.len()
                invariant
                    request < p < events@.len(),
                    added_id(events@[p as int]) == Some(patchset_id@),
                    forall|b: int|
                        request < b < a ==> !closes(#[trigger] events@[b], events@[p as int]),
            {
                if is_approval(&events[a], patchset_id.as_str()) {
                    assert(closes(events@[a as int], events@[p as int]));
                    return true;
                }
            }
        }
    }
    false
}

fn is_reworked(events: &Vec<Event>, id: &str) -> (r: bool)
    requires
        requested(events@)(id@),
    ensures
        r == reworked(events@, id@),
{
    match find_request(events, id) {
        Some(request) => {
            let total: usize = events.len();
            assert(request < total);
            let answer = find_head_from(events, request + 1);
            let asked = find_head(events, id);
            let moved = match answer {
                Some(a) => match asked {
                    Some(b) => !same(a.as_str(), b.as_str()),
                    None => true,
                },
                None => asked.is_some(),
            };
            moved && approved_after(events, request)
        },
        None => false,
    }
}

/// Whether an event adds a patchset whose identity no later event takes again.
pub open spec fn standing(events: Seq<Event>, i: int) -> bool {
    &&& 0 <= i < events.len()
    &&& added_id(events[i]) is Some
    &&& forall|j: int| i < j < events.len() ==> added_id(#[trigger] events[j]) != added_id(events[i])
}

/// Whether the patchset that stands first was approved before any request for changes.
pub open spec fn approved_first(events: Seq<Event>) -> bool {
    exists|i: int, a: int|
        {
            &&& #[trigger] standing(events, i)
            &&& forall|j: int| 0 <= j < i ==> !#[trigger] standing(events, j)
            &&& 0 <= a < events.len()
            &&& closes(#[trigger] events[a], events[i])
            &&& forall|b: int| 0 <= b < a ==> !asks_for_changes(#[trigger] events[b])
        }
}

/// Whether an event asks for changes.
pub open spec fn asks_for_changes(event: Event) -> bool {
    match event.payload {
        Payload::VerdictRecorded { verdict, .. } => verdict == Verdict::ChangesRequested,
        _ => false,
    }
}

fn is_standing(events: &Vec<Event>, i: usize) -> (r: bool)
    requires
        i < events@.len(),
    ensures
        r == standing(events@, i as int),
{
    match &events[i].payload {
        Payload::PatchsetAdded { patchset_id, .. } => {
            for j in i + 1..events.len()
                invariant
                    i < events@.len(),
                    added_id(events@[i as int]) == Some(patchset_id@),
                    forall|k: int|
                        i < k < j ==> added_id(#[trigger] events@[k]) != added_id(
                            events@[i as int],
                        ),
            {
                if let Payload::PatchsetAdded { patchset_id: other, .. } = &events[j].payload {
                    if same(other.as_str(), patchset_id.as_str()) {
                        assert(added_id(events@[j as int]) == added_id(events@[i as int]));
                        return false;
                    }
                }
            }
            true
        },
        _ => false,
    }
}

fn is_approved_first(events: &Vec<Event>) -> (r: bool)
    ensures
        r == approved_first(events@),
{
    for i in 0..events.len()
        invariant
            forall|j: int| 0 <= j < i ==> !#[trigger] standing(events@, j),
    {
        if is_standing(events, i) {
            if let Payload::PatchsetAdded { patchset_id, .. } = &events[i].payload {
                for a in 0..events.len()
                    invariant
                        i < events@.len(),
                        standing(events@, i as int),
                        forall|j: int| 0 <= j < i ==> !#[trigger] standing(events@, j),
                        added_id(events@[i as int]) == Some(patchset_id@),
                        forall|b: int| 0 <= b < a ==> !asks_for_changes(#[trigger] events@[b]),
                        forall|b: int|
                            0 <= b < a ==> !closes(#[trigger] events@[b], events@[i as int]),
                {
                    if is_approval(&events[a], patchset_id.as_str()) {
                        assert(closes(events@[a as int], events@[i as int]));
                        return true;
                    }
                    if let Payload::VerdictRecorded { verdict, .. } = &events[a].payload {
                        if *verdict == Verdict::ChangesRequested {
                            assert(asks_for_changes(events@[a as int]));
                            return false;
                        }
                    }
                }
            }
            return false;
        }
    }
    false
}

/// The identities of the patchsets to which changes were requested, in ascending order.
pub fn requested_patchsets(events: &Vec<Event>) -> (r: Vec<String>)
    ensures
        ascending(views(r@)),
        forall|id: Seq<char>| #[trigger] among(r@, id) <==> requested(events@)(id),
        views(r@) == listed(requested(events@)),
{
    let mut ids: Vec<String> = Vec::new();
    for i in 0..events.len()
        invariant
            ascending(views(ids@)),
            forall|id: Seq<char>| #[trigger]
                among(ids@, id) <==> exists|k: int|
                    0 <= k < i && requests(#[trigger] events@[k], id),
    {
        if let Payload::VerdictRecorded { patchset_id, verdict, .. } = &events[i].payload {
            if *verdict == Verdict::ChangesRequested {
                insert_name(&mut ids, patchset_id.as_str());
                assert(requests(events@[i as int], patchset_id@));
            }
        }
    }
    proof {
        lemma_views_listed(ids@, requested(events@));
    }
    ids
}

/// Whether a patchset was sent back and reworked.
pub open spec fn completed(events: Seq<Event>) -> spec_fn(Seq<char>) -> bool {
    |id: Seq<char>| requested(events)(id) && reworked(events, id)
}

/// The revision cycles of a change. A round is a patchset sent back, however many verdicts sent
/// it back; it is completed where the patchset was reworked.
pub fn derive_rework(events: &Vec<Event>) -> (r: ReworkStats)
    ensures
        r.changes_requested_rounds == listed(requested(events@)).len(),
        views(r.reworked_patchsets@) == listed(completed(events@)),
        forall|id: Seq<char>| #[trigger]
            among(r.reworked_patchsets@, id) <==> completed(events@)(id),
        ascending(views(r.reworked_patchsets@)),
        r.completed_rework_rounds == r.reworked_patchsets@.len(),
        r.completed_rework_rounds <= r.changes_requested_rounds,
        r.first_pass_approval == approved_first(events@),
{
    let ids = requested_patchsets(events);
    let mut done: Vec<String> = Vec::new();
    for i in 0..ids.len()
        invariant
            ascending(views(ids@)),
            ascending(views(done@)),
            done@.len() <= i,
            forall|id: Seq<char>| #[trigger] among(ids@, id) <==> requested(events@)(id),
            forall|id: Seq<char>| #[trigger]
                among(done@, id) <==> completed(events@)(id) && among(ids@.take(i as int), id),
    {
        let ghost before = done@;
        let ghost head = ids@.take(i as int);
        let ghost next = ids@.take(i + 1);
        let ghost here = ids@[i as int]@;
        assert(among(ids@, here));
        let hit = is_reworked(events, ids[i].as_str());
        if hit {
            let id = ids[i].clone();
            done.push(id);
        }
        proof {
            assert forall|id: Seq<char>| #[trigger] among(next, id) <==> among(head, id) || id
                == here by {
                if among(next, id) {
                    let k = choose|k: int| 0 <= k < next.len() && #[trigger] next[k]@ == id;
                    if k < i {
                        assert(head[k]@ == id);
                    }
                }
                if among(head, id) {
                    let k = choose|k: int| 0 <= k < head.len() && #[trigger] head[k]@ == id;
                    assert(next[k]@ == id);
                }
                assert(next[i as int]@ == here);
            }
            assert forall|id: Seq<char>| #[trigger] among(done@, id) <==> completed(events@)(id)
                && among(next, id) by {
                if hit {
                    if among(done@, id) {
                        let k = choose|k: int| 0 <= k < done@.len() && #[trigger] done@[k]@ == id;
                        if k < before.len() {
                            assert(before[k]@ == id);
                            assert(among(before, id));
                        }
                    }
                    if among(before, id) {
                        let k = choose|k: int| 0 <= k < before.len() && #[trigger] before[k]@ == id;
                        assert(done@[k]@ == id);
                    }
                    assert(done@[before.len() as int]@ == here);
                }
                assert(among(before, id) <==> completed(events@)(id) && among(head, id));
            }
            if hit {
                lemma_push_ascending(before, done@, head, ids@, i as int);
            }
        }
    }
    assert(ids@.take(ids@.len() as int) =~= ids@);
    proof {
        assert forall|id: Seq<char>| #[trigger] among(done@, id) <==> completed(events@)(
            id,
        ) by {
            assert(among(ids@, id) <==> requested(events@)(id));
        }
        lemma_views_listed(done@, completed(events@));
    }
    ReworkStats {
        changes_requested_rounds: ids.len(),
        completed_rework_rounds: done.len(),
        first_pass_approval: is_approved_first(events),
        reworked_patchsets: done,
    }
}

proof fn lemma_push_ascending(
    before: Seq<String>,
    after: Seq<String>,
    head: Seq<String>,
    all: Seq<String>,
    i: int,
)
    requires
        0 <= i < all.len(),
        head == all.take(i),
        ascending(views(all)),
        ascending(views(before)),
        after.len() == before.len() + 1,
        forall|k: int| 0 <= k < before.len() ==> after[k] == before[k],
        after.last()@ == all[i]@,
        forall|id: Seq<char>| #[trigger] among(before, id) ==> among(head, id),
    ensures
        ascending(views(after)),
{
    let names = views(after);
    assert forall|a: int, b: int| 0 <= a < b < names.len() implies precedes(
        #[trigger] names[a],
        #[trigger] names[b],
    ) by {
        assert(before[a]@ == names[a]);
        if b < before.len() {
            assert(precedes(views(before)[a], views(before)[b]));
        } else {
            assert(among(before, names[a]));
            let k = choose|k: int| 0 <= k < head.len() && #[trigger] head[k]@ == names[a];
            assert(all[k]@ == names[a]);
            assert(precedes(views(all)[k], views(all)[i]));
        }
    }
}

/// There are no more rounds than events: each patchset sent back has an event that sent it back.
pub proof fn rounds_no_more_than_events(events: Seq<Event>, ids: Seq<String>)
    requires
        ascending(views(ids)),
        forall|id: Seq<char>| #[trigger] among(ids, id) ==> requested(events)(id),
    ensures
        ids.len() <= events.len(),
{
    let places = Seq::new(
        ids.len(),
        |k: int|
            choose|i: int| 0 <= i < events.len() && requests(#[trigger] events[i], ids[k]@),
    );
    assert forall|k: int| 0 <= k < ids.len() implies 0 <= #[trigger] places[k] < events.len()
        && requests(events[places[k]], ids[k]@) by {
        assert(among(ids, ids[k]@));
    }
    assert(places.no_duplicates()) by {
        assert forall|a: int, b: int|
            0 <= a < places.len() && 0 <= b < places.len() && a != b implies places[a]
            != places[b] by {
            if places[a] == places[b] {
                assert(requests(events[places[a]], ids[a]@));
                assert(requests(events[places[b]], ids[b]@));
                assert(views(ids)[a] == views(ids)[b]);
                lemma_one_place(views(ids), a, b);
            }
        }
    }
    places.unique_seq_to_set();
    let range = set_int_range(0, events.len() as int);
    lemma_int_range(0, events.len() as int);
    assert(places.to_set().subset_of(range)) by {
        assert forall|x: int| places.to_set().contains(x) implies range.contains(x) by {
            let k = choose|k: int| 0 <= k < places.len() && places[k] == x;
            assert(0 <= places[k] < events.len());
        }
    }
    lemma_len_subset(places.to_set(), range);
}

/// A patchset counts as sent back exactly where a verdict on it asks for changes: an approval or a
/// comment sends nothing back.
pub proof fn only_requests_send_back(events: Seq<Event>, id: Seq<char>)
    ensures
        requested(events)(id) <==> exists|i: int|
            0 <= i < events.len() && ((#[trigger] events[i]).payload matches
                Payload::VerdictRecorded { patchset_id, verdict: Verdict::ChangesRequested, .. }
                && patchset_id@ == id),
{
    if requested(events)(id) {
        let i = choose|i: int| 0 <= i < events.len() && requests(#[trigger] events[i], id);
        assert(events[i].payload matches Payload::VerdictRecorded {
            patchset_id,
            verdict: Verdict::ChangesRequested,
            ..
        } && patchset_id@ == id);
    }
    if exists|i: int|
        0 <= i < events.len() && ((#[trigger] events[i]).payload matches Payload::VerdictRecorded {
            patchset_id,
            verdict: Verdict::ChangesRequested,
            ..
        } && patchset_id@ == id) {
        let i = choose|i: int|
            0 <= i < events.len() && ((#[trigger] events[i]).payload matches
                Payload::VerdictRecorded { patchset_id, verdict: Verdict::ChangesRequested, .. }
                && patchset_id@ == id);
        assert(requests(events[i], id));
    }
}

/// Nothing is approved at the first pass where changes were asked for before any approval, or where
/// nothing was approved.
pub proof fn first_passes_have_no_request_before(events: Seq<Event>, n: int)
    requires
        0 <= n <= events.len(),
        n < events.len() ==> (events[n].payload matches Payload::VerdictRecorded {
            verdict: Verdict::ChangesRequested,
            ..
        }),
        forall|a: int|
            0 <= a < n ==> !((#[trigger] events[a]).payload matches Payload::VerdictRecorded {
                verdict: Verdict::Approved,
                ..
            }),
    ensures
        !approved_first(events),
{
    if approved_first(events) {
        let (i, a) = choose|i: int, a: int|
            {
                &&& #[trigger] standing(events, i)
                &&& forall|j: int| 0 <= j < i ==> !#[trigger] standing(events, j)
                &&& 0 <= a < events.len()
                &&& closes(#[trigger] events[a], events[i])
                &&& forall|b: int| 0 <= b < a ==> !asks_for_changes(#[trigger] events[b])
            };
        if a < n {
            assert(events[a].payload matches Payload::VerdictRecorded {
                verdict: Verdict::Approved,
                ..
            });
        } else if n < a {
            assert(asks_for_changes(events[n]));
        }
    }
}

/// A change with one patchset that was approved, and for which nobody asked for changes before, was
/// approved at the first pass.
pub proof fn plain_approvals_are_first_passes(events: Seq<Event>, p: int, a: int, id: Seq<char>)
    requires
        0 <= p < events.len(),
        events[p].payload matches Payload::PatchsetAdded { patchset_id, .. } && patchset_id@ == id,
        forall|k: int|
            0 <= k < events.len() && k != p ==> !((#[trigger] events[k]).payload is PatchsetAdded),
        0 <= a < events.len(),
        events[a].payload matches Payload::VerdictRecorded {
            patchset_id,
            verdict: Verdict::Approved,
            ..
        } && patchset_id@ == id,
        forall|b: int|
            0 <= b < a ==> !((#[trigger] events[b]).payload matches Payload::VerdictRecorded {
                verdict: Verdict::ChangesRequested,
                ..
            }),
    ensures
        approved_first(events),
{
    assert forall|j: int| p < j < events.len() implies added_id(#[trigger] events[j]) != added_id(
        events[p],
    ) by {
        assert(!(events[j].payload is PatchsetAdded));
    }
    assert(standing(events, p));
    assert forall|j: int| 0 <= j < p implies !#[trigger] standing(events, j) by {
        assert(!(events[j].payload is PatchsetAdded));
    }
    assert(closes(events[a], events[p]));
    assert forall|b: int| 0 <= b < a implies !asks_for_changes(#[trigger] events[b]) by {
        assert(!(events[b].payload matches Payload::VerdictRecorded {
            verdict: Verdict::ChangesRequested,
            ..
        }));
    }
}

/// A round is completed only by an approval: where nothing was approved, nothing was reworked.
pub proof fn rework_ends_in_an_approval(events: Seq<Event>, id: Seq<char>)
    requires
        forall|a: int|
            0 <= a < events.len() ==> !((#[trigger] events[a]).payload matches
                Payload::VerdictRecorded { verdict: Verdict::Approved, .. }),
    ensures
        !completed(events)(id),
{
    if completed(events)(id) {
        let request = first_request(events, id);
        let (a, p) = choose|a: int, p: int|
            request < a < events.len() && request < p < events.len() && closes(
                #[trigger] events[a],
                #[trigger] events[p],
            );
        lemma_request_in_range(events, id);
        assert(events[a].payload matches Payload::VerdictRecorded {
            verdict: Verdict::Approved,
            ..
        });
    }
}

proof fn lemma_request_in_range(events: Seq<Event>, id: Seq<char>)
    ensures
        0 <= first_request(events, id) <= events.len(),
    decreases events.len(),
{
    if events.len() > 0 && !requests(events[0], id) {
        lemma_request_in_range(events.drop_first(), id);
    }
}

} // verus!
