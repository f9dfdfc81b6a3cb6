//! Delegated runs: the rounds on each subject, how each ended, and what was put off.
use crate::event::{CommitRange, DeferredFinding, Event, Payload, RunFinding};
use crate::model::Severity;
use crate::order::{
    chosen, count, in_order, ints, lemma_chosen, lemma_ints_contain, sort_positions, strict_order,
};
use crate::text::{
    among, blank, contains, decimal, decimal_of, is_blank, join, joined, push_text, same, views,
};
use crate::time::{before, lemma_instants_are_ordered, stamp_text, write_stamp, Timestamp};
use vstd::prelude::*;

verus! {

/// What a delegated run was dispatched against. Rounds are ordinals within a subject.
#[derive(Debug)]
pub enum RunSubject {
    Change { id: String },
    Fork { slug: String },
    Range { base: String, head: String },
}

/// What a subject is.
pub enum SubjectView {
    Change { id: Seq<char> },
    Fork { slug: Seq<char> },
    Range { base: Seq<char>, head: Seq<char> },
}

impl View for RunSubject {
    type V = SubjectView;

    open spec fn view(&self) -> SubjectView {
        match self {
            RunSubject::Change { id } => SubjectView::Change { id: id@ },
            RunSubject::Fork { slug } => SubjectView::Fork { slug: slug@ },
            RunSubject::Range { base, head } => SubjectView::Range { base: base@, head: head@ },
        }
    }
}

/// What an optional subject is.
pub open spec fn subject_view(subject: Option<RunSubject>) -> Option<SubjectView> {
    match subject {
        Some(s) => Some(s@),
        None => None,
    }
}

/// The subject that a dispatch names: a change before a fork, and a fork before a range.
pub open spec fn subject_of(payload: Payload) -> Option<SubjectView> {
    match payload {
        Payload::RunDispatched { change, fork, range, .. } => match change {
            Some(id) => Some(SubjectView::Change { id: id@ }),
            None => match fork {
                Some(slug) => Some(SubjectView::Fork { slug: slug@ }),
                None => match range {
                    Some(range) => Some(
                        SubjectView::Range { base: range.base@, head: range.head@ },
                    ),
                    None => None,
                },
            },
        },
        _ => None,
    }
}

/// How a subject reads in a listing.
pub open spec fn label_text(subject: SubjectView) -> Seq<char> {
    match subject {
        SubjectView::Change { id } => "change "@ + id,
        SubjectView::Fork { slug } => "fork "@ + slug,
        SubjectView::Range { base, head } => "range "@ + base + ".."@ + head,
    }
}

impl RunSubject {
    /// The subject that a dispatch names, or nothing where it names none.
    pub fn of(payload: &Payload) -> (r: Option<RunSubject>)
        ensures
            subject_view(r) == subject_of(*payload),
    {
        match payload {
            Payload::RunDispatched { change, fork, range, .. } => match change {
                Some(id) => Some(RunSubject::Change { id: id.clone() }),
                None => match fork {
                    Some(slug) => Some(RunSubject::Fork { slug: slug.clone() }),
                    None => match range {
                        Some(range) => Some(
                            RunSubject::Range {
                                base: range.base.clone(),
                                head: range.head.clone(),
                            },
                        ),
                        None => None,
                    },
                },
            },
            _ => None,
        }
    }

    /// How the subject reads in a listing.
    pub fn label(&self) -> (r: String)
        ensures
            r@ == label_text(self@),
    {
        match self {
            RunSubject::Change { id } => {
                let mut out = "change ".to_string();
                out.append(id.as_str());
                out
            },
            RunSubject::Fork { slug } => {
                let mut out = "fork ".to_string();
                out.append(slug.as_str());
                out
            },
            RunSubject::Range { base, head } => {
                let mut out = "range ".to_string();
                out.append(base.as_str());
                out.append("..");
                out.append(head.as_str());
                out
            },
        }
    }

    /// Whether two subjects are the same.
    pub fn same_as(&self, other: &RunSubject) -> (r: bool)
        ensures
            r == (self@ == other@),
    {
        match (self, other) {
            (RunSubject::Change { id: a }, RunSubject::Change { id: b }) => same(
                a.as_str(),
                b.as_str(),
            ),
            (RunSubject::Fork { slug: a }, RunSubject::Fork { slug: b }) => same(
                a.as_str(),
                b.as_str(),
            ),
            (
                RunSubject::Range { base: a, head: c },
                RunSubject::Range { base: b, head: d },
            ) => same(a.as_str(), b.as_str()) && same(c.as_str(), d.as_str()),
            _ => false,
        }
    }

    /// A copy of the subject.
    pub fn copy(&self) -> (r: RunSubject)
        ensures
            r@ == self@,
    {
        match self {
            RunSubject::Change { id } => RunSubject::Change { id: id.clone() },
            RunSubject::Fork { slug } => RunSubject::Fork { slug: slug.clone() },
            RunSubject::Range { base, head } => RunSubject::Range {
                base: base.clone(),
                head: head.clone(),
            },
        }
    }
}

fn same_subject(a: &Option<RunSubject>, b: &Option<RunSubject>) -> (r: bool)
    ensures
        r == (subject_view(*a) == subject_view(*b)),
{
    match (a, b) {
        (Some(x), Some(y)) => x.same_as(y),
        (None, None) => true,
        _ => false,
    }
}

fn copy_subject(subject: &Option<RunSubject>) -> (r: Option<RunSubject>)
    ensures
        subject_view(r) == subject_view(*subject),
{
    match subject {
        Some(s) => Some(s.copy()),
        None => None,
    }
}

/// Whether an event is a dispatch.
pub open spec fn is_dispatch(event: Event) -> bool {
    event.payload is RunDispatched
}

/// Whether an event is a dispatch on a subject.
pub open spec fn dispatched_on(subject: Option<SubjectView>) -> spec_fn(Event) -> bool {
    |event: Event| is_dispatch(event) && subject_of(event.payload) == subject
}

/// The ordinal of the dispatch at `i` within its subject.
pub open spec fn ordinal(events: Seq<Event>, i: int) -> nat {
    count(events.take(i + 1), dispatched_on(subject_of(events[i].payload)))
}

/// Rounds count up: of two dispatches on one subject the later one has the greater ordinal.
pub proof fn rounds_count_up(events: Seq<Event>, i: int, j: int)
    requires
        0 <= i < j < events.len(),
        is_dispatch(events[i]),
        is_dispatch(events[j]),
        subject_of(events[i].payload) == subject_of(events[j].payload),
    ensures
        1 <= ordinal(events, i),
        ordinal(events, i) < ordinal(events, j),
{
    let on = dispatched_on(subject_of(events[i].payload));
    assert(events.take(i + 1).drop_last() =~= events.take(i));
    assert(events.take(j + 1).drop_last() =~= events.take(j));
    lemma_count_grows(events, on, i + 1, j);
}

proof fn lemma_count_grows(events: Seq<Event>, wanted: spec_fn(Event) -> bool, m: int, n: int)
    requires
        0 <= m <= n <= events.len(),
    ensures
        count(events.take(m), wanted) <= count(events.take(n), wanted),
    decreases n,
{
    if m < n {
        lemma_count_grows(events, wanted, m, n - 1);
        assert(events.take(n).drop_last() =~= events.take(n - 1));
    }
}

/// Rounds leave no gap: where a dispatch is not the first on its subject, an earlier one has the
/// ordinal before it.
pub proof fn rounds_leave_no_gap(events: Seq<Event>, j: int) -> (i: int)
    requires
        0 <= j < events.len(),
        is_dispatch(events[j]),
        ordinal(events, j) > 1,
    ensures
        0 <= i < j,
        is_dispatch(events[i]),
        subject_of(events[i].payload) == subject_of(events[j].payload),
        ordinal(events, i) == ordinal(events, j) - 1,
{
    let subject = subject_of(events[j].payload);
    assert(events.take(j + 1).drop_last() =~= events.take(j));
    lemma_last_counted(events, subject, j)
}

proof fn lemma_last_counted(events: Seq<Event>, subject: Option<SubjectView>, n: int) -> (i: int)
    requires
        0 <= n <= events.len(),
        count(events.take(n), dispatched_on(subject)) > 0,
    ensures
        0 <= i < n,
        is_dispatch(events[i]),
        subject_of(events[i].payload) == subject,
        count(events.take(i + 1), dispatched_on(subject)) == count(
            events.take(n),
            dispatched_on(subject),
        ),
    decreases n,
{
    if n == 0 {
        assert(events.take(0) =~= Seq::empty());
        assert(false);
        0
    } else {
        assert(events.take(n).drop_last() =~= events.take(n - 1));
        if dispatched_on(subject)(events[n - 1]) {
            n - 1
        } else {
            lemma_last_counted(events, subject, n - 1)
        }
    }
}

/// The ending of a run, with the payload already read.
pub struct RunEnding<'a> {
    pub event: &'a Event,
    pub outcome: &'a String,
    pub note: &'a Option<String>,
    pub reviewed_head: &'a Option<String>,
    pub raised: &'a Vec<RunFinding>,
    pub deferred: &'a Vec<DeferredFinding>,
    pub collects: &'a Vec<String>,
}

/// Whether an event ends the run of a dispatch.
pub open spec fn ends_run(event: Event, dispatch: Seq<char>) -> bool {
    match event.payload {
        Payload::RunEnded { dispatch_event_id, .. } => dispatch_event_id@ == dispatch,
        _ => false,
    }
}

/// Whether the event at `k` is the last that ends the run of a dispatch.
pub open spec fn ending_at(events: Seq<Event>, dispatch: Seq<char>, k: int) -> bool {
    &&& 0 <= k < events.len()
    &&& ends_run(events[k], dispatch)
    &&& forall|j: int| k < j < events.len() ==> !ends_run(#[trigger] events[j], dispatch)
}

/// Whether nothing ends the run of a dispatch.
pub open spec fn never_ends(events: Seq<Event>, dispatch: Seq<char>) -> bool {
    forall|j: int| 0 <= j < events.len() ==> !ends_run(#[trigger] events[j], dispatch)
}

/// Whether `ending` reads an event.
pub open spec fn reads_ending(ending: RunEnding, event: Event) -> bool {
    &&& *ending.event == event
    &&& match event.payload {
        Payload::RunEnded {
            dispatch_event_id,
            outcome,
            reviewed_head,
            raised,
            deferred,
            collects,
            note,
        } => {
            &&& *ending.outcome == outcome
            &&& *ending.note == note
            &&& *ending.reviewed_head == reviewed_head
            &&& *ending.raised == raised
            &&& *ending.deferred == deferred
            &&& *ending.collects == collects
        },
        _ => false,
    }
}

/// Whether `ending` is how the run of a dispatch ended, as far as it did.
pub open spec fn is_ending(
    ending: Option<RunEnding>,
    events: Seq<Event>,
    dispatch: Seq<char>,
) -> bool {
    match ending {
        Some(e) => exists|k: int| #[trigger]
            ending_at(events, dispatch, k) && reads_ending(e, events[k]),
        None => never_ends(events, dispatch),
    }
}

/// How the run of a dispatch ended, where it did: the last ending recorded for it.
pub fn ending_for<'a>(events: &'a Vec<Event>, dispatch_event_id: &str) -> (r: Option<RunEnding<'a>>)
    ensures
        is_ending(r, events@, dispatch_event_id@),
{
    let mut k: usize = events.len();
    while k > 0
        invariant
            k <= events@.len(),
            forall|j: int|
                k <= j < events@.len() ==> !ends_run(#[trigger] events@[j], dispatch_event_id@),
        decreases k,
    {
        k -= 1;
        let event = &events[k];
        if let Payload::RunEnded {
            dispatch_event_id: id,
            outcome,
            reviewed_head,
            raised,
            deferred,
            collects,
            note,
        } = &event.payload {
            if same(id.as_str(), dispatch_event_id) {
                let ending = RunEnding {
                    event,
                    outcome,
                    note,
                    reviewed_head,
                    raised,
                    deferred,
                    collects,
                };
                assert(ending_at(events@, dispatch_event_id@, k as int));
                assert(reads_ending(ending, events@[k as int]));
                return Some(ending);
            }
        }
    }
    None
}

/// One dispatch, its ordinal within its subject, and its ending.
pub struct Round<'a> {
    /// Absent on a dispatch without a subject: such a run belongs to no sequence, so it is
    /// numbered in none.
    pub subject: Option<RunSubject>,
    pub round: Option<usize>,
    pub dispatch: &'a Event,
    pub ending: Option<RunEnding<'a>>,
}

/// Whether `round` is the round of the dispatch at `i`.
pub open spec fn is_round(round: Round, events: Seq<Event>, i: int) -> bool {
    &&& 0 <= i < events.len()
    &&& is_dispatch(events[i])
    &&& *round.dispatch == events[i]
    &&& subject_view(round.subject) == subject_of(events[i].payload)
    &&& match round.round {
        Some(n) => subject_of(events[i].payload) is Some && n == ordinal(events, i),
        None => subject_of(events[i].payload) is None,
    }
    &&& is_ending(round.ending, events, events[i].event_id@)
}

/// The positions of the dispatches.
pub open spec fn dispatches(events: Seq<Event>) -> Seq<int> {
    chosen(events.len(), |i: int| is_dispatch(events[i]))
}

fn count_dispatches(events: &Vec<Event>, subject: &Option<RunSubject>, n: usize) -> (r: usize)
    requires
        n <= events@.len(),
    ensures
        r == count(events@.take(n as int), dispatched_on(subject_view(*subject))),
        r <= n,
{
    let ghost on = dispatched_on(subject_view(*subject));
    let mut total: usize = 0;
    assert(events@.take(0) =~= Seq::empty());
    for i in 0..n
        invariant
            n <= events@.len(),
            on == dispatched_on(subject_view(*subject)),
            total == count(events@.take(i as int), on),
            total <= i,
    {
        assert(events@.take(i + 1).drop_last() =~= events@.take(i as int));
        if matches!(events[i].payload, Payload::RunDispatched { .. }) {
            let named = RunSubject::of(&events[i].payload);
            if same_subject(&named, subject) {
                total += 1;
            }
        }
    }
    total
}

/// Whether `rounds` are the rounds of the dispatches at `positions`.
pub open spec fn are_rounds(rounds: Seq<Round>, events: Seq<Event>, positions: Seq<int>) -> bool {
    rounds.len() == positions.len() && forall|k: int|
        0 <= k < rounds.len() ==> is_round(#[trigger] rounds[k], events, positions[k])
}

/// Every dispatch, the oldest first, numbered within its subject.
pub fn rounds(events: &Vec<Event>) -> (r: Vec<Round<'_>>)
    ensures
        are_rounds(r@, events@, dispatches(events@)),
{
    let mut out: Vec<Round<'_>> = Vec::new();
    let ghost mut positions: Seq<int> = Seq::empty();
    for i in 0..events.len()
        invariant
            positions == chosen(i as nat, |k: int| is_dispatch(events@[k])),
            are_rounds(out@, events@, positions),
    {
        if matches!(events[i].payload, Payload::RunDispatched { .. }) {
            let event = &events[i];
            let subject = RunSubject::of(&event.payload);
            let number: usize = count_dispatches(events, &subject, i + 1);
            let round = if subject.is_some() {
                Some(number)
            } else {
                None
            };
            let entry = Round {
                subject,
                round,
                dispatch: event,
                ending: ending_for(events, event.event_id.as_str()),
            };
            assert(is_round(entry, events@, i as int));
            out.push(entry);
            proof {
                positions = positions.push(i as int);
            }
        }
    }
    out
}

/// One deferral that no later round on its subject has collected.
#[derive(Debug)]
pub struct OpenDeferral {
    pub subject: Option<RunSubject>,
    pub dispatch_event_id: String,
    pub finding: DeferredFinding,
    pub deferred_at: Timestamp,
}

/// What an ending put off.
pub open spec fn deferred_in(event: Event) -> Seq<DeferredFinding> {
    match event.payload {
        Payload::RunEnded { deferred, .. } => deferred@,
        _ => Seq::empty(),
    }
}

/// What an ending collected.
pub open spec fn collected_in(event: Event) -> Seq<String> {
    match event.payload {
        Payload::RunEnded { collects, .. } => collects@,
        _ => Seq::empty(),
    }
}

/// Whether a round on a subject, ended after `since`, collected a deferral.
pub open spec fn collected_later(
    events: Seq<Event>,
    subject: Option<SubjectView>,
    since: Timestamp,
    id: Seq<char>,
    j: int,
    e: int,
) -> bool {
    &&& 0 <= j < events.len()
    &&& is_dispatch(events[j])
    &&& subject_of(events[j].payload) == subject
    &&& ending_at(events, events[j].event_id@, e)
    &&& before(since, events[e].created_at)
    &&& among(collected_in(events[e]), id)
}

/// Whether a deferral is still waiting: no later round on its subject collected it.
pub open spec fn still_open(
    events: Seq<Event>,
    subject: Option<SubjectView>,
    since: Timestamp,
    id: Seq<char>,
) -> bool {
    forall|j: int, e: int| !#[trigger] collected_later(events, subject, since, id, j, e)
}

/// A deferral is open until a later round on the same subject collects it: a round on other work
/// cannot discharge what it never read.
pub proof fn other_subjects_collect_nothing(
    events: Seq<Event>,
    subject: Option<SubjectView>,
    since: Timestamp,
    id: Seq<char>,
)
    requires
        forall|j: int, e: int|
            0 <= j < events.len() && is_dispatch(#[trigger] events[j]) && #[trigger] ending_at(
                events,
                events[j].event_id@,
                e,
            ) && among(collected_in(events[e]), id) ==> subject_of(events[j].payload) != subject,
    ensures
        still_open(events, subject, since, id),
{
}

fn is_collected(
    all: &Vec<Round<'_>>,
    Ghost(events): Ghost<Seq<Event>>,
    subject: &Option<RunSubject>,
    since: Timestamp,
    id: &str,
) -> (r: bool)
    requires
        are_rounds(all@, events, dispatches(events)),
    ensures
        r == !still_open(events, subject_view(*subject), since, id@),
{
    proof {
        lemma_chosen(events.len(), |i: int| is_dispatch(events[i]));
    }
    for k in 0..all.len()
        invariant
            are_rounds(all@, events, dispatches(events)),
            forall|m: int, e: int|
                0 <= m < k ==> !#[trigger] collected_later(
                    events,
                    subject_view(*subject),
                    since,
                    id@,
                    dispatches(events)[m],
                    e,
                ),
    {
        let round = &all[k];
        let ghost j = dispatches(events)[k as int];
        assert(is_round(*round, events, j));
        if same_subject(&round.subject, subject) {
            if let Some(ending) = &round.ending {
                let ghost e = choose|e: int| #[trigger]
                    ending_at(events, events[j].event_id@, e) && reads_ending(*ending, events[e]);
                if since.is_before(&ending.event.created_at) && contains(ending.collects, id) {
                    assert(collected_later(events, subject_view(*subject), since, id@, j, e));
                    return true;
                }
                assert forall|f: int| !#[trigger] collected_later(
                    events,
                    subject_view(*subject),
                    since,
                    id@,
                    j,
                    f,
                ) by {
                    if collected_later(events, subject_view(*subject), since, id@, j, f) {
                        lemma_one_ending(events, events[j].event_id@, e, f);
                    }
                }
            } else {
                assert forall|f: int| !#[trigger] collected_later(
                    events,
                    subject_view(*subject),
                    since,
                    id@,
                    j,
                    f,
                ) by {
                    if collected_later(events, subject_view(*subject), since, id@, j, f) {
                        assert(ends_run(events[f], events[j].event_id@));
                    }
                }
            }
        }
    }
    proof {
        assert forall|j: int, e: int| !#[trigger] collected_later(
            events,
            subject_view(*subject),
            since,
            id@,
            j,
            e,
        ) by {
            if collected_later(events, subject_view(*subject), since, id@, j, e) {
                assert(dispatches(events).contains(j));
                let m = choose|m: int| 0 <= m < dispatches(events).len() && dispatches(events)[m] == j;
                assert(!collected_later(
                    events,
                    subject_view(*subject),
                    since,
                    id@,
                    dispatches(events)[m],
                    e,
                ));
            }
        }
    }
    false
}

/// A run has one last ending.
proof fn lemma_one_ending(events: Seq<Event>, dispatch: Seq<char>, a: int, b: int)
    requires
        ending_at(events, dispatch, a),
        ending_at(events, dispatch, b),
    ensures
        a == b,
{
    if a < b {
        assert(!ends_run(events[b], dispatch));
    }
    if b < a {
        assert(!ends_run(events[a], dispatch));
    }
}

/// A deferral, by the positions of its dispatch, of its ending and of itself among what that
/// ending put off.
pub struct DeferralAt {
    pub dispatch: int,
    pub ending: int,
    pub index: int,
}

/// The ending of the dispatch at `i`.
pub open spec fn end_of(events: Seq<Event>, i: int) -> int {
    choose|e: int| ending_at(events, events[i].event_id@, e)
}

/// The deferrals among the first `n` that the ending of the dispatch at `i` put off and that are
/// still waiting.
pub open spec fn open_of(events: Seq<Event>, i: int, n: int) -> Seq<DeferralAt>
    decreases n,
{
    if n <= 0 {
        Seq::empty()
    } else {
        let e = end_of(events, i);
        let before = open_of(events, i, n - 1);
        if still_open(
            events,
            subject_of(events[i].payload),
            events[e].created_at,
            deferred_in(events[e])[n - 1].id@,
        ) {
            before.push(DeferralAt { dispatch: i, ending: e, index: n - 1 })
        } else {
            before
        }
    }
}

/// The deferrals of the first `n` dispatches that are still waiting, in the order in which they
/// were recorded.
pub open spec fn open_among(events: Seq<Event>, n: int) -> Seq<DeferralAt>
    decreases n,
{
    if n <= 0 {
        Seq::empty()
    } else {
        let i = dispatches(events)[n - 1];
        let before = open_among(events, n - 1);
        if never_ends(events, events[i].event_id@) {
            before
        } else {
            before + open_of(events, i, deferred_in(events[end_of(events, i)]).len() as int)
        }
    }
}

/// Whether `deferral` is the one at a place.
pub open spec fn is_deferral(deferral: OpenDeferral, events: Seq<Event>, at: DeferralAt) -> bool {
    let finding = deferred_in(events[at.ending])[at.index];
    &&& subject_view(deferral.subject) == subject_of(events[at.dispatch].payload)
    &&& deferral.dispatch_event_id@ == events[at.dispatch].event_id@
    &&& deferral.finding.id@ == finding.id@
    &&& deferral.finding.summary@ == finding.summary@
    &&& deferral.finding.severity == finding.severity
    &&& deferral.finding.why@ == finding.why@
    &&& deferral.deferred_at == events[at.ending].created_at
}

/// The newest deferral first; those of one instant stay in their order.
pub open spec fn deferred_later(times: Seq<Timestamp>) -> spec_fn(usize, usize) -> bool {
    |a: usize, b: usize|
        if a < times.len() && b < times.len() {
            before(times[b as int], times[a as int]) || (!before(times[a as int], times[b as int])
                && a < b)
        } else {
            a < b
        }
}

proof fn lemma_deferred_later(times: Seq<Timestamp>)
    ensures
        strict_order(deferred_later(times)),
{
    let order = deferred_later(times);
    assert forall|a: usize| !#[trigger] order(a, a) by {
        if a < times.len() {
            lemma_instants_are_ordered(times[a as int], times[a as int]);
        }
    }
}

/// When each deferral was put off.
pub open spec fn times_of(events: Seq<Event>, places: Seq<DeferralAt>) -> Seq<Timestamp> {
    Seq::new(places.len(), |i: int| events[places[i].ending].created_at)
}

/// Whether `open` are the deferrals that are still waiting, the newest first.
pub open spec fn are_open(open: Seq<OpenDeferral>, events: Seq<Event>) -> bool {
    let places = open_among(events, dispatches(events).len() as int);
    exists|order: Seq<usize>| #[trigger]
        in_order(order, deferred_later(times_of(events, places))) && (forall|a: usize| #[trigger]
            order.contains(a) <==> a < places.len()) && open.len() == order.len() && forall|k: int|
            0 <= k < order.len() ==> is_deferral(
                #[trigger] open[k],
                events,
                places[order[k] as int],
            )
}

/// When each of some deferrals was put off.
spec fn found_times(found: Seq<OpenDeferral>) -> Seq<Timestamp> {
    Seq::new(found.len(), |i: int| found[i].deferred_at)
}

/// Whether the deferrals are, one for one, those at some places.
spec fn match_places(found: Seq<OpenDeferral>, events: Seq<Event>, places: Seq<DeferralAt>) -> bool {
    found.len() == places.len() && forall|k: int|
        0 <= k < found.len() ==> is_deferral(#[trigger] found[k], events, places[k])
}

fn copy_finding(finding: &DeferredFinding) -> (r: DeferredFinding)
    ensures
        r.id@ == finding.id@,
        r.summary@ == finding.summary@,
        r.severity == finding.severity,
        r.why@ == finding.why@,
{
    DeferredFinding {
        id: finding.id.clone(),
        summary: finding.summary.clone(),
        severity: finding.severity,
        why: finding.why.clone(),
    }
}

fn open_in_round(
    all: &Vec<Round<'_>>,
    k: usize,
    Ghost(events): Ghost<Seq<Event>>,
    found: &mut Vec<OpenDeferral>,
)
    requires
        k < all@.len(),
        are_rounds(all@, events, dispatches(events)),
        match_places(old(found)@, events, open_among(events, k as int)),
    ensures
        match_places(final(found)@, events, open_among(events, k + 1)),
{
    let round = &all[k];
    let ghost i = dispatches(events)[k as int];
    assert(is_round(*round, events, i));
    let ending = match &round.ending {
        Some(ending) => ending,
        None => {
            return;
        },
    };
    let ghost e = choose|e: int| #[trigger]
        ending_at(events, events[i].event_id@, e) && reads_ending(*ending, events[e]);
    proof {
        lemma_one_ending(events, events[i].event_id@, e, end_of(events, i));
        assert(ends_run(events[e], events[i].event_id@));
    }
    let deferred = ending.deferred;
    let ghost start = open_among(events, k as int);
    assert(start + open_of(events, i, 0) =~= start);
    for f in 0..deferred.len()
        invariant
            k < all@.len(),
            are_rounds(all@, events, dispatches(events)),
            *round == all@[k as int],
            is_round(*round, events, i),
            i == dispatches(events)[k as int],
            e == end_of(events, i),
            reads_ending(*ending, events[e]),
            deferred@ == deferred_in(events[e]),
            match_places(found@, events, start + open_of(events, i, f as int)),
    {
        let finding = &deferred[f];
        let ghost places = start + open_of(events, i, f as int);
        if !is_collected(
            all,
            Ghost(events),
            &round.subject,
            ending.event.created_at,
            finding.id.as_str(),
        ) {
            let entry = OpenDeferral {
                subject: copy_subject(&round.subject),
                dispatch_event_id: round.dispatch.event_id.clone(),
                finding: copy_finding(finding),
                deferred_at: ending.event.created_at,
            };
            let ghost at = DeferralAt { dispatch: i, ending: e, index: f as int };
            assert(is_deferral(entry, events, at));
            found.push(entry);
            assert(start + open_of(events, i, f + 1) =~= places.push(at));
        }
    }
}

/// The deferrals that are still waiting, the newest first.
pub fn open_deferrals(events: &Vec<Event>) -> (r: Vec<OpenDeferral>)
    ensures
        are_open(r@, events@),
{
    let all = rounds(events);
    let mut found: Vec<OpenDeferral> = Vec::new();
    for k in 0..all.len()
        invariant
            are_rounds(all@, events@, dispatches(events@)),
            match_places(found@, events@, open_among(events@, k as int)),
    {
        open_in_round(&all, k, Ghost(events@), &mut found);
    }
    let ghost places = open_among(events@, dispatches(events@).len() as int);
    let ghost times = times_of(events@, places);
    let mut indices: Vec<usize> = Vec::new();
    for i in 0..found.len()
        invariant
            indices@.len() == i,
            indices@.no_duplicates(),
            forall|k: int| 0 <= k < i ==> #[trigger] indices@[k] == k,
    {
        indices.push(i);
    }
    proof {
        lemma_deferred_later(times);
        assert forall|a: usize| #[trigger] indices@.contains(a) <==> a < places.len() by {
            if a < places.len() {
                assert(indices@[a as int] == a);
            }
        }
    }
    let ahead = |a: usize, b: usize| -> (out: bool)
        requires
            found@.len() > a,
            found@.len() > b,
        ensures
            out == deferred_later(found_times(found@))(a, b),
        {
            found[b].deferred_at.is_before(&found[a].deferred_at) || (
            !found[a].deferred_at.is_before(&found[b].deferred_at) && a < b)
        };
    proof {
        assert forall|k: int| 0 <= k < found@.len() implies #[trigger] found_times(found@)[k]
            == times[k] by {
            assert(is_deferral(found@[k], events@, places[k]));
        }
        assert(found_times(found@) =~= times);
    }
    let order = sort_positions(&indices, ahead, Ghost(deferred_later(times)));
    let mut out: Vec<OpenDeferral> = Vec::new();
    for k in 0..order.len()
        invariant
            match_places(found@, events@, places),
            forall|a: usize| #[trigger] order@.contains(a) <==> a < places.len(),
            out@.len() == k,
            forall|m: int|
                0 <= m < k ==> is_deferral(#[trigger] out@[m], events@, places[order@[m] as int]),
    {
        assert(order@.contains(order@[k as int]));
        let from = &found[order[k]];
        assert(is_deferral(*from, events@, places[order@[k as int] as int]));
        out.push(
            OpenDeferral {
                subject: copy_subject(&from.subject),
                dispatch_event_id: from.dispatch_event_id.clone(),
                finding: copy_finding(&from.finding),
                deferred_at: from.deferred_at,
            },
        );
    }
    assert(in_order(order@, deferred_later(times_of(events@, places))));
    out
}

/// Everything that one dispatch records.
pub struct DispatchInput {
    pub route: String,
    pub worktree: String,
    pub change: Option<String>,
    pub fork: Option<String>,
    pub range: Option<String>,
    pub brief_event_id: Option<String>,
    pub note: Option<String>,
}

/// Why a run is not dispatched.
#[derive(Clone, Copy, Debug, PartialEq, Eq, Structural)]
pub enum DispatchRefusal {
    NoSubject,
    SeveralSubjects { change: bool, fork: bool, range: bool },
}

/// The number of subjects that a dispatch names.
pub open spec fn subjects_named(dispatch: DispatchInput) -> nat {
    (if dispatch.change is Some {
        1nat
    } else {
        0nat
    }) + (if dispatch.fork is Some {
        1nat
    } else {
        0nat
    }) + (if dispatch.range is Some {
        1nat
    } else {
        0nat
    })
}

/// Whether `r` refuses a dispatch that does not name exactly one subject.
pub open spec fn checks_dispatch(
    dispatch: &DispatchInput,
    r: Result<(), DispatchRefusal>,
) -> bool {
    r == (if subjects_named(*dispatch) == 0 {
            Err(DispatchRefusal::NoSubject)
        } else if subjects_named(*dispatch) > 1 {
            Err(
                DispatchRefusal::SeveralSubjects {
                    change: dispatch.change is Some,
                    fork: dispatch.fork is Some,
                    range: dispatch.range is Some,
                },
            )
        } else {
            Ok::<(), DispatchRefusal>(())
        })
}

/// Refuses a dispatch that does not name exactly one subject.
pub fn check_dispatch(dispatch: &DispatchInput) -> (r: Result<(), DispatchRefusal>)
    ensures
        checks_dispatch(dispatch, r),
{
    let change = dispatch.change.is_some();
    let fork = dispatch.fork.is_some();
    let range = dispatch.range.is_some();
    if !change && !fork && !range {
        return Err(DispatchRefusal::NoSubject);
    }
    if (change && fork) || (change && range) || (fork && range) {
        return Err(DispatchRefusal::SeveralSubjects { change, fork, range });
    }
    Ok(())
}

/// Whether `r` records a dispatch, or says why it is refused.
pub open spec fn answers_dispatch(
    dispatch: DispatchInput,
    range: Option<CommitRange>,
    r: Result< Payload, DispatchRefusal, >,
) -> bool {
    match r {
            Ok(payload) => subjects_named(dispatch) == 1 && payload == (Payload::RunDispatched {
                route: dispatch.route,
                worktree: dispatch.worktree,
                change: dispatch.change,
                fork: dispatch.fork,
                range,
                brief_event_id: dispatch.brief_event_id,
                note: dispatch.note,
            }),
            Err(DispatchRefusal::NoSubject) => subjects_named(dispatch) == 0,
            Err(DispatchRefusal::SeveralSubjects { change, fork, range: ranged }) => subjects_named(
                dispatch,
            ) > 1 && change == dispatch.change is Some && fork == dispatch.fork is Some && ranged
                == dispatch.range is Some,
        }
}

/// What records a dispatch. `range` is the range that the dispatch names, read.
pub fn dispatch_run(dispatch: DispatchInput, range: Option<CommitRange>) -> (r: Result<
    Payload,
    DispatchRefusal,
>)
    ensures
        answers_dispatch(dispatch, range, r),
{
    if let Err(refusal) = check_dispatch(&dispatch) {
        return Err(refusal);
    }
    Ok(
        Payload::RunDispatched {
            route: dispatch.route,
            worktree: dispatch.worktree,
            change: dispatch.change,
            fork: dispatch.fork,
            range,
            brief_event_id: dispatch.brief_event_id,
            note: dispatch.note,
        },
    )
}

/// The number of the round that a dispatch begins: one more than there were on its subject.
pub fn next_round(earlier: &Vec<Event>, payload: &Payload) -> (r: usize)
    requires
        earlier@.len() < usize::MAX,
    ensures
        r == count(earlier@, dispatched_on(subject_of(*payload))) + 1,
{
    let subject = RunSubject::of(payload);
    let before: usize = count_dispatches(earlier, &subject, earlier.len());
    assert(earlier@.take(earlier@.len() as int) =~= earlier@);
    before + 1
}

/// The number that a dispatch is told is the ordinal that it has once it is recorded.
pub proof fn announced_rounds_are_the_ordinals(earlier: Seq<Event>, event: Event)
    requires
        is_dispatch(event),
    ensures
        ordinal(earlier.push(event), earlier.len() as int) == count(
            earlier,
            dispatched_on(subject_of(event.payload)),
        ) + 1,
{
    let all = earlier.push(event);
    assert(all.take((earlier.len() + 1) as int) =~= all);
    assert(all.drop_last() =~= earlier);
}

/// Everything that the end of a run records beyond the dispatch that it ends.
pub struct EndingInput {
    pub outcome: String,
    pub reviewed_head: Option<String>,
    pub raised: Vec<RunFinding>,
    pub deferred: Vec<DeferredFinding>,
    pub collects: Vec<String>,
    pub note: Option<String>,
}

/// Why a run is not ended.
#[derive(Clone, Copy, Debug, PartialEq, Eq, Structural)]
pub enum EndRefusal {
    UnknownEvent,
    NotADispatch,
    AlreadyEnded { event: usize },
    NoOpenDeferral { index: usize },
}

/// Whether the first event of this identity is at `k`.
pub open spec fn event_at(events: Seq<Event>, id: Seq<char>, k: int) -> bool {
    &&& 0 <= k < events.len()
    &&& events[k].event_id@ == id
    &&& forall|j: int| 0 <= j < k ==> (#[trigger] events[j]).event_id@ != id
}

/// Whether no event has this identity.
pub open spec fn no_event(events: Seq<Event>, id: Seq<char>) -> bool {
    forall|j: int| 0 <= j < events.len() ==> (#[trigger] events[j]).event_id@ != id
}

fn find_event(events: &Vec<Event>, id: &str) -> (r: Option<usize>)
    ensures
        match r {
            Some(k) => event_at(events@, id@, k as int),
            None => no_event(events@, id@),
        },
{
    for k in 0..events.len()
        invariant
            forall|j: int| 0 <= j < k ==> (#[trigger] events@[j]).event_id@ != id@,
    {
        if same(events[k].event_id.as_str(), id) {
            return Some(k);
        }
    }
    None
}

/// Whether a deferral of this identity waits on a subject.
pub open spec fn waits(
    open: Seq<OpenDeferral>,
    subject: Option<SubjectView>,
    id: Seq<char>,
) -> bool {
    exists|k: int|
        0 <= k < open.len() && subject_view(open[k].subject) == subject && (
        #[trigger] open[k]).finding.id@ == id
}

/// Whether the name at `k` is the first that no deferral on a subject has.
pub open spec fn first_not_waiting(
    open: Seq<OpenDeferral>,
    subject: Option<SubjectView>,
    collects: Seq<String>,
    k: int,
) -> bool {
    &&& 0 <= k < collects.len()
    &&& !waits(open, subject, collects[k]@)
    &&& forall|i: int| 0 <= i < k ==> waits(open, subject, (#[trigger] collects[i])@)
}

fn is_waiting(open: &Vec<OpenDeferral>, subject: &Option<RunSubject>, id: &str) -> (r: bool)
    ensures
        r == waits(open@, subject_view(*subject), id@),
{
    for k in 0..open.len()
        invariant
            forall|j: int|
                0 <= j < k ==> !(subject_view(open@[j].subject) == subject_view(*subject) && (
                #[trigger] open@[j]).finding.id@ == id@),
    {
        if same_subject(&open[k].subject, subject) && same(open[k].finding.id.as_str(), id) {
            assert(open@[k as int].finding.id@ == id@);
            return true;
        }
    }
    false
}

fn find_ending(events: &Vec<Event>, dispatch: &str) -> (r: Option<usize>)
    ensures
        match r {
            Some(k) => ending_at(events@, dispatch@, k as int),
            None => never_ends(events@, dispatch@),
        },
{
    let mut k: usize = events.len();
    while k > 0
        invariant
            k <= events@.len(),
            forall|j: int| k <= j < events@.len() ==> !ends_run(#[trigger] events@[j], dispatch@),
        decreases k,
    {
        k -= 1;
        if let Payload::RunEnded { dispatch_event_id, .. } = &events[k].payload {
            if same(dispatch_event_id.as_str(), dispatch) {
                return Some(k);
            }
        }
    }
    None
}

/// Whether `r` records the end of a run, or says why it is refused.
pub open spec fn answers_end(
    events: &Vec<Event>,
    dispatch_event_id: &str,
    ending: EndingInput,
    r: Result< Payload, EndRefusal, >,
) -> bool {
    match r {
            Ok(Payload::RunEnded {
                dispatch_event_id: id,
                outcome,
                reviewed_head,
                raised,
                deferred,
                collects,
                note,
            }) => {
                &&& id@ == dispatch_event_id@
                &&& outcome == ending.outcome
                &&& reviewed_head == ending.reviewed_head
                &&& raised == ending.raised
                &&& deferred == ending.deferred
                &&& collects == ending.collects
                &&& note == ending.note
                &&& never_ends(events@, dispatch_event_id@)
                &&& exists|k: int, open: Seq<OpenDeferral>| #[trigger]
                    event_at(events@, dispatch_event_id@, k) && is_dispatch(events@[k])
                        && #[trigger] are_open(open, events@) && forall|i: int|
                        0 <= i < ending.collects@.len() ==> waits(
                            open,
                            subject_of(events@[k].payload),
                            (#[trigger] ending.collects@[i])@,
                        )
            },
            Ok(_) => false,
            Err(EndRefusal::UnknownEvent) => no_event(events@, dispatch_event_id@),
            Err(EndRefusal::NotADispatch) => exists|k: int| #[trigger]
                event_at(events@, dispatch_event_id@, k) && !is_dispatch(events@[k]),
            Err(EndRefusal::AlreadyEnded { event }) => ending_at(
                events@,
                dispatch_event_id@,
                event as int,
            ) && exists|k: int| #[trigger]
                event_at(events@, dispatch_event_id@, k) && is_dispatch(events@[k]),
            Err(EndRefusal::NoOpenDeferral { index }) => never_ends(events@, dispatch_event_id@)
                && exists|k: int, open: Seq<OpenDeferral>| #[trigger]
                event_at(events@, dispatch_event_id@, k) && is_dispatch(events@[k])
                    && #[trigger] are_open(open, events@) && first_not_waiting(
                    open,
                    subject_of(events@[k].payload),
                    ending.collects@,
                    index as int,
                ),
        }
}

/// What records the end of a run, or why it is refused: the event is a dispatch that has not ended,
/// and everything that it collects waits on its subject.
pub fn end_run(events: &Vec<Event>, dispatch_event_id: &str, ending: EndingInput) -> (r: Result<
    Payload,
    EndRefusal,
>)
    ensures
        answers_end(events, dispatch_event_id, ending, r),
{
    let k: usize = match find_event(events, dispatch_event_id) {
        Some(k) => k,
        None => return Err(EndRefusal::UnknownEvent),
    };
    assert(event_at(events@, dispatch_event_id@, k as int));
    if !matches!(events[k].payload, Payload::RunDispatched { .. }) {
        return Err(EndRefusal::NotADispatch);
    }
    if let Some(event) = find_ending(events, dispatch_event_id) {
        return Err(EndRefusal::AlreadyEnded { event });
    }
    let subject = RunSubject::of(&events[k].payload);
    let open = open_deferrals(events);
    let collects = &ending.collects;
    for index in 0..collects.len()
        invariant
            collects@ == ending.collects@,
            event_at(events@, dispatch_event_id@, k as int),
            is_dispatch(events@[k as int]),
            never_ends(events@, dispatch_event_id@),
            are_open(open@, events@),
            subject_view(subject) == subject_of(events@[k as int].payload),
            forall|i: int|
                0 <= i < index ==> waits(
                    open@,
                    subject_view(subject),
                    (#[trigger] ending.collects@[i])@,
                ),
    {
        if !is_waiting(&open, &subject, collects[index].as_str()) {
            return Err(EndRefusal::NoOpenDeferral { index });
        }
    }
    Ok(
        Payload::RunEnded {
            dispatch_event_id: dispatch_event_id.to_string(),
            outcome: ending.outcome,
            reviewed_head: ending.reviewed_head,
            raised: ending.raised,
            deferred: ending.deferred,
            collects: ending.collects,
            note: ending.note,
        },
    )
}

/// A finding of a run as it is handed in.
pub struct RunFindingInput {
    pub summary: String,
    pub severity: Option<Severity>,
    pub why: Option<String>,
    pub id: Option<String>,
}

/// The finding at a position says what only a deferral says.
#[derive(Debug, PartialEq, Eq, Structural)]
pub struct RaisedWithReason {
    pub index: usize,
}

/// Whether a finding says what only a deferral says.
pub open spec fn has_reason(input: RunFindingInput) -> bool {
    input.why is Some || input.id is Some
}

/// Whether `r` are the findings that a run raised.
pub open spec fn reads_raised(
    inputs: &Vec<RunFindingInput>,
    r: Result<Vec<RunFinding>, RaisedWithReason>,
) -> bool {
    match r {
            Ok(raised) => raised@.len() == inputs@.len() && forall|i: int|
                0 <= i < inputs@.len() ==> !has_reason(inputs@[i]) && (
                #[trigger] raised@[i]).summary@ == inputs@[i].summary@ && raised@[i].severity
                    == inputs@[i].severity,
            Err(refusal) => refusal.index < inputs@.len() && has_reason(
                inputs@[refusal.index as int],
            ) && forall|i: int| 0 <= i < refusal.index ==> !has_reason(#[trigger] inputs@[i]),
        }
}

/// The findings that a run raised: each a summary and a severity.
pub fn read_raised(inputs: &Vec<RunFindingInput>) -> (r: Result<Vec<RunFinding>, RaisedWithReason>)
    ensures
        reads_raised(inputs, r),
{
    let mut out: Vec<RunFinding> = Vec::new();
    for i in 0..inputs.len()
        invariant
            out@.len() == i,
            forall|k: int| 0 <= k < i ==> !has_reason(#[trigger] inputs@[k]),
            forall|k: int|
                0 <= k < i ==> (#[trigger] out@[k]).summary@ == inputs@[k].summary@
                    && out@[k].severity == inputs@[k].severity,
    {
        if inputs[i].why.is_some() || inputs[i].id.is_some() {
            return Err(RaisedWithReason { index: i });
        }
        out.push(
            RunFinding { summary: inputs[i].summary.clone(), severity: inputs[i].severity },
        );
    }
    Ok(out)
}

/// The finding at a position was put off without a reason.
#[derive(Debug, PartialEq, Eq, Structural)]
pub struct DeferredWithoutReason {
    pub index: usize,
}

/// Whether a finding says why it is put off.
pub open spec fn says_why(input: RunFindingInput) -> bool {
    input.why is Some && !blank(input.why->0@)
}

/// Whether `finding` is the deferral that was handed in; a new identity is `fresh`.
pub open spec fn defers(finding: DeferredFinding, input: RunFindingInput, fresh: Seq<char>) -> bool {
    &&& finding.id@ == (match input.id {
        Some(id) => id@,
        None => fresh,
    })
    &&& finding.summary@ == input.summary@
    &&& finding.severity == input.severity
    &&& finding.why@ == input.why->0@
}

/// Whether `r` are the findings that a run put off.
pub open spec fn reads_deferred(
    inputs: &Vec<RunFindingInput>,
    fresh: &Vec<String>,
    r: Result< Vec<DeferredFinding>, DeferredWithoutReason, >,
) -> bool {
    match r {
            Ok(deferred) => deferred@.len() == inputs@.len() && forall|i: int|
                0 <= i < inputs@.len() ==> says_why(inputs@[i]) && defers(
                    #[trigger] deferred@[i],
                    inputs@[i],
                    fresh@[i]@,
                ),
            Err(refusal) => refusal.index < inputs@.len() && !says_why(
                inputs@[refusal.index as int],
            ) && forall|i: int| 0 <= i < refusal.index ==> says_why(#[trigger] inputs@[i]),
        }
}

/// The findings that a run put off: each with a reason, and under its own identity or a fresh one.
pub fn read_deferred(inputs: &Vec<RunFindingInput>, fresh: &Vec<String>) -> (r: Result<
    Vec<DeferredFinding>,
    DeferredWithoutReason,
>)
    requires
        fresh@.len() == inputs@.len(),
    ensures
        reads_deferred(inputs, fresh, r),
{
    let mut out: Vec<DeferredFinding> = Vec::new();
    for i in 0..inputs.len()
        invariant
            fresh@.len() == inputs@.len(),
            out@.len() == i,
            forall|k: int| 0 <= k < i ==> says_why(#[trigger] inputs@[k]),
            forall|k: int|
                0 <= k < i ==> defers(#[trigger] out@[k], inputs@[k], fresh@[k]@),
    {
        let input = &inputs[i];
        let why = match &input.why {
            Some(why) => why,
            None => return Err(DeferredWithoutReason { index: i }),
        };
        if is_blank(why.as_str()) {
            return Err(DeferredWithoutReason { index: i });
        }
        let id = match &input.id {
            Some(id) => id.clone(),
            None => fresh[i].clone(),
        };
        let finding = DeferredFinding {
            id,
            summary: input.summary.clone(),
            severity: input.severity,
            why: why.clone(),
        };
        assert(defers(finding, inputs@[i as int], fresh@[i as int]@));
        out.push(finding);
    }
    Ok(out)
}

/// The subjects of some rounds.
pub open spec fn subjects_of(rounds: Seq<Round>) -> Seq<Option<SubjectView>> {
    Seq::new(rounds.len(), |i: int| subject_view(rounds[i].subject))
}

/// The subjects of the last `n` of some rounds, the one dispatched last first, each once.
pub open spec fn recent_subjects(all: Seq<Option<SubjectView>>, n: int) -> Seq<Option<SubjectView>>
    decreases n,
{
    if n <= 0 {
        Seq::empty()
    } else {
        let before = recent_subjects(all, n - 1);
        let subject = all[all.len() - n];
        if before.contains(subject) {
            before
        } else {
            before.push(subject)
        }
    }
}

/// The rounds on one subject, by position.
pub struct RunGroup {
    pub subject: Option<RunSubject>,
    pub rounds: Vec<usize>,
}

/// The subjects of some groups.
pub open spec fn group_subjects(groups: Seq<RunGroup>) -> Seq<Option<SubjectView>> {
    Seq::new(groups.len(), |i: int| subject_view(groups[i].subject))
}

/// Whether a group holds the rounds on its subject, in their order.
pub open spec fn groups_rounds(group: RunGroup, rounds: Seq<Round>) -> bool {
    ints(group.rounds@) == chosen(
        rounds.len(),
        |i: int| subject_view(rounds[i].subject) == subject_view(group.subject),
    )
}

fn rounds_on(all: &Vec<Round<'_>>, subject: &Option<RunSubject>) -> (r: Vec<usize>)
    ensures
        ints(r@) == chosen(
            all@.len(),
            |i: int| subject_view(all@[i].subject) == subject_view(*subject),
        ),
{
    let mut out: Vec<usize> = Vec::new();
    for i in 0..all.len()
        invariant
            ints(out@) == chosen(
                i as nat,
                |k: int| subject_view(all@[k].subject) == subject_view(*subject),
            ),
    {
        let ghost before = ints(out@);
        if same_subject(&all[i].subject, subject) {
            out.push(i);
            assert(ints(out@) =~= before.push(i as int));
        }
    }
    out
}

fn is_grouped(groups: &Vec<RunGroup>, subject: &Option<RunSubject>) -> (r: bool)
    ensures
        r == group_subjects(groups@).contains(subject_view(*subject)),
{
    for i in 0..groups.len()
        invariant
            forall|k: int|
                0 <= k < i ==> subject_view((#[trigger] groups@[k]).subject) != subject_view(
                    *subject,
                ),
    {
        if same_subject(&groups[i].subject, subject) {
            assert(group_subjects(groups@)[i as int] == subject_view(*subject));
            return true;
        }
    }
    false
}

/// The rounds grouped by subject: the subject dispatched last first, and the rounds of each in
/// their order.
pub fn list_runs(all: &Vec<Round<'_>>) -> (r: Vec<RunGroup>)
    ensures
        group_subjects(r@) == recent_subjects(subjects_of(all@), all@.len() as int),
        forall|i: int| 0 <= i < r@.len() ==> groups_rounds(#[trigger] r@[i], all@),
{
    let mut out: Vec<RunGroup> = Vec::new();
    let total: usize = all.len();
    assert(group_subjects(out@) =~= Seq::empty());
    for n in 0..total
        invariant
            total == all@.len(),
            group_subjects(out@) == recent_subjects(subjects_of(all@), n as int),
            forall|i: int| 0 <= i < out@.len() ==> groups_rounds(#[trigger] out@[i], all@),
    {
        let ghost before = group_subjects(out@);
        let round = &all[total - 1 - n];
        assert(subjects_of(all@)[total - 1 - n] == subject_view(round.subject));
        if !is_grouped(&out, &round.subject) {
            let group = RunGroup {
                subject: copy_subject(&round.subject),
                rounds: rounds_on(all, &round.subject),
            };
            assert(groups_rounds(group, all@));
            out.push(group);
            assert(group_subjects(out@) =~= before.push(subject_view(round.subject)));
        }
    }
    out
}

/// The positions of the deferrals of a round that are still waiting.
pub fn run_row(round: &Round<'_>, open: &Vec<OpenDeferral>) -> (r: Vec<usize>)
    ensures
        match round.ending {
            Some(ending) => ints(r@) == chosen(
                ending.deferred@.len(),
                |i: int|
                    waits_from(open@, round.dispatch.event_id@, ending.deferred@[i].id@),
            ),
            None => r@.len() == 0,
        },
{
    let mut out: Vec<usize> = Vec::new();
    if let Some(ending) = &round.ending {
        let deferred = ending.deferred;
        for i in 0..deferred.len()
            invariant
                ints(out@) == chosen(
                    i as nat,
                    |k: int| waits_from(open@, round.dispatch.event_id@, deferred@[k].id@),
                ),
        {
            let ghost before = ints(out@);
            if is_waiting_from(open, round.dispatch.event_id.as_str(), deferred[i].id.as_str()) {
                out.push(i);
                assert(ints(out@) =~= before.push(i as int));
            }
        }
    }
    out
}

/// Whether a deferral of this identity waits from a dispatch.
pub open spec fn waits_from(open: Seq<OpenDeferral>, dispatch: Seq<char>, id: Seq<char>) -> bool {
    exists|k: int|
        0 <= k < open.len() && open[k].dispatch_event_id@ == dispatch && (
        #[trigger] open[k]).finding.id@ == id
}

fn is_waiting_from(open: &Vec<OpenDeferral>, dispatch: &str, id: &str) -> (r: bool)
    ensures
        r == waits_from(open@, dispatch@, id@),
{
    for k in 0..open.len()
        invariant
            forall|j: int|
                0 <= j < k ==> !(open@[j].dispatch_event_id@ == dispatch@ && (
                #[trigger] open@[j]).finding.id@ == id@),
    {
        if same(open[k].dispatch_event_id.as_str(), dispatch) && same(
            open[k].finding.id.as_str(),
            id,
        ) {
            assert(open@[k as int].finding.id@ == id@);
            return true;
        }
    }
    false
}

/// A deferral that is still waiting, on one line.
pub struct DeferralText {
    pub id: String,
    pub summary: String,
    pub why: String,
}

/// What is told of a round, each text on one line.
pub struct RoundText {
    pub round: Option<usize>,
    /// How it ended; a round that has not is open.
    pub outcome: Option<String>,
    pub route: String,
    pub worktree: String,
    pub dispatched_at: Timestamp,
    pub dispatch_event_id: String,
    pub change: Option<String>,
    pub note: Option<String>,
    pub ending_note: Option<String>,
    pub reviewed_head: Option<String>,
    pub raised: usize,
    pub deferred: usize,
    pub collects: Vec<String>,
    pub open_deferrals: Vec<DeferralText>,
}

/// A text after a label, where there is one.
pub open spec fn labelled(label: Seq<char>, text: Option<String>) -> Seq<char> {
    match text {
        Some(text) => label + text@,
        None => ""@,
    }
}

/// The number of a round, in words.
pub open spec fn round_word(round: Option<usize>) -> Seq<char> {
    match round {
        Some(n) => "round "@ + decimal_of(n as nat),
        None => "round -"@,
    }
}

/// The first line of a round.
pub open spec fn round_line(row: RoundText) -> Seq<char> {
    "  "@ + round_word(row.round) + "  "@ + (match row.outcome {
        Some(outcome) => outcome@,
        None => "open"@,
    }) + "  route="@ + row.route@ + "  worktree="@ + row.worktree@ + "  dispatched="@
        + stamp_text(row.dispatched_at.secs(), row.dispatched_at.nanos()) + "  dispatch="@ + row.dispatch_event_id@ + labelled(
        "  change="@,
        row.change,
    ) + labelled("  note="@, row.note) + labelled("  ending-note="@, row.ending_note)
}

/// What is told of how a round ended.
pub open spec fn ending_parts(row: RoundText) -> Seq<Seq<char>> {
    (match row.reviewed_head {
        Some(head) => seq!["reviewed="@ + head@],
        None => Seq::empty(),
    }) + (if row.raised > 0 {
        seq!["raised="@ + decimal_of(row.raised as nat)]
    } else {
        Seq::empty()
    }) + (if row.deferred > 0 {
        seq![
            "deferred="@ + decimal_of(row.deferred as nat) + "  open-deferrals="@ + decimal_of(
                row.open_deferrals@.len(),
            ),
        ]
    } else {
        Seq::empty()
    }) + (if row.collects@.len() > 0 {
        seq!["collects="@ + joined(views(row.collects@), ","@)]
    } else {
        Seq::empty()
    })
}

/// The line of a deferral.
pub open spec fn deferral_line(deferral: DeferralText) -> Seq<char> {
    "    open "@ + deferral.id@ + ": "@ + deferral.summary@ + " — "@ + deferral.why@
}

/// The lines of a round.
pub open spec fn round_lines(row: RoundText) -> Seq<Seq<char>> {
    seq![round_line(row)] + (if ending_parts(row).len() > 0 {
        seq!["    "@ + joined(ending_parts(row), "  "@)]
    } else {
        Seq::empty()
    }) + Seq::new(
        row.open_deferrals@.len(),
        |i: int| deferral_line(row.open_deferrals@[i]),
    )
}

fn write_labelled(label: &str, text: &Option<String>) -> (r: String)
    ensures
        r@ == labelled(label@, *text),
{
    match text {
        Some(text) => {
            let mut out = label.to_string();
            out.append(text.as_str());
            out
        },
        None => "".to_string(),
    }
}

fn write_round_word(round: Option<usize>) -> (r: String)
    ensures
        r@ == round_word(round),
{
    match round {
        Some(n) => {
            let number = decimal(n as u64);
            let mut out = "round ".to_string();
            out.append(number.as_str());
            out
        },
        None => "round -".to_string(),
    }
}

fn write_round_line(row: &RoundText) -> (r: String)
    ensures
        r@ == round_line(*row),
{
    let round = write_round_word(row.round);
    let dispatched = write_stamp(row.dispatched_at);
    let change = write_labelled("  change=", &row.change);
    let note = write_labelled("  note=", &row.note);
    let ending_note = write_labelled("  ending-note=", &row.ending_note);
    let mut out = "  ".to_string();
    out.append(round.as_str());
    out.append("  ");
    match &row.outcome {
        Some(outcome) => out.append(outcome.as_str()),
        None => out.append("open"),
    }
    out.append("  route=");
    out.append(row.route.as_str());
    out.append("  worktree=");
    out.append(row.worktree.as_str());
    out.append("  dispatched=");
    out.append(dispatched.as_str());
    out.append("  dispatch=");
    out.append(row.dispatch_event_id.as_str());
    out.append(change.as_str());
    out.append(note.as_str());
    out.append(ending_note.as_str());
    out
}

fn write_ending(row: &RoundText) -> (r: Vec<String>)
    ensures
        views(r@) == ending_parts(*row),
{
    let mut out: Vec<String> = Vec::new();
    assert(views(out@) =~= Seq::<Seq<char>>::empty());
    if let Some(head) = &row.reviewed_head {
        let mut part = "reviewed=".to_string();
        part.append(head.as_str());
        push_text(&mut out, part);
    }
    if row.raised > 0 {
        let number = decimal(row.raised as u64);
        let mut part = "raised=".to_string();
        part.append(number.as_str());
        push_text(&mut out, part);
    }
    if row.deferred > 0 {
        let number = decimal(row.deferred as u64);
        let open = decimal(row.open_deferrals.len() as u64);
        let mut part = "deferred=".to_string();
        part.append(number.as_str());
        part.append("  open-deferrals=");
        part.append(open.as_str());
        push_text(&mut out, part);
    }
    if row.collects.len() > 0 {
        let listed = join(&row.collects, ",");
        let mut part = "collects=".to_string();
        part.append(listed.as_str());
        push_text(&mut out, part);
    }
    assert(views(out@) =~= ending_parts(*row));
    out
}

fn write_deferral(deferral: &DeferralText) -> (r: String)
    ensures
        r@ == deferral_line(*deferral),
{
    let mut out = "    open ".to_string();
    out.append(deferral.id.as_str());
    out.append(": ");
    out.append(deferral.summary.as_str());
    out.append(" — ");
    out.append(deferral.why.as_str());
    out
}

/// The lines of a round.
pub fn render_round(row: &RoundText) -> (r: Vec<String>)
    ensures
        views(r@) == round_lines(*row),
{
    let mut out: Vec<String> = Vec::new();
    assert(views(out@) =~= Seq::<Seq<char>>::empty());
    push_text(&mut out, write_round_line(row));
    let parts = write_ending(row);
    assert(views(parts@).len() == parts@.len());
    if parts.len() > 0 {
        let listed = join(&parts, "  ");
        let mut line = "    ".to_string();
        line.append(listed.as_str());
        push_text(&mut out, line);
    }
    let ghost head = views(out@);
    let open = &row.open_deferrals;
    let ghost rows = Seq::new(open@.len(), |i: int| deferral_line(open@[i]));
    assert(head + rows.take(0) =~= head);
    for i in 0..open.len()
        invariant
            rows == Seq::new(open@.len(), |i: int| deferral_line(open@[i])),
            views(out@) == head + rows.take(i as int),
    {
        push_text(&mut out, write_deferral(&open[i]));
        assert(rows.take(i + 1) =~= rows.take(i as int).push(rows[i as int]));
        assert(views(out@) =~= head + rows.take(i + 1));
    }
    assert(rows.take(rows.len() as int) =~= rows);
    assert(views(out@) =~= round_lines(*row));
    out
}

/// The line above the rounds on a subject.
pub open spec fn heading_text(subject: Option<SubjectView>, n: nat) -> Seq<char> {
    (match subject {
        Some(named) => label_text(named),
        None => "unattributed"@,
    }) + "  "@ + decimal_of(n) + " round(s)"@
}

/// The line above the rounds of a group.
pub fn group_heading(group: &RunGroup) -> (r: String)
    ensures
        r@ == heading_text(subject_view(group.subject), group.rounds@.len()),
{
    let mut out = match &group.subject {
        Some(subject) => subject.label(),
        None => "unattributed".to_string(),
    };
    out.append("  ");
    out.append(decimal(group.rounds.len() as u64).as_str());
    out.append(" round(s)");
    out
}

/// A run is dispatched exactly on one subject.
pub proof fn runs_have_one_subject(
    dispatch: DispatchInput,
    range: Option<CommitRange>,
    checked: Result<(), DispatchRefusal>,
    r: Result<Payload, DispatchRefusal>,
)
    requires
        checks_dispatch(&dispatch, checked),
        answers_dispatch(dispatch, range, r),
    ensures
        r is Ok <==> (dispatch.change is Some && dispatch.fork is None && dispatch.range is None)
            || (dispatch.change is None && dispatch.fork is Some && dispatch.range is None) || (
        dispatch.change is None && dispatch.fork is None && dispatch.range is Some),
        checked is Ok <==> r is Ok,
        r == Err::<Payload, DispatchRefusal>(DispatchRefusal::NoSubject) <==> dispatch.change is None
            && dispatch.fork is None && dispatch.range is None,
        r matches Ok(payload) ==> (payload matches Payload::RunDispatched {
            change,
            fork,
            range: spanned,
            route,
            worktree,
            ..
        } && change == dispatch.change && fork == dispatch.fork && spanned == range && route
            == dispatch.route && worktree == dispatch.worktree),
{
}

/// The subject of a dispatch is the change, the fork or the range that it names, and a dispatch
/// that names none has none.
pub proof fn dispatches_are_on_their_subject(payload: Payload)
    ensures
        payload matches Payload::RunDispatched { change, fork, range, .. } ==> {
            &&& change matches Some(id) ==> subject_of(payload) == Some(
                SubjectView::Change { id: id@ },
            )
            &&& change is None && fork is Some ==> subject_of(payload) == Some(
                SubjectView::Fork { slug: fork->0@ },
            )
            &&& change is None && fork is None && range is Some ==> subject_of(payload) == Some(
                SubjectView::Range { base: range->0.base@, head: range->0.head@ },
            )
            &&& change is None && fork is None && range is None ==> subject_of(payload) is None
        },
        !(payload is RunDispatched) ==> subject_of(payload) is None,
{
}

/// A run ends once: only a dispatch that nothing has ended is, and what is recorded is what was
/// given.
pub proof fn runs_end_once(
    events: &Vec<Event>,
    dispatch_event_id: &str,
    ending: EndingInput,
    i: int,
    r: Result<Payload, EndRefusal>,
)
    requires
        answers_end(events, dispatch_event_id, ending, r),
        0 <= i < events@.len(),
    ensures
        (events@[i].payload matches Payload::RunEnded { dispatch_event_id: id, .. } && id@
            == dispatch_event_id@) ==> r is Err,
        r is Ok ==> exists|k: int|
            0 <= k < events@.len() && (#[trigger] events@[k]).event_id@ == dispatch_event_id@
                && events@[k].payload is RunDispatched,
        r matches Ok(payload) ==> (payload matches Payload::RunEnded {
            dispatch_event_id: id,
            outcome,
            collects,
            deferred,
            raised,
            ..
        } && id@ == dispatch_event_id@ && outcome == ending.outcome && collects == ending.collects
            && deferred == ending.deferred && raised == ending.raised),
{
    if r is Ok {
        let (k, open) = choose|k: int, open: Seq<OpenDeferral>| #[trigger]
            event_at(events@, dispatch_event_id@, k) && is_dispatch(events@[k])
                && #[trigger] are_open(open, events@) && forall|i: int|
                0 <= i < ending.collects@.len() ==> waits(
                    open,
                    subject_of(events@[k].payload),
                    (#[trigger] ending.collects@[i])@,
                );
        assert(events@[k].event_id@ == dispatch_event_id@);
        assert(!ends_run(events@[i], dispatch_event_id@));
    }
}

/// A dispatch that nothing has ended can be ended by a run that collects nothing.
pub proof fn open_runs_can_end(
    events: &Vec<Event>,
    dispatch_event_id: &str,
    ending: EndingInput,
    k: int,
    r: Result<Payload, EndRefusal>,
)
    requires
        answers_end(events, dispatch_event_id, ending, r),
        0 <= k < events@.len(),
        events@[k].event_id@ == dispatch_event_id@,
        events@[k].payload is RunDispatched,
        forall|j: int|
            0 <= j < events@.len() && j != k ==> (#[trigger] events@[j]).event_id@
                != dispatch_event_id@,
        forall|j: int|
            0 <= j < events@.len() ==> !((#[trigger] events@[j]).payload matches
                Payload::RunEnded { dispatch_event_id: id, .. } && id@ == dispatch_event_id@),
        ending.collects@.len() == 0,
    ensures
        r is Ok,
{
    assert(events@[k].event_id@ == dispatch_event_id@);
    if let Err(EndRefusal::AlreadyEnded { event }) = r {
        assert(ends_run(events@[event as int], dispatch_event_id@));
    }
    if let Err(EndRefusal::NotADispatch) = r {
        let m = choose|m: int| #[trigger]
            event_at(events@, dispatch_event_id@, m) && !is_dispatch(events@[m]);
        assert(events@[m].event_id@ == dispatch_event_id@);
    }
}

/// What a later round on the same subject collected does not wait any longer.
pub proof fn collected_deferrals_do_not_wait(
    events: Seq<Event>,
    subject: Option<SubjectView>,
    since: Timestamp,
    id: Seq<char>,
    j: int,
    e: int,
)
    requires
        0 <= j < events.len(),
        events[j].payload is RunDispatched,
        subject_of(events[j].payload) == subject,
        0 <= e < events.len(),
        events[e].payload matches Payload::RunEnded { dispatch_event_id, collects, .. }
            && dispatch_event_id@ == events[j].event_id@ && among(collects@, id),
        forall|k: int|
            e < k < events.len() ==> !((#[trigger] events[k]).payload matches Payload::RunEnded {
                dispatch_event_id,
                ..
            } && dispatch_event_id@ == events[j].event_id@),
        before(since, events[e].created_at),
    ensures
        !still_open(events, subject, since, id),
{
    assert(ending_at(events, events[j].event_id@, e)) by {
        assert forall|k: int| e < k < events.len() implies !ends_run(
            #[trigger] events[k],
            events[j].event_id@,
        ) by {
            assert(!(events[k].payload matches Payload::RunEnded { dispatch_event_id, .. }
                && dispatch_event_id@ == events[j].event_id@));
        }
    }
    assert(collected_later(events, subject, since, id, j, e));
}

/// What a run raised is taken exactly where none of it says what only a deferral says, each as it
/// was handed in.
pub proof fn raised_findings_have_no_reason(
    inputs: &Vec<RunFindingInput>,
    r: Result<Vec<RunFinding>, RaisedWithReason>,
)
    requires
        reads_raised(inputs, r),
    ensures
        r is Ok <==> forall|i: int|
            0 <= i < inputs@.len() ==> (#[trigger] inputs@[i]).why is None && inputs@[i].id is None,
        r matches Ok(raised) ==> raised@.len() == inputs@.len() && forall|i: int|
            0 <= i < inputs@.len() ==> (#[trigger] raised@[i]).summary@ == inputs@[i].summary@
                && raised@[i].severity == inputs@[i].severity,
{
    if let Ok(raised) = r {
        assert forall|i: int| 0 <= i < inputs@.len() implies (#[trigger] inputs@[i]).why is None
            && inputs@[i].id is None by {
            assert(raised@[i].summary@ == inputs@[i].summary@);
        }
    }
}

/// What a run put off is taken exactly where all of it says why; it keeps the identity that it was
/// given, and gets a fresh one where it was given none.
pub proof fn deferred_findings_say_why(
    inputs: &Vec<RunFindingInput>,
    fresh: &Vec<String>,
    r: Result<Vec<DeferredFinding>, DeferredWithoutReason>,
)
    requires
        reads_deferred(inputs, fresh, r),
    ensures
        r is Ok <==> forall|i: int|
            0 <= i < inputs@.len() ==> (#[trigger] inputs@[i]).why is Some && !blank(
                inputs@[i].why->0@,
            ),
        r matches Ok(deferred) ==> deferred@.len() == inputs@.len() && forall|i: int|
            0 <= i < inputs@.len() ==> (#[trigger] deferred@[i]).summary@ == inputs@[i].summary@
                && deferred@[i].why@ == inputs@[i].why->0@ && (inputs@[i].id is Some
                ==> deferred@[i].id@ == inputs@[i].id->0@) && (inputs@[i].id is None
                ==> deferred@[i].id@ == fresh@[i]@),
{
    if let Ok(deferred) = r {
        assert forall|i: int| 0 <= i < inputs@.len() implies (#[trigger] inputs@[i]).why is Some
            && !blank(inputs@[i].why->0@) by {
            assert(defers(deferred@[i], inputs@[i], fresh@[i]@));
        }
    }
}

proof fn lemma_recent(all: Seq<Option<SubjectView>>, n: int, k: int)
    requires
        0 <= n <= all.len(),
        all.len() - n <= k < all.len(),
    ensures
        recent_subjects(all, n).contains(all[k]),
    decreases n,
{
    let before = recent_subjects(all, n - 1);
    if k > all.len() - n {
        lemma_recent(all, n - 1, k);
        let i = choose|i: int| 0 <= i < before.len() && before[i] == all[k];
        assert(recent_subjects(all, n)[i] == all[k]);
    } else if !before.contains(all[k]) {
        assert(recent_subjects(all, n)[before.len() as int] == all[k]);
    }
}

/// Every round stands in a group: that of its subject.
pub proof fn every_round_is_grouped(rounds: Seq<Round>, groups: Seq<RunGroup>, k: usize)
    requires
        group_subjects(groups) == recent_subjects(subjects_of(rounds), rounds.len() as int),
        forall|i: int| 0 <= i < groups.len() ==> groups_rounds(#[trigger] groups[i], rounds),
        k < rounds.len(),
    ensures
        exists|i: int| 0 <= i < groups.len() && (#[trigger] groups[i]).rounds@.contains(k),
{
    let all = subjects_of(rounds);
    lemma_recent(all, all.len() as int, k as int);
    let i = choose|i: int|
        0 <= i < group_subjects(groups).len() && group_subjects(groups)[i] == all[k as int];
    let group = groups[i];
    assert(groups_rounds(group, rounds));
    let wanted = |i: int| subject_view(rounds[i].subject) == subject_view(group.subject);
    lemma_chosen(rounds.len(), wanted);
    lemma_ints_contain(group.rounds@, k);
    assert(chosen(rounds.len(), wanted).contains(k as int) <==> wanted(k as int));
    assert(groups[i].rounds@.contains(k));
}

} // verus!
