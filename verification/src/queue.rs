//! The review queue: the changes that wait for a look, by the pass that covers them.
use crate::dependency::ids_at;
use crate::event::{Event, Payload};
use crate::order::{chosen, lemma_chosen};
use crate::passes::{member_text, members_of, PassHistory};
use crate::state::ChangeState;
use crate::text::{among, contains, decimal, decimal_of, join, joined, push_text, views};
use vstd::prelude::*;

verus! {

/// The changes that one pass covers.
pub struct CoveredPass {
    pub pass_id: String,
    pub changes: Vec<String>,
}

/// The changes that wait for a look: those that an open pass covers, by pass, and the others.
pub struct ReviewQueue {
    pub covered: Vec<CoveredPass>,
    pub uncovered: Vec<String>,
}

/// Whether a change waits for a look.
pub open spec fn queued(changes: Seq<ChangeState>, needs_review: Seq<bool>, i: int) -> bool {
    changes[i].closure is None && needs_review[i] && changes[i].patchsets@.len() > 0
}

/// The latest patchset of a change, as a pass names it.
pub open spec fn latest_member(state: ChangeState) -> Seq<char> {
    member_text(state.change_id@, state.patchsets@.last().id@)
}

/// Whether the pass at `k` is open and names a member.
pub open spec fn pass_covers(
    history: PassHistory,
    events: Seq<Event>,
    k: int,
    member: Seq<char>,
) -> bool {
    history.ending@[k] is None && among(
        members_of(events[history.opened@[k] as int]),
        member,
    )
}

/// The first pass from the one at `k` on that is open and names a member.
pub open spec fn cover_from(
    history: PassHistory,
    events: Seq<Event>,
    member: Seq<char>,
    k: int,
) -> Option<int>
    decreases history.ids@.len() - k,
{
    if k >= history.ids@.len() {
        None
    } else if pass_covers(history, events, k, member) {
        Some(k)
    } else {
        cover_from(history, events, member, k + 1)
    }
}

/// The pass that covers a change: the first open one that names its latest patchset.
pub open spec fn cover(history: PassHistory, events: Seq<Event>, state: ChangeState) -> Option<int> {
    cover_from(history, events, latest_member(state), 0)
}

proof fn lemma_cover_bounded(history: PassHistory, events: Seq<Event>, member: Seq<char>, k: int)
    requires
        0 <= k,
    ensures
        match cover_from(history, events, member, k) {
            Some(at) => k <= at < history.ids@.len() && pass_covers(history, events, at, member),
            None => true,
        },
    decreases history.ids@.len() - k,
{
    if k < history.ids@.len() && !pass_covers(history, events, k, member) {
        lemma_cover_bounded(history, events, member, k + 1);
    }
}

/// Whether the pass at `k` covers the change at `i`.
pub open spec fn in_pass(
    history: PassHistory,
    events: Seq<Event>,
    changes: Seq<ChangeState>,
    needs_review: Seq<bool>,
    k: int,
) -> spec_fn(int) -> bool {
    |i: int|
        queued(changes, needs_review, i) && cover(history, events, changes[i]) == Some(k)
}

/// Whether no pass covers the change at `i`, which waits.
pub open spec fn in_no_pass(
    history: PassHistory,
    events: Seq<Event>,
    changes: Seq<ChangeState>,
    needs_review: Seq<bool>,
) -> spec_fn(int) -> bool {
    |i: int| queued(changes, needs_review, i) && cover(history, events, changes[i]) is None
}

/// The changes that the pass at `k` covers.
pub open spec fn covered_by(
    history: PassHistory,
    events: Seq<Event>,
    changes: Seq<ChangeState>,
    needs_review: Seq<bool>,
    k: int,
) -> Seq<Seq<char>> {
    ids_at(
        changes,
        chosen(changes.len(), in_pass(history, events, changes, needs_review, k)),
    )
}

/// Whether the pass at `k` covers a change that waits.
pub open spec fn useful_pass(
    history: PassHistory,
    events: Seq<Event>,
    changes: Seq<ChangeState>,
    needs_review: Seq<bool>,
) -> spec_fn(int) -> bool {
    |k: int| covered_by(history, events, changes, needs_review, k).len() > 0
}

/// Whether the entries are the first `n` passes that cover a change, each with what it covers.
pub open spec fn covers_first(
    covered: Seq<CoveredPass>,
    history: PassHistory,
    events: Seq<Event>,
    changes: Seq<ChangeState>,
    needs_review: Seq<bool>,
    n: nat,
) -> bool {
    let passes = chosen(n, useful_pass(history, events, changes, needs_review));
    covered.len() == passes.len() && forall|j: int|
        0 <= j < covered.len() ==> (#[trigger] covered[j]).pass_id@ == history.ids@[passes[j]]@
            && views(covered[j].changes@) == covered_by(
            history,
            events,
            changes,
            needs_review,
            passes[j],
        )
}

/// Whether a queue is that of the changes: each that waits stands under the first open pass that
/// names its latest patchset, or under none.
pub open spec fn is_queue(
    queue: ReviewQueue,
    history: PassHistory,
    events: Seq<Event>,
    changes: Seq<ChangeState>,
    needs_review: Seq<bool>,
) -> bool {
    &&& covers_first(
        queue.covered@,
        history,
        events,
        changes,
        needs_review,
        history.ids@.len(),
    )
    &&& views(queue.uncovered@) == ids_at(
        changes,
        chosen(changes.len(), in_no_pass(history, events, changes, needs_review)),
    )
}

fn find_cover(history: &PassHistory, events: &Vec<Event>, member: &str) -> (r: Option<usize>)
    requires
        history.recounts(events@, events@.len() as int),
    ensures
        match r {
            Some(k) => cover_from(*history, events@, member@, 0) == Some(k as int),
            None => cover_from(*history, events@, member@, 0) is None,
        },
{
    for k in 0..history.ids.len()
        invariant
            history.recounts(events@, events@.len() as int),
            cover_from(*history, events@, member@, 0) == cover_from(
                *history,
                events@,
                member@,
                k as int,
            ),
    {
        assert(history.opened@[k as int] < events@.len());
        if history.ending[k].is_none() {
            if let Payload::ReviewPassOpened { pass_id, members, note }
                = &events[history.opened[k]].payload {
                if contains(members, member) {
                    return Some(k);
                }
            }
        }
    }
    None
}

/// Where a change that waits stands.
enum Home {
    NotQueued,
    Pass(usize),
    NoPass,
}

spec fn is_home(
    home: Home,
    history: PassHistory,
    events: Seq<Event>,
    changes: Seq<ChangeState>,
    needs_review: Seq<bool>,
    i: int,
) -> bool {
    match home {
        Home::NotQueued => !queued(changes, needs_review, i),
        Home::Pass(k) => queued(changes, needs_review, i) && cover(history, events, changes[i])
            == Some(k as int),
        Home::NoPass => queued(changes, needs_review, i) && cover(
            history,
            events,
            changes[i],
        ) is None,
    }
}

fn find_homes(
    history: &PassHistory,
    events: &Vec<Event>,
    changes: &Vec<ChangeState>,
    needs_review: &Vec<bool>,
) -> (r: Vec<Home>)
    requires
        history.recounts(events@, events@.len() as int),
        needs_review@.len() == changes@.len(),
    ensures
        r@.len() == changes@.len(),
        forall|i: int|
            0 <= i < r@.len() ==> is_home(
                #[trigger] r@[i],
                *history,
                events@,
                changes@,
                needs_review@,
                i,
            ),
{
    let mut homes: Vec<Home> = Vec::new();
    for i in 0..changes.len()
        invariant
            history.recounts(events@, events@.len() as int),
            needs_review@.len() == changes@.len(),
            homes@.len() == i,
            forall|j: int|
                0 <= j < i ==> is_home(
                    #[trigger] homes@[j],
                    *history,
                    events@,
                    changes@,
                    needs_review@,
                    j,
                ),
    {
        let state = &changes[i];
        let home = if state.closure.is_none() && needs_review[i] && state.patchsets.len() > 0 {
            let latest = &state.patchsets[state.patchsets.len() - 1];
            let mut member = state.change_id.clone();
            member.append(":");
            member.append(latest.id.as_str());
            assert(member@ == latest_member(*state));
            match find_cover(history, events, member.as_str()) {
                Some(k) => Home::Pass(k),
                None => Home::NoPass,
            }
        } else {
            Home::NotQueued
        };
        homes.push(home);
    }
    homes
}

/// The changes that wait for a look, by the pass that covers them. `needs_review` says of each
/// change whether it needs one.
pub fn collect_review_queue(
    history: &PassHistory,
    events: &Vec<Event>,
    changes: &Vec<ChangeState>,
    needs_review: &Vec<bool>,
) -> (r: ReviewQueue)
    requires
        history.recounts(events@, events@.len() as int),
        needs_review@.len() == changes@.len(),
    ensures
        is_queue(r, *history, events@, changes@, needs_review@),
{
    let homes = find_homes(history, events, changes, needs_review);
    let mut covered: Vec<CoveredPass> = Vec::new();
    let ghost useful = useful_pass(*history, events@, changes@, needs_review@);
    for k in 0..history.ids.len()
        invariant
            homes@.len() == changes@.len(),
            useful == useful_pass(*history, events@, changes@, needs_review@),
            forall|i: int|
                0 <= i < homes@.len() ==> is_home(
                    #[trigger] homes@[i],
                    *history,
                    events@,
                    changes@,
                    needs_review@,
                    i,
                ),
            covers_first(covered@, *history, events@, changes@, needs_review@, k as nat),
    {
        let mut members: Vec<String> = Vec::new();
        let ghost wanted = in_pass(*history, events@, changes@, needs_review@, k as int);
        assert(views(members@) =~= ids_at(changes@, chosen(0, wanted)));
        for i in 0..changes.len()
            invariant
                homes@.len() == changes@.len(),
                wanted == in_pass(*history, events@, changes@, needs_review@, k as int),
                forall|i: int|
                    0 <= i < homes@.len() ==> is_home(
                        #[trigger] homes@[i],
                        *history,
                        events@,
                        changes@,
                        needs_review@,
                        i,
                    ),
                views(members@) == ids_at(changes@, chosen(i as nat, wanted)),
        {
            let ghost before = members@;
            assert(is_home(homes@[i as int], *history, events@, changes@, needs_review@, i as int));
            if let Home::Pass(at) = &homes[i] {
                if *at == k {
                    members.push(changes[i].change_id.clone());
                    assert(views(members@) =~= views(before).push(changes@[i as int].change_id@));
                    assert(ids_at(changes@, chosen((i + 1) as nat, wanted)) =~= ids_at(
                        changes@,
                        chosen(i as nat, wanted),
                    ).push(changes@[i as int].change_id@));
                }
            }
        }
        let ghost passes = chosen(k as nat, useful);
        if members.len() > 0 {
            assert(views(members@).len() > 0);
            assert(chosen((k + 1) as nat, useful) == passes.push(k as int));
            covered.push(CoveredPass { pass_id: history.ids[k].clone(), changes: members });
        } else {
            assert(views(members@).len() == 0);
        }
    }
    let mut uncovered: Vec<String> = Vec::new();
    let ghost wanted = in_no_pass(*history, events@, changes@, needs_review@);
    assert(views(uncovered@) =~= ids_at(changes@, chosen(0, wanted)));
    for i in 0..changes.len()
        invariant
            homes@.len() == changes@.len(),
            wanted == in_no_pass(*history, events@, changes@, needs_review@),
            forall|i: int|
                0 <= i < homes@.len() ==> is_home(
                    #[trigger] homes@[i],
                    *history,
                    events@,
                    changes@,
                    needs_review@,
                    i,
                ),
            views(uncovered@) == ids_at(changes@, chosen(i as nat, wanted)),
    {
        assert(is_home(homes@[i as int], *history, events@, changes@, needs_review@, i as int));
        if let Home::NoPass = &homes[i] {
            let ghost before = uncovered@;
            uncovered.push(changes[i].change_id.clone());
            assert(views(uncovered@) =~= views(before).push(changes@[i as int].change_id@));
            assert(ids_at(changes@, chosen((i + 1) as nat, wanted)) =~= ids_at(
                changes@,
                chosen(i as nat, wanted),
            ).push(changes@[i as int].change_id@));
        }
    }
    ReviewQueue { covered, uncovered }
}

/// Whether a queue names a change.
pub open spec fn stands_in(queue: ReviewQueue, id: Seq<char>) -> bool {
    ||| views(queue.uncovered@).contains(id)
    ||| exists|j: int|
        0 <= j < queue.covered@.len() && views((#[trigger] queue.covered@[j]).changes@).contains(id)
}

proof fn lemma_ids_contain(changes: Seq<ChangeState>, wanted: spec_fn(int) -> bool, i: int)
    requires
        0 <= i < changes.len(),
        wanted(i),
    ensures
        ids_at(changes, chosen(changes.len(), wanted)).contains(changes[i].change_id@),
{
    lemma_chosen(changes.len(), wanted);
    let positions = chosen(changes.len(), wanted);
    assert(positions.contains(i));
    let j = choose|j: int| 0 <= j < positions.len() && positions[j] == i;
    assert(ids_at(changes, positions)[j] == changes[i].change_id@);
}

/// A change that waits for a look stands in the queue.
pub proof fn waiting_changes_are_queued(
    queue: ReviewQueue,
    history: PassHistory,
    events: Seq<Event>,
    changes: Seq<ChangeState>,
    needs_review: Seq<bool>,
    i: int,
)
    requires
        is_queue(queue, history, events, changes, needs_review),
        0 <= i < changes.len(),
        queued(changes, needs_review, i),
    ensures
        stands_in(queue, changes[i].change_id@),
{
    match cover(history, events, changes[i]) {
        None => {
            lemma_ids_contain(changes, in_no_pass(history, events, changes, needs_review), i);
        },
        Some(k) => {
            lemma_cover_bounded(history, events, latest_member(changes[i]), 0);
            lemma_ids_contain(changes, in_pass(history, events, changes, needs_review, k), i);
            let useful = useful_pass(history, events, changes, needs_review);
            let passes = chosen(history.ids@.len(), useful);
            lemma_chosen(history.ids@.len(), useful);
            assert(useful(k));
            assert(passes.contains(k));
            let j = choose|j: int| 0 <= j < passes.len() && passes[j] == k;
            assert(views(queue.covered@[j].changes@).contains(changes[i].change_id@));
        },
    }
}

/// How many changes stand in the first `n` entries.
pub open spec fn changes_in(covered: Seq<CoveredPass>, n: int) -> nat
    decreases n,
{
    if n <= 0 {
        0
    } else {
        changes_in(covered, n - 1) + covered[n - 1].changes@.len()
    }
}

/// How many changes stand in a queue.
pub open spec fn queue_size(queue: ReviewQueue) -> nat {
    changes_in(queue.covered@, queue.covered@.len() as int) + queue.uncovered@.len()
}

/// How many passes a queue takes: the open ones, and one more for what none covers.
pub open spec fn passes_needed(queue: ReviewQueue) -> nat {
    queue.covered@.len() + if queue.uncovered@.len() > 0 {
        1nat
    } else {
        0nat
    }
}

/// What is said of one pass.
pub open spec fn group_text(entry: CoveredPass) -> Seq<char> {
    "pass "@ + entry.pass_id@ + " covers "@ + decimal_of(entry.changes@.len()) + " changes"@
}

/// What is said of each pass, and of what none covers.
pub open spec fn group_texts(queue: ReviewQueue) -> Seq<Seq<char>> {
    let groups = Seq::new(queue.covered@.len(), |j: int| group_text(queue.covered@[j]));
    if queue.uncovered@.len() > 0 {
        groups.push(decimal_of(queue.uncovered@.len()) + " changes coverable by one pass"@)
    } else {
        groups
    }
}

/// What is said of a queue.
pub open spec fn queue_text(queue: ReviewQueue) -> Seq<char> {
    "review queue: "@ + decimal_of(queue_size(queue)) + " changes, "@ + decimal_of(
        passes_needed(queue),
    ) + " "@ + (if passes_needed(queue) == 1 {
        "pass"@
    } else {
        "passes"@
    }) + "; "@ + joined(group_texts(queue), "; "@)
}

fn write_group(entry: &CoveredPass) -> (r: String)
    ensures
        r@ == group_text(*entry),
{
    let count = decimal(entry.changes.len() as u64);
    let mut out = "pass ".to_string();
    out.append(entry.pass_id.as_str());
    out.append(" covers ");
    out.append(count.as_str());
    out.append(" changes");
    out
}

fn write_groups(queue: &ReviewQueue) -> (r: Vec<String>)
    ensures
        views(r@) == group_texts(*queue),
{
    let mut out: Vec<String> = Vec::new();
    for j in 0..queue.covered.len()
        invariant
            out@.len() == j,
            forall|i: int| 0 <= i < j ==> (#[trigger] out@[i])@ == group_text(queue.covered@[i]),
    {
        out.push(write_group(&queue.covered[j]));
    }
    let ghost groups = Seq::new(queue.covered@.len(), |j: int| group_text(queue.covered@[j]));
    assert(views(out@) =~= groups);
    if queue.uncovered.len() > 0 {
        let mut text = decimal(queue.uncovered.len() as u64);
        text.append(" changes coverable by one pass");
        let ghost last = text@;
        out.push(text);
        assert(views(out@) =~= groups.push(last));
    }
    out
}

impl ReviewQueue {
    pub fn is_empty(&self) -> (r: bool)
        ensures
            r == (self.covered@.len() == 0 && self.uncovered@.len() == 0),
    {
        self.covered.len() == 0 && self.uncovered.len() == 0
    }

    /// How many passes the queue takes, where a number holds them.
    pub fn pass_count(&self) -> (r: u64)
        requires
            passes_needed(*self) <= u64::MAX,
        ensures
            r == passes_needed(*self),
    {
        if self.uncovered.len() > 0 {
            self.covered.len() as u64 + 1
        } else {
            self.covered.len() as u64
        }
    }

    /// What is said of the queue, where a number holds its size.
    pub fn detail(&self) -> (r: String)
        requires
            queue_size(*self) <= u64::MAX,
            passes_needed(*self) <= u64::MAX,
        ensures
            r@ == queue_text(*self),
    {
        let mut size: u64 = 0;
        for j in 0..self.covered.len()
            invariant
                size == changes_in(self.covered@, j as int),
                queue_size(*self) <= u64::MAX,
        {
            proof {
                lemma_changes_grow(self.covered@, j + 1, self.covered@.len() as int);
            }
            size = size + self.covered[j].changes.len() as u64;
        }
        size = size + self.uncovered.len() as u64;
        let passes: u64 = self.pass_count();
        let count = decimal(passes);
        let total = decimal(size);
        let groups = write_groups(self);
        let listed = join(&groups, "; ");
        let mut out = "review queue: ".to_string();
        out.append(total.as_str());
        out.append(" changes, ");
        out.append(count.as_str());
        out.append(" ");
        out.append(if passes == 1 { "pass" } else { "passes" });
        out.append("; ");
        out.append(listed.as_str());
        out
    }
}

proof fn lemma_changes_grow(covered: Seq<CoveredPass>, a: int, b: int)
    requires
        0 <= a <= b,
    ensures
        changes_in(covered, a) <= changes_in(covered, b),
    decreases b - a,
{
    if a < b {
        lemma_changes_grow(covered, a, b - 1);
    }
}

/// The lines that name changes.
pub open spec fn named_lines(ids: Seq<String>) -> Seq<Seq<char>> {
    Seq::new(ids.len(), |i: int| "    "@ + ids[i]@)
}

/// The lines on the first `n` passes of a queue.
pub open spec fn covered_lines(covered: Seq<CoveredPass>, n: int) -> Seq<Seq<char>>
    decreases n,
{
    if n <= 0 {
        Seq::empty()
    } else {
        covered_lines(covered, n - 1).push(
            "  pass "@ + covered[n - 1].pass_id@ + " ("@ + decimal_of(
                covered[n - 1].changes@.len(),
            ) + " changes):"@,
        ) + named_lines(covered[n - 1].changes@)
    }
}

/// The lines of a queue: what is said of it, and the changes in it by pass.
pub open spec fn queue_lines(queue: ReviewQueue) -> Seq<Seq<char>> {
    if queue.covered@.len() == 0 && queue.uncovered@.len() == 0 {
        Seq::empty()
    } else {
        let covered = seq![queue_text(queue)] + covered_lines(
            queue.covered@,
            queue.covered@.len() as int,
        );
        if queue.uncovered@.len() > 0 {
            covered.push(
                "  coverable by one pass ("@ + decimal_of(queue.uncovered@.len()) + " changes):"@,
            ) + named_lines(queue.uncovered@)
        } else {
            covered
        }
    }
}

fn push_named(out: &mut Vec<String>, ids: &Vec<String>)
    ensures
        views(final(out)@) == views(old(out)@) + named_lines(ids@),
{
    let ghost start = views(out@);
    for i in 0..ids.len()
        invariant
            views(out@) == start + named_lines(ids@.take(i as int)),
    {
        let mut line = "    ".to_string();
        line.append(ids[i].as_str());
        push_text(out, line);
        assert(named_lines(ids@.take(i + 1)) =~= named_lines(ids@.take(i as int)).push(
            "    "@ + ids@[i as int]@,
        ));
    }
    assert(ids@.take(ids@.len() as int) =~= ids@);
}

impl ReviewQueue {
    /// The lines of the queue, where a number holds its size.
    pub fn render(&self) -> (r: Vec<String>)
        requires
            queue_size(*self) <= u64::MAX,
            passes_needed(*self) <= u64::MAX,
        ensures
            views(r@) == queue_lines(*self),
    {
        let mut out: Vec<String> = Vec::new();
        if self.is_empty() {
            assert(views(out@) =~= Seq::empty());
            return out;
        }
        push_text(&mut out, self.detail());
        assert(views(out@) =~= seq![queue_text(*self)]);
        for j in 0..self.covered.len()
            invariant
                views(out@) == seq![queue_text(*self)] + covered_lines(self.covered@, j as int),
        {
            let entry = &self.covered[j];
            let mut line = "  pass ".to_string();
            line.append(entry.pass_id.as_str());
            line.append(" (");
            line.append(decimal(entry.changes.len() as u64).as_str());
            line.append(" changes):");
            push_text(&mut out, line);
            push_named(&mut out, &entry.changes);
            assert(views(out@) =~= seq![queue_text(*self)] + covered_lines(self.covered@, j + 1));
        }
        if self.uncovered.len() > 0 {
            let mut line = "  coverable by one pass (".to_string();
            line.append(decimal(self.uncovered.len() as u64).as_str());
            line.append(" changes):");
            push_text(&mut out, line);
            push_named(&mut out, &self.uncovered);
        }
        out
    }
}

/// Only an open change with a patchset that needs a look is queued.
pub proof fn closed_changes_are_not_queued(
    changes: Seq<ChangeState>,
    needs_review: Seq<bool>,
    i: int,
)
    ensures
        queued(changes, needs_review, i) <==> changes[i].closure is None && needs_review[i]
            && changes[i].patchsets@.len() > 0,
{
}

proof fn lemma_first_cover(
    history: PassHistory,
    events: Seq<Event>,
    member: Seq<char>,
    k: int,
    m: int,
)
    requires
        0 <= k <= m < history.ids@.len(),
        pass_covers(history, events, m, member),
    ensures
        cover_from(history, events, member, k) is Some,
        cover_from(history, events, member, k)->0 <= m,
    decreases m - k,
{
    if k < m && !pass_covers(history, events, k, member) {
        lemma_first_cover(history, events, member, k + 1, m);
    }
}

/// A change is covered by the first open pass that names its latest patchset, and by none exactly
/// where no open pass does: one that has ended covers nothing.
pub proof fn open_passes_cover_their_members(
    history: PassHistory,
    events: Seq<Event>,
    state: ChangeState,
    m: int,
)
    requires
        0 <= m < history.ids@.len(),
    ensures
        history.ending@[m] is None && among(
            members_of(events[history.opened@[m] as int]),
            member_text(state.change_id@, state.patchsets@.last().id@),
        ) ==> cover(history, events, state) is Some && cover(history, events, state)->0 <= m,
        cover(history, events, state) matches Some(k) ==> 0 <= k < history.ids@.len()
            && history.ending@[k] is None && among(
            members_of(events[history.opened@[k] as int]),
            member_text(state.change_id@, state.patchsets@.last().id@),
        ),
{
    let member = latest_member(state);
    if pass_covers(history, events, m, member) {
        lemma_first_cover(history, events, member, 0, m);
    }
    lemma_cover_bounded(history, events, member, 0);
}

/// A queue that is empty leaves nothing waiting.
pub proof fn empty_queues_leave_nothing(
    queue: ReviewQueue,
    history: PassHistory,
    events: Seq<Event>,
    changes: Seq<ChangeState>,
    needs_review: Seq<bool>,
    i: int,
)
    requires
        is_queue(queue, history, events, changes, needs_review),
        0 <= i < changes.len(),
        queue.covered@.len() == 0,
        queue.uncovered@.len() == 0,
    ensures
        !(changes[i].closure is None && needs_review[i] && changes[i].patchsets@.len() > 0),
{
    if queued(changes, needs_review, i) {
        waiting_changes_are_queued(queue, history, events, changes, needs_review, i);
        let id = changes[i].change_id@;
        assert(views(queue.uncovered@).len() == 0);
        assert(!views(queue.uncovered@).contains(id));
    }
}

/// A queue takes one pass more than cover it already exactly where something is not covered.
pub proof fn what_is_not_covered_takes_one_pass(queue: ReviewQueue)
    ensures
        queue.uncovered@.len() == 0 ==> passes_needed(queue) == queue.covered@.len(),
        queue.uncovered@.len() > 0 ==> passes_needed(queue) == queue.covered@.len() + 1,
        queue_size(queue) >= queue.uncovered@.len(),
{
}

} // verus!
