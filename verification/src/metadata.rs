//! The metadata of a change: its prerequisites, tags, assignment and priority.
use crate::dependency::{blocked, dependency_status, readiness, readiness_text, satisfied};
use crate::event::Payload;
use crate::graph::{dependency_reaches, reaches, reaches_within};
use crate::input::{all_tags, first_invalid, has_space, normalize_tags, spaced, tagged};
use crate::order::{chosen, ints, lemma_chosen};
use crate::state::{at, ledger, lemma_at, ChangeState};
use crate::table::{
    ascending, insert_name, lemma_views_contain, lemma_views_listed, listed,
    lists_hold_what_is_wanted,
};
use crate::text::{
    among, begins, contains, join, joined, lemma_precedes_irreflexive, lemma_precedes_transitive,
    opt_view, precedes, signed, signed_of, starts_with, trim, trimmed, views,
};
use vstd::prelude::*;

verus! {

/// The format of metadata that is written as JSON.
pub const METADATA_SCHEMA: &'static str = "arc-metadata/1";

/// Why the metadata of a change is not updated.
#[derive(Debug)]
pub enum MetadataRefusal {
    Closed,
    Circle { blocker: String },
    InvalidTag { tag: String },
    SpacedAssignment,
    Nothing,
}

/// What is asked of the metadata of a change. The prerequisites are resolved to identities.
pub struct MetadataArgs {
    pub add_blocked_by: Vec<String>,
    pub remove_blocked_by: Vec<String>,
    pub tags: Vec<String>,
    pub remove_tags: Vec<String>,
    pub assign: Option<String>,
    pub priority: Option<i32>,
}

/// The names in ascending order, each once.
pub open spec fn sorted_names(names: Seq<String>) -> Seq<Seq<char>> {
    listed(|x: Seq<char>| among(names, x))
}

pub(crate) fn sort_names(names: &Vec<String>) -> (r: Vec<String>)
    ensures
        views(r@) == sorted_names(names@),
        ascending(views(r@)),
        forall|x: Seq<char>| #[trigger] among(r@, x) <==> among(names@, x),
{
    let mut out: Vec<String> = Vec::new();
    for i in 0..names.len()
        invariant
            ascending(views(out@)),
            forall|x: Seq<char>| #[trigger] among(out@, x) <==> among(names@.take(i as int), x),
    {
        let ghost before = out@;
        insert_name(&mut out, names[i].as_str());
        proof {
            let shorter = names@.take(i as int);
            let longer = names@.take(i + 1);
            assert forall|x: Seq<char>| #[trigger] among(out@, x) <==> among(longer, x) by {
                assert(among(before, x) <==> among(shorter, x));
                if among(shorter, x) {
                    let k = choose|k: int| 0 <= k < shorter.len() && #[trigger] shorter[k]@ == x;
                    assert(longer[k]@ == x);
                }
                if among(longer, x) {
                    let k = choose|k: int| 0 <= k < longer.len() && #[trigger] longer[k]@ == x;
                    if k < i {
                        assert(shorter[k]@ == x);
                    }
                }
                assert(longer[i as int]@ == names@[i as int]@);
            }
        }
    }
    assert(names@.take(names@.len() as int) =~= names@);
    proof {
        lemma_views_listed(out@, |x: Seq<char>| among(names@, x));
    }
    out
}

/// Whether `blocker` is the first of some prerequisites that already leads back to a change.
pub open spec fn first_circular(
    changes: Seq<ChangeState>,
    id: Seq<char>,
    blockers: Seq<String>,
    blocker: Seq<char>,
) -> bool {
    &&& among(blockers, blocker)
    &&& reaches(changes, blocker, id)
    &&& forall|x: Seq<char>| #[trigger]
        among(blockers, x) && precedes(x, blocker) ==> !reaches(changes, x, id)
}

/// Whether none of some prerequisites leads back to a change.
pub open spec fn none_circular(
    changes: Seq<ChangeState>,
    id: Seq<char>,
    blockers: Seq<String>,
) -> bool {
    forall|x: Seq<char>| #[trigger] among(blockers, x) ==> !reaches(changes, x, id)
}

fn find_circular(changes: &Vec<ChangeState>, id: &str, blockers: &Vec<String>) -> (r: Option<
    usize,
>)
    requires
        ledger(changes@),
        ascending(views(blockers@)),
    ensures
        match r {
            Some(k) => k < blockers@.len() && first_circular(
                changes@,
                id@,
                blockers@,
                blockers@[k as int]@,
            ),
            None => none_circular(changes@, id@, blockers@),
        },
{
    for k in 0..blockers.len()
        invariant
            ledger(changes@),
            ascending(views(blockers@)),
            forall|j: int|
                0 <= j < k ==> !reaches(changes@, (#[trigger] blockers@[j])@, id@),
    {
        if dependency_reaches(blockers[k].as_str(), id, changes) {
            proof {
                let here = blockers@[k as int]@;
                assert(among(blockers@, here));
                assert forall|x: Seq<char>| #[trigger]
                    among(blockers@, x) && precedes(x, here) implies !reaches(changes@, x, id@) by {
                    let j = choose|j: int| 0 <= j < blockers@.len() && #[trigger] blockers@[j]@ == x;
                    if j >= k {
                        assert(views(blockers@)[j] == x);
                        assert(views(blockers@)[k as int] == here);
                        if j == k {
                            lemma_precedes_irreflexive(x);
                        } else {
                            assert(precedes(views(blockers@)[k as int], views(blockers@)[j]));
                            lemma_precedes_transitive(x, here, x);
                            lemma_precedes_irreflexive(x);
                        }
                    }
                }
            }
            return Some(k);
        }
    }
    proof {
        assert forall|x: Seq<char>| #[trigger] among(blockers@, x) implies !reaches(
            changes@,
            x,
            id@,
        ) by {
            let j = choose|j: int| 0 <= j < blockers@.len() && #[trigger] blockers@[j]@ == x;
            assert(!reaches(changes@, blockers@[j]@, id@));
        }
    }
    None
}

/// The tags that some raw tags normalize to.
pub open spec fn normal_tags(raw: Seq<String>) -> Seq<Seq<char>> {
    listed(tagged(raw))
}

/// Whether an assignment is refused: a harness has a name without white space in it.
pub open spec fn spaced_assignment(assign: Option<String>) -> bool {
    assign is Some && spaced(trimmed(assign->0@))
}

/// Whether `payload` records what was asked of the metadata of a change.
pub open spec fn records_metadata(payload: Payload, args: MetadataArgs) -> bool {
    match payload {
        Payload::MetadataUpdated {
            add_blocked_by,
            remove_blocked_by,
            add_tags,
            remove_tags,
            assign,
            priority,
        } => {
            &&& views(add_blocked_by@) == sorted_names(args.add_blocked_by@)
            &&& views(remove_blocked_by@) == sorted_names(args.remove_blocked_by@)
            &&& views(add_tags@) == normal_tags(args.tags@)
            &&& views(remove_tags@) == normal_tags(args.remove_tags@)
            &&& opt_view(assign) == match args.assign {
                Some(value) => Some(trimmed(value@)),
                None => None,
            }
            &&& priority == args.priority
        },
        _ => false,
    }
}

/// Whether nothing is asked of the metadata of a change.
pub open spec fn asks_nothing(args: MetadataArgs) -> bool {
    args.add_blocked_by@.len() == 0 && args.remove_blocked_by@.len() == 0 && args.tags@.len() == 0
        && args.remove_tags@.len() == 0 && args.assign is None && args.priority is None
}

/// Whether `r` records an update of the metadata of a change, or says why it is refused.
pub open spec fn answers_metadata(
    changes: &Vec<ChangeState>,
    change: usize,
    args: &MetadataArgs,
    r: Result< Payload, MetadataRefusal, >,
) -> bool {
    ({
            let state = changes@[change as int];
            let id = state.change_id@;
            let open = state.closure is None;
            let acyclic = none_circular(changes@, id, args.add_blocked_by@);
            match r {
                Ok(payload) => {
                    &&& open
                    &&& acyclic
                    &&& all_tags(args.tags@)
                    &&& all_tags(args.remove_tags@)
                    &&& !spaced_assignment(args.assign)
                    &&& !asks_nothing(*args)
                    &&& records_metadata(payload, *args)
                },
                Err(MetadataRefusal::Closed) => !open,
                Err(MetadataRefusal::Circle { blocker }) => open && first_circular(
                    changes@,
                    id,
                    args.add_blocked_by@,
                    blocker@,
                ),
                Err(MetadataRefusal::InvalidTag { tag }) => open && acyclic && (first_invalid(
                    args.tags@,
                    tag@,
                ) || (all_tags(args.tags@) && first_invalid(args.remove_tags@, tag@))),
                Err(MetadataRefusal::SpacedAssignment) => open && acyclic && all_tags(args.tags@)
                    && all_tags(args.remove_tags@) && spaced_assignment(args.assign),
                Err(MetadataRefusal::Nothing) => open && asks_nothing(*args),
            }
        })
}

/// What records an update of the metadata of a change: an open change, and no prerequisite that
/// already leads back to it.
pub fn metadata(changes: &Vec<ChangeState>, change: usize, args: &MetadataArgs) -> (r: Result<
    Payload,
    MetadataRefusal,
>)
    requires
        ledger(changes@),
        change < changes@.len(),
    ensures
        answers_metadata(changes, change, args, r),
{
    let state = &changes[change];
    if state.is_closed() {
        return Err(MetadataRefusal::Closed);
    }
    let add_blocked_by = sort_names(&args.add_blocked_by);
    let remove_blocked_by = sort_names(&args.remove_blocked_by);
    proof {
        lemma_sorted_empty(args.add_blocked_by@, add_blocked_by@);
        lemma_sorted_empty(args.remove_blocked_by@, remove_blocked_by@);
    }
    if let Some(k) = find_circular(changes, state.change_id.as_str(), &add_blocked_by) {
        let blocker = add_blocked_by[k].clone();
        assert(among(add_blocked_by@, blocker@));
        assert forall|x: Seq<char>| #[trigger]
            among(args.add_blocked_by@, x) && precedes(x, blocker@) implies !reaches(
            changes@,
            x,
            state.change_id@,
        ) by {
            assert(among(add_blocked_by@, x));
        }
        return Err(MetadataRefusal::Circle { blocker });
    }
    assert forall|x: Seq<char>| #[trigger] among(args.add_blocked_by@, x) implies !reaches(
        changes@,
        x,
        state.change_id@,
    ) by {
        assert(among(add_blocked_by@, x));
    }
    let add_tags = match normalize_tags(&args.tags) {
        Ok(tags) => tags,
        Err(invalid) => return Err(MetadataRefusal::InvalidTag { tag: invalid.tag }),
    };
    let remove_tags = match normalize_tags(&args.remove_tags) {
        Ok(tags) => tags,
        Err(invalid) => return Err(MetadataRefusal::InvalidTag { tag: invalid.tag }),
    };
    proof {
        lemma_normal_empty(args.tags@, add_tags@);
        lemma_normal_empty(args.remove_tags@, remove_tags@);
    }
    let assign = match &args.assign {
        Some(value) => {
            let value = trim(value.as_str());
            if has_space(value.as_str()) {
                return Err(MetadataRefusal::SpacedAssignment);
            }
            Some(value)
        },
        None => None,
    };
    if add_blocked_by.len() == 0 && remove_blocked_by.len() == 0 && add_tags.len() == 0
        && remove_tags.len() == 0 && assign.is_none() && args.priority.is_none() {
        return Err(MetadataRefusal::Nothing);
    }
    Ok(
        Payload::MetadataUpdated {
            add_blocked_by,
            remove_blocked_by,
            add_tags,
            remove_tags,
            assign,
            priority: args.priority,
        },
    )
}

proof fn lemma_sorted_empty(names: Seq<String>, sorted: Seq<String>)
    requires
        forall|x: Seq<char>| #[trigger] among(sorted, x) <==> among(names, x),
    ensures
        sorted.len() == 0 <==> names.len() == 0,
{
    if names.len() > 0 {
        assert(among(names, names[0]@));
        assert(among(sorted, names[0]@));
    }
    if sorted.len() > 0 {
        assert(among(sorted, sorted[0]@));
        assert(among(names, sorted[0]@));
    }
}

proof fn lemma_normal_empty(raw: Seq<String>, normal: Seq<String>)
    requires
        forall|x: Seq<char>| #[trigger] among(normal, x) <==> tagged(raw)(x),
    ensures
        normal.len() == 0 <==> raw.len() == 0,
{
    if raw.len() > 0 {
        let x = trimmed(raw[0]@);
        assert(tagged(raw)(x));
        assert(among(normal, x));
    }
    if normal.len() > 0 {
        assert(among(normal, normal[0]@));
        assert(tagged(raw)(normal[0]@));
    }
}

/// Whether `after` is the ledger `before` in which the change at `p` waits for `blockers`.
pub open spec fn rewired(
    before: Seq<ChangeState>,
    after: Seq<ChangeState>,
    p: int,
    blockers: Seq<String>,
) -> bool {
    &&& after.len() == before.len()
    &&& forall|i: int|
        0 <= i < before.len() ==> (#[trigger] after[i]).change_id@ == before[i].change_id@
    &&& forall|i: int|
        0 <= i < before.len() && i != p ==> (#[trigger] after[i]).blocked_by@
            == before[i].blocked_by@
    &&& after[p].blocked_by@ == blockers
}

/// Accepted prerequisites close no circle: where neither what a change waited for nor what is
/// added to it leads back to the change, nothing that it waits for afterwards does.
pub proof fn accepted_blockers_close_no_circle(
    before: Seq<ChangeState>,
    after: Seq<ChangeState>,
    p: int,
    added: Seq<String>,
    blockers: Seq<String>,
    x: Seq<char>,
)
    requires
        ledger(before),
        0 <= p < before.len(),
        rewired(before, after, p, blockers),
        none_circular(before, before[p].change_id@, before[p].blocked_by@),
        none_circular(before, before[p].change_id@, added),
        forall|y: Seq<char>| #[trigger]
            among(blockers, y) ==> among(before[p].blocked_by@, y) || among(added, y),
        among(blockers, x),
    ensures
        !reaches(after, x, before[p].change_id@),
{
    let id = before[p].change_id@;
    if reaches(after, x, id) {
        let n = choose|n: nat| reaches_within(after, x, id, n);
        lemma_first_arrival(before, after, p, blockers, x, n);
        assert(reaches(before, x, id));
        assert(among(before[p].blocked_by@, x) || among(added, x));
    }
}

proof fn lemma_first_arrival(
    before: Seq<ChangeState>,
    after: Seq<ChangeState>,
    p: int,
    blockers: Seq<String>,
    x: Seq<char>,
    n: nat,
)
    requires
        ledger(before),
        0 <= p < before.len(),
        rewired(before, after, p, blockers),
        reaches_within(after, x, before[p].change_id@, n),
    ensures
        reaches_within(before, x, before[p].change_id@, n),
    decreases n,
{
    let id = before[p].change_id@;
    if x != id {
        assert(ledger(after)) by {
            assert forall|i: int, j: int| 0 <= i < j < after.len() implies precedes(
                #[trigger] after[i].change_id@,
                #[trigger] after[j].change_id@,
            ) by {
                assert(precedes(before[i].change_id@, before[j].change_id@));
            }
        }
        let here = at(after, x);
        assert(0 <= here < after.len() && after[here].change_id@ == x);
        assert(before[here].change_id@ == x);
        lemma_at(before, x, here);
        let i = choose|i: int|
            0 <= i < after[here].blocked_by@.len() && reaches_within(
                after,
                (#[trigger] after[here].blocked_by@[i])@,
                id,
                (n - 1) as nat,
            );
        assert(here != p);
        assert(after[here].blocked_by@ == before[here].blocked_by@);
        lemma_first_arrival(before, after, p, blockers, after[here].blocked_by@[i]@, (n - 1) as nat);
        assert(reaches_within(before, before[here].blocked_by@[i]@, id, (n - 1) as nat));
    }
}

/// Which prerequisite a removal means.
#[derive(Debug)]
pub enum BlockerRemoval {
    Blocker { change_id: String },
    /// None of the prerequisites: the ledger has to say.
    Ledger,
}

/// Several prerequisites begin with the reference.
#[derive(Debug, PartialEq, Eq, Structural)]
pub struct AmbiguousBlocker {
    pub matches: usize,
}

/// The positions of the prerequisites that begin with a reference.
pub open spec fn blockers_named(state: ChangeState, reference: Seq<char>) -> Seq<int> {
    chosen(state.blocked_by@.len(), |i: int| begins(state.blocked_by@[i]@, reference))
}

/// Whether `r` is the prerequisite that a removal means.
pub open spec fn names_blocker(
    state: &ChangeState,
    reference: &str,
    r: Result< BlockerRemoval, AmbiguousBlocker, >,
) -> bool {
    match r {
            Ok(BlockerRemoval::Blocker { change_id }) => if among(state.blocked_by@, reference@) {
                change_id@ == reference@
            } else {
                exists|k: int|
                    blockers_named(*state, reference@) == seq![k] && 0 <= k
                        < state.blocked_by@.len() && change_id@ == (
                    #[trigger] state.blocked_by@[k])@
            },
            Ok(BlockerRemoval::Ledger) => !among(state.blocked_by@, reference@) && blockers_named(
                *state,
                reference@,
            ).len() == 0,
            Err(ambiguous) => !among(state.blocked_by@, reference@) && ambiguous.matches > 1
                && blockers_named(*state, reference@).len() == ambiguous.matches,
        }
}

/// The prerequisite that a removal means: the one of that identity, or else the only one that
/// begins with it.
pub fn resolve_blocker_removal(state: &ChangeState, reference: &str) -> (r: Result<
    BlockerRemoval,
    AmbiguousBlocker,
>)
    ensures
        names_blocker(state, reference, r),
{
    if contains(&state.blocked_by, reference) {
        return Ok(BlockerRemoval::Blocker { change_id: reference.to_string() });
    }
    let all = &state.blocked_by;
    let mut matching: Vec<usize> = Vec::new();
    for i in 0..all.len()
        invariant
            all@ == state.blocked_by@,
            ints(matching@) == chosen(
                i as nat,
                |k: int| begins(state.blocked_by@[k]@, reference@),
            ),
            forall|k: int| 0 <= k < matching@.len() ==> #[trigger] matching@[k] < i,
    {
        let ghost before = ints(matching@);
        if starts_with(all[i].as_str(), reference) {
            matching.push(i);
            assert(ints(matching@) =~= before.push(i as int));
        }
    }
    assert(ints(matching@).len() == matching@.len());
    if matching.len() == 0 {
        return Ok(BlockerRemoval::Ledger);
    }
    if matching.len() > 1 {
        return Err(AmbiguousBlocker { matches: matching.len() });
    }
    assert(ints(matching@) =~= seq![matching@[0] as int]);
    assert(state.blocked_by@[matching@[0] as int]@ == all@[matching@[0] as int]@);
    Ok(BlockerRemoval::Blocker { change_id: all[matching[0]].clone() })
}

/// The metadata of a change as it is read.
pub open spec fn metadata_text(state: ChangeState) -> Seq<char> {
    "change: "@ + state.change_id@ + "\nblocked-by: "@ + joined(views(state.blocked_by@), ", "@)
        + "\ntags: "@ + joined(views(state.tags@), ", "@) + "\nassigned-to: "@ + (
    match state.assigned_to {
        Some(name) => name@,
        None => ""@,
    }) + "\npriority: "@ + signed_of(state.priority as int) + "\n"@
}

/// The metadata of a change as it is read.
pub fn read_metadata(state: &ChangeState) -> (r: String)
    ensures
        r@ == metadata_text(*state),
{
    let mut out = "change: ".to_string();
    out.append(state.change_id.as_str());
    out.append("\nblocked-by: ");
    out.append(join(&state.blocked_by, ", ").as_str());
    out.append("\ntags: ");
    out.append(join(&state.tags, ", ").as_str());
    out.append("\nassigned-to: ");
    match &state.assigned_to {
        Some(name) => out.append(name.as_str()),
        None => out.append(""),
    }
    out.append("\npriority: ");
    out.append(signed(state.priority).as_str());
    out.append("\n");
    out
}

/// The lines on the first `n` prerequisites of a change that are not met.
pub open spec fn waiting_lines(
    changes: Seq<ChangeState>,
    blocked_by: Seq<String>,
    n: int,
) -> Seq<char>
    decreases n,
{
    if n <= 0 {
        Seq::empty()
    } else if satisfied(changes, blocked_by[n - 1]@) {
        waiting_lines(changes, blocked_by, n - 1)
    } else {
        waiting_lines(changes, blocked_by, n - 1) + ("blocked by "@ + blocked_by[n - 1]@ + " ("@
            + readiness_text(readiness(changes, blocked_by[n - 1]@)) + ")\n"@)
    }
}

/// Whether `r` tells what a change waits for.
pub open spec fn tells_waiting(
    state: &ChangeState,
    changes: &Vec<ChangeState>,
    r: (String, i32),
) -> bool {
    &&& r.0@ == (if blocked(changes@, *state) {
            waiting_lines(changes@, state.blocked_by@, state.blocked_by@.len() as int)
        } else {
            "ready: all prerequisite changes are integrated\n"@
        })
    &&& r.1 == (if blocked(changes@, *state) {
            1int
        } else {
            0int
        })
}

/// What a change waits for, and an exit code that says whether it waits.
pub fn is_blocked(state: &ChangeState, changes: &Vec<ChangeState>) -> (r: (String, i32))
    requires
        ledger(changes@),
    ensures
        tells_waiting(state, changes, r),
{
    let status = dependency_status(state, changes);
    if !status.blocked {
        return ("ready: all prerequisite changes are integrated\n".to_string(), 0);
    }
    let all = &status.blockers_ready;
    let mut out = String::new();
    for i in 0..all.len()
        invariant
            all@.len() == state.blocked_by@.len(),
            forall|k: int|
                0 <= k < state.blocked_by@.len() ==> (#[trigger] all@[k]).describes(
                    changes@,
                    state.blocked_by@[k]@,
                ),
            out@ == waiting_lines(changes@, state.blocked_by@, i as int),
    {
        assert(all@[i as int].describes(changes@, state.blocked_by@[i as int]@));
        if !all[i].integrated {
            let mut line = "blocked by ".to_string();
            line.append(all[i].change_id.as_str());
            line.append(" (");
            line.append(all[i].status.as_str());
            line.append(")\n");
            out.append(line.as_str());
        }
    }
    (out, 1)
}

/// Names in order are those that were given, each once.
pub proof fn sorted_names_are_the_names(names: Seq<String>)
    ensures
        ascending(sorted_names(names)),
        forall|x: Seq<char>| #[trigger]
            sorted_names(names).contains(x) <==> exists|i: int|
                0 <= i < names.len() && (#[trigger] names[i])@ == x,
{
    let wanted = |x: Seq<char>| among(names, x);
    assert forall|x: Seq<char>| #[trigger] wanted(x) <==> views(names).contains(x) by {
        lemma_views_contain(names, x);
    }
    lists_hold_what_is_wanted(views(names), wanted);
}

/// Tags are what the raw tags come to without the white space around them, each once.
pub proof fn normal_tags_are_the_tags(raw: Seq<String>)
    ensures
        ascending(normal_tags(raw)),
        forall|x: Seq<char>| #[trigger]
            normal_tags(raw).contains(x) <==> exists|i: int|
                0 <= i < raw.len() && trimmed((#[trigger] raw[i])@) == x,
{
    let texts = Seq::new(raw.len(), |i: int| trimmed(raw[i]@));
    assert forall|x: Seq<char>| #[trigger] tagged(raw)(x) <==> texts.contains(x) by {
        if tagged(raw)(x) {
            let i = choose|i: int| 0 <= i < raw.len() && trimmed((#[trigger] raw[i])@) == x;
            assert(texts[i] == x);
        }
        if texts.contains(x) {
            let i = choose|i: int| 0 <= i < texts.len() && texts[i] == x;
            assert(trimmed(raw[i]@) == x);
        }
    }
    lists_hold_what_is_wanted(texts, tagged(raw));
}

/// A closed change keeps its metadata, and an open one never waits for itself, nor for what
/// already waits for it.
pub proof fn updates_close_no_circle(
    changes: &Vec<ChangeState>,
    change: usize,
    args: &MetadataArgs,
    i: int,
    k: int,
    r: Result<Payload, MetadataRefusal>,
)
    requires
        answers_metadata(changes, change, args, r),
        ledger(changes@),
        change < changes@.len(),
        0 <= i < args.add_blocked_by@.len(),
        0 <= k < changes@.len(),
        r is Ok,
    ensures
        changes@[change as int].closure is None,
        args.add_blocked_by@[i]@ != changes@[change as int].change_id@,
        args.add_blocked_by@[i]@ == changes@[k].change_id@ ==> forall|j: int|
            0 <= j < changes@[k].blocked_by@.len() ==> (#[trigger] changes@[k].blocked_by@[j])@
                != changes@[change as int].change_id@,
{
    let id = changes@[change as int].change_id@;
    let x = args.add_blocked_by@[i]@;
    assert(among(args.add_blocked_by@, x));
    assert(!reaches(changes@, x, id));
    if x == id {
        assert(reaches_within(changes@, x, id, 0));
    }
    if x == changes@[k].change_id@ {
        lemma_at(changes@, x, k);
        assert forall|j: int| 0 <= j < changes@[k].blocked_by@.len() implies (
        #[trigger] changes@[k].blocked_by@[j])@ != id by {
            if changes@[k].blocked_by@[j]@ == id {
                assert(reaches_within(changes@, changes@[at(changes@, x)].blocked_by@[j]@, id, 0));
                assert(reaches_within(changes@, x, id, 1));
            }
        }
    }
}

/// An update records exactly what was asked: the prerequisites and the tags to add and to remove,
/// each as such, the assignment without the white space around it, and the priority.
pub proof fn updates_record_what_was_asked(
    changes: &Vec<ChangeState>,
    change: usize,
    args: &MetadataArgs,
    x: Seq<char>,
    r: Result<Payload, MetadataRefusal>,
)
    requires
        answers_metadata(changes, change, args, r),
        r is Ok,
    ensures
        r->Ok_0 matches Payload::MetadataUpdated {
            add_blocked_by,
            remove_blocked_by,
            add_tags,
            remove_tags,
            assign,
            priority,
        } && {
            &&& among(add_blocked_by@, x) <==> among(args.add_blocked_by@, x)
            &&& among(remove_blocked_by@, x) <==> among(args.remove_blocked_by@, x)
            &&& among(add_tags@, x) <==> exists|i: int|
                0 <= i < args.tags@.len() && trimmed((#[trigger] args.tags@[i])@) == x
            &&& among(remove_tags@, x) <==> exists|i: int|
                0 <= i < args.remove_tags@.len() && trimmed((#[trigger] args.remove_tags@[i])@) == x
            &&& assign is Some == args.assign is Some
            &&& assign is Some ==> assign->0@ == trimmed(args.assign->0@)
            &&& priority == args.priority
        },
{
    if let Payload::MetadataUpdated {
        add_blocked_by,
        remove_blocked_by,
        add_tags,
        remove_tags,
        ..
    } = r->Ok_0 {
        sorted_names_are_the_names(args.add_blocked_by@);
        sorted_names_are_the_names(args.remove_blocked_by@);
        normal_tags_are_the_tags(args.tags@);
        normal_tags_are_the_tags(args.remove_tags@);
        lemma_views_contain(add_blocked_by@, x);
        lemma_views_contain(remove_blocked_by@, x);
        lemma_views_contain(add_tags@, x);
        lemma_views_contain(remove_tags@, x);
        assert(sorted_names(args.add_blocked_by@).contains(x) <==> among(
            args.add_blocked_by@,
            x,
        ));
        assert(sorted_names(args.remove_blocked_by@).contains(x) <==> among(
            args.remove_blocked_by@,
            x,
        ));
        assert(normal_tags(args.tags@).contains(x) <==> among(add_tags@, x));
        assert(normal_tags(args.remove_tags@).contains(x) <==> among(remove_tags@, x));
    }
}

/// A change is closed exactly where that is what its update is told, and a priority alone can
/// always be set on an open one.
pub proof fn open_changes_take_updates(
    changes: &Vec<ChangeState>,
    change: usize,
    args: &MetadataArgs,
    r: Result<Payload, MetadataRefusal>,
)
    requires
        answers_metadata(changes, change, args, r),
    ensures
        changes@[change as int].closure is Some <==> r == Err::<Payload, MetadataRefusal>(
            MetadataRefusal::Closed,
        ),
        changes@[change as int].closure is None && args.add_blocked_by@.len() == 0
            && args.tags@.len() == 0 && args.remove_tags@.len() == 0 && args.assign is None && (
        args.priority is Some || args.remove_blocked_by@.len() > 0) ==> r is Ok,
        r matches Err(MetadataRefusal::Nothing) ==> args.priority is None && args.assign is None,
{
}

/// A removal means a prerequisite of the change: the one of that identity before any that begins
/// with it.
pub proof fn removals_mean_prerequisites(
    state: &ChangeState,
    reference: &str,
    r: Result<BlockerRemoval, AmbiguousBlocker>,
)
    requires
        names_blocker(state, reference, r),
    ensures
        r matches Ok(BlockerRemoval::Blocker { change_id }) ==> among(
            state.blocked_by@,
            change_id@,
        ) && begins(change_id@, reference@),
        forall|k: int|
            0 <= k < state.blocked_by@.len() && (#[trigger] state.blocked_by@[k])@ == reference@
                ==> (r matches Ok(BlockerRemoval::Blocker { change_id }) && change_id@
                == reference@),
        r matches Ok(BlockerRemoval::Ledger) ==> forall|k: int|
            0 <= k < state.blocked_by@.len() ==> !begins(
                (#[trigger] state.blocked_by@[k])@,
                reference@,
            ),
{
    let wanted = |i: int| begins(state.blocked_by@[i]@, reference@);
    lemma_chosen(state.blocked_by@.len(), wanted);
    assert(blockers_named(*state, reference@) =~= chosen(state.blocked_by@.len(), wanted));
    if let Ok(BlockerRemoval::Blocker { change_id }) = r {
        if among(state.blocked_by@, reference@) {
            assert(reference@.take(reference@.len() as int) =~= reference@);
        } else {
            let k = choose|k: int|
                blockers_named(*state, reference@) == seq![k] && 0 <= k < state.blocked_by@.len()
                    && change_id@ == (#[trigger] state.blocked_by@[k])@;
            assert(blockers_named(*state, reference@)[0] == k);
            assert(wanted(k));
        }
    }
    if let Ok(BlockerRemoval::Ledger) = r {
        assert forall|k: int| 0 <= k < state.blocked_by@.len() implies !begins(
            (#[trigger] state.blocked_by@[k])@,
            reference@,
        ) by {
            if wanted(k) {
                assert(blockers_named(*state, reference@).contains(k));
            }
        }
    }
}

/// The exit code says that a change waits exactly where one of its prerequisites is not met.
pub proof fn waiting_is_told_by_the_exit_code(
    state: &ChangeState,
    changes: &Vec<ChangeState>,
    r: (String, i32),
)
    requires
        tells_waiting(state, changes, r),
    ensures
        r.1 == 0 || r.1 == 1,
        r.1 == 0 <==> forall|i: int|
            0 <= i < state.blocked_by@.len() ==> satisfied(
                changes@,
                (#[trigger] state.blocked_by@[i])@,
            ),
{
}

} // verus!
