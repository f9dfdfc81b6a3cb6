//! The graph of prerequisites: what a change leads to, and an order that respects it.
use crate::order::lemma_distinct_bounded;
use crate::state::{at, known, ledger, lemma_at, position, ChangeState};
use crate::text::{
    among, contains, lemma_precedes_total, lemma_precedes_transitive, less, precedes, same,
};
use crate::time::before;
use vstd::prelude::*;

verus! {

/// Whether at most `n` prerequisites lead from one change to another.
pub open spec fn reaches_within(
    changes: Seq<ChangeState>,
    from: Seq<char>,
    to: Seq<char>,
    n: nat,
) -> bool
    decreases n,
{
    from == to || (n > 0 && known(changes, from) && exists|i: int|
        0 <= i < changes[at(changes, from)].blocked_by@.len() && reaches_within(
            changes,
            (#[trigger] changes[at(changes, from)].blocked_by@[i])@,
            to,
            (n - 1) as nat,
        ))
}

/// Whether prerequisites lead from one change to another.
pub open spec fn reaches(changes: Seq<ChangeState>, from: Seq<char>, to: Seq<char>) -> bool {
    exists|n: nat| reaches_within(changes, from, to, n)
}

/// Every change leads to itself.
pub proof fn reaches_is_reflexive(changes: Seq<ChangeState>, id: Seq<char>)
    ensures
        reaches(changes, id, id),
{
    assert(reaches_within(changes, id, id, 0));
}

/// What a prerequisite leads to, the change that waits for it leads to.
pub proof fn reaches_through_prerequisite(
    changes: Seq<ChangeState>,
    from: Seq<char>,
    i: int,
    to: Seq<char>,
)
    requires
        known(changes, from),
        0 <= i < changes[at(changes, from)].blocked_by@.len(),
        reaches(changes, changes[at(changes, from)].blocked_by@[i]@, to),
    ensures
        reaches(changes, from, to),
{
    let n = choose|n: nat|
        reaches_within(changes, changes[at(changes, from)].blocked_by@[i]@, to, n);
    assert(reaches_within(changes, from, to, n + 1));
}

/// Leading to is transitive.
pub proof fn reaches_is_transitive(
    changes: Seq<ChangeState>,
    a: Seq<char>,
    b: Seq<char>,
    c: Seq<char>,
)
    requires
        reaches(changes, a, b),
        reaches(changes, b, c),
    ensures
        reaches(changes, a, c),
{
    let n = choose|n: nat| reaches_within(changes, a, b, n);
    lemma_reaches_joins(changes, a, b, c, n);
}

proof fn lemma_reaches_joins(
    changes: Seq<ChangeState>,
    a: Seq<char>,
    b: Seq<char>,
    c: Seq<char>,
    n: nat,
)
    requires
        reaches_within(changes, a, b, n),
        reaches(changes, b, c),
    ensures
        reaches(changes, a, c),
    decreases n,
{
    if a != b {
        let i = choose|i: int|
            0 <= i < changes[at(changes, a)].blocked_by@.len() && reaches_within(
                changes,
                (#[trigger] changes[at(changes, a)].blocked_by@[i])@,
                b,
                (n - 1) as nat,
            );
        lemma_reaches_joins(changes, changes[at(changes, a)].blocked_by@[i]@, b, c, (n - 1) as nat);
        reaches_through_prerequisite(changes, a, i, c);
    }
}

/// Whether an identity is pending.
spec fn waiting(pending: Seq<&str>, id: Seq<char>) -> bool {
    exists|k: int| 0 <= k < pending.len() && (#[trigger] pending[k])@ == id
}

/// Whether a text is the identity of one of the changes at `visited`, or pending.
spec fn accounted(
    changes: Seq<ChangeState>,
    visited: Seq<usize>,
    pending: Seq<&str>,
    id: Seq<char>,
) -> bool {
    ||| !known(changes, id)
    ||| visited.contains(at(changes, id) as usize)
    ||| waiting(pending, id)
}

/// A set of changes that leads nowhere but to itself does not reach what it does not hold.
proof fn lemma_closed_set(
    changes: Seq<ChangeState>,
    visited: Seq<usize>,
    from: Seq<char>,
    to: Seq<char>,
    n: nat,
)
    requires
        ledger(changes),
        changes.len() <= usize::MAX,
        from != to,
        known(changes, from) ==> visited.contains(at(changes, from) as usize),
        forall|k: int|
            0 <= k < visited.len() ==> #[trigger] visited[k] < changes.len()
                && changes[visited[k] as int].change_id@ != to,
        forall|k: int, i: int|
            0 <= k < visited.len() && 0 <= i < changes[visited[k] as int].blocked_by@.len() ==> {
                let next = (#[trigger] changes[visited[k] as int].blocked_by@[i])@;
                next != to && (known(changes, next) ==> visited.contains(
                    at(changes, next) as usize,
                ))
            },
    ensures
        !reaches_within(changes, from, to, n),
    decreases n,
{
    if n > 0 && known(changes, from) {
        let here = at(changes, from);
        assert(0 <= here < changes.len());
        let k = choose|k: int| 0 <= k < visited.len() && visited[k] == here as usize;
        assert(visited[k] as int == here);
        assert forall|i: int| 0 <= i < changes[here].blocked_by@.len() implies !reaches_within(
            changes,
            (#[trigger] changes[here].blocked_by@[i])@,
            to,
            (n - 1) as nat,
        ) by {
            let next = changes[visited[k] as int].blocked_by@[i]@;
            assert(next != to);
            lemma_closed_set(changes, visited, next, to, (n - 1) as nat);
        }
    }
}

/// Whether prerequisites lead from `start` to `target`.
pub fn dependency_reaches(start: &str, target: &str, changes: &Vec<ChangeState>) -> (r: bool)
    requires
        ledger(changes@),
    ensures
        r == reaches(changes@, start@, target@),
{
    let total: usize = changes.len();
    let mut pending: Vec<&str> = Vec::new();
    let mut visited: Vec<usize> = Vec::new();
    pending.push(start);
    proof {
        assert(pending@[0]@ == start@);
        reaches_is_reflexive(changes@, start@);
    }
    while pending.len() > 0
        invariant
            ledger(changes@),
            total == changes@.len(),
            visited@.no_duplicates(),
            forall|k: int| 0 <= k < visited@.len() ==> #[trigger] visited@[k] < changes@.len(),
            forall|k: int|
                0 <= k < visited@.len() ==> changes@[#[trigger] visited@[k] as int].change_id@
                    != target@,
            forall|k: int|
                0 <= k < pending@.len() ==> reaches(changes@, start@, (#[trigger] pending@[k])@),
            start@ == target@ ==> waiting(pending@, target@),
            accounted(changes@, visited@, pending@, start@),
            forall|k: int, i: int|
                0 <= k < visited@.len() && 0 <= i < changes@[visited@[k] as int].blocked_by@.len()
                    ==> {
                    let next = (#[trigger] changes@[visited@[k] as int].blocked_by@[i])@;
                    accounted(changes@, visited@, pending@, next) && (next == target@ ==> waiting(
                        pending@,
                        target@,
                    ))
                },
        decreases changes@.len() - visited@.len(), pending@.len(),
    {
        let ghost before_pending = pending@;
        let ghost before_visited = visited@;
        let id: &str = match pending.pop() {
            Some(id) => id,
            None => {
                return false;
            },
        };
        proof {
            lemma_distinct_bounded(visited@, changes@.len());
            assert(before_pending[before_pending.len() - 1]@ == id@);
            assert(forall|k: int| 0 <= k < pending@.len() ==> pending@[k] == before_pending[k]);
        }
        if same(id, target) {
            return true;
        }
        match position(changes, id) {
            Some(here) => {
                if is_visited(&visited, here) {
                    proof {
                        lemma_keep_accounts(
                            changes@,
                            before_visited,
                            before_pending,
                            visited@,
                            pending@,
                            id@,
                        );
                    }
                } else {
                    visited.push(here);
                    proof {
                        lemma_distinct_push(before_visited, here);
                        lemma_distinct_bounded(visited@, changes@.len());
                    }
                    let waits: &Vec<String> = &changes[here].blocked_by;
                    for j in 0..waits.len()
                        invariant
                            *waits == changes@[here as int].blocked_by,
                            here < changes@.len(),
                            known(changes@, id@),
                            at(changes@, id@) == here,
                            reaches(changes@, start@, id@),
                            pending@.len() == before_pending.len() - 1 + j,
                            before_pending.len() > 0,
                            forall|k: int|
                                0 <= k < before_pending.len() - 1 ==> pending@[k]
                                    == #[trigger] before_pending[k],
                            forall|k: int|
                                0 <= k < j ==> (#[trigger] changes@[here as int].blocked_by@[k])@
                                    == pending@[before_pending.len() - 1 + k]@,
                            forall|k: int|
                                0 <= k < pending@.len() ==> reaches(
                                    changes@,
                                    start@,
                                    (#[trigger] pending@[k])@,
                                ),
                    {
                        let next: &str = waits[j].as_str();
                        proof {
                            reaches_is_reflexive(changes@, next@);
                            reaches_through_prerequisite(changes@, id@, j as int, next@);
                            reaches_is_transitive(changes@, start@, id@, next@);
                        }
                        pending.push(next);
                    }
                    proof {
                        lemma_new_accounts(
                            changes@,
                            before_visited,
                            before_pending,
                            visited@,
                            pending@,
                            id@,
                            here,
                            target@,
                        );
                        assert(accounted(changes@, visited@, pending@, start@));
                    }
                }
            },
            None => {
                proof {
                    lemma_keep_accounts(
                        changes@,
                        before_visited,
                        before_pending,
                        visited@,
                        pending@,
                        id@,
                    );
                }
            },
        }
    }
    proof {
        assert(start@ != target@);
        assert forall|n: nat| !reaches_within(changes@, start@, target@, n) by {
            lemma_closed_set(changes@, visited@, start@, target@, n);
        }
    }
    false
}

fn is_visited(visited: &Vec<usize>, wanted: usize) -> (r: bool)
    ensures
        r == visited@.contains(wanted),
{
    for k in 0..visited.len()
        invariant
            forall|j: int| 0 <= j < k ==> #[trigger] visited@[j] != wanted,
    {
        if visited[k] == wanted {
            return true;
        }
    }
    false
}

proof fn lemma_distinct_push(visited: Seq<usize>, here: usize)
    requires
        visited.no_duplicates(),
        !visited.contains(here),
    ensures
        visited.push(here).no_duplicates(),
{
    let all = visited.push(here);
    assert forall|i: int, j: int|
        0 <= i < all.len() && 0 <= j < all.len() && i != j implies all[i] != all[j] by {
        if i < visited.len() && j < visited.len() {
            assert(visited[i] != visited[j]);
        } else if i < visited.len() {
            assert(visited.contains(visited[i]));
        } else {
            assert(visited.contains(visited[j]));
        }
    }
}

/// Dropping a pending identity that is unknown or visited leaves every account as it was.
proof fn lemma_keep_accounts(
    changes: Seq<ChangeState>,
    old_visited: Seq<usize>,
    old_pending: Seq<&str>,
    visited: Seq<usize>,
    pending: Seq<&str>,
    id: Seq<char>,
)
    requires
        visited == old_visited,
        old_pending.len() > 0,
        pending == old_pending.drop_last(),
        old_pending.last()@ == id,
        !known(changes, id) || visited.contains(at(changes, id) as usize),
    ensures
        forall|x: Seq<char>|
            #[trigger] accounted(changes, old_visited, old_pending, x) ==> accounted(
                changes,
                visited,
                pending,
                x,
            ),
        forall|x: Seq<char>|
            x != id && #[trigger] waiting(old_pending, x) ==> waiting(pending, x),
{
    assert forall|x: Seq<char>| #[trigger]
        accounted(changes, old_visited, old_pending, x) implies accounted(
        changes,
        visited,
        pending,
        x,
    ) by {
        if known(changes, x) && !visited.contains(at(changes, x) as usize) {
            let k = choose|k: int| 0 <= k < old_pending.len() && (#[trigger] old_pending[k])@ == x;
            assert(k < old_pending.len() - 1);
            assert(pending[k]@ == x);
        }
    }
    assert forall|x: Seq<char>| x != id && #[trigger] waiting(old_pending, x) implies waiting(
        pending,
        x,
    ) by {
        let k = choose|k: int| 0 <= k < old_pending.len() && (#[trigger] old_pending[k])@ == x;
        assert(k < old_pending.len() - 1);
        assert(pending[k]@ == x);
    }
}

/// Visiting a change and making its prerequisites pending keeps every account.
proof fn lemma_new_accounts(
    changes: Seq<ChangeState>,
    old_visited: Seq<usize>,
    old_pending: Seq<&str>,
    visited: Seq<usize>,
    pending: Seq<&str>,
    id: Seq<char>,
    here: usize,
    target: Seq<char>,
)
    requires
        here < changes.len(),
        known(changes, id),
        at(changes, id) == here,
        id != target,
        visited == old_visited.push(here),
        old_pending.len() > 0,
        old_pending.last()@ == id,
        pending.len() == old_pending.len() - 1 + changes[here as int].blocked_by@.len(),
        forall|k: int| 0 <= k < old_pending.len() - 1 ==> pending[k] == #[trigger] old_pending[k],
        forall|k: int|
            0 <= k < changes[here as int].blocked_by@.len() ==> (
            #[trigger] changes[here as int].blocked_by@[k])@ == pending[old_pending.len() - 1 + k]@,
        forall|k: int, i: int|
            0 <= k < old_visited.len() && 0 <= i < changes[old_visited[k] as int].blocked_by@.len()
                ==> {
                let next = (#[trigger] changes[old_visited[k] as int].blocked_by@[i])@;
                accounted(changes, old_visited, old_pending, next) && (next == target ==> waiting(
                    old_pending,
                    target,
                ))
            },
    ensures
        forall|x: Seq<char>|
            #[trigger] accounted(changes, old_visited, old_pending, x) ==> accounted(
                changes,
                visited,
                pending,
                x,
            ),
        waiting(old_pending, target) ==> waiting(pending, target),
        forall|k: int, i: int|
            0 <= k < visited.len() && 0 <= i < changes[visited[k] as int].blocked_by@.len() ==> {
                let next = (#[trigger] changes[visited[k] as int].blocked_by@[i])@;
                accounted(changes, visited, pending, next) && (next == target ==> waiting(
                    pending,
                    target,
                ))
            },
{
    assert forall|x: Seq<char>| #[trigger]
        accounted(changes, old_visited, old_pending, x) implies accounted(
        changes,
        visited,
        pending,
        x,
    ) by {
        if known(changes, x) {
            let spot = at(changes, x) as usize;
            if old_visited.contains(spot) {
                let k = choose|k: int| 0 <= k < old_visited.len() && old_visited[k] == spot;
                assert(visited[k] == spot);
            } else {
                let k = choose|k: int|
                    0 <= k < old_pending.len() && (#[trigger] old_pending[k])@ == x;
                if k < old_pending.len() - 1 {
                    assert(pending[k]@ == x);
                } else {
                    assert(visited[old_visited.len() as int] == here);
                }
            }
        }
    }
    if waiting(old_pending, target) {
        let k = choose|k: int| 0 <= k < old_pending.len() && (#[trigger] old_pending[k])@ == target;
        assert(k < old_pending.len() - 1);
        assert(pending[k]@ == target);
    }
    assert forall|k: int, i: int|
        0 <= k < visited.len() && 0 <= i < changes[visited[k] as int].blocked_by@.len() implies {
        let next = (#[trigger] changes[visited[k] as int].blocked_by@[i])@;
        accounted(changes, visited, pending, next) && (next == target ==> waiting(pending, target))
    } by {
        let next = changes[visited[k] as int].blocked_by@[i]@;
        if k < old_visited.len() {
            assert(visited[k] == old_visited[k]);
            assert(changes[old_visited[k] as int].blocked_by@[i]@ == next);
        } else {
            assert(pending[old_pending.len() - 1 + i]@ == next);
        }
    }
}

/// Whether the change at one position waits for the one at another.
pub open spec fn needs(changes: Seq<ChangeState>, i: usize, j: usize) -> bool {
    among(changes[i as int].blocked_by@, changes[j as int].change_id@)
}

/// Whether a member is not done yet and all it needs among the members is.
pub open spec fn ready_after(
    changes: Seq<ChangeState>,
    members: Seq<usize>,
    done: Seq<usize>,
    i: usize,
) -> bool {
    &&& members.contains(i)
    &&& !done.contains(i)
    &&& forall|j: usize| #[trigger] members.contains(j) && needs(changes, i, j) ==> done.contains(j)
}

/// The order of opening, and of identities among changes opened at the same instant.
pub open spec fn opened_before(changes: Seq<ChangeState>, a: usize, b: usize) -> bool {
    let x = changes[a as int];
    let y = changes[b as int];
    before(x.opened_at, y.opened_at) || (!before(y.opened_at, x.opened_at) && precedes(
        x.change_id@,
        y.change_id@,
    ))
}

/// Whether `order` holds every member once, each of them, among those that were ready when its
/// turn came, the one opened first.
pub open spec fn dependency_ordered(
    changes: Seq<ChangeState>,
    members: Seq<usize>,
    order: Seq<usize>,
) -> bool {
    &&& order.no_duplicates()
    &&& order.len() == members.len()
    &&& forall|i: usize| #[trigger] order.contains(i) <==> members.contains(i)
    &&& forall|k: int|
        0 <= k < order.len() ==> ready_after(changes, members, order.take(k), #[trigger] order[k])
    &&& forall|k: int, i: usize|
        0 <= k < order.len() && #[trigger] ready_after(changes, members, order.take(k), i) && i
            != order[k] ==> opened_before(changes, order[k], i)
}

/// Whether each of some members needs another of them.
pub open spec fn stuck(changes: Seq<ChangeState>, members: Seq<usize>, rest: Set<usize>) -> bool {
    &&& exists|i: usize| #[trigger] rest.contains(i)
    &&& forall|i: usize| #[trigger]
        rest.contains(i) ==> members.contains(i) && exists|j: usize| #[trigger]
            rest.contains(j) && needs(changes, i, j)
}

/// Whether the members contain a dependency cycle.
pub open spec fn cyclic(changes: Seq<ChangeState>, members: Seq<usize>) -> bool {
    exists|rest: Set<usize>| stuck(changes, members, rest)
}

/// Members that have a dependency order contain no dependency cycle.
pub proof fn ordered_members_have_no_cycle(
    changes: Seq<ChangeState>,
    members: Seq<usize>,
    order: Seq<usize>,
)
    requires
        dependency_ordered(changes, members, order),
    ensures
        !cyclic(changes, members),
{
    assert forall|rest: Set<usize>| !stuck(changes, members, rest) by {
        if stuck(changes, members, rest) {
            let i = choose|i: usize| #[trigger] rest.contains(i);
            assert(members.contains(i));
            assert(order.contains(i));
            let k = choose|k: int| 0 <= k < order.len() && order[k] == i;
            lemma_ordered_outside(changes, members, order, rest, k);
        }
    }
}

proof fn lemma_ordered_outside(
    changes: Seq<ChangeState>,
    members: Seq<usize>,
    order: Seq<usize>,
    rest: Set<usize>,
    k: int,
)
    requires
        dependency_ordered(changes, members, order),
        stuck(changes, members, rest),
        0 <= k < order.len(),
    ensures
        !rest.contains(order[k]),
    decreases k,
{
    if rest.contains(order[k]) {
        let j = choose|j: usize| #[trigger] rest.contains(j) && needs(changes, order[k], j);
        assert(members.contains(j));
        assert(order.take(k).contains(j));
        let m = choose|m: int| 0 <= m < order.take(k).len() && order.take(k)[m] == j;
        assert(order[m] == j);
        lemma_ordered_outside(changes, members, order, rest, m);
    }
}

/// In a dependency order every member comes after all it needs.
pub proof fn order_respects_needs(
    changes: Seq<ChangeState>,
    members: Seq<usize>,
    order: Seq<usize>,
    k: int,
    j: usize,
)
    requires
        dependency_ordered(changes, members, order),
        0 <= k < order.len(),
        members.contains(j),
        needs(changes, order[k], j),
    ensures
        exists|m: int| 0 <= m < k && order[m] == j,
{
    assert(ready_after(changes, members, order.take(k), order[k]));
    assert(order.take(k).contains(j));
    let m = choose|m: int| 0 <= m < order.take(k).len() && order.take(k)[m] == j;
    assert(order[m] == j);
}

/// Whether the change at a position waits for none of the pending ones.
pub open spec fn free(changes: Seq<ChangeState>, pending: Seq<usize>, i: usize) -> bool {
    forall|j: usize| #[trigger] pending.contains(j) ==> !needs(changes, i, j)
}

fn waits_for_none(changes: &Vec<ChangeState>, pending: &Vec<usize>, i: usize) -> (r: bool)
    requires
        i < changes@.len(),
        forall|k: int| 0 <= k < pending@.len() ==> #[trigger] pending@[k] < changes@.len(),
    ensures
        r == free(changes@, pending@, i),
{
    for k in 0..pending.len()
        invariant
            i < changes@.len(),
            forall|k: int| 0 <= k < pending@.len() ==> #[trigger] pending@[k] < changes@.len(),
            forall|m: int| 0 <= m < k ==> !needs(changes@, i, #[trigger] pending@[m]),
    {
        let j: usize = pending[k];
        if contains(&changes[i].blocked_by, changes[j].change_id.as_str()) {
            assert(pending@.contains(j));
            return false;
        }
    }
    true
}

fn is_opened_before(changes: &Vec<ChangeState>, a: usize, b: usize) -> (r: bool)
    requires
        a < changes@.len(),
        b < changes@.len(),
    ensures
        r == opened_before(changes@, a, b),
{
    let x = &changes[a];
    let y = &changes[b];
    x.opened_at.is_before(&y.opened_at) || (!y.opened_at.is_before(&x.opened_at)
        && less(x.change_id.as_str(), y.change_id.as_str()))
}

proof fn lemma_opened_before(changes: Seq<ChangeState>, a: usize, b: usize, c: usize)
    requires
        ledger(changes),
        a < changes.len(),
        b < changes.len(),
        c < changes.len(),
    ensures
        a != b ==> opened_before(changes, a, b) || opened_before(changes, b, a),
        opened_before(changes, a, b) && opened_before(changes, b, c) ==> opened_before(
            changes,
            a,
            c,
        ),
{
    let x = changes[a as int].change_id@;
    let y = changes[b as int].change_id@;
    let z = changes[c as int].change_id@;
    lemma_precedes_total(x, y);
    if a != b && x == y {
        lemma_at(changes, x, a as int);
        lemma_at(changes, x, b as int);
    }
    if precedes(x, y) && precedes(y, z) {
        lemma_precedes_transitive(x, y, z);
    }
}

/// The place in `pending` of the change opened first among those that wait for no pending one.
fn first_ready(changes: &Vec<ChangeState>, pending: &Vec<usize>) -> (r: Option<usize>)
    requires
        ledger(changes@),
        pending@.no_duplicates(),
        forall|k: int| 0 <= k < pending@.len() ==> #[trigger] pending@[k] < changes@.len(),
    ensures
        match r {
            Some(at) => {
                &&& at < pending@.len()
                &&& free(changes@, pending@, pending@[at as int])
                &&& forall|m: int|
                    0 <= m < pending@.len() && m != at && #[trigger] free(
                        changes@,
                        pending@,
                        pending@[m],
                    ) ==> opened_before(changes@, pending@[at as int], pending@[m])
            },
            None => forall|m: int|
                0 <= m < pending@.len() ==> !#[trigger] free(changes@, pending@, pending@[m]),
        },
{
    let mut best: Option<usize> = None;
    for k in 0..pending.len()
        invariant
            ledger(changes@),
            pending@.no_duplicates(),
            forall|k: int| 0 <= k < pending@.len() ==> #[trigger] pending@[k] < changes@.len(),
            match best {
                Some(at) => {
                    &&& at < k
                    &&& free(changes@, pending@, pending@[at as int])
                    &&& forall|m: int|
                        0 <= m < k && m != at && #[trigger] free(changes@, pending@, pending@[m])
                            ==> opened_before(changes@, pending@[at as int], pending@[m])
                },
                None => forall|m: int|
                    0 <= m < k ==> !#[trigger] free(changes@, pending@, pending@[m]),
            },
    {
        if waits_for_none(changes, pending, pending[k]) {
            best = match best {
                Some(at) => if is_opened_before(changes, pending[k], pending[at]) {
                    proof {
                        let new = pending@[k as int];
                        let old_best = pending@[at as int];
                        assert forall|m: int|
                            0 <= m < k + 1 && m != k && #[trigger] free(
                                changes@,
                                pending@,
                                pending@[m],
                            ) implies opened_before(changes@, new, pending@[m]) by {
                            lemma_opened_before(changes@, new, old_best, pending@[m]);
                        }
                    }
                    Some(k)
                } else {
                    proof {
                        assert(pending@[k as int] != pending@[at as int]);
                        lemma_opened_before(
                            changes@,
                            pending@[k as int],
                            pending@[at as int],
                            pending@[at as int],
                        );
                    }
                    Some(at)
                },
                None => Some(k),
            };
        }
    }
    best
}

/// The selected changes contain a dependency cycle.
#[derive(Debug)]
pub struct DependencyCycle;

/// The members in dependency order, or that they contain a dependency cycle.
pub fn dependency_order(changes: &Vec<ChangeState>, members: &Vec<usize>) -> (r: Result<
    Vec<usize>,
    DependencyCycle,
>)
    requires
        ledger(changes@),
        members@.no_duplicates(),
        forall|k: int| 0 <= k < members@.len() ==> #[trigger] members@[k] < changes@.len(),
    ensures
        match r {
            Ok(order) => dependency_ordered(changes@, members@, order@) && !cyclic(
                changes@,
                members@,
            ),
            Err(_) => cyclic(changes@, members@),
        },
{
    let mut pending: Vec<usize> = Vec::new();
    for k in 0..members.len()
        invariant
            pending@ == members@.take(k as int),
    {
        pending.push(members[k]);
    }
    assert(members@.take(members@.len() as int) =~= members@);
    let mut ordered: Vec<usize> = Vec::new();
    while pending.len() > 0
        invariant
            ledger(changes@),
            members@.no_duplicates(),
            forall|k: int| 0 <= k < members@.len() ==> #[trigger] members@[k] < changes@.len(),
            forall|k: int| 0 <= k < pending@.len() ==> #[trigger] pending@[k] < changes@.len(),
            ordered_so_far(changes@, members@, pending@, ordered@),
        decreases pending@.len(),
    {
        match first_ready(changes, &pending) {
            Some(at) => {
                proof {
                    lemma_order_grows(changes@, members@, pending@, ordered@, at as int);
                    lemma_move(pending@, ordered@, at as int);
                }
                let next: usize = pending.remove(at);
                ordered.push(next);
            },
            None => {
                proof {
                    lemma_no_next(changes@, members@, pending@, ordered@);
                }
                return Err(DependencyCycle);
            },
        }
    }
    proof {
        assert(dependency_ordered(changes@, members@, ordered@));
        ordered_members_have_no_cycle(changes@, members@, ordered@);
    }
    Ok(ordered)
}

/// Whether `ordered` is the beginning of a dependency order and `pending` holds the rest.
spec fn ordered_so_far(
    changes: Seq<ChangeState>,
    members: Seq<usize>,
    pending: Seq<usize>,
    ordered: Seq<usize>,
) -> bool {
    &&& ordered.no_duplicates()
    &&& pending.no_duplicates()
    &&& ordered.len() + pending.len() == members.len()
    &&& forall|i: usize| #[trigger]
        members.contains(i) <==> pending.contains(i) || ordered.contains(i)
    &&& forall|i: usize| #[trigger] pending.contains(i) ==> !ordered.contains(i)
    &&& forall|k: int|
        0 <= k < ordered.len() ==> ready_after(
            changes,
            members,
            ordered.take(k),
            #[trigger] ordered[k],
        )
    &&& forall|k: int, i: usize|
        0 <= k < ordered.len() && #[trigger] ready_after(changes, members, ordered.take(k), i) && i
            != ordered[k] ==> opened_before(changes, ordered[k], i)
}

proof fn lemma_order_grows(
    changes: Seq<ChangeState>,
    members: Seq<usize>,
    pending: Seq<usize>,
    ordered: Seq<usize>,
    at: int,
)
    requires
        ordered_so_far(changes, members, pending, ordered),
        0 <= at < pending.len(),
        free(changes, pending, pending[at]),
        forall|m: int|
            0 <= m < pending.len() && m != at && #[trigger] free(changes, pending, pending[m])
                ==> opened_before(changes, pending[at], pending[m]),
    ensures
        ordered_so_far(changes, members, pending.remove(at), ordered.push(pending[at])),
{
    lemma_move(pending, ordered, at);
    let next = pending[at];
    let more = ordered.push(next);
    let n = ordered.len() as int;
    assert(pending.contains(next));
    assert(more.take(n) =~= ordered);
    assert(ready_after(changes, members, ordered, next)) by {
        assert(members.contains(next));
        assert forall|j: usize| #[trigger]
            members.contains(j) && needs(changes, next, j) implies ordered.contains(j) by {
            assert(pending.contains(j) || ordered.contains(j));
        }
    }
    assert forall|k: int| 0 <= k < more.len() implies ready_after(
        changes,
        members,
        more.take(k),
        #[trigger] more[k],
    ) by {
        if k < n {
            assert(more.take(k) =~= ordered.take(k));
            assert(more[k] == ordered[k]);
        }
    }
    assert forall|k: int, i: usize|
        0 <= k < more.len() && #[trigger] ready_after(changes, members, more.take(k), i) && i
            != more[k] implies opened_before(changes, more[k], i) by {
        if k < n {
            assert(more.take(k) =~= ordered.take(k));
            assert(more[k] == ordered[k]);
            assert(ready_after(changes, members, ordered.take(k), i));
        } else {
            assert(ready_after(changes, members, ordered, i));
            assert(members.contains(i));
            assert(pending.contains(i));
            let m = choose|m: int| 0 <= m < pending.len() && pending[m] == i;
            assert(free(changes, pending, pending[m])) by {
                assert forall|j: usize| #[trigger] pending.contains(j) implies !needs(
                    changes,
                    pending[m],
                    j,
                ) by {
                    assert(members.contains(j));
                }
            }
        }
    }
    assert forall|i: usize| #[trigger]
        members.contains(i) <==> pending.remove(at).contains(i) || more.contains(i) by {
        assert(pending.remove(at).contains(i) <==> pending.contains(i) && i != next);
        assert(more.contains(i) <==> ordered.contains(i) || i == next);
    }
    assert forall|i: usize| #[trigger] pending.remove(at).contains(i) implies !more.contains(
        i,
    ) by {
        assert(more.contains(i) <==> ordered.contains(i) || i == next);
    }
}

proof fn lemma_no_next(
    changes: Seq<ChangeState>,
    members: Seq<usize>,
    pending: Seq<usize>,
    ordered: Seq<usize>,
)
    requires
        ordered_so_far(changes, members, pending, ordered),
        pending.len() > 0,
        forall|m: int|
            0 <= m < pending.len() ==> !#[trigger] free(changes, pending, pending[m]),
    ensures
        cyclic(changes, members),
{
    let rest = pending.to_set();
    assert(rest.contains(pending[0]));
    assert forall|i: usize| #[trigger] rest.contains(i) implies members.contains(i) && exists|
        j: usize,
    | #[trigger]
        rest.contains(j) && needs(changes, i, j) by {
        assert(pending.contains(i));
        let m = choose|m: int| 0 <= m < pending.len() && pending[m] == i;
        assert(!free(changes, pending, pending[m]));
        let j = choose|j: usize| #[trigger] pending.contains(j) && needs(changes, pending[m], j);
        assert(rest.contains(j));
    }
    assert(stuck(changes, members, rest));
}

/// Moving one position from one list without repetitions to the end of another.
proof fn lemma_move(pending: Seq<usize>, ordered: Seq<usize>, at: int)
    requires
        0 <= at < pending.len(),
        pending.no_duplicates(),
        ordered.no_duplicates(),
        forall|i: usize| #[trigger] pending.contains(i) ==> !ordered.contains(i),
    ensures
        pending.remove(at).no_duplicates(),
        ordered.push(pending[at]).no_duplicates(),
        forall|i: usize| #[trigger]
            pending.remove(at).contains(i) <==> pending.contains(i) && i != pending[at],
        forall|i: usize| #[trigger]
            ordered.push(pending[at]).contains(i) <==> ordered.contains(i) || i == pending[at],
{
    let left = pending.remove(at);
    let next = pending[at];
    let more = ordered.push(next);
    assert forall|i: int, j: int|
        0 <= i < left.len() && 0 <= j < left.len() && i != j implies left[i] != left[j] by {
        let a = if i < at { i } else { i + 1 };
        let b = if j < at { j } else { j + 1 };
        assert(left[i] == pending[a] && left[j] == pending[b]);
    }
    assert(pending.contains(next));
    lemma_distinct_push(ordered, next);
    assert forall|i: usize| #[trigger] left.contains(i) <==> pending.contains(i) && i
        != next by {
        if left.contains(i) {
            let k = choose|k: int| 0 <= k < left.len() && left[k] == i;
            let a = if k < at { k } else { k + 1 };
            assert(pending[a] == i);
        }
        if pending.contains(i) && i != next {
            let a = choose|a: int| 0 <= a < pending.len() && pending[a] == i;
            let k = if a < at { a } else { a - 1 };
            assert(left[k] == i);
        }
    }
    assert forall|i: usize| #[trigger] more.contains(i) <==> ordered.contains(i) || i
        == next by {
        if ordered.contains(i) {
            let k = choose|k: int| 0 <= k < ordered.len() && ordered[k] == i;
            assert(more[k] == i);
        }
        assert(more[ordered.len() as int] == next);
    }
}

} // verus!
