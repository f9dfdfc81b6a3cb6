//! Which changes wait for which: prerequisite status, reachability and dependency order.
use crate::model::Closure;
use crate::order::{
    chosen, in_order, lemma_chosen, lemma_distinct_bounded, sort_positions, strict_order,
};
use crate::state::{at, known, ledger, lemma_at, outcome, position, ChangeState, ClaimTiming};
use crate::table::lemma_views_contain;
use crate::text::{among, contains, opt_view, same, views};
use crate::time::before;
use vstd::prelude::*;

verus! {

/// What a change waiting for another finds there.
#[derive(Clone, Copy, Debug, PartialEq, Eq, Structural)]
pub enum Readiness {
    Missing,
    Open,
    Integrated,
    SupersededIntegrated,
    Wedged,
}

/// The change that superseded a known one, where one did.
pub open spec fn successor(changes: Seq<ChangeState>, id: Seq<char>) -> Option<Seq<char>> {
    if known(changes, id) {
        match changes[at(changes, id)].closure {
            Some(closure) => if closure.outcome == Closure::Superseded {
                match closure.superseded_by {
                    Some(next) => Some(next@),
                    None => None,
                }
            } else {
                None
            },
            None => None,
        }
    } else {
        None
    }
}

/// Whether a known change was integrated.
pub open spec fn integrated(changes: Seq<ChangeState>, id: Seq<char>) -> bool {
    known(changes, id) && outcome(changes[at(changes, id)]) == Some(Closure::Integrated)
}

/// Whether at most `n` supersessions lead from a change to an integrated one.
pub open spec fn integrated_within(changes: Seq<ChangeState>, id: Seq<char>, n: nat) -> bool
    decreases n,
{
    if integrated(changes, id) {
        true
    } else {
        match successor(changes, id) {
            Some(next) => n > 0 && integrated_within(changes, next, (n - 1) as nat),
            None => false,
        }
    }
}

/// Whether supersessions lead from a change to an integrated one.
pub open spec fn supersession_integrates(changes: Seq<ChangeState>, id: Seq<char>) -> bool {
    exists|n: nat| integrated_within(changes, id, n)
}

/// Where the supersessions from a change end.
#[derive(Clone, Copy, Debug, PartialEq, Eq, Structural)]
pub enum SupersessionResolution {
    Integrated,
    Wedged,
}

/// A walk along supersessions that has met no integrated change.
pub open spec fn fruitless_walk(changes: Seq<ChangeState>, path: Seq<usize>) -> bool {
    &&& forall|i: int|
        0 <= i < path.len() ==> #[trigger] path[i] < changes.len() && outcome(
            changes[path[i] as int],
        ) == Some(Closure::Superseded)
    &&& forall|i: int|
        0 <= i < path.len() - 1 ==> successor(changes, (#[trigger] changes[path[i] as int]).change_id@)
            == Some(changes[path[i + 1] as int].change_id@)
}

proof fn lemma_cycle_never_integrates(
    changes: Seq<ChangeState>,
    path: Seq<usize>,
    from: int,
    i: int,
    n: nat,
)
    requires
        ledger(changes),
        fruitless_walk(changes, path),
        0 <= from <= i < path.len(),
        successor(changes, changes[path.last() as int].change_id@) == Some(
            changes[path[from] as int].change_id@,
        ),
    ensures
        !integrated_within(changes, changes[path[i] as int].change_id@, n),
    decreases n,
{
    let here = path[i] as int;
    lemma_at(changes, changes[here].change_id@, here);
    if n > 0 {
        if i + 1 < path.len() {
            lemma_cycle_never_integrates(changes, path, from, i + 1, (n - 1) as nat);
        } else {
            lemma_cycle_never_integrates(changes, path, from, from, (n - 1) as nat);
        }
    }
}

proof fn lemma_walk_integrates(changes: Seq<ChangeState>, path: Seq<usize>, i: int, n: nat)
    requires
        ledger(changes),
        fruitless_walk(changes, path),
        0 <= i < path.len(),
        integrated_within(changes, changes[path[0] as int].change_id@, n),
    ensures
        n >= i,
        integrated_within(changes, changes[path[i] as int].change_id@, (n - i) as nat),
    decreases i,
{
    if i > 0 {
        lemma_walk_integrates(changes, path, i - 1, n);
        let prior = path[i - 1] as int;
        lemma_at(changes, changes[prior].change_id@, prior);
    }
}

proof fn lemma_walk_back(changes: Seq<ChangeState>, path: Seq<usize>, i: int, n: nat)
    requires
        ledger(changes),
        fruitless_walk(changes, path),
        0 <= i < path.len(),
        integrated_within(changes, changes[path[i] as int].change_id@, n),
    ensures
        integrated_within(changes, changes[path[0] as int].change_id@, (n + i) as nat),
    decreases i,
{
    if i > 0 {
        let prior = path[i - 1] as int;
        lemma_at(changes, changes[prior].change_id@, prior);
        assert(successor(changes, changes[prior].change_id@) == Some(
            changes[path[i] as int].change_id@,
        ));
        assert(integrated_within(changes, changes[prior].change_id@, n + 1));
        lemma_walk_back(changes, path, i - 1, n + 1);
    }
}

/// Where one supersession leads.
enum Step {
    Integrated,
    Next(usize),
    Stop,
}

fn step(changes: &Vec<ChangeState>, current: usize) -> (r: Step)
    requires
        ledger(changes@),
        current < changes@.len(),
    ensures
        match r {
            Step::Integrated => integrated(changes@, changes@[current as int].change_id@),
            Step::Next(i) => i < changes@.len() && outcome(changes@[current as int]) == Some(
                Closure::Superseded,
            ) && successor(changes@, changes@[current as int].change_id@) == Some(
                changes@[i as int].change_id@,
            ),
            Step::Stop => forall|n: nat|
                !integrated_within(changes@, changes@[current as int].change_id@, n),
        },
{
    let ghost here = changes@[current as int].change_id@;
    proof {
        lemma_at(changes@, here, current as int);
    }
    match &changes[current].closure {
        Some(closure) => match closure.outcome {
            Closure::Integrated => Step::Integrated,
            Closure::Abandoned => {
                assert forall|n: nat| !integrated_within(changes@, here, n) by {}
                Step::Stop
            },
            Closure::Superseded => match &closure.superseded_by {
                Some(next) => match position(changes, next.as_str()) {
                    Some(i) => Step::Next(i),
                    None => {
                        let ghost lost = next@;
                        assert forall|n: nat| !integrated_within(changes@, lost, n) by {}
                        assert(successor(changes@, here) == Some(lost));
                        assert forall|n: nat| !integrated_within(changes@, here, n) by {
                            assert(n > 0 ==> !integrated_within(changes@, lost, (n - 1) as nat));
                        }
                        Step::Stop
                    },
                },
                None => {
                    assert forall|n: nat| !integrated_within(changes@, here, n) by {}
                    Step::Stop
                },
            },
        },
        None => {
            assert forall|n: nat| !integrated_within(changes@, here, n) by {}
            Step::Stop
        },
    }
}

/// The place of a position in a list of positions.
fn place_of(positions: &Vec<usize>, wanted: usize) -> (r: Option<usize>)
    ensures
        match r {
            Some(k) => k < positions@.len() && positions@[k as int] == wanted,
            None => !positions@.contains(wanted),
        },
{
    for k in 0..positions.len()
        invariant
            forall|j: int| 0 <= j < k ==> #[trigger] positions@[j] != wanted,
    {
        if positions[k] == wanted {
            return Some(k);
        }
    }
    None
}

/// Follow supersessions from a change: they end at an integrated change, or they are wedged
/// because they run out, leave the ledger or turn in a circle.
pub fn resolve_supersession(changes: &Vec<ChangeState>, change_id: &str) -> (r:
    SupersessionResolution)
    requires
        ledger(changes@),
    ensures
        r == SupersessionResolution::Integrated <==> supersession_integrates(
            changes@,
            change_id@,
        ),
{
    let mut visited: Vec<usize> = Vec::new();
    let mut current: usize = match position(changes, change_id) {
        Some(i) => i,
        None => {
            assert forall|n: nat| !integrated_within(changes@, change_id@, n) by {}
            return SupersessionResolution::Wedged;
        },
    };
    loop
        invariant
            ledger(changes@),
            current < changes@.len(),
            visited@.no_duplicates(),
            fruitless_walk(changes@, visited@),
            walk_reaches(changes@, visited@, change_id@, changes@[current as int].change_id@),
        decreases changes@.len() - visited@.len(),
    {
        proof {
            lemma_distinct_bounded(visited@, changes@.len());
        }
        let ghost here = changes@[current as int].change_id@;
        if let Some(k) = place_of(&visited, current) {
            proof {
                lemma_circle(changes@, visited@, change_id@, k as int);
            }
            return SupersessionResolution::Wedged;
        }
        match step(changes, current) {
            Step::Integrated => {
                proof {
                    lemma_arrives(changes@, visited@, change_id@, here);
                }
                return SupersessionResolution::Integrated;
            },
            Step::Next(next) => {
                proof {
                    lemma_walk_on(changes@, visited@, change_id@, current);
                    lemma_distinct_bounded(visited@.push(current), changes@.len());
                }
                visited.push(current);
                current = next;
            },
            Step::Stop => {
                proof {
                    lemma_stops_at(changes@, visited@, change_id@, here);
                }
                return SupersessionResolution::Wedged;
            },
        }
    }
}

/// Whether a walk leads from `start` to `here`, which it has not yet passed.
spec fn walk_reaches(
    changes: Seq<ChangeState>,
    visited: Seq<usize>,
    start: Seq<char>,
    here: Seq<char>,
) -> bool {
    if visited.len() == 0 {
        here == start
    } else {
        changes[visited[0] as int].change_id@ == start && successor(
            changes,
            changes[visited.last() as int].change_id@,
        ) == Some(here)
    }
}

proof fn lemma_walk_on(
    changes: Seq<ChangeState>,
    visited: Seq<usize>,
    start: Seq<char>,
    current: usize,
)
    requires
        current < changes.len(),
        fruitless_walk(changes, visited),
        walk_reaches(changes, visited, start, changes[current as int].change_id@),
        outcome(changes[current as int]) == Some(Closure::Superseded),
        !visited.contains(current),
        visited.no_duplicates(),
    ensures
        fruitless_walk(changes, visited.push(current)),
        visited.push(current).no_duplicates(),
        changes[visited.push(current)[0] as int].change_id@ == start,
{
    let path = visited.push(current);
    assert forall|j: int| 0 <= j < path.len() - 1 implies successor(
        changes,
        (#[trigger] changes[path[j] as int]).change_id@,
    ) == Some(changes[path[j + 1] as int].change_id@) by {
        assert(path[j] == visited[j]);
        if j + 1 < visited.len() {
            assert(path[j + 1] == visited[j + 1]);
        }
    }
    assert forall|i: int| 0 <= i < path.len() implies #[trigger] path[i] < changes.len() && outcome(
        changes[path[i] as int],
    ) == Some(Closure::Superseded) by {
        if i < visited.len() {
            assert(path[i] == visited[i]);
        }
    }
    assert forall|i: int, j: int|
        0 <= i < path.len() && 0 <= j < path.len() && i != j implies path[i] != path[j] by {
        if i < visited.len() && j < visited.len() {
            assert(visited[i] != visited[j]);
        } else if i < visited.len() {
            assert(visited.contains(visited[i]));
        } else {
            assert(visited.contains(visited[j]));
        }
    }
}

proof fn lemma_circle(changes: Seq<ChangeState>, visited: Seq<usize>, start: Seq<char>, k: int)
    requires
        ledger(changes),
        fruitless_walk(changes, visited),
        0 <= k < visited.len(),
        walk_reaches(changes, visited, start, changes[visited[k] as int].change_id@),
    ensures
        !supersession_integrates(changes, start),
{
    assert forall|n: nat| !integrated_within(changes, start, n) by {
        if integrated_within(changes, start, n) {
            lemma_walk_integrates(changes, visited, k, n);
            lemma_cycle_never_integrates(changes, visited, k, k, (n - k) as nat);
        }
    }
}

proof fn lemma_arrives(
    changes: Seq<ChangeState>,
    visited: Seq<usize>,
    start: Seq<char>,
    here: Seq<char>,
)
    requires
        ledger(changes),
        fruitless_walk(changes, visited),
        walk_reaches(changes, visited, start, here),
        integrated(changes, here),
    ensures
        supersession_integrates(changes, start),
{
    assert(integrated_within(changes, here, 0));
    if visited.len() > 0 {
        let last = visited.len() - 1;
        let prior = visited[last] as int;
        lemma_at(changes, changes[prior].change_id@, prior);
        assert(integrated_within(changes, changes[prior].change_id@, 1));
        lemma_walk_back(changes, visited, last, 1);
    }
}

proof fn lemma_stops_at(
    changes: Seq<ChangeState>,
    visited: Seq<usize>,
    start: Seq<char>,
    here: Seq<char>,
)
    requires
        ledger(changes),
        fruitless_walk(changes, visited),
        walk_reaches(changes, visited, start, here),
        forall|n: nat| !integrated_within(changes, here, n),
    ensures
        !supersession_integrates(changes, start),
{
    assert forall|n: nat| !integrated_within(changes, start, n) by {
        if visited.len() > 0 && integrated_within(changes, start, n) {
            let last = visited.len() - 1;
            lemma_walk_integrates(changes, visited, last, n);
            let prior = visited[last] as int;
            lemma_at(changes, changes[prior].change_id@, prior);
            assert(!integrated(changes, changes[prior].change_id@));
            let left = (n - last) as nat;
            assert(left > 0 && integrated_within(changes, here, (left - 1) as nat));
        }
    }
}

/// What a change waiting for `id` finds there.
pub open spec fn readiness(changes: Seq<ChangeState>, id: Seq<char>) -> Readiness {
    if !known(changes, id) {
        Readiness::Missing
    } else {
        match outcome(changes[at(changes, id)]) {
            None => Readiness::Open,
            Some(Closure::Integrated) => Readiness::Integrated,
            Some(Closure::Superseded) => if supersession_integrates(changes, id) {
                Readiness::SupersededIntegrated
            } else {
                Readiness::Wedged
            },
            Some(Closure::Abandoned) => Readiness::Wedged,
        }
    }
}

/// Whether the prerequisite `id` is met.
pub open spec fn satisfied(changes: Seq<ChangeState>, id: Seq<char>) -> bool {
    let found = readiness(changes, id);
    found == Readiness::Integrated || found == Readiness::SupersededIntegrated
}

/// A prerequisite is met exactly when it was integrated or supersessions lead from it to a
/// change that was.
pub proof fn satisfied_means_integrated(changes: Seq<ChangeState>, id: Seq<char>)
    ensures
        satisfied(changes, id) <==> supersession_integrates(changes, id),
{
    if integrated(changes, id) {
        assert(integrated_within(changes, id, 0));
    } else if supersession_integrates(changes, id) {
        let n = choose|n: nat| integrated_within(changes, id, n);
        assert(successor(changes, id) is Some);
    }
}

/// The name of what a waiting change finds.
pub open spec fn readiness_text(found: Readiness) -> Seq<char> {
    match found {
        Readiness::Missing => "missing"@,
        Readiness::Open => "open"@,
        Readiness::Integrated => "integrated"@,
        Readiness::SupersededIntegrated => "superseded-integrated"@,
        Readiness::Wedged => "wedged"@,
    }
}

/// What to do about a prerequisite that can no longer be met.
pub const WEDGED_DEPENDENCY_RECOVERY: &'static str =
    "prerequisite closed without integration: clear or retarget with arc metadata";

/// One prerequisite of a change and how it stands.
#[derive(Debug)]
pub struct DependencyChangeStatus {
    pub change_id: String,
    pub slug: String,
    pub status: String,
    pub integrated: bool,
    pub recovery: Option<String>,
}

impl DependencyChangeStatus {
    /// What this says of the prerequisite `id`.
    pub open spec fn describes(self, changes: Seq<ChangeState>, id: Seq<char>) -> bool {
        &&& self.change_id@ == id
        &&& self.slug@ == (if known(changes, id) {
            changes[at(changes, id)].slug@
        } else {
            id
        })
        &&& self.status@ == readiness_text(readiness(changes, id))
        &&& self.integrated == satisfied(changes, id)
        &&& opt_view(self.recovery) == (if readiness(changes, id) == Readiness::Wedged {
            Some(WEDGED_DEPENDENCY_RECOVERY@)
        } else {
            None
        })
    }
}

/// How the prerequisites of a change stand.
#[derive(Debug)]
pub struct BlockerStatus {
    pub blocked: bool,
    pub blockers_ready: Vec<DependencyChangeStatus>,
}

/// Whether a change waits for a prerequisite that is not met.
pub open spec fn blocked(changes: Seq<ChangeState>, state: ChangeState) -> bool {
    exists|i: int|
        0 <= i < state.blocked_by@.len() && !satisfied(changes, (#[trigger] state.blocked_by@[i])@)
}

/// How one prerequisite stands.
pub fn dependency_change_status(changes: &Vec<ChangeState>, change_id: &str) -> (r:
    DependencyChangeStatus)
    requires
        ledger(changes@),
    ensures
        r.describes(changes@, change_id@),
{
    let i: usize = match position(changes, change_id) {
        Some(i) => i,
        None => {
            return DependencyChangeStatus {
                change_id: change_id.to_string(),
                slug: change_id.to_string(),
                status: "missing".to_string(),
                integrated: false,
                recovery: None,
            };
        },
    };
    let found = match &changes[i].closure {
        Some(closure) => match closure.outcome {
            Closure::Integrated => Readiness::Integrated,
            Closure::Abandoned => Readiness::Wedged,
            Closure::Superseded => match resolve_supersession(changes, change_id) {
                SupersessionResolution::Integrated => Readiness::SupersededIntegrated,
                SupersessionResolution::Wedged => Readiness::Wedged,
            },
        },
        None => Readiness::Open,
    };
    let status = match found {
        Readiness::Missing => "missing",
        Readiness::Open => "open",
        Readiness::Integrated => "integrated",
        Readiness::SupersededIntegrated => "superseded-integrated",
        Readiness::Wedged => "wedged",
    };
    DependencyChangeStatus {
        change_id: change_id.to_string(),
        slug: changes[i].slug.clone(),
        status: status.to_string(),
        integrated: matches!(found, Readiness::Integrated | Readiness::SupersededIntegrated),
        recovery: if matches!(found, Readiness::Wedged) {
            Some(WEDGED_DEPENDENCY_RECOVERY.to_string())
        } else {
            None
        },
    }
}

/// How the prerequisites of a change stand, in the order it lists them.
pub fn dependency_status(state: &ChangeState, changes: &Vec<ChangeState>) -> (r: BlockerStatus)
    requires
        ledger(changes@),
    ensures
        r.blocked == blocked(changes@, *state),
        r.blockers_ready@.len() == state.blocked_by@.len(),
        forall|i: int|
            0 <= i < state.blocked_by@.len() ==> (#[trigger] r.blockers_ready@[i]).describes(
                changes@,
                state.blocked_by@[i]@,
            ),
{
    let mut blockers_ready: Vec<DependencyChangeStatus> = Vec::new();
    let mut waiting = false;
    for i in 0..state.blocked_by.len()
        invariant
            ledger(changes@),
            blockers_ready@.len() == i,
            forall|k: int|
                0 <= k < i ==> (#[trigger] blockers_ready@[k]).describes(
                    changes@,
                    state.blocked_by@[k]@,
                ),
            waiting <==> exists|k: int|
                0 <= k < i && !satisfied(changes@, (#[trigger] state.blocked_by@[k])@),
    {
        let blocker = dependency_change_status(changes, state.blocked_by[i].as_str());
        assert(blocker.describes(changes@, state.blocked_by@[i as int]@));
        if !blocker.integrated {
            waiting = true;
        }
        blockers_ready.push(blocker);
    }
    BlockerStatus { blocked: waiting, blockers_ready }
}

/// The identities of the changes at some positions.
pub open spec fn ids_at(changes: Seq<ChangeState>, positions: Seq<int>) -> Seq<Seq<char>> {
    Seq::new(positions.len(), |k: int| changes[positions[k]].change_id@)
}

/// Whether the change at a position lists `id` as a prerequisite.
pub open spec fn waits_for(changes: Seq<ChangeState>, id: Seq<char>) -> spec_fn(int) -> bool {
    |i: int| among(changes[i].blocked_by@, id)
}

/// Whether `r` are the changes that wait for one.
pub open spec fn names_waiting(
    change_id: &str,
    changes: &Vec<ChangeState>,
    r: Vec<String>,
) -> bool {
    views(r@) == ids_at(changes@, chosen(changes@.len(), waits_for(changes@, change_id@)))
}

/// The identities of the changes that list `change_id` as a prerequisite, in ledger order.
pub fn changes_blocked_by(change_id: &str, changes: &Vec<ChangeState>) -> (r: Vec<String>)
    ensures
        names_waiting(change_id, changes, r),
{
    let mut out: Vec<String> = Vec::new();
    for i in 0..changes.len()
        invariant
            views(out@) == ids_at(
                changes@,
                chosen(i as nat, waits_for(changes@, change_id@)),
            ),
    {
        let ghost before_out = views(out@);
        let ghost picked = chosen(i as nat, waits_for(changes@, change_id@));
        if contains(&changes[i].blocked_by, change_id) {
            let id = changes[i].change_id.clone();
            out.push(id);
            assert(views(out@) =~= before_out.push(changes@[i as int].change_id@));
            assert(ids_at(changes@, picked.push(i as int)) =~= before_out.push(
                changes@[i as int].change_id@,
            ));
        }
    }
    out
}

/// Whether a claim leaves its change to others: there is none, or it has run out or gone stale.
pub open spec fn claimable(state: ChangeState, timing: ClaimTiming) -> bool {
    state.claim is None || !timing.active || timing.stale
}

/// Whether nothing keeps an executor from taking up a change.
pub open spec fn idle(changes: Seq<ChangeState>, timings: Seq<ClaimTiming>, i: int) -> bool {
    &&& changes[i].closure is None
    &&& changes[i].holds@.len() == 0
    &&& !blocked(changes, changes[i])
    &&& claimable(changes[i], timings[i])
}

fn is_idle(changes: &Vec<ChangeState>, timings: &Vec<ClaimTiming>, i: usize) -> (r: bool)
    requires
        ledger(changes@),
        timings@.len() == changes@.len(),
        i < changes@.len(),
    ensures
        r == idle(changes@, timings@, i as int),
{
    !changes[i].is_closed() && changes[i].holds.len() == 0 && !dependency_status(
        &changes[i],
        changes,
    ).blocked && (changes[i].claim.is_none() || !timings[i].active || timings[i].stale)
}

/// The order in which idle changes are offered: by priority, the highest first, then by when
/// they were opened, the earliest first, then as they stand in the ledger.
pub open spec fn offered_before(changes: Seq<ChangeState>) -> spec_fn(usize, usize) -> bool {
    |a: usize, b: usize|
        {
            let x = changes[a as int];
            let y = changes[b as int];
            ||| x.priority > y.priority
            ||| x.priority == y.priority && before(x.opened_at, y.opened_at)
            ||| x.priority == y.priority && !before(x.opened_at, y.opened_at) && !before(
                y.opened_at,
                x.opened_at,
            ) && a < b
        }
}

pub proof fn lemma_offered_before(changes: Seq<ChangeState>)
    ensures
        strict_order(offered_before(changes)),
{
}

fn comes_before(changes: &Vec<ChangeState>, a: usize, b: usize) -> (r: bool)
    requires
        a < changes@.len(),
        b < changes@.len(),
    ensures
        r == offered_before(changes@)(a, b),
{
    let x = &changes[a];
    let y = &changes[b];
    if x.priority != y.priority {
        x.priority > y.priority
    } else if x.opened_at.is_before(&y.opened_at) {
        true
    } else if y.opened_at.is_before(&x.opened_at) {
        false
    } else {
        a < b
    }
}

/// A change offered in place of one that is blocked.
#[derive(Debug)]
pub struct ArcAlternative {
    pub change_id: String,
    pub slug: String,
    pub status: String,
    pub reason: String,
    pub priority: i32,
}

impl ArcAlternative {
    /// What this says of an offered change.
    pub open spec fn offers(self, state: ChangeState) -> bool {
        &&& self.change_id@ == state.change_id@
        &&& self.slug@ == state.slug@
        &&& self.status@ == "open"@
        &&& self.reason@ == (if state.blocked_by@.len() == 0 {
            "no blockers, independent work"@
        } else {
            "all blockers integrated, ready to work"@
        })
        &&& self.priority == state.priority
    }
}

/// The positions of the idle changes other than `current`, in the order in which they are
/// offered.
pub open spec fn alternatives(
    changes: Seq<ChangeState>,
    timings: Seq<ClaimTiming>,
    current: Seq<char>,
    order: Seq<usize>,
) -> bool {
    &&& in_order(order, offered_before(changes))
    &&& forall|i: usize| #[trigger]
        order.contains(i) <==> i < changes.len() && idle(changes, timings, i as int)
            && changes[i as int].change_id@ != current
}

/// Whether `r` are the idle changes other than the current one, by priority and age.
pub open spec fn offers_others(
    current_change_id: &str,
    changes: &Vec<ChangeState>,
    timings: &Vec<ClaimTiming>,
    r: Vec<ArcAlternative>,
) -> bool {
    exists|order: Seq<usize>|
            {
                &&& #[trigger] alternatives(changes@, timings@, current_change_id@, order)
                &&& order.len() == r@.len()
                &&& forall|k: int|
                    0 <= k < order.len() ==> (#[trigger] r@[k]).offers(changes@[order[k] as int])
            }
}

/// The idle changes other than `current_change_id`, by priority and age. `timings` says of each
/// change where its claim stands now.
pub fn find_unblocked_changes(
    current_change_id: &str,
    changes: &Vec<ChangeState>,
    timings: &Vec<ClaimTiming>,
) -> (r: Vec<ArcAlternative>)
    requires
        ledger(changes@),
        timings@.len() == changes@.len(),
    ensures
        offers_others(current_change_id, changes, timings, r),
{
    let mut found: Vec<usize> = Vec::new();
    for i in 0..changes.len()
        invariant
            ledger(changes@),
            timings@.len() == changes@.len(),
            found@.no_duplicates(),
            forall|k: usize| #[trigger]
                found@.contains(k) <==> k < i && idle(changes@, timings@, k as int)
                    && changes@[k as int].change_id@ != current_change_id@,
    {
        let ghost prior = found@;
        if !same(changes[i].change_id.as_str(), current_change_id) && is_idle(changes, timings, i) {
            found.push(i);
            proof {
                assert(!prior.contains(i));
                assert forall|k: usize| #[trigger] found@.contains(k) <==> prior.contains(k) || k
                    == i by {
                    if prior.contains(k) {
                        let m = choose|m: int| 0 <= m < prior.len() && prior[m] == k;
                        assert(found@[m] == k);
                    }
                    if k == i {
                        assert(found@[prior.len() as int] == k);
                    }
                }
            }
        }
    }
    proof {
        lemma_offered_before(changes@);
    }
    let ahead = |a: usize, b: usize| -> (out: bool)
        requires
            changes@.len() > a,
            changes@.len() > b,
        ensures
            out == offered_before(changes@)(a, b),
        { comes_before(changes, a, b) };
    let order = sort_positions(&found, ahead, Ghost(offered_before(changes@)));
    assert(alternatives(changes@, timings@, current_change_id@, order@));
    let mut out: Vec<ArcAlternative> = Vec::new();
    for k in 0..order.len()
        invariant
            alternatives(changes@, timings@, current_change_id@, order@),
            out@.len() == k,
            forall|j: int|
                0 <= j < k ==> (#[trigger] out@[j]).offers(changes@[order@[j] as int]),
    {
        assert(order@.contains(order@[k as int]));
        let state = &changes[order[k]];
        let reason = if state.blocked_by.len() == 0 {
            "no blockers, independent work"
        } else {
            "all blockers integrated, ready to work"
        };
        out.push(
            ArcAlternative {
                change_id: state.change_id.clone(),
                slug: state.slug.clone(),
                status: "open".to_string(),
                reason: reason.to_string(),
                priority: state.priority,
            },
        );
    }
    out
}

/// Whether a change carries every tag.
pub open spec fn carries(state: ChangeState, tags: Seq<String>) -> bool {
    forall|i: int| 0 <= i < tags.len() ==> among(state.tags@, (#[trigger] tags[i])@)
}

/// Whether a change carries every tag.
pub fn carries_tags(state: &ChangeState, tags: &Vec<String>) -> (r: bool)
    ensures
        r == carries(*state, tags@),
{
    for i in 0..tags.len()
        invariant
            forall|k: int| 0 <= k < i ==> among(state.tags@, (#[trigger] tags@[k])@),
    {
        if !contains(&state.tags, tags[i].as_str()) {
            return false;
        }
    }
    true
}

/// Whether `r` is the idle change that carries every tag and is offered first.
pub open spec fn offers_candidate(
    changes: &Vec<ChangeState>,
    tags: &Vec<String>,
    timings: &Vec<ClaimTiming>,
    r: Option<usize>,
) -> bool {
    match r {
            Some(best) => {
                &&& best < changes@.len()
                &&& idle(changes@, timings@, best as int)
                &&& carries(changes@[best as int], tags@)
                &&& forall|i: usize|
                    i < changes@.len() && idle(changes@, timings@, i as int) && carries(
                        changes@[i as int],
                        tags@,
                    ) && i != best ==> #[trigger] offered_before(changes@)(best, i)
            },
            None => forall|i: int|
                0 <= i < changes@.len() ==> !(#[trigger] idle(changes@, timings@, i) && carries(
                    changes@[i],
                    tags@,
                )),
        }
}

/// The idle change that carries every tag and is offered first.
pub fn ready_candidate(
    changes: &Vec<ChangeState>,
    tags: &Vec<String>,
    timings: &Vec<ClaimTiming>,
) -> (r: Option<usize>)
    requires
        ledger(changes@),
        timings@.len() == changes@.len(),
    ensures
        offers_candidate(changes, tags, timings, r),
{
    let mut best: Option<usize> = None;
    proof {
        lemma_offered_before(changes@);
    }
    for i in 0..changes.len()
        invariant
            ledger(changes@),
            timings@.len() == changes@.len(),
            strict_order(offered_before(changes@)),
            match best {
                Some(best) => {
                    &&& best < i
                    &&& idle(changes@, timings@, best as int)
                    &&& carries(changes@[best as int], tags@)
                    &&& forall|k: usize|
                        k < i && idle(changes@, timings@, k as int) && carries(
                            changes@[k as int],
                            tags@,
                        ) && k != best ==> #[trigger] offered_before(changes@)(best, k)
                },
                None => forall|k: int|
                    0 <= k < i ==> !(#[trigger] idle(changes@, timings@, k) && carries(
                        changes@[k],
                        tags@,
                    )),
            },
    {
        if carries_tags(&changes[i], tags) && is_idle(changes, timings, i) {
            best = match best {
                Some(held) => {
                    let ghost ahead = offered_before(changes@);
                    if comes_before(changes, i, held) {
                        assert forall|k: usize|
                            k < i && idle(changes@, timings@, k as int) && carries(
                                changes@[k as int],
                                tags@,
                            ) implies #[trigger] ahead(i, k) by {
                            if k != held {
                                assert(ahead(held, k));
                            }
                        }
                        Some(i)
                    } else {
                        assert(ahead(held, i));
                        Some(held)
                    }
                },
                None => Some(i),
            };
        }
    }
    best
}

/// A change is free to be taken up exactly where it is open and not held, everything that it waits
/// for is met, and nobody holds a live claim on it that is not stale.
pub proof fn idle_changes_are_free(changes: Seq<ChangeState>, timings: Seq<ClaimTiming>, i: int)
    ensures
        idle(changes, timings, i) <==> {
            &&& changes[i].closure is None
            &&& changes[i].holds@.len() == 0
            &&& forall|k: int|
                0 <= k < changes[i].blocked_by@.len() ==> satisfied(
                    changes,
                    (#[trigger] changes[i].blocked_by@[k])@,
                )
            &&& changes[i].claim is None || !timings[i].active || timings[i].stale
        },
{
}

/// What waits for an open change or for an abandoned one is not met, what waits for an integrated
/// one is; and a superseded change is as good as the one that took its place.
pub proof fn prerequisites_are_met_by_integration(changes: Seq<ChangeState>, i: int)
    requires
        ledger(changes),
        0 <= i < changes.len(),
    ensures
        ({
            let id = changes[i].change_id@;
            match changes[i].closure {
                None => readiness(changes, id) == Readiness::Open && !satisfied(changes, id),
                Some(closure) => match closure.outcome {
                    Closure::Integrated => satisfied(changes, id) && readiness(changes, id)
                        == Readiness::Integrated,
                    Closure::Abandoned => !satisfied(changes, id) && readiness(changes, id)
                        == Readiness::Wedged,
                    Closure::Superseded => match closure.superseded_by {
                        Some(next) => satisfied(changes, id) <==> satisfied(changes, next@),
                        None => !satisfied(changes, id) && readiness(changes, id)
                            == Readiness::Wedged,
                    },
                },
            }
        }),
{
    let id = changes[i].change_id@;
    lemma_at(changes, id, i);
    satisfied_means_integrated(changes, id);
    if let Some(closure) = changes[i].closure {
        if closure.outcome == Closure::Superseded {
            if let Some(next) = closure.superseded_by {
                satisfied_means_integrated(changes, next@);
                if supersession_integrates(changes, next@) {
                    let n = choose|n: nat| integrated_within(changes, next@, n);
                    assert(integrated_within(changes, id, n + 1));
                }
                if supersession_integrates(changes, id) {
                    let n = choose|n: nat| integrated_within(changes, id, n);
                    assert(integrated_within(changes, next@, (n - 1) as nat));
                }
            } else {
                if supersession_integrates(changes, id) {
                    let n = choose|n: nat| integrated_within(changes, id, n);
                    assert(integrated_within(changes, id, n));
                }
            }
        }
    }
}

/// What waits for a change that the ledger does not have is not met.
pub proof fn missing_prerequisites_are_not_met(changes: Seq<ChangeState>, id: Seq<char>)
    requires
        forall|i: int| 0 <= i < changes.len() ==> (#[trigger] changes[i]).change_id@ != id,
    ensures
        readiness(changes, id) == Readiness::Missing,
        !satisfied(changes, id),
{
}

/// In place of a blocked change every other one that is free is offered, and nothing else: each
/// under its identity, and one of a higher priority before one of a lower.
pub proof fn every_free_change_is_offered(
    current_change_id: &str,
    changes: &Vec<ChangeState>,
    timings: &Vec<ClaimTiming>,
    i: usize,
    r: Vec<ArcAlternative>,
)
    requires
        offers_others(current_change_id, changes, timings, r),
        i < changes@.len(),
    ensures
        changes@[i as int].change_id@ != current_change_id@ && idle(changes@, timings@, i as int)
            ==> exists|k: int|
            0 <= k < r@.len() && (#[trigger] r@[k]).change_id@ == changes@[i as int].change_id@,
        forall|k: int|
            0 <= k < r@.len() ==> (#[trigger] r@[k]).change_id@ != current_change_id@,
        forall|k: int, m: int|
            0 <= k < m < r@.len() ==> (#[trigger] r@[k]).priority >= (#[trigger] r@[m]).priority,
{
    let order = choose|order: Seq<usize>|
        {
            &&& #[trigger] alternatives(changes@, timings@, current_change_id@, order)
            &&& order.len() == r@.len()
            &&& forall|k: int|
                0 <= k < order.len() ==> (#[trigger] r@[k]).offers(changes@[order[k] as int])
        };
    assert forall|k: int| 0 <= k < r@.len() implies (#[trigger] r@[k]).change_id@
        != current_change_id@ by {
        assert(order.contains(order[k]));
    }
    assert forall|k: int, m: int| 0 <= k < m < r@.len() implies (#[trigger] r@[k]).priority >= (
    #[trigger] r@[m]).priority by {
        assert(offered_before(changes@)(order[k], order[m]));
    }
    if changes@[i as int].change_id@ != current_change_id@ && idle(changes@, timings@, i as int) {
        assert(order.contains(i));
        let k = choose|k: int| 0 <= k < order.len() && order[k] == i;
        assert(r@[k].offers(changes@[i as int]));
    }
}

/// The change that is offered is free and carries every tag, and none that does comes before it: by
/// its priority, and of those of one priority by its age. Nothing is offered only where nothing is
/// free.
pub proof fn the_best_free_change_is_offered(
    changes: &Vec<ChangeState>,
    tags: &Vec<String>,
    timings: &Vec<ClaimTiming>,
    i: usize,
    r: Option<usize>,
)
    requires
        offers_candidate(changes, tags, timings, r),
        i < changes@.len(),
        idle(changes@, timings@, i as int),
        carries(changes@[i as int], tags@),
    ensures
        r is Some,
        r->0 < changes@.len(),
        idle(changes@, timings@, r->0 as int),
        carries(changes@[r->0 as int], tags@),
        changes@[r->0 as int].priority >= changes@[i as int].priority,
        changes@[r->0 as int].priority == changes@[i as int].priority ==> !before(
            changes@[i as int].opened_at,
            changes@[r->0 as int].opened_at,
        ),
{
    let best = r->0;
    if best != i {
        assert(offered_before(changes@)(best, i));
    }
}

/// Every change that lists another as a prerequisite is named by it, and no other is.
pub proof fn waiting_changes_are_named(
    change_id: &str,
    changes: &Vec<ChangeState>,
    r: Vec<String>,
    i: int,
)
    requires
        names_waiting(change_id, changes, r),
        ledger(changes@),
        0 <= i < changes@.len(),
    ensures
        among(r@, changes@[i].change_id@) <==> exists|k: int|
            0 <= k < changes@[i].blocked_by@.len() && (#[trigger] changes@[i].blocked_by@[k])@
                == change_id@,
{
    let wanted = waits_for(changes@, change_id@);
    let id = changes@[i].change_id@;
    let order = chosen(changes@.len(), wanted);
    lemma_chosen(changes@.len(), wanted);
    lemma_views_contain(r@, id);
    let named = ids_at(changes@, order);
    if wanted(i) {
        assert(order.contains(i));
        let k = choose|k: int| 0 <= k < order.len() && order[k] == i;
        assert(named[k] == id);
    }
    if named.contains(id) {
        let k = choose|k: int| 0 <= k < named.len() && named[k] == id;
        assert(order.contains(order[k]));
        lemma_at(changes@, id, order[k]);
        lemma_at(changes@, id, i);
        assert(wanted(i));
    }
}

} // verus!
