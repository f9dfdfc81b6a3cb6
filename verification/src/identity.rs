//! What a fork is and where its checkout lives. There is one answer for a repository, and this is
//! the only place that gives it: an identity is read, never put together by a caller.
use crate::order::{in_order, sort_positions, strict_order};
use crate::text::{
    begins, lemma_precedes_irreflexive, lemma_precedes_total, lemma_precedes_transitive, less,
    lines, lines_of, opt_view, precedes, same, starts_with, strip_prefix, views,
};
use vstd::prelude::*;

verus! {

/// Whether a branch is that of a fork: it stands under `fork/`, with a name of its own.
pub open spec fn fork_named(branch: Seq<char>) -> bool {
    begins(branch, "fork/"@) && branch.len() > "fork/"@.len()
}

/// Whether a branch is that of a fork.
pub fn is_fork_branch(branch: &str) -> (r: bool)
    ensures
        r == fork_named(branch@),
{
    match strip_prefix(branch, "fork/") {
        Some(slug) => {
            assert(slug@.len() == branch@.len() - "fork/"@.len());
            !slug.as_str().is_empty()
        },
        None => false,
    }
}

/// The name of a fork, from its branch.
pub open spec fn slug_in(branch: Seq<char>) -> Seq<char> {
    branch.skip("fork/"@.len() as int)
}

/// The branch of a fork.
pub fn fork_branch(slug: &str) -> (r: String)
    ensures
        r@ == "fork/"@ + slug@,
{
    let mut out = "fork/".to_string();
    out.append(slug);
    out
}

/// The topic under which the marker of a fork is filed.
pub fn fork_topic(slug: &str) -> (r: String)
    ensures
        r@ == "fork-"@ + slug@,
{
    let mut out = "fork-".to_string();
    out.append(slug);
    out
}

/// The branch of a named fork is the branch of a fork, under that name.
pub proof fn fork_branches_name_their_fork(slug: Seq<char>)
    requires
        slug.len() > 0,
    ensures
        fork_named("fork/"@ + slug),
        slug_in("fork/"@ + slug) == slug,
{
    assert(("fork/"@ + slug).take("fork/"@.len() as int) =~= "fork/"@);
    assert(("fork/"@ + slug).skip("fork/"@.len() as int) =~= slug);
}

/// The first line from the one at `k` on that says something under a key, without the key.
pub open spec fn field_from(all: Seq<Seq<char>>, key: Seq<char>, k: int) -> Option<Seq<char>>
    decreases all.len() - k,
{
    if k >= all.len() {
        None
    } else if begins(all[k], key + ": "@) {
        Some(all[k].skip((key + ": "@).len() as int))
    } else {
        field_from(all, key, k + 1)
    }
}

/// What a marker says under a key.
pub open spec fn field_of(body: Seq<char>, key: Seq<char>) -> Option<Seq<char>> {
    field_from(lines_of(body), key, 0)
}

/// What a marker says under a key.
pub fn marker_field(body: &str, key: &str) -> (r: Option<String>)
    ensures
        opt_view(r) == field_of(body@, key@),
{
    let all = lines(body);
    let mut prefix = key.to_string();
    prefix.append(": ");
    for k in 0..all.len()
        invariant
            views(all@) == lines_of(body@),
            prefix@ == key@ + ": "@,
            field_of(body@, key@) == field_from(lines_of(body@), key@, k as int),
    {
        assert(views(all@)[k as int] == all@[k as int]@);
        if let Some(rest) = strip_prefix(all[k].as_str(), prefix.as_str()) {
            return Some(rest);
        }
    }
    None
}

/// A marker of a fork in the journal.
pub struct ForkMarker {
    pub filename: String,
    pub body: String,
}

impl ForkMarker {
    pub fn field(&self, key: &str) -> (r: Option<String>)
        ensures
            opt_view(r) == field_of(self.body@, key@),
    {
        marker_field(self.body.as_str(), key)
    }

    fn copy(&self) -> (r: ForkMarker)
        ensures
            same_marker(r, *self),
    {
        ForkMarker { filename: self.filename.clone(), body: self.body.clone() }
    }
}

/// Whether two markers are the same text under the same name.
pub open spec fn same_marker(a: ForkMarker, b: ForkMarker) -> bool {
    a.filename@ == b.filename@ && a.body@ == b.body@
}

/// The fork branch that a marker claims, where it claims one.
pub open spec fn claimed_branch(marker: ForkMarker) -> Option<Seq<char>> {
    match field_of(marker.body@, "branch"@) {
        Some(branch) => if fork_named(branch) {
            Some(branch)
        } else {
            None
        },
        None => None,
    }
}

fn marker_branch(marker: &ForkMarker) -> (r: Option<String>)
    ensures
        opt_view(r) == claimed_branch(*marker),
{
    match marker.field("branch") {
        Some(branch) => if is_fork_branch(branch.as_str()) {
            Some(branch)
        } else {
            None
        },
        None => None,
    }
}

/// The place that a marker records for the checkout: only a path from the root names one, since
/// any other depends on where the question is asked.
pub open spec fn recorded_place(marker: ForkMarker) -> Option<Seq<char>> {
    match field_of(marker.body@, "worktree"@) {
        Some(path) => if begins(path, "/"@) {
            Some(path)
        } else {
            None
        },
        None => None,
    }
}

/// The place that a marker records for the checkout.
pub fn marker_worktree_path(marker: &ForkMarker) -> (r: Option<String>)
    ensures
        opt_view(r) == recorded_place(*marker),
{
    match marker.field("worktree") {
        Some(path) => if starts_with(path.as_str(), "/") {
            Some(path)
        } else {
            None
        },
        None => None,
    }
}

/// A file of the journal.
pub struct Artifact {
    pub filename: String,
    pub topic: String,
    pub kind: String,
    pub body: String,
}

/// Whether a file of the journal marks a fork.
pub open spec fn marks_fork(artifact: Artifact) -> bool {
    artifact.kind@ == "plan"@ && begins(artifact.topic@, "fork-"@)
}

/// The later name first; those of one name stay in their order.
pub open spec fn filed_later(artifacts: Seq<Artifact>) -> spec_fn(usize, usize) -> bool {
    |a: usize, b: usize|
        precedes(artifacts[b as int].filename@, artifacts[a as int].filename@) || (
        artifacts[a as int].filename@ == artifacts[b as int].filename@ && a < b)
}

proof fn lemma_filed_later(artifacts: Seq<Artifact>)
    ensures
        strict_order(filed_later(artifacts)),
{
    let order = filed_later(artifacts);
    assert forall|a: usize| !#[trigger] order(a, a) by {
        lemma_precedes_irreflexive(artifacts[a as int].filename@);
    }
    assert forall|a: usize, b: usize, c: usize| #[trigger] order(a, b) && #[trigger] order(
        b,
        c,
    ) implies order(a, c) by {
        let x = artifacts[a as int].filename@;
        let y = artifacts[b as int].filename@;
        let z = artifacts[c as int].filename@;
        if precedes(z, y) && precedes(y, x) {
            lemma_precedes_transitive(z, y, x);
        }
    }
    assert forall|a: usize, b: usize| a != b implies #[trigger] order(a, b) || order(b, a) by {
        lemma_precedes_total(
            artifacts[a as int].filename@,
            artifacts[b as int].filename@,
        );
    }
}

/// Whether the markers are the files that mark a fork, the newest first.
pub open spec fn are_markers(markers: Seq<ForkMarker>, artifacts: Seq<Artifact>) -> bool {
    exists|order: Seq<usize>| #[trigger]
        in_order(order, filed_later(artifacts)) && (forall|a: usize| #[trigger]
            order.contains(a) <==> a < artifacts.len() && marks_fork(artifacts[a as int]))
            && markers.len() == order.len() && forall|k: int|
            0 <= k < order.len() ==> (#[trigger] markers[k]).filename@
                == artifacts[order[k] as int].filename@ && markers[k].body@
                == artifacts[order[k] as int].body@
}

/// The markers of forks in the journal, the newest first.
pub fn fork_markers(artifacts: &Vec<Artifact>) -> (r: Vec<ForkMarker>)
    ensures
        are_markers(r@, artifacts@),
{
    let mut found: Vec<usize> = Vec::new();
    for i in 0..artifacts.len()
        invariant
            found@.no_duplicates(),
            forall|a: usize| #[trigger]
                found@.contains(a) <==> a < i && marks_fork(artifacts@[a as int]),
    {
        let ghost before = found@;
        if same(artifacts[i].kind.as_str(), "plan") && starts_with(
            artifacts[i].topic.as_str(),
            "fork-",
        ) {
            found.push(i);
            proof {
                assert(!before.contains(i));
                assert forall|a: usize| #[trigger] found@.contains(a) <==> a < i + 1 && marks_fork(
                    artifacts@[a as int],
                ) by {
                    if a == i {
                        assert(found@[before.len() as int] == a);
                    }
                    if before.contains(a) {
                        let k = choose|k: int| 0 <= k < before.len() && before[k] == a;
                        assert(found@[k] == a);
                    }
                    if found@.contains(a) && a != i {
                        let k = choose|k: int| 0 <= k < found@.len() && found@[k] == a;
                        assert(before[k] == a);
                    }
                }
            }
        }
    }
    proof {
        lemma_filed_later(artifacts@);
    }
    let ahead = |a: usize, b: usize| -> (out: bool)
        requires
            artifacts@.len() > a,
            artifacts@.len() > b,
        ensures
            out == filed_later(artifacts@)(a, b),
        {
            less(artifacts[b].filename.as_str(), artifacts[a].filename.as_str()) || (same(
                artifacts[a].filename.as_str(),
                artifacts[b].filename.as_str(),
            ) && a < b)
        };
    let order = sort_positions(&found, ahead, Ghost(filed_later(artifacts@)));
    let mut out: Vec<ForkMarker> = Vec::new();
    for k in 0..order.len()
        invariant
            forall|a: usize| #[trigger]
                order@.contains(a) <==> a < artifacts@.len() && marks_fork(artifacts@[a as int]),
            out@.len() == k,
            forall|m: int|
                0 <= m < k ==> (#[trigger] out@[m]).filename@
                    == artifacts@[order@[m] as int].filename@ && out@[m].body@
                    == artifacts@[order@[m] as int].body@,
    {
        assert(order@.contains(order@[k as int]));
        let from = &artifacts[order[k]];
        out.push(ForkMarker { filename: from.filename.clone(), body: from.body.clone() });
    }
    out
}

/// A worktree that is on disk and that the repository does not count as gone.
pub struct LiveWorktree {
    pub path: String,
    /// The path with every link followed.
    pub canonical: String,
    /// The branch that is checked out in it, unless it is detached.
    pub branch: Option<String>,
}

/// One fork, as the repository reports it.
pub struct ForkIdentity {
    slug: String,
    branch: String,
    worktree: Option<String>,
    canonical: Option<String>,
    marker: Option<ForkMarker>,
}

impl ForkIdentity {
    #[verifier::type_invariant]
    spec fn well_formed(self) -> bool {
        self.worktree is Some <==> self.canonical is Some
    }

    pub closed spec fn slug_view(self) -> Seq<char> {
        self.slug@
    }

    pub closed spec fn branch_view(self) -> Seq<char> {
        self.branch@
    }

    /// Where the checkout is, where there is one.
    pub closed spec fn worktree_view(self) -> Option<Seq<char>> {
        opt_view(self.worktree)
    }

    /// Where the checkout is, with every link followed.
    pub closed spec fn canonical_view(self) -> Option<Seq<char>> {
        opt_view(self.canonical)
    }

    pub closed spec fn marked(self) -> Option<ForkMarker> {
        self.marker
    }

    pub fn slug(&self) -> (r: &str)
        ensures
            r@ == self.slug_view(),
    {
        self.slug.as_str()
    }

    pub fn branch(&self) -> (r: &str)
        ensures
            r@ == self.branch_view(),
    {
        self.branch.as_str()
    }

    pub fn worktree(&self) -> (r: &Option<String>)
        ensures
            opt_view(*r) == self.worktree_view(),
    {
        &self.worktree
    }

    pub fn marker(&self) -> (r: &Option<ForkMarker>)
        ensures
            *r == self.marked(),
    {
        &self.marker
    }

    fn stands_at(&self, root: &str) -> (r: bool)
        ensures
            r == (self.canonical_view() == Some(root@)),
            r ==> self.worktree_view() is Some,
    {
        proof {
            use_type_invariant(&*self);
        }
        match &self.canonical {
            Some(path) => same(path.as_str(), root),
            None => false,
        }
    }
}

/// Whether the marker at `k` is the first that claims a branch.
pub open spec fn first_claim(markers: Seq<ForkMarker>, branch: Seq<char>, k: int) -> bool {
    &&& 0 <= k < markers.len()
    &&& claimed_branch(markers[k]) == Some(branch)
    &&& forall|j: int| 0 <= j < k ==> claimed_branch(#[trigger] markers[j]) != Some(branch)
}

/// Whether no marker claims a branch.
pub open spec fn unclaimed(markers: Seq<ForkMarker>, branch: Seq<char>) -> bool {
    forall|j: int| 0 <= j < markers.len() ==> claimed_branch(#[trigger] markers[j]) != Some(branch)
}

/// Whether a worktree has a branch checked out.
pub open spec fn attached(worktree: LiveWorktree, branch: Seq<char>) -> bool {
    opt_view(worktree.branch) == Some(branch)
}

/// Whether a worktree is detached and lies at a place.
pub open spec fn detached_at(worktree: LiveWorktree, place: Seq<char>) -> bool {
    worktree.branch is None && worktree.canonical@ == place
}

/// Whether the worktree at `k` is the first that has a branch checked out.
pub open spec fn first_attached(live: Seq<LiveWorktree>, branch: Seq<char>, k: int) -> bool {
    &&& 0 <= k < live.len()
    &&& attached(live[k], branch)
    &&& forall|j: int| 0 <= j < k ==> !attached(#[trigger] live[j], branch)
}

/// Whether the worktree at `k` is the first that is detached at a place.
pub open spec fn first_detached(live: Seq<LiveWorktree>, place: Seq<char>, k: int) -> bool {
    &&& 0 <= k < live.len()
    &&& detached_at(live[k], place)
    &&& forall|j: int| 0 <= j < k ==> !detached_at(#[trigger] live[j], place)
}

/// Whether a branch is checked out nowhere.
pub open spec fn nowhere_attached(live: Seq<LiveWorktree>, branch: Seq<char>) -> bool {
    forall|j: int| 0 <= j < live.len() ==> !attached(#[trigger] live[j], branch)
}

/// Whether no worktree is detached at a place.
pub open spec fn nowhere_detached(live: Seq<LiveWorktree>, place: Seq<char>) -> bool {
    forall|j: int| 0 <= j < live.len() ==> !detached_at(#[trigger] live[j], place)
}

/// Whether a fork has its checkout in a worktree.
pub open spec fn lives_in(fork: ForkIdentity, worktree: LiveWorktree) -> bool {
    fork.worktree_view() == Some(worktree.path@) && fork.canonical_view() == Some(
        worktree.canonical@,
    )
}

/// Whether a fork has no checkout.
pub open spec fn homeless(fork: ForkIdentity) -> bool {
    fork.worktree_view() is None && fork.canonical_view() is None
}

/// Whether a marker is the first that claims a branch.
pub open spec fn claims_first(
    marker: ForkMarker,
    markers: Seq<ForkMarker>,
    branch: Seq<char>,
) -> bool {
    exists|k: int| #[trigger] first_claim(markers, branch, k) && same_marker(marker, markers[k])
}

/// Whether a fork has the marker that claims its branch, the newest where several do.
pub open spec fn marked_from(fork: ForkIdentity, markers: Seq<ForkMarker>) -> bool {
    match fork.marked() {
        Some(marker) => claims_first(marker, markers, fork.branch_view()),
        None => unclaimed(markers, fork.branch_view()),
    }
}

/// The place that binds a checkout to a marker: where the path that the marker records was found on
/// disk, and none where it records no path from the root.
pub open spec fn bound_place(marker: ForkMarker, found: Option<Seq<char>>) -> Option<Seq<char>> {
    match recorded_place(marker) {
        Some(_) => found,
        None => None,
    }
}

/// The place of the marker that claims a branch, as it was found on disk.
pub open spec fn claimed_place(
    markers: Seq<ForkMarker>,
    places: Seq<Option<String>>,
    branch: Seq<char>,
    place: Option<Seq<char>>,
) -> bool {
    if unclaimed(markers, branch) {
        place is None
    } else {
        exists|k: int| #[trigger]
            first_claim(markers, branch, k) && place == bound_place(
            markers[k],
            opt_view(places[k]),
        )
    }
}

/// Whether a fork has its checkout where the repository says: in the worktree that has its branch
/// checked out, or else in a detached one at the place that its marker records.
pub open spec fn housed(
    fork: ForkIdentity,
    markers: Seq<ForkMarker>,
    places: Seq<Option<String>>,
    live: Seq<LiveWorktree>,
) -> bool {
    let branch = fork.branch_view();
    if !nowhere_attached(live, branch) {
        exists|k: int| #[trigger] first_attached(live, branch, k) && lives_in(fork, live[k])
    } else {
        exists|place: Option<Seq<char>>| #[trigger]
            claimed_place(markers, places, branch, place) && housed_by_place(fork, live, place)
    }
}

/// Whether a fork has its checkout in a detached worktree at a place, where there is one.
pub open spec fn housed_by_place(
    fork: ForkIdentity,
    live: Seq<LiveWorktree>,
    place: Option<Seq<char>>,
) -> bool {
    match place {
        Some(path) => if nowhere_detached(live, path) {
            homeless(fork)
        } else {
            exists|k: int| #[trigger] first_detached(live, path, k) && lives_in(fork, live[k])
        },
        None => homeless(fork),
    }
}

/// Whether a fork is the one that the repository reports for a branch.
pub open spec fn is_identity(
    fork: ForkIdentity,
    branch: Seq<char>,
    markers: Seq<ForkMarker>,
    places: Seq<Option<String>>,
    live: Seq<LiveWorktree>,
) -> bool {
    &&& fork.branch_view() == branch
    &&& fork.slug_view() == slug_in(branch)
    &&& marked_from(fork, markers)
    &&& housed(fork, markers, places, live)
}

fn find_claim(markers: &Vec<ForkMarker>, branch: &str) -> (r: Option<usize>)
    ensures
        match r {
            Some(k) => first_claim(markers@, branch@, k as int) && !unclaimed(markers@, branch@),
            None => unclaimed(markers@, branch@),
        },
{
    for k in 0..markers.len()
        invariant
            forall|j: int|
                0 <= j < k ==> claimed_branch(#[trigger] markers@[j]) != Some(branch@),
    {
        if let Some(claimed) = marker_branch(&markers[k]) {
            if same(claimed.as_str(), branch) {
                assert(claimed_branch(markers@[k as int]) == Some(branch@));
                return Some(k);
            }
        }
    }
    None
}

fn find_attached(live: &Vec<LiveWorktree>, branch: &str) -> (r: Option<usize>)
    ensures
        match r {
            Some(k) => first_attached(live@, branch@, k as int) && !nowhere_attached(
                live@,
                branch@,
            ),
            None => nowhere_attached(live@, branch@),
        },
{
    for k in 0..live.len()
        invariant
            forall|j: int| 0 <= j < k ==> !attached(#[trigger] live@[j], branch@),
    {
        if let Some(found) = &live[k].branch {
            if same(found.as_str(), branch) {
                assert(attached(live@[k as int], branch@));
                return Some(k);
            }
        }
    }
    None
}

fn find_detached(live: &Vec<LiveWorktree>, place: &str) -> (r: Option<usize>)
    ensures
        match r {
            Some(k) => first_detached(live@, place@, k as int) && !nowhere_detached(live@, place@),
            None => nowhere_detached(live@, place@),
        },
{
    for k in 0..live.len()
        invariant
            forall|j: int| 0 <= j < k ==> !detached_at(#[trigger] live@[j], place@),
    {
        if live[k].branch.is_none() && same(live[k].canonical.as_str(), place) {
            assert(detached_at(live@[k as int], place@));
            return Some(k);
        }
    }
    None
}

fn resolve(
    branch: &str,
    markers: &Vec<ForkMarker>,
    places: &Vec<Option<String>>,
    live: &Vec<LiveWorktree>,
) -> (r: ForkIdentity)
    requires
        fork_named(branch@),
        places@.len() == markers@.len(),
    ensures
        is_identity(r, branch@, markers@, places@, live@),
{
    let slug = match strip_prefix(branch, "fork/") {
        Some(slug) => slug,
        None => branch.to_string(),
    };
    let claim = find_claim(markers, branch);
    let mut worktree: Option<usize> = find_attached(live, branch);
    let ghost at = worktree;
    if worktree.is_none() {
        if let Some(k) = claim {
            if marker_worktree_path(&markers[k]).is_some() {
                if let Some(place) = &places[k] {
                    worktree = find_detached(live, place.as_str());
                }
            }
        }
    }
    let marker = match claim {
        Some(k) => Some(markers[k].copy()),
        None => None,
    };
    let fork = match worktree {
        Some(k) => ForkIdentity {
            slug,
            branch: branch.to_string(),
            worktree: Some(live[k].path.clone()),
            canonical: Some(live[k].canonical.clone()),
            marker,
        },
        None => ForkIdentity {
            slug,
            branch: branch.to_string(),
            worktree: None,
            canonical: None,
            marker,
        },
    };
    proof {
        assert(marked_from(fork, markers@)) by {
            if let Some(k) = claim {
                assert(first_claim(markers@, branch@, k as int));
                assert(claims_first(fork.marked()->0, markers@, branch@));
            }
        }
        if let Some(k) = at {
            assert(first_attached(live@, branch@, k as int) && lives_in(fork, live@[k as int]));
        } else {
            let place: Option<Seq<char>> = match claim {
                Some(k) => bound_place(markers@[k as int], opt_view(places@[k as int])),
                None => None,
            };
            assert(claimed_place(markers@, places@, branch@, place)) by {
                if let Some(k) = claim {
                    assert(first_claim(markers@, branch@, k as int));
                }
            }
            if let Some(k) = worktree {
                assert(first_detached(live@, place->0, k as int) && lives_in(
                    fork,
                    live@[k as int],
                ));
            }
            assert(housed_by_place(fork, live@, place));
        }
    }
    fork
}

/// The branches among some that are those of forks.
pub open spec fn fork_branches(branches: Seq<String>, n: int) -> Seq<Seq<char>>
    decreases n,
{
    if n <= 0 {
        Seq::empty()
    } else if fork_named(branches[n - 1]@) {
        fork_branches(branches, n - 1).push(branches[n - 1]@)
    } else {
        fork_branches(branches, n - 1)
    }
}

/// Whether the forks are, one for one, those that the repository reports for some branches.
pub open spec fn are_identities(
    forks: Seq<ForkIdentity>,
    branches: Seq<Seq<char>>,
    markers: Seq<ForkMarker>,
    places: Seq<Option<String>>,
    live: Seq<LiveWorktree>,
) -> bool {
    forks.len() == branches.len() && forall|k: int|
        0 <= k < forks.len() ==> is_identity(
            #[trigger] forks[k],
            branches[k],
            markers,
            places,
            live,
        )
}

/// Every fork of a repository, from its branches, the markers in the journal and the worktrees.
/// `places` are the places that the markers record, with every link followed; one whose marker
/// records no path from the root counts for nothing.
pub fn resolve_all(
    branches: &Vec<String>,
    markers: &Vec<ForkMarker>,
    places: &Vec<Option<String>>,
    live: &Vec<LiveWorktree>,
) -> (r: Vec<ForkIdentity>)
    requires
        places@.len() == markers@.len(),
    ensures
        are_identities(
            r@,
            fork_branches(branches@, branches@.len() as int),
            markers@,
            places@,
            live@,
        ),
{
    let mut forks: Vec<ForkIdentity> = Vec::new();
    for i in 0..branches.len()
        invariant
            places@.len() == markers@.len(),
            are_identities(
                forks@,
                fork_branches(branches@, i as int),
                markers@,
                places@,
                live@,
            ),
    {
        if is_fork_branch(branches[i].as_str()) {
            let fork = resolve(branches[i].as_str(), markers, places, live);
            forks.push(fork);
        }
    }
    forks
}

/// The checkout of a branch that is checked out is where the repository has it: no marker moves
/// it.
pub proof fn markers_move_no_checkout(
    fork: ForkIdentity,
    branch: Seq<char>,
    markers: Seq<ForkMarker>,
    places: Seq<Option<String>>,
    live: Seq<LiveWorktree>,
)
    requires
        is_identity(fork, branch, markers, places, live),
        !nowhere_attached(live, branch),
    ensures
        exists|k: int| #[trigger] first_attached(live, branch, k) && lives_in(fork, live[k]),
{
}

/// A marker that records no path from the root binds no worktree: a fork whose branch is checked
/// out nowhere has no checkout by it, whatever was found on disk.
pub proof fn relative_places_bind_nothing(
    fork: ForkIdentity,
    branch: Seq<char>,
    markers: Seq<ForkMarker>,
    places: Seq<Option<String>>,
    live: Seq<LiveWorktree>,
    claim: int,
)
    requires
        is_identity(fork, branch, markers, places, live),
        nowhere_attached(live, branch),
        first_claim(markers, branch, claim),
        recorded_place(markers[claim]) is None,
    ensures
        homeless(fork),
{
    let place = choose|place: Option<Seq<char>>| #[trigger]
        claimed_place(markers, places, branch, place) && housed_by_place(fork, live, place);
    assert(!unclaimed(markers, branch));
    let k = choose|k: int| #[trigger]
        first_claim(markers, branch, k) && place == bound_place(markers[k], opt_view(places[k]));
    assert(k == claim);
}

/// The first fork whose checkout is at a root.
pub fn by_current_path(forks: &Vec<ForkIdentity>, root: &str) -> (r: Option<usize>)
    ensures
        match r {
            Some(k) => k < forks@.len() && forks@[k as int].canonical_view() == Some(root@)
                && forks@[k as int].worktree_view() is Some && forall|j: int|
                0 <= j < k ==> (#[trigger] forks@[j]).canonical_view() != Some(root@),
            None => forall|j: int|
                0 <= j < forks@.len() ==> (#[trigger] forks@[j]).canonical_view() != Some(root@),
        },
{
    for k in 0..forks.len()
        invariant
            forall|j: int| 0 <= j < k ==> (#[trigger] forks@[j]).canonical_view() != Some(root@),
    {
        if forks[k].stands_at(root) {
            return Some(k);
        }
    }
    None
}

/// The first fork of a name.
pub fn by_branch(forks: &Vec<ForkIdentity>, slug: &str) -> (r: Option<usize>)
    ensures
        match r {
            Some(k) => k < forks@.len() && forks@[k as int].branch_view() == "fork/"@ + slug@
                && forall|j: int|
                0 <= j < k ==> (#[trigger] forks@[j]).branch_view() != "fork/"@ + slug@,
            None => forall|j: int|
                0 <= j < forks@.len() ==> (#[trigger] forks@[j]).branch_view() != "fork/"@ + slug@,
        },
{
    let branch = fork_branch(slug);
    for k in 0..forks.len()
        invariant
            branch@ == "fork/"@ + slug@,
            forall|j: int|
                0 <= j < k ==> (#[trigger] forks@[j]).branch_view() != "fork/"@ + slug@,
    {
        if same(forks[k].branch(), branch.as_str()) {
            return Some(k);
        }
    }
    None
}

/// A branch is that of a fork exactly where it stands under `fork/` with a name, and then its name
/// leads back to it.
pub proof fn forks_stand_under_their_prefix(branch: Seq<char>)
    ensures
        fork_named(branch) <==> exists|slug: Seq<char>|
            slug.len() > 0 && branch == #[trigger] ("fork/"@ + slug),
        fork_named(branch) ==> "fork/"@ + slug_in(branch) == branch,
{
    reveal_strlit("fork/");
    if fork_named(branch) {
        assert("fork/"@ + slug_in(branch) =~= branch);
        assert(slug_in(branch).len() > 0);
    }
    if exists|slug: Seq<char>| slug.len() > 0 && branch == #[trigger] ("fork/"@ + slug) {
        let slug = choose|slug: Seq<char>| slug.len() > 0 && branch == #[trigger] ("fork/"@ + slug);
        fork_branches_name_their_fork(slug);
    }
}

/// What a marker says under a key is what its first line under that key says, and a marker without
/// such a line says nothing.
pub proof fn markers_say_what_their_lines_say(
    all: Seq<Seq<char>>,
    key: Seq<char>,
    k: int,
    i: int,
)
    requires
        0 <= k <= i < all.len(),
        begins(all[i], key + ": "@),
        forall|j: int| k <= j < i ==> !begins(#[trigger] all[j], key + ": "@),
    ensures
        field_from(all, key, k) == Some(all[i].skip((key + ": "@).len() as int)),
    decreases i - k,
{
    if k < i {
        assert(!begins(all[k], key + ": "@));
        markers_say_what_their_lines_say(all, key, k + 1, i);
    }
}

/// A fork has the marker that claims its branch where one does, and none that claims another.
pub proof fn forks_have_their_own_markers(
    fork: ForkIdentity,
    branch: Seq<char>,
    markers: Seq<ForkMarker>,
    places: Seq<Option<String>>,
    live: Seq<LiveWorktree>,
    k: int,
)
    requires
        is_identity(fork, branch, markers, places, live),
        0 <= k < markers.len(),
    ensures
        claimed_branch(markers[k]) == Some(branch) ==> fork.marked() is Some,
        fork.marked() matches Some(marker) ==> exists|j: int|
            0 <= j < markers.len() && claimed_branch(#[trigger] markers[j]) == Some(branch)
                && marker.filename@ == markers[j].filename@,
{
    if let Some(marker) = fork.marked() {
        let j = choose|j: int| #[trigger]
            first_claim(markers, branch, j) && same_marker(marker, markers[j]);
        assert(claimed_branch(markers[j]) == Some(branch));
    }
}

/// A fork whose branch is checked out nowhere and that no marker claims has no checkout.
pub proof fn unmarked_forks_have_no_checkout(
    fork: ForkIdentity,
    branch: Seq<char>,
    markers: Seq<ForkMarker>,
    places: Seq<Option<String>>,
    live: Seq<LiveWorktree>,
)
    requires
        is_identity(fork, branch, markers, places, live),
        forall|j: int|
            0 <= j < live.len() ==> !((#[trigger] live[j]).branch matches Some(other) && other@
                == branch),
        forall|j: int| 0 <= j < markers.len() ==> claimed_branch(#[trigger] markers[j]) != Some(branch),
    ensures
        fork.worktree_view() is None,
        fork.marked() is None,
{
    assert forall|j: int| 0 <= j < live.len() implies !attached(#[trigger] live[j], branch) by {
        assert(!(live[j].branch matches Some(other) && other@ == branch));
    }
    assert(nowhere_attached(live, branch));
    assert(unclaimed(markers, branch));
}

/// There is a fork for every branch that is one.
pub proof fn every_fork_branch_is_reported(branches: Seq<String>, n: int, i: int)
    requires
        0 <= i < n <= branches.len(),
        fork_named(branches[i]@),
    ensures
        fork_branches(branches, n).contains(branches[i]@),
    decreases n,
{
    let all = fork_branches(branches, n);
    if i == n - 1 {
        assert(all[all.len() - 1] == branches[i]@);
    } else {
        every_fork_branch_is_reported(branches, n - 1, i);
        let prior = fork_branches(branches, n - 1);
        let k = choose|k: int| 0 <= k < prior.len() && prior[k] == branches[i]@;
        assert(all[k] == branches[i]@);
    }
}

} // verus!
