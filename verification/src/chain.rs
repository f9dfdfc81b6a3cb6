//! A chain: the changes under one tag in dependency order, how each was reviewed, the plans they
//! were worked from, and which is ready next.
use crate::dependency::{carries, idle, offered_before, ready_candidate};
use crate::graph::{cyclic, dependency_order, dependency_ordered};
use crate::input::{has_space, is_tag};
use crate::integrate::{select_tagged, tagged_members};
use crate::order::{count, in_order, sort_positions, strict_order};
use crate::state::{
    ledger, Brief, ChangeState, ClaimTiming, FindingState, VerdictState, VerificationState,
};
use crate::table::{ascending, insert_name, lemma_views_contain, lemma_views_listed, listed};
use crate::text::{
    among, contains, decimal, decimal_of, ends, ends_with, lemma_precedes_irreflexive,
    lemma_precedes_total, lemma_precedes_transitive, less, opt_view, precedes, push_text, same,
    trim, trimmed, views,
};
use crate::time::{before, lemma_instants_are_ordered, Timestamp};
use vstd::prelude::*;

verus! {

/// The format of a chain that is written as JSON.
pub const CHAIN_SCHEMA: &'static str = "arc-chain/4";

/// One change of a chain.
#[derive(Debug)]
pub struct ChainMember {
    pub change_id: String,
    pub slug: String,
    pub title: String,
    pub state: String,
    pub plan_ref: Option<String>,
    pub plan_slice: Option<String>,
    pub base_revision: Option<String>,
    pub review: Option<ChainReview>,
}

/// How one change of a chain was reviewed.
#[derive(Debug)]
pub struct ChainReview {
    pub subject: Option<String>,
    /// Who wrote the brief the work was done from, when there is one.
    pub brief_author: Option<String>,
    /// Whether every verdict of the lifetime came from whoever wrote the brief; no answer without
    /// a brief or a verdict.
    pub reviewed_only_by_brief_author: Option<bool>,
    /// Whether some verdict of the lifetime came from somebody else than the subject.
    pub non_self_verdict: bool,
    pub at_final: ChainReviewWindow,
    pub lifetime: ChainReviewWindow,
    /// For each identity with a verdict, the newest patchset it saw.
    pub coverage: Vec<ReviewerCoverage>,
    /// The number of identities whose last look predates the final patchset.
    pub stale_reviewers: usize,
    /// A review obligation recorded at integration and not yet discharged.
    pub debt_outstanding: bool,
}

/// The newest patchset that one identity saw.
#[derive(Debug)]
pub struct ReviewerCoverage {
    pub identity: String,
    pub patchset_id: String,
    pub stale: bool,
}

/// What was recorded on some patchsets of a change.
#[derive(Debug)]
pub struct ChainReviewWindow {
    pub verdicts: usize,
    pub identities: Vec<String>,
    pub findings: usize,
    pub ad_hoc_verifications: usize,
}

/// A plan that some change of a chain names.
#[derive(Debug)]
pub struct ChainPlan {
    pub plan_ref: String,
    pub current: bool,
}

/// The changes under one tag.
#[derive(Debug)]
pub struct Chain {
    pub schema: &'static str,
    pub tag: String,
    pub members: Vec<ChainMember>,
    pub plans: Vec<ChainPlan>,
    pub next_ready: Option<String>,
}

/// Whoever a record was made for, or else whoever made it.
pub open spec fn identity_of(actor: Seq<char>, on_behalf_of: Option<Seq<char>>) -> Seq<char> {
    match on_behalf_of {
        Some(name) => name,
        None => actor,
    }
}

/// Whoever a record was made for, or else whoever made it.
pub fn identity<'a>(actor: &'a String, on_behalf_of: &'a Option<String>) -> (r: &'a str)
    ensures
        r@ == identity_of(actor@, opt_view(*on_behalf_of)),
{
    match on_behalf_of {
        Some(name) => name.as_str(),
        None => actor.as_str(),
    }
}

/// Whether an identity is that of a patchset from `from` on.
pub open spec fn patchset_since(state: ChangeState, from: int, id: Seq<char>) -> bool {
    exists|k: int| from <= k < state.patchsets@.len() && #[trigger] state.patchsets@[k].id@ == id
}

/// Whether a revision is the head of a patchset from `from` on.
pub open spec fn head_since(state: ChangeState, from: int, revision: Seq<char>) -> bool {
    exists|k: int|
        from <= k < state.patchsets@.len() && #[trigger] state.patchsets@[k].head@ == revision
}

fn is_patchset_since(state: &ChangeState, from: usize, id: &str) -> (r: bool)
    requires
        from <= state.patchsets@.len(),
    ensures
        r == patchset_since(*state, from as int, id@),
{
    let all = &state.patchsets;
    for k in from..all.len()
        invariant
            all@ == state.patchsets@,
            forall|j: int| from <= j < k ==> #[trigger] state.patchsets@[j].id@ != id@,
    {
        if same(all[k].id.as_str(), id) {
            assert(state.patchsets@[k as int].id@ == id@);
            return true;
        }
    }
    false
}

fn is_head_since(state: &ChangeState, from: usize, revision: &str) -> (r: bool)
    requires
        from <= state.patchsets@.len(),
    ensures
        r == head_since(*state, from as int, revision@),
{
    let all = &state.patchsets;
    for k in from..all.len()
        invariant
            all@ == state.patchsets@,
            forall|j: int| from <= j < k ==> #[trigger] state.patchsets@[j].head@ != revision@,
    {
        if same(all[k].head.as_str(), revision) {
            assert(state.patchsets@[k as int].head@ == revision@);
            return true;
        }
    }
    false
}

/// Whether a verdict is on a patchset from `from` on.
pub open spec fn verdict_since(state: ChangeState, from: int) -> spec_fn(VerdictState) -> bool {
    |verdict: VerdictState| patchset_since(state, from, verdict.patchset_id@)
}

/// Whether a finding is against a patchset from `from` on.
pub open spec fn finding_since(state: ChangeState, from: int) -> spec_fn(FindingState) -> bool {
    |finding: FindingState|
        finding.patchset_id is Some && patchset_since(state, from, finding.patchset_id->0@)
}

/// Whether a verification is of no gate and at the head of a patchset from `from` on.
pub open spec fn ad_hoc_since(state: ChangeState, from: int) -> spec_fn(VerificationState) -> bool {
    |entry: VerificationState| entry.gate is None && head_since(state, from, entry.revision@)
}

/// Whether somebody of this identity gave a verdict on a patchset from `from` on.
pub open spec fn judged_since(state: ChangeState, from: int, name: Seq<char>) -> bool {
    exists|i: int|
        0 <= i < state.verdicts@.len() && verdict_since(state, from)(state.verdicts@[i])
            && verdict_identity(#[trigger] state.verdicts@[i]) == name
}

/// Whose verdict one is.
pub open spec fn verdict_identity(verdict: VerdictState) -> Seq<char> {
    identity_of(verdict.actor@, opt_view(verdict.on_behalf_of))
}

/// Whether a window says what was recorded on the patchsets from `from` on.
pub open spec fn shows(window: ChainReviewWindow, state: ChangeState, from: int) -> bool {
    &&& window.verdicts == count(state.verdicts@, verdict_since(state, from))
    &&& views(window.identities@) == listed(|name: Seq<char>| judged_since(state, from, name))
    &&& forall|name: Seq<char>| #[trigger]
        among(window.identities@, name) <==> judged_since(state, from, name)
    &&& window.findings == count(state.findings@, finding_since(state, from))
    &&& window.ad_hoc_verifications == count(state.verifications@, ad_hoc_since(state, from))
}

fn count_findings(state: &ChangeState, from: usize) -> (r: usize)
    requires
        from <= state.patchsets@.len(),
    ensures
        r == count(state.findings@, finding_since(*state, from as int)),
{
    let all = &state.findings;
    let ghost wanted = finding_since(*state, from as int);
    let mut n: usize = 0;
    assert(all@.take(0) =~= Seq::empty());
    for i in 0..all.len()
        invariant
            all@ == state.findings@,
            from <= state.patchsets@.len(),
            wanted == finding_since(*state, from as int),
            n == count(all@.take(i as int), wanted),
            n <= i,
    {
        assert(all@.take(i + 1).drop_last() =~= all@.take(i as int));
        if let Some(id) = &all[i].patchset_id {
            if is_patchset_since(state, from, id.as_str()) {
                n += 1;
            }
        }
    }
    assert(all@.take(all@.len() as int) =~= all@);
    n
}

fn count_ad_hoc(state: &ChangeState, from: usize) -> (r: usize)
    requires
        from <= state.patchsets@.len(),
    ensures
        r == count(state.verifications@, ad_hoc_since(*state, from as int)),
{
    let all = &state.verifications;
    let ghost wanted = ad_hoc_since(*state, from as int);
    let mut n: usize = 0;
    assert(all@.take(0) =~= Seq::empty());
    for i in 0..all.len()
        invariant
            all@ == state.verifications@,
            from <= state.patchsets@.len(),
            wanted == ad_hoc_since(*state, from as int),
            n == count(all@.take(i as int), wanted),
            n <= i,
    {
        assert(all@.take(i + 1).drop_last() =~= all@.take(i as int));
        if all[i].gate.is_none() && is_head_since(state, from, all[i].revision.as_str()) {
            n += 1;
        }
    }
    assert(all@.take(all@.len() as int) =~= all@);
    n
}

/// Whether somebody of this identity gave one of the first `n` verdicts, on a patchset from
/// `from` on.
spec fn judged_within(state: ChangeState, from: int, n: int, name: Seq<char>) -> bool {
    exists|i: int|
        0 <= i < n && verdict_since(state, from)(state.verdicts@[i]) && verdict_identity(
            #[trigger] state.verdicts@[i],
        ) == name
}

/// What was recorded on the patchsets from `from` on.
pub fn review_window(state: &ChangeState, from: usize) -> (r: ChainReviewWindow)
    requires
        from <= state.patchsets@.len(),
    ensures
        shows(r, *state, from as int),
{
    let all = &state.verdicts;
    let ghost wanted = verdict_since(*state, from as int);
    let mut verdicts: usize = 0;
    let mut identities: Vec<String> = Vec::new();
    assert(all@.take(0) =~= Seq::empty());
    for i in 0..all.len()
        invariant
            all@ == state.verdicts@,
            from <= state.patchsets@.len(),
            wanted == verdict_since(*state, from as int),
            verdicts == count(all@.take(i as int), wanted),
            verdicts <= i,
            ascending(views(identities@)),
            forall|name: Seq<char>| #[trigger]
                among(identities@, name) <==> judged_within(*state, from as int, i as int, name),
    {
        let ghost had = identities@;
        let verdict = &all[i];
        assert(all@.take(i + 1).drop_last() =~= all@.take(i as int));
        let counts = is_patchset_since(state, from, verdict.patchset_id.as_str());
        if counts {
            verdicts += 1;
            insert_name(&mut identities, identity(&verdict.actor, &verdict.on_behalf_of));
        }
        proof {
            assert(wanted(*verdict) == counts);
            assert forall|name: Seq<char>| #[trigger] among(identities@, name) <==> judged_within(
                *state,
                from as int,
                i + 1,
                name,
            ) by {
                assert(among(had, name) <==> judged_within(*state, from as int, i as int, name));
                if judged_within(*state, from as int, i as int, name) {
                    let j = choose|j: int|
                        0 <= j < i && verdict_since(*state, from as int)(state.verdicts@[j])
                            && verdict_identity(#[trigger] state.verdicts@[j]) == name;
                    assert(verdict_identity(state.verdicts@[j]) == name);
                }
                if judged_within(*state, from as int, i + 1, name) {
                    let j = choose|j: int|
                        0 <= j < i + 1 && verdict_since(*state, from as int)(state.verdicts@[j])
                            && verdict_identity(#[trigger] state.verdicts@[j]) == name;
                    if j < i {
                        assert(judged_within(*state, from as int, i as int, name));
                    }
                }
                assert(verdict_identity(state.verdicts@[i as int]) == identity_of(
                    verdict.actor@,
                    opt_view(verdict.on_behalf_of),
                ));
            }
        }
    }
    assert(all@.take(all@.len() as int) =~= all@);
    proof {
        assert forall|name: Seq<char>| #[trigger] among(identities@, name) <==> judged_since(
            *state,
            from as int,
            name,
        ) by {
            assert(among(identities@, name) <==> judged_within(
                *state,
                from as int,
                all@.len() as int,
                name,
            ));
        }
        lemma_views_listed(
            identities@,
            |name: Seq<char>| judged_since(*state, from as int, name),
        );
    }
    ChainReviewWindow {
        verdicts,
        identities,
        findings: count_findings(state, from),
        ad_hoc_verifications: count_ad_hoc(state, from),
    }
}

/// Whether somebody of this identity gave a verdict on the patchset at `k`.
pub open spec fn judged_at(state: ChangeState, k: int, name: Seq<char>) -> bool {
    exists|i: int|
        0 <= i < state.verdicts@.len() && state.verdicts@[i].patchset_id@ == state.patchsets@[k].id@
            && verdict_identity(#[trigger] state.verdicts@[i]) == name
}

/// Whether the patchset at `k` is the newest that an identity gave a verdict on.
pub open spec fn newest_seen(state: ChangeState, name: Seq<char>, k: int) -> bool {
    &&& 0 <= k < state.patchsets@.len()
    &&& judged_at(state, k, name)
    &&& forall|j: int| k < j < state.patchsets@.len() ==> !#[trigger] judged_at(state, j, name)
}

fn has_judged(state: &ChangeState, k: usize, name: &str) -> (r: bool)
    requires
        k < state.patchsets@.len(),
    ensures
        r == judged_at(*state, k as int, name@),
{
    let all = &state.verdicts;
    let id = state.patchsets[k].id.as_str();
    for i in 0..all.len()
        invariant
            all@ == state.verdicts@,
            k < state.patchsets@.len(),
            id@ == state.patchsets@[k as int].id@,
            forall|j: int|
                0 <= j < i ==> !(state.verdicts@[j].patchset_id@ == id@ && verdict_identity(
                    #[trigger] state.verdicts@[j],
                ) == name@),
    {
        if same(all[i].patchset_id.as_str(), id) && same(
            identity(&all[i].actor, &all[i].on_behalf_of),
            name,
        ) {
            assert(verdict_identity(state.verdicts@[i as int]) == name@);
            return true;
        }
    }
    false
}

fn find_newest_seen(state: &ChangeState, name: &str) -> (r: Option<usize>)
    ensures
        match r {
            Some(k) => newest_seen(*state, name@, k as int),
            None => forall|j: int|
                0 <= j < state.patchsets@.len() ==> !#[trigger] judged_at(*state, j, name@),
        },
{
    let mut k: usize = state.patchsets.len();
    while k > 0
        invariant
            k <= state.patchsets@.len(),
            forall|j: int|
                k <= j < state.patchsets@.len() ==> !#[trigger] judged_at(*state, j, name@),
        decreases k,
    {
        k -= 1;
        if has_judged(state, k, name) {
            return Some(k);
        }
    }
    None
}

/// Whether an entry says which is the newest patchset that its identity saw, and whether a newer
/// one followed it.
pub open spec fn covers(entry: ReviewerCoverage, state: ChangeState, name: Seq<char>) -> bool {
    entry.identity@ == name && exists|k: int| #[trigger]
        newest_seen(state, name, k) && entry.patchset_id@ == state.patchsets@[k].id@ && entry.stale
            == (k < state.patchsets@.len() - 1)
}

/// Whether a review says how a change was reviewed.
pub open spec fn reviews(review: ChainReview, state: ChangeState, debt_outstanding: bool) -> bool {
    let last = state.patchsets@.len() - 1;
    if state.patchsets@.len() == 0 {
        &&& review.subject is None
        &&& review.reviewed_only_by_brief_author is None
        &&& !review.non_self_verdict
        &&& review.at_final.verdicts == 0
        &&& review.at_final.identities@.len() == 0
        &&& review.at_final.findings == 0
        &&& review.at_final.ad_hoc_verifications == 0
        &&& review.lifetime.verdicts == 0
        &&& review.lifetime.identities@.len() == 0
        &&& review.lifetime.findings == 0
        &&& review.lifetime.ad_hoc_verifications == 0
        &&& review.coverage@.len() == 0
        &&& review.stale_reviewers == 0
        &&& opt_view(review.brief_author) == brief_author_of(state)
        &&& review.debt_outstanding == debt_outstanding
    } else {
        let subject = identity_of(
            state.patchsets@[last].actor@,
            opt_view(state.patchsets@[last].on_behalf_of),
        );
        &&& opt_view(review.subject) == Some(subject)
        &&& opt_view(review.brief_author) == brief_author_of(state)
        &&& review.reviewed_only_by_brief_author == (match brief_author_of(state) {
            Some(author) => if review.lifetime.identities@.len() == 0 {
                None
            } else {
                Some(forall|name: Seq<char>| #[trigger]
                    judged_since(state, 0, name) ==> name == author)
            },
            None => None,
        })
        &&& review.non_self_verdict == exists|name: Seq<char>| #[trigger]
            judged_since(state, 0, name) && name != subject
        &&& shows(review.at_final, state, last)
        &&& shows(review.lifetime, state, 0)
        &&& review.coverage@.len() == review.lifetime.identities@.len()
        &&& forall|i: int|
            0 <= i < review.coverage@.len() ==> covers(
                #[trigger] review.coverage@[i],
                state,
                review.lifetime.identities@[i]@,
            )
        &&& review.stale_reviewers == count(
            review.coverage@,
            |entry: ReviewerCoverage| entry.stale,
        )
        &&& review.debt_outstanding == debt_outstanding
    }
}

/// Who wrote the latest brief of a change.
pub open spec fn brief_author_of(state: ChangeState) -> Option<Seq<char>> {
    if state.briefs@.len() == 0 {
        None
    } else {
        Some(
            identity_of(
                state.briefs@.last().actor@,
                opt_view(state.briefs@.last().on_behalf_of),
            ),
        )
    }
}

fn brief_author(state: &ChangeState) -> (r: Option<String>)
    ensures
        opt_view(r) == brief_author_of(*state),
{
    if state.briefs.len() == 0 {
        None
    } else {
        let brief = &state.briefs[state.briefs.len() - 1];
        Some(identity(&brief.actor, &brief.on_behalf_of).to_string())
    }
}

/// Whether some name is another than `name`.
fn holds_other(names: &Vec<String>, name: &str) -> (r: bool)
    ensures
        r == exists|x: Seq<char>| #[trigger] among(names@, x) && x != name@,
{
    for i in 0..names.len()
        invariant
            forall|k: int| 0 <= k < i ==> (#[trigger] names@[k])@ == name@,
    {
        if !same(names[i].as_str(), name) {
            assert(among(names@, names@[i as int]@));
            return true;
        }
    }
    false
}

fn review_coverage(state: &ChangeState, identities: &Vec<String>) -> (r: Vec<ReviewerCoverage>)
    requires
        forall|name: Seq<char>| #[trigger]
            among(identities@, name) <==> judged_since(*state, 0, name),
    ensures
        r@.len() == identities@.len(),
        forall|i: int|
            0 <= i < r@.len() ==> covers(#[trigger] r@[i], *state, identities@[i]@),
{
    let mut out: Vec<ReviewerCoverage> = Vec::new();
    let total: usize = state.patchsets.len();
    for i in 0..identities.len()
        invariant
            total == state.patchsets@.len(),
            forall|name: Seq<char>| #[trigger]
                among(identities@, name) <==> judged_since(*state, 0, name),
            out@.len() == i,
            forall|k: int| 0 <= k < i ==> covers(#[trigger] out@[k], *state, identities@[k]@),
    {
        let name = identities[i].as_str();
        match find_newest_seen(state, name) {
            Some(k) => {
                let entry = ReviewerCoverage {
                    identity: name.to_string(),
                    patchset_id: state.patchsets[k].id.clone(),
                    stale: k < total - 1,
                };
                assert(newest_seen(*state, name@, k as int));
                assert(covers(entry, *state, name@));
                out.push(entry);
            },
            None => {
                proof {
                    assert(among(identities@, identities@[i as int]@));
                    assert(judged_since(*state, 0, name@));
                    let v = choose|v: int|
                        0 <= v < state.verdicts@.len() && verdict_since(*state, 0)(
                            state.verdicts@[v],
                        ) && verdict_identity(#[trigger] state.verdicts@[v]) == name@;
                    let id = state.verdicts@[v].patchset_id@;
                    assert(patchset_since(*state, 0, id));
                    let k = choose|k: int|
                        0 <= k < state.patchsets@.len() && #[trigger] state.patchsets@[k].id@ == id;
                    assert(verdict_identity(state.verdicts@[v]) == name@);
                    assert(judged_at(*state, k, name@));
                    assert(false);
                }
            },
        }
    }
    out
}

fn count_stale(coverage: &Vec<ReviewerCoverage>) -> (r: usize)
    ensures
        r == count(coverage@, |entry: ReviewerCoverage| entry.stale),
{
    let ghost stale = |entry: ReviewerCoverage| entry.stale;
    let mut n: usize = 0;
    assert(coverage@.take(0) =~= Seq::empty());
    for i in 0..coverage.len()
        invariant
            stale == (|entry: ReviewerCoverage| entry.stale),
            n == count(coverage@.take(i as int), stale),
            n <= i,
    {
        assert(coverage@.take(i + 1).drop_last() =~= coverage@.take(i as int));
        if coverage[i].stale {
            n += 1;
        }
    }
    assert(coverage@.take(coverage@.len() as int) =~= coverage@);
    n
}

fn empty_window() -> (r: ChainReviewWindow)
    ensures
        r.verdicts == 0,
        r.identities@.len() == 0,
        r.findings == 0,
        r.ad_hoc_verifications == 0,
{
    ChainReviewWindow {
        verdicts: 0,
        identities: Vec::new(),
        findings: 0,
        ad_hoc_verifications: 0,
    }
}

/// How a change was reviewed.
pub fn chain_review(state: &ChangeState, debt_outstanding: bool) -> (r: ChainReview)
    ensures
        reviews(r, *state, debt_outstanding),
{
    let author = brief_author(state);
    if state.patchsets.len() == 0 {
        return ChainReview {
            subject: None,
            brief_author: author,
            reviewed_only_by_brief_author: None,
            non_self_verdict: false,
            at_final: empty_window(),
            lifetime: empty_window(),
            coverage: Vec::new(),
            stale_reviewers: 0,
            debt_outstanding,
        };
    }
    let last: usize = state.patchsets.len() - 1;
    let patchset = &state.patchsets[last];
    let subject = identity(&patchset.actor, &patchset.on_behalf_of).to_string();
    let at_final = review_window(state, last);
    let lifetime = review_window(state, 0);
    let non_self_verdict = holds_other(&lifetime.identities, subject.as_str());
    let reviewed_only_by_brief_author = match &author {
        Some(name) => if lifetime.identities.len() == 0 {
            None
        } else {
            Some(!holds_other(&lifetime.identities, name.as_str()))
        },
        None => None,
    };
    let coverage = review_coverage(state, &lifetime.identities);
    let stale_reviewers: usize = count_stale(&coverage);
    proof {
        assert forall|name: Seq<char>| #[trigger] judged_since(*state, 0, name) implies among(
            lifetime.identities@,
            name,
        ) by {
            assert(among(lifetime.identities@, name) <==> judged_since(*state, 0, name));
        }
        if non_self_verdict {
            let x = choose|x: Seq<char>| #[trigger]
                among(lifetime.identities@, x) && x != subject@;
            assert(judged_since(*state, 0, x));
        }
        if author is Some && lifetime.identities@.len() > 0 && !reviewed_only_by_brief_author->0 {
            let x = choose|x: Seq<char>| #[trigger]
                among(lifetime.identities@, x) && x != author->0@;
            assert(judged_since(*state, 0, x));
        }
    }
    ChainReview {
        subject: Some(subject),
        brief_author: author,
        reviewed_only_by_brief_author,
        non_self_verdict,
        at_final,
        lifetime,
        coverage,
        stale_reviewers,
        debt_outstanding,
    }
}

/// Whether an entry of a chain says what a change is.
pub open spec fn represents(
    member: ChainMember,
    state: ChangeState,
    review: bool,
    debt_outstanding: bool,
) -> bool {
    &&& member.change_id@ == state.change_id@
    &&& member.slug@ == state.slug@
    &&& member.title@ == state.title@
    &&& member.state@ == (if state.closure is Some {
        "closed"@
    } else {
        "open"@
    })
    &&& if state.briefs@.len() > 0 {
        &&& opt_view(member.plan_ref) == opt_view(state.briefs@.last().plan_ref)
        &&& opt_view(member.plan_slice) == opt_view(state.briefs@.last().plan_slice)
        &&& opt_view(member.base_revision) == opt_view(state.briefs@.last().base_revision)
    } else {
        member.plan_ref is None && member.plan_slice is None && member.base_revision is None
    }
    &&& member.review is Some == review
    &&& review ==> reviews(member.review->0, state, debt_outstanding)
}

/// The entry of a chain for a change.
pub fn chain_member(state: &ChangeState, review: bool, debt_outstanding: bool) -> (r: ChainMember)
    ensures
        represents(r, *state, review, debt_outstanding),
{
    let (plan_ref, plan_slice, base_revision) = if state.briefs.len() > 0 {
        let brief = &state.briefs[state.briefs.len() - 1];
        (brief.plan_ref.clone(), brief.plan_slice.clone(), brief.base_revision.clone())
    } else {
        (None, None, None)
    };
    let standing = if state.is_closed() {
        "closed"
    } else {
        "open"
    };
    ChainMember {
        change_id: state.change_id.clone(),
        slug: state.slug.clone(),
        title: state.title.clone(),
        state: standing.to_string(),
        plan_ref,
        plan_slice,
        base_revision,
        review: if review {
            Some(chain_review(state, debt_outstanding))
        } else {
            None
        },
    }
}

/// A plan that some change names, and when.
pub struct PlanEvent {
    pub at: Timestamp,
    pub event_id: String,
    pub plan_ref: String,
}

/// What a plan event says.
pub struct PlanView {
    pub at: Timestamp,
    pub event_id: Seq<char>,
    pub plan_ref: Seq<char>,
}

/// What some plan events say.
pub open spec fn plan_views(events: Seq<PlanEvent>) -> Seq<PlanView> {
    Seq::new(
        events.len(),
        |i: int|
            PlanView {
                at: events[i].at,
                event_id: events[i].event_id@,
                plan_ref: events[i].plan_ref@,
            },
    )
}

/// The plans that some briefs name.
pub open spec fn brief_plans(briefs: Seq<Brief>) -> Seq<PlanView>
    decreases briefs.len(),
{
    if briefs.len() == 0 {
        Seq::empty()
    } else {
        let rest = brief_plans(briefs.drop_last());
        match briefs.last().plan_ref {
            Some(plan_ref) => rest.push(
                PlanView {
                    at: briefs.last().ts,
                    event_id: briefs.last().event_id@,
                    plan_ref: plan_ref@,
                },
            ),
            None => rest,
        }
    }
}

/// The plan that the journal entry of a change is, where it is one.
pub open spec fn journal_plan(state: ChangeState) -> Seq<PlanView> {
    match state.journal_ref {
        Some(reference) => if ends(reference@, "-plan.md"@) {
            seq![
                PlanView {
                    at: state.opened_at,
                    event_id: state.change_id@,
                    plan_ref: reference@,
                },
            ]
        } else {
            Seq::empty()
        },
        None => Seq::empty(),
    }
}

/// The plans that some changes name.
pub open spec fn named_plans(changes: Seq<ChangeState>, members: Seq<usize>) -> Seq<PlanView>
    decreases members.len(),
{
    if members.len() == 0 {
        Seq::empty()
    } else {
        let state = changes[members.last() as int];
        named_plans(changes, members.drop_last()) + journal_plan(state) + brief_plans(state.briefs@)
    }
}

fn collect_plans(changes: &Vec<ChangeState>, members: &Vec<usize>) -> (r: Vec<PlanEvent>)
    requires
        forall|k: int| 0 <= k < members@.len() ==> #[trigger] members@[k] < changes@.len(),
    ensures
        plan_views(r@) == named_plans(changes@, members@),
{
    let mut out: Vec<PlanEvent> = Vec::new();
    assert(plan_views(out@) =~= Seq::empty());
    assert(members@.take(0) =~= Seq::empty());
    for k in 0..members.len()
        invariant
            forall|j: int| 0 <= j < members@.len() ==> #[trigger] members@[j] < changes@.len(),
            plan_views(out@) == named_plans(changes@, members@.take(k as int)),
    {
        let ghost start = plan_views(out@);
        assert(members@.take(k + 1).drop_last() =~= members@.take(k as int));
        assert(members@[k as int] < changes@.len());
        let state = &changes[members[k]];
        if let Some(reference) = &state.journal_ref {
            if ends_with(reference.as_str(), "-plan.md") {
                out.push(
                    PlanEvent {
                        at: state.opened_at,
                        event_id: state.change_id.clone(),
                        plan_ref: reference.clone(),
                    },
                );
            }
        }
        let ghost middle = start + journal_plan(*state);
        assert(plan_views(out@) =~= middle);
        let briefs = &state.briefs;
        assert(briefs@.take(0) =~= Seq::empty());
        assert(middle + Seq::<PlanView>::empty() =~= middle);
        for i in 0..briefs.len()
            invariant
                plan_views(out@) == middle + brief_plans(briefs@.take(i as int)),
        {
            let ghost so_far = plan_views(out@);
            assert(briefs@.take(i + 1).drop_last() =~= briefs@.take(i as int));
            if let Some(plan_ref) = &briefs[i].plan_ref {
                out.push(
                    PlanEvent {
                        at: briefs[i].ts,
                        event_id: briefs[i].event_id.clone(),
                        plan_ref: plan_ref.clone(),
                    },
                );
                assert(plan_views(out@) =~= so_far.push(
                    PlanView {
                        at: briefs@[i as int].ts,
                        event_id: briefs@[i as int].event_id@,
                        plan_ref: plan_ref@,
                    },
                ));
            }
            assert(plan_views(out@) =~= middle + brief_plans(briefs@.take(i + 1)));
        }
        assert(briefs@.take(briefs@.len() as int) =~= briefs@);
    }
    assert(members@.take(members@.len() as int) =~= members@);
    out
}

/// Plans by time, then by event, then in the order in which they were found.
pub open spec fn named_before(plans: Seq<PlanView>) -> spec_fn(usize, usize) -> bool {
    |a: usize, b: usize|
        if a < plans.len() && b < plans.len() {
            let x = plans[a as int];
            let y = plans[b as int];
            before(x.at, y.at) || (!before(y.at, x.at) && (precedes(x.event_id, y.event_id) || (
            x.event_id == y.event_id && a < b)))
        } else {
            a < b
        }
}

proof fn lemma_named_before(plans: Seq<PlanView>)
    ensures
        strict_order(named_before(plans)),
{
    let order = named_before(plans);
    assert forall|a: usize| !#[trigger] order(a, a) by {
        if a < plans.len() {
            lemma_precedes_irreflexive(plans[a as int].event_id);
            lemma_instants_are_ordered(plans[a as int].at, plans[a as int].at);
        }
    }
    assert forall|a: usize, b: usize, c: usize| #[trigger]
        order(a, b) && #[trigger] order(b, c) implies order(a, c) by {
        if a < plans.len() && b < plans.len() && c < plans.len() {
            let (x, y, z) = (plans[a as int], plans[b as int], plans[c as int]);
            if precedes(x.event_id, y.event_id) && precedes(y.event_id, z.event_id) {
                lemma_precedes_transitive(x.event_id, y.event_id, z.event_id);
            }
        }
    }
    assert forall|a: usize, b: usize| a != b implies #[trigger] order(a, b) || order(b, a) by {
        if a < plans.len() && b < plans.len() {
            lemma_precedes_total(plans[a as int].event_id, plans[b as int].event_id);
        }
    }
}

fn comes_before(plans: &Vec<PlanEvent>, a: usize, b: usize) -> (r: bool)
    requires
        a < plans@.len(),
        b < plans@.len(),
    ensures
        r == named_before(plan_views(plans@))(a, b),
{
    let x = &plans[a];
    let y = &plans[b];
    x.at.is_before(&y.at) || (!y.at.is_before(&x.at) && (less(
        x.event_id.as_str(),
        y.event_id.as_str(),
    ) || (same(x.event_id.as_str(), y.event_id.as_str()) && a < b)))
}

/// The texts of a sequence without those that came before.
pub open spec fn firsts(texts: Seq<Seq<char>>) -> Seq<Seq<char>>
    decreases texts.len(),
{
    if texts.len() == 0 {
        Seq::empty()
    } else {
        let rest = firsts(texts.drop_last());
        if rest.contains(texts.last()) {
            rest
        } else {
            rest.push(texts.last())
        }
    }
}

/// The plans in an order of their events.
pub open spec fn refs_in(plans: Seq<PlanView>, order: Seq<usize>) -> Seq<Seq<char>> {
    Seq::new(order.len(), |i: int| plans[order[i] as int].plan_ref)
}

/// Whether `order` is the order of the events that name some plans: by time, then by event.
pub open spec fn plan_order(plans: Seq<PlanView>, order: Seq<usize>) -> bool {
    &&& in_order(order, named_before(plans))
    &&& forall|a: usize| #[trigger] order.contains(a) <==> a < plans.len()
}

/// The texts of some plans.
pub open spec fn plan_texts(plans: Seq<ChainPlan>) -> Seq<Seq<char>> {
    Seq::new(plans.len(), |i: int| plans[i].plan_ref@)
}

/// Whether `shown` are the plans of a chain: each once, in the order in which they were first
/// named, and the last of them current.
pub open spec fn shows_plans(shown: Seq<ChainPlan>, plans: Seq<PlanView>) -> bool {
    &&& exists|order: Seq<usize>| #[trigger]
        plan_order(plans, order) && plan_texts(shown) == firsts(refs_in(plans, order))
    &&& forall|i: int|
        0 <= i < shown.len() ==> (#[trigger] shown[i]).current == (i == shown.len() - 1)
}

fn among_texts(texts: &Vec<String>, text: &str) -> (r: bool)
    ensures
        r == views(texts@).contains(text@),
{
    proof {
        lemma_views_contain(texts@, text@);
    }
    contains(texts, text)
}

/// The plans of a chain.
pub fn chain_plans(changes: &Vec<ChangeState>, members: &Vec<usize>) -> (r: Vec<ChainPlan>)
    requires
        forall|k: int| 0 <= k < members@.len() ==> #[trigger] members@[k] < changes@.len(),
    ensures
        shows_plans(r@, named_plans(changes@, members@)),
{
    let events = collect_plans(changes, members);
    let ghost plans = plan_views(events@);
    let mut all: Vec<usize> = Vec::new();
    for i in 0..events.len()
        invariant
            all@.len() == i,
            all@.no_duplicates(),
            forall|k: int| 0 <= k < i ==> #[trigger] all@[k] == k,
    {
        all.push(i);
    }
    proof {
        lemma_named_before(plans);
        assert forall|a: usize| #[trigger] all@.contains(a) <==> a < plans.len() by {
            if a < plans.len() {
                assert(all@[a as int] == a);
            }
        }
    }
    let ahead = |a: usize, b: usize| -> (out: bool)
        requires
            events@.len() > a,
            events@.len() > b,
        ensures
            out == named_before(plan_views(events@))(a, b),
        { comes_before(&events, a, b) };
    let order = sort_positions(&all, ahead, Ghost(named_before(plans)));
    assert(plan_order(plans, order@));
    let ghost refs = refs_in(plans, order@);
    let mut texts: Vec<String> = Vec::new();
    assert(views(texts@) =~= Seq::empty());
    assert(refs.take(0) =~= Seq::empty());
    for k in 0..order.len()
        invariant
            plans == plan_views(events@),
            plan_order(plans, order@),
            refs == refs_in(plans, order@),
            views(texts@) == firsts(refs.take(k as int)),
    {
        assert(order@.contains(order@[k as int]));
        let text = events[order[k]].plan_ref.as_str();
        let ghost had = views(texts@);
        proof {
            assert(refs.take(k + 1).drop_last() =~= refs.take(k as int));
            assert(refs.take(k + 1).last() == text@);
        }
        if !among_texts(&texts, text) {
            texts.push(text.to_string());
            assert(views(texts@) =~= had.push(text@));
        }
    }
    assert(refs.take(refs.len() as int) =~= refs);
    let mut out: Vec<ChainPlan> = Vec::new();
    let total: usize = texts.len();
    for i in 0..total
        invariant
            total == texts@.len(),
            out@.len() == i,
            forall|k: int|
                0 <= k < i ==> (#[trigger] out@[k]).current == (k == total - 1) && out@[k].plan_ref@
                    == texts@[k]@,
    {
        out.push(ChainPlan { plan_ref: texts[i].clone(), current: i == total - 1 });
    }
    assert(plan_texts(out@) =~= views(texts@));
    out
}

/// Whether the change at `best` is the idle one under some tags that is offered first.
pub open spec fn next_idle(
    changes: Seq<ChangeState>,
    timings: Seq<ClaimTiming>,
    tags: Seq<String>,
    best: int,
) -> bool {
    &&& 0 <= best < changes.len()
    &&& idle(changes, timings, best)
    &&& carries(changes[best], tags)
    &&& forall|i: usize|
        i < changes.len() && idle(changes, timings, i as int) && carries(changes[i as int], tags)
            && i != best ==> #[trigger] offered_before(changes)(best as usize, i)
}

/// Why there is no chain.
#[derive(Clone, Copy, Debug, PartialEq, Eq, Structural)]
pub enum ChainRefusal {
    InvalidTag,
    DependencyCycle,
}

/// Whether `chain` is the chain of the members under its tag.
pub open spec fn is_chain(
    chain: Chain,
    changes: Seq<ChangeState>,
    timings: Seq<ClaimTiming>,
    tags: Seq<String>,
    members: Seq<usize>,
    review: bool,
    debts: Seq<bool>,
) -> bool {
    &&& chain.schema@ == CHAIN_SCHEMA@
    &&& chain.tag@ == tags[0]@
    &&& exists|order: Seq<usize>| #[trigger]
        dependency_ordered(changes, members, order) && chain.members@.len() == order.len()
            && forall|i: int|
            0 <= i < order.len() ==> represents(
                #[trigger] chain.members@[i],
                changes[order[i] as int],
                review,
                debts[order[i] as int],
            )
    &&& shows_plans(chain.plans@, named_plans(changes, members))
    &&& match chain.next_ready {
        Some(id) => exists|best: int| #[trigger]
            next_idle(changes, timings, tags, best) && id@ == changes[best].change_id@,
        None => forall|i: int|
            0 <= i < changes.len() ==> !(#[trigger] idle(changes, timings, i) && carries(
                changes[i],
                tags,
            )),
    }
}

/// The changes under one tag in dependency order, the plans that they name and the one that is
/// ready next. `debts` says of each change whether a review obligation is outstanding.
pub fn chain(
    changes: &Vec<ChangeState>,
    timings: &Vec<ClaimTiming>,
    tag: &str,
    review: bool,
    debts: &Vec<bool>,
) -> (r: Result<Chain, ChainRefusal>)
    requires
        ledger(changes@),
        timings@.len() == changes@.len(),
        debts@.len() == changes@.len(),
    ensures
        match r {
            Ok(chain) => is_tag(trimmed(tag@)) && exists|tags: Seq<String>, members: Seq<usize>|
                tags.len() == 1 && tags[0]@ == trimmed(tag@) && #[trigger] tagged_members(
                    changes@,
                    tags,
                    members,
                ) && !cyclic(changes@, members) && is_chain(
                    chain,
                    changes@,
                    timings@,
                    tags,
                    members,
                    review,
                    debts@,
                ),
            Err(ChainRefusal::InvalidTag) => !is_tag(trimmed(tag@)),
            Err(ChainRefusal::DependencyCycle) => is_tag(trimmed(tag@)) && exists|
                tags: Seq<String>,
                members: Seq<usize>,
            |
                tags.len() == 1 && tags[0]@ == trimmed(tag@) && #[trigger] tagged_members(
                    changes@,
                    tags,
                    members,
                ) && cyclic(changes@, members),
        },
{
    let tags = match one_tag(tag) {
        Some(tags) => tags,
        None => return Err(ChainRefusal::InvalidTag),
    };
    let members = select_tagged(changes, &tags);
    let order = match dependency_order(changes, &members) {
        Ok(order) => order,
        Err(_) => return Err(ChainRefusal::DependencyCycle),
    };
    let mut shown: Vec<ChainMember> = Vec::new();
    for k in 0..order.len()
        invariant
            ledger(changes@),
            debts@.len() == changes@.len(),
            forall|j: int| 0 <= j < members@.len() ==> #[trigger] members@[j] < changes@.len(),
            dependency_ordered(changes@, members@, order@),
            shown@.len() == k,
            forall|i: int|
                0 <= i < k ==> represents(
                    #[trigger] shown@[i],
                    changes@[order@[i] as int],
                    review,
                    debts@[order@[i] as int],
                ),
    {
        proof {
            assert(order@.contains(order@[k as int]));
            assert(members@.contains(order@[k as int]));
        }
        let here: usize = order[k];
        shown.push(chain_member(&changes[here], review, debts[here]));
    }
    let plans = chain_plans(changes, &members);
    let next_ready = match ready_candidate(changes, &tags, timings) {
        Some(best) => {
            assert(next_idle(changes@, timings@, tags@, best as int));
            Some(changes[best].change_id.clone())
        },
        None => None,
    };
    let chain = Chain {
        schema: CHAIN_SCHEMA,
        tag: tags[0].clone(),
        members: shown,
        plans,
        next_ready,
    };
    assert(is_chain(chain, changes@, timings@, tags@, members@, review, debts@));
    Ok(chain)
}

/// A tag by itself, where the text trims to one.
fn one_tag(tag: &str) -> (r: Option<Vec<String>>)
    ensures
        match r {
            Some(tags) => is_tag(trimmed(tag@)) && tags@.len() == 1 && tags@[0]@ == trimmed(tag@),
            None => !is_tag(trimmed(tag@)),
        },
{
    let text = trim(tag);
    if text.as_str().is_empty() || has_space(text.as_str()) {
        return None;
    }
    let mut tags: Vec<String> = Vec::new();
    tags.push(text);
    Some(tags)
}

/// The line that names a change of a chain.
pub open spec fn member_line(member: ChainMember) -> Seq<char> {
    "- "@ + member.change_id@ + " — "@ + member.title@ + " ["@ + member.state@ + "]"@
}

/// The line that names the plan of a change.
pub open spec fn plan_line(plan_ref: Seq<char>, plan_slice: Seq<char>) -> Seq<char> {
    "  plan: "@ + plan_ref + " ("@ + plan_slice + ")"@
}

/// The line that counts how a change was reviewed.
pub open spec fn review_line(review: ChainReview) -> Seq<char> {
    "  review: "@ + decimal_of(review.lifetime.verdicts as nat) + " verdicts ("@ + decimal_of(
        review.at_final.verdicts as nat,
    ) + " at final), "@ + decimal_of(review.lifetime.identities@.len()) + " identities, "@
        + decimal_of(review.lifetime.findings as nat) + " findings, "@ + decimal_of(
        review.lifetime.ad_hoc_verifications as nat,
    ) + " ad hoc verifications"@
}

/// The lines of a change of a chain.
pub open spec fn member_lines(member: ChainMember) -> Seq<Seq<char>> {
    seq![member_line(member)] + (match (member.plan_ref, member.plan_slice) {
        (Some(plan_ref), Some(plan_slice)) => seq![plan_line(plan_ref@, plan_slice@)],
        _ => Seq::empty(),
    }) + (match member.review {
        Some(review) => seq![review_line(review)],
        None => Seq::empty(),
    })
}

/// The lines of the first `n` changes of a chain.
pub open spec fn members_lines(members: Seq<ChainMember>, n: int) -> Seq<Seq<char>>
    decreases n,
{
    if n <= 0 {
        Seq::empty()
    } else {
        members_lines(members, n - 1) + member_lines(members[n - 1])
    }
}

/// The line of a plan.
pub open spec fn chain_plan_line(plan: ChainPlan) -> Seq<char> {
    "- "@ + plan.plan_ref@ + (if plan.current {
        " (current)"@
    } else {
        ""@
    })
}

/// The lines of a chain.
pub open spec fn chain_lines(chain: Chain) -> Seq<Seq<char>> {
    seq!["Chain: "@ + chain.tag@] + (if chain.members@.len() == 0 {
        seq!["Members: none"@]
    } else {
        seq!["Members:"@] + members_lines(chain.members@, chain.members@.len() as int)
    }) + (if chain.plans@.len() == 0 {
        seq!["Plans: none"@]
    } else {
        seq!["Plans:"@] + Seq::new(
            chain.plans@.len(),
            |i: int| chain_plan_line(chain.plans@[i]),
        )
    }) + seq![
        "Next ready: "@ + (match chain.next_ready {
            Some(id) => id@,
            None => "none"@,
        }),
    ]
}

fn write_member(member: &ChainMember) -> (r: String)
    ensures
        r@ == member_line(*member),
{
    let mut out = "- ".to_string();
    out.append(member.change_id.as_str());
    out.append(" — ");
    out.append(member.title.as_str());
    out.append(" [");
    out.append(member.state.as_str());
    out.append("]");
    out
}

fn write_review(review: &ChainReview) -> (r: String)
    ensures
        r@ == review_line(*review),
{
    let verdicts = decimal(review.lifetime.verdicts as u64);
    let last = decimal(review.at_final.verdicts as u64);
    let identities = decimal(review.lifetime.identities.len() as u64);
    let findings = decimal(review.lifetime.findings as u64);
    let ad_hoc = decimal(review.lifetime.ad_hoc_verifications as u64);
    let mut out = "  review: ".to_string();
    out.append(verdicts.as_str());
    out.append(" verdicts (");
    out.append(last.as_str());
    out.append(" at final), ");
    out.append(identities.as_str());
    out.append(" identities, ");
    out.append(findings.as_str());
    out.append(" findings, ");
    out.append(ad_hoc.as_str());
    out.append(" ad hoc verifications");
    out
}

fn add_member(out: &mut Vec<String>, member: &ChainMember)
    ensures
        views(final(out)@) == views(old(out)@) + member_lines(*member),
{
    let ghost before = views(out@);
    push_text(out, write_member(member));
    if let Some(plan_ref) = &member.plan_ref {
        if let Some(plan_slice) = &member.plan_slice {
            let mut line = "  plan: ".to_string();
            line.append(plan_ref.as_str());
            line.append(" (");
            line.append(plan_slice.as_str());
            line.append(")");
            push_text(out, line);
        }
    }
    if let Some(review) = &member.review {
        push_text(out, write_review(review));
    }
    assert(views(out@) =~= before + member_lines(*member));
}

fn write_members(chain: &Chain) -> (r: Vec<String>)
    ensures
        views(r@) == (if chain.members@.len() == 0 {
            seq!["Members: none"@]
        } else {
            seq!["Members:"@] + members_lines(chain.members@, chain.members@.len() as int)
        }),
{
    let mut out: Vec<String> = Vec::new();
    if chain.members.len() == 0 {
        out.push("Members: none".to_string());
        assert(views(out@) =~= seq!["Members: none"@]);
        return out;
    }
    out.push("Members:".to_string());
    assert(views(out@) =~= seq!["Members:"@] + members_lines(chain.members@, 0));
    for i in 0..chain.members.len()
        invariant
            views(out@) == seq!["Members:"@] + members_lines(chain.members@, i as int),
    {
        add_member(&mut out, &chain.members[i]);
        assert(views(out@) =~= seq!["Members:"@] + members_lines(chain.members@, i + 1));
    }
    out
}

fn write_plans(chain: &Chain) -> (r: Vec<String>)
    ensures
        views(r@) == (if chain.plans@.len() == 0 {
            seq!["Plans: none"@]
        } else {
            seq!["Plans:"@] + Seq::new(
                chain.plans@.len(),
                |i: int| chain_plan_line(chain.plans@[i]),
            )
        }),
{
    let mut out: Vec<String> = Vec::new();
    if chain.plans.len() == 0 {
        out.push("Plans: none".to_string());
        assert(views(out@) =~= seq!["Plans: none"@]);
        return out;
    }
    out.push("Plans:".to_string());
    for i in 0..chain.plans.len()
        invariant
            out@.len() == i + 1,
            out@[0]@ == "Plans:"@,
            forall|j: int|
                1 <= j <= i ==> (#[trigger] out@[j])@ == chain_plan_line(chain.plans@[j - 1]),
    {
        let plan = &chain.plans[i];
        let mut line = "- ".to_string();
        line.append(plan.plan_ref.as_str());
        line.append(if plan.current { " (current)" } else { "" });
        out.push(line);
    }
    assert(views(out@) =~= seq!["Plans:"@] + Seq::new(
        chain.plans@.len(),
        |i: int| chain_plan_line(chain.plans@[i]),
    ));
    out
}

/// The lines of a chain.
pub fn render_chain(chain: &Chain) -> (r: Vec<String>)
    ensures
        views(r@) == chain_lines(*chain),
{
    let mut out: Vec<String> = Vec::new();
    let mut head = "Chain: ".to_string();
    head.append(chain.tag.as_str());
    let ghost first = head@;
    out.push(head);
    assert(views(out@) =~= seq![first]);
    let ghost a = views(out@);
    let mut members = write_members(chain);
    let ghost b = views(members@);
    let mut plans = write_plans(chain);
    let ghost c = views(plans@);
    out.append(&mut members);
    assert(views(out@) =~= a + b);
    out.append(&mut plans);
    assert(views(out@) =~= a + b + c);
    let mut next = "Next ready: ".to_string();
    match &chain.next_ready {
        Some(id) => next.append(id.as_str()),
        None => next.append("none"),
    }
    let ghost last = next@;
    push_text(&mut out, next);
    assert(views(out@) =~= a + b + c + seq![last]);
    out
}

/// A record made for somebody is theirs, and otherwise it is whoever made it.
pub proof fn records_are_whose_they_are_for(actor: Seq<char>, subject: Seq<char>)
    ensures
        identity_of(actor, Some(subject)) == subject,
        identity_of(actor, None) == actor,
{
}

/// What was recorded on later patchsets was recorded on earlier ones: a window that starts earlier
/// has at least as many verdicts, and names whoever a later one names.
pub proof fn longer_windows_show_more(
    wide: ChainReviewWindow,
    narrow: ChainReviewWindow,
    state: ChangeState,
    from: int,
    later: int,
    name: Seq<char>,
)
    requires
        0 <= from <= later <= state.patchsets@.len(),
        shows(wide, state, from),
        shows(narrow, state, later),
    ensures
        narrow.verdicts <= wide.verdicts,
        narrow.findings <= wide.findings,
        narrow.ad_hoc_verifications <= wide.ad_hoc_verifications,
        among(narrow.identities@, name) ==> among(wide.identities@, name),
{
    assert forall|id: Seq<char>| #[trigger] patchset_since(state, later, id) implies patchset_since(
        state,
        from,
        id,
    ) by {
        let k = choose|k: int|
            later <= k < state.patchsets@.len() && #[trigger] state.patchsets@[k].id@ == id;
        assert(state.patchsets@[k].id@ == id);
    }
    assert forall|revision: Seq<char>| #[trigger]
        head_since(state, later, revision) implies head_since(state, from, revision) by {
        let k = choose|k: int|
            later <= k < state.patchsets@.len() && #[trigger] state.patchsets@[k].head@ == revision;
        assert(state.patchsets@[k].head@ == revision);
    }
    lemma_count_implies(state.verdicts@, verdict_since(state, later), verdict_since(state, from));
    lemma_count_implies(state.findings@, finding_since(state, later), finding_since(state, from));
    lemma_count_implies(
        state.verifications@,
        ad_hoc_since(state, later),
        ad_hoc_since(state, from),
    );
    if among(narrow.identities@, name) {
        assert(judged_since(state, later, name));
        let i = choose|i: int|
            0 <= i < state.verdicts@.len() && verdict_since(state, later)(state.verdicts@[i])
                && verdict_identity(#[trigger] state.verdicts@[i]) == name;
        assert(verdict_since(state, from)(state.verdicts@[i]));
        assert(judged_since(state, from, name));
    }
}

proof fn lemma_count_implies<T>(items: Seq<T>, a: spec_fn(T) -> bool, b: spec_fn(T) -> bool)
    requires
        forall|x: T| #[trigger] a(x) ==> b(x),
    ensures
        count(items, a) <= count(items, b),
    decreases items.len(),
{
    if items.len() > 0 {
        lemma_count_implies(items.drop_last(), a, b);
    }
}

/// A verdict on the latest patchset counts at the end, and is somebody else's exactly where it is
/// not the subject's.
pub proof fn verdicts_on_the_last_patchset_count(
    review: ChainReview,
    state: ChangeState,
    debt_outstanding: bool,
    i: int,
)
    requires
        reviews(review, state, debt_outstanding),
        state.patchsets@.len() > 0,
        0 <= i < state.verdicts@.len(),
        state.verdicts@[i].patchset_id@ == state.patchsets@.last().id@,
    ensures
        among(
            review.at_final.identities@,
            match state.verdicts@[i].on_behalf_of {
                Some(name) => name@,
                None => state.verdicts@[i].actor@,
            },
        ),
        !review.non_self_verdict ==> (match state.verdicts@[i].on_behalf_of {
            Some(name) => name@,
            None => state.verdicts@[i].actor@,
        }) == (match state.patchsets@.last().on_behalf_of {
            Some(name) => name@,
            None => state.patchsets@.last().actor@,
        }),
        review.debt_outstanding == debt_outstanding,
{
    let last = state.patchsets@.len() - 1;
    let name = verdict_identity(state.verdicts@[i]);
    assert(state.patchsets@[last].id@ == state.verdicts@[i].patchset_id@);
    assert(patchset_since(state, last, state.verdicts@[i].patchset_id@));
    assert(patchset_since(state, 0, state.verdicts@[i].patchset_id@));
    assert(judged_since(state, last, name));
    assert(judged_since(state, 0, name));
}

/// The plans of a chain are each named once, and only the last is current.
pub proof fn one_plan_is_current(shown: Seq<ChainPlan>, plans: Seq<PlanView>, i: int)
    requires
        shows_plans(shown, plans),
        0 <= i < shown.len(),
    ensures
        shown[i].current <==> i == shown.len() - 1,
{
}

proof fn lemma_firsts(texts: Seq<Seq<char>>, x: Seq<char>)
    ensures
        firsts(texts).contains(x) <==> texts.contains(x),
        firsts(texts).no_duplicates(),
    decreases texts.len(),
{
    if texts.len() > 0 {
        let rest = texts.drop_last();
        lemma_firsts(rest, x);
        lemma_firsts(rest, texts.last());
        let kept = firsts(rest);
        if texts.contains(x) {
            let i = choose|i: int| 0 <= i < texts.len() && texts[i] == x;
            if i < texts.len() - 1 {
                assert(rest[i] == x);
                let k = choose|k: int| 0 <= k < kept.len() && kept[k] == x;
                assert(firsts(texts)[k] == x);
            } else if !kept.contains(x) {
                assert(firsts(texts)[kept.len() as int] == x);
            }
        }
        if firsts(texts).contains(x) {
            let k = choose|k: int| 0 <= k < firsts(texts).len() && firsts(texts)[k] == x;
            if k < kept.len() {
                assert(kept[k] == x);
                let i = choose|i: int| 0 <= i < rest.len() && rest[i] == x;
                assert(texts[i] == x);
            } else {
                assert(texts[texts.len() - 1] == x);
            }
        }
    }
}

/// Every plan that a change of the chain names is shown, once.
pub proof fn every_named_plan_is_shown(
    shown: Seq<ChainPlan>,
    plans: Seq<PlanView>,
    i: usize,
)
    requires
        shows_plans(shown, plans),
        i < plans.len(),
    ensures
        exists|k: int|
            0 <= k < shown.len() && (#[trigger] shown[k]).plan_ref@ == plans[i as int].plan_ref,
        plan_texts(shown).no_duplicates(),
{
    let order = choose|order: Seq<usize>| #[trigger]
        plan_order(plans, order) && plan_texts(shown) == firsts(refs_in(plans, order));
    let x = plans[i as int].plan_ref;
    assert(order.contains(i));
    let m = choose|m: int| 0 <= m < order.len() && order[m] == i;
    assert(refs_in(plans, order)[m] == x);
    lemma_firsts(refs_in(plans, order), x);
    let k = choose|k: int| 0 <= k < plan_texts(shown).len() && plan_texts(shown)[k] == x;
    assert(shown[k].plan_ref@ == x);
}

/// An entry of a chain says what the change says, and how it was reviewed exactly where that was
/// asked for.
pub proof fn members_say_what_they_are(
    member: ChainMember,
    state: ChangeState,
    review: bool,
    debt_outstanding: bool,
)
    requires
        represents(member, state, review, debt_outstanding),
    ensures
        member.change_id@ == state.change_id@,
        member.title@ == state.title@,
        member.state@ == "closed"@ ==> state.closure is Some,
        member.state@ == "open"@ ==> state.closure is None,
        member.review is Some <==> review,
        state.briefs@.len() == 0 ==> member.plan_ref is None,
        state.briefs@.len() > 0 && state.briefs@.last().plan_ref is Some ==> member.plan_ref is Some
            && member.plan_ref->0@ == state.briefs@.last().plan_ref->0@,
{
    reveal_strlit("closed");
    reveal_strlit("open");
    assert("closed"@.len() == 6 && "open"@.len() == 4);
}

} // verus!
