//! Checking, holding and closing a change, and what is kept of it afterwards.
use crate::dependency::{carries, carries_tags};
use crate::event::Payload;
use crate::input::{all_tags, first_invalid, is_tag, normalize_tags, tagged};
use crate::integrate::target_of;
use crate::model::Closure;
use crate::order::{chosen, ints, lemma_chosen, lemma_ints_contain};
use crate::state::{ChangeState, StatusReport};
use crate::table::listed;
use crate::text::{among, begins, contains, opt_view, same, starts_with, trimmed, views};
use vstd::prelude::*;

verus! {

/// The format of a check that is written as JSON.
pub const CHECK_SCHEMA: &'static str = "arc-check/3";

/// Why no check is made.
#[derive(Debug)]
pub enum CheckRefusal {
    ChangeAndTags,
    Nothing,
    InvalidTag { tag: String },
}

/// Whether one change is checked, or every change that carries some tags.
#[derive(Debug)]
pub enum CheckRequest {
    One,
    Tagged { tags: Vec<String> },
}

/// Whether `r` says what is checked, or why nothing is.
pub open spec fn selects_check(
    reference: Option<&str>,
    tags: &Vec<String>,
    r: Result< CheckRequest, CheckRefusal, >,
) -> bool {
    match r {
            Ok(CheckRequest::One) => reference is Some && tags@.len() == 0,
            Ok(CheckRequest::Tagged { tags: t }) => reference is None && tags@.len() > 0
                && all_tags(tags@) && views(t@) == listed(tagged(tags@)),
            Err(CheckRefusal::ChangeAndTags) => reference is Some && tags@.len() > 0,
            Err(CheckRefusal::Nothing) => reference is None && tags@.len() == 0,
            Err(CheckRefusal::InvalidTag { tag }) => reference is None && tags@.len() > 0
                && first_invalid(tags@, tag@),
        }
}

/// What is asked to be checked, or why that is refused.
pub fn check_selection(reference: Option<&str>, tags: &Vec<String>) -> (r: Result<
    CheckRequest,
    CheckRefusal,
>)
    ensures
        selects_check(reference, tags, r),
{
    match (reference, tags.len() == 0) {
        (Some(_), true) => Ok(CheckRequest::One),
        (Some(_), false) => Err(CheckRefusal::ChangeAndTags),
        (None, true) => Err(CheckRefusal::Nothing),
        (None, false) => match normalize_tags(tags) {
            Ok(tags) => Ok(CheckRequest::Tagged { tags }),
            Err(invalid) => Err(CheckRefusal::InvalidTag { tag: invalid.tag }),
        },
    }
}

/// What a check of one change comes to.
#[derive(Clone, Copy, Debug, PartialEq, Eq, Structural)]
pub struct CheckOutcome {
    pub exit_code: i32,
    pub ready: bool,
    /// Whether the queue of reviews is shown beside it: the change waits to join it.
    pub shows_review_queue: bool,
}

/// What a check of one change comes to.
pub fn check(report: &StatusReport) -> (r: CheckOutcome)
    ensures
        r.exit_code == report.exit_code,
        r.ready == report.integrate_ready,
        r.shows_review_queue == (report.next_action@ == "request_review"@),
{
    CheckOutcome {
        exit_code: report.exit_code,
        ready: report.integrate_ready,
        shows_review_queue: same(report.next_action.as_str(), "request_review"),
    }
}

/// Whether a change counts in the check of some tags: it carries them and is open.
pub open spec fn checked(state: ChangeState, tags: Seq<String>) -> bool {
    carries(state, tags) && state.closure is None
}

/// Whether `r` is the exit code of the check of every change that carries some tags.
pub open spec fn checks_tagged(
    changes: &Vec<ChangeState>,
    tags: &Vec<String>,
    codes: &Vec<i32>,
    r: Option< i32, >,
) -> bool {
    match r {
            Some(code) => (exists|i: int|
                0 <= i < changes@.len() && carries(#[trigger] changes@[i], tags@)) && (if code == 0 {
                forall|i: int|
                    0 <= i < changes@.len() && checked(#[trigger] changes@[i], tags@) ==> codes@[i]
                        == 0
            } else {
                exists|k: int|
                    0 <= k < changes@.len() && checked(#[trigger] changes@[k], tags@) && codes@[k]
                        == code && forall|i: int|
                        0 <= i < k && checked(#[trigger] changes@[i], tags@) ==> codes@[i] == 0
            }),
            None => forall|i: int|
                0 <= i < changes@.len() ==> !carries(#[trigger] changes@[i], tags@),
        }
}

/// The exit code of the check of every change that carries some tags: that of the first open one
/// that is blocked, or none where no change carries them. `codes` holds the exit code of the
/// check of each change.
pub fn check_tagged(changes: &Vec<ChangeState>, tags: &Vec<String>, codes: &Vec<i32>) -> (r: Option<
    i32,
>)
    requires
        codes@.len() == changes@.len(),
    ensures
        checks_tagged(changes, tags, codes, r),
{
    let mut found = false;
    let mut aggregate: i32 = 0;
    let ghost mut first: int = 0;
    let ghost mut witness: int = 0;
    for i in 0..changes.len()
        invariant
            codes@.len() == changes@.len(),
            found ==> 0 <= witness < i && carries(changes@[witness], tags@),
            !found ==> forall|k: int| 0 <= k < i ==> !carries(#[trigger] changes@[k], tags@),
            aggregate == 0 ==> forall|k: int|
                0 <= k < i && checked(#[trigger] changes@[k], tags@) ==> codes@[k] == 0,
            aggregate != 0 ==> found && 0 <= first < i && checked(changes@[first], tags@)
                && codes@[first] == aggregate && forall|k: int|
                0 <= k < first && checked(#[trigger] changes@[k], tags@) ==> codes@[k] == 0,
    {
        if carries_tags(&changes[i], tags) {
            found = true;
            proof {
                witness = i as int;
            }
            if !changes[i].is_closed() && codes[i] != 0 && aggregate == 0 {
                aggregate = codes[i];
                proof {
                    first = i as int;
                }
            }
        }
    }
    if found {
        assert(carries(changes@[witness], tags@));
        if aggregate != 0 {
            assert(checked(changes@[first], tags@));
        }
        Some(aggregate)
    } else {
        None
    }
}

/// The check of some tags does not look at what is closed: it comes to no code exactly where no
/// change carries the tags, and to zero exactly where no open one that does is blocked; else to the
/// code of the first that is.
pub proof fn tagged_checks_pass_over_closed_changes(
    changes: &Vec<ChangeState>,
    tags: &Vec<String>,
    codes: &Vec<i32>,
    k: int,
    r: Option<i32>,
)
    requires
        checks_tagged(changes, tags, codes, r),
        codes@.len() == changes@.len(),
        0 <= k < changes@.len(),
        carries(changes@[k], tags@),
    ensures
        r is Some,
        (forall|i: int|
            0 <= i < changes@.len() && carries(#[trigger] changes@[i], tags@)
                ==> changes@[i].closure is Some) ==> r == Some(0i32),
        changes@[k].closure is None && codes@[k] != 0 && (forall|i: int|
            0 <= i < k && carries(#[trigger] changes@[i], tags@) ==> changes@[i].closure is Some
                || codes@[i] == 0) ==> r == Some(codes@[k]),
{
    assert(carries(changes@[k], tags@));
    let code = r->0;
    if code != 0 {
        let m = choose|m: int|
            0 <= m < changes@.len() && checked(#[trigger] changes@[m], tags@) && codes@[m] == code
                && forall|i: int|
                0 <= i < m && checked(#[trigger] changes@[i], tags@) ==> codes@[i] == 0;
        assert(carries(changes@[m], tags@) && changes@[m].closure is None);
        if changes@[k].closure is None && codes@[k] != 0 && k < m {
            assert(checked(changes@[k], tags@));
        }
    } else if changes@[k].closure is None {
        assert(checked(changes@[k], tags@));
    }
}

/// How a change is to be closed.
pub struct CloseArgs {
    pub assert_integrated: Option<String>,
    pub patchset: Option<String>,
    pub into: Option<String>,
    pub target_before: Option<String>,
    pub abandoned: bool,
    pub superseded_by: Option<String>,
}

/// Why a change is not closed.
#[derive(Clone, Copy, Debug, PartialEq, Eq, Structural)]
pub enum CloseRefusal {
    AlreadyClosed,
    PatchsetNeedsAssertion,
    IntoNeedsAssertion,
    TargetBeforeNeedsAssertion,
    NotExactlyOne,
}

/// How a change is closed.
#[derive(Clone, Copy, Debug, PartialEq, Eq, Structural)]
pub enum CloseRequest {
    AssertIntegrated,
    Abandon,
    Supersede,
}

/// How a change is closed, or why it is not: an open change, in exactly one way, and what
/// describes an asserted integration only with one.
pub open spec fn close_request(state: ChangeState, args: CloseArgs) -> Result<
    CloseRequest,
    CloseRefusal,
> {
    if state.closure is Some {
        Err(CloseRefusal::AlreadyClosed)
    } else if args.patchset is Some && args.assert_integrated is None {
        Err(CloseRefusal::PatchsetNeedsAssertion)
    } else if args.into is Some && args.assert_integrated is None {
        Err(CloseRefusal::IntoNeedsAssertion)
    } else if args.target_before is Some && args.assert_integrated is None {
        Err(CloseRefusal::TargetBeforeNeedsAssertion)
    } else if args.assert_integrated is Some && !args.abandoned && args.superseded_by is None {
        Ok(CloseRequest::AssertIntegrated)
    } else if args.assert_integrated is None && args.abandoned && args.superseded_by is None {
        Ok(CloseRequest::Abandon)
    } else if args.assert_integrated is None && !args.abandoned && args.superseded_by is Some {
        Ok(CloseRequest::Supersede)
    } else {
        Err(CloseRefusal::NotExactlyOne)
    }
}

/// A change is closed once, and only in the one way that was asked for; what describes an asserted
/// integration is not given for anything else.
pub proof fn changes_close_as_asked(state: ChangeState, args: CloseArgs)
    ensures
        state.closure is Some ==> close_request(state, args) == Err::<CloseRequest, CloseRefusal>(
            CloseRefusal::AlreadyClosed,
        ),
        close_request(state, args) == Ok::<CloseRequest, CloseRefusal>(CloseRequest::Abandon)
            <==> state.closure is None && args.abandoned && args.superseded_by is None
            && args.assert_integrated is None && args.patchset is None && args.into is None
            && args.target_before is None,
        close_request(state, args) == Ok::<CloseRequest, CloseRefusal>(CloseRequest::Supersede)
            <==> state.closure is None && args.superseded_by is Some && !args.abandoned
            && args.assert_integrated is None && args.patchset is None && args.into is None
            && args.target_before is None,
        close_request(state, args) == Ok::<CloseRequest, CloseRefusal>(
            CloseRequest::AssertIntegrated,
        ) <==> state.closure is None && args.assert_integrated is Some && !args.abandoned
            && args.superseded_by is None,
{
}

/// How a change is closed, or why it is not.
pub fn close(state: &ChangeState, args: &CloseArgs) -> (r: Result<CloseRequest, CloseRefusal>)
    ensures
        r == close_request(*state, *args),
{
    if state.is_closed() {
        return Err(CloseRefusal::AlreadyClosed);
    }
    if args.patchset.is_some() && args.assert_integrated.is_none() {
        return Err(CloseRefusal::PatchsetNeedsAssertion);
    }
    if args.into.is_some() && args.assert_integrated.is_none() {
        return Err(CloseRefusal::IntoNeedsAssertion);
    }
    if args.target_before.is_some() && args.assert_integrated.is_none() {
        return Err(CloseRefusal::TargetBeforeNeedsAssertion);
    }
    match (args.assert_integrated.is_some(), args.abandoned, args.superseded_by.is_some()) {
        (true, false, false) => Ok(CloseRequest::AssertIntegrated),
        (false, true, false) => Ok(CloseRequest::Abandon),
        (false, false, true) => Ok(CloseRequest::Supersede),
        _ => Err(CloseRefusal::NotExactlyOne),
    }
}

/// Why an integration is not asserted.
#[derive(Clone, Copy, Debug, PartialEq, Eq, Structural)]
pub enum AssertionRefusal {
    NotAPatchset,
    NoPatchset,
    TargetIsNoBranch,
    HeadNotContained,
    NotOnTarget,
    /// A merge says itself where its target stood.
    MergeKnowsItsBase,
}

/// Whether the first patchset of this identity is at `k`.
pub open spec fn patchset_at(state: ChangeState, id: Seq<char>, k: int) -> bool {
    &&& 0 <= k < state.patchsets@.len()
    &&& state.patchsets@[k].id@ == id
    &&& forall|j: int| 0 <= j < k ==> (#[trigger] state.patchsets@[j]).id@ != id
}

/// Whether `r` is the patchset that an assertion is about.
pub open spec fn is_asserted(
    state: &ChangeState,
    named: &Option<String>,
    r: Result< usize, AssertionRefusal, >,
) -> bool {
    match r {
            Ok(k) => match *named {
                Some(id) => patchset_at(*state, id@, k as int),
                None => state.patchsets@.len() > 0 && k == state.patchsets@.len() - 1,
            },
            Err(AssertionRefusal::NotAPatchset) => named is Some && forall|j: int|
                0 <= j < state.patchsets@.len() ==> (#[trigger] state.patchsets@[j]).id@
                    != named->0@,
            Err(AssertionRefusal::NoPatchset) => named is None && state.patchsets@.len() == 0,
            Err(_) => false,
        }
}

/// The patchset that an assertion is about: the named one, or else the latest.
pub fn asserted_patchset(state: &ChangeState, named: &Option<String>) -> (r: Result<
    usize,
    AssertionRefusal,
>)
    ensures
        is_asserted(state, named, r),
{
    match named {
        Some(id) => {
            let all = &state.patchsets;
            for k in 0..all.len()
                invariant
                    all@ == state.patchsets@,
                    *named == Some(*id),
                    forall|j: int| 0 <= j < k ==> (#[trigger] state.patchsets@[j]).id@ != id@,
            {
                if same(all[k].id.as_str(), id.as_str()) {
                    return Ok(k);
                }
            }
            Err(AssertionRefusal::NotAPatchset)
        },
        None => if state.patchsets.len() == 0 {
            Err(AssertionRefusal::NoPatchset)
        } else {
            Ok(state.patchsets.len() - 1)
        },
    }
}

/// What the repository says of an asserted integration.
pub struct AssertionFacts {
    /// Whether the target is a branch.
    pub target_is_branch: bool,
    /// Whether the asserted commit contains the head of the patchset.
    pub contains_head: bool,
    /// Whether the asserted commit is on the target.
    pub on_target: bool,
    /// The parents of the asserted commit.
    pub parents: Vec<String>,
    /// The commit that the caller names as where the target stood.
    pub named_base: Option<String>,
}

/// Where the target stood before an asserted integration: for a merge its first parent, else what
/// the caller names.
pub open spec fn base_of(facts: AssertionFacts) -> Option<Seq<char>> {
    if facts.parents@.len() >= 2 {
        Some(facts.parents@[0]@)
    } else {
        opt_view(facts.named_base)
    }
}

/// Why the repository does not bear an assertion out, where it does not.
pub open spec fn assertion_refusal(facts: AssertionFacts) -> Option<AssertionRefusal> {
    if !facts.target_is_branch {
        Some(AssertionRefusal::TargetIsNoBranch)
    } else if !facts.contains_head {
        Some(AssertionRefusal::HeadNotContained)
    } else if !facts.on_target {
        Some(AssertionRefusal::NotOnTarget)
    } else if facts.named_base is Some && facts.parents@.len() >= 2 {
        Some(AssertionRefusal::MergeKnowsItsBase)
    } else {
        None
    }
}

/// An integration is asserted only where the repository bears it out: the target is a branch that
/// has the commit, and the commit has the head of the patchset. Only a commit that is no merge
/// leaves it to the caller where the target stood.
pub proof fn assertions_are_borne_out(facts: AssertionFacts)
    ensures
        assertion_refusal(facts) is None <==> facts.target_is_branch && facts.contains_head
            && facts.on_target && !(facts.named_base is Some && facts.parents@.len() >= 2),
        facts.parents@.len() >= 2 ==> base_of(facts) == Some(facts.parents@[0]@),
        facts.parents@.len() < 2 && facts.named_base is None ==> base_of(facts) is None,
        facts.parents@.len() < 2 && facts.named_base is Some ==> base_of(facts) == Some(
            facts.named_base->0@,
        ),
{
}

/// What records an asserted integration, or why the repository does not bear it out.
pub fn assert_integration(
    state: &ChangeState,
    patchset: usize,
    revision: &str,
    into: &Option<String>,
    facts: &AssertionFacts,
) -> (r: Result<Payload, AssertionRefusal>)
    requires
        patchset < state.patchsets@.len(),
    ensures
        match r {
            Ok(Payload::IntegrationAsserted {
                integrated_commit,
                source_patchset_id,
                source_head,
                target_branch,
                target_before,
            }) => {
                &&& assertion_refusal(*facts) is None
                &&& integrated_commit@ == revision@
                &&& source_patchset_id@ == state.patchsets@[patchset as int].id@
                &&& source_head@ == state.patchsets@[patchset as int].head@
                &&& target_branch@ == target_of(*state, opt_view(*into))
                &&& opt_view(target_before) == base_of(*facts)
            },
            Ok(_) => false,
            Err(refusal) => assertion_refusal(*facts) == Some(refusal),
        },
{
    if !facts.target_is_branch {
        return Err(AssertionRefusal::TargetIsNoBranch);
    }
    if !facts.contains_head {
        return Err(AssertionRefusal::HeadNotContained);
    }
    if !facts.on_target {
        return Err(AssertionRefusal::NotOnTarget);
    }
    let target_before = if facts.parents.len() >= 2 {
        if facts.named_base.is_some() {
            return Err(AssertionRefusal::MergeKnowsItsBase);
        }
        Some(facts.parents[0].clone())
    } else {
        facts.named_base.clone()
    };
    let target_branch = match into {
        Some(branch) => branch.clone(),
        None => state.target_branch.clone(),
    };
    Ok(
        Payload::IntegrationAsserted {
            integrated_commit: revision.to_string(),
            source_patchset_id: state.patchsets[patchset].id.clone(),
            source_head: state.patchsets[patchset].head.clone(),
            target_branch,
            target_before,
        },
    )
}

/// Whether a payload records that a change is closed without being integrated.
pub open spec fn closes_unmerged(
    superseded_by: Option<String>,
    r: Payload,
) -> bool {
    r == (Payload::ChangeClosed {
            outcome: if superseded_by is Some {
                Closure::Superseded
            } else {
                Closure::Abandoned
            },
            integrated_commit: None,
            superseded_by,
        })
}

/// What records that a change is closed without being integrated: superseded by another change,
/// or abandoned.
pub fn closing_payload(superseded_by: Option<String>) -> (r: Payload)
    ensures
        closes_unmerged(superseded_by, r),
{
    let outcome = if superseded_by.is_some() {
        Closure::Superseded
    } else {
        Closure::Abandoned
    };
    Payload::ChangeClosed { outcome, integrated_commit: None, superseded_by }
}

/// A change that is closed without a merge is abandoned or superseded, never integrated, and it is
/// superseded exactly where another change takes its place.
pub proof fn unmerged_changes_close_unmerged(superseded_by: Option<String>, r: Payload)
    requires
        closes_unmerged(superseded_by, r),
    ensures
        r matches Payload::ChangeClosed { outcome, integrated_commit, superseded_by: by }
            && integrated_commit is None && by == superseded_by && (outcome == Closure::Superseded
            <==> superseded_by is Some) && (outcome == Closure::Abandoned <==> superseded_by is None),
{
}

/// Why no hold is released.
#[derive(Clone, Copy, Debug, PartialEq, Eq, Structural)]
pub enum HoldRefusal {
    NoActiveHold,
    EmptyReference,
    NotActive,
    Ambiguous { matches: usize },
}

/// The positions of the holds whose event begins with a reference.
pub open spec fn holds_named(state: ChangeState, reference: Seq<char>) -> Seq<int> {
    chosen(state.holds@.len(), |i: int| begins(state.holds@[i].hold_event_id@, reference))
}

/// Whether `r` is the hold that a reference means.
pub open spec fn resolves_hold(
    state: &ChangeState,
    reference: &str,
    r: Result<usize, HoldRefusal>,
) -> bool {
    match r {
            Ok(k) => reference@.len() > 0 && k < state.holds@.len() && holds_named(
                *state,
                reference@,
            ) == seq![k as int],
            Err(HoldRefusal::EmptyReference) => reference@.len() == 0,
            Err(HoldRefusal::NotActive) => reference@.len() > 0 && holds_named(
                *state,
                reference@,
            ).len() == 0,
            Err(HoldRefusal::Ambiguous { matches }) => reference@.len() > 0 && matches > 1
                && holds_named(*state, reference@).len() == matches,
            Err(HoldRefusal::NoActiveHold) => false,
        }
}

/// The hold that a reference names: the only one whose event begins with it.
pub fn resolve_hold(state: &ChangeState, reference: &str) -> (r: Result<usize, HoldRefusal>)
    ensures
        resolves_hold(state, reference, r),
{
    if reference.is_empty() {
        return Err(HoldRefusal::EmptyReference);
    }
    let holds = &state.holds;
    let mut matching: Vec<usize> = Vec::new();
    for i in 0..holds.len()
        invariant
            holds@ == state.holds@,
            ints(matching@) == chosen(
                i as nat,
                |k: int| begins(state.holds@[k].hold_event_id@, reference@),
            ),
            forall|k: int| 0 <= k < matching@.len() ==> #[trigger] matching@[k] < i,
    {
        let ghost before = ints(matching@);
        if starts_with(holds[i].hold_event_id.as_str(), reference) {
            matching.push(i);
            assert(ints(matching@) =~= before.push(i as int));
        }
    }
    assert(ints(matching@).len() == matching@.len());
    if matching.len() == 0 {
        return Err(HoldRefusal::NotActive);
    }
    if matching.len() > 1 {
        return Err(HoldRefusal::Ambiguous { matches: matching.len() });
    }
    assert(ints(matching@) =~= seq![matching@[0] as int]);
    Ok(matching[0])
}

/// The release of one hold.
#[derive(Debug)]
pub struct HoldRelease {
    pub hold_event_id: String,
    /// The number of holds that are still active.
    pub left: usize,
}

/// Whether `r` answers the release of the hold that a reference names.
pub open spec fn lifts_hold(
    state: &ChangeState,
    reference: &str,
    r: Result<HoldRelease, HoldRefusal>,
) -> bool {
    match r {
            Ok(release) => reference@.len() > 0 && exists|k: int|
                0 <= k < state.holds@.len() && holds_named(*state, reference@) == seq![k]
                    && release.hold_event_id@ == (#[trigger] state.holds@[k]).hold_event_id@
                    && release.left == state.holds@.len() - 1,
            Err(HoldRefusal::NoActiveHold) => state.holds@.len() == 0,
            Err(HoldRefusal::EmptyReference) => state.holds@.len() > 0 && reference@.len() == 0,
            Err(HoldRefusal::NotActive) => state.holds@.len() > 0 && reference@.len() > 0
                && holds_named(*state, reference@).len() == 0,
            Err(HoldRefusal::Ambiguous { matches }) => reference@.len() > 0 && matches > 1
                && holds_named(*state, reference@).len() == matches,
        }
}

/// The release of the hold that a reference names: it lifts that hold and no other.
pub fn release_hold(state: &ChangeState, reference: &str) -> (r: Result<HoldRelease, HoldRefusal>)
    ensures
        lifts_hold(state, reference, r),
{
    if state.holds.len() == 0 {
        return Err(HoldRefusal::NoActiveHold);
    }
    match resolve_hold(state, reference) {
        Ok(k) => {
            assert(state.holds@[k as int].hold_event_id@ == state.holds@[k as int].hold_event_id@);
            Ok(
                HoldRelease {
                    hold_event_id: state.holds[k].hold_event_id.clone(),
                    left: state.holds.len() - 1,
                },
            )
        },
        Err(refusal) => Err(refusal),
    }
}

/// The hold that is lifted is one of the change whose event begins with the reference, and the only
/// one; all others stay.
pub proof fn releases_lift_one_hold(
    state: &ChangeState,
    reference: &str,
    j: int,
    r: Result<HoldRelease, HoldRefusal>,
)
    requires
        lifts_hold(state, reference, r),
        0 <= j < state.holds@.len(),
        begins(state.holds@[j].hold_event_id@, reference@),
        reference@.len() > 0,
    ensures
        r matches Ok(release) ==> release.hold_event_id@ == state.holds@[j].hold_event_id@
            && release.left + 1 == state.holds@.len(),
        (forall|i: int|
            0 <= i < state.holds@.len() && i != j ==> !begins(
                (#[trigger] state.holds@[i]).hold_event_id@,
                reference@,
            )) ==> r is Ok,
        r is Err ==> (r->Err_0 matches HoldRefusal::Ambiguous { matches } && matches > 1),
{
    let wanted = |i: int| begins(state.holds@[i].hold_event_id@, reference@);
    lemma_chosen(state.holds@.len(), wanted);
    let named = holds_named(*state, reference@);
    assert(named =~= chosen(state.holds@.len(), wanted));
    assert(wanted(j));
    assert(named.contains(j));
    if let Ok(release) = r {
        let k = choose|k: int|
            0 <= k < state.holds@.len() && holds_named(*state, reference@) == seq![k]
                && release.hold_event_id@ == (#[trigger] state.holds@[k]).hold_event_id@
                && release.left == state.holds@.len() - 1;
        assert(named[0] == k);
    }
    if let Err(HoldRefusal::Ambiguous { matches }) = r {
        assert(wanted(named[0]) && wanted(named[1]));
        assert(named[0] < named[1]);
    }
}

/// Whether `r` are the retained heads that are let go when a change closes.
pub open spec fn lets_heads_go(
    integrated: bool,
    reachable: &Vec<bool>,
    r: Vec<usize>,
) -> bool {
    ints(r@) == chosen(reachable@.len(), |i: int| integrated && reachable@[i])
}

/// The retained heads that are let go when a change closes: those reachable from the commit that
/// it was integrated as. Without one everything stays.
pub fn release_retention_refs(integrated: bool, reachable: &Vec<bool>) -> (r: Vec<usize>)
    ensures
        lets_heads_go(integrated, reachable, r),
{
    let mut out: Vec<usize> = Vec::new();
    for i in 0..reachable.len()
        invariant
            ints(out@) == chosen(i as nat, |k: int| integrated && reachable@[k]),
    {
        let ghost before = ints(out@);
        if integrated && reachable[i] {
            out.push(i);
            assert(ints(out@) =~= before.push(i as int));
        }
    }
    out
}

/// Whether `r` are the retained trees that are let go when a change closes.
pub open spec fn lets_trees_go(
    trees: &Vec<String>,
    reachable: &Vec<String>,
    r: Vec<usize>,
) -> bool {
    ints(r@) == chosen(trees@.len(), |i: int| among(reachable@, trees@[i]@))
}

/// The retained trees that are let go when a change closes: those among the objects reachable
/// from the commit that it was integrated as.
pub fn release_retained_trees(trees: &Vec<String>, reachable: &Vec<String>) -> (r: Vec<usize>)
    ensures
        lets_trees_go(trees, reachable, r),
{
    let mut out: Vec<usize> = Vec::new();
    for i in 0..trees.len()
        invariant
            ints(out@) == chosen(i as nat, |k: int| among(reachable@, trees@[k]@)),
    {
        let ghost before = ints(out@);
        if contains(reachable, trees[i].as_str()) {
            out.push(i);
            assert(ints(out@) =~= before.push(i as int));
        }
    }
    out
}

/// What a closed change leaves unreachable stays retained: nothing is let go without a commit
/// that it was integrated as.
pub proof fn abandoned_work_stays_retained(integrated: bool, reachable: Seq<bool>)
    requires
        !integrated,
    ensures
        chosen(reachable.len(), |i: int| integrated && reachable[i]) == Seq::<int>::empty(),
{
    lemma_none_chosen(reachable.len(), |i: int| integrated && reachable[i]);
}

proof fn lemma_none_chosen(n: nat, wanted: spec_fn(int) -> bool)
    requires
        forall|i: int| !#[trigger] wanted(i),
    ensures
        chosen(n, wanted) == Seq::<int>::empty(),
    decreases n,
{
    if n > 0 {
        lemma_none_chosen((n - 1) as nat, wanted);
        assert(!wanted(n - 1));
    }
}

/// A retained head is let go exactly where the change was integrated and the head is reachable from
/// the commit that it was integrated as: what is not reachable stays.
pub proof fn unreachable_heads_stay(
    integrated: bool,
    reachable: &Vec<bool>,
    i: usize,
    r: Vec<usize>,
)
    requires
        lets_heads_go(integrated, reachable, r),
        i < reachable@.len(),
    ensures
        r@.contains(i) <==> integrated && reachable@[i as int],
{
    let wanted = |k: int| integrated && reachable@[k];
    lemma_chosen(reachable@.len(), wanted);
    lemma_ints_contain(r@, i);
    assert(chosen(reachable@.len(), wanted).contains(i as int) <==> wanted(i as int));
}

/// A retained tree is let go exactly where it is among the objects that are reachable.
pub proof fn unreachable_trees_stay(
    trees: &Vec<String>,
    reachable: &Vec<String>,
    i: usize,
    r: Vec<usize>,
)
    requires
        lets_trees_go(trees, reachable, r),
        i < trees@.len(),
    ensures
        r@.contains(i) <==> exists|k: int|
            0 <= k < reachable@.len() && (#[trigger] reachable@[k])@ == trees@[i as int]@,
{
    let wanted = |k: int| among(reachable@, trees@[k]@);
    lemma_chosen(trees@.len(), wanted);
    lemma_ints_contain(r@, i);
    assert(chosen(trees@.len(), wanted).contains(i as int) <==> wanted(i as int));
}

/// One change is checked, or all that carry some tags, and never both or neither.
pub proof fn checks_have_one_subject(
    reference: Option<&str>,
    tags: &Vec<String>,
    r: Result<CheckRequest, CheckRefusal>,
)
    requires
        selects_check(reference, tags, r),
    ensures
        r matches Ok(CheckRequest::One) <==> reference is Some && tags@.len() == 0,
        r is Ok ==> reference is Some != (tags@.len() > 0),
        reference is None && tags@.len() > 0 && all_tags(tags@) ==> (r matches Ok(
            CheckRequest::Tagged { .. },
        )),
{
    if let Err(CheckRefusal::InvalidTag { tag }) = r {
        let i = choose|i: int|
            {
                &&& 0 <= i < tags@.len()
                &&& tag@ == trimmed((#[trigger] tags@[i])@)
                &&& !is_tag(tag@)
                &&& forall|k: int| 0 <= k < i ==> is_tag(trimmed((#[trigger] tags@[k])@))
            };
        assert(!is_tag(trimmed(tags@[i]@)));
    }
}

/// An assertion is about the patchset that it names, or else about the last; one that names none of
/// the change's is refused.
pub proof fn assertions_name_a_patchset(
    state: &ChangeState,
    named: &Option<String>,
    r: Result<usize, AssertionRefusal>,
)
    requires
        is_asserted(state, named, r),
    ensures
        named is None ==> (r is Ok <==> state.patchsets@.len() > 0),
        named is None && r is Ok ==> r->Ok_0 + 1 == state.patchsets@.len(),
        *named matches Some(id) ==> (r is Ok <==> exists|k: int|
            0 <= k < state.patchsets@.len() && (#[trigger] state.patchsets@[k]).id@ == id@),
        *named matches Some(id) ==> (r matches Ok(k) ==> k < state.patchsets@.len()
            && state.patchsets@[k as int].id@ == id@),
{
}

/// A hold is released by what its event begins with, where that is said and no other's does.
pub proof fn holds_are_released_by_name(
    state: &ChangeState,
    reference: &str,
    i: int,
    r: Result<usize, HoldRefusal>,
)
    requires
        resolves_hold(state, reference, r),
        0 <= i < state.holds@.len(),
        reference@.len() > 0,
        begins(state.holds@[i].hold_event_id@, reference@),
    ensures
        r matches Ok(k) ==> k == i,
        (forall|j: int|
            0 <= j < state.holds@.len() && j != i ==> !begins(
                (#[trigger] state.holds@[j]).hold_event_id@,
                reference@,
            )) ==> r is Ok,
        r != Err::<usize, HoldRefusal>(HoldRefusal::NotActive),
{
    let wanted = |i: int| begins(state.holds@[i].hold_event_id@, reference@);
    lemma_chosen(state.holds@.len(), wanted);
    let found = holds_named(*state, reference@);
    assert(found =~= chosen(state.holds@.len(), wanted));
    assert(wanted(i));
    assert(found.contains(i));
    if r is Ok {
        assert(found[0] == r->Ok_0);
    }
    if forall|j: int|
        0 <= j < state.holds@.len() && j != i ==> !begins(
            (#[trigger] state.holds@[j]).hold_event_id@,
            reference@,
        ) {
        if found.len() > 1 {
            assert(found.contains(found[0]) && found.contains(found[1]));
            assert(wanted(found[0]) && wanted(found[1]));
            assert(found[0] < found[1]);
        }
    }
}

} // verus!
