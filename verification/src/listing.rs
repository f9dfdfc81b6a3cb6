//! Which changes are listed, and how each reads in a list.
use crate::begin::{ends_line, terminated};
use crate::closing::{check_selection, patchset_at, CheckRefusal, CheckRequest};
use crate::dependency::{
    alternatives, blocked, carries, carries_tags, dependency_status, find_unblocked_changes,
    satisfied, ArcAlternative,
};
use crate::event::Event;
use crate::input::{all_tags, first_invalid, normalize_tags, tagged};
use crate::json::{
    as_text, compact_bytes, empty_object, json_view, no_members, pretty_bytes, put_member, put_text,
    put_texts, text_view, texts_view, whole_value, write_compact, write_pretty, JsonView,
};
use crate::metadata::{normal_tags, normal_tags_are_the_tags};
use crate::model::{Closure, Verdict};
use crate::order::{chosen, count, ints, lemma_chosen, lemma_ints_contain};
use crate::review::find_patchset;
use crate::state::{
    at, known, ledger, outcome, ChangeState, ClaimTiming, FindingState, StatusReport,
};
use crate::table::listed;
use crate::text::{
    among, begins, char_count, chars_of, decimal, decimal_of, lines, lines_of, opt_view, same, signed,
    signed_of, starts_with, text_between, trim, trimmed, views,
};
use crate::wrap::{make_spaces, spaces};
use vstd::prelude::*;

verus! {

/// The status of a change.
pub open spec fn status_text(state: ChangeState) -> Seq<char> {
    match outcome(state) {
        Some(Closure::Integrated) => "integrated"@,
        Some(Closure::Abandoned) => "abandoned"@,
        Some(Closure::Superseded) => "superseded"@,
        None => "open"@,
    }
}

/// The status of a change.
pub fn change_status(state: &ChangeState) -> (r: &'static str)
    ensures
        r@ == status_text(*state),
{
    match &state.closure {
        Some(closure) => match closure.outcome {
            Closure::Integrated => "integrated",
            Closure::Abandoned => "abandoned",
            Closure::Superseded => "superseded",
        },
        None => "open",
    }
}

/// Whether a change has a wanted status: closed is any that is not open.
pub open spec fn has_status(state: ChangeState, wanted: Seq<char>) -> bool {
    if wanted == "closed"@ {
        state.closure is Some
    } else {
        status_text(state) == wanted
    }
}

/// Whether a change has a wanted status.
pub fn status_matches(state: &ChangeState, wanted: &str) -> (r: bool)
    ensures
        r == has_status(*state, wanted@),
{
    if same(wanted, "closed") {
        state.is_closed()
    } else {
        same(change_status(state), wanted)
    }
}

/// The verdict on a change that has authority, in a word.
pub open spec fn verdict_word(state: ChangeState) -> Seq<char> {
    match state.authoritative() {
        Some(k) => match state.verdicts@[k].verdict {
            Verdict::Approved => "approved"@,
            Verdict::ChangesRequested => "changes-requested"@,
            Verdict::CommentOnly => "comment-only"@,
        },
        None => "none"@,
    }
}

/// The verdict on a change that has authority, in a word.
pub fn verdict_label(state: &ChangeState) -> (r: &'static str)
    ensures
        r@ == verdict_word(*state),
{
    match state.latest_verdict() {
        Some(k) => match state.verdicts[k].verdict {
            Verdict::Approved => "approved",
            Verdict::ChangesRequested => "changes-requested",
            Verdict::CommentOnly => "comment-only",
        },
        None => "none",
    }
}

/// Whether the first prerequisite of a change that is not met is at `k`.
pub open spec fn first_unmet(changes: Seq<ChangeState>, state: ChangeState, k: int) -> bool {
    &&& 0 <= k < state.blocked_by@.len()
    &&& !satisfied(changes, state.blocked_by@[k]@)
    &&& forall|j: int|
        0 <= j < k ==> satisfied(changes, (#[trigger] state.blocked_by@[j])@)
}

/// The slug of a prerequisite, or its identity where it is unknown.
pub open spec fn slug_of(changes: Seq<ChangeState>, id: Seq<char>) -> Seq<char> {
    if known(changes, id) {
        changes[at(changes, id)].slug@
    } else {
        id
    }
}

/// Whether a finding is open and blocks.
pub open spec fn blocks(finding: FindingState) -> bool {
    finding.blocking && finding.status is None
}

/// What keeps a change, in a word: a prerequisite, blocking findings, a hold or nothing.
pub open spec fn blocker_word(changes: Seq<ChangeState>, state: ChangeState, word: Seq<char>) -> bool {
    if blocked(changes, state) {
        exists|k: int| #[trigger]
            first_unmet(changes, state, k) && word == "blocked-by:"@ + slug_of(
                changes,
                state.blocked_by@[k]@,
            )
    } else {
        let n = count(state.findings@, |f: FindingState| blocks(f));
        word == (if n > 0 {
            decimal_of(n) + " findings"@
        } else if state.holds@.len() > 0 {
            "hold"@
        } else {
            "—"@
        })
    }
}

fn count_blocking(state: &ChangeState) -> (r: usize)
    ensures
        r == count(state.findings@, |f: FindingState| blocks(f)),
{
    let all = &state.findings;
    let ghost wanted = |f: FindingState| blocks(f);
    let mut n: usize = 0;
    assert(all@.take(0) =~= Seq::empty());
    for i in 0..all.len()
        invariant
            all@ == state.findings@,
            wanted == (|f: FindingState| blocks(f)),
            n == count(all@.take(i as int), wanted),
            n <= i,
    {
        assert(all@.take(i + 1).drop_last() =~= all@.take(i as int));
        if all[i].blocking && all[i].status.is_none() {
            n += 1;
        }
    }
    assert(all@.take(all@.len() as int) =~= all@);
    n
}

/// What keeps a change, in a word.
pub fn blocker_label(state: &ChangeState, changes: &Vec<ChangeState>) -> (r: String)
    requires
        ledger(changes@),
    ensures
        blocker_word(changes@, *state, r@),
{
    let status = dependency_status(state, changes);
    let all = &status.blockers_ready;
    for k in 0..all.len()
        invariant
            all@.len() == state.blocked_by@.len(),
            forall|j: int|
                0 <= j < state.blocked_by@.len() ==> (#[trigger] all@[j]).describes(
                    changes@,
                    state.blocked_by@[j]@,
                ),
            forall|j: int|
                0 <= j < k ==> satisfied(changes@, (#[trigger] state.blocked_by@[j])@),
    {
        assert(all@[k as int].describes(changes@, state.blocked_by@[k as int]@));
        if !all[k].integrated {
            let mut out = "blocked-by:".to_string();
            out.append(all[k].slug.as_str());
            proof {
                assert(first_unmet(changes@, *state, k as int));
                assert(!satisfied(changes@, state.blocked_by@[k as int]@));
                assert(blocked(changes@, *state));
            }
            return out;
        }
        assert(satisfied(changes@, state.blocked_by@[k as int]@));
    }
    assert(!blocked(changes@, *state));
    let blocking: usize = count_blocking(state);
    if blocking > 0 {
        let mut out = decimal(blocking as u64);
        out.append(" findings");
        return out;
    }
    if state.holds.len() > 0 {
        "hold".to_string()
    } else {
        "—".to_string()
    }
}

/// In which form changes are listed.
#[derive(Clone, Copy, Debug, PartialEq, Eq, Structural)]
pub enum ListFormat {
    Default,
    Wide,
    Compact,
    Json,
}

/// Whether `r` are the changes that are listed.
pub open spec fn lists_changes(
    changes: &Vec<ChangeState>,
    open_only: bool,
    r: Vec<usize>,
) -> bool {
    &&& ints(r@) == chosen(
            changes@.len(),
            |i: int| !open_only || changes@[i].closure is None,
        )
    &&& forall|k: int| 0 <= k < r@.len() ==> #[trigger] r@[k] < changes@.len()
}

/// The positions of the changes that are listed: all, or those that are open.
pub fn list(changes: &Vec<ChangeState>, open_only: bool) -> (r: Vec<usize>)
    ensures
        lists_changes(changes, open_only, r),
{
    let mut out: Vec<usize> = Vec::new();
    for i in 0..changes.len()
        invariant
            ints(out@) == chosen(i as nat, |k: int| !open_only || changes@[k].closure is None),
            forall|k: int| 0 <= k < out@.len() ==> #[trigger] out@[k] < i,
    {
        let ghost before = ints(out@);
        if !open_only || !changes[i].is_closed() {
            out.push(i);
            assert(ints(out@) =~= before.push(i as int));
        }
    }
    out
}

/// A text filled up with spaces on the right.
pub open spec fn padded_right(s: Seq<char>, width: nat) -> Seq<char> {
    if s.len() < width {
        s + spaces((width - s.len()) as nat)
    } else {
        s
    }
}

/// A text filled up with spaces on the left.
pub open spec fn padded_left(s: Seq<char>, width: nat) -> Seq<char> {
    if s.len() < width {
        spaces((width - s.len()) as nat) + s
    } else {
        s
    }
}

fn pad_right(text: &str, width: usize) -> (r: String)
    ensures
        r@ == padded_right(text@, width as nat),
{
    let held: usize = char_count(text);
    let mut out = text.to_string();
    if held < width {
        out.append(make_spaces(width - held).as_str());
    }
    out
}

fn pad_left(text: &str, width: usize) -> (r: String)
    ensures
        r@ == padded_left(text@, width as nat),
{
    let held: usize = char_count(text);
    if held < width {
        let mut out = make_spaces(width - held);
        out.append(text);
        out
    } else {
        text.to_string()
    }
}

/// One row of the wide list, under its header.
pub open spec fn wide_row(
    change: Seq<char>,
    priority: Seq<char>,
    status: Seq<char>,
    verdict: Seq<char>,
    blocker: Seq<char>,
    target: Seq<char>,
) -> Seq<char> {
    padded_right(change, 36) + " "@ + padded_left(priority, 8) + " "@ + padded_right(status, 12)
        + " "@ + padded_right(verdict, 18) + " "@ + padded_right(blocker, 24) + " "@ + target
        + "\n"@
}

fn write_wide_row(
    change: &str,
    priority: &str,
    status: &str,
    verdict: &str,
    blocker: &str,
    target: &str,
) -> (r: String)
    ensures
        r@ == wide_row(change@, priority@, status@, verdict@, blocker@, target@),
{
    let mut out = pad_right(change, 36);
    out.append(" ");
    out.append(pad_left(priority, 8).as_str());
    out.append(" ");
    out.append(pad_right(status, 12).as_str());
    out.append(" ");
    out.append(pad_right(verdict, 18).as_str());
    out.append(" ");
    out.append(pad_right(blocker, 24).as_str());
    out.append(" ");
    out.append(target);
    out.append("\n");
    out
}

/// The header of the wide list.
pub fn wide_header() -> (r: String)
    ensures
        r@ == wide_row("Change"@, "Priority"@, "Status"@, "Verdict"@, "Blocker"@, "Target"@),
{
    write_wide_row("Change", "Priority", "Status", "Verdict", "Blocker", "Target")
}

/// How one change reads in a list.
pub open spec fn row_reads(
    state: ChangeState,
    changes: Seq<ChangeState>,
    format: ListFormat,
    row: Seq<char>,
) -> bool {
    match format {
        ListFormat::Compact => row == state.change_id@ + "\n"@,
        ListFormat::Wide => exists|word: Seq<char>| #[trigger]
            blocker_word(changes, state, word) && row == wide_row(
                state.change_id@,
                signed_of(state.priority as int),
                status_text(state),
                verdict_word(state),
                word,
                state.target_branch@,
            ),
        _ => row == state.change_id@ + "  ["@ + status_text(state) + "] "@ + state.title@ + " ("@
            + state.branch@ + ")\n"@,
    }
}

/// How one change reads in a list.
pub fn list_row(state: &ChangeState, changes: &Vec<ChangeState>, format: ListFormat) -> (r: String)
    requires
        ledger(changes@),
    ensures
        row_reads(*state, changes@, format, r@),
{
    match format {
        ListFormat::Compact => {
            let mut out = state.change_id.clone();
            out.append("\n");
            out
        },
        ListFormat::Wide => {
            let blocker = blocker_label(state, changes);
            write_wide_row(
                state.change_id.as_str(),
                signed(state.priority).as_str(),
                change_status(state),
                verdict_label(state),
                blocker.as_str(),
                state.target_branch.as_str(),
            )
        },
        _ => {
            let mut out = state.change_id.clone();
            out.append("  [");
            out.append(change_status(state));
            out.append("] ");
            out.append(state.title.as_str());
            out.append(" (");
            out.append(state.branch.as_str());
            out.append(")\n");
            out
        },
    }
}

/// Which changes are asked for.
pub struct QueryArgs {
    pub status: Option<String>,
    pub target: Option<String>,
    pub tags: Vec<String>,
    pub verdict: Option<Verdict>,
    pub actor: Option<String>,
    pub harness: Option<String>,
    /// Only changes carrying an undischarged review obligation.
    pub audit_debt: bool,
    /// Only changes whose gating approval is still owed corroboration.
    pub provisional: bool,
    pub json: bool,
}

/// What a query learns of a change besides its state.
pub struct Obligations {
    pub audit_debt: bool,
    pub provisional: bool,
}

/// Whether a status can be asked for.
pub open spec fn is_status(wanted: Seq<char>) -> bool {
    wanted == "open"@ || wanted == "closed"@ || wanted == "integrated"@ || wanted == "abandoned"@
        || wanted == "superseded"@
}

/// Whether a change is one that is asked for.
pub open spec fn answers(
    state: ChangeState,
    owed: Obligations,
    args: QueryArgs,
    tags: Seq<String>,
) -> bool {
    &&& args.status is Some ==> has_status(state, args.status->0@)
    &&& args.target is Some ==> state.target_branch@ == args.target->0@
    &&& carries(state, tags)
    &&& args.verdict is Some ==> state.authoritative() is Some
        && state.verdicts@[state.authoritative()->0].verdict == args.verdict->0
    &&& args.actor is Some ==> state.opened_by@ == args.actor->0@
    &&& args.harness is Some ==> opt_view(state.opened_harness) == Some(args.harness->0@)
    &&& args.audit_debt ==> owed.audit_debt
    &&& args.provisional ==> owed.provisional
}

fn is_asked_for(
    state: &ChangeState,
    owed: &Obligations,
    args: &QueryArgs,
    tags: &Vec<String>,
) -> (r: bool)
    ensures
        r == answers(*state, *owed, *args, tags@),
{
    if let Some(wanted) = &args.status {
        if !status_matches(state, wanted.as_str()) {
            return false;
        }
    }
    if let Some(target) = &args.target {
        if !same(state.target_branch.as_str(), target.as_str()) {
            return false;
        }
    }
    if !carries_tags(state, tags) {
        return false;
    }
    if let Some(verdict) = args.verdict {
        match state.latest_verdict() {
            Some(k) => {
                if state.verdicts[k].verdict != verdict {
                    return false;
                }
            },
            None => {
                return false;
            },
        }
    }
    if let Some(actor) = &args.actor {
        if !same(state.opened_by.as_str(), actor.as_str()) {
            return false;
        }
    }
    if let Some(harness) = &args.harness {
        match &state.opened_harness {
            Some(opened) => {
                if !same(opened.as_str(), harness.as_str()) {
                    return false;
                }
            },
            None => return false,
        }
    }
    if args.audit_debt && !owed.audit_debt {
        return false;
    }
    !args.provisional || owed.provisional
}

/// Why a query is not answered.
#[derive(Debug)]
pub enum QueryRefusal {
    UnknownStatus,
    InvalidTag { tag: String },
}

/// Whether `found` are the positions of the changes that a query asks for, under its normalized
/// tags.
pub open spec fn answered(
    changes: Seq<ChangeState>,
    owed: Seq<Obligations>,
    args: QueryArgs,
    tags: Seq<String>,
    found: Seq<usize>,
) -> bool {
    ints(found) == chosen(changes.len(), |i: int| answers(changes[i], owed[i], args, tags))
}

/// Whether `found` are the positions of the changes that a query asks for.
pub open spec fn is_answer(
    changes: Seq<ChangeState>,
    owed: Seq<Obligations>,
    args: QueryArgs,
    found: Seq<usize>,
) -> bool {
    exists|tags: Seq<String>|
        views(tags) == listed(tagged(args.tags@)) && #[trigger] answered(
            changes,
            owed,
            args,
            tags,
            found,
        )
}

/// Whether `r` are the changes that a query asks for, or why it is not answered.
pub open spec fn answers_query(
    changes: &Vec<ChangeState>,
    owed: &Vec<Obligations>,
    args: &QueryArgs,
    r: Result< Vec<usize>, QueryRefusal, >,
) -> bool {
    match r {
            Ok(found) => (args.status is Some ==> is_status(args.status->0@)) && all_tags(args.tags@)
                && is_answer(changes@, owed@, *args, found@),
            Err(QueryRefusal::UnknownStatus) => args.status is Some && !is_status(args.status->0@),
            Err(QueryRefusal::InvalidTag { tag }) => (args.status is Some ==> is_status(
                args.status->0@,
            )) && first_invalid(args.tags@, tag@),
        }
}

/// The positions of the changes that a query asks for.
pub fn query(changes: &Vec<ChangeState>, owed: &Vec<Obligations>, args: &QueryArgs) -> (r: Result<
    Vec<usize>,
    QueryRefusal,
>)
    requires
        owed@.len() == changes@.len(),
    ensures
        answers_query(changes, owed, args, r),
{
    if let Some(wanted) = &args.status {
        let wanted = wanted.as_str();
        if !same(wanted, "open") && !same(wanted, "closed") && !same(wanted, "integrated") && !same(
            wanted,
            "abandoned",
        ) && !same(wanted, "superseded") {
            return Err(QueryRefusal::UnknownStatus);
        }
    }
    let tags = match normalize_tags(&args.tags) {
        Ok(tags) => tags,
        Err(invalid) => return Err(QueryRefusal::InvalidTag { tag: invalid.tag }),
    };
    let mut out: Vec<usize> = Vec::new();
    for i in 0..changes.len()
        invariant
            owed@.len() == changes@.len(),
            ints(out@) == chosen(
                i as nat,
                |k: int| answers(changes@[k], owed@[k], *args, tags@),
            ),
    {
        let ghost before = ints(out@);
        if is_asked_for(&changes[i], &owed[i], args, &tags) {
            out.push(i);
            assert(ints(out@) =~= before.push(i as int));
        }
    }
    assert(answered(changes@, owed@, *args, tags@, out@));
    assert(is_answer(changes@, owed@, *args, out@));
    Ok(out)
}

/// What is asked to be shown, or why that is refused: one change, or every change that carries
/// some tags.
pub fn show_selection(reference: Option<&str>, tags: &Vec<String>) -> (r: Result<
    CheckRequest,
    CheckRefusal,
>)
    ensures
        match r {
            Ok(CheckRequest::One) => reference is Some && tags@.len() == 0,
            Ok(CheckRequest::Tagged { tags: t }) => reference is None && tags@.len() > 0
                && all_tags(tags@) && views(t@) == listed(tagged(tags@)),
            Err(CheckRefusal::ChangeAndTags) => reference is Some && tags@.len() > 0,
            Err(CheckRefusal::Nothing) => reference is None && tags@.len() == 0,
            Err(CheckRefusal::InvalidTag { tag }) => reference is None && tags@.len() > 0
                && first_invalid(tags@, tag@),
        },
{
    check_selection(reference, tags)
}

/// The status of a change, with other work to do while it is blocked.
pub struct StatusOutput {
    pub report: StatusReport,
    pub suggested_alternatives: Vec<ArcAlternative>,
}

/// The status of a change, with other work to do while it is blocked.
pub fn status_output(
    report: StatusReport,
    state: &ChangeState,
    changes: &Vec<ChangeState>,
    timings: &Vec<ClaimTiming>,
) -> (r: StatusOutput)
    requires
        ledger(changes@),
        timings@.len() == changes@.len(),
    ensures
        r.report == report,
        if blocked(changes@, *state) {
            exists|order: Seq<usize>| #[trigger]
                alternatives(changes@, timings@, state.change_id@, order)
                    && r.suggested_alternatives@.len() == order.len() && forall|k: int|
                    0 <= k < order.len() ==> (#[trigger] r.suggested_alternatives@[k]).offers(
                        changes@[order[k] as int],
                    )
        } else {
            r.suggested_alternatives@.len() == 0
        },
{
    let suggested_alternatives = if dependency_status(state, changes).blocked {
        find_unblocked_changes(state.change_id.as_str(), changes, timings)
    } else {
        Vec::new()
    };
    StatusOutput { report, suggested_alternatives }
}

/// Whether `r` counts the events up to the first of an identity.
pub open spec fn reduces_at(
    events: &Vec<Event>,
    event_id: &str,
    r: Option<usize>,
) -> bool {
    match r {
            Some(n) => 1 <= n <= events@.len() && events@[n - 1].event_id@ == event_id@ && forall|
                i: int,
            |
                0 <= i < n - 1 ==> (#[trigger] events@[i]).event_id@ != event_id@,
            None => forall|i: int|
                0 <= i < events@.len() ==> (#[trigger] events@[i]).event_id@ != event_id@,
        }
}

/// The number of events up to and with the first of this identity: what had happened then.
pub fn reduce_at(events: &Vec<Event>, event_id: &str) -> (r: Option<usize>)
    ensures
        reduces_at(events, event_id, r),
{
    for i in 0..events.len()
        invariant
            forall|k: int| 0 <= k < i ==> (#[trigger] events@[k]).event_id@ != event_id@,
    {
        if same(events[i].event_id.as_str(), event_id) {
            return Some(i + 1);
        }
    }
    None
}

/// Whether a commit is recorded for a change: as the head of a patchset, or as what the change was
/// integrated as.
pub open spec fn records_commit(state: ChangeState, sha: Seq<char>) -> bool {
    ||| exists|k: int|
        0 <= k < state.patchsets@.len() && begins((#[trigger] state.patchsets@[k]).head@, sha)
    ||| state.closure is Some && state.closure->0.integrated_commit is Some && begins(
        state.closure->0.integrated_commit->0@,
        sha,
    )
}

fn has_commit(state: &ChangeState, sha: &str) -> (r: bool)
    ensures
        r == records_commit(*state, sha@),
{
    let all = &state.patchsets;
    for k in 0..all.len()
        invariant
            all@ == state.patchsets@,
            forall|j: int|
                0 <= j < k ==> !begins((#[trigger] state.patchsets@[j]).head@, sha@),
    {
        if starts_with(all[k].head.as_str(), sha) {
            assert(begins(state.patchsets@[k as int].head@, sha@));
            return true;
        }
    }
    if let Some(closure) = &state.closure {
        if let Some(commit) = &closure.integrated_commit {
            return starts_with(commit.as_str(), sha);
        }
    }
    false
}

/// Whether `r` are the changes that a commit is recorded for.
pub open spec fn finds_commit(
    changes: &Vec<ChangeState>,
    sha: &str,
    r: Vec<usize>,
) -> bool {
    ints(r@) == chosen(changes@.len(), |i: int| records_commit(changes@[i], sha@))
}

/// The positions of the changes that a commit is recorded for.
pub fn query_commit(changes: &Vec<ChangeState>, sha: &str) -> (r: Vec<usize>)
    ensures
        finds_commit(changes, sha, r),
{
    let mut out: Vec<usize> = Vec::new();
    for i in 0..changes.len()
        invariant
            ints(out@) == chosen(i as nat, |k: int| records_commit(changes@[k], sha@)),
    {
        let ghost before = ints(out@);
        if has_commit(&changes[i], sha) {
            out.push(i);
            assert(ints(out@) =~= before.push(i as int));
        }
    }
    out
}

/// Whether the change at `k` is the one on a branch: the first open one, or else the last closed
/// one.
pub open spec fn on_branch(changes: Seq<ChangeState>, branch: Seq<char>, k: int) -> bool {
    &&& 0 <= k < changes.len()
    &&& changes[k].branch@ == branch
    &&& if changes[k].closure is None {
        forall|j: int|
            0 <= j < k && (#[trigger] changes[j]).branch@ == branch ==> changes[j].closure is Some
    } else {
        &&& forall|j: int|
            0 <= j < changes.len() && (#[trigger] changes[j]).branch@ == branch
                ==> changes[j].closure is Some
        &&& forall|j: int| k < j < changes.len() ==> (#[trigger] changes[j]).branch@ != branch
    }
}

/// Whether `r` is the change on a branch.
pub open spec fn finds_on_branch(
    changes: &Vec<ChangeState>,
    branch: &str,
    r: Option<usize>,
) -> bool {
    match r {
            Some(k) => on_branch(changes@, branch@, k as int),
            None => forall|j: int|
                0 <= j < changes@.len() ==> (#[trigger] changes@[j]).branch@ != branch@,
        }
}

/// The change on a branch: the first open one, or else the last closed one.
pub fn change_for_branch(changes: &Vec<ChangeState>, branch: &str) -> (r: Option<usize>)
    ensures
        finds_on_branch(changes, branch, r),
{
    let mut closed: Option<usize> = None;
    for k in 0..changes.len()
        invariant
            forall|j: int|
                0 <= j < k && (#[trigger] changes@[j]).branch@ == branch@
                    ==> changes@[j].closure is Some,
            match closed {
                Some(c) => c < k && changes@[c as int].branch@ == branch@ && forall|j: int|
                    c < j < k ==> (#[trigger] changes@[j]).branch@ != branch@,
                None => forall|j: int| 0 <= j < k ==> (#[trigger] changes@[j]).branch@ != branch@,
            },
    {
        if same(changes[k].branch.as_str(), branch) {
            if changes[k].is_closed() {
                closed = Some(k);
            } else {
                return Some(k);
            }
        }
    }
    closed
}

/// Whether the approval of a change is bound to another head than `head`, by the patchset at `p`.
pub open spec fn stale_approval(state: ChangeState, head: Seq<char>, p: int) -> bool {
    &&& state.authoritative() is Some
    &&& state.verdicts@[state.authoritative()->0].verdict == Verdict::Approved
    &&& patchset_at(
        state,
        state.verdicts@[state.authoritative()->0].patchset_id@,
        p,
    )
    &&& state.patchsets@[p].head@ != head
}

/// Whether `r` is the patchset whose approval a new head leaves behind.
pub open spec fn leaves_behind(
    state: &ChangeState,
    head: &str,
    r: Option<usize>,
) -> bool {
    match r {
            Some(p) => stale_approval(*state, head@, p as int),
            None => forall|p: int| !#[trigger] stale_approval(*state, head@, p),
        }
}

/// The patchset whose approval a new head leaves behind: an approval is bound to the exact head
/// that was approved.
pub fn approval_left_behind(state: &ChangeState, head: &str) -> (r: Option<usize>)
    ensures
        leaves_behind(state, head, r),
{
    let k: usize = match state.latest_verdict() {
        Some(k) => k,
        None => {
            return None;
        },
    };
    let verdict = &state.verdicts[k];
    if verdict.verdict != Verdict::Approved {
        return None;
    }
    match find_patchset(state, verdict.patchset_id.as_str()) {
        Some(p) => if same(state.patchsets[p].head.as_str(), head) {
            proof {
                assert forall|q: int| !#[trigger] stale_approval(*state, head@, q) by {
                    if stale_approval(*state, head@, q) {
                        assert(patchset_at(
                            *state,
                            verdict.patchset_id@,
                            p as int,
                        ));
                        if q < p {
                            assert(state.patchsets@[q].id@ != verdict.patchset_id@);
                        }
                        if p < q {
                            assert(state.patchsets@[p as int].id@ != verdict.patchset_id@);
                        }
                    }
                }
            }
            None
        } else {
            Some(p)
        },
        None => {
            proof {
                assert forall|q: int| !#[trigger] stale_approval(*state, head@, q) by {
                    if stale_approval(*state, head@, q) {
                        assert(state.patchsets@[q].id@ == verdict.patchset_id@);
                    }
                }
            }
            None
        },
    }
}

/// The trailer that names the change of a commit.
pub open spec fn trailer_text(change_id: Seq<char>) -> Seq<char> {
    "Arc-Change: "@ + change_id
}

/// Whether a commit message already carries the trailer.
pub open spec fn carries_trailer(body: Seq<char>, change_id: Seq<char>) -> bool {
    exists|i: int|
        0 <= i < lines_of(body).len() && trimmed(#[trigger] lines_of(body)[i]) == trailer_text(
            change_id,
        )
}

/// Whether `r` is a commit message with the trailer that names its change.
pub open spec fn adds_trailer(
    body: &str,
    change_id: &str,
    r: Option<String>,
) -> bool {
    match r {
            Some(updated) => !carries_trailer(body@, change_id@) && updated@ == terminated(body@)
                + trailer_text(change_id@) + "\n"@,
            None => carries_trailer(body@, change_id@),
        }
}

/// A commit message with the trailer that names its change, where it does not carry it yet.
pub fn prepare_commit_msg(body: &str, change_id: &str) -> (r: Option<String>)
    ensures
        adds_trailer(body, change_id, r),
{
    let mut trailer = "Arc-Change: ".to_string();
    trailer.append(change_id);
    let all = lines(body);
    for i in 0..all.len()
        invariant
            views(all@) == lines_of(body@),
            trailer@ == trailer_text(change_id@),
            forall|k: int| 0 <= k < i ==> trimmed(#[trigger] lines_of(body@)[k]) != trailer@,
    {
        assert(views(all@)[i as int] == all@[i as int]@);
        let line = trim(all[i].as_str());
        if same(line.as_str(), trailer.as_str()) {
            assert(trimmed(lines_of(body@)[i as int]) == trailer@);
            return None;
        }
    }
    let mut updated = body.to_string();
    if !ends_line(body) {
        updated.push('\n');
    }
    updated.append(trailer.as_str());
    updated.append("\n");
    Some(updated)
}

/// The start of a head that was approved.
pub open spec fn head_start(head: Seq<char>) -> Seq<char> {
    if head.len() <= 12 {
        head
    } else {
        head.take(12)
    }
}

fn start_of(head: &str) -> (r: String)
    ensures
        r@ == head_start(head@),
{
    let chars = chars_of(head);
    if chars.len() <= 12 {
        head.to_string()
    } else {
        assert(chars@.subrange(0, 12) =~= head@.take(12));
        text_between(&chars, 0, 12)
    }
}

/// Whether `r` is what is said after a commit on the branch of a change.
pub open spec fn tells_after_commit(
    state: &ChangeState,
    head: &str,
    r: Option<String>,
) -> bool {
    match r {
            Some(text) => if state.closure is Some {
                text@ == "arc: this branch's change "@ + state.change_id@
                    + " is closed; new commits are not tracked"@
            } else {
                exists|p: int| #[trigger]
                    stale_approval(*state, head@, p) && text@ == "arc: approval on "@
                        + state.change_id@ + " is now stale ("@ + state.patchsets@[p].id@
                        + " approved at "@ + head_start(state.patchsets@[p].head@) + ")"@
            },
            None => state.closure is None && forall|p: int|
                !#[trigger] stale_approval(*state, head@, p),
        }
}

/// What is said after a commit on the branch of a change: a closed change follows none, and an
/// approval of another head is left behind.
pub fn post_commit(state: &ChangeState, head: &str) -> (r: Option<String>)
    ensures
        tells_after_commit(state, head, r),
{
    if state.is_closed() {
        let mut out = "arc: this branch's change ".to_string();
        out.append(state.change_id.as_str());
        out.append(" is closed; new commits are not tracked");
        return Some(out);
    }
    match approval_left_behind(state, head) {
        Some(p) => {
            let approved = start_of(state.patchsets[p].head.as_str());
            let mut out = "arc: approval on ".to_string();
            out.append(state.change_id.as_str());
            out.append(" is now stale (");
            out.append(state.patchsets[p].id.as_str());
            out.append(" approved at ");
            out.append(approved.as_str());
            out.append(")");
            assert(stale_approval(*state, head@, p as int));
            Some(out)
        },
        None => None,
    }
}

/// The items of a checklist, each with a box to tick.
pub open spec fn checklist_lines(items: Seq<String>) -> Seq<char>
    decreases items.len(),
{
    if items.len() == 0 {
        Seq::empty()
    } else {
        checklist_lines(items.drop_last()) + "- [ ] "@ + items.last()@ + "\n"@
    }
}

/// The checklist behind a change that is shown: not to whoever implements it, and not where it has
/// no items.
pub fn review_checklist(implementer: bool, items: &Vec<String>) -> (r: String)
    ensures
        r@ == (if implementer || items@.len() == 0 {
            Seq::empty()
        } else {
            "\n## Review checklist\n\n"@ + checklist_lines(items@)
        }),
{
    if implementer || items.len() == 0 {
        return String::new();
    }
    let mut lines = String::new();
    assert(items@.take(0) =~= Seq::empty());
    for i in 0..items.len()
        invariant
            lines@ == checklist_lines(items@.take(i as int)),
    {
        assert(items@.take(i + 1).drop_last() =~= items@.take(i as int));
        lines.append("- [ ] ");
        lines.append(items[i].as_str());
        lines.append("\n");
    }
    assert(items@.take(items@.len() as int) =~= items@);
    let mut out = "\n## Review checklist\n\n".to_string();
    out.append(lines.as_str());
    out
}

/// One change as a program reads it in a list, with the word for what keeps it.
pub open spec fn row_object(state: ChangeState, word: Seq<char>) -> JsonView {
    JsonView::Object {
        members: no_members().insert("change_id"@, text_view(state.change_id@)).insert(
            "slug"@,
            text_view(state.slug@),
        ).insert("title"@, text_view(state.title@)).insert(
            "profile"@,
            text_view(state.profile@),
        ).insert("branch"@, text_view(state.branch@)).insert(
            "target_branch"@,
            text_view(state.target_branch@),
        ).insert(
            "state"@,
            text_view(
                if state.closure is Some {
                    "closed"@
                } else {
                    "open"@
                },
            ),
        ).insert("status"@, text_view(status_text(state))).insert(
            "verdict"@,
            text_view(verdict_word(state)),
        ).insert("blocked_by"@, texts_view(views(state.blocked_by@))).insert(
            "blocker"@,
            text_view(word),
        ).insert("tags"@, texts_view(views(state.tags@))).insert(
            "priority"@,
            JsonView::Whole { value: state.priority as int },
        ),
    }
}

/// One change as a program reads it in a list.
pub fn list_object(state: &ChangeState, changes: &Vec<ChangeState>) -> (r: serde_json::Value)
    requires
        ledger(changes@),
    ensures
        exists|word: Seq<char>| #[trigger]
            blocker_word(changes@, *state, word) && json_view(r) == row_object(*state, word),
{
    let blocker = blocker_label(state, changes);
    let mut out = empty_object();
    put_text(&mut out, "change_id", state.change_id.as_str());
    put_text(&mut out, "slug", state.slug.as_str());
    put_text(&mut out, "title", state.title.as_str());
    put_text(&mut out, "profile", state.profile.as_str());
    put_text(&mut out, "branch", state.branch.as_str());
    put_text(&mut out, "target_branch", state.target_branch.as_str());
    let open = if state.is_closed() {
        "closed"
    } else {
        "open"
    };
    put_text(&mut out, "state", open);
    put_text(&mut out, "status", change_status(state));
    put_text(&mut out, "verdict", verdict_label(state));
    put_texts(&mut out, "blocked_by", &state.blocked_by);
    put_text(&mut out, "blocker", blocker.as_str());
    put_texts(&mut out, "tags", &state.tags);
    put_member(&mut out, "priority", whole_value(state.priority as i64));
    out
}

/// What is asked of a value that is printed.
pub enum Projection {
    /// What stands at a path in it, where anything does.
    At { found: Option<serde_json::Value> },
    /// Some of its members.
    Fields { picked: serde_json::Value },
    Whole { value: serde_json::Value },
}

/// What is printed of a value: a text as it is, or JSON.
pub enum Printed {
    Text { text: String },
    Json { bytes: Vec<u8> },
}

/// There is no value at the path that was asked for.
#[derive(Clone, Copy, Debug, PartialEq, Eq, Structural)]
pub struct NoValue;

/// Whether a value is printed so: a text without its quotation marks, and anything else as JSON
/// on one line.
pub open spec fn prints_value(printed: Printed, value: serde_json::Value) -> bool {
    match printed {
        Printed::Text { text } => json_view(value) == text_view(text@),
        Printed::Json { bytes } => !(json_view(value) is Text) && bytes@ == compact_bytes(value),
    }
}

/// What is printed of a value.
pub fn print_projected(request: &Projection) -> (r: Result<Printed, NoValue>)
    ensures
        match *request {
            Projection::At { found: None } => r == Err::<Printed, NoValue>(NoValue),
            Projection::At { found: Some(value) } => r is Ok && prints_value(r->Ok_0, value),
            Projection::Fields { picked } => r is Ok && (r->Ok_0 matches Printed::Json { bytes }
                && bytes@ == compact_bytes(picked)),
            Projection::Whole { value } => r is Ok && (r->Ok_0 matches Printed::Json { bytes }
                && bytes@ == pretty_bytes(value)),
        },
{
    match request {
        Projection::At { found: None } => Err(NoValue),
        Projection::At { found: Some(value) } => match as_text(value) {
            Some(text) => Ok(Printed::Text { text: text.to_string() }),
            None => Ok(Printed::Json { bytes: write_compact(value) }),
        },
        Projection::Fields { picked } => Ok(Printed::Json { bytes: write_compact(picked) }),
        Projection::Whole { value } => Ok(Printed::Json { bytes: write_pretty(value) }),
    }
}

/// A change reads as open exactly while it is, and otherwise as what closed it; closed is anything
/// that is not open.
pub proof fn statuses_say_how_changes_ended(state: ChangeState)
    ensures
        has_status(state, "open"@) <==> state.closure is None,
        has_status(state, "closed"@) <==> state.closure is Some,
        has_status(state, "integrated"@) <==> (state.closure matches Some(closure)
            && closure.outcome == Closure::Integrated),
        has_status(state, "abandoned"@) <==> (state.closure matches Some(closure)
            && closure.outcome == Closure::Abandoned),
        has_status(state, "superseded"@) <==> (state.closure matches Some(closure)
            && closure.outcome == Closure::Superseded),
{
    reveal_strlit("open");
    reveal_strlit("closed");
    reveal_strlit("integrated");
    reveal_strlit("abandoned");
    reveal_strlit("superseded");
    assert("open"@.len() == 4 && "closed"@.len() == 6 && "abandoned"@.len() == 9
        && "integrated"@.len() == 10 && "superseded"@.len() == 10);
    assert("integrated"@[0] == 'i' && "superseded"@[0] == 's');
}

/// A list has every change, or every open one.
pub proof fn lists_hold_every_change(
    changes: &Vec<ChangeState>,
    open_only: bool,
    i: usize,
    r: Vec<usize>,
)
    requires
        lists_changes(changes, open_only, r),
        i < changes@.len(),
    ensures
        r@.contains(i) <==> !open_only || changes@[i as int].closure is None,
{
    let wanted = |i: int| !open_only || changes@[i].closure is None;
    lemma_chosen(changes@.len(), wanted);
    lemma_ints_contain(r@, i);
    assert(chosen(changes@.len(), wanted).contains(i as int) <==> wanted(i as int));
}

/// A query that asks for nothing finds every change; and what it finds is of the target, of whoever
/// opened it, under the verdict and with the debts that were asked for.
pub proof fn queries_find_what_they_ask_for(
    changes: &Vec<ChangeState>,
    owed: &Vec<Obligations>,
    args: &QueryArgs,
    i: usize,
    found: Vec<usize>,
)
    requires
        answers_query(changes, owed, args, Ok(found)),
        i < changes@.len(),
    ensures
        found@.contains(i) ==> {
            &&& args.target matches Some(target) ==> changes@[i as int].target_branch@ == target@
            &&& args.actor matches Some(actor) ==> changes@[i as int].opened_by@ == actor@
            &&& args.harness matches Some(harness) ==> changes@[i as int].opened_harness is Some
                && changes@[i as int].opened_harness->0@ == harness@
            &&& args.status matches Some(status) ==> has_status(changes@[i as int], status@)
            &&& args.audit_debt ==> owed@[i as int].audit_debt
            &&& args.provisional ==> owed@[i as int].provisional
            &&& args.verdict matches Some(verdict) ==> changes@[i as int].authoritative() is Some
                && changes@[i as int].verdicts@[changes@[i as int].authoritative()->0].verdict
                == verdict
        },
        args.status is None && args.target is None && args.tags@.len() == 0 && args.verdict is None
            && args.actor is None && args.harness is None && !args.audit_debt && !args.provisional
            ==> found@.contains(i),
{
    let tags = choose|tags: Seq<String>|
        views(tags) == listed(tagged(args.tags@)) && #[trigger] answered(
            changes@,
            owed@,
            *args,
            tags,
            found@,
        );
    let wanted = |i: int| answers(changes@[i], owed@[i], *args, tags);
    lemma_chosen(changes@.len(), wanted);
    lemma_ints_contain(found@, i);
    assert(chosen(changes@.len(), wanted).contains(i as int) <==> wanted(i as int));
    if args.tags@.len() == 0 {
        normal_tags_are_the_tags(args.tags@);
        if tags.len() > 0 {
            assert(views(tags)[0] == tags[0]@);
            assert(normal_tags(args.tags@).contains(tags[0]@));
        }
        assert(carries(changes@[i as int], tags));
    }
}

/// A change under all the tags that were asked for is found by them, whatever else it carries.
pub proof fn tagged_changes_are_found(
    changes: &Vec<ChangeState>,
    owed: &Vec<Obligations>,
    args: &QueryArgs,
    i: usize,
    found: Vec<usize>,
)
    requires
        answers_query(changes, owed, args, Ok(found)),
        i < changes@.len(),
        args.status is None,
        args.target is None,
        args.verdict is None,
        args.actor is None,
        args.harness is None,
        !args.audit_debt,
        !args.provisional,
    ensures
        found@.contains(i) <==> forall|k: int|
            0 <= k < args.tags@.len() ==> among(
                changes@[i as int].tags@,
                trimmed((#[trigger] args.tags@[k])@),
            ),
{
    let tags = choose|tags: Seq<String>|
        views(tags) == listed(tagged(args.tags@)) && #[trigger] answered(
            changes@,
            owed@,
            *args,
            tags,
            found@,
        );
    let wanted = |i: int| answers(changes@[i], owed@[i], *args, tags);
    lemma_chosen(changes@.len(), wanted);
    lemma_ints_contain(found@, i);
    assert(chosen(changes@.len(), wanted).contains(i as int) <==> wanted(i as int));
    normal_tags_are_the_tags(args.tags@);
    let state = changes@[i as int];
    if carries(state, tags) {
        assert forall|k: int| 0 <= k < args.tags@.len() implies among(
            state.tags@,
            trimmed((#[trigger] args.tags@[k])@),
        ) by {
            let x = trimmed(args.tags@[k]@);
            assert(normal_tags(args.tags@).contains(x));
            let j = choose|j: int| 0 <= j < views(tags).len() && views(tags)[j] == x;
            assert(tags[j]@ == x);
        }
    } else {
        let j = choose|j: int| 0 <= j < tags.len() && !among(state.tags@, (#[trigger] tags[j])@);
        let x = tags[j]@;
        assert(views(tags)[j] == x);
        assert(normal_tags(args.tags@).contains(x));
        let k = choose|k: int| 0 <= k < args.tags@.len() && trimmed((#[trigger] args.tags@[k])@)
            == x;
        assert(!among(state.tags@, trimmed(args.tags@[k]@)));
    }
}

/// A change is found by the head of any of its patchsets and by what it was integrated as.
pub proof fn commits_lead_to_their_changes(
    changes: &Vec<ChangeState>,
    sha: &str,
    i: usize,
    r: Vec<usize>,
)
    requires
        finds_commit(changes, sha, r),
        i < changes@.len(),
    ensures
        r@.contains(i) <==> (exists|k: int|
            0 <= k < changes@[i as int].patchsets@.len() && begins(
                (#[trigger] changes@[i as int].patchsets@[k]).head@,
                sha@,
            )) || (changes@[i as int].closure matches Some(closure)
            && closure.integrated_commit is Some && begins(
            closure.integrated_commit->0@,
            sha@,
        )),
{
    let wanted = |i: int| records_commit(changes@[i], sha@);
    lemma_chosen(changes@.len(), wanted);
    lemma_ints_contain(r@, i);
    assert(chosen(changes@.len(), wanted).contains(i as int) <==> wanted(i as int));
}

/// A branch leads to an open change where it has one, and to one of its changes where it has any.
pub proof fn branches_lead_to_open_changes(
    changes: &Vec<ChangeState>,
    branch: &str,
    i: int,
    r: Option<usize>,
)
    requires
        finds_on_branch(changes, branch, r),
        0 <= i < changes@.len(),
        changes@[i].branch@ == branch@,
    ensures
        r is Some,
        r->0 < changes@.len(),
        changes@[r->0 as int].branch@ == branch@,
        changes@[i].closure is None ==> changes@[r->0 as int].closure is None && r->0 <= i,
{
}

/// An approval is left behind only by another head: of the head that was approved it stays.
pub proof fn approvals_stay_with_their_head(
    state: &ChangeState,
    head: &str,
    r: Option<usize>,
)
    requires
        leaves_behind(state, head, r),
    ensures
        r matches Some(p) ==> p < state.patchsets@.len() && state.patchsets@[p as int].head@
            != head@,
        state.authoritative() is None ==> r is None,
        state.authoritative() matches Some(k) ==> (state.verdicts@[k].verdict != Verdict::Approved
            ==> r is None),
{
}

/// The trailer is added once: a message that carries it is left alone, and what is added to keeps
/// all that it says.
pub proof fn trailers_are_added_once(body: &str, change_id: &str, r: Option<String>)
    requires
        adds_trailer(body, change_id, r),
    ensures
        r is None <==> exists|i: int|
            0 <= i < lines_of(body@).len() && trimmed(#[trigger] lines_of(body@)[i])
                == "Arc-Change: "@ + change_id@,
        r matches Some(updated) ==> body@.is_prefix_of(updated@) && ("Arc-Change: "@ + change_id@
            + "\n"@).is_suffix_of(updated@),
{
    if let Some(updated) = r {
        let kept = terminated(body@);
        let added = "Arc-Change: "@ + change_id@ + "\n"@;
        assert(updated@ =~= kept + added);
        assert(body@ =~= updated@.take(body@.len() as int));
        assert(added =~= updated@.skip(updated@.len() - added.len()));
    } else {
        let i = choose|i: int|
            0 <= i < lines_of(body@).len() && trimmed(#[trigger] lines_of(body@)[i])
                == trailer_text(change_id@);
        assert(trimmed(lines_of(body@)[i]) == "Arc-Change: "@ + change_id@);
    }
}

/// After a commit something is said exactly where its change is closed or an approval is left
/// behind.
pub proof fn commits_are_remarked_on(
    state: &ChangeState,
    head: &str,
    left: Option<usize>,
    r: Option<String>,
)
    requires
        tells_after_commit(state, head, r),
        leaves_behind(state, head, left),
    ensures
        state.closure is Some ==> r is Some,
        state.closure is None ==> (r is Some <==> left is Some),
{
}

/// What had happened when an event was recorded is everything up to it, and it itself.
pub proof fn histories_end_at_their_event(
    events: &Vec<Event>,
    event_id: &str,
    i: int,
    r: Option<usize>,
)
    requires
        reduces_at(events, event_id, r),
        0 <= i < events@.len(),
        events@[i].event_id@ == event_id@,
    ensures
        r is Some,
        1 <= r->0 <= i + 1,
        events@[r->0 - 1].event_id@ == event_id@,
{
}

/// A change that waits for nothing, has no open blocking finding and is not held is kept by nothing;
/// and an open blocking finding is told before a hold.
pub proof fn what_keeps_a_change_is_told(
    changes: Seq<ChangeState>,
    state: ChangeState,
    word: Seq<char>,
)
    requires
        blocker_word(changes, state, word),
        forall|k: int|
            0 <= k < state.blocked_by@.len() ==> satisfied(
                changes,
                (#[trigger] state.blocked_by@[k])@,
            ),
    ensures
        state.findings@.len() == 0 && state.holds@.len() == 0 ==> word == "—"@,
        state.findings@.len() == 0 && state.holds@.len() > 0 ==> word == "hold"@,
        count(state.findings@, |f: FindingState| f.blocking && f.status is None) > 0 ==> word
            == decimal_of(count(state.findings@, |f: FindingState| f.blocking && f.status is None))
            + " findings"@,
{
    lemma_count_same(
        state.findings@,
        |f: FindingState| blocks(f),
        |f: FindingState| f.blocking && f.status is None,
    );
}

proof fn lemma_count_same<T>(items: Seq<T>, a: spec_fn(T) -> bool, b: spec_fn(T) -> bool)
    requires
        forall|x: T| #[trigger] a(x) == b(x),
    ensures
        count(items, a) == count(items, b),
    decreases items.len(),
{
    if items.len() > 0 {
        lemma_count_same(items.drop_last(), a, b);
    }
}

/// The verdict that is told is the one that has authority.
pub proof fn verdicts_with_authority_are_told(state: ChangeState, k: usize)
    requires
        state.authority == Some(k),
        k < state.verdicts@.len(),
    ensures
        verdict_word(state) == "approved"@ <==> state.verdicts@[k as int].verdict
            == Verdict::Approved,
        verdict_word(state) == "changes-requested"@ <==> state.verdicts@[k as int].verdict
            == Verdict::ChangesRequested,
{
    reveal_strlit("approved");
    reveal_strlit("changes-requested");
    reveal_strlit("comment-only");
    assert("approved"@.len() == 8 && "changes-requested"@.len() == 17 && "comment-only"@.len()
        == 12);
}

} // verus!
