//! Diagnosing a ledger: problems are malformed state, advice is what may want looking after.
use crate::dependency::ids_at;
use crate::event::{Event, Payload};
use crate::graph::{cyclic, dependency_order};
use crate::json::{json_of_bytes, read_json_bytes};
use crate::model::Closure;
use crate::observe::{read_string, string_under};
use crate::order::{chosen, count, ints};
use crate::rewrite::{strip_prefixes, without_prefix};
use crate::state::{ledger, ChangeState};
use crate::stats::signed_ttl;
use crate::text::{
    among, begins, chars_of, contains, decimal, decimal_of, ends, ends_with, join, joined, lines,
    lines_of, opt_view, same, split, split_of, strip_prefix, views,
};
use crate::time::{signed_seconds, whole_seconds, Timestamp};
use vstd::prelude::*;

verus! {

/// The format of a diagnosis that is written as JSON.
pub const DOCTOR_SCHEMA: &'static str = "arc-doctor/1";

/// Something that was found.
#[derive(Debug)]
pub struct Finding {
    pub code: &'static str,
    pub detail: String,
}

/// Something that was found, by its views: what it is called and what is said of it.
pub struct FindingView {
    pub code: Seq<char>,
    pub detail: Seq<char>,
}

impl View for Finding {
    type V = FindingView;

    open spec fn view(&self) -> FindingView {
        FindingView { code: self.code@, detail: self.detail@ }
    }
}

/// What was found, by its views.
pub open spec fn finding_views(findings: Seq<Finding>) -> Seq<FindingView> {
    Seq::new(findings.len(), |i: int| findings[i]@)
}

fn add_finding(findings: &mut Vec<Finding>, code: &'static str, detail: String)
    ensures
        finding_views(final(findings)@) == finding_views(old(findings)@).push(
            FindingView { code: code@, detail: detail@ },
        ),
{
    let ghost before = finding_views(findings@);
    let found = Finding { code, detail };
    let ghost seen = found@;
    findings.push(found);
    assert(finding_views(findings@) =~= before.push(seen));
}

/// A file in the directory of the events of a change.
pub struct EventFile {
    pub path: String,
    pub name: String,
    pub is_file: bool,
    /// The event that it holds, where it holds one.
    pub event: Option<Event>,
    /// Whether its name and the identities in it are ones that the ledger writes.
    pub ids_valid: bool,
}

/// What becomes of a file.
#[derive(Clone, Copy, Debug, PartialEq, Eq, Structural)]
pub enum FileFate {
    Skipped,
    Temporary,
    Malformed,
    InvalidId,
    UnknownType,
    Kept,
}

/// What becomes of a file.
pub open spec fn file_fate(file: EventFile) -> FileFate {
    if !file.is_file {
        FileFate::Skipped
    } else if ends(file.name@, ".tmp"@) {
        FileFate::Temporary
    } else if !ends(file.name@, ".json"@) {
        FileFate::Skipped
    } else {
        match file.event {
            None => FileFate::Malformed,
            Some(event) => if !file.ids_valid {
                FileFate::InvalidId
            } else if event.payload is Unknown {
                FileFate::UnknownType
            } else {
                FileFate::Kept
            },
        }
    }
}

/// What becomes of a file.
pub fn classify_file(file: &EventFile) -> (r: FileFate)
    ensures
        r == file_fate(*file),
{
    if !file.is_file {
        return FileFate::Skipped;
    }
    if ends_with(file.name.as_str(), ".tmp") {
        return FileFate::Temporary;
    }
    if !ends_with(file.name.as_str(), ".json") {
        return FileFate::Skipped;
    }
    match &file.event {
        None => FileFate::Malformed,
        Some(event) => if !file.ids_valid {
            FileFate::InvalidId
        } else if matches!(event.payload, Payload::Unknown) {
            FileFate::UnknownType
        } else {
            FileFate::Kept
        },
    }
}

/// The problem that a file is, where it is one.
pub open spec fn file_problem(file: EventFile) -> Option<FindingView> {
    match file_fate(file) {
        FileFate::Malformed => Some(
            FindingView { code: "malformed-event"@, detail: file.path@ },
        ),
        FileFate::InvalidId => Some(
            FindingView { code: "invalid-event-id"@, detail: file.path@ },
        ),
        _ => None,
    }
}

/// The advice that a file gives, where it gives any.
pub open spec fn file_advice(file: EventFile) -> Option<FindingView> {
    match file_fate(file) {
        FileFate::Temporary => Some(
            FindingView { code: "orphaned-temporary-file"@, detail: file.path@ },
        ),
        FileFate::UnknownType => Some(
            FindingView { code: "unknown-event-type"@, detail: file.path@ },
        ),
        _ => None,
    }
}

/// The problems that the first `n` files are.
pub open spec fn file_problems(files: Seq<EventFile>, n: int) -> Seq<FindingView>
    decreases n,
{
    if n <= 0 {
        Seq::empty()
    } else {
        match file_problem(files[n - 1]) {
            Some(found) => file_problems(files, n - 1).push(found),
            None => file_problems(files, n - 1),
        }
    }
}

/// The advice that the first `n` files give.
pub open spec fn file_advices(files: Seq<EventFile>, n: int) -> Seq<FindingView>
    decreases n,
{
    if n <= 0 {
        Seq::empty()
    } else {
        match file_advice(files[n - 1]) {
            Some(found) => file_advices(files, n - 1).push(found),
            None => file_advices(files, n - 1),
        }
    }
}

/// Whether a file holds the event that opens the change.
pub open spec fn opens_change(file: EventFile) -> bool {
    file_fate(file) == FileFate::Kept && file.event->0.payload is ChangeOpened
}

/// What was found in the directory of a change.
pub struct ChangeInspection {
    pub problems: Vec<Finding>,
    pub advice: Vec<Finding>,
    /// The positions of the files whose events count.
    pub kept: Vec<usize>,
    /// Whether one of them opens the change. Without one there is no change to look at.
    pub opened: bool,
}

/// Whether an inspection tells what is in the directory of a change.
pub open spec fn inspects(
    found: ChangeInspection,
    directory: Seq<char>,
    files: Option<Vec<EventFile>>,
) -> bool {
    let missing = FindingView { code: "missing-open-event"@, detail: directory };
    match files {
        None => {
            &&& finding_views(found.problems@) == seq![missing]
            &&& found.advice@.len() == 0
            &&& found.kept@.len() == 0
            &&& !found.opened
        },
        Some(files) => {
            let n = files@.len();
            &&& found.opened == has_opening(files@, n as int)
            &&& finding_views(found.problems@) == (if found.opened {
                file_problems(files@, n as int)
            } else {
                file_problems(files@, n as int).push(missing)
            })
            &&& finding_views(found.advice@) == file_advices(files@, n as int)
            &&& ints(found.kept@) == chosen(n, |i: int| file_fate(files@[i]) == FileFate::Kept)
        },
    }
}

/// Whether one of the first `n` files opens the change.
pub open spec fn has_opening(files: Seq<EventFile>, n: int) -> bool {
    exists|i: int| 0 <= i < n && opens_change(#[trigger] files[i])
}

fn is_opening(file: &EventFile) -> (r: bool)
    ensures
        r == opens_change(*file),
{
    match &file.event {
        Some(event) => matches!(event.payload, Payload::ChangeOpened { .. }) && matches!(
            classify_file(file),
            FileFate::Kept
        ),
        None => false,
    }
}

fn inspect_files(files: &Vec<EventFile>) -> (r: ChangeInspection)
    ensures
        r.opened == has_opening(files@, files@.len() as int),
        finding_views(r.problems@) == file_problems(files@, files@.len() as int),
        finding_views(r.advice@) == file_advices(files@, files@.len() as int),
        ints(r.kept@) == chosen(
            files@.len(),
            |i: int| file_fate(files@[i]) == FileFate::Kept,
        ),
{
    let mut problems: Vec<Finding> = Vec::new();
    let mut advice: Vec<Finding> = Vec::new();
    let mut kept: Vec<usize> = Vec::new();
    let mut opened = false;
    let ghost wanted = |i: int| file_fate(files@[i]) == FileFate::Kept;
    assert(finding_views(problems@) =~= file_problems(files@, 0));
    assert(finding_views(advice@) =~= file_advices(files@, 0));
    assert(ints(kept@) =~= Seq::<int>::empty());
    for i in 0..files.len()
        invariant
            wanted == (|i: int| file_fate(files@[i]) == FileFate::Kept),
            finding_views(problems@) == file_problems(files@, i as int),
            finding_views(advice@) == file_advices(files@, i as int),
            ints(kept@) == chosen(i as nat, wanted),
            opened == has_opening(files@, i as int),
    {
        let file = &files[i];
        let ghost kept_before = ints(kept@);
        match classify_file(file) {
            FileFate::Skipped => {},
            FileFate::Temporary => {
                add_finding(&mut advice, "orphaned-temporary-file", file.path.clone());
            },
            FileFate::Malformed => {
                add_finding(&mut problems, "malformed-event", file.path.clone());
            },
            FileFate::InvalidId => {
                add_finding(&mut problems, "invalid-event-id", file.path.clone());
            },
            FileFate::UnknownType => {
                add_finding(&mut advice, "unknown-event-type", file.path.clone());
            },
            FileFate::Kept => {
                kept.push(i);
                assert(ints(kept@) =~= kept_before.push(i as int));
            },
        }
        let ghost before = opened;
        if is_opening(file) {
            opened = true;
        }
        proof {
            if before {
                let j = choose|j: int| 0 <= j < i && opens_change(#[trigger] files@[j]);
                assert(opens_change(files@[j]));
            }
            if has_opening(files@, i + 1) && !opens_change(files@[i as int]) {
                let j = choose|j: int| 0 <= j < i + 1 && opens_change(#[trigger] files@[j]);
                assert(j < i);
            }
        }
    }
    ChangeInspection { problems, advice, kept, opened }
}

/// What is in the directory of a change. `files` are the files of its events in the order of
/// their paths, where there is such a directory.
pub fn inspect_change(directory: &str, files: &Option<Vec<EventFile>>) -> (r: ChangeInspection)
    ensures
        inspects(r, directory@, *files),
{
    match files {
        None => {
            let mut problems: Vec<Finding> = Vec::new();
            assert(finding_views(problems@) =~= Seq::<FindingView>::empty());
            add_finding(&mut problems, "missing-open-event", directory.to_string());
            assert(finding_views(problems@) =~= seq![
                FindingView { code: "missing-open-event"@, detail: directory@ },
            ]);
            ChangeInspection {
                problems,
                advice: Vec::new(),
                kept: Vec::new(),
                opened: false,
            }
        },
        Some(files) => {
            let mut found = inspect_files(files);
            if !found.opened {
                add_finding(&mut found.problems, "missing-open-event", directory.to_string());
            }
            found
        },
    }
}

/// When the claim on a change runs out.
pub struct ClaimExpiry {
    pub expired: bool,
    pub expires_at: Timestamp,
    pub ttl_seconds: u64,
}

/// Whether a claim ran out longer ago than it was to last.
pub open spec fn long_expired(claim: ClaimExpiry, now: Timestamp) -> bool {
    claim.expired && whole_seconds(claim.expires_at, now) > signed_ttl(claim.ttl_seconds)
}

/// The advice that the state of a change gives.
pub open spec fn state_advice(
    directory: Seq<char>,
    state: ChangeState,
    branch_exists: bool,
    claim: ClaimExpiry,
    now: Timestamp,
) -> Seq<FindingView> {
    if state.closure is Some {
        Seq::empty()
    } else {
        (if branch_exists {
            Seq::empty()
        } else {
            seq![
                FindingView {
                    code: "missing-open-branch"@,
                    detail: directory + ": refs/heads/"@ + state.branch@,
                },
            ]
        }) + (if state.claim is Some && long_expired(claim, now) {
            seq![
                FindingView {
                    code: "long-expired-claim"@,
                    detail: directory + ": claim "@ + state.claim->0.claim_id@,
                },
            ]
        } else {
            Seq::empty()
        })
    }
}

fn is_long_expired(claim: &ClaimExpiry, now: Timestamp) -> (r: bool)
    ensures
        r == long_expired(*claim, now),
{
    let overdue: i64 = signed_seconds(claim.expires_at, now);
    claim.expired && if claim.ttl_seconds <= i64::MAX as u64 {
        overdue > claim.ttl_seconds as i64
    } else {
        let below: u64 = u64::MAX - claim.ttl_seconds;
        overdue >= -(below as i64)
    }
}

/// The advice that the state of a change gives: an open one has its branch, and its claim is not
/// long gone.
pub fn inspect_state(
    directory: &str,
    state: &ChangeState,
    branch_exists: bool,
    claim: &ClaimExpiry,
    now: Timestamp,
) -> (r: Vec<Finding>)
    ensures
        finding_views(r@) == state_advice(directory@, *state, branch_exists, *claim, now),
{
    let mut advice: Vec<Finding> = Vec::new();
    assert(finding_views(advice@) =~= Seq::<FindingView>::empty());
    if state.closure.is_some() {
        return advice;
    }
    if !branch_exists {
        let mut detail = directory.to_string();
        detail.append(": refs/heads/");
        detail.append(state.branch.as_str());
        add_finding(&mut advice, "missing-open-branch", detail);
    }
    let ghost first = finding_views(advice@);
    if let Some(held) = &state.claim {
        if is_long_expired(claim, now) {
            let mut detail = directory.to_string();
            detail.append(": claim ");
            detail.append(held.claim_id.as_str());
            add_finding(&mut advice, "long-expired-claim", detail);
        }
    }
    assert(finding_views(advice@) =~= state_advice(
        directory@,
        *state,
        branch_exists,
        *claim,
        now,
    ));
    advice
}

/// The parts of the name of a ref that retains a patchset.
pub open spec fn retention_parts(reference: Seq<char>) -> Seq<Seq<char>> {
    split_of(without_prefix(reference, "refs/arc/keep/"@), '/')
}

/// Whether the ledger knows a patchset of a change.
pub open spec fn knows_patchset(
    changes: Seq<ChangeState>,
    change_id: Seq<char>,
    patchset_id: Seq<char>,
) -> bool {
    exists|i: int|
        0 <= i < changes.len() && (#[trigger] changes[i]).change_id@ == change_id && has_patchset(
            changes[i],
            patchset_id,
        )
}

/// Whether a change has a patchset.
pub open spec fn has_patchset(state: ChangeState, id: Seq<char>) -> bool {
    exists|k: int| 0 <= k < state.patchsets@.len() && (#[trigger] state.patchsets@[k]).id@ == id
}

/// Whether a ref retains nothing that the ledger knows.
pub open spec fn orphaned(changes: Seq<ChangeState>, reference: Seq<char>) -> bool {
    let parts = retention_parts(reference);
    parts.len() != 2 || !knows_patchset(changes, parts[0], parts[1])
}

fn finds_patchset(changes: &Vec<ChangeState>, change_id: &str, patchset_id: &str) -> (r: bool)
    ensures
        r == knows_patchset(changes@, change_id@, patchset_id@),
{
    for i in 0..changes.len()
        invariant
            forall|j: int|
                0 <= j < i ==> (#[trigger] changes@[j]).change_id@ != change_id@ || !has_patchset(
                    changes@[j],
                    patchset_id@,
                ),
    {
        if same(changes[i].change_id.as_str(), change_id) {
            let patchsets = &changes[i].patchsets;
            for k in 0..patchsets.len()
                invariant
                    i < changes@.len(),
                    patchsets@ == changes@[i as int].patchsets@,
                    changes@[i as int].change_id@ == change_id@,
                    forall|j: int| 0 <= j < k ==> (#[trigger] patchsets@[j]).id@ != patchset_id@,
            {
                if same(patchsets[k].id.as_str(), patchset_id) {
                    assert(has_patchset(changes@[i as int], patchset_id@)) by {
                        assert(changes@[i as int].patchsets@[k as int].id@ == patchset_id@);
                    }
                    assert(changes@[i as int].change_id@ == change_id@);
                    return true;
                }
            }
        }
    }
    false
}

fn is_orphaned(changes: &Vec<ChangeState>, reference: &str) -> (r: bool)
    ensures
        r == orphaned(changes@, reference@),
{
    proof {
        reveal_strlit("refs/arc/keep/");
    }
    let rest = strip_prefixes(reference, "refs/arc/keep/");
    let parts = split(rest.as_str(), '/');
    assert(views(parts@).len() == parts@.len());
    if parts.len() != 2 {
        return true;
    }
    assert(views(parts@)[0] == parts@[0]@);
    assert(views(parts@)[1] == parts@[1]@);
    !finds_patchset(changes, parts[0].as_str(), parts[1].as_str())
}

/// The advice that the first `n` refs give.
pub open spec fn ref_advice(changes: Seq<ChangeState>, refs: Seq<String>, n: int) -> Seq<
    FindingView,
>
    decreases n,
{
    if n <= 0 {
        Seq::empty()
    } else if orphaned(changes, refs[n - 1]@) {
        ref_advice(changes, refs, n - 1).push(
            FindingView { code: "orphaned-retention-ref"@, detail: refs[n - 1]@ },
        )
    } else {
        ref_advice(changes, refs, n - 1)
    }
}

/// The refs that retain nothing that the ledger knows.
pub fn inspect_refs(changes: &Vec<ChangeState>, refs: &Vec<String>) -> (r: Vec<Finding>)
    ensures
        finding_views(r@) == ref_advice(changes@, refs@, refs@.len() as int),
{
    let mut advice: Vec<Finding> = Vec::new();
    assert(finding_views(advice@) =~= ref_advice(changes@, refs@, 0));
    for i in 0..refs.len()
        invariant
            finding_views(advice@) == ref_advice(changes@, refs@, i as int),
    {
        if is_orphaned(changes, refs[i].as_str()) {
            add_finding(&mut advice, "orphaned-retention-ref", refs[i].clone());
        }
    }
    advice
}

/// Whether a pattern may match nothing today: it has a wildcard or names a directory.
pub open spec fn open_ended(pattern: Seq<char>) -> bool {
    pattern.contains('*') || ends(pattern, "/"@)
}

/// What is said of a path that is declared dangerous and is not there.
pub open spec fn danger_text(pattern: Seq<char>) -> Seq<char> {
    pattern
        + " is declared dangerous but does not exist; the surface it names is on a self-verdict"@
}

/// The problems that the first `n` patterns are.
pub open spec fn danger_problems(patterns: Seq<String>, present: Seq<bool>, n: int) -> Seq<
    FindingView,
>
    decreases n,
{
    if n <= 0 {
        Seq::empty()
    } else if !open_ended(patterns[n - 1]@) && !present[n - 1] {
        danger_problems(patterns, present, n - 1).push(
            FindingView {
                code: "danger-path-matches-nothing"@,
                detail: danger_text(patterns[n - 1]@),
            },
        )
    } else {
        danger_problems(patterns, present, n - 1)
    }
}

fn is_open_ended(pattern: &str) -> (r: bool)
    ensures
        r == open_ended(pattern@),
{
    let chars = chars_of(pattern);
    for i in 0..chars.len()
        invariant
            chars@ == pattern@,
            forall|j: int| 0 <= j < i ==> chars@[j] != '*',
    {
        if chars[i] == '*' {
            assert(pattern@[i as int] == '*');
            return true;
        }
    }
    assert(!pattern@.contains('*'));
    ends_with(pattern, "/")
}

/// The paths that are declared dangerous and name nothing: such an entry reads as coverage while
/// it covers nothing. `present` says of each whether it is there.
pub fn inspect_danger_paths(patterns: &Vec<String>, present: &Vec<bool>) -> (r: Vec<Finding>)
    requires
        present@.len() == patterns@.len(),
    ensures
        finding_views(r@) == danger_problems(patterns@, present@, patterns@.len() as int),
{
    let mut problems: Vec<Finding> = Vec::new();
    assert(finding_views(problems@) =~= danger_problems(patterns@, present@, 0));
    for i in 0..patterns.len()
        invariant
            present@.len() == patterns@.len(),
            finding_views(problems@) == danger_problems(patterns@, present@, i as int),
    {
        if !is_open_ended(patterns[i].as_str()) && !present[i] {
            let mut detail = patterns[i].clone();
            detail.append(
                " is declared dangerous but does not exist; the surface it names is on a self-verdict",
            );
            add_finding(&mut problems, "danger-path-matches-nothing", detail);
        }
    }
    problems
}

/// The advice that the debts of the first `n` changes give.
pub open spec fn debt_advice(changes: Seq<ChangeState>, debts: Seq<Option<String>>, n: int) -> Seq<
    FindingView,
>
    decreases n,
{
    if n <= 0 {
        Seq::empty()
    } else {
        match debts[n - 1] {
            Some(reason) => debt_advice(changes, debts, n - 1).push(
                FindingView {
                    code: "audit-debt-outstanding"@,
                    detail: changes[n - 1].change_id@ + ": "@ + reason@,
                },
            ),
            None => debt_advice(changes, debts, n - 1),
        }
    }
}

/// The obligations that no one has met. `debts` are the reasons of those that are outstanding.
pub fn inspect_audit_debt(changes: &Vec<ChangeState>, debts: &Vec<Option<String>>) -> (r: Vec<
    Finding,
>)
    requires
        debts@.len() == changes@.len(),
    ensures
        finding_views(r@) == debt_advice(changes@, debts@, debts@.len() as int),
{
    let mut advice: Vec<Finding> = Vec::new();
    assert(finding_views(advice@) =~= debt_advice(changes@, debts@, 0));
    for i in 0..debts.len()
        invariant
            debts@.len() == changes@.len(),
            finding_views(advice@) == debt_advice(changes@, debts@, i as int),
    {
        if let Some(reason) = &debts[i] {
            let mut detail = changes[i].change_id.clone();
            detail.append(": ");
            detail.append(reason.as_str());
            add_finding(&mut advice, "audit-debt-outstanding", detail);
        }
    }
    advice
}

/// Whether a hold is active after the first `n` events.
pub open spec fn hold_active(events: Seq<Event>, n: int, id: Seq<char>) -> bool
    decreases n,
{
    if n <= 0 {
        false
    } else {
        match events[n - 1].payload {
            Payload::HoldSet { .. } => events[n - 1].event_id@ == id || hold_active(
                events,
                n - 1,
                id,
            ),
            Payload::HoldReleased { hold_event_id: Some(released), .. } => released@ != id
                && hold_active(events, n - 1, id),
            Payload::HoldReleased { hold_event_id: None, .. } => false,
            _ => hold_active(events, n - 1, id),
        }
    }
}

/// What is said of a release that names no active hold.
pub open spec fn stray_text(change_id: Seq<char>, event_id: Seq<char>, named: Seq<char>) -> Seq<
    char,
> {
    change_id + ": release "@ + event_id + " names "@ + named + ", which was not an active hold"@
}

/// The advice that the first `n` events give.
pub open spec fn stray_releases(change_id: Seq<char>, events: Seq<Event>, n: int) -> Seq<
    FindingView,
>
    decreases n,
{
    if n <= 0 {
        Seq::empty()
    } else {
        match events[n - 1].payload {
            Payload::HoldReleased { hold_event_id: Some(named), .. } => if hold_active(
                events,
                n - 1,
                named@,
            ) {
                stray_releases(change_id, events, n - 1)
            } else {
                stray_releases(change_id, events, n - 1).push(
                    FindingView {
                        code: "hold-release-names-no-hold"@,
                        detail: stray_text(change_id, events[n - 1].event_id@, named@),
                    },
                )
            },
            _ => stray_releases(change_id, events, n - 1),
        }
    }
}

fn without_text(strings: &Vec<String>, text: &str) -> (r: Vec<String>)
    ensures
        forall|x: Seq<char>| #[trigger] among(r@, x) <==> among(strings@, x) && x != text@,
{
    let mut out: Vec<String> = Vec::new();
    for i in 0..strings.len()
        invariant
            forall|x: Seq<char>| #[trigger]
                among(out@, x) <==> among(strings@.take(i as int), x) && x != text@,
    {
        let ghost before = out@;
        let ghost head = strings@.take(i as int);
        let keep = !same(strings[i].as_str(), text);
        if keep {
            out.push(strings[i].clone());
        }
        assert forall|x: Seq<char>| #[trigger] among(out@, x) <==> among(
            strings@.take(i + 1),
            x,
        ) && x != text@ by {
            let after = strings@.take(i + 1);
            assert(among(before, x) <==> among(head, x) && x != text@);
            if among(head, x) {
                let k = choose|k: int| 0 <= k < head.len() && #[trigger] head[k]@ == x;
                assert(after[k]@ == x);
            }
            if among(after, x) {
                let k = choose|k: int| 0 <= k < after.len() && #[trigger] after[k]@ == x;
                if k < i {
                    assert(head[k]@ == x);
                } else {
                    assert(x == strings@[i as int]@);
                }
            }
            if among(before, x) {
                let k = choose|k: int| 0 <= k < before.len() && #[trigger] before[k]@ == x;
                assert(out@[k]@ == x);
            }
            if among(out@, x) {
                let k = choose|k: int| 0 <= k < out@.len() && #[trigger] out@[k]@ == x;
                if k < before.len() {
                    assert(before[k]@ == x);
                } else {
                    assert(after[i as int]@ == x);
                }
            }
            if keep {
                assert(out@[before.len() as int]@ == strings@[i as int]@);
            }
        }
    }
    assert(strings@.take(strings@.len() as int) =~= strings@);
    out
}

proof fn lemma_among_push(strings: Seq<String>, added: String, x: Seq<char>)
    ensures
        among(strings.push(added), x) <==> among(strings, x) || x == added@,
{
    let after = strings.push(added);
    if among(strings, x) {
        let k = choose|k: int| 0 <= k < strings.len() && #[trigger] strings[k]@ == x;
        assert(after[k]@ == x);
    }
    if x == added@ {
        assert(after[strings.len() as int]@ == x);
    }
    if among(after, x) {
        let k = choose|k: int| 0 <= k < after.len() && #[trigger] after[k]@ == x;
        if k < strings.len() {
            assert(strings[k]@ == x);
        }
    }
}

/// The releases of a change that name no active hold: a hold was released twice, or the events do
/// not say what somebody thought.
pub fn inspect_hold_releases(change_id: &str, events: &Vec<Event>) -> (r: Vec<Finding>)
    ensures
        finding_views(r@) == stray_releases(change_id@, events@, events@.len() as int),
{
    let mut advice: Vec<Finding> = Vec::new();
    let mut active: Vec<String> = Vec::new();
    assert(finding_views(advice@) =~= stray_releases(change_id@, events@, 0));
    for i in 0..events.len()
        invariant
            finding_views(advice@) == stray_releases(change_id@, events@, i as int),
            forall|x: Seq<char>| #[trigger]
                among(active@, x) <==> hold_active(events@, i as int, x),
    {
        let ghost before = active@;
        match &events[i].payload {
            Payload::HoldSet { reason } => {
                let id = events[i].event_id.clone();
                active.push(id);
                assert forall|x: Seq<char>| #[trigger] among(active@, x) <==> hold_active(
                    events@,
                    i + 1,
                    x,
                ) by {
                    lemma_among_push(before, id, x);
                    assert(among(before, x) <==> hold_active(events@, i as int, x));
                }
            },
            Payload::HoldReleased { hold_event_id: Some(named), reason } => {
                if !contains(&active, named.as_str()) {
                    let mut detail = change_id.to_string();
                    detail.append(": release ");
                    detail.append(events[i].event_id.as_str());
                    detail.append(" names ");
                    detail.append(named.as_str());
                    detail.append(", which was not an active hold");
                    add_finding(&mut advice, "hold-release-names-no-hold", detail);
                }
                active = without_text(&active, named.as_str());
                assert forall|x: Seq<char>| #[trigger] among(active@, x) <==> hold_active(
                    events@,
                    i + 1,
                    x,
                ) by {
                    assert(among(before, x) <==> hold_active(events@, i as int, x));
                }
            },
            Payload::HoldReleased { hold_event_id: None, reason } => {
                active = Vec::new();
            },
            _ => {
                assert forall|x: Seq<char>| #[trigger] among(active@, x) <==> hold_active(
                    events@,
                    i + 1,
                    x,
                ) by {
                    assert(among(before, x) <==> hold_active(events@, i as int, x));
                }
            },
        }
    }
    advice
}

/// What was read from a file of an event of the repository.
pub enum RepositoryRead {
    /// Its name is none that the ledger writes.
    InvalidId { error: String },
    /// It holds no event.
    Malformed { error: String },
    Event {
        /// What is wrong with the rewrite that it records, where it records one.
        mapping_error: Option<String>,
        /// The change that it names.
        scope: Option<String>,
        /// The identity that it names.
        named: Option<String>,
    },
}

/// A file of an event of the repository.
pub struct RepositoryFile {
    pub event_id: String,
    pub read: RepositoryRead,
}

/// What is said of a file of the repository and what is wrong with it.
pub open spec fn named_error(event_id: Seq<char>, error: Seq<char>) -> Seq<char> {
    event_id + ": "@ + error
}

/// The one problem that a file of the repository is where it cannot be read.
pub open spec fn unreadable(event_id: Seq<char>, error: Seq<char>) -> Seq<FindingView> {
    seq![
        FindingView {
            code: "malformed-repository-event"@,
            detail: named_error(event_id, error),
        },
    ]
}

/// The problems that an event of the repository is: the rewrite that it records is none, it is
/// recorded for something else than the repository, or it names another identity than its file.
pub open spec fn event_problems(
    id: Seq<char>,
    mapping_error: Option<Seq<char>>,
    scope: Option<Seq<char>>,
    named: Option<Seq<char>>,
    repository: Seq<char>,
) -> Seq<FindingView> {
    let mapping = match mapping_error {
        Some(error) => seq![
            FindingView { code: "invalid-rewrite-mapping"@, detail: named_error(id, error) },
        ],
        None => Seq::empty(),
    };
    let misscoped = if scope == Some(repository) {
        Seq::empty()
    } else {
        seq![
            FindingView {
                code: "misscoped-repository-event"@,
                detail: id + " is stored as a repository event but names change "@ + (
                match scope {
                    Some(scope) => scope,
                    None => "(none)"@,
                }),
            },
        ]
    };
    let misnamed = if named == Some(id) {
        Seq::empty()
    } else {
        seq![
            FindingView {
                code: "malformed-repository-event"@,
                detail: id + " contains a different event_id"@,
            },
        ]
    };
    mapping + misscoped + misnamed
}

/// The problems that a file of the repository is. One that cannot be read is one problem.
pub open spec fn repository_problems(file: RepositoryFile, repository: Seq<char>) -> Seq<
    FindingView,
> {
    match file.read {
        RepositoryRead::InvalidId { error } => unreadable(file.event_id@, error@),
        RepositoryRead::Malformed { error } => unreadable(file.event_id@, error@),
        RepositoryRead::Event { mapping_error, scope, named } => event_problems(
            file.event_id@,
            opt_view(mapping_error),
            opt_view(scope),
            opt_view(named),
            repository,
        ),
    }
}

/// The problems that the bytes of a file of the repository are, from the value that they are read
/// as. What is wrong with the name of the file comes first, then that the bytes are no value, then
/// that the value is no event.
pub open spec fn bytes_problems(
    event_id: Seq<char>,
    id_error: Option<Seq<char>>,
    value: Option<serde_json::Value>,
    json_error: Seq<char>,
    typed_error: Option<Seq<char>>,
    mapping_error: Option<Seq<char>>,
    repository: Seq<char>,
) -> Seq<FindingView> {
    match (id_error, value, typed_error) {
        (Some(error), _, _) => unreadable(event_id, error),
        (None, None, _) => unreadable(event_id, json_error),
        (None, Some(_), Some(error)) => unreadable(event_id, error),
        (None, Some(value), None) => event_problems(
            event_id,
            mapping_error,
            string_under(value, "change_id"@),
            string_under(value, "event_id"@),
            repository,
        ),
    }
}

fn write_named(event_id: &str, error: &str) -> (r: String)
    ensures
        r@ == named_error(event_id@, error@),
{
    let mut out = event_id.to_string();
    out.append(": ");
    out.append(error);
    out
}

/// The problems that a file of the repository is. `repository` is the scope under which events of
/// the repository are recorded.
pub fn inspect_repository_event(file: &RepositoryFile, repository: &str) -> (r: Vec<Finding>)
    ensures
        finding_views(r@) == repository_problems(*file, repository@),
{
    let mut problems: Vec<Finding> = Vec::new();
    assert(finding_views(problems@) =~= Seq::<FindingView>::empty());
    let id = file.event_id.as_str();
    match &file.read {
        RepositoryRead::InvalidId { error } => {
            add_finding(
                &mut problems,
                "malformed-repository-event",
                write_named(id, error.as_str()),
            );
        },
        RepositoryRead::Malformed { error } => {
            add_finding(
                &mut problems,
                "malformed-repository-event",
                write_named(id, error.as_str()),
            );
        },
        RepositoryRead::Event { mapping_error, scope, named } => {
            if let Some(error) = mapping_error {
                add_finding(
                    &mut problems,
                    "invalid-rewrite-mapping",
                    write_named(id, error.as_str()),
                );
            }
            let scoped = match scope {
                Some(scope) => same(scope.as_str(), repository),
                None => false,
            };
            if !scoped {
                let mut detail = file.event_id.clone();
                detail.append(" is stored as a repository event but names change ");
                match scope {
                    Some(scope) => detail.append(scope.as_str()),
                    None => detail.append("(none)"),
                }
                add_finding(&mut problems, "misscoped-repository-event", detail);
            }
            let agrees = match named {
                Some(named) => same(named.as_str(), id),
                None => false,
            };
            if !agrees {
                let mut detail = file.event_id.clone();
                detail.append(" contains a different event_id");
                add_finding(&mut problems, "malformed-repository-event", detail);
            }
        },
    }
    assert(finding_views(problems@) =~= repository_problems(*file, repository@));
    problems
}

fn copy_text(text: &Option<String>) -> (r: Option<String>)
    ensures
        opt_view(r) == opt_view(*text),
{
    match text {
        Some(text) => Some(text.clone()),
        None => None,
    }
}

/// The problems that the bytes of a file of the repository are. `id_error` is what is wrong with
/// its name, `json_error` what reading the bytes as a value says where they are none,
/// `typed_error` why the value is no event, and `mapping_error` what is wrong with the rewrite that
/// it records. `repository` is the scope under which events of the repository are recorded.
pub fn inspect_repository_bytes(
    event_id: &str,
    id_error: &Option<String>,
    bytes: &Vec<u8>,
    json_error: &str,
    typed_error: &Option<String>,
    mapping_error: &Option<String>,
    repository: &str,
) -> (r: Vec<Finding>)
    ensures
        finding_views(r@) == bytes_problems(
            event_id@,
            opt_view(*id_error),
            json_of_bytes(bytes@),
            json_error@,
            opt_view(*typed_error),
            opt_view(*mapping_error),
            repository@,
        ),
{
    let read = match id_error {
        Some(error) => RepositoryRead::InvalidId { error: error.clone() },
        None => match read_json_bytes(bytes) {
            None => RepositoryRead::Malformed { error: json_error.to_string() },
            Some(value) => match typed_error {
                Some(error) => RepositoryRead::Malformed { error: error.clone() },
                None => RepositoryRead::Event {
                    mapping_error: copy_text(mapping_error),
                    scope: read_string(&value, "change_id"),
                    named: read_string(&value, "event_id"),
                },
            },
        },
    };
    inspect_repository_event(&RepositoryFile { event_id: event_id.to_string(), read }, repository)
}

/// A file among the events of the repository: its bytes, and what was found wrong with it where
/// it was looked at.
pub struct StoredFile {
    pub event_id: String,
    pub bytes: Vec<u8>,
    pub id_error: Option<String>,
    pub json_error: String,
    pub typed_error: Option<String>,
    pub mapping_error: Option<String>,
}

/// The problems that a file among the events of the repository is.
pub open spec fn stored_problems(file: StoredFile, repository: Seq<char>) -> Seq<FindingView> {
    bytes_problems(
        file.event_id@,
        opt_view(file.id_error),
        json_of_bytes(file.bytes@),
        file.json_error@,
        opt_view(file.typed_error),
        opt_view(file.mapping_error),
        repository,
    )
}

/// The problems that the first `n` files among the events of the repository are.
pub open spec fn files_problems(files: Seq<StoredFile>, repository: Seq<char>, n: int) -> Seq<
    FindingView,
>
    decreases n,
{
    if n <= 0 {
        Seq::empty()
    } else {
        files_problems(files, repository, n - 1) + stored_problems(files[n - 1], repository)
    }
}

/// The problems that the events of the repository are. Where their files cannot be listed, that is
/// the one problem.
pub fn inspect_repository_events(files: &Result<Vec<StoredFile>, String>, repository: &str) -> (r:
    Vec<Finding>)
    ensures
        finding_views(r@) == (match *files {
            Ok(files) => files_problems(files@, repository@, files@.len() as int),
            Err(error) => seq![
                FindingView { code: "malformed-repository-event"@, detail: error@ },
            ],
        }),
{
    let mut problems: Vec<Finding> = Vec::new();
    assert(finding_views(problems@) =~= Seq::<FindingView>::empty());
    match files {
        Err(error) => {
            add_finding(&mut problems, "malformed-repository-event", error.clone());
            assert(finding_views(problems@) =~= seq![
                FindingView { code: "malformed-repository-event"@, detail: error@ },
            ]);
        },
        Ok(files) => {
            for i in 0..files.len()
                invariant
                    finding_views(problems@) == files_problems(files@, repository@, i as int),
            {
                let file = &files[i];
                let mut more = inspect_repository_bytes(
                    file.event_id.as_str(),
                    &file.id_error,
                    &file.bytes,
                    file.json_error.as_str(),
                    &file.typed_error,
                    &file.mapping_error,
                    repository,
                );
                let ghost before = finding_views(problems@);
                let ghost added = finding_views(more@);
                problems.append(&mut more);
                assert(finding_views(problems@) =~= before + added);
            }
        },
    }
    problems
}

/// The worktrees that the first `n` lines of a listing name.
pub open spec fn worktrees_in(all: Seq<Seq<char>>, n: int) -> Seq<Seq<char>>
    decreases n,
{
    if n <= 0 {
        Seq::empty()
    } else if begins(all[n - 1], "worktree "@) {
        worktrees_in(all, n - 1).push(all[n - 1].skip("worktree "@.len() as int))
    } else {
        worktrees_in(all, n - 1)
    }
}

/// The worktrees that a listing names.
pub fn registered_worktrees(listing: &str) -> (r: Vec<String>)
    ensures
        views(r@) == worktrees_in(lines_of(listing@), lines_of(listing@).len() as int),
{
    let all = lines(listing);
    let mut out: Vec<String> = Vec::new();
    assert(views(out@) =~= worktrees_in(lines_of(listing@), 0));
    for i in 0..all.len()
        invariant
            views(all@) == lines_of(listing@),
            views(out@) == worktrees_in(lines_of(listing@), i as int),
    {
        let ghost before = views(out@);
        assert(views(all@)[i as int] == all@[i as int]@);
        if let Some(path) = strip_prefix(all[i].as_str(), "worktree ") {
            let ghost added = path@;
            out.push(path);
            assert(views(out@) =~= before.push(added));
        }
    }
    assert(views(all@).len() == all@.len());
    out
}

/// How a change closed, in a word.
pub open spec fn outcome_word(outcome: Closure) -> Seq<char> {
    match outcome {
        Closure::Integrated => "integrated"@,
        Closure::Abandoned => "abandoned"@,
        Closure::Superseded => "superseded"@,
    }
}

/// The advice that the worktree of a change gives: a closed one should have none.
pub open spec fn worktree_advice(state: ChangeState, registered: Seq<String>) -> Option<
    FindingView,
> {
    match (state.closure, state.worktree) {
        (Some(closure), Some(worktree)) => if among(registered, worktree@) {
            Some(
                FindingView {
                    code: "closed-change-worktree"@,
                    detail: state.change_id@ + " ["@ + outcome_word(closure.outcome) + "]: "@
                        + worktree@,
                },
            )
        } else {
            None
        },
        _ => None,
    }
}

/// The advice that the worktrees of the first `n` changes give.
pub open spec fn worktree_advices(changes: Seq<ChangeState>, registered: Seq<String>, n: int) -> Seq<
    FindingView,
>
    decreases n,
{
    if n <= 0 {
        Seq::empty()
    } else {
        match worktree_advice(changes[n - 1], registered) {
            Some(found) => worktree_advices(changes, registered, n - 1).push(found),
            None => worktree_advices(changes, registered, n - 1),
        }
    }
}

/// The worktrees that closed changes still have.
pub fn inspect_closed_worktrees(changes: &Vec<ChangeState>, registered: &Vec<String>) -> (r: Vec<
    Finding,
>)
    ensures
        finding_views(r@) == worktree_advices(changes@, registered@, changes@.len() as int),
{
    let mut advice: Vec<Finding> = Vec::new();
    assert(finding_views(advice@) =~= worktree_advices(changes@, registered@, 0));
    for i in 0..changes.len()
        invariant
            finding_views(advice@) == worktree_advices(changes@, registered@, i as int),
    {
        let state = &changes[i];
        if let Some(closure) = &state.closure {
            if let Some(worktree) = &state.worktree {
                if contains(registered, worktree.as_str()) {
                    let mut detail = state.change_id.clone();
                    detail.append(" [");
                    detail.append(
                        match closure.outcome {
                            Closure::Integrated => "integrated",
                            Closure::Abandoned => "abandoned",
                            Closure::Superseded => "superseded",
                        },
                    );
                    detail.append("]: ");
                    detail.append(worktree.as_str());
                    add_finding(&mut advice, "closed-change-worktree", detail);
                }
            }
        }
    }
    advice
}

/// The positions of the changes that are open.
pub open spec fn open_positions(changes: Seq<ChangeState>) -> Seq<int> {
    chosen(changes.len(), |i: int| changes[i].closure is None)
}

/// Whether the open changes wait for each other in a circle.
pub open spec fn open_cycle(changes: Seq<ChangeState>) -> bool {
    exists|members: Seq<usize>| #[trigger]
        ints(members) == open_positions(changes) && cyclic(changes, members)
}

/// The advice that a circle of prerequisites gives: it names the open changes.
pub fn inspect_dependencies(changes: &Vec<ChangeState>) -> (r: Option<Finding>)
    requires
        ledger(changes@),
    ensures
        match r {
            Some(found) => open_cycle(changes@) && found.code@ == "dependency-cycle"@
                && found.detail@ == joined(
                ids_at(changes@, open_positions(changes@)),
                ", "@,
            ),
            None => exists|members: Seq<usize>| #[trigger]
                ints(members) == open_positions(changes@) && !cyclic(changes@, members),
        },
{
    let mut members: Vec<usize> = Vec::new();
    let mut ids: Vec<String> = Vec::new();
    let ghost wanted = |i: int| changes@[i].closure is None;
    assert(ints(members@) =~= Seq::<int>::empty());
    assert(views(ids@) =~= ids_at(changes@, chosen(0, wanted)));
    for i in 0..changes.len()
        invariant
            wanted == (|i: int| changes@[i].closure is None),
            ints(members@) == chosen(i as nat, wanted),
            views(ids@) == ids_at(changes@, chosen(i as nat, wanted)),
            members@.no_duplicates(),
            forall|k: int| 0 <= k < members@.len() ==> #[trigger] members@[k] < i,
    {
        let ghost members_before = ints(members@);
        let ghost ids_before = views(ids@);
        if !changes[i].is_closed() {
            members.push(i);
            ids.push(changes[i].change_id.clone());
            assert(ints(members@) =~= members_before.push(i as int));
            assert(views(ids@) =~= ids_before.push(changes@[i as int].change_id@));
            assert(ids_at(changes@, members_before.push(i as int)) =~= ids_before.push(
                changes@[i as int].change_id@,
            ));
        }
    }
    match dependency_order(changes, &members) {
        Ok(_) => {
            assert(ints(members@) == open_positions(changes@));
            None
        },
        Err(_) => {
            assert(ints(members@) == open_positions(changes@));
            Some(Finding { code: "dependency-cycle", detail: join(&ids, ", ") })
        },
    }
}

/// Whether `r` is the exit code of a diagnosis.
pub open spec fn fails_on_problems(
    problems: &Vec<Finding>,
    r: i32,
) -> bool {
    r == (if problems@.len() > 0 {
            1i32
        } else {
            0i32
        })
}

/// The exit code of a diagnosis: only problems fail it.
pub fn exit_code(problems: &Vec<Finding>) -> (r: i32)
    ensures
        fails_on_problems(problems, r),
{
    if problems.len() > 0 {
        1
    } else {
        0
    }
}

/// The line of something that was found.
pub open spec fn finding_line(found: FindingView) -> Seq<char> {
    "  "@ + found.code + ": "@ + found.detail
}

/// The lines of what was found under a label.
pub open spec fn listed_lines(label: Seq<char>, findings: Seq<FindingView>) -> Seq<Seq<char>> {
    if findings.len() == 0 {
        seq![label + ":"@, "  (none)"@]
    } else {
        seq![label + ":"@] + Seq::new(findings.len(), |i: int| finding_line(findings[i]))
    }
}

fn write_finding(found: &Finding) -> (r: String)
    ensures
        r@ == finding_line(found@),
{
    let mut out = "  ".to_string();
    out.append(found.code);
    out.append(": ");
    out.append(found.detail.as_str());
    out
}

/// The lines of what was found under a label.
pub fn render(label: &str, findings: &Vec<Finding>) -> (r: Vec<String>)
    ensures
        views(r@) == listed_lines(label@, finding_views(findings@)),
{
    let mut out: Vec<String> = Vec::new();
    let mut head = label.to_string();
    head.append(":");
    out.push(head);
    if findings.len() == 0 {
        out.push("  (none)".to_string());
    }
    for i in 0..findings.len()
        invariant
            findings@.len() > 0 ==> out@.len() == i + 1,
            findings@.len() == 0 ==> out@.len() == 2 && out@[1]@ == "  (none)"@,
            out@[0]@ == label@ + ":"@,
            forall|j: int| 1 <= j <= i ==> (#[trigger] out@[j])@ == finding_line(findings@[j - 1]@),
    {
        out.push(write_finding(&findings[i]));
    }
    assert(views(out@) =~= listed_lines(label@, finding_views(findings@)));
    out
}

/// What is said of several findings of one kind, where they are told together.
pub open spec fn grouped_text(code: Seq<char>, n: nat) -> Option<Seq<char>> {
    if code == "long-expired-claim"@ {
        Some(
            decimal_of(n)
                + " open changes have claims expired for more than one TTL; run arc doctor --verbose to identify them"@,
        )
    } else if code == "orphaned-temporary-file"@ {
        Some(
            decimal_of(n)
                + " orphaned temporary event files; run arc doctor --verbose to list paths"@,
        )
    } else if code == "unknown-event-type"@ {
        Some(
            decimal_of(n)
                + " unknown event files were skipped; run arc doctor --verbose to list paths"@,
        )
    } else if code == "missing-open-branch"@ {
        Some(
            decimal_of(n)
                + " open changes have missing branches; run arc doctor --verbose to identify them"@,
        )
    } else if code == "orphaned-retention-ref"@ {
        Some(
            decimal_of(n)
                + " retention refs do not identify a known patchset; run arc doctor --verbose to list refs"@,
        )
    } else if code == "closed-change-worktree"@ {
        Some(
            decimal_of(n)
                + " registered worktrees belong to closed changes; run arc doctor --verbose to list change/path pairs; remove only with git worktree remove <path>"@,
        )
    } else {
        None
    }
}

fn after_number(n: usize, rest: &str) -> (r: Option<String>)
    ensures
        opt_view(r) == Some(decimal_of(n as nat) + rest@),
{
    let mut out = decimal(n as u64);
    out.append(rest);
    Some(out)
}

/// What is said of several findings of one kind, where they are told together.
pub fn grouped_summary(code: &str, n: usize) -> (r: Option<String>)
    ensures
        opt_view(r) == grouped_text(code@, n as nat),
{
    if same(code, "long-expired-claim") {
        after_number(
            n,
            " open changes have claims expired for more than one TTL; run arc doctor --verbose to identify them",
        )
    } else if same(code, "orphaned-temporary-file") {
        after_number(
            n,
            " orphaned temporary event files; run arc doctor --verbose to list paths",
        )
    } else if same(code, "unknown-event-type") {
        after_number(
            n,
            " unknown event files were skipped; run arc doctor --verbose to list paths",
        )
    } else if same(code, "missing-open-branch") {
        after_number(
            n,
            " open changes have missing branches; run arc doctor --verbose to identify them",
        )
    } else if same(code, "orphaned-retention-ref") {
        after_number(
            n,
            " retention refs do not identify a known patchset; run arc doctor --verbose to list refs",
        )
    } else if same(code, "closed-change-worktree") {
        after_number(
            n,
            " registered worktrees belong to closed changes; run arc doctor --verbose to list change/path pairs; remove only with git worktree remove <path>",
        )
    } else {
        None
    }
}

/// How many of the findings are of a kind.
pub open spec fn of_kind(findings: Seq<FindingView>, code: Seq<char>) -> nat {
    count(findings, |found: FindingView| found.code == code)
}

/// Whether the finding at `i` is the first of its kind.
pub open spec fn first_of_kind(findings: Seq<FindingView>, i: int) -> bool {
    forall|j: int| 0 <= j < i ==> (#[trigger] findings[j]).code != findings[i].code
}

/// The line that the finding at `i` gives: its own, or that of its kind where there are several
/// of one that is told together, and the first of them gives it.
pub open spec fn advice_line(findings: Seq<FindingView>, i: int) -> Option<Seq<char>> {
    let code = findings[i].code;
    let n = of_kind(findings, code);
    if n >= 2 && grouped_text(code, n) is Some {
        if first_of_kind(findings, i) {
            Some("  "@ + code + ": "@ + grouped_text(code, n)->0)
        } else {
            None
        }
    } else {
        Some(finding_line(findings[i]))
    }
}

/// The lines that the first `n` findings give.
pub open spec fn advice_lines(findings: Seq<FindingView>, n: int) -> Seq<Seq<char>>
    decreases n,
{
    if n <= 0 {
        Seq::empty()
    } else {
        match advice_line(findings, n - 1) {
            Some(line) => advice_lines(findings, n - 1).push(line),
            None => advice_lines(findings, n - 1),
        }
    }
}

fn count_kind(findings: &Vec<Finding>, code: &str) -> (r: usize)
    ensures
        r == of_kind(finding_views(findings@), code@),
{
    let mut n: usize = 0;
    let ghost all = finding_views(findings@);
    let ghost wanted = |found: FindingView| found.code == code@;
    assert(all.take(0) =~= Seq::<FindingView>::empty());
    for i in 0..findings.len()
        invariant
            all == finding_views(findings@),
            wanted == (|found: FindingView| found.code == code@),
            n == count(all.take(i as int), wanted),
            n <= i,
    {
        assert(all.take(i + 1).drop_last() =~= all.take(i as int));
        if same(findings[i].code, code) {
            n += 1;
        }
    }
    assert(all.take(all.len() as int) =~= all);
    n
}

fn is_first(findings: &Vec<Finding>, i: usize) -> (r: bool)
    requires
        i < findings@.len(),
    ensures
        r == first_of_kind(finding_views(findings@), i as int),
{
    let ghost all = finding_views(findings@);
    for j in 0..i
        invariant
            i < findings@.len(),
            all == finding_views(findings@),
            forall|k: int| 0 <= k < j ==> (#[trigger] all[k]).code != all[i as int].code,
    {
        if same(findings[j].code, findings[i].code) {
            assert(all[j as int].code == all[i as int].code);
            return false;
        }
    }
    true
}

fn write_advice(findings: &Vec<Finding>, i: usize) -> (r: Option<String>)
    requires
        i < findings@.len(),
    ensures
        opt_view(r) == advice_line(finding_views(findings@), i as int),
{
    let code = findings[i].code;
    let n: usize = count_kind(findings, code);
    if n >= 2 {
        if let Some(summary) = grouped_summary(code, n) {
            if !is_first(findings, i) {
                return None;
            }
            let mut out = "  ".to_string();
            out.append(code);
            out.append(": ");
            out.append(summary.as_str());
            return Some(out);
        }
    }
    Some(write_finding(&findings[i]))
}

/// The lines of the advice: all of it, or with what is alike told together.
pub fn render_advice(findings: &Vec<Finding>, verbose: bool) -> (r: Vec<String>)
    ensures
        views(r@) == (if findings@.len() == 0 || verbose {
            listed_lines("advice"@, finding_views(findings@))
        } else {
            seq!["advice:"@] + advice_lines(finding_views(findings@), findings@.len() as int)
        }),
{
    if findings.len() == 0 || verbose {
        return render("advice", findings);
    }
    let mut out: Vec<String> = Vec::new();
    out.push("advice:".to_string());
    let ghost all = finding_views(findings@);
    assert(views(out@) =~= seq!["advice:"@] + advice_lines(all, 0));
    for i in 0..findings.len()
        invariant
            all == finding_views(findings@),
            views(out@) == seq!["advice:"@] + advice_lines(all, i as int),
    {
        let ghost before = views(out@);
        if let Some(line) = write_advice(findings, i) {
            let ghost added = line@;
            out.push(line);
            assert(views(out@) =~= before.push(added));
            assert((seq!["advice:"@] + advice_lines(all, i as int)).push(added) =~= seq![
                "advice:"@,
            ] + advice_lines(all, i as int).push(added));
        }
    }
    out
}

/// An event counts exactly where its file is a JSON file that holds one of a known type and every
/// identity is one that the ledger writes.
pub proof fn sound_files_are_kept(file: EventFile)
    ensures
        file_fate(file) == FileFate::Kept <==> file.is_file && !ends(file.name@, ".tmp"@) && ends(
            file.name@,
            ".json"@,
        ) && file.event is Some && file.ids_valid && !(file.event->0.payload is Unknown),
        file_problem(file) is Some <==> file.is_file && !ends(file.name@, ".tmp"@) && ends(
            file.name@,
            ".json"@,
        ) && (file.event is None || !file.ids_valid),
        file_advice(file) is Some ==> file.is_file && file_problem(file) is None,
        file.is_file && ends(file.name@, ".tmp"@) ==> file_advice(file) is Some,
{
}

proof fn lemma_no_file_problem(files: Seq<EventFile>, n: int)
    requires
        0 <= n <= files.len(),
    ensures
        file_problems(files, n).len() == 0 <==> forall|i: int|
            0 <= i < n ==> file_problem(#[trigger] files[i]) is None,
    decreases n,
{
    if n > 0 {
        lemma_no_file_problem(files, n - 1);
        if file_problem(files[n - 1]) is None && file_problems(files, n - 1).len() == 0 {
            assert forall|i: int| 0 <= i < n implies file_problem(#[trigger] files[i]) is None by {
                if i < n - 1 {
                    assert(file_problem(files[i]) is None);
                }
            }
        }
    }
}

/// The directory of a change is without a problem exactly where one of its events opens the change
/// and every JSON file in it holds an event under identities that the ledger writes.
pub proof fn sound_changes_have_no_problems(
    found: ChangeInspection,
    directory: Seq<char>,
    files: Vec<EventFile>,
)
    requires
        inspects(found, directory, Some(files)),
    ensures
        found.problems@.len() == 0 <==> found.opened && forall|i: int|
            0 <= i < files@.len() && (#[trigger] files@[i]).is_file && !ends(
                files@[i].name@,
                ".tmp"@,
            ) && ends(files@[i].name@, ".json"@) ==> files@[i].event is Some && files@[i].ids_valid,
        found.opened <==> exists|i: int|
            0 <= i < files@.len() && file_fate(#[trigger] files@[i]) == FileFate::Kept
                && files@[i].event->0.payload is ChangeOpened,
{
    let n = files@.len() as int;
    lemma_no_file_problem(files@, n);
    assert(finding_views(found.problems@).len() == found.problems@.len());
    if found.opened {
        let i = choose|i: int| 0 <= i < n && opens_change(#[trigger] files@[i]);
        assert(file_fate(files@[i]) == FileFate::Kept);
        if found.problems@.len() == 0 {
            assert forall|i: int|
                0 <= i < files@.len() && (#[trigger] files@[i]).is_file && !ends(
                    files@[i].name@,
                    ".tmp"@,
                ) && ends(files@[i].name@, ".json"@) implies files@[i].event is Some
                && files@[i].ids_valid by {
                assert(file_problem(files@[i]) is None);
            }
        } else {
            let i = choose|i: int| 0 <= i < n && file_problem(#[trigger] files@[i]) is Some;
            assert(files@[i].is_file);
        }
    }
    if exists|i: int|
        0 <= i < files@.len() && file_fate(#[trigger] files@[i]) == FileFate::Kept
            && files@[i].event->0.payload is ChangeOpened {
        let i = choose|i: int|
            0 <= i < files@.len() && file_fate(#[trigger] files@[i]) == FileFate::Kept
                && files@[i].event->0.payload is ChangeOpened;
        assert(opens_change(files@[i]));
    }
}

/// Without the directory of its events a change has the one problem that nothing opens it.
pub proof fn changes_without_events_are_not_opened(
    found: ChangeInspection,
    directory: Seq<char>,
)
    requires
        inspects(found, directory, None),
    ensures
        found.problems@.len() == 1,
        found.problems@[0].code@ == "missing-open-event"@,
        !found.opened,
{
    assert(finding_views(found.problems@).len() == found.problems@.len());
    assert(finding_views(found.problems@)[0] == found.problems@[0]@);
}

/// A closed change gives no advice; an open one gives some exactly where its branch is gone, or its
/// claim ran out longer ago than it was to last.
pub proof fn closed_changes_need_no_advice(
    directory: Seq<char>,
    state: ChangeState,
    branch_exists: bool,
    claim: ClaimExpiry,
    now: Timestamp,
)
    ensures
        state_advice(directory, state, branch_exists, claim, now).len() == 0 <==> state.closure
            is Some || (branch_exists && !(state.claim is Some && claim.expired && whole_seconds(
            claim.expires_at,
            now,
        ) > signed_ttl(claim.ttl_seconds))),
        state_advice(directory, state, branch_exists, claim, now).len() <= 2,
{
}

/// A ref that retains a patchset which the ledger knows is not orphaned.
pub proof fn known_patchsets_are_retained(
    changes: Seq<ChangeState>,
    reference: Seq<char>,
    i: int,
    k: int,
)
    requires
        0 <= i < changes.len(),
        0 <= k < changes[i].patchsets@.len(),
        retention_parts(reference) == seq![changes[i].change_id@, changes[i].patchsets@[k].id@],
    ensures
        !orphaned(changes, reference),
{
    assert(has_patchset(changes[i], changes[i].patchsets@[k].id@));
}

/// A ledger without changes retains nothing.
pub proof fn unknown_patchsets_are_orphaned(changes: Seq<ChangeState>, reference: Seq<char>)
    requires
        forall|i: int, k: int|
            0 <= i < changes.len() && 0 <= k < changes[i].patchsets@.len() ==> (
            #[trigger] changes[i].patchsets@[k]).id@ != retention_parts(reference)[1],
    ensures
        orphaned(changes, reference),
{
    let parts = retention_parts(reference);
    if parts.len() == 2 && knows_patchset(changes, parts[0], parts[1]) {
        let i = choose|i: int|
            0 <= i < changes.len() && (#[trigger] changes[i]).change_id@ == parts[0]
                && has_patchset(changes[i], parts[1]);
        let k = choose|k: int|
            0 <= k < changes[i].patchsets@.len() && (#[trigger] changes[i].patchsets@[k]).id@
                == parts[1];
        assert(changes[i].patchsets@[k].id@ != parts[1]);
    }
}

/// Paths that are declared dangerous are without a problem exactly where each is there, has a
/// wildcard or names a directory.
pub proof fn dangerous_paths_name_something(patterns: Seq<String>, present: Seq<bool>, n: int)
    requires
        0 <= n <= patterns.len(),
    ensures
        danger_problems(patterns, present, n).len() == 0 <==> forall|i: int|
            0 <= i < n ==> (#[trigger] patterns[i])@.contains('*') || ends(patterns[i]@, "/"@)
                || present[i],
    decreases n,
{
    if n > 0 {
        dangerous_paths_name_something(patterns, present, n - 1);
        if danger_problems(patterns, present, n).len() == 0 {
            assert forall|i: int| 0 <= i < n implies (#[trigger] patterns[i])@.contains('*')
                || ends(patterns[i]@, "/"@) || present[i] by {
                if i == n - 1 {
                    assert(open_ended(patterns[n - 1]@) || present[n - 1]);
                }
            }
        } else if open_ended(patterns[n - 1]@) || present[n - 1] {
            assert(danger_problems(patterns, present, n - 1).len() != 0);
        }
    }
}

/// As much advice is given on debts as there are changes with one outstanding.
pub proof fn every_debt_is_told(
    changes: Seq<ChangeState>,
    debts: Seq<Option<String>>,
    n: int,
)
    requires
        0 <= n <= debts.len(),
    ensures
        debt_advice(changes, debts, n).len() == count(
            debts.take(n),
            |debt: Option<String>| debt is Some,
        ),
    decreases n,
{
    if n > 0 {
        every_debt_is_told(changes, debts, n - 1);
        assert(debts.take(n).drop_last() =~= debts.take(n - 1));
        assert(debts.take(n).last() == debts[n - 1]);
    }
}

/// Whether an event lifts a hold: it releases that one, or all of them.
pub open spec fn lifts(event: Event, id: Seq<char>) -> bool {
    event.payload matches Payload::HoldReleased { hold_event_id, .. } && (hold_event_id is None
        || hold_event_id->0@ == id)
}

/// A hold is active exactly where it was set and nothing after that lifted it.
pub proof fn holds_last_until_lifted(events: Seq<Event>, n: int, id: Seq<char>)
    requires
        0 <= n <= events.len(),
    ensures
        hold_active(events, n, id) <==> exists|i: int|
            {
                &&& 0 <= i < n
                &&& (#[trigger] events[i]).payload is HoldSet
                &&& events[i].event_id@ == id
                &&& forall|j: int| i < j < n ==> !lifts(#[trigger] events[j], id)
            },
    decreases n,
{
    if n > 0 {
        holds_last_until_lifted(events, n - 1, id);
        let last = events[n - 1];
        if hold_active(events, n, id) {
            if last.payload is HoldSet && last.event_id@ == id {
                assert(events[n - 1].payload is HoldSet);
            } else {
                let i = choose|i: int|
                    {
                        &&& 0 <= i < n - 1
                        &&& (#[trigger] events[i]).payload is HoldSet
                        &&& events[i].event_id@ == id
                        &&& forall|j: int| i < j < n - 1 ==> !lifts(#[trigger] events[j], id)
                    };
                assert(events[i].payload is HoldSet);
                assert forall|j: int| i < j < n implies !lifts(#[trigger] events[j], id) by {
                    if j == n - 1 {
                        assert(!lifts(last, id));
                    }
                }
            }
        }
        if exists|i: int|
            {
                &&& 0 <= i < n
                &&& (#[trigger] events[i]).payload is HoldSet
                &&& events[i].event_id@ == id
                &&& forall|j: int| i < j < n ==> !lifts(#[trigger] events[j], id)
            } {
            let i = choose|i: int|
                {
                    &&& 0 <= i < n
                    &&& (#[trigger] events[i]).payload is HoldSet
                    &&& events[i].event_id@ == id
                    &&& forall|j: int| i < j < n ==> !lifts(#[trigger] events[j], id)
                };
            if i < n - 1 {
                assert(!lifts(events[n - 1], id));
                assert(events[i].payload is HoldSet);
                assert forall|j: int| i < j < n - 1 implies !lifts(#[trigger] events[j], id) by {
                    assert(!lifts(events[j], id));
                }
            }
        }
    }
}

/// An event of the repository is without a problem exactly where its rewrite is sound, it is
/// recorded for the repository and it names the identity of its file.
pub proof fn sound_repository_events_have_no_problems(
    id: Seq<char>,
    mapping_error: Option<Seq<char>>,
    scope: Option<Seq<char>>,
    named: Option<Seq<char>>,
    repository: Seq<char>,
)
    ensures
        event_problems(id, mapping_error, scope, named, repository).len() == 0 <==> mapping_error
            is None && scope == Some(repository) && named == Some(id),
{
}

/// Bytes that cannot be read as an event are one problem, whichever the reason.
pub proof fn unreadable_bytes_are_one_problem(
    event_id: Seq<char>,
    id_error: Option<Seq<char>>,
    value: Option<serde_json::Value>,
    json_error: Seq<char>,
    typed_error: Option<Seq<char>>,
    mapping_error: Option<Seq<char>>,
    repository: Seq<char>,
)
    requires
        id_error is Some || value is None || typed_error is Some,
    ensures
        bytes_problems(
            event_id,
            id_error,
            value,
            json_error,
            typed_error,
            mapping_error,
            repository,
        ).len() == 1,
{
}

/// Advice on a worktree is given exactly where a closed change still has one that is registered.
pub proof fn closed_changes_leave_no_worktree(state: ChangeState, registered: Seq<String>)
    ensures
        worktree_advice(state, registered) is Some <==> state.closure is Some && state.worktree
            is Some && exists|i: int|
            0 <= i < registered.len() && (#[trigger] registered[i])@ == state.worktree->0@,
{
}

/// A diagnosis fails exactly where it has a problem.
pub proof fn diagnoses_fail_on_problems(problems: &Vec<Finding>, r: i32)
    requires
        fails_on_problems(problems, r),
    ensures
        r == 0 <==> problems@.len() == 0,
        r == 0 || r == 1,
{
}

/// A release is stray exactly where it names a hold that is not active then: one that names an
/// active hold, or none, adds nothing.
pub proof fn releases_of_active_holds_are_not_stray(
    change_id: Seq<char>,
    events: Seq<Event>,
    n: int,
)
    requires
        0 < n <= events.len(),
    ensures
        stray_releases(change_id, events, n).len() == stray_releases(change_id, events, n - 1).len()
            + (if (events[n - 1].payload matches Payload::HoldReleased {
            hold_event_id: Some(named),
            ..
        } && !exists|i: int|
            {
                &&& 0 <= i < n - 1
                &&& (#[trigger] events[i]).payload is HoldSet
                &&& events[i].event_id@ == named@
                &&& forall|j: int| i < j < n - 1 ==> !lifts(#[trigger] events[j], named@)
            }) {
            1int
        } else {
            0int
        }),
{
    if let Payload::HoldReleased { hold_event_id: Some(named), .. } = events[n - 1].payload {
        holds_last_until_lifted(events, n - 1, named@);
    }
}

} // verus!
