//! Following events, and waiting for a condition on one change or on several.
use crate::event::{Event, Payload};
use crate::integrate::{select_tagged, tagged_positions};
use crate::json::{
    compact_bytes, empty_object, get_string, is_object, json_view, json_views, list_value, no_members,
    put_member, put_text, string_members, text_view, write_compact, JsonView,
};
use crate::model::{Closure, Verdict};
use crate::dependency::ids_at;
use crate::order::ints;
use crate::state::ChangeState;
use crate::text::{
    among, contains, decimal, decimal_of, join, joined, lemma_precedes_irreflexive,
    lemma_precedes_transitive, less, opt_view, precedes, same, views,
};
use vstd::prelude::*;

verus! {

/// The shortest pause between two looks, in milliseconds.
pub const POLL_MIN: u64 = 100;

/// The longest pause between two looks, in milliseconds.
pub const POLL_MAX: u64 = 1000;

/// Whether `r` is the pause after a look.
pub open spec fn is_next_pause(
    interval: u64,
    observed: bool,
    r: u64,
) -> bool {
    &&& r == (if observed {
            POLL_MIN as int
        } else if 2 * interval <= POLL_MAX {
            2 * interval
        } else {
            POLL_MAX as int
        })
    &&& r <= POLL_MAX
}

/// The pause after a look: the shortest where something was seen, and else twice the last one,
/// as far as the longest.
pub fn next_poll(interval: u64, observed: bool) -> (r: u64)
    requires
        interval <= POLL_MAX,
    ensures
        is_next_pause(interval, observed, r),
{
    if observed {
        POLL_MIN
    } else if interval <= POLL_MAX / 2 {
        interval * 2
    } else {
        POLL_MAX
    }
}

/// Whether `r` is how long to pause.
pub open spec fn is_pause(
    interval: u64,
    remaining: Option<u64>,
    r: u64,
) -> bool {
    r == (match remaining {
            Some(left) => if left < interval {
                left
            } else {
                interval
            },
            None => interval,
        })
}

/// How long to pause: no longer than what is left until the deadline.
pub fn pause(interval: u64, remaining: Option<u64>) -> (r: u64)
    ensures
        is_pause(interval, remaining, r),
{
    match remaining {
        Some(left) => if left < interval {
            left
        } else {
            interval
        },
        None => interval,
    }
}

/// What to stream.
pub struct EventsArgs {
    pub follow: bool,
    pub change: Option<String>,
    pub tags: Vec<String>,
    pub repository_scope: bool,
    pub event_type: Option<String>,
    /// The identity of the last event that was seen.
    pub since: Option<String>,
    pub exec_command: Option<String>,
}

/// Which events are read.
#[derive(Clone, Copy, Debug, PartialEq, Eq, Structural)]
pub enum EventsScope {
    OneChange,
    Repository,
    Everything,
}

/// One change and the changes that carry tags are different scopes.
#[derive(Clone, Copy, Debug, PartialEq, Eq, Structural)]
pub struct TwoScopes;

/// Whether `r` says which events are read.
pub open spec fn answers_scope(
    args: &EventsArgs,
    r: Result<EventsScope, TwoScopes>,
) -> bool {
    r == (if args.change is Some && args.tags@.len() > 0 {
            Err::<EventsScope, TwoScopes>(TwoScopes)
        } else if args.change is Some {
            Ok(EventsScope::OneChange)
        } else if args.repository_scope {
            Ok(EventsScope::Repository)
        } else {
            Ok(EventsScope::Everything)
        })
}

/// Which events are read. A change wins over the repository.
pub fn events_scope(args: &EventsArgs) -> (r: Result<EventsScope, TwoScopes>)
    ensures
        answers_scope(args, r),
{
    if args.change.is_some() && args.tags.len() > 0 {
        return Err(TwoScopes);
    }
    Ok(
        if args.change.is_some() {
            EventsScope::OneChange
        } else if args.repository_scope {
            EventsScope::Repository
        } else {
            EventsScope::Everything
        },
    )
}

/// The string under a key of a JSON value.
pub open spec fn string_under(value: serde_json::Value, key: Seq<char>) -> Option<Seq<char>> {
    if is_object(value) && string_members(value).dom().contains(key) {
        Some(string_members(value)[key])
    } else {
        None
    }
}

/// The string under a key of a JSON value.
pub fn read_string(value: &serde_json::Value, key: &str) -> (r: Option<String>)
    ensures
        opt_view(r) == string_under(*value, key@),
{
    match get_string(value, key) {
        Some(text) => Some(text.to_string()),
        None => None,
    }
}

/// What is read from a recorded event.
pub struct EventKeys {
    pub event_type: Option<String>,
    pub change_id: Option<String>,
}

/// What is read from a recorded event.
pub fn event_keys(value: &serde_json::Value) -> (r: EventKeys)
    ensures
        opt_view(r.event_type) == string_under(*value, "event_type"@),
        opt_view(r.change_id) == string_under(*value, "change_id"@),
{
    EventKeys {
        event_type: read_string(value, "event_type"),
        change_id: read_string(value, "change_id"),
    }
}

/// Whether an event can change which changes carry a tag.
pub open spec fn retags(event_type: Option<Seq<char>>) -> bool {
    event_type == Some("change-opened"@) || event_type == Some("metadata-updated"@)
}

/// Whether `r` says if one of the events can change which changes carry a tag.
pub open spec fn says_retagged(
    events: &Vec<EventKeys>,
    r: bool,
) -> bool {
    r == exists|i: int|
            0 <= i < events@.len() && retags(opt_view((#[trigger] events@[i]).event_type))
}

/// Whether one of the events can change which changes carry a tag.
pub fn tags_may_change(events: &Vec<EventKeys>) -> (r: bool)
    ensures
        says_retagged(events, r),
{
    for i in 0..events.len()
        invariant
            forall|j: int| 0 <= j < i ==> !retags(opt_view((#[trigger] events@[j]).event_type)),
    {
        if let Some(kind) = &events[i].event_type {
            if same(kind.as_str(), "change-opened") || same(kind.as_str(), "metadata-updated") {
                assert(retags(opt_view(events@[i as int].event_type)));
                return true;
            }
        }
    }
    false
}

/// Whether an event is streamed: it comes after the last one that was seen, it is of the type
/// that is asked for, and its change is one of the members, where these are given.
pub open spec fn streamed(
    event_id: Seq<char>,
    event_type: Option<Seq<char>>,
    change_id: Option<Seq<char>>,
    since: Option<Seq<char>>,
    wanted: Option<Seq<char>>,
    members: Option<Seq<String>>,
) -> bool {
    &&& since matches Some(cursor) ==> precedes(cursor, event_id)
    &&& wanted is Some ==> event_type == wanted
    &&& members matches Some(ids) ==> change_id is Some && among(ids, change_id->0)
}

/// The identities of the members, where these are given.
pub open spec fn member_ids(members: Option<Vec<String>>) -> Option<Seq<String>> {
    match members {
        Some(ids) => Some(ids@),
        None => None,
    }
}

/// Whether an event is streamed.
pub fn shows_event(
    event_id: &str,
    keys: &EventKeys,
    since: &Option<String>,
    wanted: &Option<String>,
    members: &Option<Vec<String>>,
) -> (r: bool)
    ensures
        r == streamed(
            event_id@,
            opt_view(keys.event_type),
            opt_view(keys.change_id),
            opt_view(*since),
            opt_view(*wanted),
            member_ids(*members),
        ),
{
    if let Some(cursor) = since {
        if !less(cursor.as_str(), event_id) {
            return false;
        }
    }
    if let Some(kind) = wanted {
        match &keys.event_type {
            Some(found) => {
                if !same(found.as_str(), kind.as_str()) {
                    return false;
                }
            },
            None => {
                return false;
            },
        }
    }
    if let Some(ids) = members {
        return match &keys.change_id {
            Some(id) => contains(ids, id.as_str()),
            None => false,
        };
    }
    true
}

/// The line that an event is streamed as.
pub fn event_line(value: &serde_json::Value) -> (r: Vec<u8>)
    ensures
        r@ == compact_bytes(*value).push(10u8),
{
    let mut line = write_compact(value);
    line.push(10u8);
    line
}

/// What a hook is told of an event: its identity, its type and its change, each empty where the
/// event has none.
pub struct HookValues {
    pub event_id: String,
    pub event_type: String,
    pub change_id: String,
}

/// A text, or the empty one.
pub open spec fn or_empty(text: Option<Seq<char>>) -> Seq<char> {
    match text {
        Some(text) => text,
        None => ""@,
    }
}

fn read_or_empty(value: &serde_json::Value, key: &str) -> (r: String)
    ensures
        r@ == or_empty(string_under(*value, key@)),
{
    match read_string(value, key) {
        Some(text) => text,
        None => "".to_string(),
    }
}

/// What a hook is told of an event.
pub fn hook_values(value: &serde_json::Value) -> (r: HookValues)
    ensures
        r.event_id@ == or_empty(string_under(*value, "event_id"@)),
        r.event_type@ == or_empty(string_under(*value, "event_type"@)),
        r.change_id@ == or_empty(string_under(*value, "change_id"@)),
{
    HookValues {
        event_id: read_or_empty(value, "event_id"),
        event_type: read_or_empty(value, "event_type"),
        change_id: read_or_empty(value, "change_id"),
    }
}

/// What can be waited for.
#[derive(Clone, Copy, Debug, PartialEq, Eq, Structural)]
pub enum WatchUntil {
    Snapshot,
    Stalled,
    Reviewed,
    Approved,
    GatesGreen,
    Ready,
    Blocked,
    BriefRecorded,
    Integrated,
    Closed,
}

/// A condition, in a word.
pub open spec fn until_text(until: WatchUntil) -> Seq<char> {
    match until {
        WatchUntil::Snapshot => "snapshot"@,
        WatchUntil::Stalled => "stalled"@,
        WatchUntil::Reviewed => "reviewed"@,
        WatchUntil::Approved => "approved"@,
        WatchUntil::GatesGreen => "gates-green"@,
        WatchUntil::Ready => "ready"@,
        WatchUntil::Blocked => "blocked"@,
        WatchUntil::BriefRecorded => "brief-recorded"@,
        WatchUntil::Integrated => "integrated"@,
        WatchUntil::Closed => "closed"@,
    }
}

impl WatchUntil {
    /// The condition, in a word.
    pub fn label(self) -> (r: &'static str)
        ensures
            r@ == until_text(self),
    {
        match self {
            WatchUntil::Snapshot => "snapshot",
            WatchUntil::Stalled => "stalled",
            WatchUntil::Reviewed => "reviewed",
            WatchUntil::Approved => "approved",
            WatchUntil::GatesGreen => "gates-green",
            WatchUntil::Ready => "ready",
            WatchUntil::Blocked => "blocked",
            WatchUntil::BriefRecorded => "brief-recorded",
            WatchUntil::Integrated => "integrated",
            WatchUntil::Closed => "closed",
        }
    }
}

/// The conditions, in words.
pub open spec fn until_texts(until: Seq<WatchUntil>) -> Seq<char> {
    joined(Seq::new(until.len(), |i: int| until_text(until[i])), ","@)
}

/// The conditions, in words.
pub fn until_labels(until: &Vec<WatchUntil>) -> (r: String)
    ensures
        r@ == until_texts(until@),
{
    let mut labels: Vec<String> = Vec::new();
    for i in 0..until.len()
        invariant
            labels@.len() == i,
            forall|j: int| 0 <= j < i ==> (#[trigger] labels@[j])@ == until_text(until@[j]),
    {
        labels.push(until[i].label().to_string());
    }
    assert(views(labels@) =~= Seq::new(until@.len(), |i: int| until_text(until@[i])));
    join(&labels, ",")
}

/// Which members of a watched set must reach a condition.
#[derive(Clone, Copy, Debug, PartialEq, Eq, Structural)]
pub enum WatchQuorum {
    /// One of them, and that one is named.
    Any,
    /// Each of them.
    All,
}

/// What to wait for.
pub struct WatchArgs {
    pub tags: Vec<String>,
    pub quorum: Option<WatchQuorum>,
    pub until: Vec<WatchUntil>,
    pub timeout_secs: Option<u64>,
    pub exec_command: Option<String>,
    pub json: bool,
}

/// Why nothing is waited for.
#[derive(Clone, Copy, Debug, PartialEq, Eq, Structural)]
pub enum WatchRefusal {
    TwoScopes,
    NoScope,
    /// A quorum says nothing of a single change.
    QuorumOfOne,
    NoQuorum,
}

/// What is watched: one change, or the changes that carry some tags, with a quorum.
#[derive(Clone, Copy, Debug, PartialEq, Eq, Structural)]
pub enum WatchScope {
    Single,
    Tagged { quorum: WatchQuorum },
}

/// What is watched.
pub open spec fn scope_of(reference: bool, args: WatchArgs) -> Result<WatchScope, WatchRefusal> {
    if reference && args.tags@.len() > 0 {
        Err(WatchRefusal::TwoScopes)
    } else if reference {
        if args.quorum is Some {
            Err(WatchRefusal::QuorumOfOne)
        } else {
            Ok(WatchScope::Single)
        }
    } else if args.tags@.len() > 0 {
        match args.quorum {
            Some(quorum) => Ok(WatchScope::Tagged { quorum }),
            None => Err(WatchRefusal::NoQuorum),
        }
    } else {
        Err(WatchRefusal::NoScope)
    }
}

/// What is watched, where a change is named or not.
pub fn watch_scope(reference: bool, args: &WatchArgs) -> (r: Result<WatchScope, WatchRefusal>)
    ensures
        r == scope_of(reference, *args),
{
    if reference {
        if args.tags.len() > 0 {
            Err(WatchRefusal::TwoScopes)
        } else if args.quorum.is_some() {
            Err(WatchRefusal::QuorumOfOne)
        } else {
            Ok(WatchScope::Single)
        }
    } else if args.tags.len() > 0 {
        match args.quorum {
            Some(quorum) => Ok(WatchScope::Tagged { quorum }),
            None => Err(WatchRefusal::NoQuorum),
        }
    } else {
        Err(WatchRefusal::NoScope)
    }
}

/// Why an artifact of the journal is not watched.
#[derive(Clone, Copy, Debug, PartialEq, Eq, Structural)]
pub enum ArtifactRefusal {
    SelectsChanges,
    /// The condition at this position is one of a change.
    AsksAboutChange { index: usize },
    NoCondition,
}

/// Whether `r` says if an artifact of the journal may be watched.
pub open spec fn answers_artifact(
    args: &WatchArgs,
    r: Result<(), ArtifactRefusal>,
) -> bool {
    match r {
            Ok(()) => args.tags@.len() == 0 && args.quorum is None && args.until@.len() > 0
                && forall|i: int|
                0 <= i < args.until@.len() ==> #[trigger] args.until@[i] == WatchUntil::Stalled,
            Err(ArtifactRefusal::SelectsChanges) => args.tags@.len() > 0 || args.quorum is Some,
            Err(ArtifactRefusal::AsksAboutChange { index }) => args.tags@.len() == 0
                && args.quorum is None && index < args.until@.len() && args.until@[index as int]
                != WatchUntil::Stalled && forall|i: int|
                0 <= i < index ==> #[trigger] args.until@[i] == WatchUntil::Stalled,
            Err(ArtifactRefusal::NoCondition) => args.tags@.len() == 0 && args.quorum is None
                && args.until@.len() == 0,
        }
}

/// Whether an artifact of the journal may be watched: only for the claim on it going stale.
pub fn watch_artifact(args: &WatchArgs) -> (r: Result<(), ArtifactRefusal>)
    ensures
        answers_artifact(args, r),
{
    if args.tags.len() > 0 || args.quorum.is_some() {
        return Err(ArtifactRefusal::SelectsChanges);
    }
    let until = &args.until;
    for i in 0..until.len()
        invariant
            until@ == args.until@,
            args.tags@.len() == 0,
            args.quorum is None,
            forall|j: int| 0 <= j < i ==> #[trigger] args.until@[j] == WatchUntil::Stalled,
    {
        if until[i] != WatchUntil::Stalled {
            return Err(ArtifactRefusal::AsksAboutChange { index: i });
        }
    }
    if until.len() == 0 {
        return Err(ArtifactRefusal::NoCondition);
    }
    Ok(())
}

/// The changes that carry some tags; where none does, there is nothing to follow.
pub fn resolve_tagged(changes: &Vec<ChangeState>, tags: &Vec<String>) -> (r: Option<Vec<String>>)
    ensures
        match r {
            Some(ids) => views(ids@) == ids_at(changes@, tagged_positions(changes@, tags@))
                && ids@.len() > 0,
            None => tagged_positions(changes@, tags@).len() == 0,
        },
{
    let positions = select_tagged(changes, tags);
    assert(ints(positions@).len() == positions@.len());
    if positions.len() == 0 {
        return None;
    }
    let mut ids: Vec<String> = Vec::new();
    for k in 0..positions.len()
        invariant
            forall|i: int| 0 <= i < positions@.len() ==> #[trigger] positions@[i] < changes@.len(),
            ids@.len() == k,
            forall|i: int|
                0 <= i < k ==> (#[trigger] ids@[i])@ == changes@[positions@[i] as int].change_id@,
    {
        ids.push(changes[positions[k]].change_id.clone());
    }
    proof {
        let all = tagged_positions(changes@, tags@);
        assert forall|i: int| 0 <= i < ids@.len() implies views(ids@)[i] == ids_at(
            changes@,
            all,
        )[i] by {
            assert(ints(positions@)[i] == positions@[i]);
            assert(ids@[i]@ == changes@[positions@[i] as int].change_id@);
        }
        assert(views(ids@) =~= ids_at(changes@, all));
    }
    Some(ids)
}

/// What status says of the verdict that counts.
pub struct ReportedVerdict {
    pub verdict: Verdict,
    pub patchset_id: String,
    pub valid_for_current_head: bool,
}

/// What is known of a change besides its state when it is looked at.
pub struct WatchFacts {
    /// Whether the claim on it has gone stale.
    pub stale: bool,
    pub verdict: Option<ReportedVerdict>,
    /// Of each required gate, whether it is green at the head.
    pub gates_green: Vec<bool>,
    pub integrate_ready: bool,
    /// The events that set a stage of waiting, oldest first.
    pub blocked_on_stages: Vec<String>,
}

/// A condition that holds: the event that made it hold, where one did, and the reason for which
/// an approval is provisional.
pub struct WatchReached {
    pub event_id: Option<String>,
    pub provisional: Option<String>,
}

/// What makes a condition hold.
pub enum Cause {
    /// It holds for reasons that no event records.
    Derived,
    Event { id: Seq<char>, provisional: Option<Seq<char>> },
}

/// Whether an event records a snapshot.
pub open spec fn adds_patchset(event: Event) -> bool {
    event.payload is PatchsetAdded
}

/// The identity of the last of the first `n` events that record a snapshot.
pub open spec fn last_snapshot(events: Seq<Event>, n: int) -> Option<Seq<char>>
    decreases n,
{
    if n <= 0 {
        None
    } else if adds_patchset(events[n - 1]) {
        Some(events[n - 1].event_id@)
    } else {
        last_snapshot(events, n - 1)
    }
}

/// The identity of the last of the first `n` verdicts on a patchset.
pub open spec fn last_judgement(state: ChangeState, patchset_id: Seq<char>, n: int) -> Option<
    Seq<char>,
>
    decreases n,
{
    if n <= 0 {
        None
    } else if state.verdicts@[n - 1].patchset_id@ == patchset_id {
        Some(state.verdicts@[n - 1].event_id@)
    } else {
        last_judgement(state, patchset_id, n - 1)
    }
}

/// An event without more to say.
pub open spec fn by_event(id: Option<Seq<char>>) -> Option<Cause> {
    match id {
        Some(id) => Some(Cause::Event { id, provisional: None }),
        None => None,
    }
}

/// No event, where something holds.
pub open spec fn derived(holds: bool) -> Option<Cause> {
    if holds {
        Some(Cause::Derived)
    } else {
        None
    }
}

/// What makes an approval count: the verdict that has authority, where status says that it is a
/// valid approval of the head.
pub open spec fn approval_cause(state: ChangeState, facts: WatchFacts) -> Option<Cause> {
    match (facts.verdict, state.authoritative()) {
        (Some(reported), Some(k)) => if reported.valid_for_current_head && reported.verdict
            == Verdict::Approved && state.verdicts@[k].patchset_id@ == reported.patchset_id@ {
            Some(
                Cause::Event {
                    id: state.verdicts@[k].event_id@,
                    provisional: opt_view(state.verdicts@[k].provisional),
                },
            )
        } else {
            None
        },
        _ => None,
    }
}

/// What makes a condition hold of a change, where it does.
pub open spec fn cause_of(
    until: WatchUntil,
    state: ChangeState,
    events: Seq<Event>,
    facts: WatchFacts,
) -> Option<Cause> {
    match until {
        WatchUntil::Snapshot => if state.patchsets@.len() > 0 {
            match last_snapshot(events, events.len() as int) {
                Some(id) => Some(Cause::Event { id, provisional: None }),
                None => Some(Cause::Derived),
            }
        } else {
            None
        },
        WatchUntil::Stalled => derived(state.claim is Some && facts.stale),
        WatchUntil::Reviewed => if state.patchsets@.len() > 0 {
            by_event(
                last_judgement(
                    state,
                    state.patchsets@.last().id@,
                    state.verdicts@.len() as int,
                ),
            )
        } else {
            None
        },
        WatchUntil::Approved => approval_cause(state, facts),
        WatchUntil::GatesGreen => derived(
            forall|i: int| 0 <= i < facts.gates_green@.len() ==> #[trigger] facts.gates_green@[i],
        ),
        WatchUntil::Ready => derived(facts.integrate_ready),
        WatchUntil::Blocked => if facts.blocked_on_stages@.len() > 0 {
            by_event(Some(facts.blocked_on_stages@.last()@))
        } else {
            None
        },
        WatchUntil::BriefRecorded => if state.briefs@.len() > 0 {
            by_event(Some(state.briefs@.last().event_id@))
        } else {
            None
        },
        WatchUntil::Integrated => match state.closure {
            Some(closure) => if closure.outcome == Closure::Integrated {
                by_event(Some(closure.event_id@))
            } else {
                None
            },
            None => None,
        },
        WatchUntil::Closed => match state.closure {
            Some(closure) => by_event(Some(closure.event_id@)),
            None => None,
        },
    }
}

/// Whether a condition that holds tells what makes it hold.
pub open spec fn tells(reached: Option<WatchReached>, cause: Option<Cause>) -> bool {
    match (reached, cause) {
        (Some(reached), Some(Cause::Derived)) => reached.event_id is None
            && reached.provisional is None,
        (Some(reached), Some(Cause::Event { id, provisional })) => opt_view(reached.event_id)
            == Some(id) && opt_view(reached.provisional) == provisional,
        (None, None) => true,
        _ => false,
    }
}

fn reached_by(event_id: &String) -> (r: Option<WatchReached>)
    ensures
        tells(r, by_event(Some(event_id@))),
{
    Some(WatchReached { event_id: Some(event_id.clone()), provisional: None })
}

fn reached_if(holds: bool) -> (r: Option<WatchReached>)
    ensures
        tells(r, derived(holds)),
{
    if holds {
        Some(WatchReached { event_id: None, provisional: None })
    } else {
        None
    }
}

fn reached_snapshot(state: &ChangeState, events: &Vec<Event>, facts: &WatchFacts) -> (r: Option<
    WatchReached,
>)
    ensures
        tells(r, cause_of(WatchUntil::Snapshot, *state, events@, *facts)),
{
    if state.patchsets.len() == 0 {
        return None;
    }
    let mut n: usize = events.len();
    while n > 0
        invariant
            n <= events@.len(),
            state.patchsets@.len() > 0,
            last_snapshot(events@, events@.len() as int) == last_snapshot(events@, n as int),
        decreases n,
    {
        if matches!(events[n - 1].payload, Payload::PatchsetAdded { .. }) {
            return reached_by(&events[n - 1].event_id);
        }
        n -= 1;
    }
    reached_if(true)
}

fn reached_review(state: &ChangeState, events: &Vec<Event>, facts: &WatchFacts) -> (r: Option<
    WatchReached,
>)
    ensures
        tells(r, cause_of(WatchUntil::Reviewed, *state, events@, *facts)),
{
    if state.patchsets.len() == 0 {
        return None;
    }
    let latest = &state.patchsets[state.patchsets.len() - 1].id;
    let all = &state.verdicts;
    let mut n: usize = all.len();
    while n > 0
        invariant
            all@ == state.verdicts@,
            n <= all@.len(),
            state.patchsets@.len() > 0,
            latest@ == state.patchsets@.last().id@,
            last_judgement(*state, latest@, all@.len() as int) == last_judgement(
                *state,
                latest@,
                n as int,
            ),
        decreases n,
    {
        if same(all[n - 1].patchset_id.as_str(), latest.as_str()) {
            return reached_by(&all[n - 1].event_id);
        }
        n -= 1;
    }
    None
}

fn reached_approval(state: &ChangeState, facts: &WatchFacts) -> (r: Option<WatchReached>)
    ensures
        tells(r, approval_cause(*state, *facts)),
{
    let reported = match &facts.verdict {
        Some(reported) => reported,
        None => {
            return None;
        },
    };
    let k: usize = match state.latest_verdict() {
        Some(k) => k,
        None => {
            return None;
        },
    };
    let verdict = &state.verdicts[k];
    if reported.valid_for_current_head && reported.verdict == Verdict::Approved && same(
        verdict.patchset_id.as_str(),
        reported.patchset_id.as_str(),
    ) {
        Some(
            WatchReached {
                event_id: Some(verdict.event_id.clone()),
                provisional: verdict.provisional.clone(),
            },
        )
    } else {
        None
    }
}

fn all_green(gates: &Vec<bool>) -> (r: bool)
    ensures
        r == forall|i: int| 0 <= i < gates@.len() ==> #[trigger] gates@[i],
{
    for i in 0..gates.len()
        invariant
            forall|j: int| 0 <= j < i ==> #[trigger] gates@[j],
    {
        if !gates[i] {
            return false;
        }
    }
    true
}

/// Whether a condition holds of a change, and the event that made it hold where one did.
pub fn watch_reached(
    until: WatchUntil,
    state: &ChangeState,
    events: &Vec<Event>,
    facts: &WatchFacts,
) -> (r: Option<WatchReached>)
    ensures
        tells(r, cause_of(until, *state, events@, *facts)),
{
    match until {
        WatchUntil::Snapshot => reached_snapshot(state, events, facts),
        WatchUntil::Stalled => reached_if(state.claim.is_some() && facts.stale),
        WatchUntil::Reviewed => reached_review(state, events, facts),
        WatchUntil::Approved => reached_approval(state, facts),
        WatchUntil::GatesGreen => reached_if(all_green(&facts.gates_green)),
        WatchUntil::Ready => reached_if(facts.integrate_ready),
        WatchUntil::Blocked => if facts.blocked_on_stages.len() > 0 {
            reached_by(&facts.blocked_on_stages[facts.blocked_on_stages.len() - 1])
        } else {
            None
        },
        WatchUntil::BriefRecorded => if state.briefs.len() > 0 {
            reached_by(&state.briefs[state.briefs.len() - 1].event_id)
        } else {
            None
        },
        WatchUntil::Integrated => match &state.closure {
            Some(closure) => if closure.outcome == Closure::Integrated {
                reached_by(&closure.event_id)
            } else {
                None
            },
            None => None,
        },
        WatchUntil::Closed => match &state.closure {
            Some(closure) => reached_by(&closure.event_id),
            None => None,
        },
    }
}

/// A verdict on an earlier patchset never ends the wait for a review of the latest.
pub proof fn reviews_are_of_the_latest(
    state: ChangeState,
    events: Seq<Event>,
    facts: WatchFacts,
)
    requires
        forall|i: int|
            0 <= i < state.verdicts@.len() ==> state.patchsets@.len() > 0 && (
            #[trigger] state.verdicts@[i]).patchset_id@ != state.patchsets@.last().id@,
    ensures
        cause_of(WatchUntil::Reviewed, state, events, facts) is None,
{
    if state.patchsets@.len() > 0 {
        lemma_no_judgement(state, state.patchsets@.last().id@, state.verdicts@.len() as int);
    }
}

proof fn lemma_no_judgement(state: ChangeState, id: Seq<char>, n: int)
    requires
        n <= state.verdicts@.len(),
        forall|i: int|
            0 <= i < state.verdicts@.len() ==> (#[trigger] state.verdicts@[i]).patchset_id@ != id,
    ensures
        last_judgement(state, id, n) is None,
    decreases n,
{
    if n > 0 {
        lemma_no_judgement(state, id, n - 1);
    }
}

/// Whether `r` is the first of the conditions that holds.
pub open spec fn is_first_reached(
    reached: &Vec<bool>,
    r: Option<usize>,
) -> bool {
    match r {
            Some(k) => k < reached@.len() && reached@[k as int] && forall|j: int|
                0 <= j < k ==> !#[trigger] reached@[j],
            None => forall|j: int| 0 <= j < reached@.len() ==> !#[trigger] reached@[j],
        }
}

/// The first of the conditions that holds.
pub fn first_reached(reached: &Vec<bool>) -> (r: Option<usize>)
    ensures
        is_first_reached(reached, r),
{
    for k in 0..reached.len()
        invariant
            forall|j: int| 0 <= j < k ==> !#[trigger] reached@[j],
    {
        if reached[k] {
            return Some(k);
        }
    }
    None
}

/// Whether `r` are the members that end the wait, where it ends.
pub open spec fn settles_watch(
    quorum: WatchQuorum,
    hits: &Vec<bool>,
    total: usize,
    r: Option<Vec<usize>>,
) -> bool {
    match (quorum, r) {
            (WatchQuorum::Any, Some(named)) => named@.len() == 1 && named@[0] < hits@.len()
                && hits@[named@[0] as int] && forall|i: int|
                0 <= i < named@[0] ==> !#[trigger] hits@[i],
            (WatchQuorum::Any, None) => forall|i: int|
                0 <= i < hits@.len() ==> !#[trigger] hits@[i],
            (WatchQuorum::All, Some(named)) => hits@.len() == total && named@.len() == total
                && all_hit(hits@) && forall|i: int|
                0 <= i < total ==> #[trigger] named@[i] == i,
            (WatchQuorum::All, None) => hits@.len() < total || !all_hit(hits@),
        }
}

/// Whether a look ends the wait, from the members that reached a condition: of those that were
/// looked at under `Any` one, and under `All` each of `total`. The members that end it are
/// returned.
pub fn settle_watch(quorum: WatchQuorum, hits: &Vec<bool>, total: usize) -> (r: Option<Vec<usize>>)
    requires
        hits@.len() <= total,
    ensures
        settles_watch(quorum, hits, total, r),
{
    match quorum {
        WatchQuorum::Any => match first_reached(hits) {
            Some(k) => {
                let mut named: Vec<usize> = Vec::new();
                named.push(k);
                Some(named)
            },
            None => None,
        },
        WatchQuorum::All => {
            if hits.len() < total {
                return None;
            }
            let mut named: Vec<usize> = Vec::new();
            for i in 0..hits.len()
                invariant
                    hits@.len() == total,
                    quorum == WatchQuorum::All,
                    named@.len() == i,
                    forall|j: int| 0 <= j < i ==> #[trigger] hits@[j],
                    forall|j: int| 0 <= j < i ==> #[trigger] named@[j] == j,
            {
                if !hits[i] {
                    assert(!all_hit(hits@)) by {
                        assert(!hits@[i as int]);
                    }
                    return None;
                }
                named.push(i);
            }
            Some(named)
        },
    }
}

/// Whether every member reached a condition.
pub open spec fn all_hit(hits: Seq<bool>) -> bool {
    forall|i: int| 0 <= i < hits.len() ==> #[trigger] hits[i]
}

/// A member that reached a condition, as it is reported.
pub struct WatchHit {
    pub change_id: String,
    pub condition: WatchUntil,
    pub event_id: Option<String>,
    /// Why its approval is provisional, as it was recorded.
    pub provisional: Option<String>,
}

/// What a report adds for a provisional approval, where it is one. The reason stands on one line.
pub open spec fn provisional_text(provisional: bool, reason: Seq<char>) -> Seq<char> {
    if provisional {
        " (provisional: "@ + reason + ")"@
    } else {
        ""@
    }
}

fn provisional_suffix(provisional: bool, reason: &str) -> (r: String)
    ensures
        r@ == provisional_text(provisional, reason@),
{
    if provisional {
        let mut out = " (provisional: ".to_string();
        out.append(reason);
        out.append(")");
        out
    } else {
        "".to_string()
    }
}

/// The reasons for which approvals of the first `n` members are provisional, each on one line.
pub open spec fn reasons_of(hits: Seq<WatchHit>, reasons: Seq<String>, n: int) -> Seq<Seq<char>>
    decreases n,
{
    if n <= 0 {
        Seq::empty()
    } else if hits[n - 1].provisional is Some {
        reasons_of(hits, reasons, n - 1).push(reasons[n - 1]@)
    } else {
        reasons_of(hits, reasons, n - 1)
    }
}

/// What is reported when the wait ends. `lines` are the reasons, each on one line.
pub open spec fn reached_text(
    scope: WatchScope,
    hits: Seq<WatchHit>,
    lines: Seq<String>,
    members: nat,
    until: Seq<WatchUntil>,
) -> Seq<char> {
    match scope {
        WatchScope::Single => "reached: "@ + until_text(hits[0].condition) + provisional_text(
            hits[0].provisional is Some,
            lines[0]@,
        ),
        WatchScope::Tagged { quorum: WatchQuorum::Any } => "reached: "@ + until_text(
            hits[0].condition,
        ) + " ("@ + hits[0].change_id@ + ")"@ + provisional_text(
            hits[0].provisional is Some,
            lines[0]@,
        ),
        WatchScope::Tagged { quorum: WatchQuorum::All } => {
            let reasons = reasons_of(hits, lines, hits.len() as int);
            if reasons.len() == 0 {
                "reached: "@ + until_texts(until) + " ("@ + decimal_of(members) + " changes)"@
            } else {
                "reached: "@ + until_texts(until) + " ("@ + decimal_of(members)
                    + " changes; provisional: "@ + joined(reasons, ", "@) + ")"@
            }
        },
    }
}

fn collect_reasons(hits: &Vec<WatchHit>, lines: &Vec<String>) -> (r: Vec<String>)
    requires
        lines@.len() == hits@.len(),
    ensures
        views(r@) == reasons_of(hits@, lines@, hits@.len() as int),
{
    let mut out: Vec<String> = Vec::new();
    assert(views(out@) =~= reasons_of(hits@, lines@, 0));
    for i in 0..hits.len()
        invariant
            lines@.len() == hits@.len(),
            views(out@) == reasons_of(hits@, lines@, i as int),
    {
        let ghost before = views(out@);
        if hits[i].provisional.is_some() {
            out.push(lines[i].clone());
            assert(views(out@) =~= before.push(lines@[i as int]@));
        }
    }
    out
}

/// What is reported when the wait ends. `lines` has for each member its reason on one line, which
/// is told where its approval is provisional.
pub fn report_reached(
    scope: WatchScope,
    hits: &Vec<WatchHit>,
    lines: &Vec<String>,
    members: usize,
    until: &Vec<WatchUntil>,
) -> (r: String)
    requires
        hits@.len() > 0,
        lines@.len() == hits@.len(),
    ensures
        r@ == reached_text(scope, hits@, lines@, members as nat, until@),
{
    match scope {
        WatchScope::Single => {
            let suffix = provisional_suffix(hits[0].provisional.is_some(), lines[0].as_str());
            let mut out = "reached: ".to_string();
            out.append(hits[0].condition.label());
            out.append(suffix.as_str());
            out
        },
        WatchScope::Tagged { quorum: WatchQuorum::Any } => {
            let suffix = provisional_suffix(hits[0].provisional.is_some(), lines[0].as_str());
            let mut out = "reached: ".to_string();
            out.append(hits[0].condition.label());
            out.append(" (");
            out.append(hits[0].change_id.as_str());
            out.append(")");
            out.append(suffix.as_str());
            out
        },
        WatchScope::Tagged { quorum: WatchQuorum::All } => {
            let labels = until_labels(until);
            let count = decimal(members as u64);
            let reasons = collect_reasons(hits, lines);
            assert(views(reasons@).len() == reasons@.len());
            let listed = join(&reasons, ", ");
            let mut out = "reached: ".to_string();
            out.append(labels.as_str());
            out.append(" (");
            out.append(count.as_str());
            if reasons.len() == 0 {
                out.append(" changes)");
            } else {
                out.append(" changes; provisional: ");
                out.append(listed.as_str());
                out.append(")");
            }
            out
        },
    }
}

/// What is reported when the time is up.
pub fn report_timeout(until: &Vec<WatchUntil>) -> (r: String)
    ensures
        r@ == "timeout: "@ + until_texts(until@),
{
    let labels = until_labels(until);
    let mut out = "timeout: ".to_string();
    out.append(labels.as_str());
    out
}

/// The members of an object that tells of a member that reached a condition: the event only where
/// one made the condition hold.
pub open spec fn hit_members(hit: WatchHit) -> Map<Seq<char>, JsonView> {
    let named = no_members().insert("change_id"@, text_view(hit.change_id@)).insert(
        "condition"@,
        text_view(until_text(hit.condition)),
    );
    let traced = match hit.event_id {
        Some(id) => named.insert("event_id"@, text_view(id@)),
        None => named,
    };
    match hit.provisional {
        Some(reason) => traced.insert("provisional"@, text_view(reason@)),
        None => traced,
    }
}

/// The objects that tell of members that reached a condition.
pub open spec fn hit_objects(hits: Seq<WatchHit>) -> Seq<JsonView> {
    Seq::new(hits.len(), |i: int| JsonView::Object { members: hit_members(hits[i]) })
}

/// What a program is told when the wait ends.
pub open spec fn reached_object(
    scope: WatchScope,
    hits: Seq<WatchHit>,
    until: Seq<WatchUntil>,
) -> JsonView {
    JsonView::Object {
        members: match scope {
            WatchScope::Tagged { quorum: WatchQuorum::All } => no_members().insert(
                "changes"@,
                JsonView::List { items: hit_objects(hits) },
            ).insert("condition"@, text_view(until_texts(until))).insert(
                "event_type"@,
                text_view("watch-reached"@),
            ),
            _ => hit_members(hits[0]).insert("event_type"@, text_view("watch-reached"@)),
        },
    }
}

fn watch_hit_object(hit: &WatchHit) -> (r: serde_json::Value)
    ensures
        json_view(r) == (JsonView::Object { members: hit_members(*hit) }),
{
    let mut out = empty_object();
    put_text(&mut out, "change_id", hit.change_id.as_str());
    put_text(&mut out, "condition", hit.condition.label());
    if let Some(id) = &hit.event_id {
        put_text(&mut out, "event_id", id.as_str());
    }
    if let Some(reason) = &hit.provisional {
        put_text(&mut out, "provisional", reason.as_str());
    }
    out
}

/// What a program is told when the wait ends. Each member of a set that had to reach a condition
/// carries its own.
pub fn watch_hook_payload(scope: WatchScope, hits: &Vec<WatchHit>, until: &Vec<WatchUntil>) -> (r:
    serde_json::Value)
    requires
        hits@.len() > 0,
    ensures
        json_view(r) == reached_object(scope, hits@, until@),
{
    if let WatchScope::Tagged { quorum: WatchQuorum::All } = scope {
        let mut members: Vec<serde_json::Value> = Vec::new();
        for i in 0..hits.len()
            invariant
                members@.len() == i,
                forall|k: int|
                    0 <= k < i ==> json_view(#[trigger] members@[k]) == (JsonView::Object {
                        members: hit_members(hits@[k]),
                    }),
        {
            members.push(watch_hit_object(&hits[i]));
        }
        assert(json_views(members@) =~= hit_objects(hits@));
        let mut out = empty_object();
        put_member(&mut out, "changes", list_value(members));
        put_text(&mut out, "condition", until_labels(until).as_str());
        put_text(&mut out, "event_type", "watch-reached");
        out
    } else {
        let mut out = watch_hit_object(&hits[0]);
        put_text(&mut out, "event_type", "watch-reached");
        out
    }
}

/// What a program is told when the time is up.
pub fn timeout_payload(until: &Vec<WatchUntil>) -> (r: serde_json::Value)
    ensures
        json_view(r) == (JsonView::Object {
            members: no_members().insert("event_type"@, text_view("watch-timeout"@)).insert(
                "condition"@,
                text_view(until_texts(until@)),
            ),
        }),
{
    let mut out = empty_object();
    put_text(&mut out, "event_type", "watch-timeout");
    put_text(&mut out, "condition", until_labels(until).as_str());
    out
}

/// What a program is told when the claim on an artifact of the journal has gone stale.
pub fn artifact_payload(file: &str, claim_id: &str) -> (r: serde_json::Value)
    ensures
        json_view(r) == (JsonView::Object {
            members: no_members().insert("event_type"@, text_view("watch-reached"@)).insert(
                "condition"@,
                text_view("stalled"@),
            ).insert("file"@, text_view(file@)).insert("claim_id"@, text_view(claim_id@)),
        }),
{
    let mut out = empty_object();
    put_text(&mut out, "event_type", "watch-reached");
    put_text(&mut out, "condition", "stalled");
    put_text(&mut out, "file", file);
    put_text(&mut out, "claim_id", claim_id);
    out
}

/// After something was seen the pause is the shortest; otherwise it never shortens, at most doubles,
/// and stays within the longest.
pub proof fn pauses_grow_while_nothing_happens(interval: u64, observed: bool, r: u64)
    requires
        is_next_pause(interval, observed, r),
        interval <= 1000,
    ensures
        observed ==> r == 100,
        !observed ==> interval <= r <= 2 * interval || r == 1000,
        !observed ==> interval <= r,
        r <= 1000,
{
}

/// A pause never lasts beyond the deadline, and is shorter than asked for only for its sake.
pub proof fn pauses_end_by_the_deadline(interval: u64, remaining: Option<u64>, r: u64)
    requires
        is_pause(interval, remaining, r),
    ensures
        r <= interval,
        remaining matches Some(left) ==> r <= left && (r == left || r == interval),
        remaining is None ==> r == interval,
{
}

/// One change and tags do not go together; a change that is named is all that is read, and the
/// repository's own events are read alone only where no change is named.
pub proof fn scopes_are_not_mixed(args: &EventsArgs, r: Result<EventsScope, TwoScopes>)
    requires
        answers_scope(args, r),
    ensures
        r is Err <==> args.change is Some && args.tags@.len() > 0,
        r == Ok::<EventsScope, TwoScopes>(EventsScope::OneChange) <==> args.change is Some
            && args.tags@.len() == 0,
        r == Ok::<EventsScope, TwoScopes>(EventsScope::Repository) <==> args.change is None
            && args.repository_scope,
{
}

/// An event that was seen is not streamed again, and of two cursors the earlier lets everything
/// through that the later does.
pub proof fn streams_go_forward(
    event_id: Seq<char>,
    event_type: Option<Seq<char>>,
    change_id: Option<Seq<char>>,
    earlier: Seq<char>,
    later: Seq<char>,
    wanted: Option<Seq<char>>,
    members: Option<Seq<String>>,
)
    requires
        precedes(earlier, later),
    ensures
        !streamed(event_id, event_type, change_id, Some(event_id), wanted, members),
        streamed(event_id, event_type, change_id, Some(later), wanted, members) ==> streamed(
            event_id,
            event_type,
            change_id,
            Some(earlier),
            wanted,
            members,
        ) && streamed(event_id, event_type, change_id, None, wanted, members),
        streamed(later, event_type, change_id, Some(earlier), None, None),
        !streamed(earlier, event_type, change_id, Some(later), wanted, members),
{
    lemma_precedes_irreflexive(event_id);
    lemma_precedes_irreflexive(earlier);
    if precedes(later, event_id) {
        lemma_precedes_transitive(earlier, later, event_id);
    }
    if precedes(later, earlier) {
        lemma_precedes_transitive(earlier, later, earlier);
    }
}

/// What is streamed is of the type and of one of the changes that were asked for, and everything
/// after the cursor that is, is streamed.
pub proof fn streams_hold_what_was_asked_for(
    event_id: Seq<char>,
    event_type: Option<Seq<char>>,
    change_id: Option<Seq<char>>,
    wanted: Seq<char>,
    ids: Seq<String>,
)
    ensures
        streamed(event_id, event_type, change_id, None, Some(wanted), Some(ids)) <==> event_type
            == Some(wanted) && change_id is Some && exists|i: int|
            0 <= i < ids.len() && (#[trigger] ids[i])@ == change_id->0,
        streamed(event_id, event_type, change_id, None, None, None),
{
}

/// Which changes carry a tag is asked again exactly where a change was opened or its metadata
/// changed.
pub proof fn tags_change_with_openings_and_metadata(events: &Vec<EventKeys>, r: bool)
    requires
        says_retagged(events, r),
    ensures
        r <==> exists|i: int|
            0 <= i < events@.len() && ((#[trigger] events@[i]).event_type matches Some(text) && (
            text@ == "change-opened"@ || text@ == "metadata-updated"@)),
{
    if r {
        let i = choose|i: int|
            0 <= i < events@.len() && retags(opt_view((#[trigger] events@[i]).event_type));
        assert(events@[i].event_type matches Some(text) && (text@ == "change-opened"@ || text@
            == "metadata-updated"@));
    }
    if exists|i: int|
        0 <= i < events@.len() && ((#[trigger] events@[i]).event_type matches Some(text) && (text@
            == "change-opened"@ || text@ == "metadata-updated"@)) {
        let i = choose|i: int|
            0 <= i < events@.len() && ((#[trigger] events@[i]).event_type matches Some(text) && (
            text@ == "change-opened"@ || text@ == "metadata-updated"@));
        assert(retags(opt_view(events@[i].event_type)));
    }
}

/// One change is watched without a quorum, tagged changes with one, and never both or neither.
pub proof fn watches_have_one_scope(reference: bool, args: WatchArgs)
    ensures
        scope_of(reference, args) is Ok <==> reference != (args.tags@.len() > 0) && (reference
            <==> args.quorum is None),
        scope_of(reference, args) == Ok::<WatchScope, WatchRefusal>(WatchScope::Single) ==> reference,
        scope_of(reference, args) matches Ok(WatchScope::Tagged { quorum }) ==> args.quorum == Some(
            quorum,
        ),
{
}

/// An artifact is watched exactly for its claim going stale, and for nothing else.
pub proof fn artifacts_are_watched_for_staleness(
    args: &WatchArgs,
    r: Result<(), ArtifactRefusal>,
)
    requires
        answers_artifact(args, r),
    ensures
        r is Ok <==> args.tags@.len() == 0 && args.quorum is None && args.until@.len() > 0
            && forall|i: int|
            0 <= i < args.until@.len() ==> #[trigger] args.until@[i] == WatchUntil::Stalled,
{
    if r is Err {
        if let ArtifactRefusal::AsksAboutChange { index } = r->Err_0 {
            assert(args.until@[index as int] != WatchUntil::Stalled);
        }
    }
}

/// A wait ends exactly where what it waits for is so: whatever was recorded before.
pub proof fn waits_end_when_reached(
    until: WatchUntil,
    state: ChangeState,
    events: Seq<Event>,
    facts: WatchFacts,
    r: Option<WatchReached>,
)
    requires
        tells(r, cause_of(until, state, events, facts)),
    ensures
        match until {
            WatchUntil::Snapshot => r is Some <==> state.patchsets@.len() > 0,
            WatchUntil::Stalled => r is Some <==> state.claim is Some && facts.stale,
            WatchUntil::Reviewed => r is Some <==> state.patchsets@.len() > 0 && exists|i: int|
                0 <= i < state.verdicts@.len() && (#[trigger] state.verdicts@[i]).patchset_id@
                    == state.patchsets@.last().id@,
            WatchUntil::Approved => r is Some ==> facts.verdict is Some
                && facts.verdict->0.verdict == Verdict::Approved
                && facts.verdict->0.valid_for_current_head,
            WatchUntil::GatesGreen => r is Some <==> !facts.gates_green@.contains(false),
            WatchUntil::Ready => r is Some <==> facts.integrate_ready,
            WatchUntil::Blocked => r is Some <==> facts.blocked_on_stages@.len() > 0,
            WatchUntil::BriefRecorded => r is Some <==> state.briefs@.len() > 0,
            WatchUntil::Integrated => r is Some <==> (state.closure matches Some(closure)
                && closure.outcome == Closure::Integrated),
            WatchUntil::Closed => r is Some <==> state.closure is Some,
        },
{
    if until == WatchUntil::Reviewed && state.patchsets@.len() > 0 {
        lemma_judgement(state, state.patchsets@.last().id@, state.verdicts@.len() as int);
    }
    if until == WatchUntil::GatesGreen {
        if facts.gates_green@.contains(false) {
            let i = choose|i: int|
                0 <= i < facts.gates_green@.len() && facts.gates_green@[i] == false;
            assert(!facts.gates_green@[i]);
        } else {
            assert forall|i: int| 0 <= i < facts.gates_green@.len() implies
                #[trigger] facts.gates_green@[i] by {
                if !facts.gates_green@[i] {
                    assert(facts.gates_green@[i] == false);
                }
            }
        }
    }
}

proof fn lemma_judgement(state: ChangeState, id: Seq<char>, n: int)
    requires
        0 <= n <= state.verdicts@.len(),
    ensures
        last_judgement(state, id, n) is Some <==> exists|i: int|
            0 <= i < n && (#[trigger] state.verdicts@[i]).patchset_id@ == id,
    decreases n,
{
    if n > 0 {
        lemma_judgement(state, id, n - 1);
        if state.verdicts@[n - 1].patchset_id@ != id && last_judgement(state, id, n - 1) is Some {
            let i = choose|i: int|
                0 <= i < n - 1 && (#[trigger] state.verdicts@[i]).patchset_id@ == id;
            assert(state.verdicts@[i].patchset_id@ == id);
        }
        if state.verdicts@[n - 1].patchset_id@ != id && exists|i: int|
            0 <= i < n && (#[trigger] state.verdicts@[i]).patchset_id@ == id {
            let i = choose|i: int| 0 <= i < n && (#[trigger] state.verdicts@[i]).patchset_id@ == id;
            assert(0 <= i < n - 1);
            assert(state.verdicts@[i].patchset_id@ == id);
        }
    }
}

/// A valid approval of the head by the verdict that has authority ends the wait for one, and names
/// that verdict and why it is provisional.
pub proof fn approvals_end_the_wait(
    state: ChangeState,
    events: Seq<Event>,
    facts: WatchFacts,
    k: int,
    r: Option<WatchReached>,
)
    requires
        tells(r, cause_of(WatchUntil::Approved, state, events, facts)),
        state.authority matches Some(a) && a == k,
        0 <= k < state.verdicts@.len(),
        facts.verdict is Some,
        facts.verdict->0.valid_for_current_head,
        facts.verdict->0.verdict == Verdict::Approved,
        facts.verdict->0.patchset_id@ == state.verdicts@[k].patchset_id@,
    ensures
        r is Some,
        r->0.event_id is Some,
        r->0.event_id->0@ == state.verdicts@[k].event_id@,
        r->0.provisional is Some == state.verdicts@[k].provisional is Some,
        r->0.provisional is Some ==> r->0.provisional->0@ == state.verdicts@[k].provisional->0@,
{
}

/// The first condition that holds is told, and one is told wherever one holds.
pub proof fn the_first_condition_is_told(reached: &Vec<bool>, i: int, r: Option<usize>)
    requires
        is_first_reached(reached, r),
        0 <= i < reached@.len(),
        reached@[i],
    ensures
        r is Some,
        r->0 <= i,
        r->0 < reached@.len(),
        reached@[r->0 as int],
{
}

/// Under one quorum a single member ends the wait, and it is one that reached a condition; under
/// the other every member has to, including those that were not looked at.
pub proof fn quorums_are_met(
    quorum: WatchQuorum,
    hits: &Vec<bool>,
    total: usize,
    r: Option<Vec<usize>>,
)
    requires
        settles_watch(quorum, hits, total, r),
        hits@.len() <= total,
    ensures
        quorum == WatchQuorum::Any ==> (r is Some <==> hits@.contains(true)),
        quorum == WatchQuorum::All ==> (r is Some <==> hits@.len() == total && !hits@.contains(
            false,
        )),
        r matches Some(named) ==> forall|k: int|
            0 <= k < named@.len() ==> (#[trigger] named@[k]) < hits@.len()
                && hits@[named@[k] as int],
        quorum == WatchQuorum::Any && r is Some ==> r->0@.len() == 1,
        quorum == WatchQuorum::All && r is Some ==> r->0@.len() == total,
{
    if hits@.contains(true) {
        let i = choose|i: int| 0 <= i < hits@.len() && hits@[i] == true;
        assert(hits@[i]);
    }
    if hits@.contains(false) {
        let i = choose|i: int| 0 <= i < hits@.len() && hits@[i] == false;
        assert(!hits@[i]);
    }
    if r is Some && quorum == WatchQuorum::Any {
        assert(hits@[r->0@[0] as int] == true);
    }
    if r is None && quorum == WatchQuorum::All && hits@.len() == total {
        assert(!all_hit(hits@));
        let i = choose|i: int| 0 <= i < hits@.len() && !#[trigger] hits@[i];
        assert(hits@[i] == false);
    }
}

/// A report names the change where a member of several ended the wait, and the reason where its
/// approval is provisional.
pub proof fn reports_name_what_was_reached(
    scope: WatchScope,
    hits: Seq<WatchHit>,
    lines: Seq<String>,
    members: nat,
    until: Seq<WatchUntil>,
)
    requires
        hits.len() > 0,
        hits[0].provisional is None,
    ensures
        scope == WatchScope::Single ==> reached_text(scope, hits, lines, members, until)
            == "reached: "@ + until_text(hits[0].condition),
        scope == (WatchScope::Tagged { quorum: WatchQuorum::Any }) ==> reached_text(
            scope,
            hits,
            lines,
            members,
            until,
        ) == "reached: "@ + until_text(hits[0].condition) + " ("@ + hits[0].change_id@ + ")"@,
{
    reveal_strlit("");
    assert(""@ =~= Seq::<char>::empty());
    assert("reached: "@ + until_text(hits[0].condition) + ""@ =~= "reached: "@ + until_text(
        hits[0].condition,
    ));
    assert("reached: "@ + until_text(hits[0].condition) + " ("@ + hits[0].change_id@ + ")"@ + ""@
        =~= "reached: "@ + until_text(hits[0].condition) + " ("@ + hits[0].change_id@ + ")"@);
}

} // verus!
