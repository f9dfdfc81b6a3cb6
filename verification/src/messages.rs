//! Messages on changes.
use crate::event::Payload;
use crate::json::{holds_object, is_object, json_of, read_json};
use crate::order::{in_order, sort_positions, strict_order};
use crate::state::{ChangeState, MessageState};
use crate::text::{
    chars_of, lemma_precedes_irreflexive, lemma_precedes_total, lemma_precedes_transitive, less,
    opt_view, precedes, same, trim, trimmed,
};
use crate::time::{
    before, instant_of, lemma_instants_are_ordered, read_rfc3339, rfc3339_text, write_rfc3339,
    Timestamp,
};
use vstd::prelude::*;

verus! {

/// Why a message is not recorded.
#[derive(Clone, Copy, Debug, PartialEq, Eq, Structural)]
pub enum MessageRefusal {
    EmptySummary,
    /// The summary has a line break.
    SummaryOfManyLines,
    MetadataNoJson,
    MetadataNoObject,
}

/// Whether a text has a line break.
pub open spec fn many_lines(text: Seq<char>) -> bool {
    exists|i: int|
        0 <= i < text.len() && (#[trigger] text[i] == '\n' || text[i] == '\r')
}

/// A text without the white space around it, unless nothing is left.
pub open spec fn substance(text: Option<String>) -> Option<Seq<char>> {
    match text {
        Some(text) => if trimmed(text@).len() > 0 {
            Some(trimmed(text@))
        } else {
            None
        },
        None => None,
    }
}

/// What is wrong with a message: the first of the faults.
pub open spec fn message_fault(summary: Seq<char>, metadata: Option<Seq<char>>) -> Option<
    MessageRefusal,
> {
    if trimmed(summary).len() == 0 {
        Some(MessageRefusal::EmptySummary)
    } else if many_lines(trimmed(summary)) {
        Some(MessageRefusal::SummaryOfManyLines)
    } else {
        match metadata {
            Some(raw) => match json_of(raw) {
                Some(value) => if is_object(value) {
                    None
                } else {
                    Some(MessageRefusal::MetadataNoObject)
                },
                None => Some(MessageRefusal::MetadataNoJson),
            },
            None => None,
        }
    }
}

fn has_many_lines(text: &str) -> (r: bool)
    ensures
        r == many_lines(text@),
{
    let chars = chars_of(text);
    for i in 0..chars.len()
        invariant
            chars@ == text@,
            forall|j: int| 0 <= j < i ==> #[trigger] chars@[j] != '\n' && chars@[j] != '\r',
    {
        if chars[i] == '\n' || chars[i] == '\r' {
            assert(text@[i as int] == '\n' || text@[i as int] == '\r');
            return true;
        }
    }
    false
}

/// What metadata comes to, once it was read: nothing was given, no JSON was given, or whether an
/// object was given.
#[derive(Clone, Copy, Debug, PartialEq, Eq, Structural)]
pub enum MetadataFound {
    Absent,
    NoJson,
    Json { object: bool },
}

/// What metadata comes to.
pub open spec fn metadata_found(metadata: Option<Seq<char>>) -> MetadataFound {
    match metadata {
        Some(raw) => match json_of(raw) {
            Some(value) => MetadataFound::Json { object: is_object(value) },
            None => MetadataFound::NoJson,
        },
        None => MetadataFound::Absent,
    }
}

fn find_metadata(metadata: &Option<String>) -> (r: MetadataFound)
    ensures
        r == metadata_found(opt_view(*metadata)),
{
    match metadata {
        Some(raw) => match read_json(raw.as_str()) {
            Some(value) => MetadataFound::Json { object: holds_object(&value) },
            None => MetadataFound::NoJson,
        },
        None => MetadataFound::Absent,
    }
}

/// Whether `r` says if a message may be recorded.
pub open spec fn checks_message(
    summary: &str,
    metadata: MetadataFound,
    r: Result<(), MessageRefusal>,
) -> bool {
    r == (if trimmed(summary@).len() == 0 {
            Err::<(), MessageRefusal>(MessageRefusal::EmptySummary)
        } else if many_lines(trimmed(summary@)) {
            Err(MessageRefusal::SummaryOfManyLines)
        } else if metadata is NoJson {
            Err(MessageRefusal::MetadataNoJson)
        } else if metadata == (MetadataFound::Json { object: false }) {
            Err(MessageRefusal::MetadataNoObject)
        } else {
            Ok(())
        })
}

/// Whether a message may be recorded, given what its metadata come to.
pub fn check_message(summary: &str, metadata: MetadataFound) -> (r: Result<(), MessageRefusal>)
    ensures
        checks_message(summary, metadata, r),
{
    let line = trim(summary);
    if line.as_str().is_empty() {
        return Err(MessageRefusal::EmptySummary);
    }
    if has_many_lines(line.as_str()) {
        return Err(MessageRefusal::SummaryOfManyLines);
    }
    match metadata {
        MetadataFound::NoJson => Err(MessageRefusal::MetadataNoJson),
        MetadataFound::Json { object } => if object {
            Ok(())
        } else {
            Err(MessageRefusal::MetadataNoObject)
        },
        MetadataFound::Absent => Ok(()),
    }
}

/// Whether `r` records a message, or says why it is not recorded.
pub open spec fn answers_message(
    message_type: String,
    severity: String,
    summary: &str,
    detail: &Option<String>,
    metadata: Option<String>,
    r: Result<Payload, MessageRefusal>,
) -> bool {
    match r {
            Ok(
                Payload::Message {
                    message_type: of,
                    severity: weight,
                    summary: line,
                    detail: text,
                    metadata: json,
                },
            ) => {
                &&& message_fault(summary@, opt_view(metadata)) is None
                &&& of == message_type
                &&& weight == severity
                &&& line@ == trimmed(summary@)
                &&& opt_view(text) == substance(*detail)
                &&& json == metadata
            },
            Ok(_) => false,
            Err(refusal) => message_fault(summary@, opt_view(metadata)) == Some(refusal),
        }
}

/// What records a message: its summary is one line, and its metadata are a JSON object.
pub fn message(
    message_type: String,
    severity: String,
    summary: &str,
    detail: &Option<String>,
    metadata: Option<String>,
) -> (r: Result<Payload, MessageRefusal>)
    ensures
        answers_message(message_type, severity, summary, detail, metadata, r),
{
    if let Err(refusal) = check_message(summary, find_metadata(&metadata)) {
        return Err(refusal);
    }
    let text = match detail {
        Some(text) => {
            let text = trim(text.as_str());
            if text.as_str().is_empty() {
                None
            } else {
                Some(text)
            }
        },
        None => None,
    };
    Ok(Payload::Message { message_type, severity, summary: trim(summary), detail: text, metadata })
}

/// Which messages are asked for.
pub struct MessageFilter {
    pub change_id: Option<String>,
    pub message_type: Option<String>,
    pub severity: Option<String>,
    pub since: Option<Timestamp>,
}

/// Whether a text is the one that is asked for, where one is.
pub open spec fn agrees(wanted: Option<String>, text: Seq<char>) -> bool {
    match wanted {
        Some(wanted) => wanted@ == text,
        None => true,
    }
}

/// Whether a message of a change is asked for.
pub open spec fn asked_for(filter: MessageFilter, state: ChangeState, message: MessageState) -> bool {
    &&& agrees(filter.change_id, state.change_id@)
    &&& agrees(filter.message_type, message.message_type@)
    &&& agrees(filter.severity, message.severity@)
    &&& match filter.since {
        Some(floor) => !before(message.created_at, floor),
        None => true,
    }
}

/// Where a message stands: the change and the message on it.
#[derive(Clone, Copy, Debug, PartialEq, Eq, Structural)]
pub struct MessageAt {
    pub change: usize,
    pub index: usize,
}

/// The message at a place.
pub open spec fn message_at(changes: Seq<ChangeState>, at: MessageAt) -> MessageState {
    changes[at.change as int].messages@[at.index as int]
}

/// The places of the first `n` messages of a change that are asked for.
pub open spec fn places_on(changes: Seq<ChangeState>, filter: MessageFilter, i: int, n: int) -> Seq<
    MessageAt,
>
    decreases n,
{
    if n <= 0 {
        Seq::empty()
    } else {
        let earlier = places_on(changes, filter, i, n - 1);
        if asked_for(filter, changes[i], changes[i].messages@[n - 1]) {
            earlier.push(MessageAt { change: i as usize, index: (n - 1) as usize })
        } else {
            earlier
        }
    }
}

/// The places of the messages of the first `n` changes that are asked for.
pub open spec fn places(changes: Seq<ChangeState>, filter: MessageFilter, n: int) -> Seq<MessageAt>
    decreases n,
{
    if n <= 0 {
        Seq::empty()
    } else {
        places(changes, filter, n - 1) + places_on(
            changes,
            filter,
            n - 1,
            changes[n - 1].messages@.len() as int,
        )
    }
}

/// The newest message first; of one instant the one with the later identity.
pub open spec fn newer(changes: Seq<ChangeState>, found: Seq<MessageAt>) -> spec_fn(
    usize,
    usize,
) -> bool {
    |a: usize, b: usize|
        if a < found.len() && b < found.len() {
            newer_than(
                message_at(changes, found[a as int]),
                message_at(changes, found[b as int]),
                a < b,
            )
        } else {
            a < b
        }
}

/// Whether one message comes before another; `first` decides between two that are alike.
pub open spec fn newer_than(a: MessageState, b: MessageState, first: bool) -> bool {
    ||| before(b.created_at, a.created_at)
    ||| (!before(a.created_at, b.created_at) && (precedes(b.event_id@, a.event_id@) || (
    a.event_id@ == b.event_id@ && first)))
}

proof fn lemma_newer(changes: Seq<ChangeState>, found: Seq<MessageAt>)
    ensures
        strict_order(newer(changes, found)),
{
    let order = newer(changes, found);
    assert forall|a: usize| !#[trigger] order(a, a) by {
        if a < found.len() {
            let m = message_at(changes, found[a as int]);
            lemma_instants_are_ordered(m.created_at, m.created_at);
            lemma_precedes_irreflexive(m.event_id@);
        }
    }
    assert forall|a: usize, b: usize, c: usize| #[trigger] order(a, b) && #[trigger] order(
        b,
        c,
    ) implies order(a, c) by {
        if a < found.len() && b < found.len() && c < found.len() {
            let x = message_at(changes, found[a as int]);
            let y = message_at(changes, found[b as int]);
            let z = message_at(changes, found[c as int]);
            if precedes(z.event_id@, y.event_id@) && precedes(y.event_id@, x.event_id@) {
                lemma_precedes_transitive(z.event_id@, y.event_id@, x.event_id@);
            }
        }
    }
    assert forall|a: usize, b: usize| a != b implies #[trigger] order(a, b) || order(b, a) by {
        if a < found.len() && b < found.len() {
            let x = message_at(changes, found[a as int]);
            let y = message_at(changes, found[b as int]);
            lemma_precedes_total(x.event_id@, y.event_id@);
        }
    }
}

/// Whether `selected` are the places of the messages that are asked for, the newest first.
pub open spec fn are_messages(
    selected: Seq<MessageAt>,
    changes: Seq<ChangeState>,
    filter: MessageFilter,
) -> bool {
    let found = places(changes, filter, changes.len() as int);
    exists|order: Seq<usize>| #[trigger]
        in_order(order, newer(changes, found)) && (forall|a: usize| #[trigger]
            order.contains(a) <==> a < found.len()) && selected.len() == order.len() && forall|
            k: int,
        |
            0 <= k < order.len() ==> #[trigger] selected[k] == found[order[k] as int]
}

fn agrees_with(wanted: &Option<String>, text: &str) -> (r: bool)
    ensures
        r == agrees(*wanted, text@),
{
    match wanted {
        Some(wanted) => same(wanted.as_str(), text),
        None => true,
    }
}

fn is_asked_for(filter: &MessageFilter, state: &ChangeState, message: &MessageState) -> (r: bool)
    ensures
        r == asked_for(*filter, *state, *message),
{
    agrees_with(&filter.change_id, state.change_id.as_str()) && agrees_with(
        &filter.message_type,
        message.message_type.as_str(),
    ) && agrees_with(&filter.severity, message.severity.as_str()) && match &filter.since {
        Some(floor) => !message.created_at.is_before(floor),
        None => true,
    }
}

/// Whether each place is one of a message.
spec fn all_stand(found: Seq<MessageAt>, changes: Seq<ChangeState>) -> bool {
    forall|k: int|
        0 <= k < found.len() ==> (#[trigger] found[k]).change < changes.len() && found[k].index
            < changes[found[k].change as int].messages@.len()
}

fn find_places(changes: &Vec<ChangeState>, filter: &MessageFilter) -> (r: Vec<MessageAt>)
    ensures
        r@ == places(changes@, *filter, changes@.len() as int),
        all_stand(r@, changes@),
{
    let mut found: Vec<MessageAt> = Vec::new();
    assert(found@ =~= places(changes@, *filter, 0));
    for i in 0..changes.len()
        invariant
            found@ == places(changes@, *filter, i as int),
            all_stand(found@, changes@),
    {
        let all = &changes[i].messages;
        let ghost earlier = found@;
        assert(earlier + places_on(changes@, *filter, i as int, 0) =~= earlier);
        for j in 0..all.len()
            invariant
                i < changes@.len(),
                all@ == changes@[i as int].messages@,
                found@ == earlier + places_on(changes@, *filter, i as int, j as int),
                all_stand(found@, changes@),
        {
            let ghost on = places_on(changes@, *filter, i as int, j as int);
            if is_asked_for(filter, &changes[i], &all[j]) {
                let at = MessageAt { change: i, index: j };
                found.push(at);
                assert(earlier + on.push(at) =~= (earlier + on).push(at));
            }
        }
    }
    found
}

/// The messages that are asked for, the newest first.
pub fn messages(changes: &Vec<ChangeState>, filter: &MessageFilter) -> (r: Vec<MessageAt>)
    ensures
        are_messages(r@, changes@, *filter),
{
    let found = find_places(changes, filter);
    let mut indices: Vec<usize> = Vec::new();
    for i in 0..found.len()
        invariant
            indices@.len() == i,
            indices@.no_duplicates(),
            forall|k: int| 0 <= k < i ==> #[trigger] indices@[k] == k,
    {
        indices.push(i);
    }
    proof {
        lemma_newer(changes@, found@);
        assert forall|a: usize| #[trigger] indices@.contains(a) <==> a < found@.len() by {
            if a < found@.len() {
                assert(indices@[a as int] == a);
            }
        }
    }
    let ahead = |a: usize, b: usize| -> (out: bool)
        requires
            found@.len() > a,
            found@.len() > b,
            all_stand(found@, changes@),
        ensures
            out == newer(changes@, found@)(a, b),
        {
            assert(found@[a as int].change < changes@.len());
            assert(found@[b as int].change < changes@.len());
            let x = &changes[found[a].change].messages[found[a].index];
            let y = &changes[found[b].change].messages[found[b].index];
            y.created_at.is_before(&x.created_at) || (!x.created_at.is_before(&y.created_at) && (
            less(y.event_id.as_str(), x.event_id.as_str()) || (same(
                x.event_id.as_str(),
                y.event_id.as_str(),
            ) && a < b)))
        };
    let order = sort_positions(&indices, ahead, Ghost(newer(changes@, found@)));
    let mut out: Vec<MessageAt> = Vec::new();
    for k in 0..order.len()
        invariant
            forall|a: usize| #[trigger] order@.contains(a) <==> a < found@.len(),
            out@.len() == k,
            forall|m: int| 0 <= m < k ==> #[trigger] out@[m] == found@[order@[m] as int],
    {
        assert(order@.contains(order@[k as int]));
        out.push(found[order[k]]);
    }
    assert(in_order(order@, newer(changes@, places(changes@, *filter, changes@.len() as int))));
    out
}

/// Whether `r` is the instant from which on messages are asked for.
pub open spec fn reads_since(
    since: &Option<String>,
    r: Result<Option<Timestamp>, ()>,
) -> bool {
    match r {
            Ok(Some(at)) => since is Some && instant_of(since->0@) == Some((at.secs(), at.nanos())),
            Ok(None) => since is None,
            Err(()) => since is Some && instant_of(since->0@) is None,
        }
}

/// The instant from which on messages are asked for, read from a text that must be one.
pub fn read_since(since: &Option<String>) -> (r: Result<Option<Timestamp>, ()>)
    ensures
        reads_since(since, r),
{
    match since {
        Some(text) => match read_rfc3339(text.as_str()) {
            Some(at) => Ok(Some(at)),
            None => Err(()),
        },
        None => Ok(None),
    }
}

/// The line of a message of a change.
pub open spec fn message_text(change_id: Seq<char>, message: MessageState) -> Seq<char> {
    change_id + " ["@ + message.message_type@ + "/"@ + message.severity@ + "] "@ + message.summary@
        + " — "@ + message.actor@ + " ("@ + rfc3339_text(
        message.created_at.secs(),
        message.created_at.nanos(),
    ) + ")"@
}

/// The line of a message of a change.
pub fn message_line(change_id: &str, message: &MessageState) -> (r: String)
    ensures
        r@ == message_text(change_id@, *message),
{
    let mut out = change_id.to_string();
    out.append(" [");
    out.append(message.message_type.as_str());
    out.append("/");
    out.append(message.severity.as_str());
    out.append("] ");
    out.append(message.summary.as_str());
    out.append(" — ");
    out.append(message.actor.as_str());
    out.append(" (");
    out.append(write_rfc3339(message.created_at).as_str());
    out.append(")");
    out
}

/// A message is recorded exactly where its summary is one line that says something and its metadata,
/// where it has any, are a JSON object.
pub proof fn messages_have_a_summary(
    message_type: String,
    severity: String,
    summary: &str,
    detail: &Option<String>,
    metadata: Option<String>,
    r: Result<Payload, MessageRefusal>,
)
    requires
        answers_message(message_type, severity, summary, detail, metadata, r),
    ensures
        r is Ok <==> trimmed(summary@).len() > 0 && !trimmed(summary@).contains('\n') && !trimmed(
            summary@,
        ).contains('\r') && (metadata matches Some(raw) ==> json_of(raw@) is Some && is_object(
            json_of(raw@)->0,
        )),
        r matches Ok(payload) ==> (payload matches Payload::Message {
            message_type: of,
            severity: weight,
            summary: line,
            metadata: json,
            ..
        } && of == message_type && weight == severity && line@ == trimmed(summary@) && json
            == metadata),
{
    let line = trimmed(summary@);
    if many_lines(line) {
        let i = choose|i: int|
            0 <= i < line.len() && (#[trigger] line[i] == '\n' || line[i] == '\r');
        assert(line.contains(line[i]));
    }
    if line.contains('\n') {
        let i = choose|i: int| 0 <= i < line.len() && line[i] == '\n';
        assert(line[i] == '\n');
    }
    if line.contains('\r') {
        let i = choose|i: int| 0 <= i < line.len() && line[i] == '\r';
        assert(line[i] == '\r');
    }
}

/// What metadata come to decides the same whether it was read before or is read on the way.
pub proof fn checked_messages_are_recorded(
    message_type: String,
    severity: String,
    summary: &str,
    detail: &Option<String>,
    metadata: Option<String>,
    checked: Result<(), MessageRefusal>,
    r: Result<Payload, MessageRefusal>,
)
    requires
        checks_message(summary, metadata_found(opt_view(metadata)), checked),
        answers_message(message_type, severity, summary, detail, metadata, r),
    ensures
        checked is Ok <==> r is Ok,
        checked is Err ==> r is Err && checked->Err_0 == r->Err_0,
{
}

/// A message is asked for exactly where it is on the change, of the type and of the severity that
/// are asked for, each where one is, and not older than what is asked for.
pub proof fn filters_keep_what_agrees(
    filter: MessageFilter,
    state: ChangeState,
    message: MessageState,
)
    ensures
        asked_for(filter, state, message) ==> {
            &&& filter.change_id matches Some(id) ==> id@ == state.change_id@
            &&& filter.message_type matches Some(of) ==> of@ == message.message_type@
            &&& filter.severity matches Some(weight) ==> weight@ == message.severity@
            &&& filter.since matches Some(floor) ==> floor == message.created_at || before(
                floor,
                message.created_at,
            )
        },
        filter.change_id is None && filter.message_type is None && filter.severity is None && (
        filter.since is None || filter.since == Some(message.created_at)) ==> asked_for(
            filter,
            state,
            message,
        ),
        filter.change_id is None && filter.message_type is None && filter.since is None
            && filter.severity is Some && filter.severity->0@ == message.severity@ ==> asked_for(
            filter,
            state,
            message,
        ),
        filter.change_id is None && filter.severity is None && filter.since is None
            && filter.message_type is Some && filter.message_type->0@ == message.message_type@
            ==> asked_for(filter, state, message),
        filter.message_type is None && filter.severity is None && filter.since is None
            && filter.change_id is Some && filter.change_id->0@ == state.change_id@ ==> asked_for(
            filter,
            state,
            message,
        ),
{
    if let Some(floor) = filter.since {
        lemma_instants_are_ordered(floor, message.created_at);
    }
    lemma_instants_are_ordered(message.created_at, message.created_at);
}

proof fn lemma_places_on(
    changes: Seq<ChangeState>,
    filter: MessageFilter,
    i: int,
    n: int,
    k: int,
)
    requires
        0 <= k < n,
        asked_for(filter, changes[i], changes[i].messages@[k]),
    ensures
        places_on(changes, filter, i, n).contains(
            MessageAt { change: i as usize, index: k as usize },
        ),
    decreases n,
{
    let at = MessageAt { change: i as usize, index: k as usize };
    let all = places_on(changes, filter, i, n);
    if k == n - 1 {
        assert(all[all.len() - 1] == at);
    } else {
        lemma_places_on(changes, filter, i, n - 1, k);
        let prior = places_on(changes, filter, i, n - 1);
        let m = choose|m: int| 0 <= m < prior.len() && prior[m] == at;
        assert(all[m] == at);
    }
}

proof fn lemma_places(
    changes: Seq<ChangeState>,
    filter: MessageFilter,
    n: int,
    i: int,
    k: int,
)
    requires
        0 <= i < n,
        0 <= k < changes[i].messages@.len(),
        asked_for(filter, changes[i], changes[i].messages@[k]),
    ensures
        places(changes, filter, n).contains(MessageAt { change: i as usize, index: k as usize }),
    decreases n,
{
    let at = MessageAt { change: i as usize, index: k as usize };
    let prior = places(changes, filter, n - 1);
    let last = places_on(changes, filter, n - 1, changes[n - 1].messages@.len() as int);
    if i == n - 1 {
        lemma_places_on(changes, filter, i, changes[i].messages@.len() as int, k);
        let m = choose|m: int| 0 <= m < last.len() && last[m] == at;
        assert((prior + last)[prior.len() + m] == at);
    } else {
        lemma_places(changes, filter, n - 1, i, k);
        let m = choose|m: int| 0 <= m < prior.len() && prior[m] == at;
        assert((prior + last)[m] == at);
    }
}

/// Every message that is asked for is told.
pub proof fn no_message_is_lost(
    selected: Seq<MessageAt>,
    changes: Seq<ChangeState>,
    filter: MessageFilter,
    i: usize,
    k: usize,
)
    requires
        are_messages(selected, changes, filter),
        i < changes.len(),
        k < changes[i as int].messages@.len(),
        asked_for(filter, changes[i as int], changes[i as int].messages@[k as int]),
        places(changes, filter, changes.len() as int).len() <= usize::MAX,
    ensures
        selected.contains(MessageAt { change: i, index: k }),
{
    let found = places(changes, filter, changes.len() as int);
    let order = choose|order: Seq<usize>| #[trigger]
        in_order(order, newer(changes, found)) && (forall|a: usize| #[trigger]
            order.contains(a) <==> a < found.len()) && selected.len() == order.len() && forall|
            k: int,
        |
            0 <= k < order.len() ==> #[trigger] selected[k] == found[order[k] as int];
    lemma_places(changes, filter, changes.len() as int, i as int, k as int);
    let at = MessageAt { change: i, index: k };
    let m = choose|m: int| 0 <= m < found.len() && found[m] == at;
    assert(order.contains(m as usize));
    let p = choose|p: int| 0 <= p < order.len() && order[p] == m as usize;
    assert(selected[p] == found[order[p] as int]);
}

/// A newer message is told before an older one.
pub proof fn newer_messages_come_first(
    selected: Seq<MessageAt>,
    changes: Seq<ChangeState>,
    filter: MessageFilter,
    a: int,
    b: int,
)
    requires
        are_messages(selected, changes, filter),
        0 <= a < b < selected.len(),
    ensures
        !before(
            message_at(changes, selected[a]).created_at,
            message_at(changes, selected[b]).created_at,
        ),
{
    let found = places(changes, filter, changes.len() as int);
    let order = choose|order: Seq<usize>| #[trigger]
        in_order(order, newer(changes, found)) && (forall|a: usize| #[trigger]
            order.contains(a) <==> a < found.len()) && selected.len() == order.len() && forall|
            k: int,
        |
            0 <= k < order.len() ==> #[trigger] selected[k] == found[order[k] as int];
    assert(order.contains(order[a]) && order.contains(order[b]));
    assert(newer(changes, found)(order[a], order[b]));
    assert(selected[a] == found[order[a] as int] && selected[b] == found[order[b] as int]);
    lemma_instants_are_ordered(
        message_at(changes, selected[a]).created_at,
        message_at(changes, selected[b]).created_at,
    );
}

/// An instant to ask from is one, and without one everything is asked for.
pub proof fn instants_to_ask_from_are_read(
    since: &Option<String>,
    r: Result<Option<Timestamp>, ()>,
)
    requires
        reads_since(since, r),
    ensures
        since is None <==> r == Ok::<Option<Timestamp>, ()>(None),
        *since matches Some(text) ==> (r is Ok <==> instant_of(text@) is Some),
{
}

} // verus!
