//! Review passes: which patchsets one covers, how it ended, and which changes wait for one.
use crate::bundle::{accepted, answers_all, refused};
use crate::event::{Event, Payload};
use crate::order::{in_order, sort_positions, strict_order};
use crate::runs::no_event;
use crate::state::ChangeState;
use crate::table::{ascending, find_place, lemma_insert_ascending, lemma_one_place, Place};
use crate::text::{
    among, contains, first_index, lemma_first_index, lemma_precedes_irreflexive,
    lemma_precedes_total, lemma_precedes_transitive, less, opt_view, precedes, push_text, same,
    split_once, trim, trimmed, views,
};
use vstd::prelude::*;

verus! {

/// A member of a pass: one patchset of one change.
#[derive(Debug)]
pub struct MemberParts {
    pub change_id: String,
    pub patchset_id: String,
}

/// What is wrong with a member.
#[derive(Clone, Copy, Debug, PartialEq, Eq, Structural)]
pub enum MemberFault {
    SurroundingSpace,
    NoColon,
    SeveralColons,
    InvalidId,
}

/// What is wrong with the shape of a member, where anything is.
pub open spec fn shape_fault(member: Seq<char>) -> Option<MemberFault> {
    let n = first_index(member, ':');
    if trimmed(member) != member {
        Some(MemberFault::SurroundingSpace)
    } else if n >= member.len() {
        Some(MemberFault::NoColon)
    } else if first_index(member.skip(n + 1), ':') < member.skip(n + 1).len() {
        Some(MemberFault::SeveralColons)
    } else {
        None
    }
}

/// The change that a member names.
pub open spec fn change_part(member: Seq<char>) -> Seq<char> {
    member.take(first_index(member, ':'))
}

/// The patchset that a member names.
pub open spec fn patchset_part(member: Seq<char>) -> Seq<char> {
    member.skip(first_index(member, ':') + 1)
}

/// Whether something is wrong with a member.
pub open spec fn member_fault<F: Fn(&str) -> bool>(
    rule: F,
    member: Seq<char>,
    fault: MemberFault,
) -> bool {
    match shape_fault(member) {
        Some(found) => found == fault,
        None => fault == MemberFault::InvalidId && (refused(rule, change_part(member)) || refused(
            rule,
            patchset_part(member),
        )),
    }
}

/// Whether a member names a change and a patchset.
pub open spec fn is_member<F: Fn(&str) -> bool>(rule: F, member: Seq<char>) -> bool {
    shape_fault(member) is None && accepted(rule, change_part(member)) && accepted(
        rule,
        patchset_part(member),
    )
}

fn holds_colon(text: &str) -> (r: bool)
    ensures
        r == (first_index(text@, ':') < text@.len()),
{
    proof {
        lemma_first_index(text@, ':');
    }
    split_once(text, ':').is_some()
}

/// The change and the patchset that a member names: `<change-id>:<patchset-id>`.
pub fn parse_member<F: Fn(&str) -> bool>(member: &str, rule: &F) -> (r: Result<
    MemberParts,
    MemberFault,
>)
    requires
        answers_all(*rule),
    ensures
        match r {
            Ok(parts) => is_member(*rule, member@) && parts.change_id@ == change_part(member@)
                && parts.patchset_id@ == patchset_part(member@),
            Err(fault) => member_fault(*rule, member@, fault),
        },
{
    if !same(trim(member).as_str(), member) {
        return Err(MemberFault::SurroundingSpace);
    }
    proof {
        lemma_first_index(member@, ':');
    }
    let (change_id, patchset_id) = match split_once(member, ':') {
        Some(parts) => parts,
        None => return Err(MemberFault::NoColon),
    };
    if holds_colon(patchset_id.as_str()) {
        return Err(MemberFault::SeveralColons);
    }
    if !rule(change_id.as_str()) {
        return Err(MemberFault::InvalidId);
    }
    if !rule(patchset_id.as_str()) {
        return Err(MemberFault::InvalidId);
    }
    Ok(MemberParts { change_id, patchset_id })
}

/// What is wrong with the record of passes.
#[derive(Clone, Copy, Debug, PartialEq, Eq, Structural)]
pub enum PassFault {
    InvalidId,
    NoMembers,
    InvalidMember { index: usize, fault: MemberFault },
    RepeatedMember { index: usize },
    OpenedTwice,
    UnknownPass,
    EndedTwice,
}

/// Whether an event opens a pass.
pub open spec fn opens(event: Event, id: Seq<char>) -> bool {
    match event.payload {
        Payload::ReviewPassOpened { pass_id, .. } => pass_id@ == id,
        _ => false,
    }
}

/// Whether an event ends a pass.
pub open spec fn ends_pass(event: Event, id: Seq<char>) -> bool {
    match event.payload {
        Payload::ReviewPassCompleted { pass_id, .. } => pass_id@ == id,
        Payload::ReviewPassAbandoned { pass_id, .. } => pass_id@ == id,
        _ => false,
    }
}

/// The members that an event opens a pass with.
pub open spec fn members_of(event: Event) -> Seq<String> {
    match event.payload {
        Payload::ReviewPassOpened { members, .. } => members@,
        _ => Seq::empty(),
    }
}

/// Whether one of the first `n` events opens a pass.
pub open spec fn opened_by(events: Seq<Event>, n: int, id: Seq<char>) -> bool {
    exists|i: int| 0 <= i < n && opens(#[trigger] events[i], id)
}

/// Whether one of the first `n` events ends a pass.
pub open spec fn ended_by(events: Seq<Event>, n: int, id: Seq<char>) -> bool {
    exists|i: int| 0 <= i < n && ends_pass(#[trigger] events[i], id)
}

/// Whether a member at `k` repeats an earlier one.
pub open spec fn repeats_at(members: Seq<String>, k: int) -> bool {
    exists|j: int| 0 <= j < k && (#[trigger] members[j])@ == members[k]@
}

/// Whether nothing is wrong with the first `n` members: each names a change and a patchset, and
/// where they have to be `unique` none repeats an earlier one.
pub open spec fn fit_until<F: Fn(&str) -> bool>(
    rule: F,
    members: Seq<String>,
    unique: bool,
    n: int,
) -> bool {
    &&& forall|i: int| 0 <= i < n ==> is_member(rule, (#[trigger] members[i])@)
    &&& unique ==> forall|i: int| 0 <= i < n ==> !#[trigger] repeats_at(members, i)
}

/// Whether this is wrong with the members of a pass: there are none, or it is wrong with the first
/// that anything is wrong with.
pub open spec fn unfit<F: Fn(&str) -> bool>(
    rule: F,
    members: Seq<String>,
    unique: bool,
    fault: PassFault,
) -> bool {
    match fault {
        PassFault::NoMembers => members.len() == 0,
        PassFault::InvalidMember { index, fault: wrong } => index < members.len() && fit_until(
            rule,
            members,
            unique,
            index as int,
        ) && member_fault(rule, members[index as int]@, wrong),
        PassFault::RepeatedMember { index } => unique && index < members.len() && fit_until(
            rule,
            members,
            unique,
            index as int,
        ) && is_member(rule, members[index as int]@) && repeats_at(members, index as int),
        _ => false,
    }
}

/// Whether something is wrong with the event at `k`, given those before it.
pub open spec fn event_fault<F: Fn(&str) -> bool>(
    rule: F,
    events: Seq<Event>,
    unique: bool,
    k: int,
    fault: PassFault,
) -> bool {
    match events[k].payload {
        Payload::ReviewPassOpened { pass_id, members, .. } => match fault {
            PassFault::InvalidId => refused(rule, pass_id@),
            PassFault::OpenedTwice => accepted(rule, pass_id@) && members@.len() > 0
                && fit_until(rule, members@, unique, members@.len() as int) && opened_by(
                events,
                k,
                pass_id@,
            ),
            _ => accepted(rule, pass_id@) && unfit(rule, members@, unique, fault),
        },
        Payload::ReviewPassCompleted { pass_id, .. } => ending_fault(events, k, pass_id@, fault),
        Payload::ReviewPassAbandoned { pass_id, .. } => ending_fault(events, k, pass_id@, fault),
        _ => false,
    }
}

/// Whether something is wrong with an event at `k` that ends a pass.
pub open spec fn ending_fault(
    events: Seq<Event>,
    k: int,
    id: Seq<char>,
    fault: PassFault,
) -> bool {
    match fault {
        PassFault::UnknownPass => !opened_by(events, k, id),
        PassFault::EndedTwice => opened_by(events, k, id) && ended_by(events, k, id),
        _ => false,
    }
}

/// Whether the event at `k` is in order, given those before it: a pass is opened once, with
/// members, and ended at most once, after it was opened.
pub open spec fn in_place<F: Fn(&str) -> bool>(
    rule: F,
    events: Seq<Event>,
    unique: bool,
    k: int,
) -> bool {
    match events[k].payload {
        Payload::ReviewPassOpened { pass_id, members, .. } => {
            &&& accepted(rule, pass_id@)
            &&& members@.len() > 0
            &&& fit_until(rule, members@, unique, members@.len() as int)
            &&& !opened_by(events, k, pass_id@)
        },
        Payload::ReviewPassCompleted { pass_id, .. } => opened_by(events, k, pass_id@) && !ended_by(
            events,
            k,
            pass_id@,
        ),
        Payload::ReviewPassAbandoned { pass_id, .. } => opened_by(events, k, pass_id@) && !ended_by(
            events,
            k,
            pass_id@,
        ),
        _ => true,
    }
}

/// The passes that events record, in the order of their identities: the event that opened each,
/// and the one that ended it.
#[derive(Debug)]
pub struct PassHistory {
    pub ids: Vec<String>,
    pub opened: Vec<usize>,
    pub ending: Vec<Option<usize>>,
}

impl PassHistory {
    /// Whether this is the history of the first `n` events.
    pub open spec fn recounts(self, events: Seq<Event>, n: int) -> bool {
        &&& ascending(views(self.ids@))
        &&& self.opened@.len() == self.ids@.len()
        &&& self.ending@.len() == self.ids@.len()
        &&& forall|id: Seq<char>| #[trigger] among(self.ids@, id) <==> opened_by(events, n, id)
        &&& forall|k: int|
            0 <= k < self.ids@.len() ==> (#[trigger] self.opened@[k]) < n && opens(
                events[self.opened@[k] as int],
                self.ids@[k]@,
            )
        &&& forall|k: int|
            0 <= k < self.ids@.len() ==> match #[trigger] self.ending@[k] {
                Some(j) => j < n && ends_pass(events[j as int], self.ids@[k]@),
                None => !ended_by(events, n, self.ids@[k]@),
            }
    }
}

fn check_members<F: Fn(&str) -> bool>(members: &Vec<String>, rule: &F, unique: bool) -> (r: Result<
    (),
    PassFault,
>)
    requires
        answers_all(*rule),
    ensures
        match r {
            Ok(()) => members@.len() > 0 && fit_until(
                *rule,
                members@,
                unique,
                members@.len() as int,
            ),
            Err(fault) => unfit(*rule, members@, unique, fault),
        },
{
    if members.len() == 0 {
        return Err(PassFault::NoMembers);
    }
    for k in 0..members.len()
        invariant
            answers_all(*rule),
            members@.len() > 0,
            fit_until(*rule, members@, unique, k as int),
    {
        if let Err(fault) = parse_member(members[k].as_str(), rule) {
            return Err(PassFault::InvalidMember { index: k, fault });
        }
        if unique {
            for j in 0..k
                invariant
                    k < members@.len(),
                    unique,
                    fit_until(*rule, members@, unique, k as int),
                    is_member(*rule, members@[k as int]@),
                    forall|i: int| 0 <= i < j ==> (#[trigger] members@[i])@ != members@[k as int]@,
            {
                if same(members[j].as_str(), members[k].as_str()) {
                    assert(members@[j as int]@ == members@[k as int]@);
                    return Err(PassFault::RepeatedMember { index: k });
                }
            }
            assert(!repeats_at(members@, k as int));
        }
    }
    Ok(())
}

/// An event that neither opens nor ends a pass leaves the history as it is.
proof fn lemma_untouched(history: PassHistory, events: Seq<Event>, n: int)
    requires
        0 <= n < events.len(),
        history.recounts(events, n),
        forall|id: Seq<char>| !#[trigger] opens(events[n], id),
        forall|id: Seq<char>| !#[trigger] ends_pass(events[n], id),
    ensures
        history.recounts(events, n + 1),
{
    assert forall|id: Seq<char>| #[trigger] among(history.ids@, id) <==> opened_by(
        events,
        n + 1,
        id,
    ) by {
        lemma_opened_step(events, n, id);
    }
    assert forall|k: int| 0 <= k < history.ids@.len() implies match #[trigger] history.ending@[k] {
        Some(j) => j < n + 1 && ends_pass(events[j as int], history.ids@[k]@),
        None => !ended_by(events, n + 1, history.ids@[k]@),
    } by {
        lemma_ended_step(events, n, history.ids@[k]@);
    }
}

proof fn lemma_opened_step(events: Seq<Event>, n: int, id: Seq<char>)
    requires
        0 <= n < events.len(),
    ensures
        opened_by(events, n + 1, id) <==> opened_by(events, n, id) || opens(events[n], id),
{
    if opened_by(events, n, id) {
        let i = choose|i: int| 0 <= i < n && opens(#[trigger] events[i], id);
        assert(opens(events[i], id));
    }
    if opened_by(events, n + 1, id) {
        let i = choose|i: int| 0 <= i < n + 1 && opens(#[trigger] events[i], id);
        if i < n {
            assert(opened_by(events, n, id));
        }
    }
}

proof fn lemma_ended_step(events: Seq<Event>, n: int, id: Seq<char>)
    requires
        0 <= n < events.len(),
    ensures
        ended_by(events, n + 1, id) <==> ended_by(events, n, id) || ends_pass(events[n], id),
{
    if ended_by(events, n, id) {
        let i = choose|i: int| 0 <= i < n && ends_pass(#[trigger] events[i], id);
        assert(ends_pass(events[i], id));
    }
    if ended_by(events, n + 1, id) {
        let i = choose|i: int| 0 <= i < n + 1 && ends_pass(#[trigger] events[i], id);
        if i < n {
            assert(ended_by(events, n, id));
        }
    }
}

/// What has not been opened has not been ended, where every event is in order.
proof fn lemma_ended_was_opened<F: Fn(&str) -> bool>(
    rule: F,
    events: Seq<Event>,
    unique: bool,
    n: int,
    id: Seq<char>,
)
    requires
        0 <= n <= events.len(),
        forall|i: int| 0 <= i < n ==> #[trigger] in_place(rule, events, unique, i),
        ended_by(events, n, id),
    ensures
        opened_by(events, n, id),
{
    let i = choose|i: int| 0 <= i < n && ends_pass(#[trigger] events[i], id);
    assert(in_place(rule, events, unique, i));
    assert(opened_by(events, i, id));
    let j = choose|j: int| 0 <= j < i && opens(#[trigger] events[j], id);
    assert(opens(events[j], id));
}

fn record_opening<F: Fn(&str) -> bool>(
    history: &mut PassHistory,
    pass_id: &str,
    events: &Vec<Event>,
    n: usize,
    rule: &F,
    Ghost(unique): Ghost<bool>,
) -> (r: bool)
    requires
        n < events@.len(),
        old(history).recounts(events@, n as int),
        opens(events@[n as int], pass_id@),
        forall|i: int| 0 <= i < n ==> #[trigger] in_place(*rule, events@, unique, i),
    ensures
        r == !opened_by(events@, n as int, pass_id@),
        r ==> final(history).recounts(events@, n + 1),
{
    let ghost before = *history;
    match find_place(&history.ids, pass_id) {
        Place::At(k) => {
            assert(among(history.ids@, pass_id@));
            false
        },
        Place::Before(i) => {
            assert(!among(before.ids@, pass_id@));
            history.ids.insert(i, pass_id.to_string());
            history.opened.insert(i, n);
            history.ending.insert(i, None);
            proof {
                assert(views(history.ids@) =~= views(before.ids@).insert(i as int, pass_id@));
                lemma_insert_ascending(views(before.ids@), pass_id@, i as int);
                assert forall|id: Seq<char>| #[trigger] among(history.ids@, id) <==> opened_by(
                    events@,
                    n + 1,
                    id,
                ) by {
                    lemma_opened_step(events@, n as int, id);
                    assert(among(before.ids@, id) <==> opened_by(events@, n as int, id));
                    if among(before.ids@, id) {
                        let j = choose|j: int|
                            0 <= j < before.ids@.len() && #[trigger] before.ids@[j]@ == id;
                        if j < i {
                            assert(history.ids@[j]@ == id);
                        } else {
                            assert(history.ids@[j + 1]@ == id);
                        }
                    }
                    if among(history.ids@, id) {
                        let j = choose|j: int|
                            0 <= j < history.ids@.len() && #[trigger] history.ids@[j]@ == id;
                        if j < i {
                            assert(before.ids@[j]@ == id);
                        } else if j > i {
                            assert(before.ids@[j - 1]@ == id);
                        }
                    }
                    assert(history.ids@[i as int]@ == pass_id@);
                }
                assert forall|k: int| 0 <= k < history.ids@.len() implies (
                #[trigger] history.opened@[k]) < n + 1 && opens(
                    events@[history.opened@[k] as int],
                    history.ids@[k]@,
                ) by {
                    if k < i {
                        assert(before.opened@[k] < n);
                    } else if k > i {
                        assert(before.opened@[k - 1] < n);
                    }
                }
                assert forall|k: int| 0 <= k < history.ids@.len() implies match (
                #[trigger] history.ending@[k]) {
                    Some(j) => j < n + 1 && ends_pass(events@[j as int], history.ids@[k]@),
                    None => !ended_by(events@, n + 1, history.ids@[k]@),
                } by {
                    lemma_ended_step(events@, n as int, history.ids@[k]@);
                    if k < i {
                        assert(before.ending@[k] == history.ending@[k]);
                    } else if k > i {
                        assert(before.ending@[k - 1] == history.ending@[k]);
                    } else {
                        if ended_by(events@, n as int, pass_id@) {
                            lemma_ended_was_opened(*rule, events@, unique, n as int, pass_id@);
                        }
                    }
                }
            }
            true
        },
    }
}

fn record_ending(history: &mut PassHistory, pass_id: &str, events: &Vec<Event>, n: usize) -> (r:
    Result<(), PassFault>)
    requires
        n < events@.len(),
        old(history).recounts(events@, n as int),
        ends_pass(events@[n as int], pass_id@),
    ensures
        match r {
            Ok(()) => opened_by(events@, n as int, pass_id@) && !ended_by(
                events@,
                n as int,
                pass_id@,
            ) && final(history).recounts(events@, n + 1),
            Err(fault) => ending_fault(events@, n as int, pass_id@, fault),
        },
{
    let ghost before = *history;
    match find_place(&history.ids, pass_id) {
        Place::At(k) => {
            assert(among(history.ids@, pass_id@));
            assert(before.ending@[k as int] == history.ending@[k as int]);
            if let Some(j) = history.ending[k] {
                assert(ends_pass(events@[j as int], pass_id@));
                return Err(PassFault::EndedTwice);
            }
            history.ending.set(k, Some(n));
            proof {
                assert forall|id: Seq<char>| #[trigger] among(history.ids@, id) <==> opened_by(
                    events@,
                    n + 1,
                    id,
                ) by {
                    lemma_opened_step(events@, n as int, id);
                    assert(among(before.ids@, id) <==> opened_by(events@, n as int, id));
                }
                assert forall|m: int| 0 <= m < history.ids@.len() implies (
                #[trigger] history.opened@[m]) < n + 1 && opens(
                    events@[history.opened@[m] as int],
                    history.ids@[m]@,
                ) by {
                    assert(before.opened@[m] < n);
                }
                assert forall|m: int| 0 <= m < history.ids@.len() implies match (
                #[trigger] history.ending@[m]) {
                    Some(j) => j < n + 1 && ends_pass(events@[j as int], history.ids@[m]@),
                    None => !ended_by(events@, n + 1, history.ids@[m]@),
                } by {
                    lemma_ended_step(events@, n as int, history.ids@[m]@);
                    if m != k {
                        assert(before.ending@[m] == history.ending@[m]);
                        if history.ids@[m]@ == pass_id@ {
                            lemma_one_place(views(history.ids@), m, k as int);
                        }
                    }
                }
            }
            Ok(())
        },
        Place::Before(_) => Err(PassFault::UnknownPass),
    }
}

/// The passes that events record, or the first event that is not in order and what is wrong with
/// it. `unique` asks that no pass names a member twice.
pub fn load_history<F: Fn(&str) -> bool>(events: &Vec<Event>, rule: &F, unique: bool) -> (r: Result<
    PassHistory,
    (usize, PassFault),
>)
    requires
        answers_all(*rule),
    ensures
        match r {
            Ok(history) => history.recounts(events@, events@.len() as int) && forall|i: int|
                0 <= i < events@.len() ==> #[trigger] in_place(*rule, events@, unique, i),
            Err((k, fault)) => k < events@.len() && event_fault(
                *rule,
                events@,
                unique,
                k as int,
                fault,
            ) && forall|i: int| 0 <= i < k ==> #[trigger] in_place(*rule, events@, unique, i),
        },
{
    let mut history = PassHistory { ids: Vec::new(), opened: Vec::new(), ending: Vec::new() };
    for n in 0..events.len()
        invariant
            answers_all(*rule),
            history.recounts(events@, n as int),
            forall|i: int| 0 <= i < n ==> #[trigger] in_place(*rule, events@, unique, i),
    {
        let ghost before = history;
        match &events[n].payload {
            Payload::ReviewPassOpened { pass_id, members, note } => {
                if !rule(pass_id.as_str()) {
                    return Err((n, PassFault::InvalidId));
                }
                if let Err(fault) = check_members(members, rule, unique) {
                    return Err((n, fault));
                }
                if !record_opening(
                    &mut history,
                    pass_id.as_str(),
                    events,
                    n,
                    rule,
                    Ghost(unique),
                ) {
                    return Err((n, PassFault::OpenedTwice));
                }
            },
            Payload::ReviewPassCompleted { pass_id, note } => {
                if let Err(fault) = record_ending(&mut history, pass_id.as_str(), events, n) {
                    return Err((n, fault));
                }
            },
            Payload::ReviewPassAbandoned { pass_id, reason } => {
                if let Err(fault) = record_ending(&mut history, pass_id.as_str(), events, n) {
                    return Err((n, fault));
                }
            },
            _ => {
                proof {
                    lemma_untouched(before, events@, n as int);
                }
            },
        }
        assert(in_place(*rule, events@, unique, n as int));
    }
    Ok(history)
}

/// Why nothing is recorded about a pass.
#[derive(Clone, Copy, Debug, PartialEq, Eq, Structural)]
pub enum PassRefusal {
    EmptyText,
    InvalidId,
    /// An event has that identity, and it opened no pass.
    NotAPass,
    UnknownPass,
    AlreadyEnded { event: usize },
}

/// A text that says something, without the white space around it.
pub fn required_text(value: &str) -> (r: Option<String>)
    ensures
        match r {
            Some(text) => text@ == trimmed(value@) && text@.len() > 0,
            None => trimmed(value@).len() == 0,
        },
{
    let text = trim(value);
    if text.as_str().is_empty() {
        None
    } else {
        Some(text)
    }
}

/// Whether nothing is recorded about a pass for a reason that lies in the pass.
pub open spec fn pass_refused<F: Fn(&str) -> bool>(
    events: Seq<Event>,
    pass_id: Seq<char>,
    rule: F,
    refusal: PassRefusal,
) -> bool {
    let n = events.len() as int;
    match refusal {
        PassRefusal::EmptyText => false,
        PassRefusal::InvalidId => refused(rule, pass_id),
        PassRefusal::NotAPass => accepted(rule, pass_id) && !opened_by(events, n, pass_id)
            && !no_event(events, pass_id),
        PassRefusal::UnknownPass => accepted(rule, pass_id) && !opened_by(events, n, pass_id)
            && no_event(events, pass_id),
        PassRefusal::AlreadyEnded { event } => accepted(rule, pass_id) && opened_by(
            events,
            n,
            pass_id,
        ) && event < n && ends_pass(events[event as int], pass_id),
    }
}

/// Whether a pass was opened and has not ended.
pub open spec fn is_open(events: Seq<Event>, pass_id: Seq<char>) -> bool {
    opened_by(events, events.len() as int, pass_id) && !ended_by(
        events,
        events.len() as int,
        pass_id,
    )
}

/// The position of a pass that has not ended, or why there is none.
pub fn find_open_pass<F: Fn(&str) -> bool>(
    history: &PassHistory,
    events: &Vec<Event>,
    pass_id: &str,
    rule: &F,
) -> (r: Result<usize, PassRefusal>)
    requires
        answers_all(*rule),
        history.recounts(events@, events@.len() as int),
    ensures
        match r {
            Ok(k) => accepted(*rule, pass_id@) && k < history.ids@.len() && history.ids@[k as int]@
                == pass_id@ && is_open(events@, pass_id@),
            Err(refusal) => pass_refused(events@, pass_id@, *rule, refusal),
        },
{
    if !rule(pass_id) {
        return Err(PassRefusal::InvalidId);
    }
    assert(accepted(*rule, pass_id@));
    match find_place(&history.ids, pass_id) {
        Place::At(k) => {
            assert(among(history.ids@, pass_id@));
            assert(history.ending@[k as int] == history.ending@[k as int]);
            match history.ending[k] {
                Some(event) => Err(PassRefusal::AlreadyEnded { event }),
                None => Ok(k),
            }
        },
        Place::Before(_) => {
            for i in 0..events.len()
                invariant
                    accepted(*rule, pass_id@),
                    !opened_by(events@, events@.len() as int, pass_id@),
                    forall|j: int| 0 <= j < i ==> (#[trigger] events@[j]).event_id@ != pass_id@,
            {
                if same(events[i].event_id.as_str(), pass_id) {
                    assert(events@[i as int].event_id@ == pass_id@);
                    return Err(PassRefusal::NotAPass);
                }
            }
            Err(PassRefusal::UnknownPass)
        },
    }
}

/// Whether a note that is given says something.
pub open spec fn says_something(note: Option<String>) -> bool {
    note matches Some(text) ==> trimmed(text@).len() > 0
}

/// Whether `r` records that a pass was completed, or says why not.
pub open spec fn answers_completion<F: Fn(&str) -> bool>(
    history: &PassHistory,
    events: &Vec<Event>,
    pass_id: &str,
    note: &Option<String>,
    rule: &F,
    r: Result<Payload, PassRefusal>,
) -> bool {
    match r {
            Ok(Payload::ReviewPassCompleted { pass_id: id, note: text }) => {
                &&& id@ == pass_id@
                &&& is_open(events@, pass_id@)
                &&& says_something(*note)
                &&& match *note {
                    Some(n) => opt_view(text) == Some(trimmed(n@)),
                    None => text is None,
                }
            },
            Ok(_) => false,
            Err(PassRefusal::EmptyText) => !says_something(*note),
            Err(refusal) => says_something(*note) && pass_refused(
                events@,
                pass_id@,
                *rule,
                refusal,
            ),
        }
}

/// What records that a pass was completed.
pub fn complete_pass<F: Fn(&str) -> bool>(
    history: &PassHistory,
    events: &Vec<Event>,
    pass_id: &str,
    note: &Option<String>,
    rule: &F,
) -> (r: Result<Payload, PassRefusal>)
    requires
        answers_all(*rule),
        history.recounts(events@, events@.len() as int),
    ensures
        answers_completion(history, events, pass_id, note, rule, r),
{
    let text = match note {
        Some(n) => match required_text(n.as_str()) {
            Some(text) => Some(text),
            None => return Err(PassRefusal::EmptyText),
        },
        None => None,
    };
    match find_open_pass(history, events, pass_id, rule) {
        Ok(k) => Ok(
            Payload::ReviewPassCompleted { pass_id: history.ids[k].clone(), note: text },
        ),
        Err(refusal) => Err(refusal),
    }
}

/// Whether `r` records that a pass was abandoned, or says why not.
pub open spec fn answers_abandonment<F: Fn(&str) -> bool>(
    history: &PassHistory,
    events: &Vec<Event>,
    pass_id: &str,
    reason: &str,
    rule: &F,
    r: Result<Payload, PassRefusal>,
) -> bool {
    match r {
            Ok(Payload::ReviewPassAbandoned { pass_id: id, reason: text }) => {
                &&& id@ == pass_id@
                &&& is_open(events@, pass_id@)
                &&& text@ == trimmed(reason@)
                &&& text@.len() > 0
            },
            Ok(_) => false,
            Err(PassRefusal::EmptyText) => trimmed(reason@).len() == 0,
            Err(refusal) => trimmed(reason@).len() > 0 && pass_refused(
                events@,
                pass_id@,
                *rule,
                refusal,
            ),
        }
}

/// What records that a pass was abandoned, and why.
pub fn abandon_pass<F: Fn(&str) -> bool>(
    history: &PassHistory,
    events: &Vec<Event>,
    pass_id: &str,
    reason: &str,
    rule: &F,
) -> (r: Result<Payload, PassRefusal>)
    requires
        answers_all(*rule),
        history.recounts(events@, events@.len() as int),
    ensures
        answers_abandonment(history, events, pass_id, reason, rule, r),
{
    let text = match required_text(reason) {
        Some(text) => text,
        None => return Err(PassRefusal::EmptyText),
    };
    match find_open_pass(history, events, pass_id, rule) {
        Ok(k) => Ok(
            Payload::ReviewPassAbandoned { pass_id: history.ids[k].clone(), reason: text },
        ),
        Err(refusal) => Err(refusal),
    }
}

/// A pass ends once: after an event that ends it, a record in order holds no other that does.
pub proof fn passes_end_once<F: Fn(&str) -> bool>(
    rule: F,
    events: Seq<Event>,
    unique: bool,
    id: Seq<char>,
    i: int,
    j: int,
)
    requires
        forall|k: int| 0 <= k < events.len() ==> #[trigger] in_place(rule, events, unique, k),
        0 <= i < j < events.len(),
        ends_pass(events[i], id),
    ensures
        !ends_pass(events[j], id),
{
    if ends_pass(events[j], id) {
        assert(in_place(rule, events, unique, j));
        assert(ends_pass(events[i], id));
        assert(ended_by(events, j, id));
    }
}

/// A member of a pass that is asked for, resolved.
pub struct ResolvedMember {
    pub change_id: String,
    pub patchset_id: String,
    /// Whether the change has that patchset.
    pub has_patchset: bool,
}

/// How a member is written.
pub open spec fn member_text(change_id: Seq<char>, patchset_id: Seq<char>) -> Seq<char> {
    change_id + ":"@ + patchset_id
}

/// Why a pass is not opened.
#[derive(Clone, Copy, Debug, PartialEq, Eq, Structural)]
pub enum OpenPassRefusal {
    EmptyNote,
    NoMembers,
    NoSuchPatchset { index: usize },
    Repeated { index: usize },
}

/// How the member at `k` is written.
pub open spec fn member_at(members: Seq<ResolvedMember>, k: int) -> Seq<char> {
    member_text(members[k].change_id@, members[k].patchset_id@)
}

/// Whether the member at `k` is one that an earlier one already is.
pub open spec fn said_before(members: Seq<ResolvedMember>, k: int) -> bool {
    exists|j: int| 0 <= j < k && #[trigger] member_at(members, j) == member_at(members, k)
}

/// Whether something is wrong with the member at `k`.
pub open spec fn unfit_member(members: Seq<ResolvedMember>, k: int) -> bool {
    !members[k].has_patchset || said_before(members, k)
}

/// Whether `texts` are the members as they are written, with nothing wrong with any of them.
pub open spec fn written_members(texts: Seq<String>, members: Seq<ResolvedMember>) -> bool {
    &&& members.len() > 0
    &&& texts.len() == members.len()
    &&& forall|k: int|
        0 <= k < members.len() ==> !unfit_member(members, k) && (#[trigger] texts[k])@
            == member_at(members, k)
}

/// Whether the members are refused for the first of them that is unfit.
pub open spec fn members_refused(members: Seq<ResolvedMember>, refusal: OpenPassRefusal) -> bool {
    match refusal {
        OpenPassRefusal::EmptyNote => false,
        OpenPassRefusal::NoMembers => members.len() == 0,
        OpenPassRefusal::NoSuchPatchset { index } => index < members.len()
            && !members[index as int].has_patchset && forall|k: int|
            0 <= k < index ==> !#[trigger] unfit_member(members, k),
        OpenPassRefusal::Repeated { index } => index < members.len()
            && members[index as int].has_patchset && said_before(members, index as int)
            && forall|k: int| 0 <= k < index ==> !#[trigger] unfit_member(members, k),
    }
}

/// The members of a pass, as they are written: each a patchset that there is, and each once.
pub fn validate_members(members: &Vec<ResolvedMember>) -> (r: Result<Vec<String>, OpenPassRefusal>)
    ensures
        match r {
            Ok(texts) => written_members(texts@, members@),
            Err(refusal) => members_refused(members@, refusal),
        },
{
    if members.len() == 0 {
        return Err(OpenPassRefusal::NoMembers);
    }
    let mut out: Vec<String> = Vec::new();
    for k in 0..members.len()
        invariant
            members@.len() > 0,
            out@.len() == k,
            forall|i: int| 0 <= i < k ==> !#[trigger] unfit_member(members@, i),
            forall|i: int| 0 <= i < k ==> (#[trigger] out@[i])@ == member_at(members@, i),
    {
        let member = &members[k];
        if !member.has_patchset {
            return Err(OpenPassRefusal::NoSuchPatchset { index: k });
        }
        let mut text = member.change_id.clone();
        text.append(":");
        text.append(member.patchset_id.as_str());
        assert(text@ == member_at(members@, k as int));
        if contains(&out, text.as_str()) {
            proof {
                let j = choose|j: int| 0 <= j < out@.len() && #[trigger] out@[j]@ == text@;
                assert(member_at(members@, j) == member_at(members@, k as int));
            }
            return Err(OpenPassRefusal::Repeated { index: k });
        }
        proof {
            if said_before(members@, k as int) {
                let j = choose|j: int|
                    0 <= j < k && #[trigger] member_at(members@, j) == member_at(
                        members@,
                        k as int,
                    );
                assert(out@[j]@ == text@);
                assert(among(out@, text@));
            }
            assert(!unfit_member(members@, k as int));
        }
        out.push(text);
    }
    Ok(out)
}

/// Whether `r` records the opening of a pass, or says why it is not opened.
pub open spec fn answers_opening(
    pass_id: String,
    members: &Vec<ResolvedMember>,
    note: &Option<String>,
    r: Result< Payload, OpenPassRefusal, >,
) -> bool {
    match r {
            Ok(Payload::ReviewPassOpened { pass_id: id, members: texts, note: text }) => {
                &&& id == pass_id
                &&& written_members(texts@, members@)
                &&& says_something(*note)
                &&& match *note {
                    Some(n) => opt_view(text) == Some(trimmed(n@)),
                    None => text is None,
                }
            },
            Ok(_) => false,
            Err(OpenPassRefusal::EmptyNote) => !says_something(*note),
            Err(refusal) => says_something(*note) && members_refused(members@, refusal),
        }
}

/// What records the opening of a pass.
pub fn open_pass(pass_id: String, members: &Vec<ResolvedMember>, note: &Option<String>) -> (r: Result<
    Payload,
    OpenPassRefusal,
>)
    ensures
        answers_opening(pass_id, members, note, r),
{
    let text = match note {
        Some(n) => match required_text(n.as_str()) {
            Some(text) => Some(text),
            None => return Err(OpenPassRefusal::EmptyNote),
        },
        None => None,
    };
    match validate_members(members) {
        Ok(texts) => Ok(Payload::ReviewPassOpened { pass_id, members: texts, note: text }),
        Err(refusal) => Err(refusal),
    }
}

/// Whether the verdict at `k` is the last on a patchset.
pub open spec fn last_verdict_on(state: ChangeState, patchset_id: Seq<char>, k: int) -> bool {
    &&& 0 <= k < state.verdicts@.len()
    &&& state.verdicts@[k].patchset_id@ == patchset_id
    &&& forall|j: int|
        k < j < state.verdicts@.len() ==> (#[trigger] state.verdicts@[j]).patchset_id@
            != patchset_id
}

/// Whether `r` is the last verdict on a patchset.
pub open spec fn is_covered_by(
    state: &ChangeState,
    patchset_id: &str,
    r: Option<usize>,
) -> bool {
    match r {
            Some(k) => last_verdict_on(*state, patchset_id@, k as int),
            None => forall|j: int|
                0 <= j < state.verdicts@.len() ==> (#[trigger] state.verdicts@[j]).patchset_id@
                    != patchset_id@,
        }
}

/// The last verdict on a patchset: a member of a pass is covered where there is one.
pub fn member_view(state: &ChangeState, patchset_id: &str) -> (r: Option<usize>)
    ensures
        is_covered_by(state, patchset_id, r),
{
    let all = &state.verdicts;
    let mut k: usize = all.len();
    while k > 0
        invariant
            all@ == state.verdicts@,
            k <= all@.len(),
            forall|j: int|
                k <= j < state.verdicts@.len() ==> (#[trigger] state.verdicts@[j]).patchset_id@
                    != patchset_id@,
        decreases k,
    {
        k -= 1;
        if same(all[k].patchset_id.as_str(), patchset_id) {
            return Some(k);
        }
    }
    None
}

/// The state of a pass, in a word.
pub open spec fn pass_state_text(history: PassHistory, events: Seq<Event>, k: int) -> Seq<char> {
    match history.ending@[k] {
        Some(j) => if events[j as int].payload is ReviewPassCompleted {
            "completed"@
        } else {
            "abandoned"@
        },
        None => "open"@,
    }
}

/// The state of a pass, in a word.
pub fn pass_state(history: &PassHistory, events: &Vec<Event>, k: usize) -> (r: &'static str)
    requires
        history.recounts(events@, events@.len() as int),
        k < history.ids@.len(),
    ensures
        r@ == pass_state_text(*history, events@, k as int),
{
    assert(history.ending@[k as int] == history.ending@[k as int]);
    match history.ending[k] {
        Some(j) => if matches!(events[j].payload, Payload::ReviewPassCompleted { .. }) {
            "completed"
        } else {
            "abandoned"
        },
        None => "open",
    }
}

/// The pass whose opening was recorded last first; those of one event stay in their order.
pub open spec fn opened_later(opened: Seq<usize>, events: Seq<Event>) -> spec_fn(
    usize,
    usize,
) -> bool {
    |a: usize, b: usize|
        {
            let x = events[opened[a as int] as int].event_id@;
            let y = events[opened[b as int] as int].event_id@;
            precedes(y, x) || (x == y && a < b)
        }
}

proof fn lemma_opened_later(opened: Seq<usize>, events: Seq<Event>)
    ensures
        strict_order(opened_later(opened, events)),
{
    let order = opened_later(opened, events);
    assert forall|a: usize| !#[trigger] order(a, a) by {
        lemma_precedes_irreflexive(
            events[opened[a as int] as int].event_id@,
        );
    }
    assert forall|a: usize, b: usize, c: usize| #[trigger] order(a, b) && #[trigger] order(
        b,
        c,
    ) implies order(a, c) by {
        let x = events[opened[a as int] as int].event_id@;
        let y = events[opened[b as int] as int].event_id@;
        let z = events[opened[c as int] as int].event_id@;
        if precedes(z, y) && precedes(y, x) {
            lemma_precedes_transitive(z, y, x);
        }
    }
    assert forall|a: usize, b: usize| a != b implies #[trigger] order(a, b) || order(b, a) by {
        lemma_precedes_total(
            events[opened[a as int] as int].event_id@,
            events[opened[b as int] as int].event_id@,
        );
    }
}

/// Whether each position is one of `n`.
spec fn all_within(positions: Seq<usize>, n: nat) -> bool {
    forall|k: int| 0 <= k < positions.len() ==> #[trigger] positions[k] < n
}

/// The positions of the passes in the order in which they are told, the newest first.
pub fn list_passes(history: &PassHistory, events: &Vec<Event>) -> (r: Vec<usize>)
    requires
        history.recounts(events@, events@.len() as int),
    ensures
        in_order(r@, opened_later(history.opened@, events@)),
        forall|a: usize| #[trigger] r@.contains(a) <==> a < history.ids@.len(),
        r@.len() == history.ids@.len(),
{
    let mut indices: Vec<usize> = Vec::new();
    for i in 0..history.ids.len()
        invariant
            indices@.len() == i,
            indices@.no_duplicates(),
            forall|k: int| 0 <= k < i ==> #[trigger] indices@[k] == k,
    {
        indices.push(i);
    }
    proof {
        lemma_opened_later(history.opened@, events@);
        assert forall|a: usize| #[trigger] indices@.contains(a) <==> a < history.ids@.len() by {
            if a < history.ids@.len() {
                assert(indices@[a as int] == a);
            }
        }
    }
    let opened = &history.opened;
    assert(all_within(opened@, events@.len()));
    let later = |a: usize, b: usize| -> (out: bool)
        requires
            opened@.len() > a,
            opened@.len() > b,
            all_within(opened@, events@.len()),
        ensures
            out == opened_later(opened@, events@)(a, b),
        {
            assert(opened@[a as int] < events@.len());
            assert(opened@[b as int] < events@.len());
            let x = events[opened[a]].event_id.as_str();
            let y = events[opened[b]].event_id.as_str();
            less(y, x) || (same(x, y) && a < b)
        };
    sort_positions(&indices, later, Ghost(opened_later(history.opened@, events@)))
}

/// The line of a member: the event of the verdict that covers it, where one does.
pub open spec fn coverage_line(member: Seq<char>, verdict: Option<Seq<char>>) -> Seq<char> {
    match verdict {
        Some(event_id) => "  "@ + member + " — covered (verdict event "@ + event_id + ")"@,
        None => "  "@ + member + " — not covered"@,
    }
}

/// The line of a member of a pass.
pub fn render_member(member: &str, verdict_event_id: &Option<String>) -> (r: String)
    ensures
        r@ == coverage_line(member@, opt_view(*verdict_event_id)),
{
    let mut out = "  ".to_string();
    out.append(member);
    match verdict_event_id {
        Some(event_id) => {
            out.append(" — covered (verdict event ");
            out.append(event_id.as_str());
            out.append(")");
        },
        None => {
            out.append(" — not covered");
        },
    }
    out
}

/// What is told of how a pass ended, each text on one line.
pub struct EndingText {
    pub event_line: String,
    pub event_id: String,
    /// The note of a completion.
    pub note: Option<String>,
    /// The reason of an abandonment.
    pub reason: Option<String>,
}

/// What is told of a pass, each text on one line.
pub struct PassText {
    pub pass_id: String,
    pub state: String,
    pub opened_line: String,
    pub opened_event_id: String,
    pub note: Option<String>,
    /// The members, each with the event of the verdict that covers it.
    pub members: Vec<(String, Option<String>)>,
    pub ending: Option<EndingText>,
}

/// A line of a text behind a label, where there is one.
pub open spec fn labelled_line(label: Seq<char>, text: Option<String>) -> Seq<Seq<char>> {
    match text {
        Some(text) => seq![label + text@],
        None => Seq::empty(),
    }
}

/// The lines of how a pass ended.
pub open spec fn ending_lines(ending: Option<EndingText>) -> Seq<Seq<char>> {
    match ending {
        Some(ending) => seq!["  "@ + ending.event_line@, "  ending event: "@ + ending.event_id@]
            + labelled_line("  ending note: "@, ending.note) + labelled_line(
            "  reason: "@,
            ending.reason,
        ),
        None => Seq::empty(),
    }
}

/// The lines of a pass.
pub open spec fn pass_lines(pass: PassText) -> Seq<Seq<char>> {
    seq![
        "pass "@ + pass.pass_id@ + " ["@ + pass.state@ + "] (caller-declared review pass)"@,
        "  "@ + pass.opened_line@,
        "  opened event: "@ + pass.opened_event_id@,
    ] + labelled_line("  note: "@, pass.note) + Seq::new(
        pass.members@.len(),
        |i: int| coverage_line(pass.members@[i].0@, opt_view(pass.members@[i].1)),
    ) + ending_lines(pass.ending)
}

fn push_labelled(out: &mut Vec<String>, label: &str, text: &Option<String>)
    ensures
        views(final(out)@) == views(old(out)@) + labelled_line(label@, *text),
{
    if let Some(text) = text {
        let mut line = label.to_string();
        line.append(text.as_str());
        push_text(out, line);
    }
}

fn push_ending(out: &mut Vec<String>, ending: &Option<EndingText>)
    ensures
        views(final(out)@) == views(old(out)@) + ending_lines(*ending),
{
    if let Some(ending) = ending {
        let ghost start = views(out@);
        push_labelled(out, "  ", &Some(ending.event_line.clone()));
        push_labelled(out, "  ending event: ", &Some(ending.event_id.clone()));
        assert(views(out@) =~= start + seq![
            "  "@ + ending.event_line@,
            "  ending event: "@ + ending.event_id@,
        ]);
        push_labelled(out, "  ending note: ", &ending.note);
        push_labelled(out, "  reason: ", &ending.reason);
    }
}

/// The lines of a pass.
pub fn render_pass(pass: &PassText) -> (r: Vec<String>)
    ensures
        views(r@) == pass_lines(*pass),
{
    let mut out: Vec<String> = Vec::new();
    let mut heading = "pass ".to_string();
    heading.append(pass.pass_id.as_str());
    heading.append(" [");
    heading.append(pass.state.as_str());
    heading.append("] (caller-declared review pass)");
    push_text(&mut out, heading);
    push_labelled(&mut out, "  ", &Some(pass.opened_line.clone()));
    push_labelled(&mut out, "  opened event: ", &Some(pass.opened_event_id.clone()));
    push_labelled(&mut out, "  note: ", &pass.note);
    let ghost start = views(out@);
    let ghost lines = |i: int| coverage_line(pass.members@[i].0@, opt_view(pass.members@[i].1));
    for i in 0..pass.members.len()
        invariant
            lines == (|i: int|
                coverage_line(pass.members@[i].0@, opt_view(pass.members@[i].1))),
            views(out@) == start + Seq::new(i as nat, lines),
    {
        let member = &pass.members[i];
        let line = render_member(member.0.as_str(), &member.1);
        push_text(&mut out, line);
        assert(Seq::new((i + 1) as nat, lines) =~= Seq::new(i as nat, lines).push(lines(i as int)));
    }
    push_ending(&mut out, &pass.ending);
    out
}

/// A member reads back as the change and the patchset that it was written from.
pub proof fn members_read_back(change_id: Seq<char>, patchset_id: Seq<char>)
    requires
        !change_id.contains(':'),
    ensures
        change_part(member_text(change_id, patchset_id)) == change_id,
        patchset_part(member_text(change_id, patchset_id)) == patchset_id,
{
    reveal_strlit(":");
    let text = member_text(change_id, patchset_id);
    let n = change_id.len() as int;
    assert(":"@.len() == 1 && ":"@[0] == ':');
    assert(text[n] == ':');
    lemma_first_index(text, ':');
    let m = first_index(text, ':');
    if m < n {
        assert(text[m] == change_id[m]);
        assert(change_id.contains(':'));
    }
    if n < m {
        assert(text[n] != ':');
    }
    assert(text.take(n) =~= change_id);
    assert(text.skip(n + 1) =~= patchset_id);
}

/// A pass is opened exactly where it has members, each a patchset that there is and none named
/// twice, and a note that is given says something; and it is opened with all of them, in order.
pub proof fn passes_open_with_their_members(
    pass_id: String,
    members: &Vec<ResolvedMember>,
    note: &Option<String>,
    r: Result<Payload, OpenPassRefusal>,
)
    requires
        answers_opening(pass_id, members, note, r),
    ensures
        r is Ok <==> {
            &&& members@.len() > 0
            &&& forall|k: int| 0 <= k < members@.len() ==> (#[trigger] members@[k]).has_patchset
            &&& forall|j: int, k: int|
                0 <= j < k < members@.len() ==> #[trigger] member_at(members@, j)
                    != #[trigger] member_at(members@, k)
            &&& *note matches Some(text) ==> trimmed(text@).len() > 0
        },
        r matches Ok(payload) ==> (payload matches Payload::ReviewPassOpened {
            pass_id: id,
            members: texts,
            ..
        } && id == pass_id && texts@.len() == members@.len() && forall|k: int|
            0 <= k < members@.len() ==> (#[trigger] texts@[k])@ == members@[k].change_id@ + ":"@
                + members@[k].patchset_id@),
{
    if let Ok(Payload::ReviewPassOpened { members: texts, .. }) = r {
        assert forall|k: int| 0 <= k < members@.len() implies (
        #[trigger] members@[k]).has_patchset by {
            assert(texts@[k]@ == member_at(members@, k));
        }
        assert forall|j: int, k: int| 0 <= j < k < members@.len() implies #[trigger] member_at(
            members@,
            j,
        ) != #[trigger] member_at(members@, k) by {
            assert(texts@[k]@ == member_at(members@, k));
            assert(!said_before(members@, k));
        }
    }
    if let Err(OpenPassRefusal::Repeated { index }) = r {
        let j = choose|j: int|
            0 <= j < index && #[trigger] member_at(members@, j) == member_at(
                members@,
                index as int,
            );
        assert(member_at(members@, j) == member_at(members@, index as int));
    }
}

/// A pass is completed or abandoned only where it was opened and nothing has ended it, and only for
/// a reason that says something.
pub proof fn only_open_passes_end<F: Fn(&str) -> bool>(
    history: &PassHistory,
    events: &Vec<Event>,
    pass_id: &str,
    note: &Option<String>,
    reason: &str,
    rule: &F,
    i: int,
    completed: Result<Payload, PassRefusal>,
    abandoned: Result<Payload, PassRefusal>,
)
    requires
        answers_completion(history, events, pass_id, note, rule, completed),
        answers_abandonment(history, events, pass_id, reason, rule, abandoned),
        0 <= i < events@.len(),
    ensures
        completed is Ok || abandoned is Ok ==> !(events@[i].payload matches
            Payload::ReviewPassCompleted { pass_id: id, .. } && id@ == pass_id@) && !(
        events@[i].payload matches Payload::ReviewPassAbandoned { pass_id: id, .. } && id@
            == pass_id@),
        completed is Ok || abandoned is Ok ==> exists|k: int|
            0 <= k < events@.len() && ((#[trigger] events@[k]).payload matches
                Payload::ReviewPassOpened { pass_id: id, .. } && id@ == pass_id@),
        abandoned is Ok ==> trimmed(reason@).len() > 0,
        completed matches Ok(payload) ==> payload is ReviewPassCompleted,
        abandoned matches Ok(payload) ==> payload is ReviewPassAbandoned,
        is_open(events@, pass_id@) && completed is Err ==> note is Some || refused(*rule, pass_id@),
        is_open(events@, pass_id@) && abandoned is Err ==> trimmed(reason@).len() == 0 || refused(
            *rule,
            pass_id@,
        ),
{
    if completed is Ok || abandoned is Ok {
        assert(!ended_by(events@, events@.len() as int, pass_id@));
        assert(!ends_pass(events@[i], pass_id@));
        let k = choose|k: int| 0 <= k < events@.len() && opens(#[trigger] events@[k], pass_id@);
        assert(events@[k].payload matches Payload::ReviewPassOpened { pass_id: id, .. } && id@
            == pass_id@);
    }
    if let Err(PassRefusal::AlreadyEnded { event }) = completed {
        assert(ends_pass(events@[event as int], pass_id@));
    }
    if let Err(PassRefusal::AlreadyEnded { event }) = abandoned {
        assert(ends_pass(events@[event as int], pass_id@));
    }
}

/// A member of a pass is covered exactly where its patchset has a verdict, and by the last one.
pub proof fn members_are_covered_by_the_last_verdict(
    state: &ChangeState,
    patchset_id: &str,
    i: int,
    r: Option<usize>,
)
    requires
        is_covered_by(state, patchset_id, r),
        0 <= i < state.verdicts@.len(),
        state.verdicts@[i].patchset_id@ == patchset_id@,
    ensures
        r is Some,
        i <= r->0 < state.verdicts@.len(),
        state.verdicts@[r->0 as int].patchset_id@ == patchset_id@,
{
}

/// A pass is told as open exactly until something ends it, and as abandoned only where it was.
pub proof fn passes_are_open_until_ended(history: PassHistory, events: Seq<Event>, k: int)
    requires
        history.recounts(events, events.len() as int),
        0 <= k < history.ids@.len(),
    ensures
        pass_state_text(history, events, k) == "open"@ <==> forall|i: int|
            0 <= i < events.len() ==> !ends_pass(#[trigger] events[i], history.ids@[k]@),
        pass_state_text(history, events, k) == "completed"@ ==> exists|i: int|
            0 <= i < events.len() && ((#[trigger] events[i]).payload matches
                Payload::ReviewPassCompleted { pass_id, .. } && pass_id@ == history.ids@[k]@),
        pass_state_text(history, events, k) == "abandoned"@ ==> exists|i: int|
            0 <= i < events.len() && ((#[trigger] events[i]).payload matches
                Payload::ReviewPassAbandoned { pass_id, .. } && pass_id@ == history.ids@[k]@),
{
    reveal_strlit("open");
    reveal_strlit("completed");
    reveal_strlit("abandoned");
    assert("open"@.len() == 4 && "completed"@.len() == 9 && "abandoned"@.len() == 9);
    assert("completed"@[0] == 'c' && "abandoned"@[0] == 'a');
    match history.ending@[k] {
        Some(j) => {
            assert(ends_pass(events[j as int], history.ids@[k]@));
            assert(events[j as int].payload is ReviewPassCompleted
                || events[j as int].payload is ReviewPassAbandoned);
        },
        None => {
            assert(!ended_by(events, events.len() as int, history.ids@[k]@));
        },
    }
}

} // verus!
