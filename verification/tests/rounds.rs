use arc_ledger::event::{CommitRange, DeferredFinding, Event, Payload};
use arc_ledger::model::{ActorSource, Closure, Severity, Verdict};
use arc_ledger::passes::{
    abandon_pass, complete_pass, find_open_pass, list_passes, load_history, member_view,
    open_pass, parse_member, pass_state, render_member, render_pass, required_text,
    validate_members, EndingText, MemberFault, OpenPassRefusal, PassFault, PassRefusal, PassText,
    ResolvedMember,
};
use arc_ledger::queue::{collect_review_queue, CoveredPass, ReviewQueue};
use arc_ledger::runs::{
    check_dispatch, dispatch_run, end_run, ending_for, group_heading, list_runs, next_round,
    open_deferrals, read_deferred, read_raised, render_round, rounds, run_row, DeferralText,
    DispatchInput, DispatchRefusal, EndRefusal, EndingInput, RoundText, RunFindingInput,
    RunSubject,
};
use arc_ledger::state::{ChangeState, ClosureState, Patchset, VerdictState};
use arc_ledger::time::Timestamp;

fn at(seconds: i64) -> Timestamp {
    Timestamp::new(1_000_000 + seconds, 0).unwrap()
}

fn change(id: &str) -> ChangeState {
    ChangeState {
        change_id: id.into(),
        slug: id.trim_end_matches("-id").into(),
        title: id.into(),
        profile: "local".into(),
        iterating: false,
        target_branch: "master".into(),
        branch: format!("arc/{id}"),
        base: "base".into(),
        worktree: None,
        opened_by: "tester".into(),
        opened_harness: Some("test".into()),
        journal_ref: None,
        blocked_by: Vec::new(),
        tags: Vec::new(),
        assigned_to: None,
        priority: 0,
        opened_at: at(0),
        patchsets: Vec::new(),
        briefs: Vec::new(),
        findings: Vec::new(),
        audit_findings: Vec::new(),
        verdicts: Vec::new(),
        authority: None,
        verifications: Vec::new(),
        run_revisions: Vec::new(),
        audit_revisions: Vec::new(),
        claim: None,
        holds: Vec::new(),
        closure: None,
        changelog: None,
        messages: Vec::new(),
    }
}

fn closed(id: &str, outcome: Closure) -> ChangeState {
    let mut state = change(id);
    state.closure = Some(ClosureState {
        outcome,
        integrated_commit: if outcome == Closure::Integrated {
            Some(format!("commit-{id}"))
        } else {
            None
        },
        superseded_by: None,
        target_before: None,
        event_id: format!("closed-{id}"),
        created_at: at(100),
    });
    state
}

fn event(id: &str, payload: Payload) -> Event {
    Event {
        schema_version: 1,
        event_id: id.into(),
        repository_id: "repo".into(),
        change_id: "c".into(),
        actor: "tester".into(),
        actor_source: Some(ActorSource::Flag),
        on_behalf_of: None,
        model: None,
        harness: Some("test".into()),
        session: Some("s".into()),
        created_at: at(0),
        payload,
    }
}

fn texts(values: &[&str]) -> Vec<String> {
    values.iter().map(|value| value.to_string()).collect()
}

fn snapshot_of(id: &str, head: &str) -> Patchset {
    Patchset {
        id: id.into(),
        base: "base".into(),
        head: head.into(),
        merge_base: None,
        actor: "writer".into(),
        on_behalf_of: None,
        brief_ref: None,
        brief_version: None,
        event_id: format!("event-{id}"),
    }
}

fn verdict_on(id: &str, verdict: Verdict, actor: &str) -> VerdictState {
    VerdictState {
        event_id: format!("verdict-{id}-{actor}"),
        patchset_id: id.into(),
        verdict,
        causes: Vec::new(),
        body: None,
        actor: actor.into(),
        on_behalf_of: None,
        model: None,
        created_at: at(10),
        provisional: None,
    }
}

fn any_id(id: &str) -> bool {
    !id.is_empty() && !id.contains(' ')
}

fn dispatched(id: &str, change: Option<&str>, seconds: i64) -> Event {
    let mut out = event(
        id,
        Payload::RunDispatched {
            route: "local".into(),
            worktree: "/w".into(),
            change: change.map(|c| c.to_string()),
            fork: None,
            range: None,
            brief_event_id: None,
            note: None,
        },
    );
    out.created_at = at(seconds);
    out
}

fn put_off(id: &str) -> DeferredFinding {
    DeferredFinding { id: id.into(), summary: format!("look at {id}"), severity: None, why: "later".into() }
}

fn ended(id: &str, dispatch: &str, deferred: &[&str], collects: &[&str], seconds: i64) -> Event {
    let mut out = event(
        id,
        Payload::RunEnded {
            dispatch_event_id: dispatch.into(),
            outcome: "completed".into(),
            reviewed_head: None,
            raised: Vec::new(),
            deferred: deferred.iter().map(|id| put_off(id)).collect(),
            collects: texts(collects),
            note: None,
        },
    );
    out.created_at = at(seconds);
    out
}

#[test]
fn rounds_are_numbered_within_their_subject() {
    let events = vec![
        dispatched("1", Some("a"), 1),
        dispatched("2", Some("b"), 2),
        dispatched("3", Some("a"), 3),
        dispatched("4", None, 4),
        ended("5", "1", &[], &[], 5),
    ];
    let all = rounds(&events);
    let numbers: Vec<Option<usize>> = all.iter().map(|round| round.round).collect();
    assert_eq!(numbers, vec![Some(1), Some(1), Some(2), None]);
    assert_eq!(all[0].ending.as_ref().map(|ending| ending.event.event_id.as_str()), Some("5"));
    assert!(all[1].ending.is_none());
    assert_eq!(next_round(&events, &dispatched("6", Some("a"), 6).payload), 3);
    assert_eq!(next_round(&events, &dispatched("6", Some("c"), 6).payload), 1);

    let groups = list_runs(&all);
    let headings: Vec<String> = groups.iter().map(group_heading).collect();
    assert_eq!(
        headings,
        texts(&["unattributed  1 round(s)", "change a  2 round(s)", "change b  1 round(s)"])
    );
    assert_eq!(groups[1].rounds, vec![0, 2]);
}

#[test]
fn the_last_ending_counts() {
    let events = vec![
        dispatched("1", Some("a"), 1),
        ended("2", "1", &[], &[], 2),
        ended("3", "1", &[], &[], 3),
    ];
    assert_eq!(ending_for(&events, "1").map(|ending| ending.event.event_id.clone()), Some("3".into()));
    assert!(ending_for(&events, "2").is_none());
}

#[test]
fn subjects_read_as_they_were_named() {
    let named = |change: Option<&str>, fork: Option<&str>, range: bool| {
        RunSubject::of(&Payload::RunDispatched {
            route: "r".into(),
            worktree: "w".into(),
            change: change.map(|c| c.to_string()),
            fork: fork.map(|f| f.to_string()),
            range: if range {
                Some(CommitRange { base: "x".into(), head: "y".into() })
            } else {
                None
            },
            brief_event_id: None,
            note: None,
        })
        .map(|subject| subject.label())
    };
    assert_eq!(named(Some("a"), Some("f"), true).as_deref(), Some("change a"));
    assert_eq!(named(None, Some("f"), true).as_deref(), Some("fork f"));
    assert_eq!(named(None, None, true).as_deref(), Some("range x..y"));
    assert_eq!(named(None, None, false), None);
    let a = RunSubject::Change { id: "a".into() };
    assert!(a.same_as(&a.copy()));
    assert!(!a.same_as(&RunSubject::Fork { slug: "a".into() }));
}

#[test]
fn deferrals_wait_for_a_later_round_on_their_subject() {
    let events = vec![
        dispatched("1", Some("a"), 1),
        ended("2", "1", &["D1", "D2"], &[], 10),
        dispatched("3", Some("a"), 11),
        ended("4", "3", &["D3"], &["D1"], 20),
        dispatched("5", Some("b"), 21),
        ended("6", "5", &[], &["D2"], 30),
    ];
    let open = open_deferrals(&events);
    let waiting: Vec<&str> = open.iter().map(|deferral| deferral.finding.id.as_str()).collect();
    // The newest first; a round on other work collects nothing here.
    assert_eq!(waiting, vec!["D3", "D2"]);
    let all = rounds(&events);
    assert_eq!(run_row(&all[0], &open), vec![1]);
    assert_eq!(run_row(&all[1], &open), vec![0]);
    assert!(run_row(&all[2], &open).is_empty());
}

fn dispatch() -> DispatchInput {
    DispatchInput {
        route: "local".into(),
        worktree: "/w".into(),
        change: Some("a".into()),
        fork: None,
        range: None,
        brief_event_id: None,
        note: None,
    }
}

#[test]
fn a_run_has_one_subject() {
    assert_eq!(check_dispatch(&dispatch()), Ok(()));
    let mut none = dispatch();
    none.change = None;
    assert_eq!(check_dispatch(&none), Err(DispatchRefusal::NoSubject));
    let mut two = dispatch();
    two.range = Some("x..y".into());
    assert_eq!(
        check_dispatch(&two),
        Err(DispatchRefusal::SeveralSubjects { change: true, fork: false, range: true })
    );
    assert!(matches!(
        dispatch_run(dispatch(), None),
        Ok(Payload::RunDispatched { change: Some(id), .. }) if id == "a"
    ));
    assert!(matches!(dispatch_run(none, None), Err(DispatchRefusal::NoSubject)));
}

fn ending(collects: &[&str]) -> EndingInput {
    EndingInput {
        outcome: "completed".into(),
        reviewed_head: Some("h".into()),
        raised: Vec::new(),
        deferred: Vec::new(),
        collects: texts(collects),
        note: None,
    }
}

#[test]
fn runs_end_once_and_collect_what_waits() {
    let events = vec![
        dispatched("1", Some("a"), 1),
        ended("2", "1", &["D1"], &[], 10),
        dispatched("3", Some("a"), 11),
        dispatched("4", Some("b"), 12),
    ];
    assert!(matches!(
        end_run(&events, "3", ending(&["D1"])),
        Ok(Payload::RunEnded { dispatch_event_id, .. }) if dispatch_event_id == "3"
    ));
    assert_eq!(end_run(&events, "9", ending(&[])).err(), Some(EndRefusal::UnknownEvent));
    assert_eq!(end_run(&events, "2", ending(&[])).err(), Some(EndRefusal::NotADispatch));
    assert_eq!(
        end_run(&events, "1", ending(&[])).err(),
        Some(EndRefusal::AlreadyEnded { event: 1 })
    );
    assert_eq!(
        end_run(&events, "4", ending(&["D1"])).err(),
        Some(EndRefusal::NoOpenDeferral { index: 0 })
    );
    assert_eq!(
        end_run(&events, "3", ending(&["D1", "D9"])).err(),
        Some(EndRefusal::NoOpenDeferral { index: 1 })
    );
}

#[test]
fn findings_are_raised_or_put_off() {
    let input = |why: Option<&str>, id: Option<&str>| RunFindingInput {
        summary: "s".into(),
        severity: Some(Severity::Minor),
        why: why.map(|w| w.to_string()),
        id: id.map(|i| i.to_string()),
    };
    let raised = read_raised(&vec![input(None, None)]).ok().unwrap();
    assert_eq!((raised[0].summary.as_str(), raised[0].severity), ("s", Some(Severity::Minor)));
    assert_eq!(
        read_raised(&vec![input(None, None), input(None, Some("x"))]).err().map(|e| e.index),
        Some(1)
    );
    let deferred =
        read_deferred(&vec![input(Some("why"), None), input(Some("why"), Some("mine"))], &texts(&["n1", "n2"]));
    let deferred = deferred.ok().unwrap();
    assert_eq!((deferred[0].id.as_str(), deferred[1].id.as_str()), ("n1", "mine"));
    assert_eq!(
        read_deferred(&vec![input(Some(" "), None)], &texts(&["n1"])).err().map(|e| e.index),
        Some(0)
    );
}

#[test]
fn rounds_read_line_by_line() {
    let mut row = RoundText {
        round: Some(2),
        outcome: None,
        route: "local".into(),
        worktree: "/w".into(),
        dispatched_at: Timestamp::new(1_704_067_200, 5).unwrap(),
        dispatch_event_id: "E".into(),
        change: Some("a".into()),
        note: None,
        ending_note: None,
        reviewed_head: None,
        raised: 0,
        deferred: 0,
        collects: Vec::new(),
        open_deferrals: Vec::new(),
    };
    assert_eq!(
        render_round(&row),
        texts(&["  round 2  open  route=local  worktree=/w  dispatched=2024-01-01T00:00:00Z  dispatch=E  change=a"])
    );
    row.round = None;
    row.outcome = Some("completed".into());
    row.change = None;
    row.ending_note = Some("ok".into());
    row.reviewed_head = Some("abc".into());
    row.raised = 1;
    row.deferred = 2;
    row.collects = texts(&["D1", "D2"]);
    row.open_deferrals =
        vec![DeferralText { id: "D3".into(), summary: "look".into(), why: "later".into() }];
    assert_eq!(
        render_round(&row),
        texts(&[
            "  round -  completed  route=local  worktree=/w  dispatched=2024-01-01T00:00:00Z  dispatch=E  ending-note=ok",
            "    reviewed=abc  raised=1  deferred=2  open-deferrals=1  collects=D1,D2",
            "    open D3: look — later",
        ])
    );
}

fn opened(id: &str, pass: &str, members: &[&str]) -> Event {
    event(
        id,
        Payload::ReviewPassOpened { pass_id: pass.into(), members: texts(members), note: None },
    )
}

fn completed(id: &str, pass: &str) -> Event {
    event(id, Payload::ReviewPassCompleted { pass_id: pass.into(), note: None })
}

fn abandoned(id: &str, pass: &str) -> Event {
    event(id, Payload::ReviewPassAbandoned { pass_id: pass.into(), reason: "r".into() })
}

#[test]
fn members_name_a_change_and_a_patchset() {
    let parts = parse_member("a-id:ps-01", &any_id).ok().unwrap();
    assert_eq!((parts.change_id.as_str(), parts.patchset_id.as_str()), ("a-id", "ps-01"));
    assert_eq!(parse_member(" a:b", &any_id).err(), Some(MemberFault::SurroundingSpace));
    assert_eq!(parse_member("ab", &any_id).err(), Some(MemberFault::NoColon));
    assert_eq!(parse_member("a:b:c", &any_id).err(), Some(MemberFault::SeveralColons));
    assert_eq!(parse_member(":b", &any_id).err(), Some(MemberFault::InvalidId));
    assert_eq!(parse_member("a:", &any_id).err(), Some(MemberFault::InvalidId));
}

#[test]
fn passes_open_and_end_once() {
    let events = vec![
        opened("1", "p2", &["a:1"]),
        opened("2", "p1", &["b:1"]),
        completed("3", "p2"),
    ];
    let history = load_history(&events, &any_id, true).ok().unwrap();
    assert_eq!(history.ids, texts(&["p1", "p2"]));
    assert_eq!((history.opened.clone(), history.ending.clone()), (vec![1, 0], vec![None, Some(2)]));
    assert_eq!(pass_state(&history, &events, 0), "open");
    assert_eq!(pass_state(&history, &events, 1), "completed");
    // The one opened last is told first.
    assert_eq!(list_passes(&history, &events), vec![0, 1]);

    assert_eq!(find_open_pass(&history, &events, "p1", &any_id), Ok(0));
    assert_eq!(find_open_pass(&history, &events, "", &any_id), Err(PassRefusal::InvalidId));
    assert_eq!(find_open_pass(&history, &events, "3", &any_id), Err(PassRefusal::NotAPass));
    assert_eq!(find_open_pass(&history, &events, "p9", &any_id), Err(PassRefusal::UnknownPass));
    assert_eq!(
        find_open_pass(&history, &events, "p2", &any_id),
        Err(PassRefusal::AlreadyEnded { event: 2 })
    );
    assert!(matches!(
        complete_pass(&history, &events, "p1", &Some(" done ".into()), &any_id),
        Ok(Payload::ReviewPassCompleted { note: Some(note), .. }) if note == "done"
    ));
    assert_eq!(
        complete_pass(&history, &events, "p1", &Some(" ".into()), &any_id).err(),
        Some(PassRefusal::EmptyText)
    );
    assert!(matches!(
        abandon_pass(&history, &events, "p1", " moot ", &any_id),
        Ok(Payload::ReviewPassAbandoned { reason, .. }) if reason == "moot"
    ));
    assert_eq!(
        abandon_pass(&history, &events, "p1", "", &any_id).err(),
        Some(PassRefusal::EmptyText)
    );
    assert_eq!(required_text(" x "), Some("x".to_string()));
    assert_eq!(required_text(" "), None);
}

#[test]
fn records_of_passes_out_of_order_are_found() {
    let fault = |events: Vec<Event>, unique: bool| load_history(&events, &any_id, unique).err();
    assert_eq!(fault(vec![opened("1", "", &["a:1"])], true), Some((0, PassFault::InvalidId)));
    assert_eq!(fault(vec![opened("1", "p", &[])], true), Some((0, PassFault::NoMembers)));
    assert_eq!(
        fault(vec![opened("1", "p", &["a:1", "b"])], true),
        Some((0, PassFault::InvalidMember { index: 1, fault: MemberFault::NoColon }))
    );
    assert_eq!(
        fault(vec![opened("1", "p", &["a:1", "a:1"])], true),
        Some((0, PassFault::RepeatedMember { index: 1 }))
    );
    assert_eq!(fault(vec![opened("1", "p", &["a:1", "a:1"])], false), None);
    assert_eq!(
        fault(vec![opened("1", "p", &["a:1"]), opened("2", "p", &["a:1"])], true),
        Some((1, PassFault::OpenedTwice))
    );
    assert_eq!(fault(vec![abandoned("1", "p")], true), Some((0, PassFault::UnknownPass)));
    assert_eq!(
        fault(vec![opened("1", "p", &["a:1"]), completed("2", "p"), abandoned("3", "p")], true),
        Some((2, PassFault::EndedTwice))
    );
}

#[test]
fn passes_are_opened_with_patchsets_that_there_are() {
    let member = |change: &str, has_patchset: bool| ResolvedMember {
        change_id: change.into(),
        patchset_id: "1".into(),
        has_patchset,
    };
    assert_eq!(
        validate_members(&vec![member("a", true), member("b", true)]),
        Ok(texts(&["a:1", "b:1"]))
    );
    assert_eq!(validate_members(&Vec::new()), Err(OpenPassRefusal::NoMembers));
    assert_eq!(
        validate_members(&vec![member("a", true), member("b", false)]),
        Err(OpenPassRefusal::NoSuchPatchset { index: 1 })
    );
    assert_eq!(
        validate_members(&vec![member("a", true), member("a", true)]),
        Err(OpenPassRefusal::Repeated { index: 1 })
    );
    assert!(matches!(
        open_pass("p".into(), &vec![member("a", true)], &None),
        Ok(Payload::ReviewPassOpened { note: None, .. })
    ));
    assert_eq!(
        open_pass("p".into(), &Vec::new(), &Some("".into())).err(),
        Some(OpenPassRefusal::EmptyNote)
    );
}

#[test]
fn passes_tell_what_is_covered() {
    let mut state = change("a-id");
    state.verdicts = vec![
        verdict_on("1", Verdict::CommentOnly, "one"),
        verdict_on("1", Verdict::Approved, "two"),
        verdict_on("2", Verdict::Approved, "three"),
    ];
    assert_eq!(member_view(&state, "1"), Some(1));
    assert_eq!(member_view(&state, "3"), None);
    assert_eq!(render_member("a:1", &Some("E".into())), "  a:1 — covered (verdict event E)");
    assert_eq!(render_member("a:1", &None), "  a:1 — not covered");
    let pass = PassText {
        pass_id: "p".into(),
        state: "abandoned".into(),
        opened_line: "opened".into(),
        opened_event_id: "1".into(),
        note: Some("why".into()),
        members: vec![("a:1".into(), None)],
        ending: Some(EndingText {
            event_line: "given up".into(),
            event_id: "2".into(),
            note: None,
            reason: Some("moot".into()),
        }),
    };
    assert_eq!(
        render_pass(&pass),
        texts(&[
            "pass p [abandoned] (caller-declared review pass)",
            "  opened",
            "  opened event: 1",
            "  note: why",
            "  a:1 — not covered",
            "  given up",
            "  ending event: 2",
            "  reason: moot",
        ])
    );
}

fn with_patchset(id: &str, patchset: &str) -> ChangeState {
    let mut state = change(id);
    state.patchsets = vec![snapshot_of("old", "h0"), snapshot_of(patchset, "h1")];
    state
}

#[test]
fn waiting_changes_stand_under_the_pass_that_covers_them() {
    let mut over = closed("d-id", Closure::Integrated);
    over.patchsets = vec![snapshot_of("1", "h")];
    let changes = vec![
        with_patchset("a-id", "1"),
        with_patchset("b-id", "2"),
        with_patchset("c-id", "1"),
        over,
        change("e-id"),
    ];
    let events = vec![
        opened("1", "p1", &["a-id:1", "b-id:1", "d-id:1"]),
        opened("2", "p2", &["a-id:1"]),
        opened("3", "p3", &["c-id:1"]),
        completed("4", "p3"),
    ];
    let history = load_history(&events, &any_id, true).ok().unwrap();
    let queue = collect_review_queue(&history, &events, &changes, &vec![true; 5]);
    assert_eq!(queue.covered.len(), 1);
    assert_eq!(queue.covered[0].pass_id, "p1");
    assert_eq!(queue.covered[0].changes, texts(&["a-id"]));
    // A pass that names an older patchset covers nothing, and neither does one that has ended.
    assert_eq!(queue.uncovered, texts(&["b-id", "c-id"]));
    assert!(!queue.is_empty());
    assert_eq!(queue.pass_count(), 2);
    assert_eq!(
        queue.detail(),
        "review queue: 3 changes, 2 passes; pass p1 covers 1 changes; 2 changes coverable by one pass"
    );
    let queue = collect_review_queue(&history, &events, &changes, &vec![false; 5]);
    assert!(queue.is_empty());
    assert_eq!(queue.pass_count(), 0);
    let one = ReviewQueue {
        covered: vec![CoveredPass { pass_id: "p".into(), changes: texts(&["a"]) }],
        uncovered: Vec::new(),
    };
    assert_eq!(one.detail(), "review queue: 1 changes, 1 pass; pass p covers 1 changes");
}
