use arc_ledger::debts::{collect_debts, debt_range, Debt, Outstanding};
use arc_ledger::event::{Anchor, Event, Payload, Side};
use arc_ledger::findings::sarif;
use arc_ledger::inbox::{
    catchup, claim_details, collect_inbox, render_journal_backlog, render_section, InboxRow,
    JournalBacklog, JournalBacklogRow, Section,
};
use arc_ledger::listing::list_object;
use arc_ledger::messages::{
    check_message, message, message_line, messages, read_since, MessageFilter, MessageRefusal,
    MetadataFound,
};
use arc_ledger::model::{ActorSource, Closure, Severity, Verdict};
use arc_ledger::observe::{
    artifact_payload, event_keys, event_line, events_scope, first_reached, hook_values, next_poll,
    pause, report_reached, report_timeout, resolve_tagged, settle_watch, shows_event,
    tags_may_change, timeout_payload, until_labels, watch_artifact, watch_hook_payload,
    watch_reached, watch_scope, ArtifactRefusal, EventsArgs, EventsScope, POLL_MAX, POLL_MIN,
    ReportedVerdict, TwoScopes, WatchArgs, WatchFacts, WatchHit, WatchQuorum, WatchRefusal,
    WatchScope, WatchUntil,
};
use arc_ledger::state::{
    Brief, ChangeState, ClaimIdentity, ClaimState, ClosureState, FindingState, HoldState,
    MessageState, Patchset, VerdictState,
};
use arc_ledger::time::Timestamp;

fn at(seconds: i64) -> Timestamp {
    Timestamp::new(1_000_000 + seconds, 0).unwrap()
}

fn change(id: &str) -> ChangeState {
    ChangeState {
        change_id: id.into(),
        slug: id.trim_end_matches("-id").into(),
        title: id.into(),
        profile: "local".into(),
        iterating: false,
        target_branch: "master".into(),
        branch: format!("arc/{id}"),
        base: "base".into(),
        worktree: None,
        opened_by: "tester".into(),
        opened_harness: Some("test".into()),
        journal_ref: None,
        blocked_by: Vec::new(),
        tags: Vec::new(),
        assigned_to: None,
        priority: 0,
        opened_at: at(0),
        patchsets: Vec::new(),
        briefs: Vec::new(),
        findings: Vec::new(),
        audit_findings: Vec::new(),
        verdicts: Vec::new(),
        authority: None,
        verifications: Vec::new(),
        run_revisions: Vec::new(),
        audit_revisions: Vec::new(),
        claim: None,
        holds: Vec::new(),
        closure: None,
        changelog: None,
        messages: Vec::new(),
    }
}

fn closed(id: &str, outcome: Closure) -> ChangeState {
    let mut state = change(id);
    state.closure = Some(ClosureState {
        outcome,
        integrated_commit: if outcome == Closure::Integrated {
            Some(format!("commit-{id}"))
        } else {
            None
        },
        superseded_by: None,
        target_before: None,
        event_id: format!("closed-{id}"),
        created_at: at(100),
    });
    state
}

fn blocked(id: &str, by: &[&str]) -> ChangeState {
    let mut state = change(id);
    state.blocked_by = by.iter().map(|id| (*id).into()).collect();
    state
}

fn event(id: &str, payload: Payload) -> Event {
    Event {
        schema_version: 1,
        event_id: id.into(),
        repository_id: "repo".into(),
        change_id: "c".into(),
        actor: "tester".into(),
        actor_source: Some(ActorSource::Flag),
        on_behalf_of: None,
        model: None,
        harness: Some("test".into()),
        session: Some("s".into()),
        created_at: at(0),
        payload,
    }
}

fn owner(actor: &str) -> ClaimIdentity {
    ClaimIdentity {
        actor: actor.into(),
        harness: "cli".into(),
        session: "one".into(),
    }
}

fn held(claim_id: &str, actor: &str) -> ClaimState {
    ClaimState {
        claim_id: claim_id.into(),
        owner: owner(actor),
    }
}

fn texts(values: &[&str]) -> Vec<String> {
    values.iter().map(|value| value.to_string()).collect()
}

fn snapshot_of(id: &str, head: &str) -> Patchset {
    Patchset {
        id: id.into(),
        base: "base".into(),
        head: head.into(),
        merge_base: None,
        actor: "writer".into(),
        on_behalf_of: None,
        brief_ref: None,
        brief_version: None,
        event_id: format!("event-{id}"),
    }
}

fn verdict_on(id: &str, verdict: Verdict, actor: &str) -> VerdictState {
    VerdictState {
        event_id: format!("verdict-{id}-{actor}"),
        patchset_id: id.into(),
        verdict,
        causes: Vec::new(),
        body: None,
        actor: actor.into(),
        on_behalf_of: None,
        model: None,
        created_at: at(10),
        provisional: None,
    }
}

fn finding_of(id: &str, severity: Severity, blocking: bool) -> FindingState {
    FindingState {
        finding_id: id.into(),
        origin_event: format!("origin-{id}"),
        blocking,
        severity,
        summary: format!("summary of {id}"),
        body: None,
        patchset_id: None,
        anchor: None,
        status: None,
        tips: Vec::new(),
        disposition_commits: Vec::new(),
    }
}

fn brief_of(event_id: &str, body: &str) -> Brief {
    Brief {
        event_id: event_id.into(),
        ts: at(0),
        actor: "lead".into(),
        on_behalf_of: None,
        title: None,
        body: body.into(),
        base_revision: None,
        acceptance_probes: Vec::new(),
        plan_ref: None,
        plan_slice: None,
    }
}

fn hold(id: &str) -> HoldState {
    HoldState {
        hold_event_id: id.into(),
        reason: "waiting".into(),
        held_by: "lead".into(),
    }
}

fn json(text: &str) -> serde_json::Value {
    serde_json::from_str(text).unwrap()
}

#[test]
fn pauses_grow_while_nothing_happens() {
    assert_eq!(next_poll(POLL_MIN, false), 200);
    assert_eq!(next_poll(400, false), 800);
    assert_eq!(next_poll(800, false), POLL_MAX);
    assert_eq!(next_poll(POLL_MAX, true), POLL_MIN);
    assert_eq!(pause(400, None), 400);
    assert_eq!(pause(400, Some(100)), 100);
    assert_eq!(pause(400, Some(900)), 400);
}

fn streaming() -> EventsArgs {
    EventsArgs {
        follow: true,
        change: None,
        tags: Vec::new(),
        repository_scope: false,
        event_type: None,
        since: None,
        exec_command: None,
    }
}

#[test]
fn streams_have_one_scope() {
    let mut args = streaming();
    assert_eq!(events_scope(&args), Ok(EventsScope::Everything));
    args.repository_scope = true;
    assert_eq!(events_scope(&args), Ok(EventsScope::Repository));
    args.change = Some("a".into());
    assert_eq!(events_scope(&args), Ok(EventsScope::OneChange));
    args.tags = texts(&["web"]);
    assert_eq!(events_scope(&args), Err(TwoScopes));
}

#[test]
fn events_are_streamed_by_cursor_type_and_tag() {
    let value = json(r#"{"event_id":"5","event_type":"hold-set","change_id":"a","n":1}"#);
    let keys = event_keys(&value);
    assert_eq!((keys.event_type.as_deref(), keys.change_id.as_deref()), (Some("hold-set"), Some("a")));
    assert!(shows_event("5", &keys, &None, &None, &None));
    assert!(shows_event("5", &keys, &Some("4".into()), &Some("hold-set".into()), &Some(texts(&["a"]))));
    assert!(!shows_event("5", &keys, &Some("5".into()), &None, &None));
    assert!(!shows_event("5", &keys, &None, &Some("message".into()), &None));
    assert!(!shows_event("5", &keys, &None, &None, &Some(texts(&["b"]))));
    let bare = event_keys(&json("[]"));
    assert!(bare.event_type.is_none() && bare.change_id.is_none());
    assert!(!shows_event("5", &bare, &None, &None, &Some(texts(&["a"]))));
    assert!(!tags_may_change(&vec![keys, bare]));
    assert!(tags_may_change(&vec![event_keys(&json(r#"{"event_type":"metadata-updated"}"#))]));

    assert_eq!(event_line(&json(r#"{ "a" : [1, 2] }"#)), b"{\"a\":[1,2]}\n");
    let told = hook_values(&value);
    assert_eq!(
        (told.event_id.as_str(), told.event_type.as_str(), told.change_id.as_str()),
        ("5", "hold-set", "a")
    );
    assert_eq!(hook_values(&json("{}")).event_id, "");
}

fn waiting() -> WatchArgs {
    WatchArgs {
        tags: Vec::new(),
        quorum: None,
        until: vec![WatchUntil::Stalled],
        timeout_secs: None,
        exec_command: None,
        json: false,
    }
}

#[test]
fn a_change_or_a_tagged_set_is_watched() {
    let mut args = waiting();
    assert_eq!(watch_scope(true, &args), Ok(WatchScope::Single));
    assert_eq!(watch_scope(false, &args), Err(WatchRefusal::NoScope));
    args.quorum = Some(WatchQuorum::Any);
    assert_eq!(watch_scope(true, &args), Err(WatchRefusal::QuorumOfOne));
    args.tags = texts(&["web"]);
    assert_eq!(watch_scope(true, &args), Err(WatchRefusal::TwoScopes));
    assert_eq!(watch_scope(false, &args), Ok(WatchScope::Tagged { quorum: WatchQuorum::Any }));
    args.quorum = None;
    assert_eq!(watch_scope(false, &args), Err(WatchRefusal::NoQuorum));

    assert_eq!(watch_artifact(&waiting()), Ok(()));
    assert_eq!(watch_artifact(&args), Err(ArtifactRefusal::SelectsChanges));
    let mut args = waiting();
    args.until = vec![WatchUntil::Stalled, WatchUntil::Ready];
    assert_eq!(watch_artifact(&args), Err(ArtifactRefusal::AsksAboutChange { index: 1 }));
    args.until = Vec::new();
    assert_eq!(watch_artifact(&args), Err(ArtifactRefusal::NoCondition));

    let mut tagged = change("b-id");
    tagged.tags = texts(&["web"]);
    let changes = vec![change("a-id"), tagged];
    assert_eq!(resolve_tagged(&changes, &texts(&["web"])), Some(texts(&["b-id"])));
    assert_eq!(resolve_tagged(&changes, &texts(&["none"])), None);
}

fn facts() -> WatchFacts {
    WatchFacts {
        stale: false,
        verdict: None,
        gates_green: vec![true, false],
        integrate_ready: false,
        blocked_on_stages: Vec::new(),
    }
}

fn reached(until: WatchUntil, state: &ChangeState, facts: &WatchFacts) -> Option<Option<String>> {
    let added = Payload::PatchsetAdded {
        patchset_id: "ps-01".into(),
        base: "b".into(),
        head: "h".into(),
        merge_base: None,
        brief_ref: None,
        author_name: None,
        author_email: None,
        committer_name: None,
        committer_email: None,
        contributors: Vec::new(),
        claim_id: None,
        claim_actor: None,
    };
    let events = vec![event("1", added), event("2", Payload::HoldSet { reason: "r".into() })];
    watch_reached(until, state, &events, facts).map(|reached| reached.event_id)
}

#[test]
fn conditions_hold_for_a_reason() {
    let mut state = change("a-id");
    let plain = facts();
    for until in [
        WatchUntil::Snapshot,
        WatchUntil::Stalled,
        WatchUntil::Reviewed,
        WatchUntil::Approved,
        WatchUntil::GatesGreen,
        WatchUntil::Ready,
        WatchUntil::Blocked,
        WatchUntil::BriefRecorded,
        WatchUntil::Integrated,
        WatchUntil::Closed,
    ] {
        assert_eq!(reached(until, &state, &plain), None);
    }
    state.patchsets = vec![snapshot_of("ps-01", "h1"), snapshot_of("ps-02", "h2")];
    assert_eq!(reached(WatchUntil::Snapshot, &state, &plain), Some(Some("1".into())));
    state.verdicts = vec![verdict_on("ps-01", Verdict::Approved, "judge")];
    // A verdict on an earlier patchset is no review of the latest.
    assert_eq!(reached(WatchUntil::Reviewed, &state, &plain), None);
    state.verdicts.push(verdict_on("ps-02", Verdict::ChangesRequested, "judge"));
    assert_eq!(
        reached(WatchUntil::Reviewed, &state, &plain),
        Some(Some("verdict-ps-02-judge".into()))
    );

    let mut told = facts();
    told.stale = true;
    assert_eq!(reached(WatchUntil::Stalled, &state, &told), None);
    state.claim = Some(held("C", "writer"));
    assert_eq!(reached(WatchUntil::Stalled, &state, &told), Some(None));
    told.gates_green = vec![true, true];
    assert_eq!(reached(WatchUntil::GatesGreen, &state, &told), Some(None));
    told.gates_green = Vec::new();
    assert_eq!(reached(WatchUntil::GatesGreen, &state, &told), Some(None));
    told.integrate_ready = true;
    assert_eq!(reached(WatchUntil::Ready, &state, &told), Some(None));
    told.blocked_on_stages = texts(&["S1", "S2"]);
    assert_eq!(reached(WatchUntil::Blocked, &state, &told), Some(Some("S2".into())));
    state.briefs = vec![brief_of("B1", "x")];
    assert_eq!(reached(WatchUntil::BriefRecorded, &state, &told), Some(Some("B1".into())));

    let over = closed("a-id", Closure::Abandoned);
    assert_eq!(reached(WatchUntil::Closed, &over, &plain), Some(Some("closed-a-id".into())));
    assert_eq!(reached(WatchUntil::Integrated, &over, &plain), None);
    assert_eq!(
        reached(WatchUntil::Integrated, &closed("a-id", Closure::Integrated), &plain),
        Some(Some("closed-a-id".into()))
    );
}

#[test]
fn approval_is_what_status_says_it_is() {
    let mut state = change("a-id");
    let mut verdict = verdict_on("ps-01", Verdict::Approved, "judge");
    verdict.provisional = Some("until Monday".into());
    state.verdicts = vec![verdict];
    let mut told = facts();
    let says = |valid: bool, verdict: Verdict| {
        Some(ReportedVerdict { verdict, patchset_id: "ps-01".into(), valid_for_current_head: valid })
    };
    told.verdict = says(true, Verdict::Approved);
    // Nothing has authority.
    assert_eq!(reached(WatchUntil::Approved, &state, &told), None);
    state.authority = Some(0);
    let hit = watch_reached(WatchUntil::Approved, &state, &Vec::new(), &told).unwrap();
    assert_eq!(hit.event_id.as_deref(), Some("verdict-ps-01-judge"));
    assert_eq!(hit.provisional.as_deref(), Some("until Monday"));
    told.verdict = says(false, Verdict::Approved);
    assert_eq!(reached(WatchUntil::Approved, &state, &told), None);
    told.verdict = says(true, Verdict::CommentOnly);
    assert_eq!(reached(WatchUntil::Approved, &state, &told), None);
}

#[test]
fn a_quorum_ends_the_wait() {
    assert_eq!(first_reached(&vec![false, true, true]), Some(1));
    assert_eq!(first_reached(&vec![false]), None);
    assert_eq!(settle_watch(WatchQuorum::Any, &vec![false, true], 3), Some(vec![1]));
    assert_eq!(settle_watch(WatchQuorum::Any, &vec![false, false], 3), None);
    assert_eq!(settle_watch(WatchQuorum::All, &vec![true, true], 2), Some(vec![0, 1]));
    assert_eq!(settle_watch(WatchQuorum::All, &vec![true, false], 2), None);
    assert_eq!(settle_watch(WatchQuorum::All, &vec![true, true], 3), None);
}

fn hit(id: &str, condition: WatchUntil, provisional: Option<&str>) -> WatchHit {
    WatchHit {
        change_id: id.into(),
        condition,
        event_id: Some(format!("event-{id}")),
        provisional: provisional.map(|p| p.to_string()),
    }
}

#[test]
fn watches_report_what_was_reached() {
    let until = vec![WatchUntil::Approved, WatchUntil::Closed];
    let any = WatchScope::Tagged { quorum: WatchQuorum::Any };
    let all = WatchScope::Tagged { quorum: WatchQuorum::All };
    assert_eq!(until_labels(&until), "approved,closed");
    assert_eq!(report_timeout(&until), "timeout: approved,closed");
    let hits = vec![hit("a", WatchUntil::Approved, Some("soon")), hit("b", WatchUntil::Closed, None)];
    let reasons = texts(&["soon", ""]);
    assert_eq!(
        report_reached(WatchScope::Single, &hits, &reasons, 1, &until),
        "reached: approved (provisional: soon)"
    );
    assert_eq!(
        report_reached(any, &hits, &reasons, 2, &until),
        "reached: approved (a) (provisional: soon)"
    );
    assert_eq!(
        report_reached(all, &hits, &reasons, 2, &until),
        "reached: approved,closed (2 changes; provisional: soon)"
    );
    assert_eq!(
        report_reached(all, &vec![hit("b", WatchUntil::Closed, None)], &texts(&[""]), 1, &until),
        "reached: approved,closed (1 changes)"
    );
    // A program is told the reason as it was recorded, a person on one line.
    let broken = vec![hit("a", WatchUntil::Approved, Some("one\ntwo"))];
    assert_eq!(
        report_reached(WatchScope::Single, &broken, &texts(&["one two"]), 1, &until),
        "reached: approved (provisional: one two)"
    );
    assert_eq!(
        watch_hook_payload(WatchScope::Single, &broken, &until),
        json(r#"{"change_id":"a","condition":"approved","event_id":"event-a","provisional":"one\ntwo","event_type":"watch-reached"}"#)
    );
    assert_eq!(
        watch_hook_payload(any, &hits, &until),
        json(r#"{"change_id":"a","condition":"approved","event_id":"event-a","provisional":"soon","event_type":"watch-reached"}"#)
    );
    assert_eq!(
        watch_hook_payload(all, &hits, &until),
        json(
            r#"{"changes":[{"change_id":"a","condition":"approved","event_id":"event-a","provisional":"soon"},
            {"change_id":"b","condition":"closed","event_id":"event-b"}],
            "condition":"approved,closed","event_type":"watch-reached"}"#
        )
    );
    assert_eq!(
        timeout_payload(&until),
        json(r#"{"event_type":"watch-timeout","condition":"approved,closed"}"#)
    );
    assert_eq!(
        artifact_payload("notes.md", "C"),
        json(r#"{"event_type":"watch-reached","condition":"stalled","file":"notes.md","claim_id":"C"}"#)
    );
}

#[test]
fn messages_are_one_line_with_an_object() {
    let said = |summary: &str, detail: Option<&str>, metadata: Option<&str>| {
        message(
            "status".into(),
            "info".into(),
            summary,
            &detail.map(|d| d.to_string()),
            metadata.map(|m| m.to_string()),
        )
    };
    match said("  done  ", Some(" all of it "), Some("{\"n\": 1}")) {
        Ok(Payload::Message { summary, detail, metadata, .. }) => {
            assert_eq!((summary.as_str(), detail.as_deref()), ("done", Some("all of it")));
            assert_eq!(metadata.as_deref(), Some("{\"n\": 1}"));
        }
        _ => panic!("a message is recorded"),
    }
    assert!(matches!(said("x", Some(" "), None), Ok(Payload::Message { detail: None, .. })));
    assert_eq!(said(" ", None, None).err(), Some(MessageRefusal::EmptySummary));
    assert_eq!(said("a\nb", None, None).err(), Some(MessageRefusal::SummaryOfManyLines));
    assert_eq!(said("a\rb", None, None).err(), Some(MessageRefusal::SummaryOfManyLines));
    assert_eq!(said("a", None, Some("{")).err(), Some(MessageRefusal::MetadataNoJson));
    assert_eq!(said("a", None, Some("[1]")).err(), Some(MessageRefusal::MetadataNoObject));
    assert_eq!(check_message("a", MetadataFound::Absent), Ok(()));
    assert_eq!(check_message("a", MetadataFound::Json { object: true }), Ok(()));
    assert_eq!(
        check_message("a", MetadataFound::Json { object: false }),
        Err(MessageRefusal::MetadataNoObject)
    );
}

fn left(event_id: &str, severity: &str, seconds: i64) -> MessageState {
    MessageState {
        event_id: event_id.into(),
        message_type: "status".into(),
        severity: severity.into(),
        summary: format!("said {event_id}"),
        detail: None,
        metadata: None,
        actor: "writer".into(),
        harness: None,
        session: None,
        created_at: at(seconds),
    }
}

#[test]
fn the_newest_message_comes_first() {
    let mut a = change("a-id");
    a.messages = vec![left("1", "info", 10), left("3", "warning", 20)];
    let mut b = change("b-id");
    b.messages = vec![left("2", "info", 20)];
    let changes = vec![a, b];
    let everything =
        || MessageFilter { change_id: None, message_type: None, severity: None, since: None };
    let found = |filter: &MessageFilter| -> Vec<(usize, usize)> {
        messages(&changes, filter).iter().map(|at| (at.change, at.index)).collect()
    };
    assert_eq!(found(&everything()), vec![(0, 1), (1, 0), (0, 0)]);
    let mut filter = everything();
    filter.severity = Some("info".into());
    assert_eq!(found(&filter), vec![(1, 0), (0, 0)]);
    filter.change_id = Some("a-id".into());
    assert_eq!(found(&filter), vec![(0, 0)]);
    let mut filter = everything();
    filter.since = Some(at(20));
    assert_eq!(found(&filter), vec![(0, 1), (1, 0)]);
    filter.message_type = Some("question".into());
    assert!(found(&filter).is_empty());

    assert_eq!(
        message_line("a-id", &left("1", "info", 10)),
        "a-id [status/info] said 1 — writer (1970-01-12T13:46:50+00:00)"
    );
    assert_eq!(read_since(&None), Ok(None));
    assert!(read_since(&Some("1970-01-12T13:46:50Z".into())) == Ok(Some(at(10))));
    assert!(read_since(&Some("1970-01-12T14:46:50+01:00".into())) == Ok(Some(at(10))));
    assert!(read_since(&Some("yesterday".into())).is_err());
}

#[test]
fn an_inbox_tells_of_what_is_assigned() {
    let mut mine = change("a-id");
    mine.assigned_to = Some("bot".into());
    let mut over = closed("b-id", Closure::Integrated);
    over.assigned_to = Some("bot".into());
    let changes = vec![mine, over, change("c-id")];
    let scope = collect_inbox(&changes, &Some(" bot ".into()));
    assert_eq!((scope.considered, scope.open), (vec![0, 1], vec![0]));
    let scope = collect_inbox(&changes, &Some(" ".into()));
    assert_eq!((scope.considered, scope.open), (vec![0, 1, 2], vec![0, 2]));

    assert_eq!(
        claim_details(&Some(owner("writer")), &Some("implementing".into()), Some(5)),
        " [owner: writer/cli/one; stage: implementing; age: 5s]"
    );
    assert_eq!(claim_details(&Some(owner("writer")), &None, Some(5)), "");
    let row = InboxRow {
        change_id: "a-id".into(),
        title: "A".into(),
        next_actor: "lead".into(),
        owner: None,
        stage: None,
        age_seconds: None,
        assigned_to: Some("bot".into()),
        holds: vec![hold("H")],
    };
    assert_eq!(
        render_section("held", &vec![row]),
        texts(&["## held", "  a-id  A → lead [assigned: bot]", "    hold H by lead: waiting"])
    );
    assert_eq!(render_section("ready", &Vec::new()), texts(&["## ready", "  (none)"]));
}

#[test]
fn the_journal_tells_what_waits() {
    let mut backlog = JournalBacklog {
        dir: "/j".into(),
        open: 0,
        later: 0,
        feature_requests: 0,
        preview: Vec::new(),
    };
    assert_eq!(render_journal_backlog(&backlog), texts(&["## journal backlog", "  (none)  /j"]));
    backlog.open = 2;
    backlog.later = 1;
    backlog.preview =
        vec![JournalBacklogRow { file: "f".into(), kind: "bug".into(), heading: "H".into() }];
    assert_eq!(
        render_journal_backlog(&backlog),
        texts(&[
            "## journal backlog",
            "  2 open, 1 later, 0 feature-request  /j",
            "  f  bug  H",
            "  full queue: arc journal open",
        ])
    );
}

#[test]
fn a_session_is_told_each_debt_once() {
    let section = |name: &str, changes: &[&str]| Section { name: name.into(), changes: texts(changes) };
    let sections = vec![
        section("needs-review", &["a", "b", "c"]),
        section("held", &[]),
        section("debt-owed", &["a"]),
        section("ready", &["b", "d"]),
    ];
    let plans = catchup(&sections, 2);
    assert_eq!(plans.len(), 2);
    assert_eq!((plans[0].section, plans[0].with_queue), (0, true));
    assert_eq!(plans[0].first_told, vec![true, true]);
    assert_eq!((plans[1].section, plans[1].with_queue), (3, false));
    assert_eq!(plans[1].first_told, vec![false, true]);
    assert!(catchup(&vec![section("held", &[])], 2).is_empty());
}

#[test]
fn debts_are_owed_for_what_was_integrated() {
    let debt = |patchset: Option<&str>| Debt {
        reason: "r".into(),
        patchset_id: patchset.map(|p| p.to_string()),
        declared_at: at(0),
    };
    let mut state = change("a-id");
    assert_eq!(debt_range(&state, &debt(None)), None);
    state.patchsets = vec![snapshot_of("ps-01", "h1"), snapshot_of("ps-02", "h2")];
    assert_eq!(debt_range(&state, &debt(Some("ps-01"))), Some(("base".into(), "h1".into())));
    assert_eq!(debt_range(&state, &debt(Some("gone"))), Some(("base".into(), "h2".into())));
    let mut over = closed("a-id", Closure::Integrated);
    if let Some(closure) = &mut over.closure {
        closure.target_before = Some("old".into());
    }
    assert_eq!(debt_range(&over, &debt(None)), Some(("old".into(), "commit-a-id".into())));
}

#[test]
fn debts_are_summed_up() {
    let owed = |reason: &str, seconds: i64, surfaces: &[&str]| {
        Some(Outstanding {
            title: "T".into(),
            reason: reason.into(),
            declared_at: at(seconds),
            surfaces: texts(surfaces),
        })
    };
    let changes = vec![change("a-id"), change("b-id"), change("c-id")];
    let debts = vec![owed("late", 20, &["src/a", "src/b"]), None, owed("night", 10, &[])];
    let summary = collect_debts(&changes, &debts, at(70), Some(2), Some(60));
    assert_eq!(summary.entries.len(), 2);
    assert_eq!((summary.oldest_age_seconds, summary.priority_advisory), (60, false));
    assert_eq!(
        summary.detail("1m"),
        "2 outstanding; oldest 1m; surfaces (2): src/a, src/b"
    );
    assert_eq!(summary.entries[1].detail(), "c-id (T): owed: night; surfaces: unknown");
    assert_eq!(summary.touching(&texts(&["src/b"])), vec![0]);
    assert_eq!(
        summary.render_touched(&texts(&["src/b"])),
        vec!["    debt a-id (T): owed: late; surfaces: src/a, src/b"]
    );
    assert!(summary.render_touched(&texts(&["docs"])).is_empty());
    let advisories = summary.advisories_for("1m", &texts(&["src/b"]));
    assert_eq!(advisories.len(), 2);
    assert_eq!((advisories[0].code, advisories[1].code), ("debt-summary", "debt-touched"));
    assert_eq!(advisories[1].detail, "a-id (T): owed: late; surfaces: src/a, src/b");
    assert_eq!(
        summary.render_summary("1m").as_deref(),
        Some("debt-owed (2): 2 outstanding; oldest 1m; surfaces (2): src/a, src/b; discharge with: arc audit <change> --verdict <v>")
    );
    assert!(collect_debts(&changes, &debts, at(70), Some(1), None).priority_advisory);
    let pressing = collect_debts(&changes, &debts, at(70), None, Some(59));
    assert!(pressing.detail("1m").ends_with("; priority: advisory"));
    let none = collect_debts(&changes, &vec![None, None, None], at(70), Some(0), Some(0));
    assert!(none.is_empty() && !none.priority_advisory && none.oldest_age_seconds == 0);
    assert!(none.render_summary("0s").is_none() && none.advisories_for("0s", &Vec::new()).is_empty());
}

#[test]
fn programs_read_changes_and_findings_as_json() {
    let mut state = blocked("b-id", &["a-id"]);
    state.tags = texts(&["web"]);
    state.priority = -1;
    let changes = vec![change("a-id"), state];
    assert_eq!(
        list_object(&changes[1], &changes),
        json(
            r#"{"change_id":"b-id","slug":"b","title":"b-id","profile":"local","branch":"arc/b-id",
            "target_branch":"master","state":"open","status":"open","verdict":"none",
            "blocked_by":["a-id"],"blocker":"blocked-by:a","tags":["web"],"priority":-1}"#
        )
    );

    let mut placed = finding_of("F1", Severity::Major, true);
    placed.body = Some(" why \n".into());
    placed.anchor = Some(Anchor {
        path: "src/a".into(),
        side: Side::Head,
        blob: None,
        line_start: Some(7),
        line_end: Some(3),
        context: None,
    });
    let mut settled = finding_of("F2", Severity::Note, false);
    settled.status = Some("fixed".into());
    let plain = finding_of("F3", Severity::Note, false);
    assert_eq!(
        sarif(&vec![placed, settled, plain]),
        json(
            r#"{"version":"2.1.0","$schema":"https://json.schemastore.org/sarif-2.1.0.json",
            "runs":[{"tool":{"driver":{"name":"arc"}},"results":[
            {"ruleId":"F1","level":"error","message":{"text":"summary of F1\n\nwhy"},
             "properties":{"summary":"summary of F1"},
             "locations":[{"physicalLocation":{"artifactLocation":{"uri":"src/a"},
             "region":{"startLine":7,"endLine":7}}}]},
            {"ruleId":"F3","level":"note","message":{"text":"summary of F3"},
             "properties":{"summary":"summary of F3"}}]}]}"#
        )
    );
}
