use arc_ledger::diff::Fate;
use arc_ledger::doctor::{
    classify_file, exit_code, grouped_summary, inspect_audit_debt, inspect_change,
    inspect_closed_worktrees, inspect_danger_paths, inspect_dependencies, inspect_hold_releases,
    inspect_refs, inspect_repository_bytes, inspect_repository_event, inspect_repository_events,
    inspect_state, registered_worktrees, render, render_advice, ClaimExpiry, DOCTOR_SCHEMA,
    EventFile, FileFate, Finding, RepositoryFile, RepositoryRead, StoredFile,
};
use arc_ledger::event::{Event, Payload};
use arc_ledger::model::{ActorSource, Closure, Severity};
use arc_ledger::revisions::{
    inspect_dangling_revisions, recorded_revisions, referents, wanted_revisions, Note,
};
use arc_ledger::state::{
    Brief, ChangeState, ClaimIdentity, ClaimState, ClosureState, FindingState, Patchset,
    VerificationState,
};
use arc_ledger::time::Timestamp;
use arc_ledger::writability::{
    check_line, check_writable, finish, next_probe, Capability, JournalPlace, Probed, Signing,
};

fn at(seconds: i64) -> Timestamp {
    Timestamp::new(1_000_000 + seconds, 0).unwrap()
}

fn change(id: &str) -> ChangeState {
    ChangeState {
        change_id: id.into(),
        slug: id.trim_end_matches("-id").into(),
        title: id.into(),
        profile: "local".into(),
        iterating: false,
        target_branch: "master".into(),
        branch: format!("arc/{id}"),
        base: "base".into(),
        worktree: None,
        opened_by: "tester".into(),
        opened_harness: Some("test".into()),
        journal_ref: None,
        blocked_by: Vec::new(),
        tags: Vec::new(),
        assigned_to: None,
        priority: 0,
        opened_at: at(0),
        patchsets: Vec::new(),
        briefs: Vec::new(),
        findings: Vec::new(),
        audit_findings: Vec::new(),
        verdicts: Vec::new(),
        authority: None,
        verifications: Vec::new(),
        run_revisions: Vec::new(),
        audit_revisions: Vec::new(),
        claim: None,
        holds: Vec::new(),
        closure: None,
        changelog: None,
        messages: Vec::new(),
    }
}

fn closed(id: &str, outcome: Closure) -> ChangeState {
    let mut state = change(id);
    state.closure = Some(ClosureState {
        outcome,
        integrated_commit: if outcome == Closure::Integrated {
            Some(format!("commit-{id}"))
        } else {
            None
        },
        superseded_by: None,
        target_before: None,
        event_id: format!("closed-{id}"),
        created_at: at(100),
    });
    state
}

fn blocked(id: &str, by: &[&str]) -> ChangeState {
    let mut state = change(id);
    state.blocked_by = by.iter().map(|id| (*id).into()).collect();
    state
}

fn event(id: &str, payload: Payload) -> Event {
    Event {
        schema_version: 1,
        event_id: id.into(),
        repository_id: "repo".into(),
        change_id: "c".into(),
        actor: "tester".into(),
        actor_source: Some(ActorSource::Flag),
        on_behalf_of: None,
        model: None,
        harness: Some("test".into()),
        session: Some("s".into()),
        created_at: at(0),
        payload,
    }
}

fn owner(actor: &str) -> ClaimIdentity {
    ClaimIdentity {
        actor: actor.into(),
        harness: "cli".into(),
        session: "one".into(),
    }
}

fn held(claim_id: &str, actor: &str) -> ClaimState {
    ClaimState {
        claim_id: claim_id.into(),
        owner: owner(actor),
    }
}

fn texts(values: &[&str]) -> Vec<String> {
    values.iter().map(|value| value.to_string()).collect()
}

fn snapshot_of(id: &str, head: &str) -> Patchset {
    Patchset {
        id: id.into(),
        base: "base".into(),
        head: head.into(),
        merge_base: None,
        actor: "writer".into(),
        on_behalf_of: None,
        brief_ref: None,
        brief_version: None,
        event_id: format!("event-{id}"),
    }
}

fn finding_of(id: &str, severity: Severity, blocking: bool) -> FindingState {
    FindingState {
        finding_id: id.into(),
        origin_event: format!("origin-{id}"),
        blocking,
        severity,
        summary: format!("summary of {id}"),
        body: None,
        patchset_id: None,
        anchor: None,
        status: None,
        tips: Vec::new(),
        disposition_commits: Vec::new(),
    }
}

fn brief_of(event_id: &str, body: &str) -> Brief {
    Brief {
        event_id: event_id.into(),
        ts: at(0),
        actor: "lead".into(),
        on_behalf_of: None,
        title: None,
        body: body.into(),
        base_revision: None,
        acceptance_probes: Vec::new(),
        plan_ref: None,
        plan_slice: None,
    }
}

fn told(findings: &[Finding]) -> Vec<(String, String)> {
    findings.iter().map(|found| (found.code.to_string(), found.detail.clone())).collect()
}

fn pair(code: &str, detail: &str) -> (String, String) {
    (code.to_string(), detail.to_string())
}

fn opening() -> Payload {
    Payload::ChangeOpened {
        slug: "a".into(),
        title: "A".into(),
        profile: "local".into(),
        target_branch: "main".into(),
        branch: "arc/a".into(),
        base: "b".into(),
        worktree: None,
        blocked_by: Vec::new(),
        tags: Vec::new(),
        journal_ref: None,
        dangerous: false,
    }
}

fn file(name: &str, event: Option<Event>) -> EventFile {
    EventFile {
        path: format!("/s/{name}"),
        name: name.into(),
        is_file: true,
        event,
        ids_valid: true,
    }
}

#[test]
fn files_of_a_change_are_sorted_out() {
    let mut folder = file("sub", None);
    folder.is_file = false;
    let mut named_badly = file("4.json", Some(event("4", opening())));
    named_badly.ids_valid = false;
    let files = vec![
        folder,
        file("1.tmp", None),
        file("notes.txt", None),
        file("3.json", None),
        named_badly,
        file("5.json", Some(event("5", Payload::Unknown))),
        file("6.json", Some(event("6", opening()))),
    ];
    let fates: Vec<FileFate> = files.iter().map(classify_file).collect();
    assert_eq!(
        fates,
        vec![
            FileFate::Skipped,
            FileFate::Temporary,
            FileFate::Skipped,
            FileFate::Malformed,
            FileFate::InvalidId,
            FileFate::UnknownType,
            FileFate::Kept,
        ]
    );
    let found = inspect_change("/s", &Some(files));
    assert_eq!(
        told(&found.problems),
        vec![pair("malformed-event", "/s/3.json"), pair("invalid-event-id", "/s/4.json")]
    );
    assert_eq!(
        told(&found.advice),
        vec![
            pair("orphaned-temporary-file", "/s/1.tmp"),
            pair("unknown-event-type", "/s/5.json")
        ]
    );
    assert_eq!((found.kept, found.opened), (vec![6], true));

    let found = inspect_change("/s", &None);
    assert_eq!(told(&found.problems), vec![pair("missing-open-event", "/s")]);
    assert!(!found.opened);
    let held_up = event("1", Payload::HoldSet { reason: "r".into() });
    let found = inspect_change("/s", &Some(vec![file("1.json", Some(held_up))]));
    assert_eq!(told(&found.problems), vec![pair("missing-open-event", "/s")]);
    assert_eq!((found.kept, found.opened), (vec![0], false));
}

#[test]
fn open_changes_have_branches_and_live_claims() {
    let claim = ClaimExpiry { expired: true, expires_at: at(0), ttl_seconds: 60 };
    let look = |state: &ChangeState, branch_exists: bool, overdue: i64| {
        told(&inspect_state("/s", state, branch_exists, &claim, at(overdue)))
    };
    let mut state = change("a-id");
    assert!(look(&state, true, 100).is_empty());
    state.claim = Some(held("C", "writer"));
    assert_eq!(
        look(&state, false, 61),
        vec![
            pair("missing-open-branch", "/s: refs/heads/arc/a-id"),
            pair("long-expired-claim", "/s: claim C"),
        ]
    );
    assert!(look(&state, true, 60).is_empty());
    let mut over = closed("a-id", Closure::Integrated);
    over.claim = Some(held("C", "writer"));
    assert!(look(&over, false, 100).is_empty());
}

#[test]
fn refs_retain_known_patchsets() {
    let mut state = change("a-id");
    state.patchsets = vec![snapshot_of("ps-01", "h")];
    let refs = texts(&[
        "refs/arc/keep/a-id/ps-01",
        "refs/arc/keep/a-id/ps-02",
        "refs/arc/keep/b-id/ps-01",
        "refs/arc/keep/a-id",
        "refs/arc/keep/a-id/ps-01/x",
    ]);
    let found = inspect_refs(&vec![state], &refs);
    let details: Vec<&str> = found.iter().map(|found| found.detail.as_str()).collect();
    assert_eq!(
        details,
        vec![
            "refs/arc/keep/a-id/ps-02",
            "refs/arc/keep/b-id/ps-01",
            "refs/arc/keep/a-id",
            "refs/arc/keep/a-id/ps-01/x",
        ]
    );
    assert_eq!(found[0].code, "orphaned-retention-ref");
}

#[test]
fn dangerous_paths_name_something() {
    let found = inspect_danger_paths(
        &texts(&["src/a.rs", "src/b.rs", "src/*.rs", "gone/"]),
        &vec![true, false, false, false],
    );
    assert_eq!(
        told(&found),
        vec![pair(
            "danger-path-matches-nothing",
            "src/b.rs is declared dangerous but does not exist; the surface it names is on a self-verdict"
        )]
    );
}

#[test]
fn debts_worktrees_and_circles_are_advice() {
    let changes = vec![change("a-id"), change("b-id")];
    assert_eq!(
        told(&inspect_audit_debt(&changes, &vec![None, Some("late".into())])),
        vec![pair("audit-debt-outstanding", "b-id: late")]
    );
    let registered = registered_worktrees("worktree /w/a\nHEAD abc\n\nworktree /w/b\n");
    assert_eq!(registered, texts(&["/w/a", "/w/b"]));
    let mut over = closed("a-id", Closure::Superseded);
    over.worktree = Some("/w/a".into());
    let mut open = change("b-id");
    open.worktree = Some("/w/b".into());
    assert_eq!(
        told(&inspect_closed_worktrees(&vec![over, open], &registered)),
        vec![pair("closed-change-worktree", "a-id [superseded]: /w/a")]
    );
    let circle = vec![
        blocked("a-id", &["b-id"]),
        blocked("b-id", &["a-id"]),
        closed("c-id", Closure::Integrated),
    ];
    let found = inspect_dependencies(&circle).unwrap();
    assert_eq!((found.code, found.detail.as_str()), ("dependency-cycle", "a-id, b-id"));
    assert!(inspect_dependencies(&vec![blocked("a-id", &["b-id"]), change("b-id")]).is_none());
}

#[test]
fn releases_name_active_holds() {
    let set = |id: &str| event(id, Payload::HoldSet { reason: "r".into() });
    let released = |id: &str, hold: Option<&str>| {
        event(
            id,
            Payload::HoldReleased { hold_event_id: hold.map(|h| h.to_string()), reason: None },
        )
    };
    let events = vec![
        set("1"),
        released("2", Some("1")),
        released("3", Some("1")),
        set("4"),
        released("5", None),
        released("6", Some("4")),
    ];
    assert_eq!(
        told(&inspect_hold_releases("a-id", &events)),
        vec![
            pair(
                "hold-release-names-no-hold",
                "a-id: release 3 names 1, which was not an active hold"
            ),
            pair(
                "hold-release-names-no-hold",
                "a-id: release 6 names 4, which was not an active hold"
            ),
        ]
    );
}

#[test]
fn events_of_the_repository_are_looked_at() {
    let file = |read: RepositoryRead| RepositoryFile { event_id: "1".into(), read };
    assert_eq!(
        told(&inspect_repository_event(
            &file(RepositoryRead::InvalidId { error: "bad".into() }),
            "repository"
        )),
        vec![pair("malformed-repository-event", "1: bad")]
    );
    assert_eq!(
        told(&inspect_repository_event(
            &file(RepositoryRead::Malformed { error: "no JSON".into() }),
            "repository"
        )),
        vec![pair("malformed-repository-event", "1: no JSON")]
    );
    let sound = RepositoryRead::Event {
        mapping_error: None,
        scope: Some("repository".into()),
        named: Some("1".into()),
    };
    assert!(inspect_repository_event(&file(sound), "repository").is_empty());
    let odd = RepositoryRead::Event {
        mapping_error: Some("circle".into()),
        scope: None,
        named: Some("2".into()),
    };
    assert_eq!(
        told(&inspect_repository_event(&file(odd), "repository")),
        vec![
            pair("invalid-rewrite-mapping", "1: circle"),
            pair(
                "misscoped-repository-event",
                "1 is stored as a repository event but names change (none)"
            ),
            pair("malformed-repository-event", "1 contains a different event_id"),
        ]
    );
}

#[test]
fn events_of_the_repository_are_read_from_their_bytes() {
    let read = |id_error: Option<&str>, text: &str, typed: Option<&str>, mapping: Option<&str>| {
        told(&inspect_repository_bytes(
            "1",
            &id_error.map(str::to_string),
            &text.as_bytes().to_vec(),
            "no JSON",
            &typed.map(str::to_string),
            &mapping.map(str::to_string),
            "repository",
        ))
    };
    let sound = "{\"change_id\":\"repository\",\"event_id\":\"1\"}";
    assert!(read(None, sound, None, None).is_empty());
    let one = |detail: &str| vec![pair("malformed-repository-event", detail)];
    // One finding for each broken file, whatever else is wrong with it.
    assert_eq!(read(Some("bad"), "{", Some("odd"), Some("circle")), one("1: bad"));
    assert_eq!(read(None, "{", Some("odd"), Some("circle")), one("1: no JSON"));
    assert_eq!(read(None, sound, Some("odd"), Some("circle")), one("1: odd"));
    assert_eq!(
        read(None, "{\"change_id\":\"a-id\",\"event_id\":1}", None, Some("circle")),
        vec![
            pair("invalid-rewrite-mapping", "1: circle"),
            pair(
                "misscoped-repository-event",
                "1 is stored as a repository event but names change a-id"
            ),
            pair("malformed-repository-event", "1 contains a different event_id"),
        ]
    );
    assert_eq!(
        read(None, "[]", None, None),
        vec![
            pair(
                "misscoped-repository-event",
                "1 is stored as a repository event but names change (none)"
            ),
            pair("malformed-repository-event", "1 contains a different event_id"),
        ]
    );

    let stored = |event_id: &str, text: &str| StoredFile {
        event_id: event_id.into(),
        bytes: text.as_bytes().to_vec(),
        id_error: None,
        json_error: "no JSON".into(),
        typed_error: None,
        mapping_error: None,
    };
    let files = Ok(vec![stored("1", sound), stored("2", sound), stored("3", "")]);
    assert_eq!(
        told(&inspect_repository_events(&files, "repository")),
        vec![
            pair("malformed-repository-event", "2 contains a different event_id"),
            pair("malformed-repository-event", "3: no JSON"),
        ]
    );
    assert_eq!(
        told(&inspect_repository_events(&Err("unreadable".into()), "repository")),
        one("unreadable")
    );
    assert_eq!(DOCTOR_SCHEMA, "arc-doctor/1");
}

#[test]
fn what_is_alike_is_told_together() {
    let found = |code: &'static str, detail: &str| Finding { code, detail: detail.into() };
    let advice = vec![
        found("orphaned-retention-ref", "r1"),
        found("audit-debt-outstanding", "a"),
        found("orphaned-retention-ref", "r2"),
        found("audit-debt-outstanding", "b"),
        found("missing-open-branch", "m"),
    ];
    assert_eq!(
        render_advice(&advice, false),
        texts(&[
            "advice:",
            "  orphaned-retention-ref: 2 retention refs do not identify a known patchset; run arc doctor --verbose to list refs",
            "  audit-debt-outstanding: a",
            "  audit-debt-outstanding: b",
            "  missing-open-branch: m",
        ])
    );
    assert_eq!(render_advice(&advice, true).len(), 6);
    assert_eq!(render_advice(&Vec::new(), false), texts(&["advice:", "  (none)"]));
    assert_eq!(render("problems", &Vec::new()), texts(&["problems:", "  (none)"]));
    assert_eq!(
        render("problems", &vec![found("malformed-event", "f")]),
        texts(&["problems:", "  malformed-event: f"])
    );
    assert_eq!(
        grouped_summary("closed-change-worktree", 3).as_deref(),
        Some("3 registered worktrees belong to closed changes; run arc doctor --verbose to list change/path pairs; remove only with git worktree remove <path>")
    );
    assert_eq!(grouped_summary("dependency-cycle", 3), None);
    assert_eq!(exit_code(&Vec::new()), 0);
    assert_eq!(exit_code(&advice), 1);
}

#[test]
fn every_recorded_revision_is_noted() {
    let mut state = closed("a-id", Closure::Integrated);
    state.base = "aaaa".into();
    if let Some(closure) = &mut state.closure {
        closure.integrated_commit = Some("ffff".into());
    }
    let mut patchset = snapshot_of("ps-01", "bbbb");
    patchset.base = "aaaa".into();
    patchset.merge_base = Some("not hex".into());
    state.patchsets = vec![patchset];
    let mut brief = brief_of("B", "x");
    brief.base_revision = Some(" cccc ".into());
    state.briefs = vec![brief];
    state.verifications = vec![VerificationState {
        event_id: "V".into(),
        gate: None,
        command: "true".into(),
        revision: "bbbb".into(),
        result: arc_ledger::model::VerifyResult::Pass,
        attested: false,
    }];
    state.run_revisions = texts(&["bbbb"]);
    state.audit_revisions = texts(&["ffff"]);
    let mut finding = finding_of("F", Severity::Note, false);
    finding.disposition_commits = texts(&["dddd"]);
    state.findings = vec![finding];
    let events = vec![event(
        "1",
        Payload::ForgeChecks { pr_head: "eeee".into(), state: "success".into(), detail: None },
    )];
    let notes = recorded_revisions(&state, &events);
    let seen: Vec<(String, String)> =
        notes.iter().map(|note| (note.revision.clone(), note.referent.clone())).collect();
    assert_eq!(
        seen,
        vec![
            pair("aaaa", "a-id base"),
            pair("bbbb", "a-id ps-01 head"),
            pair("aaaa", "a-id ps-01 base"),
            pair("cccc", "a-id brief base"),
            pair("bbbb", "a-id verification"),
            pair("bbbb", "a-id verification run"),
            pair("ffff", "a-id audit"),
            pair("dddd", "a-id F disposition"),
            pair("ffff", "a-id integration"),
            pair("eeee", "a-id forge checks head"),
        ]
    );
    assert_eq!(wanted_revisions(&notes), texts(&["aaaa", "bbbb", "cccc", "dddd", "eeee", "ffff"]));
    assert_eq!(referents(&notes, "aaaa"), texts(&["a-id base", "a-id ps-01 base"]));
}

#[test]
fn missing_revisions_are_followed() {
    let note = |revision: &str, referent: &str| Note {
        revision: revision.into(),
        referent: referent.into(),
    };
    let notes = vec![note("0123456789", "b"), note("0123456789", "a"), note("cd", "c"), note("ef", "d")];
    let found = inspect_dangling_revisions(
        &notes,
        &texts(&["0123456789", "cd", "ef"]),
        &vec![Some(Fate::Rewritten { successor: "9876543210".into() }), Some(Fate::Dropped), None],
    );
    assert_eq!(
        told(&found),
        vec![
            pair("revision-rewritten", "01234567 was rewritten to 98765432: a, b"),
            pair("revision-dropped", "cd was dropped by a recorded rewrite: c"),
            pair("dangling-revision", "ef is recorded but no longer in this repository: d"),
        ]
    );
}

fn written(detail: &str) -> Probed {
    Probed::Written { detail: detail.into() }
}

#[test]
fn probing_stops_at_the_first_failure() {
    let mut probes: Vec<Probed> = Vec::new();
    let mut names: Vec<&str> = Vec::new();
    while let Some(capability) = next_probe(&probes) {
        names.push(capability.name());
        probes.push(written("x"));
    }
    assert_eq!(names, vec!["store-root", "lock", "events", "git-ref", "commit"]);
    let failing = vec![written("x"), Probed::Blocked { error: "locked".into() }];
    assert_eq!(next_probe(&failing), None);
    assert_eq!(next_probe(&vec![written("x")]), Some(Capability::Lock));

    let here = JournalPlace::Directory { dir: "/j".into() };
    let report = check_writable(&failing, &Signing::Signed, &here);
    let lines: Vec<String> = report.iter().map(check_line).collect();
    assert_eq!(lines, texts(&["ok: store-root", "fail: lock: locked"]));
    assert_eq!(finish(&report), 1);
}

#[test]
fn signing_and_the_journal_decide_nothing() {
    let probes = vec![
        written("a"),
        written("b"),
        written("c"),
        written("skipped: unborn HEAD"),
        written("unsigned commit"),
    ];
    let place = JournalPlace::Outbox { dir: "/j".into(), outbox: "/o".into() };
    let report = check_writable(&probes, &Signing::Failed { error: "no agent".into() }, &place);
    let lines: Vec<String> = report.iter().map(check_line).collect();
    assert_eq!(
        lines,
        texts(&[
            "ok: store-root",
            "ok: lock",
            "ok: events",
            "skipped: unborn HEAD",
            "ok: commit",
            "warn: signing: commit.gpgsign is on and the signature could not be produced: no agent",
            "ok: journal: /j is unwritable: writes spool to /o, file them with `arc journal spool --promote`",
        ])
    );
    assert_eq!(finish(&report), 0);
    let place = JournalPlace::Unresolved { error: "no root".into() };
    let report = check_writable(&probes, &Signing::NotRequired, &place);
    assert_eq!(check_line(&report[5]), "ok: signing: not required (commit.gpgsign is off)");
    assert_eq!(check_line(&report[6]), "ok: journal: unresolved: no root");
}
