use arc_ledger::begin::worktree_name;
use arc_ledger::bundle::{event_file_bytes, event_type};
use arc_ledger::changelog::{
    check_changelog_config, ChangelogConfig, ChangelogConfigError, TargetError,
};
use arc_ledger::claims::{claim_conflict, ClaimConflict};
use arc_ledger::event::{NormalizedGate, NormalizedPolicy, Payload};
use arc_ledger::fork::{render_forks, ForkEntry};
use arc_ledger::import::classify_import_events;
use arc_ledger::inbox::{render_worktree_accounting, WorktreeAccounting, WorktreeUsage};
use arc_ledger::integrate::{BasisRefusal, ClosedBehavior, DebtStanding, MergeRefusal};
use arc_ledger::merge::{
    authorize, check_made, confirm, decide, merged_head, prepare, record, MadeMerge,
    PreparedMerge, Reading, Stop, Target,
};
use arc_ledger::model::{Closure, Verdict};
use arc_ledger::state::{
    ChangeState, ClaimIdentity, ClaimState, ClaimTiming, ClosureState, GateReport, Patchset,
    StatusReport, VerdictState,
};
use arc_ledger::time::Timestamp;

fn at(seconds: i64) -> Timestamp {
    Timestamp::new(1_000_000 + seconds, 0).unwrap()
}

fn change(id: &str) -> ChangeState {
    ChangeState {
        change_id: id.into(),
        slug: id.trim_end_matches("-id").into(),
        title: id.into(),
        profile: "local".into(),
        iterating: false,
        target_branch: "master".into(),
        branch: format!("arc/{id}"),
        base: "base".into(),
        worktree: None,
        opened_by: "tester".into(),
        opened_harness: Some("test".into()),
        journal_ref: None,
        blocked_by: Vec::new(),
        tags: Vec::new(),
        assigned_to: None,
        priority: 0,
        opened_at: at(0),
        patchsets: Vec::new(),
        briefs: Vec::new(),
        findings: Vec::new(),
        audit_findings: Vec::new(),
        verdicts: Vec::new(),
        authority: None,
        verifications: Vec::new(),
        run_revisions: Vec::new(),
        audit_revisions: Vec::new(),
        claim: None,
        holds: Vec::new(),
        closure: None,
        changelog: None,
        messages: Vec::new(),
    }
}

fn closed(id: &str, outcome: Closure) -> ChangeState {
    let mut state = change(id);
    state.closure = Some(ClosureState {
        outcome,
        integrated_commit: if outcome == Closure::Integrated {
            Some(format!("commit-{id}"))
        } else {
            None
        },
        superseded_by: None,
        target_before: None,
        event_id: format!("closed-{id}"),
        created_at: at(100),
    });
    state
}

fn owner(actor: &str) -> ClaimIdentity {
    ClaimIdentity {
        actor: actor.into(),
        harness: "cli".into(),
        session: "one".into(),
    }
}

fn held(claim_id: &str, actor: &str) -> ClaimState {
    ClaimState {
        claim_id: claim_id.into(),
        owner: owner(actor),
    }
}

fn live() -> ClaimTiming {
    ClaimTiming {
        active: true,
        stale: false,
        expired: false,
        stage: "implementing".into(),
    }
}

fn texts(values: &[&str]) -> Vec<String> {
    values.iter().map(|value| value.to_string()).collect()
}

fn snapshot_of(id: &str, head: &str) -> Patchset {
    Patchset {
        id: id.into(),
        base: "base".into(),
        head: head.into(),
        merge_base: None,
        actor: "writer".into(),
        on_behalf_of: None,
        brief_ref: None,
        brief_version: None,
        event_id: format!("event-{id}"),
    }
}

fn verdict_on(id: &str, verdict: Verdict, actor: &str) -> VerdictState {
    VerdictState {
        event_id: format!("verdict-{id}-{actor}"),
        patchset_id: id.into(),
        verdict,
        causes: Vec::new(),
        body: None,
        actor: actor.into(),
        on_behalf_of: None,
        model: None,
        created_at: at(10),
        provisional: None,
    }
}

fn report_of(exit_code: i32, ready: bool) -> StatusReport {
    StatusReport {
        integrate_ready: ready,
        exit_code,
        ready_reason: "ready".into(),
        next_action: "next".into(),
        gates: Vec::new(),
        open_blocking_findings: Vec::new(),
        holds: Vec::new(),
        danger: "none".into(),
        approval_waived_by_debt: false,
    }
}

fn json(text: &str) -> serde_json::Value {
    serde_json::from_str(text).unwrap()
}

fn approved() -> ChangeState {
    let mut state = change("a-id");
    state.patchsets = vec![snapshot_of("ps-01", "h1"), snapshot_of("ps-02", "h2")];
    state.verdicts = vec![verdict_on("ps-02", Verdict::Approved, "one")];
    state
}

fn reading() -> Reading {
    let mut report = report_of(0, true);
    report.gates = vec![GateReport { name: "test".into(), evidence_event_id: Some("E".into()) }];
    Reading {
        report,
        debt: DebtStanding { waives_latest_patchset: false, event_id: None },
        gates: vec![NormalizedGate {
            name: "test".into(),
            command: "make test".into(),
            profiles: texts(&["local"]),
            timeout: None,
        }],
        policy: NormalizedPolicy {
            forbid_self_approval: false,
            require_declared_actor: false,
            provenance_git_identity: "off".into(),
        },
    }
}

fn target() -> Target {
    Target { clean: Some(true), head: "old".into(), merged_tree: Some("tree".into()) }
}

fn made(parents: &[&str], tree: &str) -> Option<MadeMerge> {
    Some(MadeMerge { commit: "merged".into(), parents: texts(parents), tree: tree.into() })
}

fn prepared(state: &ChangeState) -> PreparedMerge {
    let changes = vec![approved()];
    let ready = decide(state, &report_of(0, true), ClosedBehavior::Refuse).unwrap();
    let merge = authorize(ready, state, &changes, reading()).unwrap();
    let merge = confirm(merge, state, &changes, reading()).unwrap();
    prepare(merge, target()).unwrap()
}

#[test]
fn an_integration_goes_through_every_step() {
    let state = approved();
    let merge = prepared(&state);
    assert_eq!(merged_head(&merge, &state), "h2");
    let merge = check_made(merge, &state, made(&["old", "h2"], "tree")).unwrap();
    match record(merge, &state, "master") {
        Payload::ChangeIntegrated {
            integrated_commit,
            source_patchset_id,
            source_head,
            target_branch,
            target_before,
            authorization,
        } => {
            assert_eq!(integrated_commit, "merged");
            assert_eq!((source_patchset_id.as_str(), source_head.as_str()), ("ps-02", "h2"));
            assert_eq!((target_branch.as_str(), target_before.as_str()), ("master", "old"));
            let basis = authorization.unwrap();
            assert_eq!(basis.verdict_event_id.as_deref(), Some("verdict-ps-02-one"));
        }
        _ => panic!("an integration is recorded"),
    }
}

#[test]
fn an_integration_starts_only_where_the_change_is_ready() {
    let mut state = approved();
    assert_eq!(
        decide(&state, &report_of(7, false), ClosedBehavior::Refuse).err(),
        Some(Stop::NotReady { exit_code: 7 })
    );
    assert_eq!(decide(&state, &report_of(0, true), ClosedBehavior::Refuse).unwrap().patchset, 1);
    state.patchsets = Vec::new();
    assert_eq!(
        decide(&state, &report_of(0, true), ClosedBehavior::Refuse).err(),
        Some(Stop::NoPatchset)
    );
    let state = closed("a-id", Closure::Integrated);
    assert_eq!(
        decide(&state, &report_of(0, true), ClosedBehavior::SkipTagged).err(),
        Some(Stop::Skipped)
    );
}

#[test]
fn a_verdict_on_an_earlier_patchset_authorizes_nothing() {
    let mut state = approved();
    state.verdicts = vec![verdict_on("ps-01", Verdict::Approved, "one")];
    let changes = vec![approved()];
    let ready = decide(&state, &report_of(0, true), ClosedBehavior::Refuse).unwrap();
    assert_eq!(
        authorize(ready, &state, &changes, reading()).err(),
        Some(Stop::Basis(BasisRefusal::Unauthorized))
    );
}

#[test]
fn a_merge_is_made_only_where_nothing_moved() {
    let state = approved();
    let changes = vec![approved()];
    let authorized = || {
        let ready = decide(&state, &report_of(0, true), ClosedBehavior::Refuse).unwrap();
        authorize(ready, &state, &changes, reading()).unwrap()
    };
    let mut moved = reading();
    moved.gates[0].command = "make fast".into();
    assert_eq!(confirm(authorized(), &state, &changes, moved).err(), Some(Stop::Unsettled));
    let mut unready = reading();
    unready.report.integrate_ready = false;
    assert_eq!(confirm(authorized(), &state, &changes, unready).err(), Some(Stop::Unsettled));
    let mut bare = reading();
    bare.report.gates[0].evidence_event_id = None;
    assert_eq!(
        confirm(authorized(), &state, &changes, bare).err(),
        Some(Stop::Basis(BasisRefusal::NoEvidence { gate: 0 }))
    );
    let confirmed = || confirm(authorized(), &state, &changes, reading()).unwrap();
    let absent = Target { clean: None, head: "old".into(), merged_tree: None };
    assert_eq!(prepare(confirmed(), absent).err(), Some(Stop::NoWorktree));
    let dirty = Target { clean: Some(false), head: "old".into(), merged_tree: None };
    assert_eq!(prepare(confirmed(), dirty).err(), Some(Stop::TargetNotClean));
}

#[test]
fn a_merge_that_carries_anything_else_is_not_recorded() {
    let state = approved();
    assert_eq!(check_made(prepared(&state), &state, None).err(), Some(Stop::MergeFailed));
    assert_eq!(
        check_made(prepared(&state), &state, made(&["old", "h1"], "tree")).err(),
        Some(Stop::Refused(MergeRefusal::UnexpectedParents))
    );
    assert_eq!(
        check_made(prepared(&state), &state, made(&["old", "h2"], "other")).err(),
        Some(Stop::Refused(MergeRefusal::UnevaluatedTree))
    );
}

#[test]
fn taking_a_bundle_again_adds_nothing() {
    let values = vec![
        json("{\"event_id\":\"1\",\"n\":-3,\"list\":[null,true,{\"k\":\"\\u0001\\\"é\"}]}"),
        json("{\"event_id\":\"2\",\"max\":18446744073709551615,\"min\":-9223372036854775808}"),
    ];
    let stored = values.iter().map(|value| Some(event_file_bytes(value))).collect();
    let plan = classify_import_events(&texts(&["1", "2"]), &values, &stored);
    assert_eq!(plan.skipped_events, vec!["1", "2"]);
    assert!(plan.new_events.is_empty() && plan.conflicts.is_empty());
}

#[test]
fn open_forks_are_told_where_a_session_begins() {
    let fork = |slug: &str, retired: Option<&str>, worktree: Option<&str>| ForkEntry {
        slug: slug.into(),
        branch: format!("fork/{slug}"),
        worktree: worktree.map(str::to_string),
        intent: None,
        retired: retired.map(str::to_string),
        ahead: if retired.is_none() { Some(3) } else { None },
        base_branch: "master".into(),
    };
    let entries = vec![
        fork("a", None, Some("/w/a")),
        fork("b", Some("done"), None),
        fork("c", None, None),
    ];
    assert_eq!(
        render_forks(&entries),
        vec!["forks (2):", "  a  fork/a  +3 over master (/w/a)", "  c  fork/c  +3 over master"]
    );
    assert!(render_forks(&vec![fork("b", Some("done"), None)]).is_empty());
}

#[test]
fn worktrees_are_accounted_for() {
    let mut accounting = WorktreeAccounting { total: Some("3.0 GiB".into()), changes: Vec::new() };
    assert!(render_worktree_accounting(&accounting).is_empty());
    accounting.changes = vec![
        WorktreeUsage { change_id: "a".into(), size: Some("3.0 GiB".into()), path: "/w/a".into() },
        WorktreeUsage { change_id: "b".into(), size: None, path: "/w/b".into() },
    ];
    assert_eq!(
        render_worktree_accounting(&accounting),
        vec![
            "worktrees: 3.0 GiB across 2 open worktree(s)",
            "  a  3.0 GiB  /w/a",
            "  b  size unknown  /w/b",
        ]
    );
    accounting.total = None;
    assert_eq!(
        render_worktree_accounting(&accounting)[0],
        "worktrees: 2 open, size unavailable"
    );
}

#[test]
fn claim_conflicts_are_explained() {
    assert_eq!(
        claim_conflict("claim is already held", &held("c", "kit"), &live(), at(0)),
        "claim conflict: claim is already held; owner=kit harness=cli session=one \
         stage=implementing expires=1970-01-12 13:46:40 UTC"
    );
    assert_eq!(
        ClaimConflict::HeldStale.advice(),
        "--takeover would displace this stale claim"
    );
    assert_eq!(
        ClaimConflict::Held.advice(),
        "--takeover is unavailable because the claim is not yet stale"
    );
    assert_eq!(
        ClaimConflict::NotAbandoned.advice(),
        "rescue --take requires a claim owned by another identity that is stale or expired"
    );
}

#[test]
fn events_and_worktrees_have_names() {
    let release = Payload::ClaimReleased { claim_id: "c".into() };
    assert_eq!(event_type(&release), "claim-release");
    assert_eq!(worktree_name("radio", "refill"), "radio-refill");
}

#[test]
fn changelogs_are_kept_in_one_way() {
    let config = ChangelogConfig::default();
    assert_eq!(check_changelog_config(&config).ok().as_deref(), Some("CHANGELOG.md"));
    let nested = ChangelogConfig {
        target: "./docs/../NEWS.md".into(),
        renderer: "keep-a-changelog".into(),
    };
    assert_eq!(check_changelog_config(&nested).ok().as_deref(), Some("NEWS.md"));
    let outside = ChangelogConfig {
        target: "../NEWS.md".into(),
        renderer: "keep-a-changelog".into(),
    };
    assert_eq!(
        check_changelog_config(&outside).err(),
        Some(ChangelogConfigError::Target(TargetError::OutsideRepository))
    );
    let other = ChangelogConfig { target: "../NEWS.md".into(), renderer: "plain".into() };
    assert_eq!(
        check_changelog_config(&other).err(),
        Some(ChangelogConfigError::UnsupportedRenderer)
    );
}
