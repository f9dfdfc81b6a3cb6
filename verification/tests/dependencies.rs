use arc_ledger::chain::{
    chain, chain_member, chain_plans, chain_review, identity, render_chain, review_window,
    ChainRefusal,
};
use arc_ledger::dependency::{
    carries_tags, changes_blocked_by, dependency_change_status, dependency_status,
    find_unblocked_changes, ready_candidate, resolve_supersession, SupersessionResolution,
};
use arc_ledger::graph::{dependency_order, dependency_reaches};
use arc_ledger::model::{Closure, Severity, Verdict, VerifyResult};
use arc_ledger::state::{
    Brief, ChangeState, ClaimIdentity, ClaimState, ClaimTiming, ClosureState, FindingState,
    HoldState, Patchset, VerdictState, VerificationState,
};
use arc_ledger::time::Timestamp;

fn at(seconds: i64) -> Timestamp {
    Timestamp::new(1_000_000 + seconds, 0).unwrap()
}

fn change(id: &str) -> ChangeState {
    ChangeState {
        change_id: id.into(),
        slug: id.trim_end_matches("-id").into(),
        title: id.into(),
        profile: "local".into(),
        iterating: false,
        target_branch: "master".into(),
        branch: format!("arc/{id}"),
        base: "base".into(),
        worktree: None,
        opened_by: "tester".into(),
        opened_harness: Some("test".into()),
        journal_ref: None,
        blocked_by: Vec::new(),
        tags: Vec::new(),
        assigned_to: None,
        priority: 0,
        opened_at: at(0),
        patchsets: Vec::new(),
        briefs: Vec::new(),
        findings: Vec::new(),
        audit_findings: Vec::new(),
        verdicts: Vec::new(),
        authority: None,
        verifications: Vec::new(),
        run_revisions: Vec::new(),
        audit_revisions: Vec::new(),
        claim: None,
        holds: Vec::new(),
        closure: None,
        changelog: None,
        messages: Vec::new(),
    }
}

fn closed(id: &str, outcome: Closure) -> ChangeState {
    let mut state = change(id);
    state.closure = Some(ClosureState {
        outcome,
        integrated_commit: if outcome == Closure::Integrated {
            Some(format!("commit-{id}"))
        } else {
            None
        },
        superseded_by: None,
        target_before: None,
        event_id: format!("closed-{id}"),
        created_at: at(100),
    });
    state
}

fn blocked(id: &str, by: &[&str]) -> ChangeState {
    let mut state = change(id);
    state.blocked_by = by.iter().map(|id| (*id).into()).collect();
    state
}

fn owner(actor: &str) -> ClaimIdentity {
    ClaimIdentity {
        actor: actor.into(),
        harness: "cli".into(),
        session: "one".into(),
    }
}

fn held(claim_id: &str, actor: &str) -> ClaimState {
    ClaimState {
        claim_id: claim_id.into(),
        owner: owner(actor),
    }
}

fn live() -> ClaimTiming {
    ClaimTiming {
        active: true,
        stale: false,
        expired: false,
        stage: "implementing".into(),
    }
}

fn no_claim() -> ClaimTiming {
    ClaimTiming {
        active: false,
        stale: false,
        expired: false,
        stage: "started".into(),
    }
}

fn texts(values: &[&str]) -> Vec<String> {
    values.iter().map(|value| value.to_string()).collect()
}

fn snapshot_of(id: &str, head: &str) -> Patchset {
    Patchset {
        id: id.into(),
        base: "base".into(),
        head: head.into(),
        merge_base: None,
        actor: "writer".into(),
        on_behalf_of: None,
        brief_ref: None,
        brief_version: None,
        event_id: format!("event-{id}"),
    }
}

fn verdict_on(id: &str, verdict: Verdict, actor: &str) -> VerdictState {
    VerdictState {
        event_id: format!("verdict-{id}-{actor}"),
        patchset_id: id.into(),
        verdict,
        causes: Vec::new(),
        body: None,
        actor: actor.into(),
        on_behalf_of: None,
        model: None,
        created_at: at(10),
        provisional: None,
    }
}

fn finding_of(id: &str, severity: Severity, blocking: bool) -> FindingState {
    FindingState {
        finding_id: id.into(),
        origin_event: format!("origin-{id}"),
        blocking,
        severity,
        summary: format!("summary of {id}"),
        body: None,
        patchset_id: None,
        anchor: None,
        status: None,
        tips: Vec::new(),
        disposition_commits: Vec::new(),
    }
}

fn brief_of(event_id: &str, body: &str) -> Brief {
    Brief {
        event_id: event_id.into(),
        ts: at(0),
        actor: "lead".into(),
        on_behalf_of: None,
        title: None,
        body: body.into(),
        base_revision: None,
        acceptance_probes: Vec::new(),
        plan_ref: None,
        plan_slice: None,
    }
}

fn hold(id: &str) -> HoldState {
    HoldState {
        hold_event_id: id.into(),
        reason: "waiting".into(),
        held_by: "lead".into(),
    }
}

fn superseded(id: &str, by: &str) -> ChangeState {
    let mut state = closed(id, Closure::Superseded);
    state.closure.as_mut().unwrap().superseded_by = Some(by.into());
    state
}

fn ready_work() -> Vec<ChangeState> {
    let mut waiting = change("d-id");
    waiting.holds.push(hold("01HOLD"));
    vec![
        closed("a-id", Closure::Integrated),
        blocked("b-id", &["a-id"]),
        blocked("c-id", &["b-id"]),
        waiting,
        closed("e-id", Closure::Abandoned),
        change("f-id"),
    ]
}

fn idle(changes: &Vec<ChangeState>) -> Vec<ClaimTiming> {
    changes.iter().map(|_| no_claim()).collect()
}

#[test]
fn commands_find_unblocked_changes_returns_only_open_ready_work() {
    let states = ready_work();
    let alternatives = find_unblocked_changes("c-id", &states, &idle(&states));
    assert_eq!(
        alternatives
            .iter()
            .map(|alternative| alternative.change_id.as_str())
            .collect::<Vec<_>>(),
        vec!["b-id", "f-id"]
    );
    assert_eq!(
        alternatives[0].reason,
        "all blockers integrated, ready to work"
    );
    assert_eq!(alternatives[1].reason, "no blockers, independent work");
}

#[test]
fn mod_find_unblocked_changes_returns_only_open_ready_work() {
    let mut states = ready_work();
    states[3].holds[0].reason = "waiting for user".into();
    states[3].holds[0].held_by = "lead".into();
    let alternatives = find_unblocked_changes("c-id", &states, &idle(&states));
    assert_eq!(
        alternatives
            .iter()
            .map(|alternative| alternative.change_id.as_str())
            .collect::<Vec<_>>(),
        vec!["b-id", "f-id"]
    );
    assert_eq!(
        alternatives[0].reason,
        "all blockers integrated, ready to work"
    );
    assert_eq!(alternatives[1].reason, "no blockers, independent work");
}

#[test]
fn alternatives_are_ordered_by_priority_and_then_by_age() {
    let mut late = change("a-id");
    late.opened_at = at(50);
    let mut early = change("b-id");
    early.opened_at = at(10);
    let mut urgent = change("c-id");
    urgent.opened_at = at(90);
    urgent.priority = 5;
    let mut taken = change("d-id");
    taken.claim = Some(held("claim", "someone"));
    let states = vec![late, early, urgent, taken];
    let mut timings = idle(&states);
    timings[3] = live();
    let ids: Vec<String> = find_unblocked_changes("x", &states, &timings)
        .into_iter()
        .map(|alternative| alternative.change_id)
        .collect();
    assert_eq!(ids, vec!["c-id", "b-id", "a-id"]);
    // A stale claim keeps nobody away.
    timings[3].stale = true;
    assert_eq!(find_unblocked_changes("x", &states, &timings).len(), 4);
    assert_eq!(ready_candidate(&states, &Vec::new(), &timings), Some(2));
    assert_eq!(ready_candidate(&states, &texts(&["none"]), &timings), None);
}

#[test]
fn supersession_is_followed_to_its_end() {
    let states = vec![
        superseded("a-id", "b-id"),
        superseded("b-id", "c-id"),
        closed("c-id", Closure::Integrated),
        superseded("d-id", "e-id"),
        superseded("e-id", "d-id"),
        superseded("f-id", "g-id"),
        change("h-id"),
    ];
    assert_eq!(resolve_supersession(&states, "a-id"), SupersessionResolution::Integrated);
    assert_eq!(resolve_supersession(&states, "d-id"), SupersessionResolution::Wedged);
    assert_eq!(resolve_supersession(&states, "f-id"), SupersessionResolution::Wedged);
    assert_eq!(resolve_supersession(&states, "h-id"), SupersessionResolution::Wedged);
    let status = dependency_change_status(&states, "a-id");
    assert_eq!((status.status.as_str(), status.integrated), ("superseded-integrated", true));
    let status = dependency_change_status(&states, "d-id");
    assert_eq!((status.status.as_str(), status.integrated), ("wedged", false));
    assert_eq!(
        status.recovery.as_deref(),
        Some("prerequisite closed without integration: clear or retarget with arc metadata")
    );
    let status = dependency_change_status(&states, "zz");
    assert_eq!((status.status.as_str(), status.slug.as_str()), ("missing", "zz"));
    let status = dependency_change_status(&states, "h-id");
    assert_eq!((status.status.as_str(), status.slug.as_str()), ("open", "h"));
    let status = dependency_change_status(&states, "c-id");
    assert_eq!(status.status, "integrated");
}

#[test]
fn one_open_blocker_blocks() {
    let states = vec![
        closed("a-id", Closure::Integrated),
        change("b-id"),
        blocked("c-id", &["a-id", "b-id"]),
        blocked("d-id", &["a-id"]),
    ];
    let status = dependency_status(&states[2], &states);
    assert!(status.blocked);
    assert_eq!(status.blockers_ready.len(), 2);
    assert!(!dependency_status(&states[3], &states).blocked);
    assert_eq!(changes_blocked_by("a-id", &states), vec!["c-id", "d-id"]);
    assert!(changes_blocked_by("d-id", &states).is_empty());
    let mut tagged = change("a-id");
    tagged.tags = texts(&["x", "y"]);
    assert!(carries_tags(&tagged, &texts(&["y"])));
    assert!(!carries_tags(&tagged, &texts(&["y", "z"])));
}

#[test]
fn prerequisites_reach_through_one_another() {
    let states = vec![
        change("a-id"),
        blocked("b-id", &["a-id"]),
        blocked("c-id", &["b-id"]),
    ];
    assert!(dependency_reaches("c-id", "a-id", &states));
    assert!(dependency_reaches("c-id", "c-id", &states));
    assert!(!dependency_reaches("a-id", "c-id", &states));
}

#[test]
fn prerequisites_come_before_what_waits_for_them() {
    let states = vec![
        blocked("a-id", &["c-id"]),
        change("b-id"),
        blocked("c-id", &["b-id", "elsewhere"]),
    ];
    assert_eq!(dependency_order(&states, &vec![0, 1, 2]).ok(), Some(vec![1, 2, 0]));
    let circle = vec![blocked("a-id", &["b-id"]), blocked("b-id", &["a-id"])];
    assert!(dependency_order(&circle, &vec![0, 1]).is_err());
}

#[test]
fn chains_tell_who_looked_at_what_shipped() {
    let mut first = change("a-id");
    first.tags = texts(&["x"]);
    first.journal_ref = Some("first-plan.md".into());
    first.patchsets = vec![snapshot_of("ps-01", "h1"), snapshot_of("ps-02", "h2")];
    let mut early = brief_of("brief-1", "body");
    early.plan_ref = Some("second-plan.md".into());
    early.plan_slice = Some("one".into());
    early.base_revision = Some("base".into());
    early.ts = at(5);
    first.briefs.push(early);
    first.verdicts = vec![
        verdict_on("ps-01", Verdict::ChangesRequested, "lead"),
        verdict_on("ps-02", Verdict::Approved, "other"),
    ];
    let mut seen = finding_of("f-1", Severity::Minor, false);
    seen.patchset_id = Some("ps-01".into());
    first.findings.push(seen);
    first.verifications.push(VerificationState {
        event_id: "v".into(),
        gate: None,
        command: "true".into(),
        revision: "h2".into(),
        result: VerifyResult::Pass,
        attested: false,
    });
    let mut second = blocked("b-id", &["a-id"]);
    second.tags = texts(&["x"]);
    let states = vec![first, second];
    assert_eq!(identity(&"actor".to_string(), &Some("subject".into())), "subject");
    let window = review_window(&states[0], 1);
    assert_eq!(
        (window.verdicts, window.findings, window.ad_hoc_verifications),
        (1, 0, 1)
    );
    assert_eq!(window.identities, vec!["other"]);
    let review = chain_review(&states[0], true);
    assert_eq!(review.subject.as_deref(), Some("writer"));
    assert_eq!(review.brief_author.as_deref(), Some("lead"));
    assert_eq!(review.reviewed_only_by_brief_author, Some(false));
    assert!(review.non_self_verdict && review.debt_outstanding);
    assert_eq!(review.lifetime.verdicts, 2);
    assert_eq!(review.stale_reviewers, 1);
    let member = chain_member(&states[1], true, false);
    assert_eq!(member.state, "open");
    assert_eq!(member.review.unwrap().subject, None);
    let plans = chain_plans(&states, &vec![0, 1]);
    let named: Vec<(&str, bool)> = plans
        .iter()
        .map(|plan| (plan.plan_ref.as_str(), plan.current))
        .collect();
    assert_eq!(named, vec![("first-plan.md", false), ("second-plan.md", true)]);
    let found = chain(&states, &idle(&states), " x ", true, &vec![false, false]).ok().unwrap();
    assert_eq!(found.tag, "x");
    assert_eq!(found.next_ready.as_deref(), Some("a-id"));
    assert_eq!(
        render_chain(&found),
        vec![
            "Chain: x",
            "Members:",
            "- a-id — a-id [open]",
            "  plan: second-plan.md (one)",
            "  review: 2 verdicts (1 at final), 2 identities, 1 findings, 1 ad hoc verifications",
            "- b-id — b-id [open]",
            "  review: 0 verdicts (0 at final), 0 identities, 0 findings, 0 ad hoc verifications",
            "Plans:",
            "- first-plan.md",
            "- second-plan.md (current)",
            "Next ready: a-id",
        ]
    );
    assert!(matches!(
        chain(&states, &idle(&states), "  ", false, &vec![false, false]),
        Err(ChainRefusal::InvalidTag)
    ));
    let mut circle = vec![blocked("a-id", &["b-id"]), blocked("b-id", &["a-id"])];
    circle[0].tags = texts(&["x"]);
    circle[1].tags = texts(&["x"]);
    assert!(matches!(
        chain(&circle, &idle(&circle), "x", false, &vec![false, false]),
        Err(ChainRefusal::DependencyCycle)
    ));
}
