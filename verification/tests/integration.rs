use arc_ledger::closing::{
    assert_integration, asserted_patchset, check, check_selection, check_tagged, close,
    closing_payload, release_hold, release_retained_trees, release_retention_refs, resolve_hold,
    AssertionFacts, AssertionRefusal, CheckRefusal, CheckRequest, CloseArgs, CloseRefusal,
    CloseRequest, HoldRefusal,
};
use arc_ledger::event::{AuthorizationBasis, NormalizedGate, NormalizedPolicy, Payload};
use arc_ledger::integrate::{
    authorization_basis, begin_integration, check_merge, confirm_authorization, dry_run_exit_code,
    dry_run_step, dry_run_text, find_approval, foreign_claim, integrate, integrate_tagged,
    integration_payload, merge_message, not_ready_line, readiness, select_tagged,
    standing_prerequisite, BasisRefusal, ClosedBehavior, DebtStanding, DryRunRefusal, DryRunStep,
    IntegrateRefusal, IntegrateRequest, IntegrationStart, MergeRefusal, Readiness, TaggedRefusal,
};
use arc_ledger::model::{Closure, Verdict};
use arc_ledger::state::{
    ChangeState, ClaimIdentity, ClaimState, ClaimTiming, ClosureState, GateReport, HoldState,
    Patchset, StatusReport, VerdictState,
};
use arc_ledger::time::Timestamp;

fn at(seconds: i64) -> Timestamp {
    Timestamp::new(1_000_000 + seconds, 0).unwrap()
}

fn change(id: &str) -> ChangeState {
    ChangeState {
        change_id: id.into(),
        slug: id.trim_end_matches("-id").into(),
        title: id.into(),
        profile: "local".into(),
        iterating: false,
        target_branch: "master".into(),
        branch: format!("arc/{id}"),
        base: "base".into(),
        worktree: None,
        opened_by: "tester".into(),
        opened_harness: Some("test".into()),
        journal_ref: None,
        blocked_by: Vec::new(),
        tags: Vec::new(),
        assigned_to: None,
        priority: 0,
        opened_at: at(0),
        patchsets: Vec::new(),
        briefs: Vec::new(),
        findings: Vec::new(),
        audit_findings: Vec::new(),
        verdicts: Vec::new(),
        authority: None,
        verifications: Vec::new(),
        run_revisions: Vec::new(),
        audit_revisions: Vec::new(),
        claim: None,
        holds: Vec::new(),
        closure: None,
        changelog: None,
        messages: Vec::new(),
    }
}

fn closed(id: &str, outcome: Closure) -> ChangeState {
    let mut state = change(id);
    state.closure = Some(ClosureState {
        outcome,
        integrated_commit: if outcome == Closure::Integrated {
            Some(format!("commit-{id}"))
        } else {
            None
        },
        superseded_by: None,
        target_before: None,
        event_id: format!("closed-{id}"),
        created_at: at(100),
    });
    state
}

fn blocked(id: &str, by: &[&str]) -> ChangeState {
    let mut state = change(id);
    state.blocked_by = by.iter().map(|id| (*id).into()).collect();
    state
}

fn owner(actor: &str) -> ClaimIdentity {
    ClaimIdentity {
        actor: actor.into(),
        harness: "cli".into(),
        session: "one".into(),
    }
}

fn held(claim_id: &str, actor: &str) -> ClaimState {
    ClaimState {
        claim_id: claim_id.into(),
        owner: owner(actor),
    }
}

fn live() -> ClaimTiming {
    ClaimTiming {
        active: true,
        stale: false,
        expired: false,
        stage: "implementing".into(),
    }
}

fn no_claim() -> ClaimTiming {
    ClaimTiming {
        active: false,
        stale: false,
        expired: false,
        stage: "started".into(),
    }
}

fn texts(values: &[&str]) -> Vec<String> {
    values.iter().map(|value| value.to_string()).collect()
}

fn snapshot_of(id: &str, head: &str) -> Patchset {
    Patchset {
        id: id.into(),
        base: "base".into(),
        head: head.into(),
        merge_base: None,
        actor: "writer".into(),
        on_behalf_of: None,
        brief_ref: None,
        brief_version: None,
        event_id: format!("event-{id}"),
    }
}

fn verdict_on(id: &str, verdict: Verdict, actor: &str) -> VerdictState {
    VerdictState {
        event_id: format!("verdict-{id}-{actor}"),
        patchset_id: id.into(),
        verdict,
        causes: Vec::new(),
        body: None,
        actor: actor.into(),
        on_behalf_of: None,
        model: None,
        created_at: at(10),
        provisional: None,
    }
}

fn report_of(exit_code: i32, ready: bool) -> StatusReport {
    StatusReport {
        integrate_ready: ready,
        exit_code,
        ready_reason: "ready".into(),
        next_action: "next".into(),
        gates: Vec::new(),
        open_blocking_findings: Vec::new(),
        holds: Vec::new(),
        danger: "none".into(),
        approval_waived_by_debt: false,
    }
}

fn hold(id: &str) -> HoldState {
    HoldState {
        hold_event_id: id.into(),
        reason: "waiting".into(),
        held_by: "lead".into(),
    }
}

#[test]
fn one_change_or_some_tags_are_integrated() {
    let none: Vec<String> = Vec::new();
    let tags = texts(&["web", " api "]);
    assert!(matches!(
        integrate(false, Some("a"), &none, &None, &None, true),
        Ok(IntegrateRequest::One)
    ));
    match integrate(false, None, &tags, &None, &None, false) {
        Ok(IntegrateRequest::Tagged { tags }) => assert_eq!(tags, texts(&["api", "web"])),
        _ => panic!("tags are accepted"),
    }
    assert!(matches!(
        integrate(true, Some("a"), &none, &None, &None, false),
        Err(IntegrateRefusal::Fork)
    ));
    assert!(matches!(
        integrate(false, Some("a"), &tags, &None, &None, false),
        Err(IntegrateRefusal::ChangeAndTags)
    ));
    assert!(matches!(
        integrate(false, None, &none, &None, &None, false),
        Err(IntegrateRefusal::Nothing)
    ));
    assert!(matches!(
        integrate(false, None, &tags, &Some("next".into()), &None, false),
        Err(IntegrateRefusal::IntoNeedsOneChange)
    ));
    assert!(matches!(
        integrate(false, None, &tags, &None, &Some("m".into()), false),
        Err(IntegrateRefusal::MessageNeedsOneChange)
    ));
    assert!(matches!(
        integrate(false, None, &tags, &None, &None, true),
        Err(IntegrateRefusal::DryRunNeedsOneChange)
    ));
    match integrate(false, None, &texts(&["ok", "a b"]), &None, &None, false) {
        Err(IntegrateRefusal::InvalidTag { tag }) => assert_eq!(tag, "a b"),
        _ => panic!("a tag has no white space in it"),
    }
}

#[test]
fn iterating_changes_do_not_integrate() {
    let mut state = change("a-id");
    match begin_integration(&state, &None, false) {
        IntegrationStart::Proceed { target } => assert_eq!(target, "master"),
        _ => panic!("it proceeds"),
    }
    match begin_integration(&state, &Some("next".into()), true) {
        IntegrationStart::DryRun { target } => assert_eq!(target, "next"),
        _ => panic!("it is a dry run"),
    }
    state.iterating = true;
    assert!(matches!(begin_integration(&state, &None, false), IntegrationStart::Iterating));
}

#[test]
fn a_foreign_claim_is_told() {
    let mut state = change("a-id");
    assert!(!foreign_claim(&state, &live(), &owner("lead")));
    state.claim = Some(held("C", "writer"));
    assert!(foreign_claim(&state, &live(), &owner("lead")));
    assert!(!foreign_claim(&state, &live(), &owner("writer")));
    assert!(!foreign_claim(&state, &no_claim(), &owner("lead")));
}

#[test]
fn the_latest_patchset_is_merged_when_ready() {
    let mut state = change("a-id");
    let ready = report_of(0, true);
    assert_eq!(readiness(&state, &ready, ClosedBehavior::Refuse), Readiness::NoPatchset);
    state.patchsets = vec![snapshot_of("ps-01", "h1"), snapshot_of("ps-02", "h2")];
    assert_eq!(
        readiness(&state, &ready, ClosedBehavior::Refuse),
        Readiness::Ready { patchset: 1 }
    );
    assert_eq!(
        readiness(&state, &report_of(3, false), ClosedBehavior::Refuse),
        Readiness::NotReady { exit_code: 3 }
    );
    let over = closed("a-id", Closure::Integrated);
    assert_eq!(
        readiness(&over, &report_of(4, false), ClosedBehavior::SkipTagged),
        Readiness::Skipped
    );
    assert_eq!(
        readiness(&over, &report_of(4, false), ClosedBehavior::Refuse),
        Readiness::NotReady { exit_code: 4 }
    );
}

fn superseded(id: &str, by: &str) -> ChangeState {
    let mut state = closed(id, Closure::Superseded);
    if let Some(closure) = &mut state.closure {
        closure.superseded_by = Some(by.into());
    }
    state
}

#[test]
fn prerequisites_are_followed_along_supersessions() {
    let changes = vec![
        superseded("a-id", "b-id"),
        superseded("b-id", "c-id"),
        closed("c-id", Closure::Integrated),
        superseded("d-id", "gone"),
        superseded("x-id", "y-id"),
        superseded("y-id", "x-id"),
    ];
    assert_eq!(standing_prerequisite(&changes, "a-id"), Some(2));
    assert_eq!(standing_prerequisite(&changes, "c-id"), Some(2));
    assert_eq!(standing_prerequisite(&changes, "d-id"), Some(3));
    // A circle is left where it closes.
    assert_eq!(standing_prerequisite(&changes, "x-id"), Some(5));
    assert_eq!(standing_prerequisite(&changes, "gone"), None);
}

fn policy() -> NormalizedPolicy {
    NormalizedPolicy {
        forbid_self_approval: true,
        require_declared_actor: false,
        provenance_git_identity: "off".into(),
    }
}

fn gates() -> Vec<NormalizedGate> {
    vec![NormalizedGate {
        name: "test".into(),
        command: "make test".into(),
        profiles: texts(&["local"]),
        timeout: Some(60),
    }]
}

fn green() -> StatusReport {
    let mut report = report_of(0, true);
    report.gates = vec![
        GateReport { name: "test".into(), evidence_event_id: Some("E1".into()) },
        GateReport { name: "lint".into(), evidence_event_id: Some("E2".into()) },
    ];
    report
}

fn debt(waives: bool) -> DebtStanding {
    DebtStanding { waives_latest_patchset: waives, event_id: Some("D".into()) }
}

fn approved() -> ChangeState {
    let mut state = blocked("b-id", &["a-id"]);
    state.patchsets = vec![snapshot_of("ps-01", "h1")];
    state.verdicts = vec![
        verdict_on("ps-01", Verdict::Approved, "one"),
        verdict_on("ps-01", Verdict::Approved, "two"),
        verdict_on("ps-01", Verdict::CommentOnly, "three"),
    ];
    state
}

fn basis(state: &ChangeState, report: &StatusReport, waives: bool) -> Result<AuthorizationBasis, BasisRefusal> {
    let changes = vec![closed("a-id", Closure::Integrated), approved()];
    authorization_basis(state, report, "ps-01", &debt(waives), &changes, gates(), policy())
}

#[test]
fn a_basis_names_everything_that_authorizes() {
    let state = approved();
    assert_eq!(find_approval(&state, "ps-01"), Some(1));
    assert_eq!(find_approval(&state, "ps-02"), None);
    let found = basis(&state, &green(), false).ok().unwrap();
    assert_eq!(found.verdict_event_id.as_deref(), Some("verdict-ps-01-two"));
    assert_eq!(found.gate_evidence.find("lint").map(String::as_str), Some("E2"));
    assert_eq!(found.gate_evidence.find("bench"), None);
    assert_eq!(found.prerequisites.len(), 1);
    assert_eq!(found.prerequisites[0].closure_event_id, "closed-a-id");
    assert_eq!(found.prerequisites[0].integrated_commit.as_deref(), Some("commit-a-id"));
    assert_eq!((found.danger.as_deref(), found.audit_debt_event_id), (Some("none"), None));

    let mut waived = green();
    waived.approval_waived_by_debt = true;
    let mut bare = approved();
    bare.verdicts = Vec::new();
    let found = basis(&bare, &waived, true).ok().unwrap();
    assert_eq!(found.verdict_event_id, None);
    assert_eq!(found.audit_debt_event_id.as_deref(), Some("D"));
}

#[test]
fn a_basis_lacks_nothing() {
    let mut bare = approved();
    bare.verdicts = Vec::new();
    assert_eq!(basis(&bare, &green(), false).err(), Some(BasisRefusal::Unauthorized));
    let mut unproven = green();
    unproven.gates[1].evidence_event_id = None;
    assert_eq!(
        basis(&approved(), &unproven, false).err(),
        Some(BasisRefusal::NoEvidence { gate: 1 })
    );
    let mut lost = approved();
    lost.blocked_by = texts(&["a-id", "gone"]);
    assert_eq!(
        basis(&lost, &green(), false).err(),
        Some(BasisRefusal::UnknownPrerequisite { index: 1 })
    );
}

#[test]
fn a_merge_goes_on_while_its_basis_stands() {
    let first = basis(&approved(), &green(), false).ok().unwrap();
    let again = basis(&approved(), &green(), false).ok().unwrap();
    assert!(confirm_authorization(&first, &again, true));
    assert!(!confirm_authorization(&first, &again, false));
    let mut other = green();
    other.gates[0].evidence_event_id = Some("E9".into());
    let moved = basis(&approved(), &other, false).ok().unwrap();
    assert!(!confirm_authorization(&first, &moved, true));
    let mut held_up = green();
    held_up.holds = texts(&["H"]);
    let moved = basis(&approved(), &held_up, false).ok().unwrap();
    assert!(!confirm_authorization(&first, &moved, true));
}

#[test]
fn merges_are_recorded_as_they_were_evaluated() {
    let state = approved();
    assert_eq!(merge_message(&state, &None), "merge(b): b-id");
    assert_eq!(merge_message(&state, &Some("done".into())), "done");
    let parents = texts(&["old", "h1"]);
    assert_eq!(check_merge(&parents, "old", "h1", &None, "tree"), Ok(()));
    assert_eq!(check_merge(&parents, "old", "h1", &Some("tree".into()), "tree"), Ok(()));
    assert_eq!(
        check_merge(&parents, "old", "h1", &Some("tree".into()), "other"),
        Err(MergeRefusal::UnevaluatedTree)
    );
    assert_eq!(
        check_merge(&texts(&["h1", "old"]), "old", "h1", &None, "tree"),
        Err(MergeRefusal::UnexpectedParents)
    );
    assert_eq!(
        check_merge(&texts(&["old"]), "old", "h1", &None, "tree"),
        Err(MergeRefusal::UnexpectedParents)
    );
    let authorization = basis(&state, &green(), false).ok().unwrap();
    match integration_payload(&state, 0, "merged", "master", "old", authorization) {
        Payload::ChangeIntegrated {
            integrated_commit,
            source_patchset_id,
            source_head,
            target_branch,
            target_before,
            authorization,
        } => {
            assert_eq!((integrated_commit.as_str(), source_patchset_id.as_str()), ("merged", "ps-01"));
            assert_eq!((source_head.as_str(), target_branch.as_str()), ("h1", "master"));
            assert_eq!((target_before.as_str(), authorization.is_some()), ("old", true));
        }
        _ => panic!("an integration is recorded"),
    }
}

#[test]
fn dry_runs_change_nothing() {
    let state = approved();
    let clean = dry_run_text(&state, "master", &None, "old", "h1", false, &Some("tree".into()), "{}");
    assert_eq!(
        clean,
        "dry-run: would integrate b-id into master\n  merge message: merge(b): b-id\n  \
         merge parents: [old, h1]\n  merge result: clean\n  merge tree: tree\n  \
         authorization basis it would record:\n{}\n  no events, refs, or worktrees were modified\n"
    );
    let torn = dry_run_text(&state, "master", &None, "old", "h1", true, &None, "{}");
    assert!(torn.contains("  merge result: conflict — rebase required\n"));
    assert!(!torn.contains("authorization basis"));
    assert_eq!((dry_run_exit_code(false, 7), dry_run_exit_code(true, 7)), (0, 7));
    assert_eq!(not_ready_line("a-id", "no verdict"), "dry-run: would not integrate a-id (no verdict)");
}

fn tagged(mut state: ChangeState, tags: &[&str]) -> ChangeState {
    state.tags = texts(tags);
    state
}

#[test]
fn tagged_changes_integrate_prerequisites_first() {
    let changes = vec![
        tagged(blocked("a-id", &["c-id"]), &["web"]),
        change("b-id"),
        tagged(change("c-id"), &["api", "web"]),
        tagged(blocked("x-id", &["y-id"]), &["loop"]),
        tagged(blocked("y-id", &["x-id"]), &["loop"]),
    ];
    assert_eq!(select_tagged(&changes, &texts(&["web"])), vec![0, 2]);
    assert_eq!(integrate_tagged(&changes, &texts(&["web"])), Ok(vec![2, 0]));
    assert_eq!(integrate_tagged(&changes, &texts(&["api", "web"])), Ok(vec![2]));
    assert_eq!(integrate_tagged(&changes, &texts(&["none"])), Err(TaggedRefusal::NoMatch));
    assert_eq!(integrate_tagged(&changes, &texts(&["loop"])), Err(TaggedRefusal::DependencyCycle));
}

#[test]
fn checks_are_of_one_change_or_some_tags() {
    let none: Vec<String> = Vec::new();
    assert!(matches!(check_selection(Some("a"), &none), Ok(CheckRequest::One)));
    match check_selection(None, &texts(&["b", "a", "b"])) {
        Ok(CheckRequest::Tagged { tags }) => assert_eq!(tags, texts(&["a", "b"])),
        _ => panic!("tags are accepted"),
    }
    assert!(matches!(
        check_selection(Some("a"), &texts(&["b"])),
        Err(CheckRefusal::ChangeAndTags)
    ));
    assert!(matches!(check_selection(None, &none), Err(CheckRefusal::Nothing)));
    assert!(matches!(
        check_selection(None, &texts(&[""])),
        Err(CheckRefusal::InvalidTag { tag }) if tag.is_empty()
    ));

    let mut waiting = report_of(6, false);
    waiting.next_action = "request_review".into();
    let outcome = check(&waiting);
    assert_eq!((outcome.exit_code, outcome.ready, outcome.shows_review_queue), (6, false, true));
    let outcome = check(&report_of(0, true));
    assert_eq!((outcome.exit_code, outcome.ready, outcome.shows_review_queue), (0, true, false));

    let changes = vec![
        tagged(change("a-id"), &["web"]),
        tagged(closed("b-id", Closure::Abandoned), &["web"]),
        tagged(change("c-id"), &["web", "api"]),
    ];
    assert_eq!(check_tagged(&changes, &texts(&["web"]), &vec![0, 9, 5]), Some(5));
    assert_eq!(check_tagged(&changes, &texts(&["web"]), &vec![0, 9, 0]), Some(0));
    assert_eq!(check_tagged(&changes, &texts(&["none"]), &vec![0, 9, 5]), None);
}

fn closing() -> CloseArgs {
    CloseArgs {
        assert_integrated: None,
        patchset: None,
        into: None,
        target_before: None,
        abandoned: false,
        superseded_by: None,
    }
}

#[test]
fn changes_close_in_exactly_one_way() {
    let state = change("a-id");
    let mut args = closing();
    assert_eq!(close(&state, &args), Err(CloseRefusal::NotExactlyOne));
    args.abandoned = true;
    assert_eq!(close(&state, &args), Ok(CloseRequest::Abandon));
    assert_eq!(
        close(&closed("a-id", Closure::Abandoned), &args),
        Err(CloseRefusal::AlreadyClosed)
    );
    args.superseded_by = Some("b-id".into());
    assert_eq!(close(&state, &args), Err(CloseRefusal::NotExactlyOne));
    args.abandoned = false;
    assert_eq!(close(&state, &args), Ok(CloseRequest::Supersede));

    let mut args = closing();
    args.target_before = Some("t".into());
    assert_eq!(close(&state, &args), Err(CloseRefusal::TargetBeforeNeedsAssertion));
    args.into = Some("next".into());
    assert_eq!(close(&state, &args), Err(CloseRefusal::IntoNeedsAssertion));
    args.patchset = Some("ps-01".into());
    assert_eq!(close(&state, &args), Err(CloseRefusal::PatchsetNeedsAssertion));
    args.assert_integrated = Some("abc".into());
    assert_eq!(close(&state, &args), Ok(CloseRequest::AssertIntegrated));

    assert!(matches!(
        closing_payload(Some("b-id".into())),
        Payload::ChangeClosed { outcome: Closure::Superseded, superseded_by: Some(_), .. }
    ));
    assert!(matches!(
        closing_payload(None),
        Payload::ChangeClosed { outcome: Closure::Abandoned, superseded_by: None, .. }
    ));
}

fn facts() -> AssertionFacts {
    AssertionFacts {
        target_is_branch: true,
        contains_head: true,
        on_target: true,
        parents: texts(&["old"]),
        named_base: None,
    }
}

#[test]
fn assertions_are_borne_out_by_the_repository() {
    let mut state = change("a-id");
    assert_eq!(asserted_patchset(&state, &None), Err(AssertionRefusal::NoPatchset));
    state.patchsets = vec![snapshot_of("ps-01", "h1"), snapshot_of("ps-02", "h2")];
    assert_eq!(asserted_patchset(&state, &None), Ok(1));
    assert_eq!(asserted_patchset(&state, &Some("ps-01".into())), Ok(0));
    assert_eq!(
        asserted_patchset(&state, &Some("ps-09".into())),
        Err(AssertionRefusal::NotAPatchset)
    );

    let told = |facts: &AssertionFacts| match assert_integration(&state, 0, "merged", &None, facts) {
        Ok(Payload::IntegrationAsserted { source_head, target_branch, target_before, .. }) => {
            assert_eq!((source_head.as_str(), target_branch.as_str()), ("h1", "master"));
            Ok(target_before)
        }
        Ok(_) => panic!("an assertion is recorded"),
        Err(refusal) => Err(refusal),
    };
    assert_eq!(told(&facts()), Ok(None));
    let mut named = facts();
    named.named_base = Some("before".into());
    assert_eq!(told(&named), Ok(Some("before".to_string())));
    let mut merge = facts();
    merge.parents = texts(&["old", "h1"]);
    assert_eq!(told(&merge), Ok(Some("old".to_string())));
    merge.named_base = Some("before".into());
    assert_eq!(told(&merge), Err(AssertionRefusal::MergeKnowsItsBase));
    let mut off = facts();
    off.on_target = false;
    assert_eq!(told(&off), Err(AssertionRefusal::NotOnTarget));
    off.contains_head = false;
    assert_eq!(told(&off), Err(AssertionRefusal::HeadNotContained));
    off.target_is_branch = false;
    assert_eq!(told(&off), Err(AssertionRefusal::TargetIsNoBranch));
}

#[test]
fn a_release_lifts_one_hold() {
    let mut state = change("a-id");
    assert_eq!(release_hold(&state, "H").err(), Some(HoldRefusal::NoActiveHold));
    state.holds = vec![hold("HA1"), hold("HA2"), hold("HB")];
    assert_eq!(release_hold(&state, "").err(), Some(HoldRefusal::EmptyReference));
    assert_eq!(release_hold(&state, "X").err(), Some(HoldRefusal::NotActive));
    assert_eq!(release_hold(&state, "HA").err(), Some(HoldRefusal::Ambiguous { matches: 2 }));
    let release = release_hold(&state, "HA2").ok().unwrap();
    assert_eq!((release.hold_event_id.as_str(), release.left), ("HA2", 2));
    assert_eq!(resolve_hold(&state, "HB"), Ok(2));
}

#[test]
fn dry_runs_refuse_what_a_merge_refuses() {
    let order = [
        DryRunStep::Actor,
        DryRunStep::Worktree,
        DryRunStep::Clean,
        DryRunStep::Report,
        DryRunStep::Patchset,
        DryRunStep::Merge,
        DryRunStep::Basis,
        DryRunStep::Shown { code: 0 },
    ];
    for k in 0..order.len() - 1 {
        assert_eq!(dry_run_step(order[k], true, 9), order[k + 1]);
    }
    let ends: Vec<DryRunStep> =
        order.iter().map(|step| dry_run_step(*step, false, 9)).collect();
    let refused = |refusal: DryRunRefusal| DryRunStep::Refused { refusal };
    assert_eq!(
        ends,
        vec![
            refused(DryRunRefusal::UndeclaredActor),
            refused(DryRunRefusal::NoWorktree),
            refused(DryRunRefusal::NotClean),
            DryRunStep::NotReady { code: 9 },
            refused(DryRunRefusal::NoPatchset),
            DryRunStep::Shown { code: 9 },
            refused(DryRunRefusal::NoBasis),
            DryRunStep::Shown { code: 0 },
        ]
    );
    for end in ends {
        assert_eq!(dry_run_step(end, true, 1), end);
    }
}

#[test]
fn only_reachable_work_is_let_go() {
    assert_eq!(release_retention_refs(true, &vec![true, false, true]), vec![0, 2]);
    assert!(release_retention_refs(false, &vec![true, true]).is_empty());
    assert_eq!(
        release_retained_trees(&texts(&["t1", "t2", "t3"]), &texts(&["t3", "t1"])),
        vec![0, 2]
    );
}
