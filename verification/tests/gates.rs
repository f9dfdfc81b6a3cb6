use arc_ledger::event::{Payload, VerificationRunGate};
use arc_ledger::evidence::{
    complete_attested, count_passed, execute_verification, gate_input, gate_result,
    read_output_tail, record_verification, recorded_output, settle_parallel, verification_payload,
    CompletedVerification, Dirt, GateRun, OUTPUT_TAIL_BYTES, VerificationInput,
};
use arc_ledger::model::{AcceptanceProbe, ProbePhase, VerifyResult};
use arc_ledger::state::{Brief, ChangeState, VerificationState};
use arc_ledger::time::Timestamp;
use arc_ledger::verify::{
    brief_declares_probe, check_baseline, done, ensure_at_change_head, find_gate, first_done_step,
    nonempty_attestation_value, phase_counts_at_head, plan_run, probe_exit_code,
    named_failure, resolve_falsification, reuse_payload, verify_step, VerifyStep, select_command, select_gates, select_probe,
    snapshot_with_verify, tally_run, verify, waiver_reason, warn_if_attested_off_head,
    AttestationValueError, AttestedWarning, BaselineRefusal, CommandRefusal, DoneStep,
    HeadRefusal, ProbeRefusal, SelectionRefusal, SnapshotRefusal, SnapshotVerification,
    VerifyArgs, VerifyKind, VerifyRefusal,
};

fn at(seconds: i64) -> Timestamp {
    Timestamp::new(1_000_000 + seconds, 0).unwrap()
}

fn change(id: &str) -> ChangeState {
    ChangeState {
        change_id: id.into(),
        slug: id.trim_end_matches("-id").into(),
        title: id.into(),
        profile: "local".into(),
        iterating: false,
        target_branch: "master".into(),
        branch: format!("arc/{id}"),
        base: "base".into(),
        worktree: None,
        opened_by: "tester".into(),
        opened_harness: Some("test".into()),
        journal_ref: None,
        blocked_by: Vec::new(),
        tags: Vec::new(),
        assigned_to: None,
        priority: 0,
        opened_at: at(0),
        patchsets: Vec::new(),
        briefs: Vec::new(),
        findings: Vec::new(),
        audit_findings: Vec::new(),
        verdicts: Vec::new(),
        authority: None,
        verifications: Vec::new(),
        run_revisions: Vec::new(),
        audit_revisions: Vec::new(),
        claim: None,
        holds: Vec::new(),
        closure: None,
        changelog: None,
        messages: Vec::new(),
    }
}

fn texts(values: &[&str]) -> Vec<String> {
    values.iter().map(|value| value.to_string()).collect()
}

fn brief_of(event_id: &str, body: &str) -> Brief {
    Brief {
        event_id: event_id.into(),
        ts: at(0),
        actor: "lead".into(),
        on_behalf_of: None,
        title: None,
        body: body.into(),
        base_revision: None,
        acceptance_probes: Vec::new(),
        plan_ref: None,
        plan_slice: None,
    }
}

fn asked() -> VerifyArgs {
    VerifyArgs {
        all: false,
        parallel: false,
        skip_green: false,
        gate: None,
        command: None,
        probe: None,
        brief_version: None,
        probe_phase: None,
        attest: false,
        result: None,
        tested_revision: None,
        execution_host: None,
        runner: None,
        note: None,
        waive_dirty: None,
        falsified_by: None,
        predicted: None,
        against: None,
    }
}

fn refused(args: &VerifyArgs) -> VerifyRefusal {
    match verify(args) {
        Err(refusal) => refusal,
        Ok(_) => panic!("the flags do not go together"),
    }
}

fn attested() -> VerifyArgs {
    let mut args = asked();
    args.gate = Some("test".into());
    args.attest = true;
    args.result = Some(VerifyResult::Pass);
    args.tested_revision = Some("abc".into());
    args.execution_host = Some(" ci-7 ".into());
    args.runner = Some(" nightly".into());
    args
}

#[test]
fn one_kind_of_verification_is_planned() {
    let plan = verify(&asked()).ok().unwrap();
    assert_eq!(plan.kind, VerifyKind::Command);
    assert!(plan.falsified_by.is_none() && plan.attested_result.is_none());

    let mut all = asked();
    all.all = true;
    all.parallel = true;
    all.skip_green = true;
    assert_eq!(verify(&all).ok().unwrap().kind, VerifyKind::All);
    all.parallel = false;
    all.skip_green = false;
    all.against = Some("main".into());
    assert_eq!(verify(&all).ok().unwrap().kind, VerifyKind::Against);

    let mut probe = asked();
    probe.probe = Some("smoke".into());
    probe.brief_version = Some(1);
    probe.probe_phase = Some(ProbePhase::Baseline);
    assert_eq!(verify(&probe).ok().unwrap().kind, VerifyKind::Probe);
}

#[test]
fn flags_that_do_not_go_together_are_refused() {
    let mut args = asked();
    args.all = true;
    args.gate = Some("test".into());
    assert_eq!(refused(&args), VerifyRefusal::AllTakesNoSelection);

    let mut args = asked();
    args.all = true;
    args.predicted = Some("x".into());
    assert_eq!(refused(&args), VerifyRefusal::AllTakesNoFalsification);

    let mut args = asked();
    args.falsified_by = Some("E".into());
    assert_eq!(refused(&args), VerifyRefusal::FalsificationNeedsPrediction);
    args.predicted = Some("  ".into());
    assert_eq!(refused(&args), VerifyRefusal::EmptyPrediction);
    args.predicted = Some(" off by one ".into());
    let plan = verify(&args).ok().unwrap();
    assert_eq!(plan.falsified_by, Some(("E".into(), "off by one".into())));
    args.falsified_by = None;
    assert_eq!(refused(&args), VerifyRefusal::PredictionNeedsFalsification);

    let mut args = asked();
    args.against = Some("main".into());
    args.waive_dirty = Some("why".into());
    assert_eq!(refused(&args), VerifyRefusal::AgainstTakesNoSelection);

    let mut args = asked();
    args.parallel = true;
    assert_eq!(refused(&args), VerifyRefusal::ParallelNeedsAll);
    args.all = true;
    args.waive_dirty = Some("why".into());
    assert_eq!(refused(&args), VerifyRefusal::ParallelTakesNoWaiver);

    let mut args = asked();
    args.skip_green = true;
    assert_eq!(refused(&args), VerifyRefusal::SkipGreenNeedsAll);

    let mut args = asked();
    args.probe = Some("smoke".into());
    args.command = Some("true".into());
    assert_eq!(refused(&args), VerifyRefusal::ProbeExcludesCommand);

    let mut args = asked();
    args.brief_version = Some(1);
    assert_eq!(refused(&args), VerifyRefusal::ProbeOptionsNeedProbe);
}

#[test]
fn attestations_are_attributed() {
    let plan = verify(&attested()).ok().unwrap();
    assert_eq!(plan.attested_result, Some(VerifyResult::Pass));
    assert_eq!(plan.execution_host.as_deref(), Some("ci-7"));
    assert_eq!(plan.runner.as_deref(), Some("nightly"));

    let mut args = attested();
    args.result = None;
    assert_eq!(refused(&args), VerifyRefusal::AttestNeedsResult);
    let mut args = attested();
    args.attest = false;
    assert_eq!(refused(&args), VerifyRefusal::ResultNeedsAttest);
    args.result = None;
    assert_eq!(refused(&args), VerifyRefusal::AttestOptionsNeedAttest);
    let mut args = attested();
    args.tested_revision = None;
    assert_eq!(refused(&args), VerifyRefusal::AttestNeedsRevision);
    let mut args = attested();
    args.execution_host = None;
    assert_eq!(refused(&args), VerifyRefusal::AttestNeedsHost);
    args.execution_host = Some(" ".into());
    assert_eq!(refused(&args), VerifyRefusal::EmptyHost);
    let mut args = attested();
    args.runner = None;
    assert_eq!(refused(&args), VerifyRefusal::AttestNeedsRunner);
    args.runner = Some(String::new());
    assert_eq!(refused(&args), VerifyRefusal::EmptyRunner);

    assert_eq!(nonempty_attestation_value(&Some(" a ".into())), Ok("a".to_string()));
    assert_eq!(nonempty_attestation_value(&None), Err(AttestationValueError::Missing));
    assert_eq!(nonempty_attestation_value(&Some("\t".into())), Err(AttestationValueError::Empty));
    assert_eq!(waiver_reason(" generated files "), Some("generated files".to_string()));
    assert_eq!(waiver_reason("\n"), None);
}

fn probing(event_id: &str, names: &[&str]) -> Brief {
    let mut brief = brief_of(event_id, "do it");
    brief.acceptance_probes = names
        .iter()
        .map(|name| AcceptanceProbe { name: name.to_string(), command: format!("./{name}") })
        .collect();
    brief
}

#[test]
fn probes_are_found_in_their_brief() {
    let mut state = change("a-id");
    assert_eq!(select_probe(&state, None, "smoke").err(), Some(ProbeRefusal::NoBrief));
    assert!(!brief_declares_probe(&state, "smoke"));
    state.briefs = vec![probing("b1", &["smoke"]), probing("b2", &["unit", "load"])];
    assert_eq!(select_probe(&state, Some(3), "smoke").err(), Some(ProbeRefusal::NoSuchVersion));
    assert_eq!(select_probe(&state, Some(0), "smoke").err(), Some(ProbeRefusal::NoSuchVersion));
    assert_eq!(
        select_probe(&state, None, "smoke").err(),
        Some(ProbeRefusal::NotDeclared { version: 2 })
    );
    let choice = select_probe(&state, Some(1), "smoke").ok().unwrap();
    assert_eq!((choice.version, choice.probe), (1, 0));
    let choice = select_probe(&state, None, "load").ok().unwrap();
    assert_eq!((choice.version, choice.probe), (2, 1));
    assert!(brief_declares_probe(&state, "unit"));
    assert!(!brief_declares_probe(&state, "smoke"));
}

#[test]
fn baselines_fail_at_the_base_and_finals_pass_at_the_head() {
    let mut brief = probing("b1", &["smoke"]);
    assert_eq!(check_baseline(&brief, "base", &None), Err(BaselineRefusal::NoBase));
    brief.base_revision = Some("base".into());
    assert_eq!(check_baseline(&brief, "head", &None), Err(BaselineRefusal::HeadElsewhere));
    assert_eq!(
        check_baseline(&brief, "base", &Some("head".into())),
        Err(BaselineRefusal::AttestedElsewhere)
    );
    assert_eq!(check_baseline(&brief, "base", &Some("base".into())), Ok(()));
    assert_eq!(check_baseline(&brief, "base", &None), Ok(()));

    assert!(phase_counts_at_head(ProbePhase::Final));
    assert!(!phase_counts_at_head(ProbePhase::Baseline));
    assert_eq!(probe_exit_code(ProbePhase::Final, 0), 0);
    assert_eq!(probe_exit_code(ProbePhase::Final, 2), 1);
    assert_eq!(probe_exit_code(ProbePhase::Baseline, 0), 1);
    assert_eq!(probe_exit_code(ProbePhase::Baseline, 2), 0);
}

#[test]
fn evidence_counts_at_the_head_only() {
    assert_eq!(warn_if_attested_off_head("a", Some("a")), None);
    assert_eq!(warn_if_attested_off_head("a", Some("b")), Some(AttestedWarning::OffHead));
    assert_eq!(warn_if_attested_off_head("a", None), Some(AttestedWarning::UnknownHead));
    assert_eq!(ensure_at_change_head("a", "a", false, false), Ok(()));
    assert_eq!(ensure_at_change_head("a", "b", true, true), Err(HeadRefusal::DetachedHere));
    assert_eq!(ensure_at_change_head("a", "b", false, true), Err(HeadRefusal::CheckedOutElsewhere));
    assert_eq!(ensure_at_change_head("a", "b", false, false), Err(HeadRefusal::NoCheckout));
}

fn declared(names: &[&str]) -> Vec<VerificationRunGate> {
    names
        .iter()
        .map(|name| VerificationRunGate {
            name: name.to_string(),
            command: format!("make {name}"),
            timeout_seconds: Some(60),
        })
        .collect()
}

#[test]
fn a_command_is_that_of_its_gate() {
    let gates = declared(&["lint", "test"]);
    let mut state = change("a-id");
    state.briefs = vec![probing("b1", &["smoke"])];
    assert_eq!(find_gate(&gates, "test"), Some(1));
    assert_eq!(find_gate(&gates, "smoke"), None);
    assert_eq!(
        select_command(&Some("test".into()), &None, &gates, &state),
        Ok(("make test".to_string(), Some(60)))
    );
    assert_eq!(
        select_command(&None, &Some("true".into()), &gates, &state),
        Ok(("true".to_string(), None))
    );
    assert_eq!(
        select_command(&Some("test".into()), &Some("true".into()), &gates, &state),
        Err(CommandRefusal::GateAndCommand)
    );
    assert_eq!(select_command(&None, &None, &gates, &state), Err(CommandRefusal::Nothing));
    assert_eq!(
        select_command(&Some("smoke".into()), &None, &gates, &state),
        Err(CommandRefusal::ProbeOfThatName)
    );
    assert_eq!(
        select_command(&Some("bench".into()), &None, &gates, &state),
        Err(CommandRefusal::NotDeclared)
    );

    assert_eq!(select_gates(&texts(&["test", "lint"]), &gates), Ok(vec![1, 0]));
    assert_eq!(
        select_gates(&texts(&["test", "test"]), &gates),
        Err(SelectionRefusal::Repeated)
    );
    assert_eq!(
        select_gates(&texts(&["lint", "bench"]), &gates),
        Err(SelectionRefusal::NotDeclared { index: 1 })
    );
}

#[test]
fn green_gates_are_reused_on_request() {
    let evidence = vec![Some("E1".to_string()), None, Some("E3".to_string())];
    let plan = plan_run(true, &evidence).unwrap();
    assert_eq!((plan.reused, plan.to_run), (vec![0, 2], vec![1]));
    let plan = plan_run(false, &evidence).unwrap();
    assert_eq!((plan.reused, plan.to_run), (vec![], vec![0, 1, 2]));
    assert!(plan_run(true, &Vec::new()).is_none());
    match reuse_payload("R", "lint", "abc", "E1") {
        Payload::VerificationReused { run_id, gate, revision, evidence_event_id } => {
            assert_eq!(
                (run_id.as_str(), gate.as_str(), revision.as_str(), evidence_event_id.as_str()),
                ("R", "lint", "abc", "E1")
            );
        }
        _ => panic!("a reuse is recorded"),
    }
}

#[test]
fn a_run_succeeds_where_all_gates_pass() {
    let tally = tally_run(2, &vec![0, 0]);
    assert_eq!((tally.passed, tally.total, tally.exit_code), (4, 4, 0));
    let tally = tally_run(1, &vec![0, 3, 0]);
    assert_eq!((tally.passed, tally.total, tally.exit_code), (3, 4, 1));
    let tally = tally_run(0, &Vec::new());
    assert_eq!((tally.passed, tally.total, tally.exit_code), (0, 0, 0));
}

#[test]
fn falsifications_name_the_revision_that_failed() {
    let mut state = change("a-id");
    state.verifications = vec![VerificationState {
        event_id: "E1".into(),
        gate: Some("test".into()),
        command: "make test".into(),
        revision: "abc".into(),
        result: VerifyResult::Fail,
        attested: false,
    }];
    let known = named_failure(&state, "E1".into(), "why".into());
    assert_eq!(
        (known.event_id.as_str(), known.revision.as_str(), known.predicted_reason.as_str()),
        ("E1", "abc", "why")
    );
    assert_eq!(named_failure(&state, "E2".into(), "why".into()).revision, "");
    let named = || Some(("E1".to_string(), "why".to_string()));
    let found = resolve_falsification(&state, named(), None).ok().unwrap().unwrap();
    assert_eq!((found.event_id.as_str(), found.revision.as_str()), ("E1", "abc"));
    let refused = resolve_falsification(&state, named(), Some("passed".into()));
    assert_eq!(refused.err().unwrap().reason, "passed");
    assert!(resolve_falsification(&state, None, Some("passed".into())).ok().unwrap().is_none());
}

/// The steps of a verification in which everything goes well.
fn steps_of(kind: VerifyKind, waives: bool) -> Vec<VerifyStep> {
    let mut steps = vec![VerifyStep::Identity];
    while !matches!(steps.last(), Some(VerifyStep::Finished { .. })) {
        let step = verify_step(kind, waives, *steps.last().unwrap(), true, 3);
        steps.push(step);
    }
    steps
}

#[test]
fn verifications_settle_who_asks_before_anything_runs() {
    let done = VerifyStep::Finished { code: 3 };
    assert_eq!(
        steps_of(VerifyKind::Probe, true),
        vec![
            VerifyStep::Identity,
            VerifyStep::Waive,
            VerifyStep::Select,
            VerifyStep::Place,
            VerifyStep::Falsify,
            VerifyStep::Run,
            done,
        ]
    );
    assert_eq!(
        steps_of(VerifyKind::All, false),
        vec![
            VerifyStep::Identity,
            VerifyStep::Place,
            VerifyStep::Select,
            VerifyStep::Run,
            done,
        ]
    );
    assert_eq!(steps_of(VerifyKind::Against, false)[1..3], [VerifyStep::Select, VerifyStep::Place]);
    assert_eq!(
        steps_of(VerifyKind::Command, false)[1..4],
        [VerifyStep::Place, VerifyStep::Select, VerifyStep::Falsify]
    );
    for step in [VerifyStep::Identity, VerifyStep::Waive, VerifyStep::Place, VerifyStep::Refused] {
        assert_eq!(verify_step(VerifyKind::All, true, step, false, 0), VerifyStep::Refused);
    }
    assert_eq!(verify_step(VerifyKind::All, true, done, false, 0), done);
}

#[test]
fn snapshots_verify_what_they_are_asked_to() {
    let none: Vec<String> = Vec::new();
    assert_eq!(snapshot_with_verify(false, &none, false), Ok(SnapshotVerification::Nothing));
    assert_eq!(snapshot_with_verify(true, &none, false), Ok(SnapshotVerification::AllGates));
    assert_eq!(snapshot_with_verify(true, &none, true), Ok(SnapshotVerification::AllGates));
    assert_eq!(
        snapshot_with_verify(true, &texts(&["lint"]), false),
        Ok(SnapshotVerification::OneGate)
    );
    assert_eq!(
        snapshot_with_verify(true, &texts(&["lint", "test"]), false),
        Ok(SnapshotVerification::SeveralGates)
    );
    assert_eq!(
        snapshot_with_verify(false, &none, true),
        Err(SnapshotRefusal::SelectionNeedsVerify)
    );
    assert_eq!(
        snapshot_with_verify(true, &texts(&["lint"]), true),
        Err(SnapshotRefusal::AllExcludesGates)
    );
}

#[test]
fn finishing_work_stages_snapshots_verifies_and_checks() {
    assert_eq!(first_done_step(true), DoneStep::Stage);
    assert_eq!(first_done_step(false), DoneStep::Snapshot);
    assert_eq!(done(DoneStep::Stage, 0), DoneStep::Snapshot);
    assert_eq!(done(DoneStep::Stage, 5), DoneStep::Finished { code: 5 });
    assert_eq!(done(DoneStep::Snapshot, 1), DoneStep::Verify);
    assert_eq!(done(DoneStep::Verify, 1), DoneStep::Check);
    assert_eq!(done(DoneStep::Check, 3), DoneStep::Finished { code: 3 });
    assert_eq!(done(DoneStep::Finished { code: 3 }, 0), DoneStep::Finished { code: 3 });
}

fn input() -> VerificationInput {
    let gates = declared(&["test"]);
    gate_input("R", &gates[0], &Some("note".into()), None)
}

fn run(exit_code: Option<i32>, success: bool, timed_out: bool) -> GateRun {
    GateRun { exit_code, success, timed_out, duration_ms: 12, output_tail: Some("out".into()) }
}

fn completed(success: bool) -> CompletedVerification {
    let code = if success { 0 } else { 2 };
    execute_verification(input(), "abc".into(), "host".into(), run(Some(code), success, false))
}

#[test]
fn gates_are_run_as_they_are_declared() {
    let plain = input();
    assert_eq!(plain.run_id.as_deref(), Some("R"));
    assert_eq!(plain.gate.as_deref(), Some("test"));
    assert_eq!((plain.command.as_str(), plain.timeout_seconds), ("make test", Some(60)));
    assert!(plain.tested_revision.is_none() && plain.against_target.is_none());
    let gates = declared(&["test"]);
    let merged = gate_input("R", &gates[0], &None, Some(("merge", "target")));
    assert_eq!(merged.tested_revision.as_deref(), Some("merge"));
    assert_eq!(merged.against_target.as_deref(), Some("target"));
}

#[test]
fn observed_results_are_those_of_the_command() {
    assert_eq!(gate_result(&run(Some(0), true, false)), VerifyResult::Pass);
    assert_eq!(gate_result(&run(Some(0), true, true)), VerifyResult::Fail);
    assert_eq!(gate_result(&run(Some(1), false, false)), VerifyResult::Fail);
    let done = completed(true);
    assert_eq!((done.result, done.exit_code, done.attested), (VerifyResult::Pass, Some(0), false));
    assert_eq!((done.duration_ms, done.output_tail.as_deref()), (Some(12), Some("out")));
    // A command that a signal ended has no exit code of its own.
    let killed = execute_verification(input(), "abc".into(), "host".into(), run(None, false, true));
    assert_eq!((killed.result, killed.exit_code, killed.timed_out), (VerifyResult::Fail, Some(-1), true));

    let said = complete_attested(input(), VerifyResult::Pass, "abc".into(), "ci".into());
    assert_eq!((said.result, said.exit_code, said.attested), (VerifyResult::Pass, None, true));
    assert!(said.output_tail.is_none() && said.tested_tree.is_none());
    assert_eq!(count_passed(&vec![completed(true), completed(false), said]), 2);
}

#[test]
fn the_worktree_is_seen_on_both_sides_of_a_run() {
    let dirt = Some(Dirt { tracked_files: true, untracked_files: false });
    let done = record_verification(completed(true), "t1".into(), "t1", &Some("t0".into()), dirt);
    assert_eq!((done.worktree_dirty, done.tree_moved), (Some(true), false));
    assert_eq!((done.worktree_dirty_tracked, done.worktree_dirty_untracked), (Some(true), Some(false)));
    let done = record_verification(completed(true), "t1".into(), "t2", &Some("t1".into()), None);
    assert_eq!((done.worktree_dirty, done.tree_moved), (Some(false), true));
    let done = record_verification(completed(true), "t1".into(), "t1", &None, None);
    assert_eq!(done.worktree_dirty, None);

    let settled = settle_parallel(vec![completed(true), completed(false)], "t1", true);
    assert_eq!(settled.len(), 2);
    assert!(settled.iter().all(|d| d.tree_moved && d.worktree_dirty.is_none()));
    assert_eq!(settled[1].tested_tree.as_deref(), Some("t1"));
    assert_eq!(settled[1].result, VerifyResult::Fail);
}

#[test]
fn unpinned_trees_are_not_recorded() {
    let seen = || record_verification(completed(true), "t1".into(), "t1", &Some("t1".into()), None);
    match verification_payload(seen(), Some("tree".into()), true) {
        Payload::VerificationRecorded { tree, tested_tree, worktree_dirty, gate, .. } => {
            assert_eq!((tree.as_deref(), tested_tree.as_deref()), (Some("tree"), Some("t1")));
            assert_eq!((worktree_dirty, gate.as_deref()), (Some(false), Some("test")));
        }
        _ => panic!("a verification is recorded"),
    }
    assert!(matches!(
        verification_payload(seen(), None, false),
        Payload::VerificationRecorded { tree: None, tested_tree: None, worktree_dirty: None, .. }
    ));
}

#[test]
fn the_end_of_the_output_is_kept() {
    let mut tail: Vec<u8> = Vec::new();
    read_output_tail(&mut tail, b"abc");
    read_output_tail(&mut tail, b"def");
    assert_eq!(tail, b"abcdef");
    let long = vec![b'x'; OUTPUT_TAIL_BYTES - 1];
    read_output_tail(&mut tail, &long);
    assert_eq!(tail.len(), OUTPUT_TAIL_BYTES);
    assert_eq!(&tail[..2], b"fx");

    // However the output is cut into chunks, the same bytes are kept.
    let output: Vec<u8> = (0..10_000u32).map(|i| (i % 251) as u8).collect();
    let mut whole: Vec<u8> = Vec::new();
    read_output_tail(&mut whole, &output);
    let mut pieces: Vec<u8> = Vec::new();
    for chunk in output.chunks(777) {
        read_output_tail(&mut pieces, chunk);
    }
    assert_eq!(whole, pieces);
    assert_eq!(whole, output[output.len() - 4096..]);
}

#[test]
fn recorded_output_is_text() {
    assert_eq!(recorded_output(&Vec::new()), None);
    assert_eq!(recorded_output(&"grün".as_bytes().to_vec()).as_deref(), Some("grün"));
    assert_eq!(recorded_output(&vec![b'a', 0xff, b'b']).as_deref(), Some("a\u{fffd}b"));
}
