use arc_ledger::aggregate::{
    aggregate_stats, change_stats, gate_seconds, merge, select_changes, StatsSelection, Table,
};
use arc_ledger::attribution::{by_model, subject};
use arc_ledger::event::{Event, Payload};
use arc_ledger::model::{
    ActorSource, BlockerRef, ClaimStage, Closure, ReviewCause, Severity, Verdict, VerifyResult,
};
use arc_ledger::percentile::{
    format_duration, nearest_rank, percentiles, round_up_clean, sorted_samples, truncate,
};
use arc_ledger::report::{
    models_heading, render_aggregate, render_change, render_model, stats_heading,
};
use arc_ledger::rework::{derive_rework, requested_patchsets};
use arc_ledger::state::{ChangeState, FindingState};
use arc_ledger::stats::{
    blocks_by_kind, findings_by_severity, observed_gate_runs, review_latency,
    review_rounds_by_cause, stage_durations, wall_time,
};
use arc_ledger::table::{insert_name, Register, Tally};
use arc_ledger::time::Timestamp;

fn at(seconds: i64) -> Timestamp {
    Timestamp::new(1_000_000 + seconds, 0).unwrap()
}

fn event(id: &str, seconds: i64, payload: Payload) -> Event {
    Event {
        schema_version: 1,
        event_id: id.to_string(),
        repository_id: "repo".into(),
        change_id: "c".into(),
        actor: "tester".into(),
        actor_source: Some(ActorSource::Flag),
        on_behalf_of: None,
        model: None,
        harness: Some("test".into()),
        session: Some("s".into()),
        created_at: at(seconds),
        payload,
    }
}

fn for_subject(mut event: Event, subject: &str) -> Event {
    event.on_behalf_of = Some(subject.into());
    event
}

fn patchset(id: &str, head: &str) -> Payload {
    Payload::PatchsetAdded {
        patchset_id: id.into(),
        base: "b".into(),
        head: head.into(),
        merge_base: None,
        brief_ref: None,
        author_name: None,
        author_email: None,
        committer_name: None,
        committer_email: None,
        contributors: Vec::new(),
        claim_id: None,
        claim_actor: None,
    }
}

fn verdict(id: &str, verdict: Verdict, causes: Vec<ReviewCause>) -> Payload {
    Payload::VerdictRecorded {
        patchset_id: id.into(),
        verdict,
        causes,
        body: None,
        findings: Vec::new(),
        provisional: None,
    }
}

fn stage(stage: ClaimStage, blocker: Option<BlockerRef>) -> Payload {
    Payload::StageSet {
        claim_id: "cl".into(),
        stage,
        note: None,
        blocker,
    }
}

fn claimed(ttl_seconds: u64) -> Payload {
    Payload::ClaimSet {
        claim_id: "cl".into(),
        ttl_seconds,
        stage_budgets: Default::default(),
        displaced: None,
    }
}

fn run(gate: Option<&str>, duration_ms: Option<u64>, attested: bool) -> Payload {
    Payload::VerificationRecorded {
        run_id: None,
        probe: None,
        gate: gate.map(|gate| gate.into()),
        command: "cargo build".into(),
        timeout_seconds: None,
        revision: "h".into(),
        result: VerifyResult::Pass,
        exit_code: None,
        duration_ms,
        output_tail: None,
        timed_out: false,
        hostname: "host".into(),
        attested,
        runner: None,
        note: None,
        falsification: None,
        tree: None,
        against_target: None,
        tested_tree: None,
        worktree_dirty: None,
        worktree_dirty_tracked: None,
        worktree_dirty_untracked: None,
        tree_moved: false,
    }
}

fn change(id: &str) -> ChangeState {
    ChangeState {
        change_id: id.into(),
        slug: id.trim_end_matches("-id").into(),
        title: id.into(),
        profile: "local".into(),
        iterating: false,
        target_branch: "master".into(),
        branch: format!("arc/{id}"),
        base: "base".into(),
        worktree: None,
        opened_by: "tester".into(),
        opened_harness: Some("test".into()),
        journal_ref: None,
        blocked_by: Vec::new(),
        tags: Vec::new(),
        assigned_to: None,
        priority: 0,
        opened_at: at(0),
        patchsets: Vec::new(),
        briefs: Vec::new(),
        findings: Vec::new(),
        audit_findings: Vec::new(),
        verdicts: Vec::new(),
        authority: None,
        verifications: Vec::new(),
        run_revisions: Vec::new(),
        audit_revisions: Vec::new(),
        claim: None,
        holds: Vec::new(),
        closure: None,
        changelog: None,
        messages: Vec::new(),
    }
}

fn finding(id: &str, severity: Severity) -> FindingState {
    FindingState {
        finding_id: id.into(),
        origin_event: "origin".into(),
        blocking: false,
        severity,
        summary: "summary".into(),
        body: None,
        patchset_id: None,
        anchor: None,
        status: None,
        tips: Vec::new(),
        disposition_commits: Vec::new(),
    }
}

#[test]
fn stage_durations_sum_between_transitions() {
    let events = vec![
        event("1", 0, claimed(7200)),
        event("2", 0, stage(ClaimStage::Implementing, None)),
        event("3", 120, stage(ClaimStage::Verifying, None)),
        event(
            "4",
            150,
            Payload::ClaimReleased {
                claim_id: "cl".into(),
            },
        ),
    ];
    let durations = stage_durations(&events);
    assert_eq!(durations.get("implementing"), Some(120));
    assert_eq!(durations.get("verifying"), Some(30));
}

#[test]
fn unreleased_stage_is_bounded_by_claim_expiry() {
    let events = vec![
        event("1", 0, claimed(100)),
        event("2", 0, stage(ClaimStage::Implementing, None)),
    ];
    // No release: implementing runs until expiry (100s), not forever.
    assert_eq!(stage_durations(&events).get("implementing"), Some(100));
}

#[test]
fn review_latency_measures_first_verdict_after_its_snapshot() {
    let events = vec![
        event("1", 0, patchset("ps-01", "h")),
        event("2", 45, verdict("ps-01", Verdict::Approved, Vec::new())),
    ];
    assert_eq!(review_latency(&events), Some(45));
}

#[test]
fn gate_runs_exclude_attested_and_untimed_evidence() {
    let timed = event(
        "1",
        0,
        Payload::VerificationRecorded {
            timeout_seconds: None,
            tested_tree: None,
            worktree_dirty: None,
            worktree_dirty_tracked: None,
            worktree_dirty_untracked: None,
            tree_moved: false,
            gate: Some("build".into()),
            command: "cargo build".into(),
            revision: "h".into(),
            result: VerifyResult::Pass,
            exit_code: Some(0),
            duration_ms: Some(5000),
            output_tail: None,
            timed_out: false,
            hostname: "host".into(),
            attested: false,
            run_id: None,
            probe: None,
            runner: None,
            note: None,
            falsification: None,
            tree: None,
            against_target: None,
        },
    );
    let attested = event(
        "2",
        0,
        Payload::VerificationRecorded {
            timeout_seconds: None,
            tested_tree: None,
            worktree_dirty: None,
            worktree_dirty_tracked: None,
            worktree_dirty_untracked: None,
            tree_moved: false,
            gate: Some("test".into()),
            command: "cargo test".into(),
            revision: "h".into(),
            result: VerifyResult::Pass,
            exit_code: None,
            duration_ms: None,
            output_tail: None,
            timed_out: false,
            hostname: "host".into(),
            attested: true,
            run_id: None,
            probe: None,
            runner: Some("external".into()),
            note: None,
            falsification: None,
            tree: None,
            against_target: None,
        },
    );
    let runs = observed_gate_runs(&vec![timed, attested]);
    assert_eq!(runs, vec![("build".to_string(), 5)]);
}

#[test]
fn gate_runs_count_whatever_tree_they_ran_on() {
    let on_tree = |tree: Option<&str>, dirty: Option<bool>, moved: bool| {
        let mut payload = run(Some("build"), Some(5_000), false);
        if let Payload::VerificationRecorded { tested_tree, worktree_dirty, tree_moved, .. } =
            &mut payload
        {
            *tested_tree = tree.map(str::to_string);
            *worktree_dirty = dirty;
            *tree_moved = moved;
        }
        payload
    };
    let events = vec![
        event("1", 0, on_tree(Some("t"), Some(false), false)),
        event("2", 1, on_tree(Some("t"), Some(true), true)),
        event("3", 2, on_tree(None, None, false)),
    ];
    assert_eq!(observed_gate_runs(&events), vec![("build".to_string(), 5); 3]);
}

#[test]
fn a_stage_ends_with_its_claim() {
    let release = || Payload::ClaimReleased { claim_id: "cl".into() };
    // Another claim comes long after this one expired.
    let events = vec![
        event("1", 0, claimed(100)),
        event("2", 0, stage(ClaimStage::Implementing, None)),
        event("3", 1000, claimed(100)),
        event("4", 1000, release()),
    ];
    assert_eq!(stage_durations(&events).get("implementing"), Some(100));
    // So does another stage; it began after the expiry, and adds nothing itself.
    let events = vec![
        event("1", 0, claimed(100)),
        event("2", 40, stage(ClaimStage::Implementing, None)),
        event("3", 1000, stage(ClaimStage::Verifying, None)),
    ];
    let totals = stage_durations(&events);
    assert_eq!((totals.get("implementing"), totals.get("verifying")), (Some(60), None));
    // A claim that is renewed in time ends the stage there.
    let events = vec![
        event("1", 0, claimed(100)),
        event("2", 0, stage(ClaimStage::Implementing, None)),
        event("3", 90, claimed(100)),
    ];
    assert_eq!(stage_durations(&events).get("implementing"), Some(90));
    // A release ends it where it is released.
    let events = vec![
        event("1", 0, claimed(100)),
        event("2", 0, stage(ClaimStage::Implementing, None)),
        event("3", 150, release()),
    ];
    assert_eq!(stage_durations(&events).get("implementing"), Some(150));
}

#[test]
fn wall_time_spans_open_to_integrated() {
    let events = vec![
        event(
            "1",
            0,
            Payload::ChangeOpened {
                dangerous: false,
                slug: "feat".into(),
                title: "t".into(),
                profile: "local".into(),
                target_branch: "master".into(),
                branch: "arc/feat".into(),
                base: "b".into(),
                worktree: None,
                blocked_by: Vec::new(),
                tags: Vec::new(),
                journal_ref: None,
            },
        ),
        event(
            "2",
            3600,
            Payload::ChangeClosed {
                outcome: Closure::Integrated,
                integrated_commit: Some("m".into()),
                superseded_by: None,
            },
        ),
    ];
    assert_eq!(wall_time(&events), Some(3600));
}

#[test]
fn round_up_clean_snaps_to_ladder() {
    assert_eq!(round_up_clean(10), 30);
    assert_eq!(round_up_clean(65), 120);
    assert_eq!(round_up_clean(500), 600);
    assert_eq!(round_up_clean(90_000), 172_800);
}

#[test]
fn nearest_rank_picks_expected_samples() {
    let sorted = [1, 2, 3, 4, 5, 6, 7, 8, 9, 10];
    assert_eq!(nearest_rank(&sorted, 50), 5);
    assert_eq!(nearest_rank(&sorted, 90), 9);
}

#[test]
fn percentiles_of_nothing_are_zero() {
    let none = percentiles(&Vec::new());
    assert_eq!((none.samples, none.median_seconds, none.p90_seconds), (0, 0, 0));
    let some = percentiles(&vec![40, 10, 30, 20]);
    assert_eq!((some.samples, some.median_seconds, some.p90_seconds), (4, 20, 40));
    assert!(some.median_seconds <= some.p90_seconds);
    assert_eq!(sorted_samples(&vec![3, 1, 2, 1]), vec![1, 1, 2, 3]);
    assert_eq!(nearest_rank(&[], 50), 0);
    assert_eq!(nearest_rank(&[7], 0), 7);
}

#[test]
fn durations_leave_out_seconds_beside_hours() {
    assert_eq!(format_duration(0), "0s");
    assert_eq!(format_duration(59), "59s");
    assert_eq!(format_duration(120), "2m");
    assert_eq!(format_duration(125), "2m5s");
    assert_eq!(format_duration(3600), "1h");
    assert_eq!(format_duration(3725), "1h2m");
    assert_eq!(truncate("short", 8), "short");
    assert_eq!(truncate("much too long", 8), "much to…");
}

#[test]
fn release_ends_a_stage_and_a_new_claim_ends_the_one_before() {
    let events = vec![
        event("1", 0, claimed(1000)),
        event("2", 10, stage(ClaimStage::Started, None)),
        event("3", 40, claimed(1000)),
        event("4", 50, stage(ClaimStage::Started, None)),
        event("5", 55, Payload::ClaimReleased { claim_id: "cl".into() }),
    ];
    let durations = stage_durations(&events);
    assert_eq!(durations.names, vec!["started"]);
    assert_eq!(durations.get("started"), Some(35));
    // A stage without a claim has no expiry that would bound it.
    let open = vec![event("1", 0, stage(ClaimStage::Started, None))];
    assert_eq!(stage_durations(&open).get("started"), None);
}

#[test]
fn latency_needs_the_patchset_of_the_verdict() {
    let events = vec![
        event("1", 0, verdict("ps-09", Verdict::Approved, Vec::new())),
        event("2", 5, patchset("ps-01", "h")),
        event("3", 9, patchset("ps-01", "h")),
        event("4", 25, verdict("ps-01", Verdict::CommentOnly, Vec::new())),
    ];
    assert_eq!(review_latency(&events), Some(20));
    assert_eq!(review_latency(&vec![]), None);
    assert_eq!(wall_time(&events), None);
}

#[test]
fn blocks_and_causes_are_counted() {
    let events = vec![
        event("1", 0, stage(ClaimStage::BlockedOn, None)),
        event("2", 0, stage(ClaimStage::BlockedOn, Some(BlockerRef::External))),
        event(
            "3",
            0,
            stage(
                ClaimStage::BlockedOn,
                Some(BlockerRef::Change { change_id: "x".into() }),
            ),
        ),
        event("4", 0, stage(ClaimStage::Started, Some(BlockerRef::External))),
        event("5", 1, patchset("ps-01", "h")),
        event(
            "6",
            2,
            verdict("ps-01", Verdict::ChangesRequested, vec![ReviewCause::Executor]),
        ),
        event(
            "7",
            3,
            verdict(
                "ps-01",
                Verdict::ChangesRequested,
                vec![ReviewCause::Executor, ReviewCause::Brief],
            ),
        ),
    ];
    let blocks = blocks_by_kind(&events);
    assert_eq!(blocks.names, vec!["change", "external", "unclassified"]);
    assert_eq!(blocks.get("external"), Some(1));
    let causes = review_rounds_by_cause(&events);
    assert_eq!(causes.get("executor"), Some(1));
    assert_eq!(causes.get("brief"), Some(1));
    assert_eq!(causes.get("integration-staleness"), None);
    let severities = findings_by_severity(&vec![
        finding("f-1", Severity::Minor),
        finding("f-2", Severity::Critical),
        finding("f-3", Severity::Minor),
    ]);
    assert_eq!(severities.get("minor"), Some(2));
    assert_eq!(severities.get("critical"), Some(1));
    assert_eq!(severities.get("note"), None);
}

#[test]
fn rework_counts_revisions_that_moved_the_code() {
    let reworked = vec![
        event("1", 0, patchset("ps-01", "h1")),
        event("2", 1, verdict("ps-01", Verdict::ChangesRequested, vec![ReviewCause::Executor])),
        event("3", 2, verdict("ps-01", Verdict::ChangesRequested, vec![ReviewCause::Executor])),
        event("4", 3, patchset("ps-02", "h2")),
        event("5", 4, verdict("ps-02", Verdict::Approved, Vec::new())),
    ];
    let rework = derive_rework(&reworked);
    assert_eq!(rework.changes_requested_rounds, 1);
    assert_eq!(rework.completed_rework_rounds, 1);
    assert_eq!(rework.reworked_patchsets, vec!["ps-01"]);
    assert!(!rework.first_pass_approval);
    assert_eq!(requested_patchsets(&reworked), vec!["ps-01"]);
    // The same head again answers nothing.
    let rebound = vec![
        event("1", 0, patchset("ps-01", "h1")),
        event("2", 1, verdict("ps-01", Verdict::ChangesRequested, vec![ReviewCause::Brief])),
        event("3", 2, patchset("ps-02", "h1")),
        event("4", 3, verdict("ps-02", Verdict::Approved, Vec::new())),
    ];
    assert_eq!(derive_rework(&rebound).completed_rework_rounds, 0);
    let clean = vec![
        event("1", 0, patchset("ps-01", "h1")),
        event("2", 1, verdict("ps-01", Verdict::Approved, Vec::new())),
    ];
    assert!(derive_rework(&clean).first_pass_approval);
    assert!(!derive_rework(&Vec::new()).first_pass_approval);
}

#[test]
fn rework_is_charged_to_whoever_wrote_the_patchset() {
    let history = vec![
        for_subject(event("1", 0, patchset("ps-01", "h1")), "writer"),
        for_subject(
            event("2", 1, verdict("ps-01", Verdict::ChangesRequested, vec![ReviewCause::Executor])),
            "judge",
        ),
        for_subject(event("3", 2, patchset("ps-02", "h2")), "fixer"),
        event("4", 3, verdict("ps-02", Verdict::Approved, Vec::new())),
    ];
    assert_eq!(subject(&history[0]), "writer");
    assert_eq!(subject(&history[3]), "(unattributed)");
    let models = by_model(&vec![history]);
    let rows: Vec<(&str, usize, usize, usize, usize)> = models
        .iter()
        .map(|row| {
            (
                row.identity.as_str(),
                row.changes,
                row.patchsets,
                row.rework_rounds_caused,
                row.verdicts,
            )
        })
        .collect();
    assert_eq!(
        rows,
        vec![
            ("(unattributed)", 1, 0, 0, 1),
            ("fixer", 1, 1, 0, 0),
            ("judge", 1, 0, 0, 1),
            ("writer", 1, 1, 1, 0),
        ]
    );
    assert_eq!(
        models_heading(),
        format!(
            "{:<40} {:>8} {:>10} {:>8} {:>9}",
            "identity", "changes", "patchsets", "caused-rw", "verdicts"
        )
    );
    assert_eq!(
        render_model(&models[3]),
        format!("{:<40} {:>8} {:>10} {:>8} {:>9}", "writer", 1, 1, 1, 0)
    );
}

#[test]
fn changes_are_summed_up() {
    let first = vec![
        event("1", 0, claimed(1000)),
        event("2", 0, stage(ClaimStage::Implementing, None)),
        event("3", 100, stage(ClaimStage::BlockedOn, None)),
        event("4", 130, Payload::ClaimReleased { claim_id: "cl".into() }),
        event("5", 131, run(Some("build"), Some(2_000), false)),
        event("6", 132, run(Some("build"), Some(3_999), false)),
        event("7", 133, run(None, Some(9_000), false)),
    ];
    let second = vec![
        event("1", 0, claimed(1000)),
        event("2", 0, stage(ClaimStage::Implementing, None)),
        event("3", 50, Payload::ClaimReleased { claim_id: "cl".into() }),
    ];
    let mut state = change("a-id");
    state.findings.push(finding("f-1", Severity::Minor));
    let one = change_stats(&first, &state);
    assert_eq!(one.slug, "a");
    assert_eq!(one.state, "open");
    assert_eq!(one.wall_time_seconds, None);
    assert_eq!(one.gate_seconds.get("build"), Some(5));
    assert_eq!(one.findings_by_severity.get("minor"), Some(1));
    let other = change_stats(&second, &change("b-id"));
    let mut runs = observed_gate_runs(&first);
    runs.append(&mut observed_gate_runs(&second));
    assert_eq!(gate_seconds(&runs).get("build"), Some(5));
    let changes = vec![one, other];
    assert_eq!(merge(&changes, Table::BlocksByKind).get("unclassified"), Some(1));
    assert!(merge(&changes, Table::RoundsByCause).names.is_empty());
    let aggregate = aggregate_stats(&changes, &runs);
    assert_eq!(aggregate.changes, 2);
    let stages: Vec<(&str, u64, u64)> = aggregate
        .stage
        .iter()
        .map(|(name, p)| (name.as_str(), p.median_seconds, p.p90_seconds))
        .collect();
    assert_eq!(stages, vec![("blocked-on", 30, 30), ("implementing", 50, 100)]);
    assert_eq!(
        aggregate.suggested_stage_budgets,
        vec![("blocked-on".to_string(), 30), ("implementing".to_string(), 120)]
    );
    assert_eq!(aggregate.gate[0].0, "build");
    assert_eq!(aggregate.gate[0].1.samples, 2);
    assert_eq!(
        render_aggregate(&aggregate),
        vec![
            "\nAggregate (2 changes)".to_string(),
            format!("{:<16} {:>8} {:>8} {:>16}", "stage", "median", "p90", "suggested-budget"),
            format!("{:<16} {:>8} {:>8} {:>16}", "blocked-on", "30s", "30s", "30s"),
            format!("{:<16} {:>8} {:>8} {:>16}", "implementing", "50s", "1m40s", "2m"),
            format!("{:<16} {:>8} {:>8}", "gate", "median", "p90"),
            format!("{:<16} {:>8} {:>8}", "build", "2s", "3s"),
        ]
    );
    assert_eq!(
        stats_heading(),
        format!(
            "{:<28} {:<10} {:>8} {:>8} {:>4} {:>4} {:>10} {:>8}",
            "change", "state", "wall", "review", "ps", "rw", "first-pass", "findings"
        )
    );
    assert_eq!(
        render_change(&changes[0]),
        format!(
            "{:<28} {:<10} {:>8} {:>8} {:>4} {:>4} {:>10} {:>8}",
            "a", "open", "—", "—", 0, 0, "no", 1
        )
    );
}

#[test]
fn selections_name_changes() {
    let mut tagged = change("b-id");
    tagged.tags.push("next".into());
    let changes = vec![change("a-id"), tagged];
    assert_eq!(select_changes(&StatsSelection::All, &changes), vec![0, 1]);
    assert_eq!(select_changes(&StatsSelection::Tag(" next ".into()), &changes), vec![1]);
    assert_eq!(select_changes(&StatsSelection::Change("a-id".into()), &changes), vec![0]);
    assert!(select_changes(&StatsSelection::Tag("other".into()), &changes).is_empty());
}

#[test]
fn tables_keep_their_names_in_order() {
    let mut tally = Tally::new();
    tally.tally("b", 2);
    tally.tally("a", 1);
    tally.tally("b", 3);
    assert_eq!(tally.names, vec!["a", "b"]);
    assert_eq!(tally.get("b"), Some(5));
    let mut register = Register::new();
    register.put("b", "2");
    register.put("a", "1");
    register.put("b", "3");
    assert_eq!(register.names, vec!["a", "b"]);
    assert_eq!(register.find("b"), Some(&"3".to_string()));
    assert_eq!(register.find("c"), None);
    let mut other = Register::new();
    other.put("a", "1");
    assert!(!register.same_as(&other));
    other.put("b", "3");
    assert!(register.same_as(&other));
    let mut names = vec!["a".to_string(), "c".to_string()];
    insert_name(&mut names, "b");
    insert_name(&mut names, "b");
    assert_eq!(names, vec!["a", "b", "c"]);
}
