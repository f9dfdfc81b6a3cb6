use arc_ledger::begin::{
    begin, branch_name, brief, change_title, check_branch, choose_target, ends_line, first_brief,
    opening_base, opening_payload, opening_worktree, prepended, read_acceptance_probes,
    resolve_scaffold, seeded_brief, seeds_brief, select_brief, show_brief, slug_user, BeginArgs,
    BeginRefusal, BranchRefusal, BriefArgs, BriefRefusal, BriefRequest, OpeningPlace,
    OpeningRefusal, ProbeFault, ScaffoldSource, TargetRefusal,
};
use arc_ledger::closing::{CheckRefusal, CheckRequest};
use arc_ledger::event::{Event, Payload};
use arc_ledger::listing::{
    approval_left_behind, blocker_label, change_for_branch, change_status, list, list_row,
    post_commit, prepare_commit_msg, print_projected, query, query_commit, reduce_at,
    review_checklist, show_selection, status_matches, status_output, verdict_label, wide_header,
    ListFormat, NoValue, Obligations, Printed, Projection, QueryArgs, QueryRefusal,
};
use arc_ledger::metadata::{
    is_blocked, metadata, read_metadata, resolve_blocker_removal, AmbiguousBlocker,
    BlockerRemoval, MetadataArgs, MetadataRefusal,
};
use arc_ledger::model::{AcceptanceProbe, ActorSource, Closure, Severity, Verdict};
use arc_ledger::state::{
    Brief, ChangeState, ClaimTiming, ClosureState, FindingState, HoldState, Patchset,
    StatusReport, VerdictState,
};
use arc_ledger::time::Timestamp;

fn at(seconds: i64) -> Timestamp {
    Timestamp::new(1_000_000 + seconds, 0).unwrap()
}

fn change(id: &str) -> ChangeState {
    ChangeState {
        change_id: id.into(),
        slug: id.trim_end_matches("-id").into(),
        title: id.into(),
        profile: "local".into(),
        iterating: false,
        target_branch: "master".into(),
        branch: format!("arc/{id}"),
        base: "base".into(),
        worktree: None,
        opened_by: "tester".into(),
        opened_harness: Some("test".into()),
        journal_ref: None,
        blocked_by: Vec::new(),
        tags: Vec::new(),
        assigned_to: None,
        priority: 0,
        opened_at: at(0),
        patchsets: Vec::new(),
        briefs: Vec::new(),
        findings: Vec::new(),
        audit_findings: Vec::new(),
        verdicts: Vec::new(),
        authority: None,
        verifications: Vec::new(),
        run_revisions: Vec::new(),
        audit_revisions: Vec::new(),
        claim: None,
        holds: Vec::new(),
        closure: None,
        changelog: None,
        messages: Vec::new(),
    }
}

fn closed(id: &str, outcome: Closure) -> ChangeState {
    let mut state = change(id);
    state.closure = Some(ClosureState {
        outcome,
        integrated_commit: if outcome == Closure::Integrated {
            Some(format!("commit-{id}"))
        } else {
            None
        },
        superseded_by: None,
        target_before: None,
        event_id: format!("closed-{id}"),
        created_at: at(100),
    });
    state
}

fn blocked(id: &str, by: &[&str]) -> ChangeState {
    let mut state = change(id);
    state.blocked_by = by.iter().map(|id| (*id).into()).collect();
    state
}

fn event(id: &str, payload: Payload) -> Event {
    Event {
        schema_version: 1,
        event_id: id.into(),
        repository_id: "repo".into(),
        change_id: "c".into(),
        actor: "tester".into(),
        actor_source: Some(ActorSource::Flag),
        on_behalf_of: None,
        model: None,
        harness: Some("test".into()),
        session: Some("s".into()),
        created_at: at(0),
        payload,
    }
}

fn live() -> ClaimTiming {
    ClaimTiming {
        active: true,
        stale: false,
        expired: false,
        stage: "implementing".into(),
    }
}

fn no_claim() -> ClaimTiming {
    ClaimTiming {
        active: false,
        stale: false,
        expired: false,
        stage: "started".into(),
    }
}

fn texts(values: &[&str]) -> Vec<String> {
    values.iter().map(|value| value.to_string()).collect()
}

fn snapshot_of(id: &str, head: &str) -> Patchset {
    Patchset {
        id: id.into(),
        base: "base".into(),
        head: head.into(),
        merge_base: None,
        actor: "writer".into(),
        on_behalf_of: None,
        brief_ref: None,
        brief_version: None,
        event_id: format!("event-{id}"),
    }
}

fn verdict_on(id: &str, verdict: Verdict, actor: &str) -> VerdictState {
    VerdictState {
        event_id: format!("verdict-{id}-{actor}"),
        patchset_id: id.into(),
        verdict,
        causes: Vec::new(),
        body: None,
        actor: actor.into(),
        on_behalf_of: None,
        model: None,
        created_at: at(10),
        provisional: None,
    }
}

fn finding_of(id: &str, severity: Severity, blocking: bool) -> FindingState {
    FindingState {
        finding_id: id.into(),
        origin_event: format!("origin-{id}"),
        blocking,
        severity,
        summary: format!("summary of {id}"),
        body: None,
        patchset_id: None,
        anchor: None,
        status: None,
        tips: Vec::new(),
        disposition_commits: Vec::new(),
    }
}

fn brief_of(event_id: &str, body: &str) -> Brief {
    Brief {
        event_id: event_id.into(),
        ts: at(0),
        actor: "lead".into(),
        on_behalf_of: None,
        title: None,
        body: body.into(),
        base_revision: None,
        acceptance_probes: Vec::new(),
        plan_ref: None,
        plan_slice: None,
    }
}

fn report_of(exit_code: i32, ready: bool) -> StatusReport {
    StatusReport {
        integrate_ready: ready,
        exit_code,
        ready_reason: "ready".into(),
        next_action: "next".into(),
        gates: Vec::new(),
        open_blocking_findings: Vec::new(),
        holds: Vec::new(),
        danger: "none".into(),
        approval_waived_by_debt: false,
    }
}

fn hold(id: &str) -> HoldState {
    HoldState {
        hold_event_id: id.into(),
        reason: "waiting".into(),
        held_by: "lead".into(),
    }
}

fn wanted(slug: &str) -> BeginArgs {
    BeginArgs {
        slug: slug.into(),
        title: None,
        profile: "local".into(),
        target: None,
        base: None,
        branch: None,
        worktree: None,
        no_worktree: false,
        adopt: None,
        blocked_by: texts(&["z-id", "b-id", "z-id"]),
        tags: texts(&[" web ", "api"]),
        from_journal: None,
        dangerous: true,
    }
}

fn place() -> OpeningPlace {
    OpeningPlace {
        branch_present: false,
        target_head: "tip".into(),
        merge_base: "fork-point".into(),
        adopted_worktree: Some("/work/theirs".into()),
        worktrees_dir: "/work".into(),
        repository: "radio".into(),
        path_present: false,
    }
}

/// The base and the worktree that a change is opened with.
fn placed(args: &BeginArgs, place: &OpeningPlace) -> Result<(String, Option<String>), OpeningRefusal> {
    let opening = begin(&Vec::new(), args, &Some("main".into()), &None).ok().unwrap();
    match opening_payload(args, opening, place)? {
        Payload::ChangeOpened { base, worktree, .. } => Ok((base, worktree)),
        _ => panic!("an opening is recorded"),
    }
}

#[test]
fn changes_begin_where_they_are_asked_to() {
    let mut args = wanted("add-retry");
    let own = Some("/work/radio-add-retry".to_string());
    assert_eq!(placed(&args, &place()), Ok(("tip".into(), own.clone())));
    args.base = Some("older".into());
    assert_eq!(placed(&args, &place()), Ok(("older".into(), own.clone())));
    args.worktree = Some("/elsewhere".into());
    assert_eq!(placed(&args, &place()), Ok(("older".into(), Some("/elsewhere".into()))));
    args.no_worktree = true;
    assert_eq!(placed(&args, &place()), Ok(("older".into(), None)));
    let mut taken = place();
    taken.path_present = true;
    assert_eq!(placed(&args, &taken), Ok(("older".into(), None)));
    args.no_worktree = false;
    assert_eq!(placed(&args, &taken), Err(OpeningRefusal::WorktreeExists));
    taken.branch_present = true;
    assert_eq!(
        placed(&args, &taken),
        Err(OpeningRefusal::Branch { refusal: BranchRefusal::AlreadyExists })
    );

    // An adopted branch keeps its own worktree.
    let mut adopting = wanted("add-retry");
    adopting.adopt = Some("feature".into());
    assert_eq!(
        placed(&adopting, &place()),
        Err(OpeningRefusal::Branch { refusal: BranchRefusal::NoSuchBranch })
    );
    assert_eq!(
        placed(&adopting, &taken),
        Ok(("fork-point".into(), Some("/work/theirs".into())))
    );
    adopting.base = Some("older".into());
    taken.adopted_worktree = None;
    assert_eq!(placed(&adopting, &taken), Ok(("older".into(), None)));
    assert_eq!(
        opening_worktree(false, &None, false, &None, "/work/", "radio", "a").as_deref(),
        Some("/work/radio-a")
    );
    assert_eq!(opening_base(&None, true, "tip", "fork-point"), "fork-point");
}

#[test]
fn only_a_plan_goes_on_after_a_change_begins_from_it() {
    assert!(seeds_brief("discussion") && !seeds_brief("plan"));
    let mut args = wanted("a");
    assert!(first_brief(&args, "discussion", "x", "abc").is_none());
    args.from_journal = Some("notes.md".into());
    assert!(first_brief(&args, "plan", "x", "abc").is_none());
    assert!(matches!(
        first_brief(&args, "discussion", "x\n", "abc"),
        Some(Payload::BriefRecorded { title: Some(title), .. }) if title == "Seeded from notes.md"
    ));
}

#[test]
fn changes_open_as_they_are_asked() {
    let changes = vec![change("a-id"), closed("b-id", Closure::Integrated)];
    let args = wanted("add-retry");
    let opening = begin(&changes, &args, &Some("main".into()), &None).ok().unwrap();
    assert_eq!(
        (opening.title.as_str(), opening.target_branch.as_str(), opening.branch.as_str()),
        ("add retry", "main", "arc/add-retry")
    );
    assert_eq!(opening.blocked_by, texts(&["b-id", "z-id"]));
    assert_eq!(opening.tags, texts(&["api", "web"]));
    match opening_payload(&args, opening, &place()).unwrap() {
        Payload::ChangeOpened { slug, title, profile, base, worktree, dangerous, journal_ref, .. } => {
            assert_eq!((slug.as_str(), title.as_str()), ("add-retry", "add retry"));
            assert_eq!((profile.as_str(), base.as_str(), dangerous), ("local", "tip", true));
            assert_eq!((worktree.as_deref(), journal_ref), (Some("/work/radio-add-retry"), None));
        }
        _ => panic!("an opening is recorded"),
    }
    // The slug of a closed change is free again.
    assert!(begin(&changes, &wanted("b"), &Some("main".into()), &None).is_ok());
    assert_eq!(slug_user(&changes, "b"), None);
    assert_eq!(slug_user(&changes, "a"), Some(0));
}

#[test]
fn openings_are_refused_for_a_reason() {
    let changes = vec![change("a-id")];
    let mut args = wanted("a");
    assert!(matches!(
        begin(&changes, &args, &None, &None),
        Err(BeginRefusal::SlugInUse { change: 0 })
    ));
    args.tags = texts(&["ok", "not ok"]);
    assert!(matches!(
        begin(&changes, &args, &None, &None),
        Err(BeginRefusal::InvalidTag { tag }) if tag == "not ok"
    ));
    let args = wanted("b");
    assert!(matches!(
        begin(&changes, &args, &None, &None),
        Err(BeginRefusal::Target { refusal: TargetRefusal::Undetermined })
    ));
    assert!(matches!(
        begin(&changes, &args, &None, &Some("arc/a-id".into())),
        Err(BeginRefusal::Target { refusal: TargetRefusal::BranchOfOpenChange })
    ));
}

#[test]
fn targets_and_branches_are_chosen() {
    let changes = vec![change("a-id")];
    let main = Some("main".to_string());
    let stacked = Some("arc/a-id".to_string());
    assert_eq!(choose_target(&changes, &None, &main, &stacked), Ok("main".to_string()));
    assert_eq!(choose_target(&changes, &None, &None, &main), Ok("main".to_string()));
    assert_eq!(choose_target(&changes, &stacked, &main, &None), Ok("arc/a-id".to_string()));
    assert_eq!(
        choose_target(&changes, &None, &stacked, &main),
        Err(TargetRefusal::BranchOfOpenChange)
    );
    assert_eq!(branch_name(&None, &None, "x"), "arc/x");
    assert_eq!(branch_name(&None, &Some("mine".into()), "x"), "mine");
    assert_eq!(branch_name(&Some("theirs".into()), &Some("mine".into()), "x"), "theirs");
    assert_eq!(check_branch(true, true), Ok(()));
    assert_eq!(check_branch(false, false), Ok(()));
    assert_eq!(check_branch(true, false), Err(BranchRefusal::NoSuchBranch));
    assert_eq!(check_branch(false, true), Err(BranchRefusal::AlreadyExists));
    assert_eq!(change_title(&Some("A title".into()), "x"), "A title");
    assert_eq!(change_title(&None, "a-b-c"), "a b c");
}

fn told() -> BriefArgs {
    BriefArgs {
        body_file: None,
        title: None,
        base: None,
        version: None,
        scaffold: None,
        plan_ref: None,
        plan_slice: None,
        probes_json: None,
    }
}

#[test]
fn briefs_are_recorded_or_shown() {
    assert_eq!(brief(&told(), false), Ok(BriefRequest::Show));
    let mut args = told();
    args.body_file = Some("-".into());
    assert_eq!(brief(&args, true), Ok(BriefRequest::Record));
    assert_eq!(brief(&args, false), Err(BriefRefusal::OnlyLeadRecords));
    args.version = Some(1);
    assert_eq!(brief(&args, true), Err(BriefRefusal::VersionWhenRecording));
    args.probes_json = Some("-".into());
    assert_eq!(brief(&args, true), Err(BriefRefusal::TwoReadStdin));
    args.plan_ref = Some("p".into());
    assert_eq!(brief(&args, true), Err(BriefRefusal::PlanNeedsBoth));
    let mut args = told();
    args.plan_ref = Some("p".into());
    args.plan_slice = Some("1".into());
    assert_eq!(brief(&args, true), Err(BriefRefusal::PlanNeedsBody));
    args.base = Some("b".into());
    assert_eq!(brief(&args, true), Err(BriefRefusal::BaseNeedsBody));
    args.title = Some("t".into());
    assert_eq!(brief(&args, true), Err(BriefRefusal::TitleNeedsBody));
}

#[test]
fn briefs_read_as_they_were_told() {
    let mut shown = brief_of("b1", "Do it.");
    assert_eq!(show_brief(&shown), "Do it.");
    shown.base_revision = Some("abc".into());
    shown.plan_ref = Some("plan".into());
    shown.plan_slice = Some("2".into());
    shown.acceptance_probes =
        vec![AcceptanceProbe { name: "smoke".into(), command: "make smoke".into() }];
    assert_eq!(
        show_brief(&shown),
        "base-revision: abc\nplan-ref: plan\nplan-slice: 2\n\nacceptance-probe: smoke = make smoke\n\nDo it."
    );
    let mut state = change("a-id");
    assert_eq!(select_brief(&state, None), None);
    state.briefs = vec![brief_of("b1", "x"), brief_of("b2", "y")];
    assert_eq!(select_brief(&state, None), Some(1));
    assert_eq!(select_brief(&state, Some(1)), Some(0));
    assert_eq!(select_brief(&state, Some(3)), None);
    match seeded_brief("notes.md", "Think.\n\n", "abc") {
        Payload::BriefRecorded { title, body, base_revision, .. } => {
            assert_eq!(title.as_deref(), Some("Seeded from notes.md"));
            assert_eq!(
                body,
                "> Seeded from journal artifact `notes.md` by `begin --from-journal`.\n\nThink."
            );
            assert_eq!(base_revision.as_deref(), Some("abc"));
        }
        _ => panic!("a brief is recorded"),
    }
}

#[test]
fn probes_have_names_and_commands() {
    let probe = |name: &str, command: &str| AcceptanceProbe { name: name.into(), command: command.into() };
    let good = vec![probe("a", "x"), probe("b", "y")];
    assert_eq!(read_acceptance_probes(&good, &vec![true, true]), Ok(()));
    assert_eq!(
        read_acceptance_probes(&good, &vec![true, false]),
        Err((1, ProbeFault::InvalidName))
    );
    let twice = vec![probe("a", "x"), probe("a", "y")];
    assert_eq!(
        read_acceptance_probes(&twice, &vec![true, true]),
        Err((1, ProbeFault::DuplicateName))
    );
    let idle = vec![probe("a", " "), probe("a", "y")];
    assert_eq!(
        read_acceptance_probes(&idle, &vec![true, true]),
        Err((0, ProbeFault::EmptyCommand))
    );
}

#[test]
fn templates_of_the_repository_win() {
    let built_in = texts(&["brief", "review"]);
    assert!(matches!(
        resolve_scaffold(Some("mine".into()), &built_in, "brief"),
        ScaffoldSource::Repository { template } if template == "mine"
    ));
    assert!(matches!(
        resolve_scaffold(None, &built_in, "review"),
        ScaffoldSource::BuiltIn { index: 1 }
    ));
    assert!(matches!(resolve_scaffold(None, &built_in, "other"), ScaffoldSource::Unknown));
    assert_eq!(prepended("T", "B"), "T\n\nB");
    assert_eq!(prepended("T\n", "B"), "T\n\nB");
    assert_eq!(prepended("", "B"), "B");
    assert_eq!(prepended("T", ""), "T\n");
    assert!(ends_line("a\n") && !ends_line("a") && !ends_line(""));
}

fn judged(id: &str, verdict: Verdict, head: &str) -> ChangeState {
    let mut state = change(id);
    state.patchsets = vec![snapshot_of("ps-01", head)];
    state.verdicts = vec![verdict_on("ps-01", verdict, "judge")];
    state.authority = Some(0);
    state
}

#[test]
fn changes_are_listed_with_what_keeps_them() {
    let mut found = change("c-id");
    found.findings = vec![
        finding_of("F1", Severity::Major, true),
        finding_of("F2", Severity::Note, false),
    ];
    let mut waiting = change("d-id");
    waiting.holds = vec![hold("H")];
    let changes = vec![
        closed("a-id", Closure::Integrated),
        blocked("b-id", &["a-id", "c-id"]),
        found,
        waiting,
        judged("e-id", Verdict::Approved, "h"),
    ];
    assert_eq!(list(&changes, false), vec![0, 1, 2, 3, 4]);
    assert_eq!(list(&changes, true), vec![1, 2, 3, 4]);
    assert_eq!(change_status(&changes[0]), "integrated");
    assert_eq!(change_status(&changes[1]), "open");
    assert!(status_matches(&changes[0], "closed") && !status_matches(&changes[0], "open"));
    assert_eq!(verdict_label(&changes[1]), "none");
    assert_eq!(verdict_label(&changes[4]), "approved");
    assert_eq!(blocker_label(&changes[1], &changes), "blocked-by:c");
    assert_eq!(blocker_label(&changes[2], &changes), "1 findings");
    assert_eq!(blocker_label(&changes[3], &changes), "hold");
    assert_eq!(blocker_label(&changes[4], &changes), "—");

    assert_eq!(list_row(&changes[3], &changes, ListFormat::Compact), "d-id\n");
    assert_eq!(
        list_row(&changes[0], &changes, ListFormat::Default),
        "a-id  [integrated] a-id (arc/a-id)\n"
    );
    assert_eq!(
        wide_header(),
        format!(
            "{:<36} {:>8} {:<12} {:<18} {:<24} {}\n",
            "Change", "Priority", "Status", "Verdict", "Blocker", "Target"
        )
    );
    assert_eq!(
        list_row(&changes[4], &changes, ListFormat::Wide),
        format!("{:<36} {:>8} {:<12} {:<18} {:<24} {}\n", "e-id", 0, "open", "approved", "—", "master")
    );
}

fn asking() -> QueryArgs {
    QueryArgs {
        status: None,
        target: None,
        tags: Vec::new(),
        verdict: None,
        actor: None,
        harness: None,
        audit_debt: false,
        provisional: false,
        json: false,
    }
}

#[test]
fn queries_choose_changes() {
    let mut tagged = change("b-id");
    tagged.tags = texts(&["web"]);
    tagged.opened_by = "writer".into();
    let changes = vec![closed("a-id", Closure::Abandoned), tagged, judged("c-id", Verdict::Approved, "h")];
    let owed = || -> Vec<Obligations> {
        vec![
            Obligations { audit_debt: true, provisional: false },
            Obligations { audit_debt: false, provisional: true },
            Obligations { audit_debt: false, provisional: false },
        ]
    };
    let ask = |args: &QueryArgs| query(&changes, &owed(), args).ok().unwrap();
    assert_eq!(ask(&asking()), vec![0, 1, 2]);
    let mut args = asking();
    args.status = Some("open".into());
    assert_eq!(ask(&args), vec![1, 2]);
    args.tags = texts(&[" web"]);
    assert_eq!(ask(&args), vec![1]);
    let mut args = asking();
    args.verdict = Some(Verdict::Approved);
    assert_eq!(ask(&args), vec![2]);
    let mut args = asking();
    args.actor = Some("writer".into());
    assert_eq!(ask(&args), vec![1]);
    let mut args = asking();
    args.harness = Some("other".into());
    assert!(ask(&args).is_empty());
    let mut args = asking();
    args.target = Some("next".into());
    assert!(ask(&args).is_empty());
    let mut args = asking();
    args.audit_debt = true;
    assert_eq!(ask(&args), vec![0]);
    let mut args = asking();
    args.provisional = true;
    assert_eq!(ask(&args), vec![1]);

    let mut args = asking();
    args.tags = texts(&[" "]);
    assert!(matches!(
        query(&changes, &owed(), &args),
        Err(QueryRefusal::InvalidTag { tag }) if tag.is_empty()
    ));
    args.status = Some("merged".into());
    assert!(matches!(query(&changes, &owed(), &args), Err(QueryRefusal::UnknownStatus)));
}

#[test]
fn a_change_or_some_tags_are_shown() {
    let none: Vec<String> = Vec::new();
    assert!(matches!(show_selection(Some("a"), &none), Ok(CheckRequest::One)));
    assert!(matches!(show_selection(None, &texts(&["a"])), Ok(CheckRequest::Tagged { .. })));
    assert!(matches!(show_selection(None, &none), Err(CheckRefusal::Nothing)));
    assert_eq!(review_checklist(true, &texts(&["read it"])), "");
    assert_eq!(review_checklist(false, &none), "");
    assert_eq!(
        review_checklist(false, &texts(&["read it", "run it"])),
        "\n## Review checklist\n\n- [ ] read it\n- [ ] run it\n"
    );
}

#[test]
fn blocked_changes_come_with_other_work() {
    let changes = vec![blocked("a-id", &["b-id"]), change("b-id"), change("c-id")];
    let timings = vec![no_claim(), live(), no_claim()];
    let output = status_output(report_of(2, false), &changes[0], &changes, &timings);
    assert_eq!(output.report.exit_code, 2);
    assert_eq!(output.suggested_alternatives.len(), 2);
    let output = status_output(report_of(0, true), &changes[1], &changes, &timings);
    assert!(output.suggested_alternatives.is_empty());
}

#[test]
fn history_is_read_up_to_an_event() {
    let held_up = || Payload::HoldSet { reason: "r".into() };
    let events = vec![event("1", held_up()), event("2", held_up()), event("2", held_up())];
    assert_eq!(reduce_at(&events, "2"), Some(2));
    assert_eq!(reduce_at(&events, "3"), None);
}

#[test]
fn commits_lead_to_their_changes() {
    let mut on_head = change("b-id");
    on_head.patchsets = vec![snapshot_of("ps-01", "abc123")];
    let changes = vec![closed("a-id", Closure::Integrated), on_head];
    assert_eq!(query_commit(&changes, "abc"), vec![1]);
    assert_eq!(query_commit(&changes, "commit-a"), vec![0]);
    assert!(query_commit(&changes, "123").is_empty());
    let mut later = closed("c-id", Closure::Abandoned);
    later.branch = "arc/a-id".into();
    let changes = vec![closed("a-id", Closure::Integrated), change("b-id"), later];
    assert_eq!(change_for_branch(&changes, "arc/a-id"), Some(2));
    assert_eq!(change_for_branch(&changes, "arc/b-id"), Some(1));
    assert_eq!(change_for_branch(&changes, "main"), None);
}

#[test]
fn approvals_are_bound_to_their_head() {
    let state = judged("a-id", Verdict::Approved, "0123456789abcdef");
    assert_eq!(approval_left_behind(&state, "0123456789abcdef"), None);
    assert_eq!(approval_left_behind(&state, "other"), Some(0));
    assert_eq!(approval_left_behind(&judged("a-id", Verdict::CommentOnly, "h"), "other"), None);
    assert_eq!(
        post_commit(&state, "other").as_deref(),
        Some("arc: approval on a-id is now stale (ps-01 approved at 0123456789ab)")
    );
    assert_eq!(post_commit(&state, "0123456789abcdef"), None);
    assert_eq!(
        post_commit(&closed("a-id", Closure::Integrated), "h").as_deref(),
        Some("arc: this branch's change a-id is closed; new commits are not tracked")
    );
}

#[test]
fn commit_messages_carry_their_change_once() {
    let once = prepare_commit_msg("Fix it", "a-id").unwrap();
    assert_eq!(once, "Fix it\nArc-Change: a-id\n");
    assert_eq!(prepare_commit_msg(&once, "a-id"), None);
    assert_eq!(prepare_commit_msg("x\n  Arc-Change: a-id  \n", "a-id"), None);
    assert!(prepare_commit_msg("x\nArc-Change: b-id\n", "a-id").is_some());
}

fn asked_of_metadata() -> MetadataArgs {
    MetadataArgs {
        add_blocked_by: Vec::new(),
        remove_blocked_by: Vec::new(),
        tags: Vec::new(),
        remove_tags: Vec::new(),
        assign: None,
        priority: None,
    }
}

#[test]
fn metadata_is_updated_as_asked() {
    let changes = vec![blocked("a-id", &["b-id"]), change("b-id"), closed("c-id", Closure::Abandoned)];
    let mut args = asked_of_metadata();
    assert!(matches!(metadata(&changes, 1, &args), Err(MetadataRefusal::Nothing)));
    assert!(matches!(metadata(&changes, 2, &args), Err(MetadataRefusal::Closed)));
    args.add_blocked_by = texts(&["c-id"]);
    args.tags = texts(&[" web"]);
    args.assign = Some(" bot ".into());
    args.priority = Some(-2);
    match metadata(&changes, 0, &args) {
        Ok(Payload::MetadataUpdated { add_blocked_by, add_tags, assign, priority, .. }) => {
            assert_eq!((add_blocked_by, add_tags), (texts(&["c-id"]), texts(&["web"])));
            assert_eq!((assign.as_deref(), priority), (Some("bot"), Some(-2)));
        }
        _ => panic!("an update is recorded"),
    }
    args.assign = Some("a b".into());
    assert!(matches!(metadata(&changes, 0, &args), Err(MetadataRefusal::SpacedAssignment)));
    args.remove_tags = texts(&["a b"]);
    assert!(matches!(
        metadata(&changes, 0, &args),
        Err(MetadataRefusal::InvalidTag { tag }) if tag == "a b"
    ));
    args.add_blocked_by = texts(&["a-id"]);
    assert!(matches!(
        metadata(&changes, 1, &args),
        Err(MetadataRefusal::Circle { blocker }) if blocker == "a-id"
    ));
    args.add_blocked_by = texts(&["b-id"]);
    assert!(matches!(metadata(&changes, 1, &args), Err(MetadataRefusal::Circle { .. })));
}

#[test]
fn blockers_are_removed_by_name() {
    let state = blocked("a-id", &["x1-id", "x2-id", "y-id"]);
    assert!(matches!(
        resolve_blocker_removal(&state, "y"),
        Ok(BlockerRemoval::Blocker { change_id }) if change_id == "y-id"
    ));
    assert!(matches!(
        resolve_blocker_removal(&state, "x2-id"),
        Ok(BlockerRemoval::Blocker { change_id }) if change_id == "x2-id"
    ));
    assert!(matches!(resolve_blocker_removal(&state, "z"), Ok(BlockerRemoval::Ledger)));
    assert!(matches!(
        resolve_blocker_removal(&state, "x"),
        Err(AmbiguousBlocker { matches: 2 })
    ));
}

#[test]
fn metadata_reads_line_by_line() {
    let mut state = blocked("a-id", &["b-id", "c-id"]);
    state.tags = texts(&["web"]);
    state.priority = -3;
    assert_eq!(
        read_metadata(&state),
        "change: a-id\nblocked-by: b-id, c-id\ntags: web\nassigned-to: \npriority: -3\n"
    );
    let changes = vec![state, closed("b-id", Closure::Integrated), change("c-id")];
    let (text, code) = is_blocked(&changes[0], &changes);
    assert_eq!((text.as_str(), code), ("blocked by c-id (open)\n", 1));
    assert_eq!(
        is_blocked(&changes[2], &changes),
        ("ready: all prerequisite changes are integrated\n".to_string(), 0)
    );
}

#[test]
fn values_are_printed_as_they_are_asked_for() {
    let value = |text: &str| serde_json::from_str::<serde_json::Value>(text).unwrap();
    let at = |text: &str| match print_projected(&Projection::At { found: Some(value(text)) }) {
        Ok(Printed::Text { text }) => text,
        Ok(Printed::Json { bytes }) => String::from_utf8(bytes).unwrap(),
        Err(NoValue) => panic!("there is a value"),
    };
    // A text is printed without its quotation marks.
    assert_eq!(at("\"a b\""), "a b");
    assert_eq!(at("[1, \"a\"]"), "[1,\"a\"]");
    assert_eq!(at("true"), "true");
    assert!(matches!(print_projected(&Projection::At { found: None }), Err(NoValue)));
    assert!(matches!(
        print_projected(&Projection::Fields { picked: value("\"a\"") }),
        Ok(Printed::Json { bytes }) if bytes == b"\"a\""
    ));
    assert!(matches!(
        print_projected(&Projection::Whole { value: value("[1]") }),
        Ok(Printed::Json { bytes }) if bytes == b"[\n  1\n]"
    ));
}
