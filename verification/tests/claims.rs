use arc_ledger::claims::{
    check_stage, claim, command_identity, decide_claim, default_stage_budgets, identity_event_at,
    next_stage_step, owns_live_claim, parse_stage_budget, parse_ttl, release_claim,
    resolve_blocker, stage_budgets, take, takeover_abandoned, BlockerError, BudgetError,
    ClaimConflict, ClaimDecision, ClaimError, ClaimMode, ClaimOutcome, IdentityError,
    NamedBlocker, ReleaseOutcome, StageArg, StageError, StageStep, TakeError,
};
use arc_ledger::context::{ensure_append_allowed, AppendPermission, AppendRefusal, Ctx};
use arc_ledger::event::Payload;
use arc_ledger::input::DurationError;
use arc_ledger::model::{ActorSource, BlockerRef, Closure, StageBudget};
use arc_ledger::state::{Brief, ChangeState, ClaimIdentity, ClaimState, ClaimTiming, ClosureState};
use arc_ledger::time::Timestamp;

fn at(seconds: i64) -> Timestamp {
    Timestamp::new(1_000_000 + seconds, 0).unwrap()
}

fn change(id: &str) -> ChangeState {
    ChangeState {
        change_id: id.into(),
        slug: id.trim_end_matches("-id").into(),
        title: id.into(),
        profile: "local".into(),
        iterating: false,
        target_branch: "master".into(),
        branch: format!("arc/{id}"),
        base: "base".into(),
        worktree: None,
        opened_by: "tester".into(),
        opened_harness: Some("test".into()),
        journal_ref: None,
        blocked_by: Vec::new(),
        tags: Vec::new(),
        assigned_to: None,
        priority: 0,
        opened_at: at(0),
        patchsets: Vec::new(),
        briefs: Vec::new(),
        findings: Vec::new(),
        audit_findings: Vec::new(),
        verdicts: Vec::new(),
        authority: None,
        verifications: Vec::new(),
        run_revisions: Vec::new(),
        audit_revisions: Vec::new(),
        claim: None,
        holds: Vec::new(),
        closure: None,
        changelog: None,
        messages: Vec::new(),
    }
}

fn closed(id: &str, outcome: Closure) -> ChangeState {
    let mut state = change(id);
    state.closure = Some(ClosureState {
        outcome,
        integrated_commit: if outcome == Closure::Integrated {
            Some(format!("commit-{id}"))
        } else {
            None
        },
        superseded_by: None,
        target_before: None,
        event_id: format!("closed-{id}"),
        created_at: at(100),
    });
    state
}

fn ctx(actor: &str) -> Ctx {
    Ctx {
        cwd: "/work".into(),
        actor: actor.into(),
        actor_source: ActorSource::Flag,
        fallback_announced: false,
        harness: Some("cli".into()),
        session: Some("one".into()),
        model: None,
        on_behalf_of: None,
    }
}

fn owner(actor: &str) -> ClaimIdentity {
    ClaimIdentity {
        actor: actor.into(),
        harness: "cli".into(),
        session: "one".into(),
    }
}

fn held(claim_id: &str, actor: &str) -> ClaimState {
    ClaimState {
        claim_id: claim_id.into(),
        owner: owner(actor),
    }
}

fn live() -> ClaimTiming {
    ClaimTiming {
        active: true,
        stale: false,
        expired: false,
        stage: "implementing".into(),
    }
}

fn no_claim() -> ClaimTiming {
    ClaimTiming {
        active: false,
        stale: false,
        expired: false,
        stage: "started".into(),
    }
}

fn texts(values: &[&str]) -> Vec<String> {
    values.iter().map(|value| value.to_string()).collect()
}

fn brief_of(event_id: &str, body: &str) -> Brief {
    Brief {
        event_id: event_id.into(),
        ts: at(0),
        actor: "lead".into(),
        on_behalf_of: None,
        title: None,
        body: body.into(),
        base_revision: None,
        acceptance_probes: Vec::new(),
        plan_ref: None,
        plan_slice: None,
    }
}

fn stale() -> ClaimTiming {
    let mut timing = live();
    timing.stale = true;
    timing
}

fn expired() -> ClaimTiming {
    let mut timing = no_claim();
    timing.expired = true;
    timing
}

fn claimed_by(actor: &str) -> ChangeState {
    let mut state = change("a-id");
    state.claim = Some(held("claim-1", actor));
    state
}

#[test]
fn identities_need_all_three_parts() {
    let found = command_identity(&ctx("  lead ")).unwrap_or_else(|_| unreachable!());
    assert_eq!((found.actor.as_str(), found.harness.as_str()), ("lead", "cli"));
    assert!(matches!(command_identity(&ctx(" ")), Err(IdentityError::NoActor)));
    let mut bare = ctx("lead");
    bare.harness = Some("  ".into());
    assert!(matches!(command_identity(&bare), Err(IdentityError::NoHarness)));
    bare.harness = Some("cli".into());
    bare.session = None;
    assert!(matches!(command_identity(&bare), Err(IdentityError::NoSession)));
}

#[test]
fn budgets_replace_their_defaults() {
    assert_eq!(parse_stage_budget("launch=2m"), Ok((StageBudget::Launch, 120)));
    assert_eq!(parse_stage_budget("blocked-on=1h"), Ok((StageBudget::BlockedOn, 3600)));
    assert_eq!(parse_stage_budget("launch"), Err(BudgetError::NoSeparator));
    assert_eq!(parse_stage_budget("other=2m"), Err(BudgetError::UnknownStage));
    assert_eq!(
        parse_stage_budget("launch=0s"),
        Err(BudgetError::Duration(DurationError::Zero))
    );
    assert_eq!(
        default_stage_budgets(),
        vec![
            (StageBudget::Launch, 60),
            (StageBudget::Started, 300),
            (StageBudget::SpecRead, 120),
            (StageBudget::Implementing, 1800),
            (StageBudget::Verifying, 900),
            (StageBudget::BlockedOn, 900),
            (StageBudget::Snapshotted, 3600),
        ]
    );
    let budgets = stage_budgets(&texts(&["started=9s", "started=8s"])).unwrap();
    assert_eq!(budgets.len(), 7);
    assert_eq!(budgets[1], (StageBudget::Started, 8));
    assert_eq!(parse_ttl(&None), Ok(7200));
    assert_eq!(parse_ttl(&Some("90s".into())), Ok(90));
    assert_eq!(parse_ttl(&Some("s".into())), Err(DurationError::NotANumber));
}

#[test]
fn live_claims_stand_and_stale_ones_yield() {
    let lead = owner("lead");
    let theirs = Some(held("claim-1", "other"));
    let asking = ClaimMode::Standard { takeover: false };
    let taking = ClaimMode::Standard { takeover: true };
    assert_eq!(
        decide_claim(&theirs, &live(), &lead, taking),
        ClaimDecision::Conflict(ClaimConflict::Held)
    );
    assert_eq!(
        decide_claim(&theirs, &stale(), &lead, asking),
        ClaimDecision::Conflict(ClaimConflict::HeldStale)
    );
    assert_eq!(decide_claim(&theirs, &stale(), &lead, taking), ClaimDecision::Displace);
    assert_eq!(decide_claim(&theirs, &expired(), &lead, asking), ClaimDecision::Displace);
    let ours = Some(held("claim-1", "lead"));
    assert_eq!(decide_claim(&ours, &live(), &lead, asking), ClaimDecision::Renew);
    assert_eq!(decide_claim(&ours, &expired(), &lead, asking), ClaimDecision::Displace);
    assert_eq!(decide_claim(&None, &no_claim(), &lead, asking), ClaimDecision::Fresh);
    assert_eq!(
        decide_claim(&ours, &live(), &lead, ClaimMode::RequireAbandoned),
        ClaimDecision::Conflict(ClaimConflict::NotAbandoned)
    );
    assert_eq!(
        decide_claim(&None, &no_claim(), &lead, ClaimMode::RequireAbandoned),
        ClaimDecision::Conflict(ClaimConflict::NotAbandoned)
    );
    assert_eq!(
        decide_claim(&theirs, &stale(), &lead, ClaimMode::RequireAbandoned),
        ClaimDecision::Displace
    );
}

#[test]
fn claims_are_renewed_displaced_or_new() {
    let none = Vec::new();
    let outcome = claim(
        &ctx("lead"),
        &Some("1m".into()),
        &none,
        false,
        &claimed_by("lead"),
        &live(),
        "fresh".into(),
        AppendPermission::OpenOnly,
    )
    .unwrap();
    assert_eq!(outcome.exit_code(), 0);
    assert!(matches!(
        &outcome,
        ClaimOutcome::Claimed { claim_id, ttl_seconds: 60, displaced: None, .. }
            if claim_id == "claim-1"
    ));
    let outcome = claim(
        &ctx("lead"),
        &None,
        &none,
        true,
        &claimed_by("other"),
        &stale(),
        "fresh".into(),
        AppendPermission::OpenOnly,
    )
    .unwrap();
    match outcome {
        ClaimOutcome::Claimed { claim_id, displaced: Some(displaced), .. } => {
            assert_eq!(claim_id, "fresh");
            assert_eq!((displaced.claim_id.as_str(), displaced.actor.as_str()), ("claim-1", "other"));
            assert_eq!(displaced.stage, "implementing");
        }
        _ => panic!("the claim is displaced"),
    }
    let outcome = claim(
        &ctx("lead"),
        &None,
        &none,
        true,
        &claimed_by("other"),
        &live(),
        "fresh".into(),
        AppendPermission::OpenOnly,
    )
    .unwrap();
    assert_eq!(outcome.exit_code(), 8);
    let refused = claim(
        &ctx("lead"),
        &None,
        &none,
        false,
        &closed("a-id", Closure::Abandoned),
        &no_claim(),
        "fresh".into(),
        AppendPermission::OpenOnly,
    );
    assert!(matches!(refused, Err(ClaimError::Append(AppendRefusal::NeedsOpen { .. }))));
    let refused = claim(
        &ctx(""),
        &Some("x".into()),
        &none,
        false,
        &change("a-id"),
        &no_claim(),
        "fresh".into(),
        AppendPermission::OpenOnly,
    );
    assert!(matches!(refused, Err(ClaimError::Identity(IdentityError::NoActor))));
    let refused = claim(
        &ctx("lead"),
        &Some("x".into()),
        &none,
        false,
        &change("a-id"),
        &no_claim(),
        "fresh".into(),
        AppendPermission::OpenOnly,
    );
    assert!(matches!(refused, Err(ClaimError::Ttl(_))));
    let refused = claim(
        &ctx("lead"),
        &None,
        &texts(&["x"]),
        false,
        &change("a-id"),
        &no_claim(),
        "fresh".into(),
        AppendPermission::OpenOnly,
    );
    assert!(matches!(refused, Err(ClaimError::Budget(BudgetError::NoSeparator))));
    let rescued = takeover_abandoned(
        &ctx("lead"),
        &claimed_by("other"),
        &expired(),
        "fresh".into(),
        AppendPermission::OpenOnly,
    )
    .unwrap();
    assert!(matches!(rescued, ClaimOutcome::Claimed { displaced: Some(_), .. }));
}

#[test]
fn live_claims_are_released() {
    let released = release_claim(&ctx("lead"), &claimed_by("other"), &live()).unwrap();
    assert_eq!(released.exit_code(), 0);
    assert!(matches!(released, ReleaseOutcome::Released { claim_id } if claim_id == "claim-1"));
    let none = release_claim(&ctx("lead"), &change("a-id"), &no_claim()).unwrap();
    assert!(matches!(none, ReleaseOutcome::NoClaim));
    assert_eq!(none.exit_code(), 8);
    let late = release_claim(&ctx("lead"), &claimed_by("lead"), &expired()).unwrap();
    assert!(matches!(late, ReleaseOutcome::Expired));
    assert!(release_claim(&ctx(""), &change("a-id"), &no_claim()).is_err());
}

#[test]
fn blocks_say_what_blocks_them() {
    let note = Some("  why ".to_string());
    let blocker = Some("external".to_string());
    assert_eq!(
        check_stage(StageArg::BlockedOn, &note, &blocker),
        Ok(Some("why".to_string()))
    );
    assert_eq!(
        check_stage(StageArg::BlockedOn, &Some(" ".into()), &blocker),
        Err(StageError::NoteRequired)
    );
    assert_eq!(
        check_stage(StageArg::BlockedOn, &note, &None),
        Err(StageError::BlockerRequired)
    );
    assert_eq!(
        check_stage(StageArg::Started, &None, &blocker),
        Err(StageError::BlockerNotAllowed)
    );
    assert_eq!(check_stage(StageArg::Started, &Some(" ".into()), &None), Ok(None));
}

#[test]
fn stages_go_under_an_owned_live_claim() {
    let lead = owner("lead");
    let ours = Some(held("claim-1", "lead"));
    let theirs = Some(held("claim-1", "other"));
    assert!(owns_live_claim(&ours, &live(), &lead));
    assert!(!owns_live_claim(&theirs, &live(), &lead));
    assert!(!owns_live_claim(&ours, &expired(), &lead));
    assert!(matches!(
        next_stage_step(&ours, &live(), &lead, true),
        StageStep::Record { claim_id } if claim_id == "claim-1"
    ));
    assert!(matches!(
        next_stage_step(&theirs, &live(), &lead, true),
        StageStep::HeldByAnother
    ));
    assert!(matches!(
        next_stage_step(&theirs, &expired(), &lead, true),
        StageStep::ClaimFirst { displaced: Some(_) }
    ));
    assert!(matches!(
        next_stage_step(&None, &no_claim(), &lead, true),
        StageStep::ClaimFirst { displaced: None }
    ));
    assert!(matches!(next_stage_step(&None, &no_claim(), &lead, false), StageStep::NoClaim));
    assert!(matches!(next_stage_step(&ours, &expired(), &lead, false), StageStep::Expired));
    assert!(matches!(next_stage_step(&theirs, &live(), &lead, false), StageStep::NotOwner));
}

#[test]
fn blockers_are_named_by_kind() {
    let mut state = change("a-id");
    state.briefs.push(brief_of("brief-event", "body"));
    assert!(matches!(
        resolve_blocker(&state, "external"),
        Ok(NamedBlocker::Known(BlockerRef::External))
    ));
    assert!(matches!(
        resolve_blocker(&state, "brief:v1"),
        Ok(NamedBlocker::Known(BlockerRef::Brief { brief_event_id })) if brief_event_id == "brief-event"
    ));
    assert!(matches!(
        resolve_blocker(&state, "finding:f-1"),
        Ok(NamedBlocker::Finding { reference }) if reference == "f-1"
    ));
    assert!(matches!(
        resolve_blocker(&state, "change:a:b"),
        Ok(NamedBlocker::Change { reference }) if reference == "a:b"
    ));
    assert_eq!(resolve_blocker(&state, "brief").err(), Some(BlockerError::NoKind));
    assert_eq!(resolve_blocker(&state, "brief:").err(), Some(BlockerError::EmptyReference));
    assert_eq!(resolve_blocker(&state, "brief:1").err(), Some(BlockerError::BriefForm));
    assert_eq!(resolve_blocker(&state, "brief:v0").err(), Some(BlockerError::BriefVersion));
    assert_eq!(resolve_blocker(&state, "brief:vx").err(), Some(BlockerError::BriefVersion));
    assert_eq!(
        resolve_blocker(&state, "brief:v2").err(),
        Some(BlockerError::NoSuchBrief { version: 2 })
    );
    assert_eq!(resolve_blocker(&state, "other:x").err(), Some(BlockerError::UnknownKind));
}

#[test]
fn taking_claims_the_first_ready_change() {
    let mut abandoned = claimed_by("other");
    abandoned.priority = 3;
    let states = vec![abandoned, change("b-id")];
    let timings = vec![stale(), no_claim()];
    let taken = take(&ctx("lead"), &Vec::new(), &None, &states, &timings, "fresh".into())
        .ok()
        .unwrap()
        .unwrap();
    assert_eq!(taken.change, 0);
    assert_eq!(taken.owner.actor, "lead");
    match taken.payload {
        Payload::ClaimSet { claim_id, ttl_seconds, stage_budgets, displaced } => {
            assert_eq!((claim_id.as_str(), ttl_seconds), ("fresh", 7200));
            assert_eq!(stage_budgets.len(), 7);
            assert_eq!(displaced.unwrap().actor, "other");
        }
        _ => panic!("a claim is set"),
    }
    assert!(matches!(
        take(&ctx("lead"), &texts(&["x"]), &None, &states, &timings, "fresh".into()),
        Ok(None)
    ));
    assert!(matches!(
        take(&ctx(""), &Vec::new(), &None, &states, &timings, "fresh".into()),
        Err(TakeError::Identity(IdentityError::NoActor))
    ));
    assert!(matches!(
        take(&ctx("lead"), &texts(&[" "]), &None, &states, &timings, "fresh".into()),
        Err(TakeError::Tag(_))
    ));
    assert!(matches!(
        take(&ctx("lead"), &Vec::new(), &Some("1d".into()), &states, &timings, "fresh".into()),
        Err(TakeError::Ttl(DurationError::UnknownUnit))
    ));
}

#[test]
fn events_carry_the_identity_of_the_claim() {
    let mut acting = ctx(" lead ");
    acting.on_behalf_of = Some("subject".into());
    let event = identity_event_at(
        &acting,
        "event-1".into(),
        "repo",
        "a-id",
        at(3),
        &owner("lead"),
        Payload::HoldSet { reason: "why".into() },
    );
    assert_eq!(event.actor, "lead");
    assert_eq!(event.harness.as_deref(), Some("cli"));
    assert_eq!(event.on_behalf_of.as_deref(), Some("subject"));
    assert_eq!(event.created_at, at(3));
    assert_eq!((event.event_id.as_str(), event.change_id.as_str()), ("event-1", "a-id"));
}

#[test]
fn assumed_identities_are_announced_once() {
    let mut assumed = ctx("someone");
    assumed.actor_source = ActorSource::GitFallback;
    assert!(assumed.ensure_declared_actor(false).is_ok());
    assert!(assumed.ensure_declared_actor(true).is_err());
    assert!(assumed.announce_assumed_identity());
    assert!(!assumed.announce_assumed_identity());
    assumed.on_behalf_of = Some("subject".into());
    assert!(assumed.ensure_declared_actor(true).is_ok());
    let mut declared = ctx("lead");
    assert!(declared.ensure_declared_actor(true).is_ok());
    assert!(!declared.announce_assumed_identity());
    assert!(ActorSource::Environment.declared());
    assert!(!ActorSource::GitFallback.declared());
}

#[test]
fn closing_leaves_only_facts() {
    let open = change("a-id");
    let landed = closed("a-id", Closure::Integrated);
    let dropped = closed("a-id", Closure::Abandoned);
    assert!(ensure_append_allowed(&open, AppendPermission::OpenOnly).is_ok());
    assert!(ensure_append_allowed(&open, AppendPermission::AnyPhaseFact).is_ok());
    assert_eq!(
        ensure_append_allowed(&open, AppendPermission::IntegratedOnlyFact),
        Err(AppendRefusal::BeforeIntegration)
    );
    assert_eq!(
        ensure_append_allowed(&open, AppendPermission::LifecycleOwned),
        Err(AppendRefusal::OwnedInternally)
    );
    assert_eq!(
        ensure_append_allowed(&landed, AppendPermission::OpaqueImported),
        Err(AppendRefusal::OwnedInternally)
    );
    assert!(ensure_append_allowed(&landed, AppendPermission::IntegratedOnlyFact).is_ok());
    assert!(ensure_append_allowed(&landed, AppendPermission::OpenOrIntegratedFact).is_ok());
    assert_eq!(
        ensure_append_allowed(&landed, AppendPermission::OpenOnly),
        Err(AppendRefusal::NeedsOpen { outcome: Closure::Integrated })
    );
    assert_eq!(
        ensure_append_allowed(&dropped, AppendPermission::OpenOrIntegratedFact),
        Err(AppendRefusal::NeedsOpenOrIntegrated { outcome: Closure::Abandoned })
    );
    assert_eq!(
        ensure_append_allowed(&dropped, AppendPermission::IntegratedOnlyFact),
        Err(AppendRefusal::NeedsIntegrated { outcome: Closure::Abandoned })
    );
    assert!(ensure_append_allowed(&dropped, AppendPermission::AnyPhaseFact).is_ok());
}
