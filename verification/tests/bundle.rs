use arc_ledger::bundle::{
    event_envelope, event_file_bytes, known_event_type, parse_known_event,
    validate_claim_identity, validate_payload, BUNDLE_SCHEMA, Bundle, BundleError, EventField,
    IdentityField, PatchsetObject,
};
use arc_ledger::context::AppendPermission;
use arc_ledger::digest::checksum;
use arc_ledger::event::{DebtMissing, Event, Payload, VerificationRunGate, VerificationRunMode};
use arc_ledger::import::{
    classify_import_events, decide_import, event_standing, import_candidate, import_exit_code,
    import_lines, import_summary, next_write, plan_import, plan_objects, plan_repository_events,
    same_bytes, validate_import_candidate, write_missing, EventStanding, HistoryFault,
    ImportDecision, ImportWrite, RepositoryRefusal,
};
use arc_ledger::model::{
    ActorSource, ClaimStage, Closure, DisplacedClaim, Severity, StageBudget, Verdict,
    VerifyResult,
};
use arc_ledger::time::Timestamp;

fn at(seconds: i64) -> Timestamp {
    Timestamp::new(1_000_000 + seconds, 0).unwrap()
}

fn event(id: &str, payload: Payload) -> Event {
    Event {
        schema_version: 1,
        event_id: id.into(),
        repository_id: "repo".into(),
        change_id: "c".into(),
        actor: "tester".into(),
        actor_source: Some(ActorSource::Flag),
        on_behalf_of: None,
        model: None,
        harness: Some("test".into()),
        session: Some("s".into()),
        created_at: at(0),
        payload,
    }
}

fn texts(values: &[&str]) -> Vec<String> {
    values.iter().map(|value| value.to_string()).collect()
}

fn any_id(id: &str) -> bool {
    !id.is_empty() && !id.contains(' ')
}

fn json(text: &str) -> serde_json::Value {
    serde_json::from_str(text).unwrap()
}

fn raw(id: &str, event_type: &str, more: &str) -> serde_json::Value {
    json(&format!(
        "{{\"event_id\":\"{id}\",\"repository_id\":\"repo\",\"change_id\":\"c\",\"event_type\":\"{event_type}\"{more}}}"
    ))
}

fn patchset(id: &str, patchset_id: &str) -> serde_json::Value {
    raw(
        id,
        "patchset-added",
        &format!(",\"patchset_id\":\"{patchset_id}\",\"base\":\"b\",\"head\":\"h\""),
    )
}

fn comment() -> Payload {
    Payload::CommentAdded {
        body: "body".into(),
        patchset_id: None,
        anchor: None,
    }
}

fn bundle_of(events: Vec<serde_json::Value>) -> Bundle {
    Bundle {
        schema: "arc-bundle/1".into(),
        repository_id: "repo".into(),
        change_id: "c".into(),
        event_count: events.len(),
        events_sha256: checksum(&events),
        events,
    }
}

fn claim(ttl_seconds: u64, budgets: Vec<(StageBudget, u64)>) -> Payload {
    Payload::ClaimSet {
        claim_id: "claim".into(),
        ttl_seconds,
        stage_budgets: budgets,
        displaced: None,
    }
}

fn all_budgets() -> Vec<(StageBudget, u64)> {
    vec![
        (StageBudget::Launch, 1),
        (StageBudget::Started, 1),
        (StageBudget::SpecRead, 1),
        (StageBudget::Implementing, 1),
        (StageBudget::Verifying, 1),
    ]
}

fn is_known_payload(payload: &Payload) -> bool {
    match payload {
        Payload::ChangeOpened { .. }
        | Payload::MetadataUpdated { .. }
        | Payload::Message { .. }
        | Payload::BriefRecorded { .. }
        | Payload::ChangelogRecorded { .. }
        | Payload::PatchsetAdded { .. }
        | Payload::ClaimSet { .. }
        | Payload::ClaimReleased { .. }
        | Payload::StageSet { .. }
        | Payload::CommentAdded { .. }
        | Payload::FindingAdded { .. }
        | Payload::ReplyAdded { .. }
        | Payload::DispositionRecorded { .. }
        | Payload::VerdictRecorded { .. }
        | Payload::VerificationRunStarted { .. }
        | Payload::VerificationRecorded { .. }
        | Payload::VerificationReused { .. }
        | Payload::HoldSet { .. }
        | Payload::HoldReleased { .. }
        | Payload::ChangeClosed { .. }
        | Payload::ChangeIntegrated { .. }
        | Payload::IntegrationAsserted { .. }
        | Payload::ForgeProjection { .. }
        | Payload::ForgeLink { .. }
        | Payload::ForgeChecks { .. }
        | Payload::ForgePrState { .. }
        | Payload::RunDispatched { .. }
        | Payload::RunEnded { .. }
        | Payload::ReviewPassOpened { .. }
        | Payload::ReviewPassCompleted { .. }
        | Payload::ReviewPassAbandoned { .. }
        | Payload::HistoryRewritten { .. }
        | Payload::DirtyTreeWaived { .. }
        | Payload::DebtDeclared { .. }
        | Payload::AuditVerdictRecorded { .. }
        | Payload::AuditFindingAdded { .. }
        | Payload::AuditDispositionRecorded { .. } => true,
        Payload::Unknown => false,
    }
}

#[test]
fn all_serialized_payload_tags_are_known() {
    let payloads = vec![
        Payload::ChangeOpened {
            slug: "change".into(),
            title: "Change".into(),
            profile: "local".into(),
            target_branch: "master".into(),
            branch: "arc/change".into(),
            base: "base".into(),
            worktree: None,
            blocked_by: Vec::new(),
            tags: Vec::new(),
            journal_ref: None,
            dangerous: false,
        },
        Payload::MetadataUpdated {
            add_blocked_by: Vec::new(),
            remove_blocked_by: Vec::new(),
            add_tags: Vec::new(),
            remove_tags: Vec::new(),
            assign: None,
            priority: None,
        },
        Payload::Message {
            message_type: "status".into(),
            severity: "info".into(),
            summary: "summary".into(),
            detail: None,
            metadata: None,
        },
        Payload::BriefRecorded {
            title: None,
            body: "body".into(),
            base_revision: None,
            acceptance_probes: Vec::new(),
            plan_ref: None,
            plan_slice: None,
        },
        Payload::ChangelogRecorded {
            category: "Fixed".into(),
            body: "body".into(),
        },
        Payload::PatchsetAdded {
            patchset_id: "ps-01".into(),
            base: "base".into(),
            head: "head".into(),
            merge_base: None,
            brief_ref: None,
            author_name: None,
            author_email: None,
            committer_name: None,
            committer_email: None,
            contributors: Vec::new(),
            claim_id: None,
            claim_actor: None,
        },
        Payload::ClaimSet {
            claim_id: "claim".into(),
            ttl_seconds: 1,
            stage_budgets: Vec::new(),
            displaced: None,
        },
        Payload::ClaimReleased {
            claim_id: "claim".into(),
        },
        Payload::StageSet {
            claim_id: "claim".into(),
            stage: ClaimStage::Started,
            note: None,
            blocker: None,
        },
        Payload::CommentAdded {
            body: "body".into(),
            patchset_id: None,
            anchor: None,
        },
        Payload::FindingAdded {
            finding_id: "finding".into(),
            blocking: false,
            severity: Severity::Note,
            summary: "summary".into(),
            body: None,
            patchset_id: None,
            anchor: None,
        },
        Payload::ReplyAdded {
            parent_event_id: "event".into(),
            body: "body".into(),
        },
        Payload::DispositionRecorded {
            finding_id: "finding".into(),
            status: "resolved".into(),
            commit: None,
            evidence: None,
            supersedes: Vec::new(),
        },
        Payload::VerdictRecorded {
            patchset_id: "ps-01".into(),
            verdict: Verdict::Approved,
            causes: Vec::new(),
            body: None,
            findings: Vec::new(),
            provisional: None,
        },
        Payload::VerificationRunStarted {
            revision: "head".into(),
            mode: VerificationRunMode::Sequential,
            skip_green: false,
            gates: vec![VerificationRunGate {
                name: "test".into(),
                command: "true".into(),
                timeout_seconds: None,
            }],
        },
        Payload::VerificationRecorded {
            gate: None,
            command: "true".into(),
            revision: "head".into(),
            result: VerifyResult::Pass,
            exit_code: Some(0),
            duration_ms: Some(0),
            output_tail: None,
            timed_out: false,
            hostname: "host".into(),
            attested: false,
            run_id: None,
            probe: None,
            runner: None,
            note: None,
            timeout_seconds: None,
            falsification: None,
            tree: None,
            against_target: None,
            tested_tree: None,
            worktree_dirty: None,
            worktree_dirty_tracked: None,
            worktree_dirty_untracked: None,
            tree_moved: false,
        },
        Payload::VerificationReused {
            run_id: "run".into(),
            gate: "test".into(),
            revision: "head".into(),
            evidence_event_id: "evidence".into(),
        },
        Payload::HoldSet {
            reason: "reason".into(),
        },
        Payload::HoldReleased {
            hold_event_id: None,
            reason: None,
        },
        Payload::ChangeClosed {
            outcome: Closure::Abandoned,
            integrated_commit: None,
            superseded_by: None,
        },
        Payload::ForgeProjection {
            host: "forge.example".into(),
            base_repo: "owner/repo".into(),
            base_ref: "master".into(),
            head_repo: "owner/repo".into(),
            head_ref: "change".into(),
            policy: "same-repository-only".into(),
        },
        Payload::ForgeLink {
            pr_number: 1,
            url: "https://forge.example/owner/repo/pulls/1".into(),
            base_repo: "owner/repo".into(),
            base_ref: "master".into(),
            head_repo: "owner/repo".into(),
            head_ref: "change".into(),
            head_sha: "head".into(),
        },
        Payload::ForgeChecks {
            pr_head: "head".into(),
            state: "passed".into(),
            detail: None,
        },
        Payload::ForgePrState {
            state: "open".into(),
            merge_sha: None,
            link_event_id: None,
            pr_head: None,
        },
        Payload::ChangeIntegrated {
            integrated_commit: "commit".into(),
            source_patchset_id: "ps-01".into(),
            source_head: "head".into(),
            target_branch: "master".into(),
            target_before: "before".into(),
            authorization: None,
        },
        Payload::IntegrationAsserted {
            integrated_commit: "commit".into(),
            source_patchset_id: "ps-01".into(),
            source_head: "head".into(),
            target_branch: "master".into(),
            target_before: None,
        },
        Payload::RunDispatched {
            route: "route".into(),
            worktree: "worktree".into(),
            change: None,
            fork: None,
            range: None,
            brief_event_id: None,
            note: None,
        },
        Payload::RunEnded {
            dispatch_event_id: "event".into(),
            outcome: "complete".into(),
            reviewed_head: None,
            raised: Vec::new(),
            deferred: Vec::new(),
            collects: Vec::new(),
            note: None,
        },
        Payload::ReviewPassOpened { pass_id: "pass".into(), members: Vec::new(), note: None },
        Payload::ReviewPassCompleted { pass_id: "pass".into(), note: None },
        Payload::ReviewPassAbandoned { pass_id: "pass".into(), reason: "reason".into() },
        Payload::HistoryRewritten { mapping: Vec::new(), reason: "reason".into(), tool: None },
        Payload::DirtyTreeWaived { reason: "reason".into(), revision: "head".into() },
        Payload::DebtDeclared {
            reason: "reason".into(),
            patchset_id: None,
            missing: DebtMissing::IndependentReview,
            coverage: Vec::new(),
        },
        Payload::AuditVerdictRecorded {
            revision: "commit".into(),
            verdict: Verdict::Approved,
            body: None,
            findings: Vec::new(),
        },
        Payload::AuditFindingAdded {
            finding_id: "finding".into(),
            blocking: false,
            severity: Severity::Note,
            summary: "summary".into(),
            body: None,
            revision: "commit".into(),
            anchor: None,
        },
        Payload::AuditDispositionRecorded {
            finding_id: "finding".into(),
            status: "resolved".into(),
            commit: None,
            evidence: None,
            supersedes: Vec::new(),
        },
    ];

    for payload in payloads {
        assert!(is_known_payload(&payload));
        let tag = payload.tag().unwrap();
        assert!(
            known_event_type(tag),
            "Payload tag {tag:?} is not recognized by bundle import"
        );
    }
    assert_eq!(Payload::Unknown.tag(), None);
    assert!(!known_event_type("change-renamed"));
}

#[test]
fn envelopes_name_what_is_missing() {
    let value = raw("1", "comment-added", "");
    let envelope = event_envelope(&value, &any_id).ok().unwrap();
    assert_eq!(
        (envelope.event_id, envelope.repository_id, envelope.change_id, envelope.event_type),
        ("1", "repo", "c", "comment-added")
    );
    assert!(matches!(event_envelope(&json("[]"), &any_id), Err(BundleError::NotAnObject)));
    assert!(matches!(
        event_envelope(&json("{\"event_id\":3}"), &any_id),
        Err(BundleError::MissingField { field: EventField::EventId })
    ));
    assert!(matches!(
        event_envelope(&json("{\"event_id\":\"1\",\"repository_id\":\"r\",\"change_id\":\"c\"}"), &any_id),
        Err(BundleError::MissingField { field: EventField::EventType })
    ));
    assert!(matches!(
        event_envelope(&raw("a b", "comment-added", ""), &any_id),
        Err(BundleError::InvalidId { id }) if id == "a b"
    ));
}

#[test]
fn checksums_cover_each_event_and_a_line_feed() {
    // The digest of nothing is that of the empty message.
    assert_eq!(
        checksum(&Vec::new()),
        "e3b0c44298fc1c149afbf4c8996fb92427ae41e4649b934ca495991b7852b855"
    );
    // `printf '{}\n' | sha256sum`
    assert_eq!(
        checksum(&vec![json("{ }")]),
        "ca3d163bab055381827226140568f3bef7eaac187cebd76878e0b63e9e442356"
    );
    assert_ne!(checksum(&vec![json("{}")]), checksum(&vec![json("{}"), json("{}")]));
    assert_eq!(event_file_bytes(&json("{\"a\":1}")), b"{\n  \"a\": 1\n}\n".to_vec());
}

#[test]
fn exports_are_sorted_and_read_back() {
    let files = vec![
        ("1".to_string(), raw("1", "comment-added", "")),
        ("3".to_string(), raw("3", "future-type", "")),
        ("2".to_string(), patchset("2", "ps-01")),
    ];
    let bundle = Bundle::export(files, "c", &any_id).ok().unwrap();
    assert_eq!(bundle.schema, BUNDLE_SCHEMA);
    assert_eq!((bundle.repository_id.as_str(), bundle.event_count), ("repo", 3));
    assert_eq!(bundle.events_sha256, checksum(&bundle.events));
    let ids: Vec<&str> = bundle
        .events
        .iter()
        .map(|value| value.get("event_id").unwrap().as_str().unwrap())
        .collect();
    assert_eq!(ids, vec!["1", "2", "3"]);
    let decoded = vec![
        Some(event("1", comment())),
        Some(event("2", comment())),
        None,
    ];
    let checked = Bundle::parse(bundle, decoded, true, &any_id).ok().unwrap();
    assert_eq!(checked.events.len(), 3);
    assert!(checked.events[0].typed.is_some() && checked.events[2].typed.is_none());
    assert_eq!(checked.events[0].value, raw("1", "comment-added", ""));
    assert_eq!(checked.events[0].bytes, event_file_bytes(&raw("1", "comment-added", "")));
    assert_eq!(checked.patchsets.len(), 1);
    assert_eq!(
        (checked.patchsets[0].patchset_id.as_str(), checked.patchsets[0].head.as_str()),
        ("ps-01", "h")
    );
    assert_eq!(
        checked.unknown_event_types,
        vec![("3".to_string(), "future-type".to_string())]
    );
}

#[test]
fn exports_are_of_one_change_under_its_own_files() {
    assert!(matches!(Bundle::export(Vec::new(), "c", &any_id), Err(BundleError::NoEvents)));
    assert!(matches!(
        Bundle::export(Vec::new(), "a b", &any_id),
        Err(BundleError::InvalidId { .. })
    ));
    assert!(matches!(
        Bundle::export(vec![("2".into(), raw("1", "x", ""))], "c", &any_id),
        Err(BundleError::FileMismatch { file_event_id }) if file_event_id == "2"
    ));
    assert!(matches!(
        Bundle::export(vec![("1".into(), raw("1", "x", ""))], "d", &any_id),
        Err(BundleError::WrongChange { event_id }) if event_id == "1"
    ));
}

#[test]
fn bundles_are_refused_by_their_first_fault() {
    let none = || vec![None];
    let mut bundle = bundle_of(vec![raw("1", "x", "")]);
    bundle.schema = "arc-bundle/2".into();
    assert!(matches!(
        Bundle::parse(bundle, none(), true, &any_id),
        Err(BundleError::UnsupportedSchema)
    ));
    let mut bundle = bundle_of(vec![raw("1", "x", "")]);
    bundle.event_count = 2;
    assert!(matches!(Bundle::parse(bundle, none(), true, &any_id), Err(BundleError::CountMismatch)));
    let mut bundle = bundle_of(vec![raw("1", "x", "")]);
    bundle.events_sha256 = "0".into();
    assert!(matches!(
        Bundle::parse(bundle, none(), true, &any_id),
        Err(BundleError::ChecksumMismatch { computed }) if computed == checksum(&vec![raw("1", "x", "")])
    ));
    let mut bundle = bundle_of(vec![raw("1", "x", "")]);
    bundle.repository_id = "elsewhere".into();
    assert!(matches!(
        Bundle::parse(bundle, none(), true, &any_id),
        Err(BundleError::WrongOrigin { event_id }) if event_id == "1"
    ));
    let mut bundle = bundle_of(vec![raw("1", "x", "")]);
    bundle.change_id = "d".into();
    assert!(matches!(
        Bundle::parse(bundle, none(), true, &any_id),
        Err(BundleError::WrongChange { .. })
    ));
    let mut bundle = bundle_of(vec![raw("1", "x", "")]);
    bundle.change_id = "".into();
    assert!(matches!(
        Bundle::parse(bundle, none(), true, &any_id),
        Err(BundleError::InvalidId { .. })
    ));
    assert!(matches!(
        Bundle::parse(
            bundle_of(vec![raw("2", "x", ""), raw("1", "x", "")]),
            vec![None, None],
            true,
            &any_id
        ),
        Err(BundleError::NotAscending)
    ));
    assert!(matches!(
        Bundle::parse(bundle_of(vec![raw("1", "comment-added", "")]), none(), true, &any_id),
        Err(BundleError::Malformed { event_id }) if event_id == "1"
    ));
    assert!(matches!(
        Bundle::parse(
            bundle_of(vec![patchset("1", "ps-01"), patchset("2", "ps-01")]),
            vec![Some(event("1", comment())), Some(event("2", comment()))],
            true,
            &any_id
        ),
        Err(BundleError::DuplicatePatchset { patchset_id }) if patchset_id == "ps-01"
    ));
    assert!(matches!(
        Bundle::parse(
            bundle_of(vec![raw("1", "patchset-added", ",\"patchset_id\":\"p\",\"base\":\"\",\"head\":\"h\"")]),
            vec![Some(event("1", comment()))],
            true,
            &any_id
        ),
        Err(BundleError::EmptyObjectId { .. })
    ));
    assert!(matches!(
        Bundle::parse(
            bundle_of(vec![raw("1", "patchset-added", ",\"patchset_id\":\"p\",\"base\":\"b\"")]),
            vec![Some(event("1", comment()))],
            true,
            &any_id
        ),
        Err(BundleError::MissingField { field: EventField::Head })
    ));
}

#[test]
fn bundles_replay_or_are_refused() {
    let bundle = || bundle_of(vec![raw("1", "x", "")]);
    assert!(Bundle::parse(bundle(), vec![None], true, &any_id).is_ok());
    assert!(matches!(
        Bundle::parse(bundle(), vec![None], false, &any_id),
        Err(BundleError::NotReplayable)
    ));
    // Any other fault comes first.
    let mut other = bundle();
    other.event_count = 2;
    assert!(matches!(
        Bundle::parse(other, vec![None], false, &any_id),
        Err(BundleError::CountMismatch)
    ));
}

#[test]
fn claims_are_checked_when_they_are_taken_in() {
    assert!(validate_payload(&event("1", claim(1, all_budgets())), &any_id).is_ok());
    assert!(matches!(
        validate_payload(&event("1", claim(0, all_budgets())), &any_id),
        Err(BundleError::ZeroTtl)
    ));
    let mut lacking = all_budgets();
    lacking[2].1 = 0;
    assert!(matches!(
        validate_payload(&event("1", claim(1, lacking)), &any_id),
        Err(BundleError::MissingBudget { budget: StageBudget::SpecRead })
    ));
    let displaced = Payload::ClaimSet {
        claim_id: "claim".into(),
        ttl_seconds: 1,
        stage_budgets: all_budgets(),
        displaced: Some(DisplacedClaim {
            claim_id: "".into(),
            actor: "a".into(),
            harness: "h".into(),
            session: "s".into(),
            stage: "started".into(),
        }),
    };
    assert!(matches!(
        validate_payload(&event("1", displaced), &any_id),
        Err(BundleError::InvalidId { id }) if id.is_empty()
    ));
    let staged = |stage: ClaimStage, note: Option<&str>| Payload::StageSet {
        claim_id: "claim".into(),
        stage,
        note: note.map(|note| note.into()),
        blocker: None,
    };
    assert!(matches!(
        validate_payload(&event("1", staged(ClaimStage::Snapshotted, None)), &any_id),
        Err(BundleError::SnapshottedStage)
    ));
    assert!(matches!(
        validate_payload(&event("1", staged(ClaimStage::BlockedOn, Some(" "))), &any_id),
        Err(BundleError::BlockedWithoutNote)
    ));
    assert!(validate_payload(&event("1", staged(ClaimStage::BlockedOn, Some("x"))), &any_id).is_ok());
    let mut bare = event("1", Payload::ClaimReleased { claim_id: "claim".into() });
    bare.session = None;
    assert!(matches!(
        validate_claim_identity(&bare),
        Err(BundleError::IdentityMissing { field: IdentityField::Session })
    ));
    bare.actor = " a".into();
    assert!(matches!(
        validate_payload(&bare, &any_id),
        Err(BundleError::IdentityNotCanonical { field: IdentityField::Actor })
    ));
    assert!(matches!(
        parse_known_event(&raw("1", "future-type", ""), Some(event("1", comment())), &any_id),
        Ok(None)
    ));
    assert!(matches!(
        parse_known_event(&raw("1", "comment-added", ""), Some(event("1", comment())), &any_id),
        Ok(Some(_))
    ));
}

#[test]
fn imports_write_what_is_new() {
    let value = raw("1", "x", "");
    let other = raw("1", "y", "");
    assert_eq!(event_standing(&None, &value), EventStanding::New);
    // The bytes need not be the same: the values are.
    assert_eq!(
        event_standing(&Some(value.to_string().into_bytes()), &value),
        EventStanding::Held
    );
    assert_eq!(
        event_standing(&Some(event_file_bytes(&other)), &value),
        EventStanding::Conflict
    );
    assert_eq!(event_standing(&Some(b"{".to_vec()), &value), EventStanding::Conflict);
    let ids = texts(&["1", "2", "3"]);
    let plan = plan_import(
        &ids,
        &vec![EventStanding::Held, EventStanding::New, EventStanding::New],
    );
    assert_eq!(import_exit_code(&plan), 0);
    assert_eq!(import_lines(&plan), vec!["new: 2", "new: 3", "skipped: 1"]);
    assert_eq!(
        import_summary(&plan, 4),
        "summary: new=2 skipped=1 conflicts=0 missing_objects=4"
    );
    let plan = classify_import_events(
        &texts(&["1"]),
        &vec![value],
        &vec![Some(event_file_bytes(&other))],
    );
    assert_eq!(plan.conflicts, vec!["1"]);
    assert_eq!(import_exit_code(&plan), 1);
    assert!(same_bytes(&vec![1, 2], &vec![1, 2]) && !same_bytes(&vec![1], &vec![1, 2]));
}

#[test]
fn repository_events_are_checked_before_any_is_written() {
    let first = json("{\"event_id\":\"b\"}");
    let again = json("{\"event_id\":\"b\",\"x\":1}");
    let incoming = plan_repository_events(
        &vec![first.clone(), json("{\"event_id\":\"a\"}"), first.clone()],
        &vec![false, false, false],
    )
    .ok()
    .unwrap();
    assert_eq!(incoming.ids, vec!["a", "b"]);
    assert_eq!(incoming.bytes[1], event_file_bytes(&first));
    assert_eq!(
        plan_repository_events(&vec![json("{}")], &vec![false]).err(),
        Some(RepositoryRefusal::NoId { index: 0 })
    );
    assert_eq!(
        plan_repository_events(&vec![first.clone()], &vec![true]).err(),
        Some(RepositoryRefusal::Conflict { index: 0 })
    );
    assert_eq!(
        plan_repository_events(&vec![first, again], &vec![false, false]).err(),
        Some(RepositoryRefusal::TwoDifferent { index: 1 })
    );
}

#[test]
fn histories_close_once() {
    let closing = |outcome: Closure| Payload::ChangeClosed {
        outcome,
        integrated_commit: None,
        superseded_by: None,
    };
    let local = vec![event("2", closing(Closure::Abandoned))];
    let bundled = vec![Some(event("1", comment())), Some(event("3", comment())), None];
    let ids = texts(&["1", "3", "4"]);
    let candidate = import_candidate(&local, &ids, &bundled, &texts(&["1", "3"]));
    let order: Vec<&str> = candidate.iter().map(|event| event.event_id.as_str()).collect();
    assert_eq!(order, vec!["1", "2", "3"]);
    let open = AppendPermission::OpenOnly;
    let fact = AppendPermission::AnyPhaseFact;
    assert_eq!(
        validate_import_candidate(&candidate, &vec![open, open, open], true),
        Err(HistoryFault::WorkAfterClosing { closed: 1, event: 2 })
    );
    assert!(validate_import_candidate(&candidate, &vec![open, open, fact], true).is_ok());
    let landed = event("1", closing(Closure::Integrated));
    let later = event("2", comment());
    let history = vec![&landed, &later];
    let audited = AppendPermission::IntegratedOnlyFact;
    assert!(validate_import_candidate(&history, &vec![open, audited], true).is_ok());
    let twice = vec![&landed, &landed];
    assert_eq!(
        validate_import_candidate(&twice, &vec![fact, fact], true),
        Err(HistoryFault::ClosedTwice { first: 0, again: 1 })
    );
    assert_eq!(
        validate_import_candidate(&twice, &vec![fact, fact], false),
        Err(HistoryFault::NotReplayable)
    );
}

#[test]
fn an_import_writes_nothing_before_every_refusal() {
    let landed = event(
        "1",
        Payload::ChangeClosed {
            outcome: Closure::Integrated,
            integrated_commit: None,
            superseded_by: None,
        },
    );
    let fact = vec![AppendPermission::AnyPhaseFact; 2];
    let fresh = plan_import(&texts(&["1", "2"]), &vec![EventStanding::New, EventStanding::New]);
    let clash = plan_import(&texts(&["1"]), &vec![EventStanding::Conflict]);
    let values = vec![json("{\"event_id\":\"b\"}")];
    let no = vec![false];
    let one = vec![&landed];
    let first = fact[..1].to_vec();

    let decision = decide_import(&clash, &vec![&landed, &landed], &fact, false, &values, &vec![true], false);
    assert!(matches!(decision, ImportDecision::Conflicts));
    assert_eq!((decision.exit_code(), next_write(&decision, &clash, 1, 0)), (Some(1), None));
    let decision = decide_import(&fresh, &one, &first, false, &values, &vec![true], false);
    assert!(matches!(decision, ImportDecision::History { fault: HistoryFault::NotReplayable }));
    assert_eq!((decision.exit_code(), next_write(&decision, &fresh, 1, 0)), (None, None));
    let decision = decide_import(&fresh, &vec![&landed, &landed], &fact, true, &values, &no, false);
    assert!(matches!(
        decision,
        ImportDecision::History { fault: HistoryFault::ClosedTwice { first: 0, again: 1 } }
    ));
    let decision = decide_import(&fresh, &one, &first, true, &values, &vec![true], true);
    assert!(matches!(
        decision,
        ImportDecision::Repository { refusal: RepositoryRefusal::Conflict { index: 0 } }
    ));
    let decision = decide_import(&fresh, &one, &first, true, &values, &no, true);
    assert!(matches!(decision, ImportDecision::Preview));
    assert_eq!((decision.exit_code(), next_write(&decision, &fresh, 1, 0)), (Some(0), None));
    let decision = decide_import(&fresh, &one, &first, true, &values, &no, false);
    let writes: Vec<Option<ImportWrite>> =
        (0..5).map(|done| next_write(&decision, &fresh, 1, done)).collect();
    assert_eq!(
        writes,
        vec![
            Some(ImportWrite::RepositoryEvent { index: 0 }),
            Some(ImportWrite::Event { index: 0 }),
            Some(ImportWrite::Event { index: 1 }),
            Some(ImportWrite::Pin { index: 0 }),
            None,
        ]
    );
    assert_eq!(decision.exit_code(), Some(0));
}

#[test]
fn missing_objects_are_told_and_heads_are_pinned() {
    let (missing, pins) = plan_objects(&vec![false, true], &vec![true, false]);
    assert_eq!(pins, vec![0]);
    assert_eq!(missing.len(), 2);
    let patchsets = vec![
        PatchsetObject {
            event_id: "1".into(),
            patchset_id: "ps-01".into(),
            base: "b1".into(),
            head: "h1".into(),
        },
        PatchsetObject {
            event_id: "2".into(),
            patchset_id: "ps-02".into(),
            base: "b2".into(),
            head: "h2".into(),
        },
    ];
    assert_eq!(
        write_missing(&missing[0], &patchsets),
        "warning: event 1 is missing base commit b1"
    );
    assert_eq!(
        write_missing(&missing[1], &patchsets),
        "warning: event 2 is missing head commit h2"
    );
}
