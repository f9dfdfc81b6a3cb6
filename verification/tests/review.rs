use arc_ledger::audit::{
    audit, auditor, declare_audit_debt, integrated_revision, refuse_self_audit, AuditRefusal,
};
use arc_ledger::context::Ctx;
use arc_ledger::diff::{
    diff, diff_command, diff_integrated, render_findings, resolve_rewritten, unusable_successors,
    DiffArgs, DiffRefusal, Fate,
};
use arc_ledger::event::{Anchor, DebtMissing, InlineFinding, Payload, RewrittenRevision, Side};
use arc_ledger::findings::{
    anchor_location, findings, review_page, review_verdict_text, sarif_level, sarif_results,
    OpenFinding,
};
use arc_ledger::model::{ActorSource, Closure, ReviewCause, Severity, Verdict};
use arc_ledger::review::{
    anchor_revision, build_anchor, comment, disposition_payload, find_finding, find_patchset,
    finding, inert_approval, may_snapshot, ordered_causes, parse_inline_findings, read_review,
    resolve, resolve_patchset_id, review, review_findings, snapshot, verdict_payload, AddedFinding,
    AnchorArgs, FindingInput, PatchsetRefusal, RemarkRefusal, ResolveRefusal, ReviewArgs,
    ReviewPlan, ReviewRefusal, SnapshotFacts, VerdictRefusal,
};
use arc_ledger::state::{
    Brief, ChangeState, ClaimIdentity, ClaimState, ClosureState, FindingState, Patchset,
    VerdictState,
};
use arc_ledger::time::Timestamp;

fn at(seconds: i64) -> Timestamp {
    Timestamp::new(1_000_000 + seconds, 0).unwrap()
}

fn change(id: &str) -> ChangeState {
    ChangeState {
        change_id: id.into(),
        slug: id.trim_end_matches("-id").into(),
        title: id.into(),
        profile: "local".into(),
        iterating: false,
        target_branch: "master".into(),
        branch: format!("arc/{id}"),
        base: "base".into(),
        worktree: None,
        opened_by: "tester".into(),
        opened_harness: Some("test".into()),
        journal_ref: None,
        blocked_by: Vec::new(),
        tags: Vec::new(),
        assigned_to: None,
        priority: 0,
        opened_at: at(0),
        patchsets: Vec::new(),
        briefs: Vec::new(),
        findings: Vec::new(),
        audit_findings: Vec::new(),
        verdicts: Vec::new(),
        authority: None,
        verifications: Vec::new(),
        run_revisions: Vec::new(),
        audit_revisions: Vec::new(),
        claim: None,
        holds: Vec::new(),
        closure: None,
        changelog: None,
        messages: Vec::new(),
    }
}

fn closed(id: &str, outcome: Closure) -> ChangeState {
    let mut state = change(id);
    state.closure = Some(ClosureState {
        outcome,
        integrated_commit: if outcome == Closure::Integrated {
            Some(format!("commit-{id}"))
        } else {
            None
        },
        superseded_by: None,
        target_before: None,
        event_id: format!("closed-{id}"),
        created_at: at(100),
    });
    state
}

fn ctx(actor: &str) -> Ctx {
    Ctx {
        cwd: "/work".into(),
        actor: actor.into(),
        actor_source: ActorSource::Flag,
        fallback_announced: false,
        harness: Some("cli".into()),
        session: Some("one".into()),
        model: None,
        on_behalf_of: None,
    }
}

fn owner(actor: &str) -> ClaimIdentity {
    ClaimIdentity {
        actor: actor.into(),
        harness: "cli".into(),
        session: "one".into(),
    }
}

fn held(claim_id: &str, actor: &str) -> ClaimState {
    ClaimState {
        claim_id: claim_id.into(),
        owner: owner(actor),
    }
}

fn texts(values: &[&str]) -> Vec<String> {
    values.iter().map(|value| value.to_string()).collect()
}

fn snapshot_of(id: &str, head: &str) -> Patchset {
    Patchset {
        id: id.into(),
        base: "base".into(),
        head: head.into(),
        merge_base: None,
        actor: "writer".into(),
        on_behalf_of: None,
        brief_ref: None,
        brief_version: None,
        event_id: format!("event-{id}"),
    }
}

fn verdict_on(id: &str, verdict: Verdict, actor: &str) -> VerdictState {
    VerdictState {
        event_id: format!("verdict-{id}-{actor}"),
        patchset_id: id.into(),
        verdict,
        causes: Vec::new(),
        body: None,
        actor: actor.into(),
        on_behalf_of: None,
        model: None,
        created_at: at(10),
        provisional: None,
    }
}

fn finding_of(id: &str, severity: Severity, blocking: bool) -> FindingState {
    FindingState {
        finding_id: id.into(),
        origin_event: format!("origin-{id}"),
        blocking,
        severity,
        summary: format!("summary of {id}"),
        body: None,
        patchset_id: None,
        anchor: None,
        status: None,
        tips: Vec::new(),
        disposition_commits: Vec::new(),
    }
}

fn brief_of(event_id: &str, body: &str) -> Brief {
    Brief {
        event_id: event_id.into(),
        ts: at(0),
        actor: "lead".into(),
        on_behalf_of: None,
        title: None,
        body: body.into(),
        base_revision: None,
        acceptance_probes: Vec::new(),
        plan_ref: None,
        plan_slice: None,
    }
}

fn two_patchsets() -> ChangeState {
    let mut state = change("a-id");
    state.patchsets = vec![snapshot_of("ps-01", "abc1"), snapshot_of("ps-02", "abd2")];
    state
}

fn nowhere() -> AnchorArgs {
    AnchorArgs {
        path: None,
        side: Side::Head,
        line_start: None,
        line_end: None,
        context: None,
    }
}

fn line(path: &str, start: u32) -> AnchorArgs {
    AnchorArgs {
        path: Some(path.into()),
        side: Side::Head,
        line_start: Some(start),
        line_end: None,
        context: Some("fn".into()),
    }
}

fn anchor(path: &str, start: Option<u32>, end: Option<u32>) -> Anchor {
    Anchor {
        path: path.into(),
        side: Side::Head,
        blob: Some("blob".into()),
        line_start: start,
        line_end: end,
        context: None,
    }
}

fn input(summary: &str, anchor: Option<AnchorArgs>) -> FindingInput {
    FindingInput {
        blocking: true,
        severity: Severity::Major,
        summary: summary.into(),
        body: None,
        anchor,
    }
}

fn inline(blocking: bool) -> InlineFinding {
    InlineFinding {
        finding_id: "f-1".into(),
        blocking,
        severity: Severity::Minor,
        summary: "summary".into(),
        body: None,
        anchor: None,
    }
}

fn asks(verdict: Verdict) -> ReviewArgs {
    ReviewArgs {
        verdict,
        body: None,
        provisional: None,
        patchset: None,
        causes: Vec::new(),
        findings_json: None,
        snapshot_first: false,
    }
}

fn facts(head: &str) -> SnapshotFacts {
    SnapshotFacts {
        head: head.into(),
        named_base: None,
        merge_base: None,
        author_name: "A".into(),
        author_email: "a@x".into(),
        committer_name: "C".into(),
        committer_email: "c@x".into(),
        claim_active: true,
    }
}

fn plain_diff() -> DiffArgs {
    DiffArgs {
        patchset: None,
        stat: false,
        findings: false,
        between: None,
        since_approved: false,
        integrated: false,
        base: None,
        paths: Vec::new(),
    }
}

#[test]
fn patchsets_are_named_by_identity_or_by_revision() {
    let state = two_patchsets();
    assert_eq!(resolve_patchset_id(&state, &None), Ok(Some("ps-02".to_string())));
    assert_eq!(resolve_patchset_id(&change("a-id"), &None), Ok(None));
    assert_eq!(
        resolve_patchset_id(&state, &Some("ps-01".into())),
        Ok(Some("ps-01".to_string()))
    );
    assert_eq!(
        resolve_patchset_id(&state, &Some("abc".into())),
        Ok(Some("ps-01".to_string()))
    );
    assert_eq!(
        resolve_patchset_id(&state, &Some("ab".into())),
        Err(PatchsetRefusal::Ambiguous { matches: 2 })
    );
    assert_eq!(
        resolve_patchset_id(&state, &Some("zz".into())),
        Err(PatchsetRefusal::Unknown)
    );
    assert_eq!(find_patchset(&state, "ps-02"), Some(1));
    assert_eq!(find_patchset(&state, "ps-03"), None);
    assert_eq!(anchor_revision(&state, Some("ps-01"), Side::Head), Some("abc1"));
    assert_eq!(anchor_revision(&state, None, Side::Base), Some("base"));
    assert_eq!(anchor_revision(&state, Some("none"), Side::Base), None);
}

#[test]
fn anchors_need_a_file() {
    let built = build_anchor(&line("a.rs", 3), Some("blob".into())).ok().unwrap().unwrap();
    assert_eq!((built.path.as_str(), built.line_start, built.line_end), ("a.rs", Some(3), Some(3)));
    assert_eq!(built.blob.as_deref(), Some("blob"));
    assert!(matches!(build_anchor(&nowhere(), None), Ok(None)));
    let mut lost = nowhere();
    lost.line_start = Some(3);
    assert!(build_anchor(&lost, None).is_err());
    let mut ranged = line("a.rs", 3);
    ranged.line_end = Some(9);
    assert_eq!(build_anchor(&ranged, None).ok().unwrap().unwrap().line_end, Some(9));
}

#[test]
fn remarks_name_their_patchset() {
    let state = two_patchsets();
    assert!(matches!(
        comment(&state, "hm".into(), &None, &nowhere(), None),
        Ok(Payload::CommentAdded { body, patchset_id: Some(id), anchor: None })
            if body == "hm" && id == "ps-02"
    ));
    assert_eq!(
        comment(&state, "hm".into(), &Some("zz".into()), &nowhere(), None).err(),
        Some(RemarkRefusal::Patchset { refusal: PatchsetRefusal::Unknown })
    );
    let mut lost = nowhere();
    lost.line_start = Some(3);
    assert_eq!(
        comment(&state, "hm".into(), &None, &lost, None).err(),
        Some(RemarkRefusal::LineNeedsPath)
    );
    let added = || AddedFinding {
        summary: "wrong".into(),
        body: None,
        blocking: true,
        severity: Severity::Critical,
    };
    assert!(matches!(
        finding(&state, "f-1".into(), added(), &Some("abc1".into()), &line("a.rs", 3), None),
        Ok(Payload::FindingAdded {
            finding_id,
            blocking: true,
            severity: Severity::Critical,
            patchset_id: Some(id),
            anchor: Some(_),
            ..
        }) if finding_id == "f-1" && id == "ps-01"
    ));
    assert!(finding(&state, "f-1".into(), added(), &Some("ab".into()), &nowhere(), None).is_err());
}

fn judge(args: &ReviewArgs) -> Result<ReviewPlan, ReviewRefusal> {
    review(args, &change("a-id"), &None, false)
}

#[test]
fn reviews_are_recorded_where_their_flags_go_together() {
    assert!(judge(&asks(Verdict::Approved)).is_ok());
    assert_eq!(
        judge(&asks(Verdict::ChangesRequested)).err(),
        Some(ReviewRefusal::CauseRequired)
    );
    let mut caused = asks(Verdict::ChangesRequested);
    caused.causes = vec![
        ReviewCause::IntegrationStaleness,
        ReviewCause::Brief,
        ReviewCause::Brief,
    ];
    assert_eq!(
        judge(&caused).ok().unwrap().causes,
        vec![ReviewCause::Brief, ReviewCause::IntegrationStaleness]
    );
    assert_eq!(ordered_causes(&caused.causes).len(), 2);
    caused.verdict = Verdict::CommentOnly;
    assert_eq!(judge(&caused).err(), Some(ReviewRefusal::CauseNotAllowed));
    caused.provisional = Some("later".into());
    assert_eq!(judge(&caused).err(), Some(ReviewRefusal::ProvisionalNeedsApproval));
    let mut provisional = asks(Verdict::Approved);
    provisional.provisional = Some(" ".into());
    assert_eq!(judge(&provisional).err(), Some(ReviewRefusal::EmptyProvisional));
    provisional.provisional = Some(" later ".into());
    assert_eq!(judge(&provisional).ok().unwrap().provisional.as_deref(), Some("later"));
    provisional.snapshot_first = true;
    provisional.patchset = Some("ps-01".into());
    assert_eq!(judge(&provisional).err(), Some(ReviewRefusal::SnapshotExcludesPatchset));
    // A snapshot is taken of the branch of the change, where it is checked out and clean.
    provisional.patchset = None;
    let state = change("a-id");
    let here = Some("arc/a-id".to_string());
    let needs = Some(ReviewRefusal::SnapshotNeedsCleanCheckout);
    assert!(review(&provisional, &state, &here, true).is_ok());
    assert_eq!(review(&provisional, &state, &here, false).err(), needs);
    assert_eq!(review(&provisional, &state, &Some("main".into()), true).err(), needs);
    assert_eq!(review(&provisional, &state, &None, true).err(), needs);
    assert!(may_snapshot(&state, &here, true) && !may_snapshot(&state, &None, true));
}

#[test]
fn approvals_carry_no_blocking_finding() {
    let plan = || ReviewPlan {
        causes: Vec::new(),
        provisional: None,
    };
    let approved = Verdict::Approved;
    let id = || Some("ps-01".to_string());
    assert!(matches!(
        verdict_payload(id(), approved, plan(), None, vec![inline(false)]),
        Ok(Payload::VerdictRecorded { patchset_id, findings, .. })
            if patchset_id == "ps-01" && findings.len() == 1
    ));
    assert_eq!(
        verdict_payload(id(), approved, plan(), None, vec![inline(false), inline(true)]).err(),
        Some(VerdictRefusal::ApprovalWithBlockingFindings)
    );
    assert!(
        verdict_payload(id(), Verdict::CommentOnly, plan(), None, vec![inline(true)]).is_ok()
    );
    assert_eq!(
        verdict_payload(None, approved, plan(), None, vec![inline(true)]).err(),
        Some(VerdictRefusal::NoPatchset)
    );
}

#[test]
fn snapshots_are_numbered_and_not_repeated() {
    let mut state = two_patchsets();
    state.claim = Some(held("claim-1", "writer"));
    state.briefs.push(brief_of("brief-1", "body"));
    let taken = snapshot(&state, &facts("new"), None, texts(&["A"])).ok().unwrap();
    assert_eq!(taken.patchset_id, "ps-03");
    assert!(taken.unchanged.is_none());
    match &taken.payload {
        Payload::PatchsetAdded {
            base,
            head,
            brief_ref,
            claim_id,
            claim_actor,
            author_name,
            contributors,
            ..
        } => {
            assert_eq!((base.as_str(), head.as_str()), ("base", "new"));
            assert_eq!(brief_ref.as_deref(), Some("brief-1"));
            assert_eq!(claim_id.as_deref(), Some("claim-1"));
            assert_eq!(claim_actor.as_deref(), Some("writer"));
            assert_eq!(author_name.as_deref(), Some("A"));
            assert_eq!(contributors, &texts(&["A"]));
        }
        _ => panic!("a patchset is added"),
    }
    let mut recorded = snapshot_of("ps-03", "new");
    recorded.brief_ref = Some("brief-1".into());
    state.patchsets.push(recorded);
    let again = snapshot(&state, &facts("new"), Some(1), Vec::new()).ok().unwrap();
    assert_eq!(again.unchanged.as_deref(), Some("ps-03"));
    let mut based = facts("new");
    based.merge_base = Some("fork-point".into());
    assert!(snapshot(&state, &based, None, Vec::new()).ok().unwrap().unchanged.is_none());
    assert!(snapshot(&state, &facts("new"), Some(0), Vec::new()).is_err());
    assert!(snapshot(&state, &facts("new"), Some(2), Vec::new()).is_err());
    let mut many = change("b-id");
    many.patchsets = (0..9).map(|n| snapshot_of(&format!("ps-0{n}"), "h")).collect();
    assert_eq!(snapshot(&many, &facts("x"), None, Vec::new()).ok().unwrap().patchset_id, "ps-10");
}

#[test]
fn batches_of_findings_are_recorded() {
    let ids = texts(&["f-1", "f-2"]);
    let inputs = vec![input("one", None), input("two", Some(line("a.rs", 4)))];
    let found = review_findings(&inputs, &ids, &vec![None, Some("blob".into())]);
    assert_eq!((found[0].finding_id.as_str(), found[0].summary.as_str()), ("f-1", "one"));
    assert!(found[0].anchor.is_none());
    assert_eq!(found[1].anchor.as_ref().unwrap().blob.as_deref(), Some("blob"));
    // An audit has no patchset that an anchor could point into.
    assert_eq!(parse_inline_findings(&inputs, &ids).err().unwrap().index, 1);
    let plain = vec![input("one", None)];
    let audited = parse_inline_findings(&plain, &texts(&["f-1"])).ok().unwrap();
    assert_eq!((audited.len(), audited[0].severity), (1, Severity::Major));
}

#[test]
fn findings_are_resolved_by_event_or_by_identity() {
    let mut state = change("a-id");
    let mut known = finding_of("f-1", Severity::Minor, true);
    known.tips = texts(&["tip-1", "tip-2"]);
    state.findings.push(known);
    state.audit_findings.push(finding_of("f-9", Severity::Minor, true));
    let found = resolve(&state, None, "f-1").ok().unwrap();
    assert_eq!((found.finding_id.as_str(), found.audit), ("f-1", false));
    assert!(resolve(&state, None, "f-9").ok().unwrap().audit);
    assert_eq!(resolve(&state, None, "f-5").err(), Some(ResolveRefusal::Unknown));
    let remark = Payload::CommentAdded {
        body: "hm".into(),
        patchset_id: None,
        anchor: None,
    };
    assert_eq!(resolve(&state, Some(&remark), "x").err(), Some(ResolveRefusal::IsAComment));
    assert_eq!(find_finding(&state.findings, "f-1"), Some(0));
    match disposition_payload(&state, &found, "resolved".into(), Some("c".into()), None) {
        Some(Payload::DispositionRecorded { finding_id, status, commit, supersedes, .. }) => {
            assert_eq!((finding_id.as_str(), status.as_str()), ("f-1", "resolved"));
            assert_eq!(commit.as_deref(), Some("c"));
            assert_eq!(supersedes, texts(&["tip-1", "tip-2"]));
        }
        _ => panic!("a disposition is recorded"),
    }
    let audited = resolve(&state, None, "f-9").ok().unwrap();
    assert!(matches!(
        disposition_payload(&state, &audited, "wontfix".into(), None, None),
        Some(Payload::AuditDispositionRecorded { .. })
    ));
}

#[test]
fn review_pages_tell_stale_verdicts_from_valid_ones() {
    let mut state = two_patchsets();
    state.patchsets[1].brief_ref = Some("brief-1".into());
    state.patchsets[1].brief_version = Some(2);
    let mut first = verdict_on("ps-01", Verdict::ChangesRequested, "judge");
    first.body = Some("needs work".into());
    let mut second = verdict_on("ps-02", Verdict::Approved, "judge");
    second.on_behalf_of = Some("panel".into());
    state.verdicts = vec![first, second];
    state.authority = Some(1);
    let mut raised = finding_of("f-1", Severity::Major, true);
    raised.origin_event = "verdict-ps-01-judge".into();
    state.findings.push(raised);
    let rows = read_review(&state, true);
    assert_eq!(rows.iter().map(|row| row.verdict).collect::<Vec<_>>(), vec![1, 0]);
    assert!(rows[0].valid_for_current_head && !rows[1].valid_for_current_head);
    assert_eq!((rows[1].patchset, rows[1].findings.clone()), (Some(0), vec![0]));
    assert!(!read_review(&state, false)[0].valid_for_current_head);
    let newest = "- Approved on `ps-02` by judge (for panel) at 1970-01-12T13:46:50+00:00 — valid for current head\n  - brief: v2 (`brief-1`)\n";
    assert_eq!(review_verdict_text(&rows[0], &state), newest);
    let oldest = "- ChangesRequested on `ps-01` by judge at 1970-01-12T13:46:50+00:00 — STALE for current head\n  needs work\n  - `f-1` [blocking/Major] summary of f-1\n";
    assert_eq!(review_verdict_text(&rows[1], &state), oldest);
    let open = vec![OpenFinding {
        id: "f-1".into(),
        blocking: true,
        severity: Severity::Major,
        summary: "s".into(),
    }];
    assert_eq!(
        review_page(&state, &rows, &open, true, "integrate"),
        format!(
            "# Review: a-id\n\n## Verdict history\n\n{newest}{oldest}\n## Open findings\n\n- `f-1` [blocking/Major] s\n\n## Review needed\n\nValid approval for current head: yes\nNext action: integrate\n"
        )
    );
    assert_eq!(
        review_page(&change("a-id"), &Vec::new(), &Vec::new(), false, "snapshot"),
        "# Review: a-id\n\n## Verdict history\n\nNo verdicts recorded.\n\n## Open findings\n\nNo open findings.\n\n## Review needed\n\nValid approval for current head: no\nNext action: snapshot\n"
    );
    assert_eq!(
        inert_approval("a-id", "self-approval"),
        "note: this approval does not gate — self-approval.\n      integration will still refuse. Record the review this change owes with `arc integrate a-id --audit-debt <reason>`, or obtain a verdict from a different actor."
    );
}

#[test]
fn findings_are_listed_with_their_place_and_body() {
    let mut state = change("a-id");
    let mut one = finding_of("f-1", Severity::Critical, true);
    one.patchset_id = Some("ps-01".into());
    one.anchor = Some(anchor("a.rs", Some(3), Some(5)));
    one.body = Some("\n  first\nsecond\n\n".into());
    let mut two = finding_of("f-2", Severity::Note, false);
    two.status = Some("resolved".into());
    two.body = Some(" \n".into());
    state.findings = vec![one, two];
    state.audit_findings.push(finding_of("f-9", Severity::Minor, false));
    assert_eq!(
        findings(&state, "a", false),
        "f-1 [blocking/Critical] summary of f-1 — open\n  against: ps-01\n  at: a.rs:3-5 (head)\n  |   first\n  | second\nf-2 [Note] summary of f-2 — resolved\n(1 audit finding(s) raised after integration; arc findings a --audit)\n"
    );
    assert_eq!(findings(&state, "a", true), "f-9 [Minor] summary of f-9 — open\n");
    assert_eq!(anchor_location(&anchor("a.rs", Some(5), Some(3))), "a.rs:5 (head)");
    assert_eq!(anchor_location(&anchor(" ", None, None)), "(no path) (head)");
    assert_eq!(sarif_level(&state.findings[0]), "error");
    assert_eq!(sarif_level(&state.findings[1]), "note");
    let results = sarif_results(&state.findings);
    assert_eq!(results.len(), 1);
    assert_eq!((results[0].finding, results[0].region), (0, Some((3, 5))));
    assert_eq!(results[0].message, "summary of f-1\n\nfirst\nsecond");
}

#[test]
fn diffs_have_two_ends() {
    let mut state = two_patchsets();
    let range = diff(&state, &plain_diff()).ok().unwrap();
    assert_eq!((range.left.as_str(), range.right.as_str()), ("base", "abd2"));
    let mut between = plain_diff();
    between.between = Some(texts(&["ps-02", "ps-01"]));
    let range = diff(&state, &between).ok().unwrap();
    assert_eq!((range.left.as_str(), range.right.as_str()), ("abd2", "abc1"));
    let mut since = plain_diff();
    since.since_approved = true;
    assert_eq!(diff(&state, &since).err(), Some(DiffRefusal::NothingApproved));
    state.verdicts.push(verdict_on("ps-01", Verdict::Approved, "judge"));
    let range = diff(&state, &since).ok().unwrap();
    assert_eq!((range.left.as_str(), range.right.as_str()), ("abc1", "abd2"));
    let mut unknown = plain_diff();
    unknown.patchset = Some("ps-07".into());
    assert_eq!(diff(&state, &unknown).err(), Some(DiffRefusal::UnknownPatchset));
    assert_eq!(diff(&change("a-id"), &between).err(), Some(DiffRefusal::NoSnapshot));
    assert_eq!(
        diff_command(true, "a", "b", &texts(&["src"])),
        vec!["diff", "--stat", "a", "b", "--", "src"]
    );
    assert_eq!(diff_command(false, "a", "b", &Vec::new()), vec!["diff", "a", "b"]);
}

#[test]
fn integrated_ranges_have_a_base() {
    let mut state = closed("a-id", Closure::Integrated);
    assert_eq!(
        diff_integrated(&state, None).err(),
        Some(DiffRefusal::NoIntegrationBase)
    );
    state.closure.as_mut().unwrap().target_before = Some("before".into());
    assert_eq!(
        diff_integrated(&state, None).ok(),
        Some(("before".to_string(), "commit-a-id".to_string()))
    );
    assert_eq!(
        diff_integrated(&state, Some("named".into())).ok().unwrap().0,
        "named"
    );
    assert_eq!(diff_integrated(&change("a-id"), None).err(), Some(DiffRefusal::NotClosed));
    assert_eq!(
        diff_integrated(&closed("a-id", Closure::Abandoned), None).err(),
        Some(DiffRefusal::NotIntegrated)
    );
}

#[test]
fn anchors_drift_when_their_file_changes() {
    let mut kept = finding_of("f-1", Severity::Major, true);
    kept.anchor = Some(anchor("a.rs", Some(3), None));
    let mut moved = finding_of("f-2", Severity::Minor, false);
    moved.anchor = Some(anchor("b.rs", None, None));
    let mut settled = finding_of("f-3", Severity::Minor, false);
    settled.status = Some("resolved".into());
    let current = vec![Some("blob".to_string()), Some("other".to_string()), None];
    assert_eq!(
        render_findings(&vec![kept, moved, settled], &current, "ps-02"),
        "\n## Open findings at ps-02\n- [Major] summary of f-1\n  - [anchored] a.rs:3-3\n- [Minor] summary of f-2\n  - [drifted] b.rs\n"
    );
    assert_eq!(render_findings(&Vec::new(), &Vec::new(), "ps-02"), "");
}

#[test]
fn rewritten_revisions_are_followed() {
    let mapping = vec![
        RewrittenRevision { from: "a".into(), to: Some("b".into()) },
        RewrittenRevision { from: "c".into(), to: None },
        RewrittenRevision { from: "d".into(), to: Some("e".into()) },
    ];
    assert_eq!(unusable_successors(&mapping, &vec![true, false, false]), vec![2]);
    assert_eq!(
        resolve_rewritten("a", &Some(Fate::Rewritten { successor: "b".into() })),
        ("a → b\n".to_string(), 0)
    );
    assert_eq!(resolve_rewritten("a", &Some(Fate::Dropped)).1, 3);
    assert_eq!(
        resolve_rewritten("a", &None),
        ("a: no recorded rewrite moved it\n".to_string(), 2)
    );
}

#[test]
fn debts_say_what_review_there_was() {
    let mut state = two_patchsets();
    let mut seen = verdict_on("ps-02", Verdict::CommentOnly, "judge");
    seen.model = Some("m".into());
    state.verdicts = vec![verdict_on("ps-01", Verdict::Approved, "early"), seen];
    match declare_audit_debt(&state, "  nobody was free ") {
        Ok(Payload::DebtDeclared { reason, patchset_id, missing, coverage }) => {
            assert_eq!(reason, "nobody was free");
            assert_eq!(patchset_id.as_deref(), Some("ps-02"));
            assert_eq!(missing, DebtMissing::IndependentReview);
            assert_eq!(coverage.len(), 1);
            assert_eq!((coverage[0].reviewer.as_str(), coverage[0].model.as_deref()), ("judge", Some("m")));
        }
        _ => panic!("a debt is declared"),
    }
    assert!(declare_audit_debt(&state, " ").is_err());
    assert!(matches!(
        declare_audit_debt(&closed("a-id", Closure::Integrated), "x"),
        Ok(Payload::DebtDeclared { patchset_id: None, .. })
    ));
}

#[test]
fn audits_are_by_somebody_else() {
    let mut state = closed("a-id", Closure::Integrated);
    state.patchsets = vec![snapshot_of("ps-01", "h")];
    let judge = ctx("judge");
    assert_eq!(auditor(&judge), "judge");
    assert_eq!(integrated_revision(&state), Ok("commit-a-id"));
    assert!(matches!(
        audit(&judge, &state, Verdict::Approved, None, vec![inline(false)], true, false),
        Ok(Payload::AuditVerdictRecorded { revision, .. }) if revision == "commit-a-id"
    ));
    assert_eq!(
        audit(&judge, &state, Verdict::Approved, None, Vec::new(), true, true).err(),
        Some(AuditRefusal::OwnWork)
    );
    // Whoever wrote the work may still raise problems with it.
    assert!(audit(&judge, &state, Verdict::ChangesRequested, None, vec![inline(true)], true, true).is_ok());
    assert_eq!(
        audit(&judge, &state, Verdict::Approved, None, vec![inline(true)], true, false).err(),
        Some(AuditRefusal::ApprovalWithBlockingFindings)
    );
    let mut assumed = ctx("judge");
    assumed.actor_source = ActorSource::GitFallback;
    assert_eq!(
        refuse_self_audit(&assumed, &state, Verdict::Approved, true, false),
        Err(AuditRefusal::AssumedAuditor)
    );
    assert!(refuse_self_audit(&assumed, &state, Verdict::Approved, false, true).is_ok());
    assumed.on_behalf_of = Some("panel".into());
    assert_eq!(auditor(&assumed), "panel");
    assert!(refuse_self_audit(&assumed, &state, Verdict::Approved, true, false).is_ok());
    assert_eq!(
        audit(&judge, &change("a-id"), Verdict::Approved, None, Vec::new(), true, false).err(),
        Some(AuditRefusal::NotClosed)
    );
    assert_eq!(
        integrated_revision(&closed("a-id", Closure::Abandoned)),
        Err(AuditRefusal::NotIntegrated)
    );
}
