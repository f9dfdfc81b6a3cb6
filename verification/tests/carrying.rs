use arc_ledger::context::Ctx;
use arc_ledger::event::{Event, Payload, RewrittenRevision};
use arc_ledger::forge::{
    forge_link, forge_pr_state, hook_script, hook_status, install_hook, is_arc_hook,
    ForgeLinkArgs, ForgeLinkRecord, HookInstall, LINK_REFUSED, PrStateRefusal,
};
use arc_ledger::model::{AcceptanceProbe, ActorSource};
use arc_ledger::rescue::{
    find_transcript_owner, known_harness, rescue, rescued_note, transcript_unavailable,
    FindingSummary, GateLine, HeadState, RESCUE_SCHEMA, RescueReport, RescueTranscript, Turn,
};
use arc_ledger::rewrite::{
    carried_line, carry, check_pruned, check_range, fate_of, left_text, map_parents,
    mapping_entries, mapping_recorded_line, oldest_unsigned, pending_moves, plan_ref_moves, plural,
    preview, record_mapping, recorded_as, render_lost, resume_line, retag_signing, retagged_line,
    rewrite_reason, rewritten_lines, same_key, short, sign, sign_outcome, stranded_text,
    strip_prefixes, unsettled_text, LocalRef, LostParent, MappingRefusal, ParentFate, RefFate,
    RefMove, RefValue, SignArgs, SignOutcome, SignStart, SurveyRow,
};
use arc_ledger::sandbox::{
    config_text, discard, event_lines, ledger_events, readable_marker, refuse_unless_available,
    render, DiffReport, DiscardRefusal, PrefixRefusal, ScopedFile, SetDiff,
};
use arc_ledger::state::{Brief, ChangeState, ClaimIdentity, ClaimState, ClaimTiming};
use arc_ledger::table::Successors;
use arc_ledger::time::Timestamp;
use arc_ledger::timeline::log;

fn at(seconds: i64) -> Timestamp {
    Timestamp::new(1_000_000 + seconds, 0).unwrap()
}

fn change(id: &str) -> ChangeState {
    ChangeState {
        change_id: id.into(),
        slug: id.trim_end_matches("-id").into(),
        title: id.into(),
        profile: "local".into(),
        iterating: false,
        target_branch: "master".into(),
        branch: format!("arc/{id}"),
        base: "base".into(),
        worktree: None,
        opened_by: "tester".into(),
        opened_harness: Some("test".into()),
        journal_ref: None,
        blocked_by: Vec::new(),
        tags: Vec::new(),
        assigned_to: None,
        priority: 0,
        opened_at: at(0),
        patchsets: Vec::new(),
        briefs: Vec::new(),
        findings: Vec::new(),
        audit_findings: Vec::new(),
        verdicts: Vec::new(),
        authority: None,
        verifications: Vec::new(),
        run_revisions: Vec::new(),
        audit_revisions: Vec::new(),
        claim: None,
        holds: Vec::new(),
        closure: None,
        changelog: None,
        messages: Vec::new(),
    }
}

fn event(id: &str, payload: Payload) -> Event {
    Event {
        schema_version: 1,
        event_id: id.into(),
        repository_id: "repo".into(),
        change_id: "c".into(),
        actor: "tester".into(),
        actor_source: Some(ActorSource::Flag),
        on_behalf_of: None,
        model: None,
        harness: Some("test".into()),
        session: Some("s".into()),
        created_at: at(0),
        payload,
    }
}

fn ctx(actor: &str) -> Ctx {
    Ctx {
        cwd: "/work".into(),
        actor: actor.into(),
        actor_source: ActorSource::Flag,
        fallback_announced: false,
        harness: Some("cli".into()),
        session: Some("one".into()),
        model: None,
        on_behalf_of: None,
    }
}

fn owner(actor: &str) -> ClaimIdentity {
    ClaimIdentity {
        actor: actor.into(),
        harness: "cli".into(),
        session: "one".into(),
    }
}

fn held(claim_id: &str, actor: &str) -> ClaimState {
    ClaimState {
        claim_id: claim_id.into(),
        owner: owner(actor),
    }
}

fn live() -> ClaimTiming {
    ClaimTiming {
        active: true,
        stale: false,
        expired: false,
        stage: "implementing".into(),
    }
}

fn no_claim() -> ClaimTiming {
    ClaimTiming {
        active: false,
        stale: false,
        expired: false,
        stage: "started".into(),
    }
}

fn texts(values: &[&str]) -> Vec<String> {
    values.iter().map(|value| value.to_string()).collect()
}

fn brief_of(event_id: &str, body: &str) -> Brief {
    Brief {
        event_id: event_id.into(),
        ts: at(0),
        actor: "lead".into(),
        on_behalf_of: None,
        title: None,
        body: body.into(),
        base_revision: None,
        acceptance_probes: Vec::new(),
        plan_ref: None,
        plan_slice: None,
    }
}

fn row(commit: &str, verification: &str, signer: &str) -> SurveyRow {
    SurveyRow { commit: commit.into(), verification: verification.into(), signer: signer.into() }
}

#[test]
fn keys_are_matched_by_their_ends() {
    assert!(same_key("AAAABBBBCCCC", "bbbbcccc"));
    assert!(same_key("bbbbcccc", "AAAABBBBCCCC"));
    assert!(!same_key("AAAABBBBCCCC", "AAAABBBB"));
    assert!(!same_key("", "AAAA") && !same_key("AAAA", ""));
}

#[test]
fn signing_starts_at_the_oldest_commit_that_needs_it() {
    let survey = vec![
        row("c4", "G", "KEY1"),
        row("c3", "N", ""),
        row("c2", "G", "KEY2"),
        row("c1", "U", "KEY1"),
    ];
    // Without a key that is asked for, the one that signed last counts.
    assert_eq!(oldest_unsigned(&survey, &None), Some(2));
    assert_eq!(oldest_unsigned(&survey, &Some("key2!".into())), Some(3));
    let signed = vec![row("c2", "G", "AAKEY1"), row("c1", "U", "AAKEY1")];
    assert_eq!(oldest_unsigned(&signed, &Some("KEY1".into())), None);
    assert_eq!(oldest_unsigned(&vec![row("c1", "N", ""), row("c0", "E", "KEY1")], &None), Some(1));
    assert_eq!(oldest_unsigned(&Vec::new(), &None), None);
}

fn signing() -> SignArgs {
    SignArgs { key: None, from: None, dry_run: false, no_sign: false, retag: false }
}

#[test]
fn interrupted_rewrites_are_finished_first() {
    let survey = vec![row("c1", "N", "")];
    let start = |args: &SignArgs, unfinished: Option<&str>, clean: bool, survey: &Vec<SurveyRow>| {
        sign(args, "main", &unfinished.map(|u| u.to_string()), clean, survey)
    };
    let mut args = signing();
    assert!(matches!(start(&args, Some("main"), false, &survey), SignStart::Resume));
    assert!(matches!(start(&args, Some("next"), true, &survey), SignStart::OtherBranchUnfinished));
    assert!(matches!(start(&args, None, false, &survey), SignStart::UncommittedChanges));
    assert!(matches!(start(&args, None, true, &survey), SignStart::FromRow { row: 0 }));
    assert!(matches!(start(&args, None, true, &Vec::new()), SignStart::NothingToDo));
    args.from = Some("c0".into());
    assert!(matches!(start(&args, None, true, &Vec::new()), SignStart::FromAsked));
}

fn mapping(pairs: &[(&str, &str)]) -> Successors {
    let mut out = Successors::new();
    for (from, to) in pairs {
        carry(&mut out, from, to);
    }
    out
}

#[test]
fn parents_are_carried_forward() {
    let moved = mapping(&[("a", "a2"), ("b", "b")]);
    // A commit that came out as it was did not move.
    assert_eq!(moved.find("b"), None);
    assert_eq!(
        map_parents(&texts(&["a", "c"]), &moved, &vec![false, true]),
        Ok(texts(&["a2", "c"]))
    );
    assert_eq!(
        map_parents(&texts(&["a", "c", "d"]), &moved, &vec![false, false, false]),
        Err(LostParent { index: 1, fate: ParentFate::Missing })
    );
    let mut cut = mapping(&[("a", "a2")]);
    cut.put("d", None);
    assert_eq!(cut.find("d"), Some(&None));
    // What was dropped cannot be a parent, though it is still a commit here.
    assert_eq!(
        map_parents(&texts(&["a", "d", "e"]), &cut, &vec![true, true, false]),
        Err(LostParent { index: 1, fate: ParentFate::Dropped })
    );
    assert_eq!(
        render_lost("0123456789", "d", ParentFate::Dropped),
        "01234567 is a parent of d and the rewrite dropped it; the ancestry cannot be rebuilt"
    );
    assert_eq!(
        render_lost("e", "d", ParentFate::Missing),
        "e is a parent of d and is not a commit in this repository; the ancestry cannot be rebuilt"
    );
    assert_eq!(
        preview(&cut),
        "a a2\nd dropped\n2 commits would be rewritten; nothing was moved or recorded\n"
    );
    assert_eq!(
        fate_of(&local("refs/heads/side", "d", "commit", "d", true), "main", &cut, false),
        RefFate::Stranded
    );
    assert!(matches!(
        sign_outcome(&cut, "d", false),
        SignOutcome::Move { new_head } if new_head == "d"
    ));
    assert_eq!(check_range(&texts(&["a"]), "a", "main"), Ok(()));
    assert_eq!(
        check_range(&Vec::new(), "a", "main"),
        Err("a is not an ancestor of main".to_string())
    );
    let entries = mapping_entries(&mapping(&[("z", "z2"), ("a", "a2")]));
    let seen: Vec<(&str, Option<&str>)> =
        entries.iter().map(|entry| (entry.from.as_str(), entry.to.as_deref())).collect();
    assert_eq!(seen, vec![("a", Some("a2")), ("z", Some("z2"))]);
    assert!(matches!(sign_outcome(&Successors::new(), "a", false), SignOutcome::Unchanged));
    assert!(matches!(sign_outcome(&moved, "a", true), SignOutcome::DryRun));
    assert!(matches!(
        sign_outcome(&moved, "a", false),
        SignOutcome::Move { new_head } if new_head == "a2"
    ));
}

fn local(name: &str, object: &str, kind: &str, commit: &str, on_range: bool) -> LocalRef {
    LocalRef {
        name: name.into(),
        object: object.into(),
        kind: kind.into(),
        commit: commit.into(),
        on_range,
    }
}

#[test]
fn refs_follow_what_was_rewritten() {
    let moved = mapping(&[("a", "a2"), ("b", "b2")]);
    let refs = || -> Vec<LocalRef> {
        vec![
            local("refs/heads/main", "b", "commit", "b", true),
            local("refs/heads/side", "a", "commit", "a", true),
            local("refs/heads/own", "x", "commit", "x", true),
            local("refs/heads/far", "y", "commit", "y", false),
            local("refs/tags/v1", "t", "tag", "a", true),
        ]
    };
    assert_eq!(fate_of(&refs()[0], "main", &moved, false), RefFate::Untouched);
    assert_eq!(fate_of(&refs()[3], "main", &moved, false), RefFate::Untouched);
    let evidence = vec![
        RefValue { name: "refs/arc/keep/1".into(), value: "a".into() },
        RefValue { name: "refs/arc/keep/2".into(), value: "q".into() },
    ];
    let plan = plan_ref_moves("main", &moved, &evidence, &refs(), false);
    let seen: Vec<(&str, &str, &str)> = plan
        .moves
        .iter()
        .map(|m| (m.name.as_str(), m.before.as_str(), m.after.as_str()))
        .collect();
    assert_eq!(seen, vec![("refs/arc/keep/1", "a", "a2"), ("refs/heads/side", "a", "a2")]);
    assert_eq!((plan.left, plan.stranded, plan.retagged), (vec![4], vec![2], vec![]));
    let plan = plan_ref_moves("main", &moved, &evidence, &refs(), true);
    assert_eq!((plan.left, plan.retagged), (vec![], vec![4]));
    assert_eq!(retag_signing(true, true), (true, false));
    assert_eq!(retag_signing(true, false), (false, true));
    assert_eq!(retag_signing(false, true), (false, false));
    assert!(left_text("refs/tags/v1").starts_with("refs/tags/v1 is an annotated tag"));
    assert_eq!(
        stranded_text("refs/heads/own", "0123456789", "ab"),
        "stranded: refs/heads/own sits on the replaced line; replay it with `git rebase --onto 01234567 ab own`"
    );
    assert_eq!(strip_prefixes("a/a/b", "a/"), "b");
    assert_eq!(short("0123456789"), "01234567");
    assert_eq!((plural(1, "ref").as_str(), plural(0, "ref").as_str()), ("1 ref", "0 refs"));
    assert_eq!(rewrite_reason("main", "0123456789"), "re-signed main from 01234567");
    assert_eq!(
        carried_line("0123456789", &texts(&["mergetag", "encoding"])),
        "carried through on 01234567: the mergetag header and the encoding header"
    );
}

#[test]
fn rewrites_are_applied_once() {
    let moves = || -> Vec<RefMove> {
        vec![
            RefMove { name: "r1".into(), before: "a".into(), after: "a2".into() },
            RefMove { name: "r2".into(), before: "b".into(), after: "b2".into() },
        ]
    };
    let at_value = |value: &str| Some(value.to_string());
    assert_eq!(pending_moves(&moves(), &vec![at_value("a"), at_value("b2")]), Ok(vec![0]));
    // Once every ref has moved, nothing is left to move.
    assert_eq!(pending_moves(&moves(), &vec![at_value("a2"), at_value("b2")]), Ok(vec![]));
    assert_eq!(
        pending_moves(&moves(), &vec![at_value("a2"), None]).err().map(|e| e.index),
        Some(1)
    );
    let recorded = |from: &str, to: Option<&str>| {
        vec![RewrittenRevision { from: from.into(), to: to.map(|t| t.to_string()) }]
    };
    let events = vec![
        event("1", Payload::HoldSet { reason: "r".into() }),
        event(
            "2",
            Payload::HistoryRewritten {
                mapping: recorded("a", Some("a2")),
                reason: "r".into(),
                tool: None,
            },
        ),
    ];
    assert_eq!(recorded_as(&events, &recorded("a", Some("a2"))), Some(1));
    assert_eq!(recorded_as(&events, &recorded("a", None)), None);
}

#[test]
fn sandboxes_differ_in_two_directions() {
    let diff = SetDiff::between(&texts(&["b", "c", "c"]), &texts(&["a", "c"]));
    assert_eq!((diff.only_in_sandbox.clone(), diff.only_in_source.clone()), (texts(&["b"]), texts(&["a"])));
    assert!(!diff.identical());
    let back = SetDiff::between(&texts(&["a", "c"]), &texts(&["b", "c"]));
    assert_eq!(back.only_in_sandbox, diff.only_in_source);
    assert_eq!(render("refs", &diff), texts(&["refs:", "  + b", "  - a"]));
    let same = || SetDiff::between(&texts(&["a", "b"]), &texts(&["b", "a"]));
    assert!(same().identical() && render("refs", &same()).is_empty());
    let report = DiffReport { ledger_events: same(), journal_events: same(), refs: same() };
    assert!(report.identical());
    let report = DiffReport { ledger_events: same(), journal_events: diff, refs: same() };
    assert!(!report.identical());
    assert_eq!(event_lines("a\n \nb\r\n"), texts(&["a", "b"]));
    let file = |scope: &str, name: &str| ScopedFile { scope: scope.into(), name: name.into() };
    assert_eq!(
        ledger_events(&vec![file("repository", "1.json"), file("a-id", "2.tmp"), file("a-id", "3.json")]),
        texts(&["repository/1.json", "a-id/3.json"])
    );
}

#[test]
fn sandboxes_are_made_in_nothing_and_removed_from_outside() {
    assert_eq!(refuse_unless_available(false, false, false), Ok(()));
    assert_eq!(refuse_unless_available(true, true, true), Err(PrefixRefusal::HoldsSandbox));
    assert_eq!(refuse_unless_available(false, true, true), Err(PrefixRefusal::RepositoryExists));
    assert_eq!(refuse_unless_available(false, false, true), Err(PrefixRefusal::NotEmpty));
    assert!(readable_marker("arc-sandbox/1") && !readable_marker("arc-sandbox/2"));
    assert_eq!(discard(&Some("arc-sandbox/1".into()), false), Ok(()));
    assert_eq!(discard(&Some("arc-sandbox/1".into()), true), Err(DiscardRefusal::Inside));
    assert_eq!(discard(&Some("other".into()), true), Err(DiscardRefusal::UnreadableMarker));
    assert_eq!(discard(&None, false), Err(DiscardRefusal::NoMarker));
    assert_eq!(
        config_text(true, false, "author"),
        "[journal]\nauto_log = true\n\n[identity]\ndetect = false\n\n[provenance]\ngit_identity = \"author\"\n"
    );
}

fn summary(id: &str, status: &str) -> FindingSummary {
    FindingSummary { id: id.into(), status: status.into(), summary: format!("look at {id}") }
}

fn rescued() -> RescueReport {
    RescueReport {
        findings: vec![
            summary("F1", "open"),
            summary("F2", "resolved"),
            summary("F3", "acceptedrisk"),
            summary("F4", "obsolete"),
            summary("F5", "disputed"),
        ],
        gates: vec![GateLine { name: "test".into(), line: "green".into() }],
        next_action: "take over".into(),
        worktree_dirty: Some(true),
        has_patchset: true,
        head_matches_latest_patchset: false,
    }
}

#[test]
fn rescues_tell_what_is_left() {
    let mut state = change("a-id");
    let mut stale = live();
    stale.stale = true;
    let output = rescue(&ctx("lead"), &state, &no_claim(), 0, &rescued());
    assert!(output.claim.is_none() && output.brief.is_none() && !output.abandoned);
    assert_eq!(output.open_findings, vec![0, 4]);
    assert_eq!(output.head_state, HeadState::MovedPast);
    state.claim = Some(held("C", "writer"));
    state.briefs = vec![brief_of("B1", "x"), brief_of("B2", "y")];
    let output = rescue(&ctx("lead"), &state, &stale, 90, &rescued());
    assert!(output.abandoned);
    assert_eq!(output.brief, Some(1));
    assert_eq!(output.claim.as_ref().map(|claim| claim.age_seconds), Some(90));
    // Nobody abandons their own claim.
    assert!(!rescue(&ctx("writer"), &state, &stale, 90, &rescued()).abandoned);
    assert!(!rescue(&ctx("lead"), &state, &live(), 90, &rescued()).abandoned);
    let mut plain = rescued();
    plain.head_matches_latest_patchset = true;
    assert_eq!(rescue(&ctx("lead"), &state, &stale, 0, &plain).head_state, HeadState::Matches);
    plain.has_patchset = false;
    assert_eq!(rescue(&ctx("lead"), &state, &stale, 0, &plain).head_state, HeadState::NoPatchset);
    assert_eq!(rescued_note("a-id", &owner("writer")), "rescued change a-id from writer via cli/one");
}

#[test]
fn transcripts_are_looked_for_where_they_can_be() {
    let known = texts(&["house"]);
    let mut state = change("a-id");
    assert!(find_transcript_owner(&None, &state, &known).is_none());
    state.claim = Some(held("C", "writer"));
    assert!(find_transcript_owner(&None, &state, &known).is_none());
    state.claim.as_mut().unwrap().owner.harness = "codex".into();
    assert_eq!(find_transcript_owner(&None, &state, &known).unwrap().actor, "writer");
    let mut earlier = owner("earlier");
    earlier.harness = "pi".into();
    assert_eq!(find_transcript_owner(&Some(earlier), &state, &known).unwrap().actor, "earlier");
    let mut nameless = owner("earlier");
    nameless.harness = "pi".into();
    nameless.session = " ".into();
    assert!(find_transcript_owner(&Some(nameless), &state, &known).is_none());
    for name in ["codex", "opencode", "pi"] {
        assert!(known_harness(name, &Vec::new()));
    }
    assert!(known_harness("house", &known) && !known_harness("cli", &known));
    assert_eq!(RESCUE_SCHEMA, "arc-rescue/1");
    assert_eq!(transcript_unavailable(false, false), Some("claim harness/session is unknown"));
    assert_eq!(
        transcript_unavailable(true, false),
        Some("no transcript file exists for the claimed session")
    );
    assert_eq!(transcript_unavailable(true, true), None);
}

#[test]
fn rescues_read_section_by_section() {
    let mut state = change("a-id");
    state.claim = Some(held("C", "writer"));
    let mut brief = brief_of("B", "Do it.\n");
    brief.base_revision = Some("abc".into());
    brief.acceptance_probes =
        vec![AcceptanceProbe { name: "smoke".into(), command: "make smoke".into() }];
    state.briefs = vec![brief];
    let report = rescued();
    let output = rescue(&ctx("lead"), &state, &live(), 7, &report);
    let transcript = Some(RescueTranscript::Shown {
        path: "/t".into(),
        turns: vec![
            Turn { ts: Some("noon".into()), role: "operator".into(), text: "hi".into() },
            Turn { ts: None, role: "agent".into(), text: "ho".into() },
        ],
    });
    assert_eq!(
        arc_ledger::rescue::render(&state, &report, &output, &transcript),
        texts(&[
            "# a-id (`a-id`)",
            "\n## Brief\n",
            "- Base revision: `abc`\n",
            "- Acceptance probes:",
            "  - `smoke`: `make smoke`",
            "",
            "Do it.",
            "\n## Claim / Stage\n",
            "- Owner: writer via cli/one",
            "- Stage: `implementing`",
            "- State: active",
            "- Last activity: 7s ago",
            "\n## Transcript\n",
            "- Path: `/t`",
            "- Turns: 2",
            "\n### operator (noon)\n\nhi",
            "\n### agent\n\nho",
            "\n## Worktree\n",
            "- Branch head: has moved past the newest patchset",
            "- Uncommitted edits: present",
            "\n## Open Findings\n",
            "- `F1` [open] look at F1",
            "- `F5` [disputed] look at F5",
            "\n## Gates at Head\n",
            "- test: green",
            "\n## Assessment\n",
            "- Abandoned: no",
            "\nNext action: take over",
        ])
    );
    let bare = change("a-id");
    let mut report = rescued();
    report.findings = Vec::new();
    report.gates = Vec::new();
    report.worktree_dirty = None;
    let output = rescue(&ctx("lead"), &bare, &no_claim(), 0, &report);
    let unavailable = Some(RescueTranscript::Unavailable { reason: "none".into() });
    let lines = arc_ledger::rescue::render(&bare, &report, &output, &unavailable);
    assert!(lines.contains(&"- (unclaimed)".to_string()));
    assert!(lines.contains(&"- Unavailable: none".to_string()));
    assert!(lines.contains(&"- Uncommitted edits: unknown".to_string()));
    assert_eq!(lines.iter().filter(|line| *line == "- (none)").count(), 2);
}

fn observed() -> ForgeLinkArgs {
    ForgeLinkArgs {
        pr_number: 7,
        url: "u".into(),
        base_repo: "b".into(),
        base_ref: "main".into(),
        head_repo: "h".into(),
        head_ref: "arc/a".into(),
        head_sha: "abc".into(),
    }
}

fn links() -> Vec<ForgeLinkRecord> {
    vec![
        ForgeLinkRecord { event_id: "L1".into(), head_sha: "h1".into() },
        ForgeLinkRecord { event_id: "L2".into(), head_sha: "h2".into() },
    ]
}

#[test]
fn links_satisfy_their_declaration() {
    assert!(matches!(
        forge_link(observed(), true),
        Ok(Payload::ForgeLink { pr_number: 7, head_sha, .. }) if head_sha == "abc"
    ));
    assert_eq!(forge_link(observed(), false).err(), Some(LINK_REFUSED));
    assert_eq!(LINK_REFUSED, 10);
}

#[test]
fn pull_requests_are_told_of_the_current_link() {
    let refused = |merged: bool, sha: Option<&str>, links: &Vec<ForgeLinkRecord>, named: Option<&str>| {
        forge_pr_state("s".into(), merged, sha.map(|s| s.to_string()), links, named).err()
    };
    match forge_pr_state("merged".into(), true, Some("m".into()), &links(), Some("L2")) {
        Ok(Payload::ForgePrState { state, merge_sha, link_event_id, pr_head }) => {
            assert_eq!((state.as_str(), merge_sha.as_deref()), ("merged", Some("m")));
            assert_eq!((link_event_id.as_deref(), pr_head.as_deref()), (Some("L2"), Some("h2")));
        }
        _ => panic!("a state is recorded"),
    }
    assert_eq!(refused(false, None, &links(), None), None);
    assert_eq!(refused(true, None, &links(), None), Some(PrStateRefusal::MergedNeedsSha));
    assert_eq!(refused(false, Some("m"), &links(), None), Some(PrStateRefusal::ShaNeedsMerged));
    assert_eq!(refused(false, None, &Vec::new(), None), Some(PrStateRefusal::NoLink));
    assert_eq!(refused(false, None, &links(), Some(" ")), Some(PrStateRefusal::EmptyLink));
    assert_eq!(refused(false, None, &links(), Some("L1")), Some(PrStateRefusal::Superseded));
    assert_eq!(refused(false, None, &links(), Some("X")), Some(PrStateRefusal::UnknownLink));
    assert_eq!(
        refused(false, None, &links(), Some("L")),
        Some(PrStateRefusal::Ambiguous { matches: 2 })
    );
}

#[test]
fn hooks_of_others_are_kept() {
    let script = hook_script("post-commit");
    assert_eq!(
        script,
        "#!/bin/sh\n# arc-managed hook\ncommand -v arc >/dev/null 2>&1 || exit 0\narc hook-run post-commit \"$@\"\nexit 0\n"
    );
    assert!(is_arc_hook(&script) && !is_arc_hook("#!/bin/sh\nmake\n"));
    assert_eq!(install_hook(false, false, false), HookInstall::Write);
    assert_eq!(install_hook(true, true, false), HookInstall::Write);
    assert_eq!(install_hook(true, false, false), HookInstall::Refuse);
    assert_eq!(install_hook(true, false, true), HookInstall::SaveAndWrite);
    assert_eq!(hook_status(false, false), "absent");
    assert_eq!(hook_status(true, true), "arc-managed");
    assert_eq!(hook_status(true, false), "foreign");
}

#[test]
fn logs_run_either_way() {
    assert_eq!(log(3, false), vec![0, 1, 2]);
    assert_eq!(log(3, true), vec![2, 1, 0]);
    assert!(log(0, true).is_empty());
}

#[test]
fn rewrites_tell_what_they_did() {
    assert_eq!(
        resume_line("main", "0123456789", Timestamp::new(0, 0).unwrap()),
        "finishing the rewrite of main from 01234567, recorded 1970-01-01T00:00:00+00:00"
    );
    assert_eq!(
        rewritten_lines(1, "main", "0123456789", 2, "E"),
        vec![
            "1 commit rewritten on main; head is now 01234567",
            "2 refs moved",
            "rewrite recorded as E",
        ]
    );
    assert_eq!(
        retagged_line("v1", "a", "b", true),
        "re-pointed v1: tag object a is now b, unsigned because the rewrite signed nothing"
    );
    assert_eq!(retagged_line("v1", "a", "b", false), "re-pointed v1: tag object a is now b");
    let moved = RefMove { name: "refs/heads/x".into(), before: "a".into(), after: "b".into() };
    assert_eq!(
        unsettled_text(&moved, &None, "/intent"),
        "refs/heads/x holds nothing, which is neither what the rewrite read (a) nor what it writes (b); settle it by hand, then remove /intent"
    );
}

#[test]
fn mappings_name_commits_of_this_repository() {
    let mut moved = mapping(&[("a", "a2"), ("b", "b2"), ("c", "c2"), ("d", "d2")]);
    moved.put("e", None);
    assert_eq!(check_pruned(&moved, &vec![true, true, true, true, false], "/intent"), Ok(()));
    assert_eq!(
        check_pruned(&moved, &vec![false; 5], "/intent"),
        Err("4 of the commits this rewrite produced are no longer in this repository (a2, b2, c2); the rewrite cannot be finished. Remove /intent and run it again.".to_string())
    );
    let record = |commits: Vec<bool>, contradiction: Option<&str>| {
        record_mapping(
            &moved,
            &commits,
            contradiction.map(str::to_string),
            "filtered".into(),
            Some("tool".into()),
        )
    };
    assert!(matches!(
        record(vec![true, false, true, true, false], Some("two successors")),
        Err(MappingRefusal::NotOfThisRepository { text })
            if text == "1 of the mapped revisions are not commits in this repository (b2); this map does not describe this repository's history"
    ));
    assert!(matches!(
        record(vec![true; 5], Some("two successors")),
        Err(MappingRefusal::Contradicts { text }) if text == "two successors"
    ));
    match record(vec![true; 5], None) {
        Ok(Payload::HistoryRewritten { mapping, reason, tool }) => {
            assert_eq!((reason.as_str(), tool.as_deref()), ("filtered", Some("tool")));
            assert_eq!((mapping.len(), mapping[4].to.as_deref()), (5, None));
        }
        _ => panic!("a rewrite is recorded"),
    }
    assert_eq!(mapping_recorded_line(&moved), "history rewrite recorded: 5 revisions");
}
