use arc_ledger::fork::{
    adopt, base_branch_of, begin, checkouts, consumed_files, current, ensure_not_fork, fork_base,
    fork_contract, integrate_refusal, list_entries, render_entry, render_list, resume_command,
    retire, retired_marker, retired_note, thread, uncommitted_summary, worktree_name, AdoptRefusal,
    BeginRefusal, FORKS_SCHEMA, FORK_BRANCH_PREFIX, JournalEvent, RecordedIdentity, RetireRefusal,
};
use arc_ledger::identity::{
    by_branch, by_current_path, fork_branch, fork_markers, fork_topic, is_fork_branch, marker_field,
    marker_worktree_path, resolve_all, Artifact, ForkIdentity, ForkMarker, LiveWorktree,
};
use arc_ledger::table::Register;

fn texts(values: &[&str]) -> Vec<String> {
    values.iter().map(|value| value.to_string()).collect()
}

const CONTRACT: &str = "Fork contract: unintegrated by intent; external review deferred; the operator decides what to merge, rebase, or discard.";

fn marker(filename: &str, body: &str) -> ForkMarker {
    ForkMarker {
        filename: filename.into(),
        body: body.into(),
    }
}

fn worktree(path: &str, branch: Option<&str>) -> LiveWorktree {
    LiveWorktree {
        path: path.into(),
        canonical: format!("/real{path}"),
        branch: branch.map(|branch| branch.into()),
    }
}

fn forks() -> Vec<ForkIdentity> {
    let markers = vec![
        marker(
            "2.md",
            "branch: fork/left\nworktree: /old\nbase: main\nintent: try it\n",
        ),
        marker("1.md", "branch: fork/left\nworktree: /older\n"),
        marker("0.md", "branch: fork/away\nworktree: /away\n"),
    ];
    let places = vec![Some("/real/old".to_string()), None, Some("/real/away".to_string())];
    let live = vec![
        worktree("/main", Some("master")),
        worktree("/left", Some("fork/left")),
        worktree("/away", None),
    ];
    let branches = texts(&["master", "fork/left", "fork/away", "fork/bare", "fork/"]);
    resolve_all(&branches, &markers, &places, &live)
}

#[test]
fn an_identity_is_obtained_rather_than_asserted() {
    // The guarantee is enforced by privacy at compile time; this test
    // exists so the guarantee has a name in the suite and a place for the
    // next reader to look.
    assert!(std::mem::size_of::<ForkIdentity>() > 0);
}

#[test]
fn branches_of_forks_have_a_name_behind_the_prefix() {
    assert!(is_fork_branch("fork/a"));
    assert!(!is_fork_branch("fork/"));
    assert!(!is_fork_branch("arc/fork/a"));
    assert_eq!(FORK_BRANCH_PREFIX, "fork/");
    assert_eq!(fork_branch("a"), "fork/a");
    assert!(is_fork_branch(&fork_branch("a")));
    assert_eq!(fork_topic("a"), "fork-a");
}

#[test]
fn markers_are_read_line_by_line() {
    let body = "branch: fork/a\nbase: one\nbase: two\nbasement: x\n";
    assert_eq!(marker_field(body, "base"), Some("one".to_string()));
    assert_eq!(marker_field(body, "intent"), None);
    assert_eq!(
        marker_worktree_path(&marker("m", "worktree: /a/b\n")),
        Some("/a/b".to_string())
    );
    // A path that depends on where the question is asked names no checkout.
    assert_eq!(marker_worktree_path(&marker("m", "worktree: a/b\n")), None);
    assert_eq!(marker("m", body).field("branch"), Some("fork/a".to_string()));
}

#[test]
fn newest_markers_come_first() {
    let artifact = |filename: &str, topic: &str, kind: &str| Artifact {
        filename: filename.into(),
        topic: topic.into(),
        kind: kind.into(),
        body: format!("body of {filename}"),
    };
    let found = fork_markers(&vec![
        artifact("1.md", "fork-a", "plan"),
        artifact("3.md", "fork-a", "plan"),
        artifact("4.md", "fork-a", "note"),
        artifact("5.md", "plan", "plan"),
        artifact("2.md", "fork-b", "plan"),
    ]);
    let names: Vec<&str> = found.iter().map(|marker| marker.filename.as_str()).collect();
    assert_eq!(names, vec!["3.md", "2.md", "1.md"]);
}

#[test]
fn checkouts_are_where_the_repository_says() {
    let forks = forks();
    assert_eq!(forks.len(), 3);
    let left = &forks[by_branch(&forks, "left").unwrap()];
    // The branch is checked out somewhere, so the marker moves nothing.
    assert_eq!(left.worktree().as_deref(), Some("/left"));
    assert_eq!(left.branch(), "fork/left");
    assert_eq!(left.marker().as_ref().unwrap().filename, "2.md");
    let away = &forks[by_branch(&forks, "away").unwrap()];
    assert_eq!(away.worktree().as_deref(), Some("/away"));
    let bare = &forks[by_branch(&forks, "bare").unwrap()];
    assert!(bare.worktree().is_none() && bare.marker().is_none());
    assert_eq!(by_branch(&forks, "none"), None);
    assert_eq!(by_current_path(&forks, "/real/left"), by_branch(&forks, "left"));
    assert_eq!(by_current_path(&forks, "/left"), None);
    let here = current(&forks, "/real/away").unwrap();
    assert_eq!((here.slug.as_str(), here.worktree.as_str()), ("away", "/away"));
    assert!(current(&forks, "/real/main").is_none());
}

#[test]
fn a_relative_path_binds_no_checkout() {
    let branches = texts(&["fork/away"]);
    let live = vec![worktree("/away", None)];
    let found = |recorded: &str| {
        let markers = vec![marker("0.md", &format!("branch: fork/away\n{recorded}"))];
        let forks =
            resolve_all(&branches, &markers, &vec![Some("/real/away".to_string())], &live);
        forks[0].worktree().is_some()
    };
    assert!(found("worktree: /away\n"));
    assert!(!found("worktree: away\n"));
    assert!(!found(""));
}

#[test]
fn forks_begin_from_integrated_branches() {
    assert_eq!(fork_base(&Some("dev".into()), &None), Ok("dev".to_string()));
    assert_eq!(fork_base(&None, &Some("dev".into())), Ok("dev".to_string()));
    assert_eq!(fork_base(&None, &Some("fork/x".into())), Ok("master".to_string()));
    assert_eq!(fork_base(&None, &None), Ok("master".to_string()));
    assert!(matches!(
        fork_base(&Some("fork/x".into()), &None),
        Err(BeginRefusal::BaseIsFork)
    ));
    assert_eq!(worktree_name("repo", "a"), "repo-fork-a");
    assert_eq!(fork_contract(), CONTRACT);
    let text = begin("a", "/w/repo-fork-a", "master", false, false).ok().unwrap();
    assert_eq!(text.title, "fork a");
    assert_eq!(
        text.body,
        format!(
            "branch: fork/a\nworktree: /w/repo-fork-a\nbase: master\nstatus: open\n\n{CONTRACT}\n"
        )
    );
    assert!(matches!(
        begin("a", "/w", "master", true, true),
        Err(BeginRefusal::BranchExists)
    ));
    assert!(matches!(
        begin("a", "/w", "master", false, true),
        Err(BeginRefusal::WorktreeExists)
    ));
}

#[test]
fn adoption_writes_a_marker_where_there_is_none() {
    let live = vec![worktree("/hand", Some("fork/hand"))];
    let branches = texts(&["fork/hand", "fork/lost"]);
    let by_hand = resolve_all(&branches, &Vec::new(), &Vec::new(), &live);
    let text = adopt(&by_hand, "hand", &Some("why not".into())).ok().unwrap().unwrap();
    assert_eq!(text.title, "fork hand (adopted)");
    assert_eq!(
        text.body,
        format!(
            "branch: fork/hand\nworktree: /hand\nstatus: adopted\nintent: why not\n\n\n{CONTRACT}\n"
        )
    );
    assert!(matches!(adopt(&forks(), "left", &None), Ok(None)));
    assert!(matches!(adopt(&by_hand, "lost", &None), Err(AdoptRefusal::NoWorktree)));
    assert!(matches!(adopt(&by_hand, "none", &None), Err(AdoptRefusal::NoBranch)));
}

#[test]
fn retirement_is_recorded_once() {
    let forks = forks();
    let left = by_branch(&forks, "left").unwrap();
    let plan = retire(&forks, &Vec::new(), "left", "merged", false, true).ok().unwrap();
    assert_eq!(plan.fork, left);
    assert!(plan.tell_losses && plan.remove_worktree && !plan.write_marker);
    let kept = retire(&forks, &Vec::new(), "left", "merged", true, true).ok().unwrap();
    assert!(!kept.tell_losses && !kept.remove_worktree);
    let bare = retire(&forks, &Vec::new(), "bare", "dropped", false, false).ok().unwrap();
    assert!(bare.write_marker && !bare.remove_worktree);
    assert!(matches!(
        retire(&forks, &texts(&["2.md"]), "left", "merged", false, false),
        Err(RetireRefusal::AlreadyRetired { remove_worktree: true })
    ));
    assert!(matches!(
        retire(&forks, &texts(&["2.md"]), "left", "merged", true, false),
        Err(RetireRefusal::AlreadyRetired { remove_worktree: false })
    ));
    assert!(matches!(
        retire(&forks, &Vec::new(), "left", "  ", false, false),
        Err(RetireRefusal::EmptyOutcome)
    ));
    assert!(matches!(
        retire(&forks, &Vec::new(), "none", "merged", false, false),
        Err(RetireRefusal::NoBranch)
    ));
    let text = retired_marker("bare", "dropped");
    assert_eq!(text.title, "fork bare (retired)");
    assert_eq!(
        text.body,
        "branch: fork/bare\nstatus: retired\noutcome: dropped\n\nRetired before it was ever journaled.\n"
    );
    assert_eq!(retired_note("bare", "dropped"), "fork bare retired: dropped");
}

#[test]
fn listings_tell_what_is_left_on_disk() {
    let journal = |event: &str, file: Option<&str>| JournalEvent {
        event: event.into(),
        file: file.map(|file| file.into()),
    };
    let consumed = consumed_files(&vec![
        journal("consumed", Some("2.md")),
        journal("written", Some("0.md")),
        journal("consumed", None),
    ]);
    assert_eq!(consumed, vec!["2.md"]);
    let forks = forks();
    let ahead: Vec<Option<usize>> = forks
        .iter()
        .map(|fork| if fork.slug() == "left" { Some(3) } else { None })
        .collect();
    let entries = list_entries(&forks, &consumed, &Some("trunk".into()), &ahead);
    let slugs: Vec<&str> = entries.iter().map(|entry| entry.slug.as_str()).collect();
    assert_eq!(slugs, vec!["away", "bare", "left"]);
    assert_eq!(entries[0].base_branch, "trunk");
    assert_eq!(entries[2].base_branch, "main");
    assert_eq!(entries[2].retired.as_deref(), Some("retired"));
    assert_eq!(
        render_entry(&entries[2]),
        "  left  fork/left (retired, worktree remains: /left)  +3 over main"
    );
    assert_eq!(render_entry(&entries[0]), "  away  fork/away (/away)  +? over trunk");
    assert_eq!(render_entry(&entries[1]), "  bare  fork/bare (no worktree)  +? over trunk");
    assert_eq!(
        render_list(&entries),
        vec![
            "forks (3):",
            "  away  fork/away (/away)  +? over trunk",
            "  bare  fork/bare (no worktree)  +? over trunk",
            "  left  fork/left (retired, worktree remains: /left)  +3 over main",
            "    try it",
        ]
    );
    assert_eq!(render_list(&Vec::new()), vec!["no forks"]);
    assert_eq!(FORKS_SCHEMA, "arc-forks/1");
    let places = checkouts(&entries);
    assert_eq!(places.len(), 2);
    assert_eq!((places[1].slug.as_str(), places[1].path.as_str()), ("left", "/left"));
    let bare = &forks[by_branch(&forks, "bare").unwrap()];
    assert_eq!(base_branch_of(bare, &None), None);
}

#[test]
fn integration_is_refused_inside_a_fork() {
    let refusal = ensure_not_fork(&forks(), "/real/left").unwrap_err();
    assert_eq!(refusal, integrate_refusal("left"));
    assert_eq!(
        refusal,
        "this is fork worktree left: unintegrated by intent, so arc does not gate or merge it. Move the work onto a change from the base branch (or `git merge` from the target) when it is ready, and record the disposition with `arc fork retire left <outcome>`."
    );
    assert!(ensure_not_fork(&forks(), "/real/main").is_ok());
}

#[test]
fn threads_invent_nothing() {
    let none = Register::new();
    assert_eq!(
        resume_command("codex", "abc", &none),
        Some("codex resume abc".to_string())
    );
    assert_eq!(resume_command("other", "abc", &none), None);
    let mut further = Register::new();
    further.put("other", "other --again ");
    further.put("codex", "never ");
    assert_eq!(
        resume_command("other", "abc", &further),
        Some("other --again abc".to_string())
    );
    assert_eq!(
        resume_command("codex", "abc", &further),
        Some("codex resume abc".to_string())
    );
    assert_eq!(
        thread(&None, &none),
        vec!["identity: absent", "no journal marker records who opened this fork."]
    );
    let recorded = RecordedIdentity {
        harness: Some("codex".into()),
        session: Some("abc".into()),
        model: None,
        actor: Some("lead".into()),
    };
    assert_eq!(
        thread(&Some(recorded), &none),
        vec![
            "harness: codex",
            "session: abc",
            "model: absent",
            "actor: lead",
            "resume: codex resume abc",
        ]
    );
}

#[test]
fn losses_are_summed_up_on_one_line() {
    assert_eq!(uncommitted_summary(""), "");
    assert_eq!(uncommitted_summary("?? a\n?? b\n"), "2 untracked file(s)");
    assert_eq!(uncommitted_summary(" M a\n"), "1 file(s) with uncommitted changes");
    assert_eq!(
        uncommitted_summary("?? a\nM  b\nA  c\n"),
        "1 untracked file(s), 2 file(s) with uncommitted changes"
    );
}
