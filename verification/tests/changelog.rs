use arc_ledger::changelog::{
    canonical_category, changelog, landed_commit, normalize_target, projected_entry, projection,
    provenance_line, render_category, render_unreleased, same_ignoring_case, shown_entry,
    validate_category, write_changelog, CategoryError, ChangelogArgs, ChangelogRefusal,
    ChangelogRequest, ProjectedEntry, RecordedProvenance, TargetError,
};
use arc_ledger::model::Closure;
use arc_ledger::state::{ChangeState, ChangelogEntry, ClosureState};
use arc_ledger::time::Timestamp;

fn at(seconds: i64) -> Timestamp {
    Timestamp::new(1_000_000 + seconds, 0).unwrap()
}

fn change(id: &str) -> ChangeState {
    ChangeState {
        change_id: id.into(),
        slug: id.trim_end_matches("-id").into(),
        title: id.into(),
        profile: "local".into(),
        iterating: false,
        target_branch: "master".into(),
        branch: format!("arc/{id}"),
        base: "base".into(),
        worktree: None,
        opened_by: "tester".into(),
        opened_harness: Some("test".into()),
        journal_ref: None,
        blocked_by: Vec::new(),
        tags: Vec::new(),
        assigned_to: None,
        priority: 0,
        opened_at: at(0),
        patchsets: Vec::new(),
        briefs: Vec::new(),
        findings: Vec::new(),
        audit_findings: Vec::new(),
        verdicts: Vec::new(),
        authority: None,
        verifications: Vec::new(),
        run_revisions: Vec::new(),
        audit_revisions: Vec::new(),
        claim: None,
        holds: Vec::new(),
        closure: None,
        changelog: None,
        messages: Vec::new(),
    }
}

fn integrated(id: &str, seconds: i64, category: &str, body: &str) -> ChangeState {
    let mut state = change(id);
    state.closure = Some(ClosureState {
        outcome: Closure::Integrated,
        integrated_commit: Some(format!("commit-{id}")),
        superseded_by: None,
        target_before: None,
        event_id: "event".into(),
        created_at: at(seconds),
    });
    state.changelog = Some(ChangelogEntry {
        category: category.into(),
        body: body.into(),
        event_id: format!("event-{id}"),
        actor: "actor".into(),
        on_behalf_of: None,
        harness: Some("cli".into()),
        session: None,
        created_at: at(seconds),
    });
    state
}

fn entry<'a>(change: &'a str, category: &'a str, body: &'a str) -> ProjectedEntry<'a> {
    ProjectedEntry {
        change_id: change,
        change,
        category,
        body,
        integrated_commit: None,
        integrated_at: None,
        recorded: RecordedProvenance {
            event_id: "event-id",
            actor: "actor",
            on_behalf_of: None,
            effective_author: "actor",
            harness: None,
            session: None,
            created_at: at(0),
        },
    }
}

fn no_args() -> ChangelogArgs {
    ChangelogArgs {
        reference: None,
        category: None,
        body_file: None,
        json: false,
        provenance: false,
        since: None,
        write: false,
    }
}

#[test]
fn category_entries_are_separated_by_blank_lines() {
    let created_at = at(0);
    let entries = [
        ProjectedEntry {
            change_id: "first",
            change: "first",
            category: "added",
            body: "first entry",
            integrated_commit: None,
            integrated_at: None,
            recorded: RecordedProvenance {
                event_id: "event-first",
                actor: "actor",
                on_behalf_of: None,
                effective_author: "actor",
                harness: None,
                session: None,
                created_at,
            },
        },
        ProjectedEntry {
            change_id: "second",
            change: "second",
            category: "added",
            body: "second entry",
            integrated_commit: None,
            integrated_at: None,
            recorded: RecordedProvenance {
                event_id: "event-second",
                actor: "actor",
                on_behalf_of: None,
                effective_author: "actor",
                harness: None,
                session: None,
                created_at,
            },
        },
    ];
    let mut rendered = String::new();
    render_category(&mut rendered, "Added", &entries.iter().collect(), false);
    assert_eq!(rendered, "\n### Added\n\n- first entry\n\n- second entry\n");
}

#[test]
fn categories_are_canonical_whatever_their_case() {
    assert!(same_ignoring_case("FIXED", "fixed"));
    assert!(!same_ignoring_case("fixed", "fix"));
    assert_eq!(canonical_category("fIxEd"), Some("Fixed"));
    assert_eq!(canonical_category("Housekeeping"), None);
}

#[test]
fn unreleased_sections_follow_the_canonical_order_and_then_the_others() {
    let entries = vec![
        entry("c", "Zebra", "last"),
        entry("a", "fixed", "a repair"),
        entry("b", "added", "a feature"),
        entry("d", "zebra", "later"),
    ];
    let rendered = render_unreleased(&entries, false);
    assert!(rendered.starts_with("## [Unreleased]\n"));
    let added = rendered.find("### Added").unwrap();
    let fixed = rendered.find("### Fixed").unwrap();
    let zebra = rendered.find("### Zebra").unwrap();
    assert!(added < fixed && fixed < zebra);
    assert!(rendered.contains("- last"));
    assert!(rendered.contains("- later"));
}

#[test]
fn provenance_names_the_recording() {
    let one = entry("a", "fixed", "a repair");
    let line = provenance_line(&one);
    assert_eq!(
        line,
        "> arc provenance: change=a event=event-id actor=actor on_behalf_of=- harness=- session=- created_at=1970-01-12 13:46:40 UTC"
    );
    assert!(shown_entry(&one, true).contains(&line));
    assert!(!shown_entry(&one, false).contains(&line));
}

#[test]
fn only_landed_unreleased_entries_are_projected() {
    let states = vec![
        integrated("a-id", 20, "fixed", "second"),
        change("b-id"),
        integrated("c-id", 10, "fixed", "first"),
        integrated("d-id", 5, "fixed", "released"),
    ];
    assert_eq!(landed_commit(&states[0]), Some("commit-a-id"));
    assert_eq!(landed_commit(&states[1]), None);
    assert!(projected_entry(&states[0], false).is_some());
    assert!(projected_entry(&states[0], true).is_none());
    assert!(projected_entry(&states[1], false).is_none());
    let projected = projection(&states, &vec![false, false, false, true]);
    let bodies: Vec<&str> = projected.iter().map(|entry| entry.body).collect();
    assert_eq!(bodies.len(), 2);
    assert!(bodies.contains(&"first") && bodies.contains(&"second"));
}

#[test]
fn requests_are_told_apart() {
    assert!(matches!(changelog(&no_args(), false), Ok(ChangelogRequest::Project)));
    let mut show = no_args();
    show.reference = Some("a".into());
    assert!(matches!(changelog(&show, false), Ok(ChangelogRequest::Show)));
    let mut record = no_args();
    record.reference = Some("a".into());
    record.category = Some("fixed".into());
    record.body_file = Some("-".into());
    assert!(matches!(changelog(&record, false), Ok(ChangelogRequest::Record)));
    assert!(matches!(
        changelog(&record, true),
        Err(ChangelogRefusal::ReviewerMayNotRecord)
    ));
    record.json = true;
    assert!(matches!(
        changelog(&record, false),
        Err(ChangelogRefusal::RecordingTakesNoFlags)
    ));
    record.json = false;
    record.reference = None;
    assert!(matches!(
        changelog(&record, false),
        Err(ChangelogRefusal::RecordingNeedsChange)
    ));
    record.reference = Some("a".into());
    record.category = None;
    assert!(matches!(
        changelog(&record, false),
        Err(ChangelogRefusal::BodyNeedsCategory)
    ));
    record.category = Some("fixed".into());
    record.body_file = None;
    assert!(matches!(
        changelog(&record, false),
        Err(ChangelogRefusal::CategoryNeedsBody)
    ));
    let mut write = no_args();
    write.write = true;
    write.provenance = true;
    assert!(matches!(
        changelog(&write, false),
        Err(ChangelogRefusal::ProvenanceIsNotWritten)
    ));
    write.provenance = false;
    assert!(matches!(changelog(&write, false), Ok(ChangelogRequest::Project)));
    write.reference = Some("a".into());
    assert!(matches!(
        changelog(&write, false),
        Err(ChangelogRefusal::WriteTakesNoChange)
    ));
}

#[test]
fn recorded_categories_are_one_trimmed_line() {
    assert_eq!(validate_category("  fixed "), Ok("fixed".to_string()));
    assert_eq!(validate_category("Docs"), Ok("Docs".to_string()));
    assert!(matches!(validate_category("  "), Err(CategoryError::Empty)));
    assert!(matches!(
        validate_category("a\nb"),
        Err(CategoryError::SeveralLines)
    ));
}

#[test]
fn targets_stay_inside_the_repository() {
    assert_eq!(normalize_target("./docs//CHANGELOG.md"), Ok("docs/CHANGELOG.md".to_string()));
    assert!(matches!(
        normalize_target("../CHANGELOG.md"),
        Err(TargetError::OutsideRepository)
    ));
    assert!(matches!(
        normalize_target("/CHANGELOG.md"),
        Err(TargetError::OutsideRepository)
    ));
    assert!(matches!(normalize_target("."), Err(TargetError::NamesNoFile)));
}

#[test]
fn written_sections_replace_the_unreleased_one() {
    let original = "# Changelog\n\n## [Unreleased]\n\n- old\n\n## [1.0]\n\n- done\n";
    let written = write_changelog(original, "## [Unreleased]\n\n### Fixed\n\n- new\n").unwrap();
    assert!(written.contains("- new"));
    assert!(!written.contains("- old"));
    assert!(written.contains("## [1.0]\n\n- done\n"));
    assert_eq!(write_changelog("# Changelog\n", "## [Unreleased]\n"), None);
}
