use dedup_gui::grooming_plan::{
    build_preview, one_sided, planned, row_note, sweep_repos, sweep_step, BackupGroup, Command,
    DiffItem, OpResult, PlanReply,
};
use dedup_gui::board::Status;
use dedup_gui::notes::{Note, NoteOutcome};
use dedup_gui::row_keys::RowKey;
use dedup_gui::run_result::{ResultModal, RunReport, MAX_PROBLEMS};
use dedup_gui::theme::Ink;

fn texts(list: &[&str]) -> Vec<String> {
    list.iter().map(|s| s.to_string()).collect()
}

#[test]
fn a_clean_run_reads_as_done() {
    let report = RunReport::new("Sync group 'offsite'").count("copied", 3).count("deleted", 0);
    assert!(report.complete());
    assert_eq!(report.headline(), "Sync group 'offsite' done: copied 3, deleted 0.");
}

#[test]
fn failures_and_cancellation_make_it_incomplete() {
    let report = RunReport::new("Sync group 'offsite'")
        .count("copied", 0)
        .cancelled(true)
        .problems(vec!["a.txt: drive gone".to_string()]);
    assert!(!report.complete());
    let headline = report.headline();
    assert!(headline.contains("incomplete"), "{headline}");
    assert!(headline.contains("cancelled"), "{headline}");
    assert!(headline.contains("1 problem(s)"), "{headline}");
}

#[test]
fn problems_are_capped_but_still_counted() {
    let report = RunReport::new("Transfer")
        .problems((0..MAX_PROBLEMS + 50).map(|i| format!("file{i}.txt: failed")).collect());
    assert_eq!(report.problems.len(), MAX_PROBLEMS, "kept up to the cap");
    assert_eq!(report.problems_dropped, 50, "the rest are still counted");
    assert!(report.headline().contains(&format!("{} problem(s)", MAX_PROBLEMS + 50)));
    assert!(!report.complete());
    assert_eq!(report.problem_count(), 250);
}

#[test]
fn the_modal_holds_a_report_until_dismissed() {
    let mut modal = ResultModal::default();
    assert!(modal.report.is_none());
    modal.open(RunReport::new("Grooming").count("moved", 2));
    assert!(modal.report.is_some());
    assert!(modal.is_open());
    modal.close();
    assert!(modal.report.is_none());
}

#[test]
fn the_panel_renders_each_failure() {
    let report = RunReport::new("Sync group 'offsite'").count("copied", 1).cancelled(true).problems(
        vec![
            "photos/a.jpg: permission denied".to_string(),
            "docs/b.pdf: no space left".to_string(),
        ],
    );
    let panel = report.panel();
    assert_eq!(panel.heading, "RUN INCOMPLETE", "a cancelled run is not headed 'complete'");
    assert!(panel.cancelled.is_some());
    assert_eq!(report.problems[0], "photos/a.jpg: permission denied");
    assert_eq!(report.problems[1], "docs/b.pdf: no space left", "listed, not joined");
    assert!(panel.more.is_none(), "nothing was dropped");
}

#[test]
fn a_report_is_coloured_by_how_it_ended() {
    let clean = RunReport::new("Delete").count("deleted", 1);
    let mut failed = RunReport::new("Delete").note("kept going");
    failed.problem("a: gone".to_string());
    assert_ne!(clean.accent(), failed.accent());
    assert_eq!(failed.notes, vec!["kept going"]);
    assert_eq!(failed.problem_count(), 1);
    assert!(clean.panel().problems.is_none());
}

#[test]
fn each_result_has_its_report() {
    let deleted = OpResult::Deleted { deleted: 4, cancelled: false }.report();
    assert_eq!(deleted.headline(), "Delete done: deleted 4.");
    let swept =
        OpResult::EmptyDirs { removed: 7, repos: 2, errors: texts(&["b: offline"]) }.report();
    assert_eq!(swept.counts.len(), 2);
    assert_eq!(swept.counts[1], ("repositories swept".to_string(), 2));
    assert!(!swept.complete());
    let one = OpResult::EmptyDirs { removed: 0, repos: 1, errors: Vec::new() }.report();
    assert_eq!(one.headline(), "Remove empty dirs done: removed 0.");
    let organized =
        OpResult::Organized { moved: 2, skipped: 1, failed: 0, cancelled: false }.report();
    assert_eq!(organized.headline(), "Organize done: moved 2, skipped 1.");
    let pruned = OpResult::Pruned { pruned: 1, compacted: true, cancelled: false }.report();
    assert!(pruned.headline().contains("records dropped 1"));
    assert_eq!(pruned.notes, vec!["The index was compacted."]);
    let stopped = OpResult::Pruned { pruned: 1, compacted: false, cancelled: true }.report();
    assert_eq!(stopped.notes, vec!["Cancelled: the index was not compacted."]);
    let failed = OpResult::Error("no such repo".to_string()).report();
    assert_eq!(failed.title, "Grooming");
    assert_eq!(failed.problems, vec!["no such repo"]);
}

#[test]
fn a_row_note_names_what_happened_to_the_row() {
    let note = row_note(
        Command::Purge,
        &OpResult::Deleted { deleted: 1, cancelled: false },
        "a",
        "junk.tmp",
    );
    assert_eq!(note.action, "Deleted");
    assert_eq!((note.repo.as_str(), note.what.as_str()), ("a", "junk.tmp"));
    assert!(matches!(note.outcome, NoteOutcome::Changed));
    let failed =
        row_note(Command::Purge, &OpResult::Error("locked".to_string()), "a", "junk.tmp");
    assert!(matches!(failed.outcome, NoteOutcome::Failed(ref why) if why == "locked"));
}

#[test]
fn a_main_is_swept_with_its_sinks() {
    let groups = vec![
        BackupGroup { main: "a".to_string(), sinks: texts(&["b", "c"]) },
        BackupGroup { main: "x".to_string(), sinks: texts(&["y"]) },
    ];
    assert_eq!(sweep_repos("a", &groups), vec!["a", "b", "c"]);
    assert_eq!(sweep_repos("y", &groups), vec!["y"]);
    let (mut removed, mut errors) = (3, Vec::new());
    let ok = sweep_step(&mut removed, &mut errors, "a", Ok(2));
    assert_eq!(removed, 5);
    assert!(ok.note.is_some() && ok.problem.is_none());
    let bad = sweep_step(&mut removed, &mut errors, "b", Err("offline".to_string()));
    assert_eq!(removed, 5);
    assert_eq!(errors.len(), 1);
    assert!(errors[0].contains("offline"));
    assert!(bad.problem.is_some());
}

#[test]
fn dedupe_preview_skips_accepted_source_contents() {
    let reply = PlanReply::Compared {
        items: vec![
            DiffItem::Equal {
                rel_path: "cover.jpg".to_string(),
                reference_path: "cover.jpg".to_string(),
            },
            DiffItem::Equal {
                rel_path: "dupe.txt".to_string(),
                reference_path: "keep.txt".to_string(),
            },
        ],
        accepted: texts(&["cover.jpg"]),
        pool: texts(&["b"]),
    };
    let plan = planned(Ok(reply), false).unwrap_or_else(|e| panic!("{e}"));
    assert_eq!(plan.total, 1, "only the unaccepted duplicate is planned");
    assert_eq!(plan.paths[0].0, "dupe.txt");
}

#[test]
fn a_dedupe_row_shows_the_copy_that_makes_it_redundant() {
    let reply = PlanReply::Compared {
        items: vec![DiffItem::Equal {
            rel_path: "dupe.jpg".to_string(),
            reference_path: "archive/original.jpg".to_string(),
        }],
        accepted: Vec::new(),
        pool: texts(&["archive"]),
    };
    let plan = planned(Ok(reply), false).unwrap_or_else(|e| panic!("{e}"));
    let data = build_preview(plan, "/repos/a".to_string(), &vec![None]);
    let with_ref = &data.metas[0];
    assert_eq!(with_ref.key, RowKey::Source("dupe.jpg".to_string()));
    assert_eq!(with_ref.left_status, Status::WillDelete);
    assert_eq!(
        with_ref.right_paths,
        ["archive/original.jpg"],
        "the surviving copy is named on the row"
    );
    assert_ne!(
        with_ref.right_status,
        Status::Absent,
        "so the right side actually renders"
    );

    // PURGE / PRUNE keep the one-sided shape.
    let one_sided = one_sided(&vec!["junk.tmp".to_string()]);
    assert_eq!(one_sided, [("junk.tmp".to_string(), None)]);
}

#[test]
fn files_the_pool_lacks_are_never_planned() {
    let reply = PlanReply::Compared {
        items: vec![
            DiffItem::New { rel_path: "unique.txt".to_string() },
            DiffItem::DeletedInReference { rel_path: "was.txt".to_string() },
        ],
        accepted: Vec::new(),
        pool: texts(&["b", "c"]),
    };
    let plan = planned(Ok(reply), false).unwrap_or_else(|e| panic!("{e}"));
    assert!(plan.paths.iter().all(|p| p.0 != "unique.txt"));
    assert!(matches!(planned(Err("no index".to_string()), false), Err(e) if e == "no index"));
}

#[test]
fn a_one_sided_plan_counts_every_row() {
    let reply = PlanReply::Listed { paths: texts(&["a.tmp", "b.tmp"]), total: 2 };
    let plan = planned(Ok(reply), false).unwrap_or_else(|e| panic!("{e}"));
    assert!(!plan.organize);
    let data = build_preview(plan, "/repos/junk".to_string(), &vec![None, None]);
    assert_eq!(data.total, 2);
    assert_eq!(data.metas.len(), 2);
    assert_eq!(data.bodies.len(), 2);
    assert_eq!(data.metas[1].right_status, Status::Absent);
    assert!(data.target_header.is_none());
}

#[test]
fn notes_carry_their_outcome() {
    assert!(matches!(Note::changed("Deleted", "a", "x").outcome, NoteOutcome::Changed));
    assert!(matches!(Note::noted("Skipped", "a", "x").outcome, NoteOutcome::Noted));
    let failed = Note::failed("Deleted", "a", "x", "busy");
    assert_eq!(failed.action, "Deleted");
    assert!(matches!(failed.outcome, NoteOutcome::Failed(ref why) if why == "busy"));
    let report = OpResult::Applied { note: failed }.report();
    assert_eq!(report.title, "Deleted");
    assert_eq!(report.problems, vec!["busy"]);
    assert_eq!(RunReport::new("x").accent(), Ink::Green);
}

#[test]
fn a_run_with_failed_files_reads_incomplete() {
    let report =
        OpResult::Organized { moved: 5, skipped: 0, failed: 3, cancelled: false }.report();
    assert!(!report.complete());
    assert_eq!(
        report.headline(),
        "Organize incomplete — moved 5, skipped 0, errors 3; 3 problem(s)."
    );
    assert_eq!(report.problem_count(), 3);
    assert!(report.problems.is_empty() && report.panel().more.is_some());
}
