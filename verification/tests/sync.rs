use dedup_gui::review::SideStatus;
use dedup_gui::sync_view::{
    build_preview, push_outcome, Act, CollectProblems, Effect, Msg, PreviewOutcome, SinkOutcome,
    SinkPlan, SinkResult, StoreOp, SyncGroup, SyncMode, SyncView,
};
use dedup_gui::review::{table, RowControls};
use dedup_gui::icon;
use dedup_gui::theme::Ink;

fn names(list: &[&str]) -> Vec<String> {
    list.iter().map(|s| s.to_string()).collect()
}

fn group(main: &str, sinks: &[&str], mode: SyncMode) -> SyncGroup {
    SyncGroup { main: main.to_string(), sinks: names(sinks), mode }
}

fn repos() -> Vec<String> {
    names(&["BACKUP1", "BACKUP2", "PRIMARY"])
}

fn read(view: &mut SyncView, groups: Vec<(String, SyncGroup)>) {
    view.sync_repos(Ok((repos(), groups)));
}

fn plan() -> Vec<SinkPlan> {
    vec![SinkPlan {
        sink: "BACKUP1".to_string(),
        copies: names(&["a.txt"]),
        deletes: names(&["gone.txt"]),
        live: 1,
    }]
}

/// A view on the mirror group "offsite", selected and previewing.
fn previewed(confirm: bool) -> SyncView {
    let mut view = SyncView::new();
    let offsite = group("PRIMARY", &["BACKUP1"], SyncMode::Mirror);
    read(&mut view, vec![("offsite".to_string(), offsite.copy())]);
    view.apply(Act::Select("offsite".to_string()));
    let act = if confirm { Act::Ask } else { Act::Preview };
    match view.apply(act) {
        Effect::Plan { name, group, confirm: asked } => {
            assert_eq!(name, "offsite");
            assert_eq!(group.main, "PRIMARY");
            assert_eq!(asked, confirm);
        }
        _ => panic!("a plan is ordered"),
    }
    assert!(view.previewing);
    let result = build_preview(Ok(plan()), "offsite", &offsite);
    view.drain(Msg::Preview { result, confirm });
    assert!(!view.previewing);
    view
}

#[test]
fn creating_a_group_shows_its_main_sinks_and_mode() {
    let mut view = SyncView::new();
    read(&mut view, Vec::new());
    assert!(view.known.groups.is_empty(), "an empty tab says so");

    view.apply(Act::SetNewMain("PRIMARY".to_string()));
    assert!(!view.form_ready());
    view.form.name = "offsite".to_string();
    assert!(view.form_ready());
    let op = match view.apply(Act::CreateGroup) {
        Effect::Store(op) => op,
        _ => panic!("the store is asked"),
    };
    match &op {
        StoreOp::Create { name, main } => {
            assert_eq!((name.as_str(), main.as_str()), ("offsite", "PRIMARY"));
        }
        _ => panic!("a group is created"),
    }
    assert!(view.stored(op, Ok(())), "the groups are read again");
    let created = group("PRIMARY", &[], SyncMode::AddOnly);
    read(&mut view, vec![("offsite".to_string(), created.copy())]);

    assert_eq!(view.known.groups.len(), 1, "the group is in the registry");
    assert_eq!(view.selected.as_deref(), Some("offsite"), "the new group is selected");
    let panel = view.members_section("offsite", &created);
    let labels: Vec<&str> = panel.modes.iter().map(|m| m.label).collect();
    assert!(
        labels.contains(&"ADD ONLY") && labels.contains(&"MIRROR"),
        "the mode toggles show"
    );
    assert!(
        panel.hint.is_some_and(|h| h.contains("Add at least one sink")),
        "a group with no sink says what it needs"
    );
}

#[test]
fn members_and_mode_changes_are_stored() {
    let mut view = SyncView::new();
    let empty = group("PRIMARY", &[], SyncMode::AddOnly);
    read(&mut view, vec![("offsite".to_string(), empty.copy())]);
    view.apply(Act::Select("offsite".to_string()));
    let panel = view.members_section("offsite", &empty);
    assert!(panel.candidates.contains(&"BACKUP1".to_string()), "BACKUP1 is offered as a sink");
    assert_eq!(view.ungrouped(), vec!["BACKUP1", "BACKUP2"]);

    let off = || "offsite".to_string();
    let b1 = || "BACKUP1".to_string();
    match view.apply(Act::AddSink(off(), b1())) {
        Effect::Store(StoreOp::AddSink { group, repo }) => {
            assert_eq!((group, repo), (off(), b1()));
        }
        _ => panic!("a sink is added"),
    }
    match view.apply(Act::SetMode(off(), SyncMode::Mirror)) {
        Effect::Store(StoreOp::SetMode { group, mode }) => {
            assert_eq!(group, "offsite");
            assert_eq!(mode, SyncMode::Mirror, "the mode is per group and persisted");
        }
        _ => panic!("the mode is stored"),
    }
    match view.apply(Act::MakeMain(off(), b1())) {
        Effect::Store(StoreOp::MakeMain { group, repo }) => {
            assert_eq!((group, repo), (off(), b1()));
        }
        _ => panic!("the main is stored"),
    }
    match view.apply(Act::RemoveSink(off(), "PRIMARY".to_string())) {
        Effect::Store(StoreOp::RemoveSink { repo, .. }) => assert_eq!(repo, "PRIMARY"),
        _ => panic!("the sink leaves the group"),
    }
}

#[test]
fn preview_shows_what_the_push_would_do() {
    let view = previewed(false);
    assert_eq!(
        view.shown.totals,
        [1, 1, 0],
        "one copy into the sink, one mirror deletion"
    );
    let targets: Vec<&str> = view.shown.rows.iter().map(|r| r.target_path.as_str()).collect();
    assert!(targets.contains(&"BACKUP1: a.txt"), "the copy names the sink it goes to");
    assert!(targets.contains(&"BACKUP1: gone.txt"), "so does the deletion");
    assert!(view.words.confirm.is_none());
    assert_eq!(
        view.words.status.as_deref(),
        Some("1 file(s) to copy, 1 to delete across 1 sink(s).")
    );
}

#[test]
fn the_sync_preview_offers_no_per_row_controls() {
    let mut view = previewed(false);
    let controls = view.board_view().controls;
    assert_eq!(controls, RowControls::ReadOnly);
    let mut state = std::mem::take(&mut view.review);
    let mut rows = std::mem::take(&mut view.shown.rows);
    let board = table(&mut state, &mut rows, &view.board_view());
    assert!(board
        .lines
        .iter()
        .any(|l| l.target.as_ref().is_some_and(|t| t
            .0
            .as_ref()
            .is_some_and(|c| c.path.contains("BACKUP1: gone.txt")))));
    assert!(!board.has_actions, "no per-row action column");
    assert!(board.lines.iter().all(|l| l.buttons.is_none()));
    assert_ne!(icon::ARROW_RIGHT, icon::X);
}

#[test]
fn run_sync_asks_before_pushing_and_says_how_much() {
    let mut view = previewed(true);
    let prompt = view.words.confirm.as_deref().expect("a push is always confirmed").to_string();
    assert!(prompt.contains("copy 1 file(s)"), "the prompt counts the copies: {prompt}");
    assert!(
        prompt.contains("DELETE 1 file(s)"),
        "and the deletions, so MIRROR can be weighed: {prompt}"
    );
    assert!(
        prompt.contains("replaces the entire current contents"),
        "a push that drops everything the sink holds says so: {prompt}"
    );
    assert!(
        !prompt.contains("empties"),
        "and never claims the sink ends up empty — the main's content replaces it"
    );
    view.apply(Act::CancelConfirm);
    assert!(view.words.confirm.is_none(), "cancelling closes the dialog");
    assert!(!view.running, "and nothing was pushed");
    assert!(matches!(view.apply(Act::Confirm), Effect::Nothing), "nothing is left to push");
}

#[test]
fn confirm_targets_the_planned_group_not_the_current_selection() {
    let mut view = SyncView::new();
    let outcome = PreviewOutcome {
        group_name: "groupA".to_string(),
        group: group("A_MAIN", &["A_SINK"], SyncMode::AddOnly),
        rows: Vec::new(),
        added: 3,
        removed: 0,
        sink_count: 1,
        main_header: "A_MAIN".to_string(),
        wholesale_sinks: Vec::new(),
    };
    // The user has since clicked another group; its plan is what lands.
    view.selected = Some("groupB".to_string());
    view.apply_preview(Ok(outcome), true);

    assert!(
        view.words.confirm.as_deref().unwrap_or_default().contains("A_MAIN"),
        "the confirmation names the planned group's main, not the selection"
    );
    let (name, planned) = view.shown.pending.as_ref().expect("a push is pending");
    assert_eq!(name, "groupA", "PROCEED will push the planned group");
    assert_eq!(planned.main, "A_MAIN");
    match view.apply(Act::Confirm) {
        Effect::Push { name, group } => {
            assert_eq!(name, "groupA");
            assert_eq!(group.main, "A_MAIN");
        }
        _ => panic!("the push is ordered"),
    }
    assert!(view.running);
}

#[test]
fn run_sync_refuses_to_mirror_from_an_empty_main() {
    let mut view = SyncView::new();
    let offsite = group("PRIMARY", &["BACKUP1"], SyncMode::Mirror);
    read(&mut view, vec![("offsite".to_string(), offsite.copy())]);
    view.apply(Act::Select("offsite".to_string()));
    view.apply(Act::Ask);
    let refusal = "'PRIMARY' has no indexed files".to_string();
    let result = build_preview(Err(refusal), "offsite", &offsite);
    view.drain(Msg::Preview { result, confirm: true });
    assert!(
        view.words.confirm.is_none(),
        "no confirmation is offered for a push that would wipe the sink"
    );
    assert!(!view.running, "and nothing is pushed");
    assert!(
        view.words.error.as_deref().unwrap_or_default().contains("has no indexed files"),
        "the refusal explains itself"
    );
}

#[test]
fn a_deletion_in_the_plan_is_shown_as_removed() {
    let offsite = group("PRIMARY", &["BACKUP1"], SyncMode::Mirror);
    let outcome =
        build_preview(Ok(plan()), "offsite", &offsite).unwrap_or_else(|e| panic!("{e}"));
    assert_eq!((outcome.added, outcome.removed), (1, 1));
    assert_eq!(outcome.rows[0].target, SideStatus::Added);
    assert_eq!(outcome.rows[1].target, SideStatus::Removed);
    assert_eq!(outcome.rows[1].source, SideStatus::Absent);
    assert_eq!(outcome.wholesale_sinks, vec![("BACKUP1".to_string(), 1)]);
}

#[test]
fn every_way_a_push_falls_short_is_reported() {
    let results = vec![
        SinkResult {
            sink: "one".to_string(),
            outcome: SinkOutcome::Pushed { copied: 2, deleted: 1, errors: 3, cancelled: false },
        },
        SinkResult {
            sink: "two".to_string(),
            outcome: SinkOutcome::Failed("drive gone".to_string()),
        },
        SinkResult { sink: "three".to_string(), outcome: SinkOutcome::Skipped },
    ];
    let mut seen = CollectProblems::new();
    seen.on_error("a.txt", "denied");
    let report = push_outcome("offsite", &results, seen.problems);
    assert!(!report.complete());
    assert!(report.cancelled);
    assert_eq!(report.problems, vec!["a.txt: denied", "two: drive gone"]);
    assert_eq!(report.problem_count(), 4, "three files and one sink");
    assert_eq!(report.counts[0], ("copied".to_string(), 2));
    assert_eq!(report.counts[1], ("deleted".to_string(), 1));
    assert_eq!(report.counts[2], ("files that failed to copy".to_string(), 3));
    assert_eq!(
        report.notes,
        vec!["1 sink(s) were never pushed and are now stale: three"]
    );
    let mut view = SyncView::new();
    view.running = true;
    view.drain(Msg::Done(Ok(report)));
    assert!(!view.running && view.result.is_open());
    view.drain(Msg::Done(Err("refused".to_string())));
    assert_eq!(view.words.error.as_deref(), Some("refused"));
}

#[test]
fn a_refused_change_is_reported_and_reads_nothing_again() {
    let mut view = SyncView::new();
    let op = StoreOp::Delete { name: "offsite".to_string() };
    assert!(!view.stored(op, Err("busy".to_string())));
    assert_eq!(view.words.error.as_deref(), Some("busy"));
    assert!(matches!(view.apply(Act::CancelRun), Effect::CancelRun));
    assert!(matches!(view.apply(Act::Preview), Effect::Nothing), "no group is selected");
    assert!(!view.can_push());
    assert!(view.selected_group().is_none());
    assert!(group("m", &["s"], SyncMode::AddOnly).has_member(&"s".to_string()));
}

#[test]
fn a_mirror_is_confirmed_in_red() {
    assert_eq!(previewed(true).confirm_ink(), Ink::Red);
    assert_eq!(SyncView::new().confirm_ink(), Ink::Amber);
}

#[test]
fn failed_files_that_nobody_collected_are_counted() {
    let results = vec![SinkResult {
        sink: "one".to_string(),
        outcome: SinkOutcome::Pushed { copied: 2, deleted: 0, errors: 3, cancelled: false },
    }];
    let report = push_outcome("offsite", &results, Vec::new());
    assert!(!report.complete());
    assert_eq!(report.problem_count(), 3);
    assert!(report.headline().contains("3 problem(s)"));
}

#[test]
fn the_mode_buttons_say_what_they_do() {
    let group = SyncGroup { main: "m".to_string(), sinks: Vec::new(), mode: SyncMode::Mirror };
    let panel = SyncView::new().members_section("offsite", &group);
    assert_eq!(panel.modes[0].label, "ADD ONLY");
    assert_eq!(panel.modes[0].short, "Only copy, never delete");
    assert!(!panel.modes[0].selected);
    assert_eq!(panel.modes[1].label, "MIRROR");
    assert!(panel.modes[1].verbose.ends_with("Deletions cannot be undone."));
    assert!(panel.modes[1].selected);
}
