use dedup_gui::file_filter::{
    compose, place_preset, restore, saved_conds, FilterCond, FilterKind, FilterPreset, SavedCond,
};
use dedup_gui::files_view::{
    normalized, Act, Command, DiffAction, DiffEvent, FilesView, HistoryIo, Msg, OpResult, Work,
    PREVIEW_LIMIT, RUN_LOG_LIMIT,
};
use dedup_gui::filter_ui::CountStep;
use dedup_gui::grooming_plan::DiffItem;
use dedup_gui::theme::Ink;

fn cond(kind: FilterKind, value: &str) -> FilterCond {
    FilterCond { kind, value: value.to_string(), editing: false }
}

fn names(list: &[&str]) -> Vec<String> {
    list.iter().map(|s| s.to_string()).collect()
}

fn new_file(path: &str) -> DiffItem {
    DiffItem::New { rel_path: path.to_string() }
}

fn view() -> FilesView {
    let mut v = FilesView::new();
    v.reload(None, Ok(names(&["a", "b", "c"])));
    v.apply(Act::PickSource("a".to_string()), 0);
    v.apply(Act::PickTarget("b".to_string()), 0);
    v
}

#[test]
fn a_subdirectory_is_stored_without_its_slashes() {
    assert_eq!(normalized("  /in/box/ "), "in/box");
    assert_eq!(normalized("///"), "");
    assert_eq!(normalized(""), "");
    let mut v = view();
    v.pick.subdir = "/2026/".to_string();
    assert_eq!(v.normalized_subdir(), "2026");
}

#[test]
fn copying_lists_what_the_target_lacks() {
    let mut v = view();
    v.apply(Act::SetCommand(Command::Copy), 0);
    match v.apply(Act::Preview, 0).work {
        Work::Compare { source, references, filter, ask } => {
            assert_eq!(source, "a");
            assert_eq!(references, vec!["b"]);
            assert_eq!(filter, None);
            assert!(!ask);
        }
        _ => panic!("a comparison is ordered"),
    }
    v.compared(
        Ok(vec![
            new_file("x.txt"),
            DiffItem::Equal { rel_path: "y".to_string(), reference_path: "y".to_string() },
        ]),
        false,
    );
    assert_eq!(v.shown.total, 1);
    assert_eq!(v.shown.rows[0].from, "a/x.txt");
    assert_eq!(v.words.status.as_deref(), Some("1 match the copy."));
    assert!(v.words.confirm.is_none());
}

#[test]
fn deleting_lists_what_the_target_knows() {
    let mut v = view();
    v.apply(Act::SetCommand(Command::Delete), 0);
    v.compared(
        Ok(vec![
            new_file("x.txt"),
            DiffItem::Equal { rel_path: "y".to_string(), reference_path: "y".to_string() },
            DiffItem::DeletedInReference { rel_path: "z".to_string() },
        ]),
        true,
    );
    assert_eq!(v.shown.total, 2);
    assert_eq!(
        v.words.confirm.as_deref(),
        Some("Delete 2 file(s) from 'a' that already exist in 'b'? This cannot be undone.")
    );
    v.apply(Act::CancelConfirm, 0);
    assert!(v.words.confirm.is_none());
}

#[test]
fn the_prompt_names_the_destination() {
    let mut v = view();
    v.apply(Act::SetCommand(Command::Copy), 0);
    assert_eq!(v.build_prompt().as_deref(), Some("Copy 0 file(s) from 'a' into 'b'?"));
    v.pick.subdir = "in".to_string();
    v.apply(Act::SetCommand(Command::Move), 0);
    assert_eq!(
        v.build_prompt().as_deref(),
        Some(
            "Move 0 file(s) from 'a' into 'b/in'? They are removed from the source directory."
        )
    );
    v.pick.target = None;
    assert_eq!(v.build_prompt(), None);
}

#[test]
fn a_long_preview_is_cut_but_counted() {
    let mut v = view();
    v.apply(Act::SetCommand(Command::Copy), 0);
    let items = (0..PREVIEW_LIMIT + 5).map(|i| new_file(&format!("f{i}"))).collect();
    v.compared(Ok(items), false);
    assert_eq!(v.shown.rows.len(), PREVIEW_LIMIT);
    assert_eq!(v.shown.total, PREVIEW_LIMIT + 5);
    v.compared(Err("no index".to_string()), true);
    assert_eq!(v.words.error.as_deref(), Some("no index"));
}

#[test]
fn a_confirmed_run_is_handed_out_whole() {
    let mut v = view();
    v.apply(Act::SetCommand(Command::Move), 0);
    v.apply(Act::ToggleExtraRef("c".to_string()), 0);
    v.pick.subdir = " /in/ ".to_string();
    v.filter.conds = vec![cond(FilterKind::Name, "*.jpg")];
    match v.apply(Act::Confirm, 0).work {
        Work::Run { command, source, target, references, filter, subdir } => {
            assert_eq!(command, Command::Move);
            assert_eq!((source.as_str(), target.as_str()), ("a", "b"));
            assert_eq!(references, vec!["b", "c"]);
            assert_eq!(filter.as_deref(), Some("name:*.jpg"));
            assert_eq!(subdir.as_deref(), Some("in"));
        }
        _ => panic!("a run is ordered"),
    }
    assert!(v.run.running && v.shows_run());
    v.drain(Msg::Done(OpResult::Copied { copied: 3, cancelled: false, moved: true }));
    assert!(!v.run.running);
    assert!(v.words.status.as_deref().unwrap_or_default().contains('3'));
    v.drain(Msg::Done(OpResult::Error("denied".to_string())));
    assert_eq!(v.words.error.as_deref(), Some("denied"));
}

#[test]
fn the_source_is_never_its_own_reference() {
    let mut v = view();
    v.pick.extra_refs = names(&["a", "b", "c"]);
    assert_eq!(v.references("b"), vec!["b", "c"]);
}

#[test]
fn the_log_keeps_its_newest_lines() {
    let mut v = view();
    for i in 0..RUN_LOG_LIMIT as u64 + 2 {
        v.drain(Msg::Progress(DiffEvent::Progress {
            action: DiffAction::Copy,
            done: i,
            total: 20,
            rel_path: format!("f{i}"),
        }));
    }
    assert_eq!(v.run.log.len(), RUN_LOG_LIMIT);
    assert_eq!(v.run.log[0], "Copied f2");
    assert_eq!(v.run.log[RUN_LOG_LIMIT - 1], "Copied f11");
    assert_eq!((v.run.done, v.run.total), (11, 20));
    v.apply_progress(DiffEvent::Error { path: "x".to_string(), message: "denied".to_string() });
    assert_eq!(v.run.log[RUN_LOG_LIMIT - 1], "✗ x: denied");
    v.reset_run();
    assert!(v.run.log.is_empty());
}

#[test]
fn presets_are_placed_by_name() {
    let preset = |name: &str, value: &str| FilterPreset {
        name: name.to_string(),
        conds: vec![SavedCond { kind: "name".to_string(), value: value.to_string() }],
    };
    let mut presets = vec![preset("a", "1"), preset("b", "2")];
    place_preset(&mut presets, preset("a", "3"));
    place_preset(&mut presets, preset("c", "4"));
    assert_eq!(presets, vec![preset("a", "3"), preset("b", "2"), preset("c", "4")]);
}

#[test]
fn saved_conditions_come_back_as_they_were() {
    let conds = vec![cond(FilterKind::Mime, "image/"), cond(FilterKind::Size, ">=100")];
    let saved = saved_conds(&conds);
    assert_eq!(saved[0].kind, "mime");
    assert_eq!(restore(&saved), conds);
    let odd = vec![SavedCond { kind: "colour".to_string(), value: "red".to_string() }];
    assert!(restore(&odd).is_empty(), "an unknown kind is dropped");
    assert_eq!(compose(&restore(&saved)).as_deref(), Some("mime:image/ size:>=100"));
}

#[test]
fn commands_have_their_colours_and_words() {
    assert_eq!(Command::Copy.label(), "COPY");
    assert!(Command::Delete.destructive() && !Command::Copy.destructive());
    assert_eq!(Command::Delete.accent(), Ink::Red);
    assert!(!Command::Move.hint().is_empty());
}

#[test]
fn an_import_merges_and_a_folder_fills_the_field() {
    let mut v = view();
    let mut imported = dedup_gui::file_filter::FilterHistory::new();
    imported.record_value(FilterKind::Name, "x");
    assert!(v.drain(Msg::History(HistoryIo::Imported(imported))), "the merge is to be saved");
    assert_eq!(v.filter.history.name, vec!["x"]);
    v.drain(Msg::Subdir(Ok("in/box".to_string())));
    assert_eq!(v.pick.subdir, "in/box");
    v.drain(Msg::Subdir(Err("outside the target".to_string())));
    assert_eq!(v.words.error.as_deref(), Some("outside the target"));
    v.drain(Msg::History(HistoryIo::Failed("denied".to_string())));
    assert_eq!(v.words.error.as_deref(), Some("denied"));
    v.save_failed("disk full");
    assert!(v.words.error.as_deref().unwrap_or_default().contains("disk full"));
}

#[test]
fn the_match_count_is_debounced() {
    let mut v = view();
    v.filter.conds = vec![cond(FilterKind::Name, "x")];
    v.apply(Act::FilterChanged, 1_000);
    assert!(matches!(v.maybe_launch_count(1_000), CountStep::Wait(_)));
    let token = match v.maybe_launch_count(10_000) {
        CountStep::Launch { token, repo, filter } => {
            assert_eq!(repo, "a");
            assert_eq!(filter.as_deref(), Some("name:x"));
            token
        }
        _ => panic!("the count is due"),
    };
    v.drain(Msg::Counted(token, Some(5)));
    assert_eq!(v.count.result, Some(5));
}

#[test]
fn the_editor_shows_what_can_be_picked() {
    let mut v = view();
    v.mime_read(vec![("image/png".to_string(), 3), ("audio/mpeg".to_string(), 1)]);
    v.apply(Act::AddCond(FilterKind::Mime), 0);
    assert!(v.set_value(0, "ima"));
    let editor = v.cond_editor(0).expect("an editor");
    assert_eq!(editor.mime_picks, vec![("image/png".to_string(), 3)]);
    assert_eq!(v.filter_bar().editing, Some(0));
    assert!(v.cond_editor(4).is_none());
    v.apply(Act::CommitCond, 0);
    assert_eq!(v.filter.history.mime, vec!["ima"]);
    assert_eq!(v.filter_bar().editing, None);
}

#[test]
fn lines_say_how_far_a_run_is() {
    let mut v = view();
    assert_eq!(
        v.preview_line(),
        "Pick a source, a target and a command, then press PREVIEW."
    );
    v.compared(Ok(vec![new_file("x")]), false);
    assert_eq!(v.preview_line(), "1 file(s) match · showing first 1");
    assert_eq!(v.run_lines(), ("preparing…".to_string(), "Processed 0".to_string()));
    v.apply_progress(DiffEvent::Progress {
        action: DiffAction::Delete,
        done: 2,
        total: 5,
        rel_path: "y".to_string(),
    });
    assert_eq!(v.run_lines(), ("y".to_string(), "Processed 2 / 5".to_string()));
    v.marked_done("a", Ok(()));
    assert_eq!(v.words.status.as_deref(), Some("Marked 'a' triage-done."));
    v.marked_done("a", Err("busy".to_string()));
    assert_eq!(v.words.error.as_deref(), Some("busy"));
}
