use dedup_gui::board::{allowed_cmds, offers_cmd, Cmd};
use dedup_gui::icon;
use dedup_gui::lists::{drop_name, position, select_names, switch_name};
use dedup_gui::media_cell::{FileFacts, FilePlace, Kinds};
use dedup_gui::order::{comes_before, insert_ascending};
use dedup_gui::review::{
    act, facts_line, side_cell, sort, status_cell, summary, table, BoardEvent, BoardView,
    ReviewAction, ReviewCol, ReviewRow, ReviewState, RowControls, SideStatus, PAGE_SIZE,
};
use dedup_gui::row_keys::{KeySet, RowKey};
use dedup_gui::theme::Ink;

fn row(source: SideStatus, target: SideStatus, sp: &str, tp: &str) -> ReviewRow {
    ReviewRow {
        source,
        target,
        source_path: sp.to_string(),
        target_path: tp.to_string(),
        source_facts: None,
        target_facts: None,
    }
}

fn view(target: Option<&str>) -> BoardView<'_> {
    BoardView {
        totals: [1, 0, 0],
        source_header: "SRC",
        target,
        controls: RowControls::ReadOnly,
    }
}

fn texts(list: &[&str]) -> Vec<String> {
    list.iter().map(|s| s.to_string()).collect()
}

#[test]
fn each_status_has_a_distinct_symbol_and_colour() {
    let all =
        [SideStatus::Added, SideStatus::Removed, SideStatus::Unchanged, SideStatus::Absent];
    for i in 0..all.len() {
        for j in (i + 1)..all.len() {
            assert_ne!(all[i].symbol(), all[j].symbol(), "symbols differ");
        }
    }
    assert_eq!(SideStatus::Added.color(), Ink::Green);
    assert_eq!(SideStatus::Removed.color(), Ink::Red);
    assert_eq!(SideStatus::Unchanged.color(), Ink::Grey);
    assert_eq!(SideStatus::Absent.symbol(), icon::X);
}

#[test]
fn row_key_namespaces_source_and_target_rows() {
    // A copy row acts on the source side; a sync deletion (no source
    // path) acts on the target side.
    let copy = row(SideStatus::Unchanged, SideStatus::Added, "a.txt", "a.txt");
    assert_eq!(copy.key(), RowKey::Source("a.txt".to_string()));
    let del = row(SideStatus::Absent, SideStatus::Removed, "", "b.txt");
    assert_eq!(del.key(), RowKey::Target("b.txt".to_string()));
    assert_ne!(
        row(SideStatus::Unchanged, SideStatus::Added, "x", "x").key(),
        row(SideStatus::Absent, SideStatus::Removed, "", "x").key(),
        "source- and target-side rows with the same rel path never collide"
    );
}

#[test]
fn is_unchanged_requires_both_sides() {
    assert!(row(SideStatus::Unchanged, SideStatus::Unchanged, "a", "a").is_unchanged());
    assert!(!row(SideStatus::Unchanged, SideStatus::Added, "a", "a").is_unchanged());
}

/// Lays the board out once with the sort on a target column and returns where
/// the sort ended up.
fn sort_col_after_table(target: Option<&str>) -> ReviewCol {
    let mut state = ReviewState { sort_col: ReviewCol::Target, ..Default::default() };
    let mut rows = vec![row(SideStatus::Removed, SideStatus::Absent, "a", "")];
    table(&mut state, &mut rows, &view(target));
    state.sort_col
}

#[test]
fn one_sided_is_declared_not_inferred_from_an_empty_header() {
    assert_eq!(
        sort_col_after_table(Some("")),
        ReviewCol::Target,
        "Some(\"\") is two-sided: a target sort survives an empty header"
    );
    assert_eq!(
        sort_col_after_table(None),
        ReviewCol::Source,
        "None is one-sided: the target sort is reset onto the source column"
    );
}

#[test]
fn sort_by_target_status_groups_removals_then_toggles() {
    let mut rows = vec![
        row(SideStatus::Unchanged, SideStatus::Added, "b", "b"), // target Added (0)
        row(SideStatus::Absent, SideStatus::Removed, "", "a"),   // target Removed (1)
        row(SideStatus::Unchanged, SideStatus::Added, "a", "a"), // target Added (0)
    ];
    let mut state = ReviewState {
        sort_col: ReviewCol::TargetStatus,
        sort_asc: true,
        ..Default::default()
    };
    sort(&mut rows, &state);
    assert_eq!(rows[0].target, SideStatus::Added);
    assert_eq!(rows[2].target, SideStatus::Removed);

    state.sort_asc = false;
    sort(&mut rows, &state);
    assert_eq!(rows[0].target, SideStatus::Removed);
}

#[test]
fn sort_by_source_path_is_alphabetical() {
    let mut rows = vec![
        row(SideStatus::Unchanged, SideStatus::Added, "zeta", "zeta"),
        row(SideStatus::Removed, SideStatus::Absent, "alpha", ""),
    ];
    let state =
        ReviewState { sort_col: ReviewCol::Source, sort_asc: true, ..Default::default() };
    sort(&mut rows, &state);
    assert_eq!(rows[0].source_path, "alpha");
    assert_eq!(rows[1].source_path, "zeta");
}

#[test]
fn a_side_with_facts_shows_its_size_and_dimensions() {
    let facts = FileFacts {
        size: 5 * 1024 * 1024,
        modified_ms: 0,
        missing: false,
        mime: Some("image/jpeg".to_string()),
        img_size: Some((4032, 3024)),
        audio_ms: None,
        audio_seed: None,
        hash_hex: "deadbeef".to_string(),
        place: FilePlace {
            abs_path: "/nonexistent.jpg".to_string(),
            file_name: "nonexistent.jpg".to_string(),
            extension: Some("jpg".to_string()),
        },
        origin: None,
        exif: None,
        kinds: Kinds { audio: false, document: false, office: false, archive: false, tagged: false },
    };
    let line = facts_line(&facts, "5.00 MB", "1970-01-01");
    assert!(line.contains("4032×3024"), "the facts line shows the image dimensions");
    assert!(line.contains("5.00 MB"), "the facts line shows the human-readable size");
}

#[test]
fn equal_keys_keep_their_order() {
    let mut rows = vec![
        row(SideStatus::Unchanged, SideStatus::Added, "same", "1"),
        row(SideStatus::Unchanged, SideStatus::Added, "same", "2"),
        row(SideStatus::Unchanged, SideStatus::Added, "a", "3"),
    ];
    let state =
        ReviewState { sort_col: ReviewCol::Source, sort_asc: true, ..Default::default() };
    sort(&mut rows, &state);
    let order: Vec<&str> = rows.iter().map(|r| r.target_path.as_str()).collect();
    assert_eq!(order, ["3", "1", "2"]);
}

#[test]
fn pages_cover_every_row_once() {
    let n = PAGE_SIZE * 2 + 3;
    let mut rows: Vec<ReviewRow> = (0..n)
        .map(|i| row(SideStatus::Unchanged, SideStatus::Added, &format!("f{i:05}"), "t"))
        .collect();
    let mut state = ReviewState::default();
    let mut seen = Vec::new();
    for page in 0..3 {
        let board = table(&mut state, &mut rows, &view(Some("TGT")));
        assert_eq!(state.page, page);
        let pager = board.pager.expect("three pages");
        assert_eq!(pager.prev, page > 0);
        assert_eq!(pager.next, page < 2);
        seen.extend(board.lines.iter().map(|l| l.row));
        act(&mut state, &mut rows, BoardEvent::NextPage, RowControls::Enabled);
    }
    assert_eq!(seen, (0..n).collect::<Vec<_>>());
}

#[test]
fn unchanged_rows_are_folded_away() {
    let mut rows = vec![
        row(SideStatus::Unchanged, SideStatus::Unchanged, "a", "a"),
        row(SideStatus::Unchanged, SideStatus::Added, "b", "b"),
    ];
    let mut state = ReviewState::default();
    let board = table(&mut state, &mut rows, &view(Some("TGT")));
    let shown = board.lines.len();
    act(&mut state, &mut rows, BoardEvent::ToggleUnchanged, RowControls::Enabled);
    let other = table(&mut state, &mut rows, &view(Some("TGT"))).lines.len();
    assert_eq!(shown + other, 3, "one row either way plus the folded one");
}

#[test]
fn rejecting_twice_takes_it_back() {
    let mut rows = vec![row(SideStatus::Unchanged, SideStatus::Added, "a", "a")];
    let mut state = ReviewState::default();
    let key = rows[0].key();
    let reject = BoardEvent::ToggleReject(key.clone());
    assert!(act(&mut state, &mut rows, reject, RowControls::Enabled).is_none());
    assert!(state.rejected.has(&key));
    let cell = status_cell(SideStatus::Added, true);
    assert_ne!(cell.ink, status_cell(SideStatus::Added, false).ink);
    act(&mut state, &mut rows, BoardEvent::ToggleReject(key.clone()), RowControls::Enabled);
    assert!(!state.rejected.has(&key));
    match act(&mut state, &mut rows, BoardEvent::Apply(key), RowControls::Enabled) {
        Some(ReviewAction::Apply(k)) => assert_eq!(k.path(), "a"),
        None => panic!("the row is applied"),
    }
}

#[test]
fn an_absent_side_has_no_cell() {
    assert!(side_cell(SideStatus::Absent, &"x".to_string(), false).is_none());
    let gone = side_cell(SideStatus::Removed, &"x".to_string(), false).expect("drawn");
    assert_eq!(gone.path, "x");
    let parts = summary([1, 2, 3], 0);
    assert!(parts.iter().any(|p| p.0.contains('2')));
    assert!(summary([1, 2, 3], 4).len() > parts.len(), "rejected rows are named");
}

#[test]
fn sorting_by_the_same_column_turns_it_around() {
    let mut rows = vec![
        row(SideStatus::Unchanged, SideStatus::Added, "a", "a"),
        row(SideStatus::Unchanged, SideStatus::Added, "b", "b"),
    ];
    let mut state = ReviewState::default();
    act(&mut state, &mut rows, BoardEvent::SortBy(ReviewCol::Source), RowControls::Enabled);
    let first = state.sort_asc;
    act(&mut state, &mut rows, BoardEvent::SortBy(ReviewCol::Source), RowControls::Enabled);
    assert_eq!(state.sort_asc, !first);
}

#[test]
fn key_sets_hold_each_key_once() {
    let mut set = KeySet::new();
    assert!(set.is_empty());
    set.insert(RowKey::Source("a".to_string()));
    set.insert(RowKey::Source("a".to_string()));
    set.insert(RowKey::Target("a".to_string()));
    assert_eq!(set.len(), 2);
    assert!(set.copy().has(&RowKey::Target("a".to_string())));
    set.toggle(RowKey::Source("b".to_string()));
    set.toggle(RowKey::Source("b".to_string()));
    assert_eq!(set.len(), 2);
    set.remove(&RowKey::Source("a".to_string()));
    assert!(!set.has(&RowKey::Source("a".to_string())));
    assert!(RowKey::Source("a".to_string()).same(&RowKey::Source("a".to_string())));
}

#[test]
fn rows_carry_no_compare_command() {
    let cmds = vec![Cmd::Apply, Cmd::Hide];
    assert!(
        !cmds.contains(&Cmd::Compare),
        "the row body is how a row is opened, not a command"
    );
    assert!(!offers_cmd(&cmds, Cmd::Compare));
}

#[test]
fn a_barred_row_keeps_everything_but_apply() {
    let cmds = vec![Cmd::Apply, Cmd::Hide];
    assert_eq!(allowed_cmds(&cmds, false), cmds);
    assert_eq!(allowed_cmds(&cmds, true), vec![Cmd::Hide]);
}

#[test]
fn names_are_dropped_switched_and_selected() {
    let mut list = texts(&["a", "b", "a"]);
    drop_name(&mut list, &"a".to_string());
    assert_eq!(list, vec!["b"]);
    switch_name(&mut list, "c".to_string());
    assert_eq!(list, vec!["b", "c"]);
    switch_name(&mut list, "b".to_string());
    assert_eq!(list, vec!["c"]);
    assert_eq!(position(&list, "c"), 0);
    assert_eq!(position(&list, "z"), 1);
    let all = texts(&["a", "b", "c"]);
    assert_eq!(select_names(&all, &texts(&["b"]), true), vec!["b"]);
    assert_eq!(select_names(&all, &texts(&["b"]), false), vec!["a", "c"]);
}

#[test]
fn text_is_ordered_character_by_character() {
    assert!(comes_before("alpha", "beta"));
    assert!(comes_before("a", "ab"));
    assert!(!comes_before("a", "a"));
    assert!(comes_before("Z", "a"));
    let mut list = texts(&["alps", "sea"]);
    insert_ascending(&mut list, &"lake".to_string());
    insert_ascending(&mut list, &"sea".to_string());
    assert_eq!(list, vec!["alps", "lake", "sea"]);
}

#[test]
fn a_read_only_board_rejects_and_applies_nothing() {
    let mut rows = vec![row(SideStatus::Unchanged, SideStatus::Added, "a", "a")];
    let mut state = ReviewState::default();
    let key = rows[0].key();
    let reject = BoardEvent::ToggleReject(key.clone());
    assert!(act(&mut state, &mut rows, reject, RowControls::ReadOnly).is_none());
    assert!(!state.rejected.has(&key));
    let apply = BoardEvent::Apply(key);
    assert!(act(&mut state, &mut rows, apply, RowControls::ReadOnly).is_none());
}
