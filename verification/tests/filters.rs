use dedup_gui::file_filter;
use dedup_gui::files_view::{self, FilesView};
use dedup_gui::filter_expr::{compose, parse_conditions, FilterCond, FilterKind};
use dedup_gui::filter_ui::{
    kind_help, mime_pick_text, pick_stats, Act, CountStep, FilterBuilder, FilterHistory,
    COUNT_DEBOUNCE_MS,
};
use dedup_gui::naming::{is_taken, next_preset_name};
use dedup_gui::recent::{record, HISTORY_LIMIT};

fn cond(kind: FilterKind, value: &str) -> FilterCond {
    FilterCond { kind, value: value.to_string(), editing: false, negated: false }
}

fn negated_cond(kind: FilterKind, value: &str) -> FilterCond {
    FilterCond { negated: true, ..cond(kind, value) }
}

fn plain(kind: file_filter::FilterKind, value: &str) -> file_filter::FilterCond {
    file_filter::FilterCond { kind, value: value.to_string(), editing: false }
}

fn texts(list: &[&str]) -> Vec<String> {
    list.iter().map(|s| s.to_string()).collect()
}

#[test]
fn files_view_conditions_map_to_expected_expression() {
    let mut view = FilesView::new();
    assert_eq!(view.filter_string(), None);

    view.filter.conds = vec![
        plain(file_filter::FilterKind::Mime, "image/"),
        plain(file_filter::FilterKind::Name, "foo"),
        plain(file_filter::FilterKind::Size, ">=100"),
    ];
    assert_eq!(view.filter_string().as_deref(), Some("mime:image/ name:foo size:>=100"));
}

#[test]
fn files_view_blank_conditions_are_skipped() {
    let mut view = FilesView::new();
    view.filter.conds = vec![
        plain(file_filter::FilterKind::Mime, "  "),
        plain(file_filter::FilterKind::Name, "foo"),
    ];
    assert_eq!(view.filter_string().as_deref(), Some("name:foo"));
}

#[test]
fn merge_keeps_order_and_replaces_same_named_presets() {
    let preset = |name: &str, value: &str| file_filter::FilterPreset {
        name: name.to_string(),
        conds: vec![file_filter::SavedCond { kind: "name".to_string(), value: value.to_string() }],
    };
    let mut local = file_filter::FilterHistory::default();
    local.record_value(file_filter::FilterKind::Name, "old");
    local.presets.push(preset("mine", "local"));

    let mut imported = file_filter::FilterHistory::default();
    imported.record_value(file_filter::FilterKind::Name, "second");
    imported.record_value(file_filter::FilterKind::Name, "first");
    imported.presets.push(preset("mine", "imported"));
    imported.presets.push(preset("theirs", "extra"));

    local.merge(imported);
    assert_eq!(local.name, vec!["first", "second", "old"]);
    assert_eq!(local.presets, vec![preset("mine", "imported"), preset("theirs", "extra")]);
}

#[test]
fn save_and_apply_preset() {
    let mut view = FilesView::new();
    view.filter.conds = vec![
        plain(file_filter::FilterKind::Mime, "image/"),
        plain(file_filter::FilterKind::Size, ">=100"),
    ];
    view.filter.preset_name = "big images".to_string();
    let effect = view.apply(files_view::Act::SavePreset, 0);

    assert_eq!(view.filter.history.presets.len(), 1);
    assert!(view.filter.preset_name.is_empty());
    // The history is handed out for saving at once, recorded values included.
    assert!(effect.save);
    assert_eq!(view.filter.history.presets[0].name, "big images");
    assert_eq!(view.filter.history.mime, vec!["image/"]);

    // Applying the preset replaces the active conditions.
    view.filter.conds.clear();
    view.apply(files_view::Act::ApplyPreset(0), 0);
    assert_eq!(view.filter_string().as_deref(), Some("mime:image/ size:>=100"));
}

#[test]
fn filter_ui_conditions_map_to_expected_expression() {
    let mut fb = FilterBuilder::new();
    assert_eq!(fb.filter_string(), None);

    fb.filters = vec![
        cond(FilterKind::Mime, "image/"),
        cond(FilterKind::Name, "foo"),
        cond(FilterKind::Size, ">=100"),
    ];
    assert_eq!(fb.filter_string().as_deref(), Some("mime:image/ name:foo size:>=100"));
}

#[test]
fn filter_ui_blank_conditions_are_skipped() {
    let mut fb = FilterBuilder::new();
    fb.filters = vec![cond(FilterKind::Mime, "  "), cond(FilterKind::Name, "foo")];
    assert_eq!(fb.filter_string().as_deref(), Some("name:foo"));
}

#[test]
fn negated_condition_emits_a_bang() {
    let mut fb = FilterBuilder::new();
    fb.filters =
        vec![cond(FilterKind::Mime, "image"), negated_cond(FilterKind::Name, "*thumb*")];
    assert_eq!(fb.filter_string().as_deref(), Some("mime:image !name:*thumb*"));
}

#[test]
fn case_toggle_emits_the_modifier() {
    let mut fb = FilterBuilder::new();
    fb.filters = vec![cond(FilterKind::Name, "*.jpg")];
    assert_eq!(fb.filter_string().as_deref(), Some("name:*.jpg"));

    fb.case_insensitive = true;
    assert_eq!(fb.filter_string().as_deref(), Some("case:insensitive name:*.jpg"));

    // The modifier alone narrows nothing, so it is not emitted on its own.
    fb.filters.clear();
    assert_eq!(fb.filter_string(), None);
}

#[test]
fn expression_round_trips_through_the_builder() {
    for expr in [
        "mime:image !name:*thumb*",
        "case:insensitive name:*.jpg",
        "case:insensitive !mime:audio size:>=100",
        "name:!important",
    ] {
        let mut fb = FilterBuilder::new();
        fb.set_expression(expr);
        assert_eq!(fb.filter_string().as_deref(), Some(expr), "round trip {expr}");
    }
}

#[test]
fn clicking_not_negates_that_condition() {
    let mut editing = cond(FilterKind::Name, "*.mp3");
    editing.editing = true;
    let mut fb = FilterBuilder::new();
    fb.filters = vec![editing];
    assert!(!fb.cond_editor(0).unwrap().negated, "the editor shows NOT as off");
    let applied = fb.apply(Act::ToggleNegate(0), 0);

    assert!(fb.filters[0].negated, "clicking NOT inverts the condition it belongs to");
    assert!(applied.changed);
    assert_eq!(
        fb.filter_string().as_deref(),
        Some("!name:*.mp3"),
        "and that reaches the composed expression"
    );
}

#[test]
fn clicking_aa_switches_to_case_insensitive() {
    let mut fb = FilterBuilder::new();
    fb.filters = vec![cond(FilterKind::Name, "*.jpg")];
    fb.apply(Act::ToggleCase, 0);

    assert!(fb.case_insensitive, "clicking Aa turns off case sensitivity");
    assert_eq!(
        fb.filter_string().as_deref(),
        Some("case:insensitive name:*.jpg"),
        "and that reaches the composed expression"
    );
}

#[test]
fn parsing_reads_negation_and_case_back() {
    let (conds, ci) = parse_conditions("case:insensitive mime:image !name:*thumb*");
    assert!(ci, "case modifier recognised");
    assert_eq!(conds.len(), 2);
    assert_eq!(conds[0].kind, FilterKind::Mime);
    assert_eq!(conds[0].value, "image");
    assert!(!conds[0].negated);
    assert_eq!(conds[1].kind, FilterKind::Name);
    assert_eq!(conds[1].value, "*thumb*");
    assert!(conds[1].negated, "negation survives the round trip");

    // The case modifier must terminate the preceding value rather than being
    // absorbed into it.
    let (conds, ci) = parse_conditions("name:foo case:insensitive");
    assert!(ci);
    assert_eq!(conds.len(), 1);
    assert_eq!(conds[0].value, "foo");

    // A '!' inside a value is ordinary text, not a negation.
    let (conds, _) = parse_conditions("name:!important");
    assert_eq!(conds.len(), 1);
    assert_eq!(conds[0].value, "!important");
    assert!(!conds[0].negated);
}

#[test]
fn store_and_apply_preset() {
    let mut fb = FilterBuilder::new();
    fb.filters = vec![cond(FilterKind::Mime, "image/"), cond(FilterKind::Size, ">=100")];
    let applied = fb.apply(Act::StorePreset, 0);

    assert_eq!(fb.history.presets.len(), 1);
    assert_eq!(fb.history.presets[0].name, "Preset #1");
    // The preset (and the recorded values) are due on disk immediately.
    assert!(applied.save);
    assert_eq!(fb.history.mime, vec!["image/"]);

    // Applying the preset replaces the active conditions.
    fb.filters.clear();
    fb.apply(Act::ApplyPreset(0), 0);
    assert_eq!(fb.filter_string().as_deref(), Some("mime:image/ size:>=100"));

    // Storing a second preset auto-numbers past the first.
    fb.filters = vec![cond(FilterKind::Name, "foo")];
    fb.apply(Act::StorePreset, 0);
    assert_eq!(fb.history.presets[1].name, "Preset #2");

    // Renaming a preset persists the new name.
    fb.rename_buf = "big images".to_string();
    let applied = fb.apply(Act::CommitRenamePreset(0), 0);
    assert_eq!(fb.history.presets[0].name, "big images");
    assert!(applied.save);
}

#[test]
fn prefixes_name_their_kind() {
    for kind in [FilterKind::Mime, FilterKind::Name, FilterKind::Size, FilterKind::Tag] {
        assert_eq!(FilterKind::from_prefix(kind.prefix()), Some(kind));
    }
    assert_eq!(FilterKind::from_prefix("colour"), None);
    assert_eq!(file_filter::FilterKind::from_prefix("tag"), None, "the file tab has no tags");
    for kind in [
        file_filter::FilterKind::Mime,
        file_filter::FilterKind::Name,
        file_filter::FilterKind::Size,
    ] {
        assert_eq!(file_filter::FilterKind::from_prefix(kind.prefix()), Some(kind));
    }
}

#[test]
fn composing_trims_values_and_keeps_order() {
    let conds = vec![negated_cond(FilterKind::Tag, " holiday "), cond(FilterKind::Name, "a b")];
    assert_eq!(compose(&conds, false).as_deref(), Some("!tag:holiday name:a b"));
    let (back, ci) = parse_conditions("!tag:holiday name:a b");
    assert!(!ci);
    assert_eq!(back[0].value, "holiday");
    assert!(back[0].negated);
    assert_eq!(back[1].value, "a b", "a word without a prefix belongs to the value before it");
    assert_eq!(compose(&back, ci).as_deref(), Some("!tag:holiday name:a b"));
}

#[test]
fn words_before_the_first_prefix_are_dropped() {
    let (conds, ci) = parse_conditions("stray words name:x");
    assert!(!ci);
    assert_eq!(conds.len(), 1);
    assert_eq!(conds[0].value, "x");
    assert_eq!(parse_conditions("").0.len(), 0);
}

#[test]
fn recording_moves_a_value_to_the_front_without_repeats() {
    let mut list = texts(&["a", "b"]);
    assert!(record(&mut list, "b"));
    assert_eq!(list, vec!["b", "a"]);
    assert!(!record(&mut list, "b"), "already first: nothing to save");
    assert!(!record(&mut list, "   "), "a blank value is ignored");
    assert_eq!(list, vec!["b", "a"]);
    assert!(record(&mut list, " c "));
    assert_eq!(list, vec!["c", "b", "a"], "values are stored trimmed");
    for i in 0..20 {
        record(&mut list, &format!("v{i}"));
    }
    assert_eq!(list.len(), HISTORY_LIMIT);
    assert_eq!(list[0], "v19");
    assert_eq!(list[11], "v8", "the oldest values fall off the end");
}

#[test]
fn preset_names_count_on_from_the_presets_there_are() {
    assert_eq!(next_preset_name(&texts(&[])), "Preset #1");
    assert_eq!(next_preset_name(&texts(&["Preset #1", "mine"])), "Preset #3");
    assert_eq!(next_preset_name(&texts(&["Preset #2"])), "Preset #3", "a taken name is passed over");
    assert!(is_taken(&texts(&["mine"]), &"mine".to_string()));
    assert!(!is_taken(&texts(&["mine"]), &"Mine".to_string()));
}

#[test]
fn one_condition_is_edited_at_a_time() {
    let mut fb = FilterBuilder::new();
    fb.apply(Act::AddCond(FilterKind::Name), 0);
    assert!(fb.set_value(0, "a*"));
    fb.apply(Act::AddCond(FilterKind::Mime), 0);
    assert!(fb.set_value(1, "image/png"));
    assert_eq!(fb.filters.iter().filter(|c| c.editing).count(), 1);
    assert_eq!(fb.bar().editing, Some(1));
    fb.apply(Act::EditCond(0), 0);
    assert!(fb.filters[0].editing && !fb.filters[1].editing);
    fb.apply(Act::CommitCond, 0);
    assert!(fb.filters.iter().all(|c| !c.editing));
    assert_eq!(fb.history.name, vec!["a*"], "a committed value is remembered");
    assert_eq!(fb.history.mime, vec!["image/png"]);
    fb.apply(Act::ClearConds, 0);
    assert!(fb.filters.is_empty());
}

#[test]
fn negating_twice_leaves_the_filter_alone() {
    let mut fb = FilterBuilder::new();
    fb.filters = vec![cond(FilterKind::Name, "x")];
    fb.apply(Act::ToggleNegate(0), 0);
    assert_eq!(fb.filter_string().as_deref(), Some("!name:x"));
    fb.apply(Act::ToggleNegate(0), 0);
    assert_eq!(fb.filter_string().as_deref(), Some("name:x"));
    fb.apply(Act::ToggleNegate(7), 0);
    assert_eq!(fb.filter_string().as_deref(), Some("name:x"), "no such condition: no change");
}

#[test]
fn a_blank_filter_stores_no_preset() {
    let mut fb = FilterBuilder::new();
    fb.filters = vec![cond(FilterKind::Name, "  ")];
    fb.apply(Act::StorePreset, 0);
    assert!(fb.history.presets.is_empty());
    fb.apply(Act::ApplyPreset(3), 0);
    fb.apply(Act::RemovePreset(3), 0);
    assert_eq!(fb.filters.len(), 1, "an absent preset changes nothing");
}

#[test]
fn the_count_waits_for_the_debounce_then_launches_once() {
    let mut fb = FilterBuilder::new();
    fb.switch_repo(Some("photos".to_string()), Vec::new(), &Vec::new(), 1_000);
    fb.filters = vec![cond(FilterKind::Name, "x")];
    fb.apply(Act::FilterChanged, 1_000);
    assert!(matches!(fb.maybe_launch_count(1_000), CountStep::Wait(n) if n == COUNT_DEBOUNCE_MS));
    let token = match fb.maybe_launch_count(1_000 + COUNT_DEBOUNCE_MS) {
        CountStep::Launch { token, repo, filter } => {
            assert_eq!(repo, "photos");
            assert_eq!(filter.as_deref(), Some("name:x"));
            token
        }
        _ => panic!("the count is due"),
    };
    assert!(fb.count_in_flight);
    assert!(matches!(fb.maybe_launch_count(9_000), CountStep::Idle));
    fb.drain(token.wrapping_sub(1), Some(7));
    assert_eq!(fb.count_result, None, "an outdated answer is ignored");
    fb.drain(token, Some(3));
    assert_eq!(fb.count_result, Some(3));
    assert!(!fb.count_in_flight);
}

#[test]
fn a_removed_preset_leaves_the_others() {
    let mut fb = FilterBuilder::new();
    fb.filters = vec![cond(FilterKind::Name, "a")];
    fb.apply(Act::StorePreset, 0);
    fb.filters = vec![cond(FilterKind::Name, "b")];
    fb.apply(Act::StorePreset, 0);
    fb.apply(Act::RemovePreset(0), 0);
    assert_eq!(fb.history.presets.len(), 1);
    assert_eq!(fb.history.presets[0].name, "Preset #2");
    fb.start_rename(0);
    assert_eq!(fb.rename_buf, "Preset #2");
    fb.cancel_rename();
    assert_eq!(fb.renaming_preset, None);
    let row = fb.preset_row().unwrap();
    assert_eq!(row.names, vec!["Preset #2"]);
    assert!(row.can_store);
}

#[test]
fn histories_keep_one_list_per_kind() {
    let mut h = FilterHistory::new();
    assert!(h.record_value(FilterKind::Tag, "holiday"));
    assert!(h.record_value(FilterKind::Size, ">1M"));
    assert_eq!(h.for_kind(FilterKind::Tag), &vec!["holiday"]);
    assert_eq!(h.for_kind(FilterKind::Size), &vec![">1M"]);
    assert!(h.for_kind(FilterKind::Name).is_empty());
    h.for_kind_mut(FilterKind::Name).push("n".to_string());
    assert_eq!(h.name, vec!["n"]);
}

#[test]
fn picks_narrow_as_the_value_is_typed() {
    let stats = vec![
        ("image/png".to_string(), 9),
        ("audio/mpeg".to_string(), 4),
        ("image/jpeg".to_string(), 2),
    ];
    let picks = pick_stats(&stats, "IMAGE");
    assert_eq!(picks.iter().map(|p| p.0.as_str()).collect::<Vec<_>>(), ["image/png", "image/jpeg"]);
    assert_eq!(pick_stats(&stats, "").len(), 3);
    assert_eq!(mime_pick_text("image/png", 9), "image/png (9)");
    assert!(!kind_help(FilterKind::Tag).0.is_empty());
}

#[test]
fn tags_are_offered_once_each_in_order() {
    let mut fb = FilterBuilder::new();
    fb.reload_tags(&vec![texts(&["sea"])]);
    assert!(fb.tags.is_empty(), "without a repository there are no tags");
    fb.switch_repo(Some("photos".to_string()), Vec::new(), &Vec::new(), 0);
    fb.reload_tags(&vec![texts(&["sea", "alps"]), texts(&["sea"])]);
    assert_eq!(fb.tags, vec!["alps", "sea"]);
    assert!(!fb.wants_tags());
    fb.apply(Act::AddCond(FilterKind::Tag), 0);
    assert!(fb.wants_tags());
    assert_eq!(fb.cond_editor(0).unwrap().tag_picks, vec!["alps", "sea"]);
}

#[test]
fn the_picker_opens_and_the_repository_is_compared() {
    let mut fb = FilterBuilder::new();
    assert!(!fb.repo_differs(None));
    assert!(fb.repo_differs(Some("photos")));
    fb.toggle_picker();
    assert!(fb.adding && fb.bar().picker);
    fb.toggle_picker();
    assert!(!fb.adding);
}

#[test]
fn a_choice_that_leaves_the_filter_alone_changes_nothing() {
    let mut fb = FilterBuilder::new();
    assert!(!fb.apply(Act::AddCond(FilterKind::Mime), 0).changed, "a blank condition says nothing");
    assert_eq!(fb.filter_string(), None);
    assert_eq!(fb.filters.len(), 1);
    assert!(fb.filters[0].kind == FilterKind::Mime && fb.filters[0].value.is_empty());
    assert!(fb.filters[0].editing && !fb.filters[0].negated);
    assert!(!fb.apply(Act::RemoveCond(7), 0).changed, "there is no such condition");
    assert!(!fb.apply(Act::ToggleCase, 0).changed, "nothing is matched in any case");
    assert!(!fb.apply(Act::ClearConds, 0).changed);
    assert!(!fb.apply(Act::ClearConds, 0).changed, "an empty list stays empty");
    fb.filters = vec![cond(FilterKind::Name, "*.jpg")];
    assert!(!fb.apply(Act::EditCond(0), 0).changed);
    assert!(fb.apply(Act::RemoveCond(0), 0).changed);
    assert!(fb.apply(Act::FilterChanged, 0).changed, "an editor has already made its change");
}

#[test]
fn whatever_is_parsed_reads_back_the_same() {
    for expr in [
        "junk mime: image/  name:\t*.db   size:>=10 case:insensitive",
        "!tag:keeper  name:a name b",
        "name:x mime:",
        "case:insensitive case:other !name: *thumb* ",
    ] {
        let (conds, ci) = parse_conditions(expr);
        let again = compose(&conds, ci).expect("something was parsed");
        let (back, back_ci) = parse_conditions(&again);
        assert_eq!(ci, back_ci, "{expr}");
        assert_eq!(conds.len(), back.len(), "{expr}");
        for (c, d) in conds.iter().zip(back.iter()) {
            assert!(c.kind == d.kind && c.value == d.value && c.negated == d.negated, "{expr}");
            assert!(!c.value.is_empty() && c.value.trim() == c.value && !c.editing, "{expr}");
        }
    }
}
