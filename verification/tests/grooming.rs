use dedup_gui::board::{allowed_cmds, Cmd, RowBody, RowMeta, SideBody, Status};
use dedup_gui::filter_ui::FilterOutcome;
use dedup_gui::grooming_plan::{
    build_preview, planned, sweep_repos, BackupGroup, Command, OpResult, PlanReply, PreviewData,
};
use dedup_gui::grooming_view::{
    insert_at_cursor, rule_title, shortcut, template_tokens, Act, Effect, GroomingView, Msg,
    Opened, PreviewSpec, StoreNames,
};
use dedup_gui::notes::{Note, NoteOutcome};
use dedup_gui::row_keys::RowKey;

const TEMPLATE: &str = "{year}/{o-name}";

fn names(list: &[&str]) -> Vec<String> {
    list.iter().map(|s| s.to_string()).collect()
}

fn view(command: Command) -> GroomingView {
    let mut view = GroomingView::new(TEMPLATE);
    view.known.loaded = true;
    view.known.repos = names(&["a", "b"]);
    view.pick.chosen = true;
    view.pick.command = command;
    view.pick.source = Some("a".to_string());
    view.pick.repo = Some("a".to_string());
    view
}

fn listed(paths: &[&str]) -> PreviewData {
    let reply = PlanReply::Listed { paths: names(paths), total: paths.len() };
    let plan = planned(Ok(reply), false).unwrap_or_else(|e| panic!("{e}"));
    let facts = paths.iter().map(|_| None).collect();
    build_preview(plan, "/repos/junk".to_string(), &facts)
}

fn seed_purge(v: &mut GroomingView, paths: &[String]) {
    v.shown.source_header = "/repos/junk".to_string();
    v.shown.target_header = None;
    v.shown.total = paths.len();
    v.shown.totals = [paths.len(), 0, 0, 0];
    v.shown.rows = paths
        .iter()
        .map(|p| RowMeta {
            key: RowKey::Source(p.clone()),
            left_status: Status::WillDelete,
            right_status: Status::Absent,
            left_paths: vec![p.clone()],
            right_paths: Vec::new(),
            left_size: 0,
            right_size: 0,
            left_modified: 0,
            right_modified: 0,
            unchanged: false,
            cmds: vec![Cmd::Apply, Cmd::Hide],
        })
        .collect();
    v.shown.bodies = paths
        .iter()
        .map(|_| RowBody { left: SideBody::nothing(), right: SideBody::nothing() })
        .collect();
}

#[test]
fn number_keys_select_command() {
    let mut v = view(Command::Dedupe);
    assert!(v.pick.command == Command::Dedupe);
    for (key, command) in
        [('2', Command::Purge), ('4', Command::Organize), ('5', Command::Prune)]
    {
        let act = shortcut(key).expect("a command key");
        v.apply(act, true);
        assert!(v.pick.command == command, "{key} selects {}", command.label());
    }
    assert!(shortcut('9').is_none());
}

#[test]
fn hide_removes_a_row_from_the_board_and_from_the_run() {
    let mut v = view(Command::Purge);
    v.filter.set_expression("name:*.tmp");
    seed_purge(&mut v, &names(&["a.tmp", "b.tmp"]));
    assert!(v.shown.rows.iter().all(|r| r.cmds.contains(&Cmd::Hide)), "one HIDE per row");

    v.shown.hidden.insert(v.shown.rows[0].key.clone());
    assert_eq!(
        v.shown.hidden.len(),
        1,
        "the row is recorded as hidden, which is what RUN skips"
    );
    match v.start(None) {
        Effect::Run(order) => {
            assert!(order.hidden.has(&RowKey::Source("a.tmp".to_string())));
            assert!(!order.hidden.has(&RowKey::Source("b.tmp".to_string())));
        }
        _ => panic!("a run is ordered"),
    }
    let prompt = v.build_prompt().expect("a prompt");
    assert!(prompt.ends_with(" 1 hidden row(s) will be skipped."), "{prompt}");
}

#[test]
fn a_row_can_be_applied_on_its_own() {
    let mut v = view(Command::Purge);
    v.filter.set_expression("name:*.tmp");
    seed_purge(&mut v, &names(&["a.tmp", "b.tmp"]));
    let offered =
        v.shown.rows.iter().filter(|r| allowed_cmds(&r.cmds, false).contains(&Cmd::Apply)).count();
    assert_eq!(offered, 2, "each row offers APPLY");
    let act = v.row_act(1, Cmd::Apply).expect("a row action");
    match v.apply(act, false) {
        Effect::Run(order) => {
            assert_eq!(order.only, Some(RowKey::Source("b.tmp".to_string())));
            assert_eq!(order.repo, "a");
        }
        _ => panic!("the row runs"),
    }
}

#[test]
fn a_locked_row_never_runs() {
    let mut v = view(Command::Purge);
    v.filter.set_expression("name:*.tmp");
    seed_purge(&mut v, &names(&["a.tmp"]));
    let act = v.row_act(0, Cmd::Apply).expect("a row action");
    assert!(matches!(v.apply(act, true), Effect::Nothing), "a locked repo blocks the row");
}

#[test]
fn insert_at_cursor_inserts_at_caret_and_advances_it() {
    let mut template = String::from("{year}/{o-name}");
    // No cursor state yet (field never focused) → appends.
    insert_at_cursor(&mut template, "{day}", None);
    assert_eq!(template, "{year}/{o-name}{day}");
    // Caret after "{year}" (6 chars) → the token lands mid-string.
    let caret = insert_at_cursor(&mut template, "{month}", Some(Some(6)));
    assert_eq!(template, "{year}{month}/{o-name}{day}");
    assert_eq!(
        caret,
        Some("{year}{month}".chars().count() as u128),
        "caret follows the insertion"
    );
}

#[test]
fn a_caret_past_the_end_appends() {
    let mut template = String::from("é");
    insert_at_cursor(&mut template, "x", Some(Some(40)));
    assert_eq!(template, "éx");
    insert_at_cursor(&mut template, "y", Some(None));
    assert_eq!(template, "éxy");
}

#[test]
fn a_single_row_apply_answers_with_a_card_and_a_log_line() {
    let mut v = view(Command::Purge);
    v.filter.set_expression("name:*.tmp");
    seed_purge(&mut v, &names(&["junk.tmp"]));
    let act = v.row_act(0, Cmd::Apply).expect("a row action");
    let title = match v.apply(act, false) {
        Effect::Run(order) => order.title,
        _ => panic!("the row runs"),
    };
    v.run_started(&title, true);
    let note = Note::changed("Deleted", "a", "junk.tmp");
    let got = v.drain(Msg::Done(OpResult::Applied { note }), "Deleted junk.tmp");
    let card = got.card.expect("a card names the deleted file");
    assert_eq!((card.action.as_str(), card.what.as_str()), ("Deleted", "junk.tmp"));
    assert!(card.action == "Deleted" && card.repo == "a" && card.what == "junk.tmp");
    assert!(matches!(card.outcome, NoteOutcome::Changed));
    assert!(got.row_ended);
    assert!(!v.progress.running);
}

#[test]
fn organize_presets_roundtrip_and_apply() {
    let mut view = GroomingView::new(TEMPLATE);
    view.pick.chosen = true;
    // Edit the default rule in place (a fresh view already has one).
    view.set_template(0, "{year}/{month}/{o-name}");
    view.rules[0].filter.set_expression("mime:image");
    assert!(matches!(view.store_preset(), Effect::SavePresets));
    assert_eq!(view.shelf.presets.len(), 1, "the preset was stored");

    let mut fresh = GroomingView::new(TEMPLATE);
    fresh.pick.chosen = true;
    fresh.load_presets(Some(view.shelf.presets));
    assert_eq!(fresh.shelf.presets.len(), 1, "the preset survives a restart");
    assert_eq!(fresh.shelf.presets[0].rules.len(), 1);
    assert_eq!(fresh.shelf.presets[0].rules[0].template, "{year}/{month}/{o-name}");
    assert_eq!(fresh.shelf.presets[0].rules[0].filter, "mime:image");

    // Applying the preset replaces the live rules with the saved ones.
    fresh.rules.clear();
    fresh.apply(Act::ApplyPreset(0), true);
    assert_eq!(fresh.rules.len(), 1, "the preset's rules are applied");
    assert_eq!(fresh.rules[0].template, "{year}/{month}/{o-name}");
}

#[test]
fn dedupe_asks_only_once_unlocked() {
    let mut v = view(Command::Dedupe);
    v.pick.pool = names(&["b"]);
    assert!(v.ready());
    assert!(v.lock_block(true).is_some());
    assert!(matches!(v.apply(Act::Ask, true), Effect::Nothing), "a locked repo blocks the run");
    assert!(v.words.confirm.is_none());
    assert!(v.lock_block(false).is_none(), "unlocking lets the run be asked for");
    match v.apply(Act::Ask, false) {
        Effect::Plan { order: PreviewSpec::Dedupe { source, pool, filter }, repos, title, confirm } => {
            assert_eq!(source, "a");
            assert_eq!(pool, vec!["b"]);
            assert_eq!(filter, None);
            assert_eq!(repos, vec!["a", "b"]);
            assert_eq!(title, "REVIEW DEDUPE");
            assert!(confirm);
        }
        _ => panic!("a plan is ordered"),
    }
    v.plan_started("REVIEW DEDUPE");
    assert!(v.progress.previewing && v.pick.collapsed);
    assert_eq!(v.words.status.as_deref(), Some("review dedupe…"));
    v.drain(Msg::Preview { result: Ok(listed(&["dup.txt"])), confirm: true }, "");
    assert_eq!(
        v.words.confirm.as_deref(),
        Some(
            "Delete 1 file(s) from 'a' whose content is in the dupe pool? \
             This cannot be undone."
        )
    );
    match v.apply(Act::Confirm, false) {
        Effect::Run(order) => {
            assert!(order.command == Command::Dedupe);
            assert_eq!(order.pool, vec!["b"]);
            assert_eq!(order.only, None);
        }
        _ => panic!("the run is ordered"),
    }
    assert!(v.words.confirm.is_none());
}

#[test]
fn each_command_asks_in_its_own_words() {
    let mut v = view(Command::EmptyDirs);
    assert_eq!(v.build_prompt().as_deref(), Some("Remove all empty directories under 'a'?"));
    v.pick.command = Command::Purge;
    seed_purge(&mut v, &names(&["x"]));
    assert_eq!(
        v.build_prompt().as_deref(),
        Some("Delete all 1 file(s) matching the filter from 'a'? This cannot be undone.")
    );
    v.pick.command = Command::Prune;
    assert_eq!(
        v.build_prompt().as_deref(),
        Some(
            "Permanently drop 1 record(s) of deleted files from 'a' and \
             compact its index? This cannot be undone."
        )
    );
    v.pick.command = Command::Organize;
    assert_eq!(
        v.build_prompt().as_deref(),
        Some(
            "Move 1 file(s) into their new layout in 'a'? Files move within \
             the repo; nothing is overwritten (collisions are renamed)."
        )
    );
    v.pick.repo = None;
    assert_eq!(v.build_prompt(), None);
}

#[test]
fn the_lock_holds_every_command_but_prune() {
    let v = view(Command::Purge);
    assert_eq!(
        v.lock_block(true).as_deref(),
        Some("PURGE changes existing files in 'a' — unlock it (its padlock) to run.")
    );
    assert_eq!(v.lock_block(false), None);
    assert_eq!(view(Command::Prune).lock_block(true), None);
}

#[test]
fn purge_waits_for_a_filter() {
    let mut v = view(Command::Purge);
    assert!(!v.ready());
    v.filter.set_expression("name:*.tmp");
    assert!(v.ready());
    assert_eq!(v.selection_summary(), "PURGE in 'a' · filter: name:*.tmp");
    let mut d = view(Command::Dedupe);
    d.pick.pool = names(&["b", "c"]);
    assert_eq!(d.selection_summary(), "DEDUPE from 'a' against b, c");
}

#[test]
fn a_new_selection_drops_the_old_plan() {
    let mut v = view(Command::Purge);
    seed_purge(&mut v, &names(&["x"]));
    v.apply(Act::PickRepo("b".to_string()), true);
    assert_eq!(v.pick.repo.as_deref(), Some("b"));
    assert!(v.shown.rows.is_empty());
    let mut d = view(Command::Dedupe);
    d.pick.pool = names(&["b"]);
    d.apply(Act::PickSource("b".to_string()), true);
    assert!(!d.pick.pool.contains(&"b".to_string()), "the source is not in its own pool");
    assert_eq!(d.acted_on().as_deref(), Some("b"));
}

#[test]
fn repositories_are_read_without_the_sinks() {
    let mut v = GroomingView::new(TEMPLATE);
    v.sync_repos(Ok(StoreNames {
        repos: names(&["a", "b", "sink"]),
        sinks: names(&["sink"]),
        mains: names(&["a"]),
    }));
    assert_eq!(v.known.repos, vec!["a", "b"]);
    assert_eq!(v.known.mains, vec!["a"]);
    v.sync_repos(Err("no store".to_string()));
    assert_eq!(v.words.error.as_deref(), Some("no store"));
}

#[test]
fn a_row_opens_alone_or_beside_its_counterpart() {
    let mut v = view(Command::Purge);
    match v.apply(Act::Inspect("junk.txt".to_string(), None), true) {
        Effect::ReadRow { repo, path, counterpart, .. } => {
            assert_eq!((repo.as_str(), path.as_str()), ("a", "junk.txt"));
            assert_eq!(counterpart, None);
        }
        _ => panic!("the row is read"),
    }
    assert_eq!(v.inspected(true, false, false), Opened::Single);
    assert!(v.words.error.is_none());
    v.pick.command = Command::Organize;
    match v.apply(Act::Inspect("junk.txt".to_string(), Some("2026/junk.txt".to_string())), true) {
        Effect::ReadRow { counterpart, .. } => {
            assert_eq!(counterpart, None, "a future home is no second file")
        }
        _ => panic!("the row is read"),
    }
    assert_eq!(v.inspected(true, true, true), Opened::Comparison);
    assert_eq!(v.inspected(false, false, false), Opened::Nothing);
    assert!(v.words.error.is_some());
}

#[test]
fn rules_are_numbered_and_tokens_offered() {
    assert_eq!(rule_title(0), "RULE 1 — MATCH & RENAME");
    assert!(template_tokens().iter().any(|t| *t == ("year", "{year}")));
    let mut v = view(Command::Organize);
    v.apply(Act::AddRule, true);
    assert_eq!(v.rules.len(), 2);
    v.apply(Act::RemoveRule(0), true);
    assert_eq!(v.rules.len(), 1);
    assert_eq!(v.rules[0].template, TEMPLATE);
    assert_eq!(v.organize_rules().len(), 1);
}

#[test]
fn presets_get_free_names_and_can_be_renamed() {
    let mut v = view(Command::Organize);
    v.store_preset();
    v.store_preset();
    assert_eq!(v.shelf.presets[1].name, "Preset #2");
    v.start_rename(1);
    v.shelf.rename_buf = "by year".to_string();
    assert!(matches!(v.apply(Act::CommitRenamePreset(1), true), Effect::SavePresets));
    assert_eq!(v.shelf.presets[1].name, "by year");
    v.apply(Act::RemovePreset(0), true);
    assert_eq!(v.shelf.presets.len(), 1);
    assert_eq!(v.next_preset_name(), "Preset #2");
    v.cancel_rename();
    assert_eq!(v.shelf.renaming, None);
}

#[test]
fn the_pool_offers_every_other_repository() {
    let mut v = view(Command::Dedupe);
    v.known.repos = names(&["a", "b", "c"]);
    assert_eq!(v.pool_candidates(), vec!["b", "c"]);
    v.fill_pool(true);
    assert_eq!(v.pick.pool, vec!["b", "c"]);
    v.apply(Act::TogglePool("b".to_string()), true);
    assert_eq!(v.pick.pool, vec!["c"]);
    v.fill_pool(false);
    assert!(v.pick.pool.is_empty());
}

#[test]
fn a_finished_run_is_planned_again_once() {
    let mut v = view(Command::Purge);
    v.filter.set_expression("name:*.tmp");
    v.progress.pending_refresh = true;
    v.progress.running = true;
    assert!(matches!(v.refresh_due(), Effect::Nothing), "not while it runs");
    v.progress.running = false;
    assert!(matches!(v.refresh_due(), Effect::Plan { confirm: false, .. }));
    assert!(matches!(v.refresh_due(), Effect::Nothing), "once is enough");
}

#[test]
fn a_changed_filter_drops_the_plan_and_passes_its_words_on() {
    let mut v = view(Command::Purge);
    seed_purge(&mut v, &names(&["x"]));
    v.shared_filter(FilterOutcome {
        changed: false,
        status: Some("stored".to_string()),
        error: None,
    });
    assert_eq!(v.shown.rows.len(), 1);
    assert_eq!(v.words.status.as_deref(), Some("stored"));
    v.rule_filter(FilterOutcome { changed: true, status: None, error: Some("full".to_string()) });
    assert!(v.shown.rows.is_empty());
    assert_eq!(v.words.error.as_deref(), Some("full"));
}

#[test]
fn hints_say_what_is_missing() {
    let mut v = view(Command::Purge);
    assert!(v.repo_picked());
    assert!(v.how_hint().is_some_and(|h| h.starts_with("PURGE needs at least one filter")));
    v.filter.set_expression("name:x");
    assert_eq!(v.how_hint(), None);
    assert_eq!(v.empty_hint(), "Pick a repo and command, then press REVIEW.");
    assert_eq!(view(Command::EmptyDirs).empty_hint(), "Pick a repo, then press RUN.");
    assert_eq!(Command::EmptyDirs.tooltip().0, "Remove empty directories");
    v.pick.repo = None;
    assert!(!v.repo_picked());
}

#[test]
fn a_locked_repo_is_neither_asked_about_nor_run() {
    for command in [Command::Dedupe, Command::Purge, Command::Organize] {
        let mut v = view(command);
        v.pick.pool = names(&["b"]);
        v.filter.set_expression("name:*.tmp");
        assert!(matches!(v.apply(Act::Confirm, true), Effect::Nothing));
        assert!(matches!(v.apply(Act::Ask, true), Effect::Nothing));
        assert!(v.words.confirm.is_none());
        assert!(matches!(v.apply(Act::Preview, true), Effect::Plan { confirm: false, .. }));
    }
    let mut v = view(Command::EmptyDirs);
    v.apply(Act::Ask, true);
    assert!(v.words.confirm.is_none(), "no question is raised while locked");
    v.apply(Act::Ask, false);
    assert!(v.words.confirm.is_some());
    let mut v = view(Command::Prune);
    assert!(matches!(v.apply(Act::Confirm, true), Effect::Run(_)), "the index is not protected");
}

#[test]
fn empty_dirs_sweeps_a_group_mains_sinks_too() {
    let mut v = view(Command::EmptyDirs);
    let order = match v.apply(Act::Confirm, true) {
        Effect::Run(order) => order,
        _ => panic!("a confirmed sweep runs"),
    };
    assert!(order.command == Command::EmptyDirs);
    let groups = vec![BackupGroup { main: "a".to_string(), sinks: names(&["b"]) }];
    assert_eq!(sweep_repos(&order.repo, &groups), vec!["a", "b"]);
}
