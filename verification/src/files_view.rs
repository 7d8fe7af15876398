//! The file tab's state: copying, moving or deleting the files of a source by what
//! a target already has. Work on disk is asked for as an [`Effect`].

use vstd::prelude::*;
use vstd::string::*;

use crate::file_filter::{
    compose, composed, conds_view, place_preset, placed, restore, restored, saved_conds, to_save,
    CondModel, FilterCond, FilterHistory, FilterKind, FilterPreset, HistoryModel, PresetModel,
};
use crate::filter_ui::{
    copy_list, debounced, first_picks, opt_view, pick_stats, stats_view, CountStep,
    COUNT_DEBOUNCE_MS,
};
use crate::grooming_plan::DiffItem;
use crate::lists::{
    drop_name, drops, law_dropping_leaves_the_others, lemma_dropped, lemma_picks_last,
    lemma_picks_nothing, picks, switch_name, switched,
};
use crate::naming::is_taken;
use crate::recent::{without, Texts};
use crate::text::{
    chars_of, copy, copy_opt, dec, decimal, is_white, law_trimming_takes_white_space_only,
    lowercase, push_decimal, string_of, to_lowercase, trim, trimmed, views,
};
use crate::theme::Ink;

verus! {

/// How many rows a preview shows.
pub const PREVIEW_LIMIT: usize = 30;

/// How many recent actions a run's log keeps.
pub const RUN_LOG_LIMIT: usize = 10;

/// What is done with the source's files.
#[derive(Clone, Copy, Debug, PartialEq, Eq, Structural)]
pub enum Command {
    Copy,
    Move,
    Delete,
}

impl Command {
    /// The command's name.
    pub open spec fn title(self) -> Seq<char> {
        match self {
            Command::Copy => "COPY"@,
            Command::Move => "MOVE"@,
            Command::Delete => "DELETE"@,
        }
    }

    /// The command's name.
    pub fn label(self) -> (r: &'static str)
        ensures
            r@ == self.title(),
    {
        match self {
            Command::Copy => "COPY",
            Command::Move => "MOVE",
            Command::Delete => "DELETE",
        }
    }

    /// Whether the command takes files away from the source.
    pub fn destructive(self) -> (r: bool)
        ensures
            r == (self != Command::Copy),
    {
        match self {
            Command::Copy => false,
            _ => true,
        }
    }

    /// The colour of the command: red where it takes files away.
    pub fn accent(self) -> (r: Ink)
        ensures
            r == if self == Command::Copy {
                Ink::Amber
            } else {
                Ink::Red
            },
    {
        if self.destructive() {
            Ink::Red
        } else {
            Ink::Amber
        }
    }

    /// What the command does, in one line.
    pub fn hint(self) -> (r: &'static str)
        ensures
            r@ == match self {
                Command::Copy =>
                    "Copy source files the target does not have into the target repo."@,
                Command::Move =>
                    "Move source files the target does not have into the target repo (they are removed from the source directory)."@,
                Command::Delete => "Delete source files whose content the target already has."@,
            },
    {
        match self {
            Command::Copy => "Copy source files the target does not have into the target repo.",
            Command::Move =>
                "Move source files the target does not have into the target repo (they are removed from the source directory).",
            Command::Delete => "Delete source files whose content the target already has.",
        }
    }
}

/// A row of the preview.
#[derive(Debug, PartialEq, Eq)]
pub struct PreviewRow {
    pub from: String,
    pub to: String,
}

/// The contents of preview rows.
pub open spec fn rows_view(rows: Seq<PreviewRow>) -> Seq<(Seq<char>, Seq<char>)> {
    Seq::new(rows.len(), |i: int| (rows[i].from@, rows[i].to@))
}

/// The repositories, and the MIME types of the source.
pub struct FilesKnown {
    pub repos: Vec<String>,
    pub loaded: bool,
    pub mime_stats: Vec<(String, u64)>,
}

/// What is set up.
pub struct FilesPick {
    pub source: Option<String>,
    pub target: Option<String>,
    /// Further repositories whose content counts as known.
    pub extra_refs: Vec<String>,
    pub command: Command,
    /// The folder of the target that files go into.
    pub subdir: String,
}

/// The filter that is being built.
pub struct FilesFilter {
    pub conds: Vec<FilterCond>,
    /// Whether the kind picker is open.
    pub adding: bool,
    pub history: FilterHistory,
    /// The name typed for the preset about to be saved.
    pub preset_name: String,
}

/// The match count of name conditions.
#[derive(Clone, Copy, Debug, PartialEq, Eq, Structural)]
pub struct Count {
    /// Tells the newest count from stale ones.
    pub token: u64,
    /// When a count is due, on the host's millisecond clock.
    pub deadline: Option<u64>,
    pub in_flight: bool,
    pub result: Option<usize>,
}

/// The preview.
pub struct FilesShown {
    pub rows: Vec<PreviewRow>,
    /// How many files match, shown or not.
    pub total: usize,
}

/// What the tab says.
pub struct FilesWords {
    pub status: Option<String>,
    pub error: Option<String>,
    pub confirm: Option<String>,
}

/// The run under way, or the last one.
pub struct FilesRun {
    pub running: bool,
    /// The last actions.
    pub log: Vec<String>,
    pub done: u64,
    pub total: u64,
    pub current: String,
}

/// The file tab.
pub struct FilesView {
    pub known: FilesKnown,
    pub pick: FilesPick,
    pub filter: FilesFilter,
    pub count: Count,
    pub shown: FilesShown,
    pub words: FilesWords,
    pub run: FilesRun,
}

/// The contents of what the tab knows.
pub struct FilesKnownModel {
    pub repos: Texts,
    pub loaded: bool,
    pub mime_stats: Seq<(Seq<char>, u64)>,
}

/// The contents of what is set up.
pub struct FilesPickModel {
    pub source: Option<Seq<char>>,
    pub target: Option<Seq<char>>,
    pub extra_refs: Texts,
    pub command: Command,
    pub subdir: Seq<char>,
}

/// The contents of the filter.
pub struct FilesFilterModel {
    pub conds: Seq<CondModel>,
    pub adding: bool,
    pub history: HistoryModel,
    pub preset_name: Seq<char>,
}

/// The contents of the preview.
pub struct FilesShownModel {
    pub rows: Seq<(Seq<char>, Seq<char>)>,
    pub total: usize,
}

/// The contents of what the tab says.
pub struct FilesWordsModel {
    pub status: Option<Seq<char>>,
    pub error: Option<Seq<char>>,
    pub confirm: Option<Seq<char>>,
}

/// The contents of a run.
pub struct FilesRunModel {
    pub running: bool,
    pub log: Texts,
    pub done: u64,
    pub total: u64,
    pub current: Seq<char>,
}

/// The tab's contents.
pub struct FilesModel {
    pub known: FilesKnownModel,
    pub pick: FilesPickModel,
    pub filter: FilesFilterModel,
    pub count: Count,
    pub shown: FilesShownModel,
    pub words: FilesWordsModel,
    pub run: FilesRunModel,
}

impl View for FilesKnown {
    type V = FilesKnownModel;

    open spec fn view(&self) -> FilesKnownModel {
        FilesKnownModel {
            repos: views(self.repos@),
            loaded: self.loaded,
            mime_stats: stats_view(self.mime_stats@),
        }
    }
}

impl View for FilesPick {
    type V = FilesPickModel;

    open spec fn view(&self) -> FilesPickModel {
        FilesPickModel {
            source: opt_view(self.source),
            target: opt_view(self.target),
            extra_refs: views(self.extra_refs@),
            command: self.command,
            subdir: self.subdir@,
        }
    }
}

impl View for FilesFilter {
    type V = FilesFilterModel;

    open spec fn view(&self) -> FilesFilterModel {
        FilesFilterModel {
            conds: conds_view(self.conds@),
            adding: self.adding,
            history: self.history@,
            preset_name: self.preset_name@,
        }
    }
}

impl View for FilesShown {
    type V = FilesShownModel;

    open spec fn view(&self) -> FilesShownModel {
        FilesShownModel { rows: rows_view(self.rows@), total: self.total }
    }
}

impl View for FilesWords {
    type V = FilesWordsModel;

    open spec fn view(&self) -> FilesWordsModel {
        FilesWordsModel {
            status: opt_view(self.status),
            error: opt_view(self.error),
            confirm: opt_view(self.confirm),
        }
    }
}

impl View for FilesRun {
    type V = FilesRunModel;

    open spec fn view(&self) -> FilesRunModel {
        FilesRunModel {
            running: self.running,
            log: views(self.log@),
            done: self.done,
            total: self.total,
            current: self.current@,
        }
    }
}

impl View for FilesView {
    type V = FilesModel;

    open spec fn view(&self) -> FilesModel {
        FilesModel {
            known: self.known@,
            pick: self.pick@,
            filter: self.filter@,
            count: self.count,
            shown: self.shown@,
            words: self.words@,
            run: self.run@,
        }
    }
}

/// A click.
pub enum Act {
    PickSource(String),
    PickTarget(String),
    ToggleExtraRef(String),
    MarkSourceDone,
    SetCommand(Command),
    SubdirChanged,
    FilterChanged,
    AddCond(FilterKind),
    RemoveCond(usize),
    EditCond(usize),
    CommitCond,
    ClearConds,
    SavePreset,
    ApplyPreset(usize),
    RemovePreset(usize),
    ExportHistory,
    ImportHistory,
    BrowseSubdir,
    Reload,
    Preview,
    Ask,
    Confirm,
    CancelConfirm,
    CancelRun,
}

/// Work that a click asks of the program around the tab.
pub enum Work {
    Nothing,
    /// Read the MIME types of this repository.
    ReadMime(String),
    /// Mark this repository as gone through.
    MarkDone(String),
    ExportHistory,
    ImportHistory,
    /// Let the user pick a folder of this repository.
    Browse(String),
    /// Read the repositories again.
    Reload,
    /// Compare the source with the references; `ask` asks once the result is in.
    Compare { source: String, references: Vec<String>, filter: Option<String>, ask: bool },
    /// Run.
    Run {
        command: Command,
        source: String,
        target: String,
        references: Vec<String>,
        filter: Option<String>,
        /// The folder of the target, if it is not its root.
        subdir: Option<String>,
    },
    CancelRun,
}

/// The contents of work.
pub enum WorkModel {
    Nothing,
    ReadMime(Seq<char>),
    MarkDone(Seq<char>),
    ExportHistory,
    ImportHistory,
    Browse(Seq<char>),
    Reload,
    Compare { source: Seq<char>, references: Texts, filter: Option<Seq<char>>, ask: bool },
    Run {
        command: Command,
        source: Seq<char>,
        target: Seq<char>,
        references: Texts,
        filter: Option<Seq<char>>,
        subdir: Option<Seq<char>>,
    },
    CancelRun,
}

impl View for Work {
    type V = WorkModel;

    open spec fn view(&self) -> WorkModel {
        match self {
            Work::Nothing => WorkModel::Nothing,
            Work::ReadMime(repo) => WorkModel::ReadMime(repo@),
            Work::MarkDone(repo) => WorkModel::MarkDone(repo@),
            Work::ExportHistory => WorkModel::ExportHistory,
            Work::ImportHistory => WorkModel::ImportHistory,
            Work::Browse(repo) => WorkModel::Browse(repo@),
            Work::Reload => WorkModel::Reload,
            Work::Compare { source, references, filter, ask } => WorkModel::Compare {
                source: source@,
                references: views(references@),
                filter: opt_view(*filter),
                ask: *ask,
            },
            Work::Run { command, source, target, references, filter, subdir } => WorkModel::Run {
                command: *command,
                source: source@,
                target: target@,
                references: views(references@),
                filter: opt_view(*filter),
                subdir: opt_view(*subdir),
            },
            Work::CancelRun => WorkModel::CancelRun,
        }
    }
}

/// What a click asks for: writing the history to disk, and work.
pub struct Effect {
    pub save: bool,
    pub work: Work,
}

/// Some condition is on names.
pub open spec fn has_name(conds: Seq<CondModel>) -> bool {
    exists|i: int| 0 <= i < conds.len() && (#[trigger] conds[i]).kind == FilterKind::Name
}

/// The conditions with no editor open.
pub open spec fn closed_editors(conds: Seq<CondModel>) -> Seq<CondModel> {
    Seq::new(conds.len(), |i: int| CondModel { editing: false, ..conds[i] })
}

/// A text without the slashes at its start.
pub open spec fn no_lead(s: Seq<char>) -> Seq<char>
    decreases s.len(),
{
    if s.len() > 0 && s[0] == '/' {
        no_lead(s.drop_first())
    } else {
        s
    }
}

/// A text without the slashes at its end.
pub open spec fn no_tail(s: Seq<char>) -> Seq<char>
    decreases s.len(),
{
    if s.len() > 0 && s.last() == '/' {
        no_tail(s.drop_last())
    } else {
        s
    }
}

/// A folder without white space and slashes around it.
pub open spec fn folder_of(subdir: Seq<char>) -> Seq<char> {
    no_tail(no_lead(trimmed(subdir)))
}

/// Further references but the target and the source.
pub open spec fn other_refs(refs: Texts, source: Option<Seq<char>>, target: Seq<char>) -> Texts
    decreases refs.len(),
{
    if refs.len() == 0 {
        Seq::empty()
    } else {
        let rest = other_refs(refs.drop_last(), source, target);
        if refs.last() == target || source == Some(refs.last()) {
            rest
        } else {
            rest.push(refs.last())
        }
    }
}

/// The command acts on this item: copying and moving on what the target lacks,
/// deleting on what it knows.
pub open spec fn acts_on(item: DiffItem, deleting: bool) -> bool {
    match item {
        DiffItem::New { .. } => !deleting,
        _ => deleting,
    }
}

/// The path of an item.
pub open spec fn path_of(item: DiffItem) -> Seq<char> {
    match item {
        DiffItem::New { rel_path } => rel_path@,
        DiffItem::Equal { rel_path, .. } => rel_path@,
        DiffItem::DeletedInReference { rel_path } => rel_path@,
    }
}

/// The preview row of an item.
pub open spec fn row_of(
    item: DiffItem,
    source: Seq<char>,
    target: Seq<char>,
    folder: Seq<char>,
) -> (Seq<char>, Seq<char>) {
    (
        source + "/"@ + path_of(item),
        match item {
            DiffItem::New { rel_path } => if folder.len() == 0 {
                target + "/"@ + rel_path@
            } else {
                target + "/"@ + folder + "/"@ + rel_path@
            },
            _ => "✗ delete (already in target)"@,
        },
    )
}

/// The preview rows of the items that a command acts on.
pub open spec fn all_rows(
    items: Seq<DiffItem>,
    deleting: bool,
    source: Seq<char>,
    target: Seq<char>,
    folder: Seq<char>,
) -> Seq<(Seq<char>, Seq<char>)>
    decreases items.len(),
{
    if items.len() == 0 {
        Seq::empty()
    } else {
        let rest = all_rows(items.drop_last(), deleting, source, target, folder);
        if acts_on(items.last(), deleting) {
            rest.push(row_of(items.last(), source, target, folder))
        } else {
            rest
        }
    }
}

/// At most as many rows as a preview shows.
pub open spec fn first_rows(rows: Seq<(Seq<char>, Seq<char>)>) -> Seq<(Seq<char>, Seq<char>)> {
    if rows.len() <= PREVIEW_LIMIT {
        rows
    } else {
        rows.take(PREVIEW_LIMIT as int)
    }
}

/// A run's log after a line was added: the oldest lines go.
pub open spec fn logged(log: Texts, line: Seq<char>) -> Texts {
    let all = log.push(line);
    if all.len() <= RUN_LOG_LIMIT {
        all
    } else {
        all.skip(all.len() - RUN_LOG_LIMIT)
    }
}

/// A run's log never grows past its limit, and its last line is the newest.
pub proof fn law_the_log_keeps_the_newest_lines(log: Texts, line: Seq<char>)
    ensures
        logged(log, line).len() <= RUN_LOG_LIMIT,
        logged(log, line).last() == line,
{
}

/// Copying and moving never touch what the target has, and deleting never touches
/// what it lacks.
pub proof fn law_commands_act_on_opposite_files(item: DiffItem)
    ensures
        acts_on(item, true) != acts_on(item, false),
{
}

impl FilesModel {
    /// The tab with its preview dropped.
    pub open spec fn cleared(self) -> FilesModel {
        FilesModel { shown: FilesShownModel { rows: Seq::empty(), total: 0 }, ..self }
    }

    /// The tab with its match count armed where there is a source and a condition
    /// on names, and with no count otherwise.
    pub open spec fn scheduled(self, now: u64) -> FilesModel {
        FilesModel {
            count: Count {
                deadline: if self.pick.source is Some && has_name(self.filter.conds) {
                    Some(debounced(now))
                } else {
                    None
                },
                result: None,
                ..self.count
            },
            ..self
        }
    }

    /// The tab with this status.
    pub open spec fn with_status(self, status: Seq<char>) -> FilesModel {
        FilesModel { words: FilesWordsModel { status: Some(status), ..self.words }, ..self }
    }

    /// The tab with this error, or none.
    pub open spec fn with_error(self, error: Option<Seq<char>>) -> FilesModel {
        FilesModel { words: FilesWordsModel { error, ..self.words }, ..self }
    }

    /// The tab with this question, or none.
    pub open spec fn with_confirm(self, confirm: Option<Seq<char>>) -> FilesModel {
        FilesModel { words: FilesWordsModel { confirm, ..self.words }, ..self }
    }

    /// The tab with these conditions.
    pub open spec fn with_conds(self, conds: Seq<CondModel>) -> FilesModel {
        FilesModel { filter: FilesFilterModel { conds, ..self.filter }, ..self }
    }

    /// The tab with this history.
    pub open spec fn with_history(self, history: HistoryModel) -> FilesModel {
        FilesModel { filter: FilesFilterModel { history, ..self.filter }, ..self }
    }

    /// The tab with no run to show.
    pub open spec fn run_reset(self) -> FilesModel {
        FilesModel {
            run: FilesRunModel {
                log: Seq::empty(),
                done: 0,
                total: 0,
                current: Seq::empty(),
                ..self.run
            },
            ..self
        }
    }

    /// Both repositories are picked.
    pub open spec fn both(self) -> bool {
        self.pick.source is Some && self.pick.target is Some
    }

    /// The repositories whose content counts as known.
    pub open spec fn references(self, target: Seq<char>) -> Texts {
        seq![target] + other_refs(self.pick.extra_refs, self.pick.source, target)
    }

    /// The tab while the files are compared.
    pub open spec fn comparing(self) -> FilesModel {
        if self.both() {
            self.run_reset().with_history(self.filter.history.with_conds(self.filter.conds))
        } else {
            self
        }
    }

    /// What comparing asks for.
    pub open spec fn comparison(self, ask: bool) -> WorkModel {
        if self.both() {
            WorkModel::Compare {
                source: self.pick.source->0,
                references: self.references(self.pick.target->0),
                filter: composed(self.filter.conds),
                ask,
            }
        } else {
            WorkModel::Nothing
        }
    }

    /// The question before a run.
    pub open spec fn prompt(self) -> Option<Seq<char>> {
        if self.both() {
            let n = dec(self.shown.total as nat);
            let source = self.pick.source->0;
            let target = self.pick.target->0;
            let folder = folder_of(self.pick.subdir);
            let dest = if folder.len() == 0 {
                target
            } else {
                target + "/"@ + folder
            };
            Some(
                match self.pick.command {
                    Command::Copy => "Copy "@ + n + " file(s) from '"@ + source + "' into '"@ + dest
                        + "'?"@,
                    Command::Move => "Move "@ + n + " file(s) from '"@ + source + "' into '"@ + dest
                        + "'? They are removed from the source directory."@,
                    Command::Delete => "Delete "@ + n + " file(s) from '"@ + source
                        + "' that already exist in '"@ + target + "'? This cannot be undone."@,
                },
            )
        } else {
            None
        }
    }

    /// The tab with the result of a comparison.
    pub open spec fn compared(self, reply: Result<Vec<DiffItem>, String>, ask: bool) -> FilesModel {
        let now = if !self.both() {
            self
        } else {
            match reply {
                Err(e) => self.with_error(Some(e@)),
                Ok(items) => {
                    let rows = all_rows(
                        items@,
                        self.pick.command == Command::Delete,
                        self.pick.source->0,
                        self.pick.target->0,
                        folder_of(self.pick.subdir),
                    );
                    FilesModel {
                        shown: FilesShownModel {
                            rows: first_rows(rows),
                            total: rows.len() as usize,
                        },
                        ..self
                    }.with_status(
                        dec(rows.len()) + " match the "@ + lowercase(self.pick.command.title())
                            + "."@,
                    ).with_error(None)
                },
            }
        };
        if ask && now.prompt() is Some {
            now.with_confirm(now.prompt())
        } else {
            now
        }
    }

    /// The tab while a run is under way.
    pub open spec fn started(self) -> FilesModel {
        if self.both() {
            let going = self.with_status(lowercase(self.pick.command.title()) + "…"@).cleared();
            let fresh = going.run_reset();
            FilesModel { run: FilesRunModel { running: true, ..fresh.run }, ..fresh }
        } else {
            self
        }
    }

    /// The run to start.
    pub open spec fn order(self) -> WorkModel {
        if self.both() {
            let folder = folder_of(self.pick.subdir);
            WorkModel::Run {
                command: self.pick.command,
                source: self.pick.source->0,
                target: self.pick.target->0,
                references: self.references(self.pick.target->0),
                filter: composed(self.filter.conds),
                subdir: if folder.len() == 0 {
                    None
                } else {
                    Some(folder)
                },
            }
        } else {
            WorkModel::Nothing
        }
    }

    /// A preset can be saved: it has a name, and a condition says something.
    pub open spec fn can_save(self) -> bool {
        trimmed(self.filter.preset_name).len() > 0 && to_save(self.filter.conds).len() > 0
    }

    /// The tab after the conditions were saved as a preset.
    pub open spec fn preset_saved(self) -> FilesModel {
        let name = trimmed(self.filter.preset_name);
        let conds = to_save(self.filter.conds);
        if self.can_save() {
            let learned = self.filter.history.with_conds(restored(conds));
            FilesModel {
                filter: FilesFilterModel {
                    history: HistoryModel {
                        presets: placed(learned.presets, PresetModel { name, conds }),
                        ..learned
                    },
                    preset_name: Seq::empty(),
                    ..self.filter
                },
                ..self
            }.with_status("Saved filter preset '"@ + name + "'."@)
        } else {
            self
        }
    }

    /// The tab after a click.
    pub open spec fn after(self, act: Act, now: u64) -> FilesModel {
        match act {
            Act::PickSource(name) => FilesModel {
                pick: FilesPickModel {
                    source: Some(name@),
                    target: if self.pick.target == Some(name@) {
                        None
                    } else {
                        self.pick.target
                    },
                    extra_refs: without(self.pick.extra_refs, name@),
                    ..self.pick
                },
                ..self
            }.cleared().scheduled(now),
            Act::PickTarget(name) => FilesModel {
                pick: FilesPickModel {
                    target: Some(name@),
                    extra_refs: without(self.pick.extra_refs, name@),
                    ..self.pick
                },
                ..self
            }.cleared(),
            Act::ToggleExtraRef(name) => FilesModel {
                pick: FilesPickModel {
                    extra_refs: switched(self.pick.extra_refs, name@),
                    ..self.pick
                },
                ..self
            }.cleared(),
            Act::SetCommand(command) => FilesModel {
                pick: FilesPickModel { command, ..self.pick },
                ..self
            }.cleared(),
            Act::SubdirChanged => self.cleared(),
            Act::FilterChanged => self.cleared().scheduled(now),
            Act::AddCond(kind) => FilesModel {
                filter: FilesFilterModel {
                    conds: closed_editors(self.filter.conds).push(
                        CondModel { kind, value: Seq::empty(), editing: true },
                    ),
                    adding: false,
                    ..self.filter
                },
                ..self
            }.cleared().scheduled(now),
            Act::RemoveCond(i) => self.with_conds(
                if i < self.filter.conds.len() {
                    self.filter.conds.remove(i as int)
                } else {
                    self.filter.conds
                },
            ).cleared().scheduled(now),
            Act::EditCond(i) => self.with_conds(
                if i < self.filter.conds.len() {
                    let c = self.filter.conds[i as int];
                    closed_editors(self.filter.conds).update(
                        i as int,
                        CondModel { editing: !c.editing, ..c },
                    )
                } else {
                    closed_editors(self.filter.conds)
                },
            ).scheduled(now),
            Act::CommitCond => self.with_history(
                self.filter.history.with_conds(self.filter.conds),
            ).with_conds(closed_editors(self.filter.conds)),
            Act::ClearConds => FilesModel {
                filter: FilesFilterModel { conds: Seq::empty(), adding: false, ..self.filter },
                ..self
            }.cleared().scheduled(now),
            Act::SavePreset => self.preset_saved(),
            Act::ApplyPreset(i) => if i < self.filter.history.presets.len() {
                FilesModel {
                    filter: FilesFilterModel {
                        conds: restored(self.filter.history.presets[i as int].conds),
                        adding: false,
                        ..self.filter
                    },
                    ..self
                }.cleared().scheduled(now)
            } else {
                self
            },
            Act::RemovePreset(i) => if i < self.filter.history.presets.len() {
                self.with_history(
                    HistoryModel {
                        presets: self.filter.history.presets.remove(i as int),
                        ..self.filter.history
                    },
                )
            } else {
                self
            },
            Act::Preview => self.comparing(),
            Act::Ask => self.comparing(),
            Act::CancelConfirm => self.with_confirm(None),
            Act::Confirm => self.with_confirm(None).started(),
            _ => self,
        }
    }

    /// Whether a click changes what is written to disk.
    pub open spec fn saves(self, act: Act) -> bool {
        match act {
            Act::CommitCond => self.filter.history.learns_from(self.filter.conds),
            Act::SavePreset => self.can_save(),
            Act::RemovePreset(i) => i < self.filter.history.presets.len(),
            Act::Preview => self.both() && self.filter.history.learns_from(self.filter.conds),
            Act::Ask => self.both() && self.filter.history.learns_from(self.filter.conds),
            _ => false,
        }
    }

    /// The work that a click asks for.
    pub open spec fn work(self, act: Act) -> WorkModel {
        match act {
            Act::PickSource(name) => WorkModel::ReadMime(name@),
            Act::MarkSourceDone => match self.pick.source {
                Some(source) => WorkModel::MarkDone(source),
                None => WorkModel::Nothing,
            },
            Act::ExportHistory => WorkModel::ExportHistory,
            Act::ImportHistory => WorkModel::ImportHistory,
            Act::BrowseSubdir => match self.pick.target {
                Some(target) => WorkModel::Browse(target),
                None => WorkModel::Nothing,
            },
            Act::Reload => WorkModel::Reload,
            Act::Preview => self.comparison(false),
            Act::Ask => self.comparison(true),
            Act::Confirm => self.order(),
            Act::CancelRun => WorkModel::CancelRun,
            _ => WorkModel::Nothing,
        }
    }
}

/// Saving the conditions as a preset and applying it gives the same filter.
pub proof fn law_a_saved_preset_restores_the_filter(m: FilesModel)
    ensures
        composed(restored(to_save(m.filter.conds))) == composed(m.filter.conds),
{
    crate::file_filter::law_a_preset_gives_its_filter_back(m.filter.conds);
}

/// The source is never the target, nor a further reference, after it was picked.
pub proof fn law_the_source_is_no_reference(m: FilesModel, name: String, now: u64)
    ensures
        m.after(Act::PickSource(name), now).pick.target != Some(name@),
        !m.after(Act::PickSource(name), now).pick.extra_refs.contains(name@),
{
    lemma_dropped(m.pick.extra_refs, name@);
}

/// How a run ended.
pub enum OpResult {
    Copied { copied: u64, cancelled: bool, moved: bool },
    Deleted { deleted: u64, cancelled: bool },
    Error(String),
}

/// How a run ended, in words.
pub open spec fn result_text(result: OpResult) -> Option<Seq<char>> {
    match result {
        OpResult::Copied { copied, cancelled, moved } => Some(
            (if moved {
                "Moved "@
            } else {
                "Copied "@
            }) + dec(copied as nat) + " file(s)"@ + (if cancelled {
                " (cancelled)"@
            } else {
                ""@
            }) + "."@,
        ),
        OpResult::Deleted { deleted, cancelled } => Some(
            "Deleted "@ + dec(deleted as nat) + " file(s)"@ + (if cancelled {
                " (cancelled)"@
            } else {
                ""@
            }) + "."@,
        ),
        OpResult::Error(_) => None,
    }
}

/// What a run did to a file.
#[derive(Clone, Copy, Debug, PartialEq, Eq, Structural)]
pub enum DiffAction {
    Copy,
    Move,
    Delete,
}

/// A live event of a run.
pub enum DiffEvent {
    Progress { action: DiffAction, done: u64, total: u64, rel_path: String },
    Error { path: String, message: String },
}

/// A run after an event.
pub open spec fn progressed(run: FilesRunModel, event: DiffEvent) -> FilesRunModel {
    match event {
        DiffEvent::Progress { action, done, total, rel_path } => FilesRunModel {
            done,
            total,
            current: rel_path@,
            log: logged(
                run.log,
                (match action {
                    DiffAction::Copy => "Copied"@,
                    DiffAction::Move => "Moved"@,
                    DiffAction::Delete => "Deleted"@,
                }) + " "@ + rel_path@,
            ),
            ..run
        },
        DiffEvent::Error { path, message } => FilesRunModel {
            log: logged(run.log, "✗ "@ + path@ + ": "@ + message@),
            ..run
        },
    }
}

/// What the dialogs for the history's file gave.
pub enum HistoryIo {
    Imported(FilterHistory),
    /// Written to this file.
    Exported(String),
    Failed(String),
}

/// A message from work that was asked for.
pub enum Msg {
    Progress(DiffEvent),
    Done(OpResult),
    History(HistoryIo),
    /// A picked folder of the target, or why it cannot be used.
    Subdir(Result<String, String>),
    /// A match count; `None` where counting failed.
    Counted(u64, Option<usize>),
}

impl FilesModel {
    /// The tab after a message.
    pub open spec fn received(self, msg: Msg) -> FilesModel {
        match msg {
            Msg::Progress(event) => FilesModel { run: progressed(self.run, event), ..self },
            Msg::Done(result) => {
                let ended = FilesModel { run: FilesRunModel { running: false, ..self.run }, ..self };
                match result {
                    OpResult::Error(e) => ended.with_error(Some(e@)),
                    _ => ended.with_status(result_text(result)->0).with_error(None),
                }
            },
            Msg::History(HistoryIo::Imported(history)) => self.with_history(
                self.filter.history.merged(history@),
            ).with_status("Imported filter history."@).with_error(None),
            Msg::History(HistoryIo::Exported(path)) => self.with_status(
                "Exported filter history to "@ + path@ + "."@,
            ).with_error(None),
            Msg::History(HistoryIo::Failed(e)) => self.with_error(Some(e@)),
            Msg::Subdir(Ok(path)) => FilesModel {
                pick: FilesPickModel { subdir: path@, ..self.pick },
                ..self
            }.with_error(None).cleared(),
            Msg::Subdir(Err(e)) => self.with_error(Some(e@)),
            Msg::Counted(token, result) => if token == self.count.token {
                FilesModel { count: Count { in_flight: false, result, ..self.count }, ..self }
            } else {
                self
            },
        }
    }

    /// The tab after the repositories were read. `history` is what was read of the
    /// history; it counts the first time only.
    pub open spec fn reloaded(
        self,
        history: Option<FilterHistory>,
        listed: Result<Vec<String>, String>,
    ) -> FilesModel {
        let based = if self.known.loaded {
            self
        } else {
            self.with_history(
                match history {
                    Some(h) => h@,
                    None => HistoryModel::nothing(),
                },
            )
        };
        match listed {
            Err(e) => based.with_error(Some(e@)),
            Ok(list) => {
                let repos = views(list@);
                let source = crate::grooming_view::still_there(self.pick.source, repos);
                FilesModel {
                    known: FilesKnownModel {
                        repos,
                        loaded: true,
                        mime_stats: if source is Some {
                            self.known.mime_stats
                        } else {
                            Seq::empty()
                        },
                    },
                    pick: FilesPickModel {
                        source,
                        target: crate::grooming_view::still_there(self.pick.target, repos),
                        ..self.pick
                    },
                    ..based
                }.with_error(None)
            },
        }
    }
}

fn close_editors(conds: &mut Vec<FilterCond>)
    ensures
        conds_view(final(conds)@) == closed_editors(conds_view(old(conds)@)),
{
    let ghost start = conds_view(conds@);
    let n = conds.len();
    let mut i: usize = 0;
    while i < n
        invariant
            i <= n,
            n == conds@.len(),
            n == start.len(),
            forall|k: int|
                0 <= k < i ==> (#[trigger] conds@[k])@ == (CondModel {
                    editing: false,
                    ..start[k]
                }),
            forall|k: int| i <= k < n ==> (#[trigger] conds@[k])@ == start[k],
        decreases n - i,
    {
        conds[i].editing = false;
        i += 1;
    }
    assert(conds_view(conds@) =~= closed_editors(start));
}

fn any_name(conds: &Vec<FilterCond>) -> (r: bool)
    ensures
        r == has_name(conds_view(conds@)),
{
    let mut i: usize = 0;
    while i < conds.len()
        invariant
            i <= conds@.len(),
            forall|k: int| 0 <= k < i ==> (#[trigger] conds@[k]).kind != FilterKind::Name,
        decreases conds@.len() - i,
    {
        if conds[i].kind == FilterKind::Name {
            assert(conds_view(conds@)[i as int].kind == FilterKind::Name);
            return true;
        }
        i += 1;
    }
    assert forall|k: int| 0 <= k < conds_view(conds@).len() implies (#[trigger] conds_view(
        conds@,
    )[k]).kind != FilterKind::Name by {
        assert(conds@[k].kind != FilterKind::Name);
    }
    false
}

fn preview_row(item: &DiffItem, source: &str, target: &str, folder: &str) -> (r: PreviewRow)
    ensures
        (r.from@, r.to@) == row_of(*item, source@, target@, folder@),
{
    let mut from = copy(source);
    from.append("/");
    match item {
        DiffItem::New { rel_path } => {
            from.append(rel_path.as_str());
            let mut to = copy(target);
            to.append("/");
            if !folder.is_empty() {
                to.append(folder);
                to.append("/");
            }
            to.append(rel_path.as_str());
            PreviewRow { from, to }
        },
        DiffItem::Equal { rel_path, .. } => {
            from.append(rel_path.as_str());
            PreviewRow { from, to: "✗ delete (already in target)".to_string() }
        },
        DiffItem::DeletedInReference { rel_path } => {
            from.append(rel_path.as_str());
            PreviewRow { from, to: "✗ delete (already in target)".to_string() }
        },
    }
}

fn is_acted_on(item: &DiffItem, deleting: bool) -> (r: bool)
    ensures
        r == acts_on(*item, deleting),
{
    match item {
        DiffItem::New { .. } => !deleting,
        _ => deleting,
    }
}

fn preview_rows(
    items: &Vec<DiffItem>,
    deleting: bool,
    source: &str,
    target: &str,
    folder: &str,
) -> (r: (Vec<PreviewRow>, usize))
    ensures
        ({
            let all = all_rows(items@, deleting, source@, target@, folder@);
            &&& rows_view(r.0@) == first_rows(all)
            &&& r.1 == all.len()
        }),
{
    let mut rows: Vec<PreviewRow> = Vec::new();
    let mut total: usize = 0;
    let mut i: usize = 0;
    assert(rows_view(rows@) =~= Seq::empty());
    while i < items.len()
        invariant
            i <= items@.len(),
            total <= i,
            ({
                let all = all_rows(items@.take(i as int), deleting, source@, target@, folder@);
                &&& rows_view(rows@) == first_rows(all)
                &&& total == all.len()
            }),
        decreases items@.len() - i,
    {
        let ghost was = rows@;
        let ghost all = all_rows(items@.take(i as int), deleting, source@, target@, folder@);
        assert(items@.take(i + 1).drop_last() =~= items@.take(i as int));
        assert(items@.take(i + 1).last() == items@[i as int]);
        assert(rows_view(rows@).len() == rows@.len());
        if is_acted_on(&items[i], deleting) {
            total = total + 1;
            let ghost row = row_of(items@[i as int], source@, target@, folder@);
            if rows.len() < PREVIEW_LIMIT {
                rows.push(preview_row(&items[i], source, target, folder));
                assert(rows_view(rows@) =~= rows_view(was).push(row));
            } else {
                assert(first_rows(all.push(row)) =~= first_rows(all));
            }
        }
        i += 1;
    }
    assert(items@.take(i as int) =~= items@);
    (rows, total)
}

/// A folder without white space and slashes around it.
pub fn normalized(subdir: &str) -> (r: String)
    ensures
        r@ == folder_of(subdir@),
{
    let text = trim(subdir);
    let chars = chars_of(text.as_str());
    let ghost all = text@;
    let mut from: usize = 0;
    assert(all.skip(0) =~= all);
    while from < chars.len() && chars[from] == '/'
        invariant
            from <= chars@.len(),
            chars@ == all,
            no_lead(all) == no_lead(all.skip(from as int)),
        decreases chars@.len() - from,
    {
        assert(all.skip(from as int).drop_first() =~= all.skip(from + 1));
        assert(all.skip(from as int)[0] == all[from as int]);
        from += 1;
    }
    let ghost lead = all.skip(from as int);
    assert(from < chars@.len() ==> lead[0] == all[from as int]);
    let mut to: usize = chars.len();
    assert(all.subrange(from as int, to as int) =~= lead);
    while to > from && chars[to - 1] == '/'
        invariant
            from <= to <= chars@.len(),
            chars@ == all,
            no_tail(lead) == no_tail(all.subrange(from as int, to as int)),
        decreases to,
    {
        let ghost part = all.subrange(from as int, to as int);
        assert(part.drop_last() =~= all.subrange(from as int, to - 1));
        assert(part.last() == all[to - 1]);
        to -= 1;
    }
    proof {
        let part = all.subrange(from as int, to as int);
        if to > from {
            assert(part.last() == all[to - 1]);
        }
    }
    string_of(&chars, from, to)
}

/// What the inline editor of a condition shows.
pub struct CondEditor {
    pub label: String,
    pub hint: &'static str,
    /// The live match count of a name condition.
    pub count: Option<String>,
    /// The source's MIME types that the typed text leaves, with their counts.
    pub mime_picks: Vec<(String, u64)>,
    /// Values used before.
    pub recent: Vec<String>,
}

/// What the filter's bar shows.
pub struct FilterBar {
    /// A chip for each condition: its text, and whether its editor is open.
    pub chips: Vec<(String, bool)>,
    /// The condition whose editor is open.
    pub editing: Option<usize>,
    pub can_clear: bool,
    /// The names of the presets; `None` hides their row.
    pub presets: Option<Vec<String>>,
    /// Whether the conditions can be saved as a preset, once it has a name.
    pub savable: bool,
}

/// The text of a condition's chip.
pub open spec fn chip_text(c: CondModel) -> Seq<char> {
    crate::file_filter::label_text(c.kind) + ": "@ + if trimmed(c.value).len() == 0 {
        "…"@
    } else {
        trimmed(c.value)
    }
}

/// The texts of chips, and which are open.
pub open spec fn chips_view(chips: Seq<(String, bool)>) -> Seq<(Seq<char>, bool)> {
    Seq::new(chips.len(), |i: int| (chips[i].0@, chips[i].1))
}

/// The chips of conditions.
pub open spec fn chips_of(conds: Seq<CondModel>) -> Seq<(Seq<char>, bool)> {
    Seq::new(conds.len(), |i: int| (chip_text(conds[i]), conds[i].editing))
}

/// The last condition whose editor is open.
pub open spec fn editing_at(conds: Seq<CondModel>) -> Option<usize>
    decreases conds.len(),
{
    if conds.len() == 0 {
        None
    } else if conds.last().editing {
        Some((conds.len() - 1) as usize)
    } else {
        editing_at(conds.drop_last())
    }
}

/// The names of presets.
pub open spec fn preset_names(presets: Seq<PresetModel>) -> Texts {
    Seq::new(presets.len(), |i: int| presets[i].name)
}

/// The live count shown beside a name condition.
pub open spec fn count_text(count: Count) -> Option<Seq<char>> {
    match count.result {
        Some(n) => Some(dec(n as nat) + " files match"@),
        None => if count.deadline is Some || count.in_flight {
            Some("counting…"@)
        } else {
            None
        },
    }
}

impl FilesView {
    /// The tab as it opens.
    pub fn new() -> (r: Self)
        ensures
            r@ == (FilesModel {
                known: FilesKnownModel {
                    repos: Seq::empty(),
                    loaded: false,
                    mime_stats: Seq::empty(),
                },
                pick: FilesPickModel {
                    source: None,
                    target: None,
                    extra_refs: Seq::empty(),
                    command: Command::Copy,
                    subdir: Seq::empty(),
                },
                filter: FilesFilterModel {
                    conds: Seq::empty(),
                    adding: false,
                    history: HistoryModel::nothing(),
                    preset_name: Seq::empty(),
                },
                count: Count { token: 0, deadline: None, in_flight: false, result: None },
                shown: FilesShownModel { rows: Seq::empty(), total: 0 },
                words: FilesWordsModel { status: None, error: None, confirm: None },
                run: FilesRunModel {
                    running: false,
                    log: Seq::empty(),
                    done: 0,
                    total: 0,
                    current: Seq::empty(),
                },
            }),
    {
        let r = FilesView {
            known: FilesKnown { repos: Vec::new(), loaded: false, mime_stats: Vec::new() },
            pick: FilesPick {
                source: None,
                target: None,
                extra_refs: Vec::new(),
                command: Command::Copy,
                subdir: String::new(),
            },
            filter: FilesFilter {
                conds: Vec::new(),
                adding: false,
                history: FilterHistory::new(),
                preset_name: String::new(),
            },
            count: Count { token: 0, deadline: None, in_flight: false, result: None },
            shown: FilesShown { rows: Vec::new(), total: 0 },
            words: FilesWords { status: None, error: None, confirm: None },
            run: FilesRun {
                running: false,
                log: Vec::new(),
                done: 0,
                total: 0,
                current: String::new(),
            },
        };
        assert(r@.known.repos =~= Seq::empty());
        assert(r@.known.mime_stats =~= Seq::empty());
        assert(r@.pick.extra_refs =~= Seq::empty());
        assert(r@.filter.conds =~= Seq::empty());
        assert(r@.shown.rows =~= Seq::empty());
        assert(r@.run.log =~= Seq::empty());
        r
    }

    /// The filter's expression.
    pub fn filter_string(&self) -> (r: Option<String>)
        ensures
            opt_view(r) == composed(self@.filter.conds),
    {
        compose(&self.filter.conds)
    }

    /// The folder that files go into.
    pub fn normalized_subdir(&self) -> (r: String)
        ensures
            r@ == folder_of(self@.pick.subdir),
    {
        normalized(self.pick.subdir.as_str())
    }

    /// The repositories whose content counts as known: the target first.
    pub fn references(&self, target: &str) -> (r: Vec<String>)
        ensures
            views(r@) == self@.references(target@),
    {
        let ghost all = views(self.pick.extra_refs@);
        let mut out: Vec<String> = Vec::new();
        out.push(copy(target));
        assert(views(out@) =~= seq![target@] + other_refs(all.take(0), self@.pick.source, target@));
        let mut i: usize = 0;
        while i < self.pick.extra_refs.len()
            invariant
                i <= self.pick.extra_refs@.len(),
                all == views(self.pick.extra_refs@),
                views(out@) == seq![target@] + other_refs(
                    all.take(i as int),
                    self@.pick.source,
                    target@,
                ),
            decreases self.pick.extra_refs@.len() - i,
        {
            let ghost was = views(out@);
            assert(all.take(i + 1).drop_last() =~= all.take(i as int));
            assert(all.take(i + 1).last() == self.pick.extra_refs@[i as int]@);
            let name = &self.pick.extra_refs[i];
            let is_source = match &self.pick.source {
                Some(s) => crate::text::same_text(s.as_str(), name.as_str()),
                None => false,
            };
            if !crate::text::same_text(name.as_str(), target) && !is_source {
                let ghost before = out@;
                out.push(name.clone());
                assert(views(out@) =~= views(before).push(name@));
                assert(views(out@) =~= seq![target@] + other_refs(
                    all.take(i + 1),
                    self@.pick.source,
                    target@,
                ));
            }
            i += 1;
        }
        assert(all.take(i as int) =~= all);
        out
    }

    /// Whether a preview or a run can be asked for.
    pub fn ready(&self) -> (r: bool)
        ensures
            r == (self@.both() && !self@.run.running),
    {
        self.pick.source.is_some() && self.pick.target.is_some() && !self.run.running
    }

    /// Whether the run's panel takes the preview's place.
    pub fn shows_run(&self) -> (r: bool)
        ensures
            r == (self@.run.running || self@.run.log.len() > 0),
    {
        assert(self@.run.log.len() == self.run.log@.len());
        self.run.running || self.run.log.len() > 0
    }

    /// Drops the preview.
    pub fn clear_preview(&mut self)
        ensures
            final(self)@ == old(self)@.cleared(),
    {
        self.shown = FilesShown { rows: Vec::new(), total: 0 };
        assert(self@.shown.rows =~= Seq::empty());
    }

    fn schedule_count(&mut self, now: u64)
        ensures
            final(self)@ == old(self)@.scheduled(now),
    {
        if self.pick.source.is_some() && any_name(&self.filter.conds) {
            self.count.deadline = Some(now.saturating_add(COUNT_DEBOUNCE_MS));
        } else {
            self.count.deadline = None;
        }
        self.count.result = None;
    }

    /// Clears the run's log and counters.
    pub fn reset_run(&mut self)
        ensures
            final(self)@ == old(self)@.run_reset(),
    {
        self.run.log = Vec::new();
        self.run.done = 0;
        self.run.total = 0;
        self.run.current = String::new();
        assert(self@.run.log =~= Seq::empty());
    }

    /// Launches the match count once it is due.
    pub fn maybe_launch_count(&mut self, now: u64) -> (r: CountStep)
        requires
            old(self).count.token < u64::MAX,
        ensures
            match old(self)@.count.deadline {
                None => r is Idle && final(self)@ == old(self)@,
                Some(deadline) => if now < deadline {
                    r == CountStep::Wait((deadline - now) as u64) && final(self)@ == old(self)@
                } else {
                    match old(self)@.pick.source {
                        None => r is Idle && final(self)@ == (FilesModel {
                            count: Count { deadline: None, ..old(self)@.count },
                            ..old(self)@
                        }),
                        Some(source) => {
                            let token = (old(self)@.count.token + 1) as u64;
                            &&& final(self)@ == (FilesModel {
                                count: Count {
                                    deadline: None,
                                    token,
                                    in_flight: true,
                                    ..old(self)@.count
                                },
                                ..old(self)@
                            })
                            &&& r matches CountStep::Launch { token: t, repo, filter }
                            &&& t == token
                            &&& repo@ == source
                            &&& opt_view(filter) == composed(old(self)@.filter.conds)
                        },
                    }
                },
            },
    {
        match self.count.deadline {
            None => CountStep::Idle,
            Some(deadline) => {
                if now < deadline {
                    return CountStep::Wait(deadline - now);
                }
                self.count.deadline = None;
                match copy_opt(&self.pick.source) {
                    None => CountStep::Idle,
                    Some(repo) => {
                        self.count.token = self.count.token + 1;
                        self.count.in_flight = true;
                        CountStep::Launch {
                            token: self.count.token,
                            repo,
                            filter: self.filter_string(),
                        }
                    },
                }
            },
        }
    }

    fn begin_compare(&mut self, ask: bool) -> (r: Effect)
        ensures
            final(self)@ == old(self)@.comparing(),
            r.save == (old(self)@.both() && old(self)@.filter.history.learns_from(
                old(self)@.filter.conds,
            )),
            r.work@ == old(self)@.comparison(ask),
    {
        match (copy_opt(&self.pick.source), copy_opt(&self.pick.target)) {
            (Some(source), Some(target)) => {
                self.reset_run();
                let save = self.filter.history.record_conds(&self.filter.conds);
                let references = self.references(target.as_str());
                let filter = self.filter_string();
                Effect { save, work: Work::Compare { source, references, filter, ask } }
            },
            _ => Effect { save: false, work: Work::Nothing },
        }
    }

    /// The question before a run.
    pub fn build_prompt(&self) -> (r: Option<String>)
        ensures
            opt_view(r) == self@.prompt(),
    {
        match (&self.pick.source, &self.pick.target) {
            (Some(source), Some(target)) => {
                let folder = self.normalized_subdir();
                let mut dest = target.clone();
                if !folder.as_str().is_empty() {
                    dest.append("/");
                    dest.append(folder.as_str());
                }
                let mut s = String::new();
                match self.pick.command {
                    Command::Copy => {
                        s.append("Copy ");
                        push_decimal(&mut s, self.shown.total as u128);
                        s.append(" file(s) from '");
                        s.append(source.as_str());
                        s.append("' into '");
                        s.append(dest.as_str());
                        s.append("'?");
                    },
                    Command::Move => {
                        s.append("Move ");
                        push_decimal(&mut s, self.shown.total as u128);
                        s.append(" file(s) from '");
                        s.append(source.as_str());
                        s.append("' into '");
                        s.append(dest.as_str());
                        s.append("'? They are removed from the source directory.");
                    },
                    Command::Delete => {
                        s.append("Delete ");
                        push_decimal(&mut s, self.shown.total as u128);
                        s.append(" file(s) from '");
                        s.append(source.as_str());
                        s.append("' that already exist in '");
                        s.append(target.as_str());
                        s.append("'? This cannot be undone.");
                    },
                }
                assert(s@ =~= self@.prompt()->0);
                Some(s)
            },
            _ => None,
        }
    }

    /// Takes in the result of a comparison; with `ask`, asks now that the count is
    /// known.
    pub fn compared(&mut self, reply: Result<Vec<DiffItem>, String>, ask: bool)
        ensures
            final(self)@ == old(self)@.compared(reply, ask),
    {
        match (copy_opt(&self.pick.source), copy_opt(&self.pick.target)) {
            (Some(source), Some(target)) => match reply {
                Err(e) => {
                    self.words.error = Some(e);
                },
                Ok(items) => {
                    let folder = self.normalized_subdir();
                    let (rows, total) = preview_rows(
                        &items,
                        self.pick.command == Command::Delete,
                        source.as_str(),
                        target.as_str(),
                        folder.as_str(),
                    );
                    let mut status = decimal(total as u128);
                    status.append(" match the ");
                    status.append(to_lowercase(self.pick.command.label()).as_str());
                    status.append(".");
                    self.shown = FilesShown { rows, total };
                    self.words.status = Some(status);
                    self.words.error = None;
                },
            },
            _ => {},
        }
        if ask {
            let prompt = self.build_prompt();
            if prompt.is_some() {
                self.words.confirm = prompt;
            }
        }
    }

    fn begin_run(&mut self) -> (r: Work)
        ensures
            final(self)@ == old(self)@.started(),
            r@ == old(self)@.order(),
    {
        match (copy_opt(&self.pick.source), copy_opt(&self.pick.target)) {
            (Some(source), Some(target)) => {
                let references = self.references(target.as_str());
                let filter = self.filter_string();
                let folder = self.normalized_subdir();
                let subdir = if folder.as_str().is_empty() {
                    None
                } else {
                    Some(folder)
                };
                let mut status = to_lowercase(self.pick.command.label());
                status.append("…");
                self.run.running = true;
                self.words.status = Some(status);
                self.clear_preview();
                self.reset_run();
                Work::Run {
                    command: self.pick.command,
                    source,
                    target,
                    references,
                    filter,
                    subdir,
                }
            },
            _ => Work::Nothing,
        }
    }

    fn pick_source(&mut self, name: String, now: u64)
        ensures
            final(self)@ == old(self)@.after(Act::PickSource(name), now),
    {
        let same = match &self.pick.target {
            Some(t) => crate::text::same_text(t.as_str(), name.as_str()),
            None => false,
        };
        if same {
            self.pick.target = None;
        }
        drop_name(&mut self.pick.extra_refs, &name);
        self.pick.source = Some(name);
        self.clear_preview();
        self.schedule_count(now);
    }

    fn add_cond(&mut self, kind: FilterKind, now: u64)
        ensures
            final(self)@ == old(self)@.after(Act::AddCond(kind), now),
    {
        close_editors(&mut self.filter.conds);
        let ghost was = self.filter.conds@;
        self.filter.conds.push(FilterCond { kind, value: String::new(), editing: true });
        proof {
            assert(conds_view(self.filter.conds@) =~= conds_view(was).push(
                CondModel { kind, value: Seq::empty(), editing: true },
            ));
        }
        self.filter.adding = false;
        self.clear_preview();
        self.schedule_count(now);
    }

    fn remove_cond(&mut self, i: usize, now: u64)
        ensures
            final(self)@ == old(self)@.after(Act::RemoveCond(i), now),
    {
        let ghost was = conds_view(self.filter.conds@);
        if i < self.filter.conds.len() {
            let _gone = self.filter.conds.remove(i);
            assert(conds_view(self.filter.conds@) =~= was.remove(i as int));
        }
        self.clear_preview();
        self.schedule_count(now);
    }

    fn edit_cond(&mut self, i: usize, now: u64)
        ensures
            final(self)@ == old(self)@.after(Act::EditCond(i), now),
    {
        let ghost start = conds_view(self.filter.conds@);
        let was = i < self.filter.conds.len() && self.filter.conds[i].editing;
        close_editors(&mut self.filter.conds);
        assert(conds_view(self.filter.conds@).len() == start.len());
        if i < self.filter.conds.len() {
            let ghost closed = self.filter.conds@;
            self.filter.conds[i].editing = !was;
            proof {
                let c = start[i as int];
                let wanted = closed_editors(start).update(
                    i as int,
                    CondModel { editing: !c.editing, ..c },
                );
                assert forall|k: int| 0 <= k < wanted.len() implies #[trigger] conds_view(
                    self.filter.conds@,
                )[k] == wanted[k] by {
                    assert(closed[k]@ == conds_view(closed)[k]);
                    if k != i {
                        assert(self.filter.conds@[k] == closed[k]);
                    }
                }
                assert(conds_view(self.filter.conds@) =~= wanted);
            }
        }
        self.schedule_count(now);
    }

    fn save_preset(&mut self) -> (r: bool)
        ensures
            final(self)@ == old(self)@.preset_saved(),
            r == old(self)@.can_save(),
    {
        let name = trim(self.filter.preset_name.as_str());
        let conds = saved_conds(&self.filter.conds);
        assert(crate::file_filter::saved_view(conds@).len() == conds@.len());
        if name.as_str().is_empty() || conds.len() == 0 {
            return false;
        }
        let used = restore(&conds);
        let _changed = self.filter.history.record_conds(&used);
        let mut status = "Saved filter preset '".to_string();
        status.append(name.as_str());
        status.append("'.");
        let preset = FilterPreset { name, conds };
        place_preset(&mut self.filter.history.presets, preset);
        self.filter.preset_name = String::new();
        self.words.status = Some(status);
        true
    }

    fn apply_preset(&mut self, i: usize, now: u64)
        ensures
            final(self)@ == old(self)@.after(Act::ApplyPreset(i), now),
    {
        if i < self.filter.history.presets.len() {
            self.filter.conds = restore(&self.filter.history.presets[i].conds);
            self.filter.adding = false;
            self.clear_preview();
            self.schedule_count(now);
        }
    }

    fn remove_preset(&mut self, i: usize) -> (r: bool)
        ensures
            final(self)@ == old(self)@.after(Act::RemovePreset(i), 0),
            r == old(self)@.saves(Act::RemovePreset(i)),
    {
        let ghost was = self@.filter.history;
        if i < self.filter.history.presets.len() {
            let _gone = self.filter.history.presets.remove(i);
            proof {
                assert(self@.filter.history.presets =~= was.presets.remove(i as int));
                assert(self@.filter.history =~= (HistoryModel {
                    presets: was.presets.remove(i as int),
                    ..was
                }));
            }
            true
        } else {
            false
        }
    }

    /// Carries out a click at a moment of the host's millisecond clock.
    pub fn apply(&mut self, act: Act, now: u64) -> (r: Effect)
        ensures
            final(self)@ == old(self)@.after(act, now),
            r.save == old(self)@.saves(act),
            r.work@ == old(self)@.work(act),
    {
        let mut save = false;
        let mut work = Work::Nothing;
        match act {
            Act::PickSource(name) => {
                work = Work::ReadMime(name.clone());
                self.pick_source(name, now);
            },
            Act::PickTarget(name) => {
                drop_name(&mut self.pick.extra_refs, &name);
                self.pick.target = Some(name);
                self.clear_preview();
            },
            Act::ToggleExtraRef(name) => {
                switch_name(&mut self.pick.extra_refs, name);
                self.clear_preview();
            },
            Act::MarkSourceDone => {
                if let Some(source) = &self.pick.source {
                    work = Work::MarkDone(source.clone());
                }
            },
            Act::SetCommand(command) => {
                self.pick.command = command;
                self.clear_preview();
            },
            Act::SubdirChanged => {
                self.clear_preview();
            },
            Act::FilterChanged => {
                self.clear_preview();
                self.schedule_count(now);
            },
            Act::AddCond(kind) => {
                self.add_cond(kind, now);
            },
            Act::RemoveCond(i) => {
                self.remove_cond(i, now);
            },
            Act::EditCond(i) => {
                self.edit_cond(i, now);
            },
            Act::CommitCond => {
                save = self.filter.history.record_conds(&self.filter.conds);
                close_editors(&mut self.filter.conds);
            },
            Act::ClearConds => {
                self.filter.conds = Vec::new();
                assert(conds_view(self.filter.conds@) =~= Seq::empty());
                self.filter.adding = false;
                self.clear_preview();
                self.schedule_count(now);
            },
            Act::SavePreset => {
                save = self.save_preset();
            },
            Act::ApplyPreset(i) => {
                self.apply_preset(i, now);
            },
            Act::RemovePreset(i) => {
                save = self.remove_preset(i);
            },
            Act::ExportHistory => {
                work = Work::ExportHistory;
            },
            Act::ImportHistory => {
                work = Work::ImportHistory;
            },
            Act::BrowseSubdir => {
                if let Some(target) = &self.pick.target {
                    work = Work::Browse(target.clone());
                }
            },
            Act::Reload => {
                work = Work::Reload;
            },
            Act::Preview => {
                return self.begin_compare(false);
            },
            Act::Ask => {
                return self.begin_compare(true);
            },
            Act::CancelConfirm => {
                self.words.confirm = None;
            },
            Act::Confirm => {
                self.words.confirm = None;
                work = self.begin_run();
            },
            Act::CancelRun => {
                work = Work::CancelRun;
            },
        }
        Effect { save, work }
    }

    /// Takes in the MIME types of the source that were read.
    pub fn mime_read(&mut self, stats: Vec<(String, u64)>)
        ensures
            final(self)@ == (FilesModel {
                known: FilesKnownModel {
                    mime_stats: stats_view(stats@),
                    ..old(self)@.known
                },
                ..old(self)@
            }),
    {
        self.known.mime_stats = stats;
    }

    /// Takes in the repositories that were read. Returns the work of reading the
    /// source's MIME types, where there is a source.
    pub fn reload(&mut self, history: Option<FilterHistory>, listed: Result<Vec<String>, String>) -> (r:
        Work)
        ensures
            final(self)@ == old(self)@.reloaded(history, listed),
            r@ == (if listed is Ok && final(self)@.pick.source is Some {
                WorkModel::ReadMime(final(self)@.pick.source->0)
            } else {
                WorkModel::Nothing
            }),
    {
        if !self.known.loaded {
            self.filter.history = match history {
                Some(h) => h,
                None => FilterHistory::new(),
            };
        }
        match listed {
            Err(e) => {
                self.words.error = Some(e);
                Work::Nothing
            },
            Ok(repos) => {
                self.words.error = None;
                self.pick.source = kept_pick(&self.pick.source, &repos);
                self.pick.target = kept_pick(&self.pick.target, &repos);
                self.known.repos = repos;
                self.known.loaded = true;
                match &self.pick.source {
                    Some(source) => Work::ReadMime(source.clone()),
                    None => {
                        self.known.mime_stats = Vec::new();
                        assert(stats_view(self.known.mime_stats@) =~= Seq::empty());
                        Work::Nothing
                    },
                }
            },
        }
    }

    /// Takes in whether the source could be marked as gone through.
    pub fn marked_done(&mut self, source: &str, reply: Result<(), String>)
        ensures
            final(self)@ == (match reply {
                Ok(_) => old(self)@.with_status("Marked '"@ + source@ + "' triage-done."@).with_error(
                    None,
                ),
                Err(e) => old(self)@.with_error(Some(e@)),
            }),
    {
        match reply {
            Ok(_) => {
                let mut s = "Marked '".to_string();
                s.append(source);
                s.append("' triage-done.");
                self.words.status = Some(s);
                self.words.error = None;
            },
            Err(e) => {
                self.words.error = Some(e);
            },
        }
    }

    /// What could not be written is reported.
    pub fn save_failed(&mut self, reason: &str)
        ensures
            final(self)@ == old(self)@.with_error(
                Some("Could not save filter history: "@ + reason@),
            ),
    {
        let mut s = "Could not save filter history: ".to_string();
        s.append(reason);
        self.words.error = Some(s);
    }

    fn log_line(&mut self, line: String)
        ensures
            final(self).run.running == old(self).run.running,
            final(self).run.done == old(self).run.done,
            final(self).run.total == old(self).run.total,
            final(self).run.current == old(self).run.current,
            views(final(self).run.log@) == logged(views(old(self).run.log@), line@),
            final(self).known == old(self).known,
            final(self).pick == old(self).pick,
            final(self).filter == old(self).filter,
            final(self).count == old(self).count,
            final(self).shown == old(self).shown,
            final(self).words == old(self).words,
    {
        push_logged(&mut self.run.log, line);
    }

    /// Takes in a live event of the run.
    pub fn apply_progress(&mut self, event: DiffEvent)
        ensures
            final(self)@ == old(self)@.received(Msg::Progress(event)),
    {
        match event {
            DiffEvent::Progress { action, done, total, rel_path } => {
                let mut line = match action {
                    DiffAction::Copy => "Copied".to_string(),
                    DiffAction::Move => "Moved".to_string(),
                    DiffAction::Delete => "Deleted".to_string(),
                };
                line.append(" ");
                line.append(rel_path.as_str());
                self.log_line(line);
                self.run.done = done;
                self.run.total = total;
                self.run.current = rel_path;
            },
            DiffEvent::Error { path, message } => {
                let mut line = "✗ ".to_string();
                line.append(path.as_str());
                line.append(": ");
                line.append(message.as_str());
                self.log_line(line);
            },
        }
    }

    fn finish_run(&mut self, result: OpResult)
        ensures
            final(self)@ == old(self)@.received(Msg::Done(result)),
    {
        self.run.running = false;
        match result {
            OpResult::Error(e) => {
                self.words.error = Some(e);
            },
            OpResult::Copied { copied, cancelled, moved } => {
                let verb = if moved {
                    "Moved "
                } else {
                    "Copied "
                };
                self.words.status = Some(done_text(verb, copied, cancelled));
                self.words.error = None;
            },
            OpResult::Deleted { deleted, cancelled } => {
                self.words.status = Some(done_text("Deleted ", deleted, cancelled));
                self.words.error = None;
            },
        }
    }

    fn history_io(&mut self, io: HistoryIo) -> (r: bool)
        ensures
            final(self)@ == old(self)@.received(Msg::History(io)),
            r == (io is Imported),
    {
        match io {
            HistoryIo::Imported(history) => {
                self.filter.history.merge(history);
                self.words.status = Some("Imported filter history.".to_string());
                self.words.error = None;
                true
            },
            HistoryIo::Exported(path) => {
                let mut s = "Exported filter history to ".to_string();
                s.append(path.as_str());
                s.append(".");
                self.words.status = Some(s);
                self.words.error = None;
                false
            },
            HistoryIo::Failed(e) => {
                self.words.error = Some(e);
                false
            },
        }
    }

    /// Takes in a message. Returns whether the history is to be written to disk.
    pub fn drain(&mut self, msg: Msg) -> (r: bool)
        ensures
            final(self)@ == old(self)@.received(msg),
            r == (msg matches Msg::History(io) && io is Imported),
    {
        match msg {
            Msg::Progress(event) => {
                self.apply_progress(event);
                false
            },
            Msg::Done(result) => {
                self.finish_run(result);
                false
            },
            Msg::History(io) => self.history_io(io),
            Msg::Subdir(picked) => {
                match picked {
                    Ok(path) => {
                        self.pick.subdir = path;
                        self.words.error = None;
                        self.clear_preview();
                    },
                    Err(e) => {
                        self.words.error = Some(e);
                    },
                }
                false
            },
            Msg::Counted(token, result) => {
                if token == self.count.token {
                    self.count.in_flight = false;
                    self.count.result = result;
                }
                false
            },
        }
    }

    /// Sets a condition's value as typed or picked. Returns whether the condition
    /// is there.
    pub fn set_value(&mut self, i: usize, value: &str) -> (r: bool)
        ensures
            r == (i < old(self)@.filter.conds.len()),
            final(self)@ == old(self)@.with_conds(
                if i < old(self)@.filter.conds.len() {
                    old(self)@.filter.conds.update(
                        i as int,
                        CondModel { value: value@, ..old(self)@.filter.conds[i as int] },
                    )
                } else {
                    old(self)@.filter.conds
                },
            ),
    {
        if i < self.filter.conds.len() {
            let ghost start = conds_view(self.filter.conds@);
            let ghost was = self.filter.conds@;
            self.filter.conds[i].value = copy(value);
            proof {
                let wanted = start.update(
                    i as int,
                    CondModel { value: value@, ..start[i as int] },
                );
                assert forall|k: int| 0 <= k < wanted.len() implies #[trigger] conds_view(
                    self.filter.conds@,
                )[k] == wanted[k] by {
                    if k != i {
                        assert(self.filter.conds@[k] == was[k]);
                    }
                }
                assert(conds_view(self.filter.conds@) =~= wanted);
            }
            true
        } else {
            false
        }
    }

    fn count_label(&self) -> (r: Option<String>)
        ensures
            opt_view(r) == count_text(self@.count),
    {
        match self.count.result {
            Some(n) => {
                let mut s = decimal(n as u128);
                s.append(" files match");
                Some(s)
            },
            None => if self.count.deadline.is_some() || self.count.in_flight {
                Some("counting…".to_string())
            } else {
                None
            },
        }
    }

    /// What the inline editor of a condition shows: its field, the live count for a
    /// name, and the suggestions that the typed text leaves.
    pub fn cond_editor(&self, i: usize) -> (r: Option<CondEditor>)
        ensures
            (r is Some) == (i < self@.filter.conds.len()),
            r matches Some(e) ==> {
                let c = self@.filter.conds[i as int];
                &&& e.label@ == crate::file_filter::label_text(c.kind) + ":"@
                &&& e.hint@ == match c.kind {
                    FilterKind::Mime => "image/"@,
                    FilterKind::Name => "substring"@,
                    FilterKind::Size => ">=1000"@,
                }
                &&& opt_view(e.count) == if c.kind == FilterKind::Name && self@.pick.source
                    is Some {
                    count_text(self@.count)
                } else {
                    None
                }
                &&& stats_view(e.mime_picks@) == if c.kind == FilterKind::Mime {
                    first_picks(self@.known.mime_stats, c.value)
                } else {
                    Seq::empty()
                }
                &&& views(e.recent@) == self@.filter.history.list(c.kind)
            },
    {
        if i >= self.filter.conds.len() {
            return None;
        }
        let c = &self.filter.conds[i];
        let mut label = copy(c.kind.label());
        label.append(":");
        let count = if c.kind == FilterKind::Name && self.pick.source.is_some() {
            self.count_label()
        } else {
            None
        };
        let mime_picks = if c.kind == FilterKind::Mime {
            pick_stats(&self.known.mime_stats, c.value.as_str())
        } else {
            Vec::new()
        };
        assert(c.kind != FilterKind::Mime ==> stats_view(mime_picks@) =~= Seq::empty());
        Some(
            CondEditor {
                label,
                hint: c.kind.hint(),
                count,
                mime_picks,
                recent: copy_list(self.filter.history.for_kind(c.kind)),
            },
        )
    }

    fn preset_list(&self) -> (r: Vec<String>)
        ensures
            views(r@) == preset_names(self@.filter.history.presets),
    {
        let ghost all = preset_names(self@.filter.history.presets);
        let mut out: Vec<String> = Vec::new();
        let mut i: usize = 0;
        assert(views(out@) =~= all.take(0));
        while i < self.filter.history.presets.len()
            invariant
                i <= self.filter.history.presets@.len(),
                all == preset_names(self@.filter.history.presets),
                views(out@) == all.take(i as int),
            decreases self.filter.history.presets@.len() - i,
        {
            let ghost was = out@;
            out.push(self.filter.history.presets[i].name.clone());
            assert(views(out@) =~= views(was).push(all[i as int]));
            i += 1;
            assert(views(out@) =~= all.take(i as int));
        }
        assert(all.take(i as int) =~= all);
        out
    }

    /// What the filter's bar shows. The presets' row is hidden while there is
    /// neither a preset nor a condition, and none is being added.
    pub fn filter_bar(&self) -> (r: FilterBar)
        ensures
            chips_view(r.chips@) == chips_of(self@.filter.conds),
            r.editing == editing_at(self@.filter.conds),
            r.can_clear == (self@.filter.conds.len() > 0),
            (r.presets is Some) == (self@.filter.adding || self@.filter.conds.len() > 0
                || self@.filter.history.presets.len() > 0),
            r.presets matches Some(names) ==> views(names@) == preset_names(
                self@.filter.history.presets,
            ),
            r.savable == (to_save(self@.filter.conds).len() > 0),
    {
        let ghost all = self@.filter.conds;
        let conds = &self.filter.conds;
        let mut chips: Vec<(String, bool)> = Vec::new();
        let mut editing: Option<usize> = None;
        let mut i: usize = 0;
        assert(chips_view(chips@) =~= chips_of(all).take(0));
        while i < conds.len()
            invariant
                i <= conds@.len(),
                all == conds_view(conds@),
                chips_view(chips@) == chips_of(all).take(i as int),
                editing == editing_at(all.take(i as int)),
            decreases conds@.len() - i,
        {
            let ghost was = chips@;
            assert(all.take(i + 1).drop_last() =~= all.take(i as int));
            assert(all.take(i + 1).last() == conds@[i as int]@);
            if conds[i].editing {
                editing = Some(i);
            }
            let mut text = copy(conds[i].kind.label());
            text.append(": ");
            let value = trim(conds[i].value.as_str());
            if value.as_str().is_empty() {
                text.append("…");
            } else {
                text.append(value.as_str());
            }
            let ghost chip = (text@, conds@[i as int].editing);
            assert(chip.0 =~= chip_text(all[i as int]));
            chips.push((text, conds[i].editing));
            assert(chips_view(chips@) =~= chips_view(was).push(chip));
            i += 1;
            assert(chips_view(chips@) =~= chips_of(all).take(i as int));
        }
        assert(chips_of(all).take(i as int) =~= chips_of(all));
        assert(all.take(i as int) =~= all);
        assert(self@.filter.history.presets.len() == self.filter.history.presets@.len());
        let presets = if self.filter.adding || conds.len() > 0 || self.filter.history.presets.len()
            > 0 {
            Some(self.preset_list())
        } else {
            None
        };
        let saved = saved_conds(conds);
        assert(crate::file_filter::saved_view(saved@).len() == saved@.len());
        FilterBar { chips, editing, can_clear: conds.len() > 0, presets, savable: saved.len() > 0 }
    }

    /// What the run's panel says: the file in hand, and how far the run is.
    pub fn run_lines(&self) -> (r: (String, String))
        ensures
            r.0@ == if self@.run.current.len() == 0 {
                "preparing…"@
            } else {
                self@.run.current
            },
            r.1@ == "Processed "@ + dec(self@.run.done as nat) + if self@.run.total > 0 {
                " / "@ + dec(self@.run.total as nat)
            } else {
                Seq::empty()
            },
    {
        let current = if self.run.current.as_str().is_empty() {
            "preparing…".to_string()
        } else {
            self.run.current.clone()
        };
        let mut s = "Processed ".to_string();
        push_decimal(&mut s, self.run.done as u128);
        if self.run.total > 0 {
            s.append(" / ");
            push_decimal(&mut s, self.run.total as u128);
        }
        assert(s@ =~= "Processed "@ + dec(self@.run.done as nat) + if self@.run.total > 0 {
            " / "@ + dec(self@.run.total as nat)
        } else {
            Seq::empty()
        });
        (current, s)
    }

    /// What the preview says above its rows.
    pub fn preview_line(&self) -> (r: String)
        ensures
            r@ == if self@.shown.rows.len() == 0 {
                "Pick a source, a target and a command, then press PREVIEW."@
            } else {
                dec(self@.shown.total as nat) + " file(s) match · showing first "@ + dec(
                    self@.shown.rows.len(),
                )
            },
    {
        assert(self@.shown.rows.len() == self.shown.rows@.len());
        if self.shown.rows.len() == 0 {
            "Pick a source, a target and a command, then press PREVIEW.".to_string()
        } else {
            let mut s = decimal(self.shown.total as u128);
            s.append(" file(s) match · showing first ");
            push_decimal(&mut s, self.shown.rows.len() as u128);
            s
        }
    }
}

fn kept_pick(pick: &Option<String>, repos: &Vec<String>) -> (r: Option<String>)
    ensures
        opt_view(r) == crate::grooming_view::still_there(opt_view(*pick), views(repos@)),
{
    match pick {
        Some(name) => if is_taken(repos, name) {
            Some(name.clone())
        } else {
            None
        },
        None => None,
    }
}

fn push_logged(log: &mut Vec<String>, line: String)
    ensures
        views(final(log)@) == logged(views(old(log)@), line@),
{
    let ghost start = views(log@);
    let ghost text = line@;
    log.push(line);
    let ghost all = start.push(text);
    assert(views(log@) =~= all);
    let ghost mut gone: int = 0;
    assert(all.skip(0) =~= all);
    while log.len() > RUN_LOG_LIMIT
        invariant
            0 <= gone <= all.len(),
            views(log@) == all.skip(gone),
            log@.len() == all.len() - gone,
            gone > 0 ==> log@.len() >= RUN_LOG_LIMIT,
        decreases log@.len(),
    {
        let ghost was = log@;
        let _oldest = log.remove(0);
        proof {
            assert(views(log@) =~= views(was).remove(0));
            assert(views(was).remove(0) =~= all.skip(gone + 1));
            gone = gone + 1;
        }
    }
    assert(views(log@) =~= logged(start, text));
}

fn done_text(verb: &str, n: u64, cancelled: bool) -> (r: String)
    ensures
        r@ == verb@ + dec(n as nat) + " file(s)"@ + (if cancelled {
            " (cancelled)"@
        } else {
            ""@
        }) + "."@,
{
    let mut s = copy(verb);
    push_decimal(&mut s, n as u128);
    s.append(" file(s)");
    if cancelled {
        s.append(" (cancelled)");
    } else {
        s.append("");
    }
    s.append(".");
    s
}

/// What copying and moving list: every file that the references lack, once and in
/// order, on its way from the source into the folder of the target; and no other.
pub proof fn law_copying_lists_what_the_target_lacks(
    items: Seq<DiffItem>,
    source: Seq<char>,
    target: Seq<char>,
    folder: Seq<char>,
)
    ensures
        picks(
            items,
            all_rows(items, false, source, target, folder),
            |item: DiffItem| item is New,
            |item: DiffItem|
                match item {
                    DiffItem::New { rel_path } => (
                        source + "/"@ + rel_path@,
                        if folder.len() == 0 {
                            target + "/"@ + rel_path@
                        } else {
                            target + "/"@ + folder + "/"@ + rel_path@
                        },
                    ),
                    DiffItem::Equal { rel_path, .. } => (
                        source + "/"@ + rel_path@,
                        "✗ delete (already in target)"@,
                    ),
                    DiffItem::DeletedInReference { rel_path } => (
                        source + "/"@ + rel_path@,
                        "✗ delete (already in target)"@,
                    ),
                },
        ),
    decreases items.len(),
{
    let keep = |item: DiffItem| item is New;
    let give = |item: DiffItem|
        match item {
            DiffItem::New { rel_path } => (
                source + "/"@ + rel_path@,
                if folder.len() == 0 {
                    target + "/"@ + rel_path@
                } else {
                    target + "/"@ + folder + "/"@ + rel_path@
                },
            ),
            DiffItem::Equal { rel_path, .. } => (
                source + "/"@ + rel_path@,
                "✗ delete (already in target)"@,
            ),
            DiffItem::DeletedInReference { rel_path } => (
                source + "/"@ + rel_path@,
                "✗ delete (already in target)"@,
            ),
        };
    let rows = all_rows(items, false, source, target, folder);
    if items.len() == 0 {
        lemma_picks_nothing(items, rows, keep, give);
    } else {
        let part = items.drop_last();
        law_copying_lists_what_the_target_lacks(part, source, target, folder);
        lemma_picks_last(
            items,
            all_rows(part, false, source, target, folder),
            rows,
            keep,
            give,
        );
    }
}

/// What deleting lists: every file whose content the references have or once had,
/// once and in order, as one that goes from the source; and no other.
pub proof fn law_deleting_lists_what_the_target_has(
    items: Seq<DiffItem>,
    source: Seq<char>,
    target: Seq<char>,
    folder: Seq<char>,
)
    ensures
        picks(
            items,
            all_rows(items, true, source, target, folder),
            |item: DiffItem| !(item is New),
            |item: DiffItem|
                match item {
                    DiffItem::New { rel_path } => (
                        source + "/"@ + rel_path@,
                        if folder.len() == 0 {
                            target + "/"@ + rel_path@
                        } else {
                            target + "/"@ + folder + "/"@ + rel_path@
                        },
                    ),
                    DiffItem::Equal { rel_path, .. } => (
                        source + "/"@ + rel_path@,
                        "✗ delete (already in target)"@,
                    ),
                    DiffItem::DeletedInReference { rel_path } => (
                        source + "/"@ + rel_path@,
                        "✗ delete (already in target)"@,
                    ),
                },
        ),
    decreases items.len(),
{
    let keep = |item: DiffItem| !(item is New);
    let give = |item: DiffItem|
        match item {
            DiffItem::New { rel_path } => (
                source + "/"@ + rel_path@,
                if folder.len() == 0 {
                    target + "/"@ + rel_path@
                } else {
                    target + "/"@ + folder + "/"@ + rel_path@
                },
            ),
            DiffItem::Equal { rel_path, .. } => (
                source + "/"@ + rel_path@,
                "✗ delete (already in target)"@,
            ),
            DiffItem::DeletedInReference { rel_path } => (
                source + "/"@ + rel_path@,
                "✗ delete (already in target)"@,
            ),
        };
    let rows = all_rows(items, true, source, target, folder);
    if items.len() == 0 {
        lemma_picks_nothing(items, rows, keep, give);
    } else {
        let part = items.drop_last();
        law_deleting_lists_what_the_target_has(part, source, target, folder);
        lemma_picks_last(
            items,
            all_rows(part, true, source, target, folder),
            rows,
            keep,
            give,
        );
    }
}

/// A comparison shows what the picked command will do: under COPY and MOVE the files
/// that the target lacks, under DELETE those that it has. All are counted, and the
/// first of them are shown.
pub proof fn law_a_comparison_is_of_the_picked_command(
    m: FilesModel,
    items: Vec<DiffItem>,
    ask: bool,
    i: int,
)
    requires
        m.pick.source is Some,
        m.pick.target is Some,
        items@.len() <= usize::MAX,
    ensures
        ({
            let r = m.compared(Ok(items), ask);
            let source = m.pick.source->0;
            let target = m.pick.target->0;
            let folder = folder_of(m.pick.subdir);
            let lacked = all_rows(items@, false, source, target, folder);
            let had = all_rows(items@, true, source, target, folder);
            &&& m.pick.command == Command::Copy ==> r.shown.total == lacked.len()
            &&& m.pick.command == Command::Move ==> r.shown.total == lacked.len()
            &&& m.pick.command == Command::Delete ==> r.shown.total == had.len()
            &&& r.shown.rows.len() == if r.shown.total <= PREVIEW_LIMIT {
                r.shown.total as int
            } else {
                PREVIEW_LIMIT as int
            }
            &&& 0 <= i < r.shown.rows.len() ==> {
                &&& m.pick.command == Command::Copy ==> r.shown.rows[i] == lacked[i]
                &&& m.pick.command == Command::Move ==> r.shown.rows[i] == lacked[i]
                &&& m.pick.command == Command::Delete ==> r.shown.rows[i] == had[i]
            }
            &&& r.words.error is None
            &&& r.words.status is Some
            &&& ask ==> r.words.confirm is Some
            &&& !ask ==> r.words.confirm == m.words.confirm
            &&& r.pick == m.pick
            &&& r.filter == m.filter
            &&& r.run == m.run
        }),
{
    let source = m.pick.source->0;
    let target = m.pick.target->0;
    let folder = folder_of(m.pick.subdir);
    lemma_all_rows_len(items@, false, source, target, folder);
    lemma_all_rows_len(items@, true, source, target, folder);
}

proof fn lemma_all_rows_len(
    items: Seq<DiffItem>,
    deleting: bool,
    source: Seq<char>,
    target: Seq<char>,
    folder: Seq<char>,
)
    ensures
        all_rows(items, deleting, source, target, folder).len() <= items.len(),
    decreases items.len(),
{
    if items.len() > 0 {
        lemma_all_rows_len(items.drop_last(), deleting, source, target, folder);
    }
}

/// Under COPY and MOVE every shown row is a file that the target lacks, and under
/// DELETE every shown row is one that it has.
pub proof fn law_no_command_touches_the_wrong_file(
    m: FilesModel,
    items: Vec<DiffItem>,
    ask: bool,
    i: int,
) -> (k: int)
    requires
        m.pick.source is Some,
        m.pick.target is Some,
        items@.len() <= usize::MAX,
        0 <= i < m.compared(Ok(items), ask).shown.rows.len(),
    ensures
        0 <= k < items@.len(),
        (items@[k] is New) == (m.pick.command != Command::Delete),
        ({
            let path = match items@[k] {
                DiffItem::New { rel_path } => rel_path@,
                DiffItem::Equal { rel_path, .. } => rel_path@,
                DiffItem::DeletedInReference { rel_path } => rel_path@,
            };
            m.compared(Ok(items), ask).shown.rows[i].0 == m.pick.source->0 + "/"@ + path
        }),
{
    let source = m.pick.source->0;
    let target = m.pick.target->0;
    let folder = folder_of(m.pick.subdir);
    law_a_comparison_is_of_the_picked_command(m, items, ask, i);
    let deleting = m.pick.command == Command::Delete;
    lemma_row_at(items@, deleting, source, target, folder, i)
}

proof fn lemma_row_at(
    items: Seq<DiffItem>,
    deleting: bool,
    source: Seq<char>,
    target: Seq<char>,
    folder: Seq<char>,
    i: int,
) -> (k: int)
    requires
        0 <= i < all_rows(items, deleting, source, target, folder).len(),
    ensures
        0 <= k < items.len(),
        (items[k] is New) != deleting,
        all_rows(items, deleting, source, target, folder)[i] == row_of(
            items[k],
            source,
            target,
            folder,
        ),
    decreases items.len(),
{
    let part = items.drop_last();
    if i < all_rows(part, deleting, source, target, folder).len() {
        lemma_row_at(part, deleting, source, target, folder, i)
    } else {
        items.len() - 1
    }
}

/// A comparison that failed says why and shows what was shown before.
pub proof fn law_a_failed_comparison_shows_nothing_new(m: FilesModel, e: String, ask: bool)
    requires
        m.pick.source is Some,
        m.pick.target is Some,
    ensures
        m.compared(Err(e), ask).words.error == Some(e@),
        m.compared(Err(e), ask).shown == m.shown,
        m.compared(Err(e), ask).pick == m.pick,
{
}

/// The folder that files go into has no slash and no white space at its ends where
/// it is not empty, and it is a part of what was typed.
pub proof fn law_a_folder_is_bare(subdir: Seq<char>) -> (from: int)
    ensures
        0 <= from <= from + folder_of(subdir).len() <= subdir.len(),
        folder_of(subdir) == subdir.subrange(from, from + folder_of(subdir).len()),
        folder_of(subdir).len() > 0 ==> folder_of(subdir)[0] != '/' && folder_of(subdir).last()
            != '/',
        forall|k: int|
            0 <= k < from || from + folder_of(subdir).len() <= k < subdir.len() ==> is_white(
                #[trigger] subdir[k],
            ) || subdir[k] == '/',
{
    let t = trimmed(subdir);
    let a = law_trimming_takes_white_space_only(subdir);
    lemma_no_lead(t);
    lemma_no_tail(no_lead(t));
    let lead = t.len() - no_lead(t).len();
    let f = folder_of(subdir);
    let from = a + lead;
    assert forall|k: int|
        0 <= k < from || from + f.len() <= k < subdir.len() implies is_white(
        #[trigger] subdir[k],
    ) || subdir[k] == '/' by {
        if a <= k < a + t.len() {
            assert(t[k - a] == subdir[k]);
            if k < from {
            } else {
                assert(no_lead(t)[k - from] == t[k - a]);
            }
        }
    }
    assert(f == subdir.subrange(from, from + f.len()));
    from
}

proof fn lemma_no_lead(s: Seq<char>)
    ensures
        no_lead(s).len() <= s.len(),
        no_lead(s) == s.skip(s.len() - no_lead(s).len()),
        no_lead(s).len() > 0 ==> no_lead(s)[0] != '/',
        forall|k: int| 0 <= k < s.len() - no_lead(s).len() ==> #[trigger] s[k] == '/',
    decreases s.len(),
{
    if s.len() > 0 && s[0] == '/' {
        let rest = s.drop_first();
        lemma_no_lead(rest);
        assert forall|k: int| 0 <= k < s.len() - no_lead(s).len() implies #[trigger] s[k]
            == '/' by {
            if k > 0 {
                assert(rest[k - 1] == s[k]);
            }
        }
    }
}

proof fn lemma_no_tail(s: Seq<char>)
    ensures
        no_tail(s).len() <= s.len(),
        no_tail(s) == s.take(no_tail(s).len() as int),
        no_tail(s).len() > 0 ==> no_tail(s).last() != '/',
        forall|k: int| no_tail(s).len() <= k < s.len() ==> #[trigger] s[k] == '/',
    decreases s.len(),
{
    if s.len() > 0 && s.last() == '/' {
        let rest = s.drop_last();
        lemma_no_tail(rest);
        assert forall|k: int| no_tail(s).len() <= k < s.len() implies #[trigger] s[k] == '/' by {
            if k < rest.len() {
                assert(rest[k] == s[k]);
            }
        }
    }
}

/// The references that a comparison and a run take: the target first, and then the
/// further ones in order, neither the source nor the target among them.
pub proof fn law_references_start_with_the_target(m: FilesModel, target: Seq<char>)
    ensures
        m.references(target)[0] == target,
        picks(
            m.pick.extra_refs,
            m.references(target).skip(1),
            |name: Seq<char>| name != target && m.pick.source != Some(name),
            |name: Seq<char>| name,
        ),
{
    lemma_other_refs(m.pick.extra_refs, m.pick.source, target);
    assert(m.references(target).skip(1) =~= other_refs(
        m.pick.extra_refs,
        m.pick.source,
        target,
    ));
}

proof fn lemma_other_refs(refs: Texts, source: Option<Seq<char>>, target: Seq<char>)
    ensures
        picks(
            refs,
            other_refs(refs, source, target),
            |name: Seq<char>| name != target && source != Some(name),
            |name: Seq<char>| name,
        ),
    decreases refs.len(),
{
    let keep = |name: Seq<char>| name != target && source != Some(name);
    let give = |name: Seq<char>| name;
    if refs.len() == 0 {
        lemma_picks_nothing(refs, other_refs(refs, source, target), keep, give);
    } else {
        let part = refs.drop_last();
        lemma_other_refs(part, source, target);
        lemma_picks_last(
            refs,
            other_refs(part, source, target),
            other_refs(refs, source, target),
            keep,
            give,
        );
    }
}

/// A comparison and a run are of what is picked, and are asked for exactly where both
/// repositories are.
pub proof fn law_work_is_on_what_is_picked(m: FilesModel, name: String)
    ensures
        m.pick.source is None || m.pick.target is None ==> {
            &&& m.work(Act::Preview) is Nothing
            &&& m.work(Act::Ask) is Nothing
            &&& m.work(Act::Confirm) is Nothing
        },
        m.pick.source is Some && m.pick.target is Some ==> {
            &&& m.work(Act::Preview) matches WorkModel::Compare { source, references, filter, ask }
            &&& source == m.pick.source->0
            &&& references == m.references(m.pick.target->0)
            &&& filter == composed(m.filter.conds)
            &&& !ask
        },
        m.pick.source is Some && m.pick.target is Some ==> {
            &&& m.work(Act::Ask) matches WorkModel::Compare { source, references, filter, ask }
            &&& source == m.pick.source->0
            &&& references == m.references(m.pick.target->0)
            &&& filter == composed(m.filter.conds)
            &&& ask
        },
        m.pick.source is Some && m.pick.target is Some ==> {
            &&& m.work(Act::Confirm) matches WorkModel::Run {
                command,
                source,
                target,
                references,
                filter,
                subdir,
            }
            &&& command == m.pick.command
            &&& source == m.pick.source->0
            &&& target == m.pick.target->0
            &&& references == m.references(target)
            &&& filter == composed(m.filter.conds)
            &&& (subdir is None) == (folder_of(m.pick.subdir).len() == 0)
            &&& subdir matches Some(s) ==> s == folder_of(m.pick.subdir)
        },
        m.work(Act::MarkSourceDone) == match m.pick.source {
            Some(s) => WorkModel::MarkDone(s),
            None => WorkModel::Nothing,
        },
        m.work(Act::BrowseSubdir) == match m.pick.target {
            Some(t) => WorkModel::Browse(t),
            None => WorkModel::Nothing,
        },
        m.work(Act::Reload) is Reload,
        m.work(Act::CancelRun) is CancelRun,
        m.work(Act::ExportHistory) is ExportHistory,
        m.work(Act::ImportHistory) is ImportHistory,
        m.work(Act::PickSource(name)) == WorkModel::ReadMime(name@),
{
}

/// A click that only changes what is set up asks for no work.
pub proof fn law_other_clicks_make_no_work(m: FilesModel, act: Act)
    requires
        !(act is PickSource),
        !(act is MarkSourceDone),
        !(act is ExportHistory),
        !(act is ImportHistory),
        !(act is BrowseSubdir),
        !(act is Reload),
        !(act is Preview),
        !(act is Ask),
        !(act is Confirm),
        !(act is CancelRun),
    ensures
        m.work(act) is Nothing,
{
}

/// The question before a run names the number of files, the source and where they go,
/// and says of a move and of a deletion what is lost.
pub proof fn law_the_question_says_what_is_at_stake(m: FilesModel)
    requires
        m.pick.source is Some,
        m.pick.target is Some,
    ensures
        ({
            let what = dec(m.shown.total as nat) + " file(s) from '"@ + m.pick.source->0;
            let folder = folder_of(m.pick.subdir);
            let dest = if folder.len() == 0 {
                m.pick.target->0
            } else {
                m.pick.target->0 + "/"@ + folder
            };
            &&& m.prompt() matches Some(q)
            &&& m.pick.command == Command::Copy ==> q == "Copy "@ + what + "' into '"@ + dest
                + "'?"@
            &&& m.pick.command == Command::Move ==> q == "Move "@ + what + "' into '"@ + dest
                + "'? They are removed from the source directory."@
            &&& m.pick.command == Command::Delete ==> q == "Delete "@ + what
                + "' that already exist in '"@ + m.pick.target->0 + "'? This cannot be undone."@
        }),
{
    let n = dec(m.shown.total as nat);
    let source = m.pick.source->0;
    assert("Copy "@ + n + " file(s) from '"@ + source =~= "Copy "@ + (n + " file(s) from '"@
        + source));
    assert("Move "@ + n + " file(s) from '"@ + source =~= "Move "@ + (n + " file(s) from '"@
        + source));
    assert("Delete "@ + n + " file(s) from '"@ + source =~= "Delete "@ + (n + " file(s) from '"@
        + source));
}

/// Picking a repository picks that one, takes it out of the further references, and
/// drops the preview; picking a source drops a target of the same name.
pub proof fn law_a_pick_is_what_was_clicked(m: FilesModel, name: String, now: u64)
    ensures
        ({
            let s = m.after(Act::PickSource(name), now);
            &&& s.pick.source == Some(name@)
            &&& s.pick.target == if m.pick.target == Some(name@) {
                None
            } else {
                m.pick.target
            }
            &&& s.pick.command == m.pick.command
            &&& s.pick.subdir == m.pick.subdir
            &&& drops(m.pick.extra_refs, s.pick.extra_refs, name@)
            &&& s.shown.rows.len() == 0 && s.shown.total == 0
            &&& s.filter == m.filter
            &&& s.words == m.words
            &&& s.run == m.run
            &&& s.known == m.known
        }),
        ({
            let t = m.after(Act::PickTarget(name), now);
            &&& t.pick.target == Some(name@)
            &&& t.pick.source == m.pick.source
            &&& t.pick.command == m.pick.command
            &&& t.pick.subdir == m.pick.subdir
            &&& drops(m.pick.extra_refs, t.pick.extra_refs, name@)
            &&& t.shown.rows.len() == 0 && t.shown.total == 0
            &&& t.filter == m.filter
            &&& t.words == m.words
            &&& t.run == m.run
            &&& t.known == m.known
            &&& t.count == m.count
        }),
        ({
            let x = m.after(Act::ToggleExtraRef(name), now);
            &&& !m.pick.extra_refs.contains(name@) ==> x.pick.extra_refs == m.pick.extra_refs.push(
                name@,
            )
            &&& m.pick.extra_refs.contains(name@) ==> x.pick.extra_refs.len() + 1
                == m.pick.extra_refs.len()
            &&& x.pick.source == m.pick.source
            &&& x.pick.target == m.pick.target
            &&& x.pick.command == m.pick.command
            &&& x.pick.subdir == m.pick.subdir
            &&& x.shown.rows.len() == 0 && x.shown.total == 0
            &&& x.filter == m.filter
            &&& x.words == m.words
            &&& x.run == m.run
        }),
{
    law_dropping_leaves_the_others(m.pick.extra_refs, name@);
    crate::lists::law_switching_changes_one_name(m.pick.extra_refs, name@);
}

/// Whatever changes what a run would do drops the preview, so that no preview ever
/// shows another run.
pub proof fn law_a_changed_setup_drops_the_preview(m: FilesModel, act: Act, now: u64)
    ensures
        m.after(act, now).pick != m.pick ==> m.after(act, now).shown.rows.len() == 0 && m.after(
            act,
            now,
        ).shown.total == 0,
        act is SetCommand || act is SubdirChanged || act is FilterChanged || act is AddCond
            || act is RemoveCond || act is ClearConds ==> m.after(act, now).shown.rows.len() == 0
            && m.after(act, now).shown.total == 0,
        act matches Act::SetCommand(command) ==> m.after(act, now).pick.command == command
            && m.after(act, now).pick.source == m.pick.source && m.after(act, now).pick.target
            == m.pick.target && m.after(act, now).pick.extra_refs == m.pick.extra_refs && m.after(
            act,
            now,
        ).pick.subdir == m.pick.subdir,
        !(act is PickSource) && !(act is PickTarget) && !(act is ToggleExtraRef)
            && !(act is SetCommand) ==> m.after(act, now).pick == m.pick,
        m.after(act, now).known == m.known,
{
}

/// A new condition stands at the end, empty and open, and closes the other editors;
/// the conditions before it keep their kinds and values.
pub proof fn law_a_new_condition_is_open_at_the_end(
    m: FilesModel,
    kind: FilterKind,
    now: u64,
    k: int,
)
    ensures
        ({
            let was = m.filter.conds;
            let conds = m.after(Act::AddCond(kind), now).filter.conds;
            &&& conds.len() == was.len() + 1
            &&& conds.last().kind == kind
            &&& conds.last().value.len() == 0
            &&& conds.last().editing
            &&& 0 <= k < was.len() ==> conds[k].kind == was[k].kind && conds[k].value
                == was[k].value && !conds[k].editing
            &&& !m.after(Act::AddCond(kind), now).filter.adding
            &&& m.after(Act::AddCond(kind), now).filter.history == m.filter.history
        }),
{
}

/// Removing, editing, committing and clearing touch the conditions they say, and the
/// others stay.
pub proof fn law_conditions_change_one_by_one(m: FilesModel, i: usize, now: u64, k: int)
    ensures
        ({
            let was = m.filter.conds;
            let removed = m.after(Act::RemoveCond(i), now).filter.conds;
            let edited = m.after(Act::EditCond(i), now).filter.conds;
            let done = m.after(Act::CommitCond, now).filter.conds;
            &&& i >= was.len() ==> removed == was
            &&& i < was.len() ==> removed.len() + 1 == was.len()
            &&& i < was.len() && 0 <= k < i ==> removed[k] == was[k]
            &&& i < was.len() && i <= k < removed.len() ==> removed[k] == was[k + 1]
            &&& edited.len() == was.len()
            &&& 0 <= k < was.len() ==> edited[k].kind == was[k].kind && edited[k].value
                == was[k].value
            &&& 0 <= k < was.len() && k != i ==> !edited[k].editing
            &&& i < was.len() ==> edited[i as int].editing == !was[i as int].editing
            &&& done.len() == was.len()
            &&& 0 <= k < was.len() ==> done[k].kind == was[k].kind && done[k].value == was[k].value
                && !done[k].editing
            &&& m.after(Act::ClearConds, now).filter.conds.len() == 0
            &&& m.after(Act::ClearConds, now).filter.history == m.filter.history
            &&& m.after(Act::RemoveCond(i), now).filter.history == m.filter.history
        }),
{
}

/// A click on a preset gives its conditions, and one on its cross takes that preset
/// away and no other.
pub proof fn law_presets_are_applied_and_removed(m: FilesModel, i: usize, now: u64, k: int)
    ensures
        ({
            let presets = m.filter.history.presets;
            let applied = m.after(Act::ApplyPreset(i), now);
            let removed = m.after(Act::RemovePreset(i), now);
            &&& i < presets.len() ==> applied.filter.conds == restored(presets[i as int].conds)
                && applied.shown.rows.len() == 0 && applied.shown.total == 0
            &&& i >= presets.len() ==> applied == m && removed == m
            &&& applied.filter.history == m.filter.history
            &&& i < presets.len() ==> removed.filter.history.presets.len() + 1 == presets.len()
            &&& i < presets.len() && 0 <= k < i ==> removed.filter.history.presets[k] == presets[k]
            &&& i < presets.len() && i <= k < presets.len() - 1
                ==> removed.filter.history.presets[k] == presets[k + 1]
            &&& removed.filter.conds == m.filter.conds
            &&& removed.filter.history.mime == m.filter.history.mime
            &&& removed.filter.history.name == m.filter.history.name
            &&& removed.filter.history.size == m.filter.history.size
            &&& m.saves(Act::RemovePreset(i)) == (i < presets.len())
            &&& !m.saves(Act::ApplyPreset(i))
        }),
{
}

/// Saving a preset needs a name and a condition that says something; the preset is
/// then among the presets under the trimmed name, with the conditions as they are,
/// and the name field is empty for the next one.
pub proof fn law_a_saved_preset_is_there(m: FilesModel, now: u64)
    ensures
        ({
            let name = trimmed(m.filter.preset_name);
            let saved = to_save(m.filter.conds);
            let r = m.after(Act::SavePreset, now);
            &&& name.len() > 0 && saved.len() > 0 ==> {
                &&& r.filter.history.presets.contains((PresetModel { name, conds: saved }))
                &&& r.filter.preset_name.len() == 0
                &&& r.words.status is Some
                &&& r.filter.conds == m.filter.conds
                &&& m.saves(Act::SavePreset)
            }
            &&& name.len() == 0 || saved.len() == 0 ==> r == m && !m.saves(Act::SavePreset)
            &&& r.pick == m.pick
            &&& r.shown == m.shown
        }),
{
    let name = trimmed(m.filter.preset_name);
    let saved = to_save(m.filter.conds);
    let learned = m.filter.history.with_conds(restored(saved));
    crate::file_filter::law_a_placed_preset_is_there(
        learned.presets,
        PresetModel { name, conds: saved },
    );
}

/// A confirmed run starts from nothing: the question and the preview are gone, and so
/// is the log of the last run. Without both repositories nothing starts.
pub proof fn law_a_confirmed_run_starts_afresh(m: FilesModel, now: u64)
    ensures
        ({
            let r = m.after(Act::Confirm, now);
            &&& r.words.confirm is None
            &&& r.words.error == m.words.error
            &&& r.pick == m.pick
            &&& r.filter == m.filter
            &&& m.pick.source is Some && m.pick.target is Some ==> {
                &&& r.run.running
                &&& r.run.log.len() == 0
                &&& r.run.done == 0
                &&& r.run.total == 0
                &&& r.run.current.len() == 0
                &&& r.shown.rows.len() == 0
                &&& r.shown.total == 0
                &&& r.words.status is Some
            }
            &&& m.pick.source is None || m.pick.target is None ==> r.run == m.run && r.shown
                == m.shown
        }),
        ({
            let r = m.after(Act::CancelConfirm, now);
            &&& r.words.confirm is None
            &&& r.words.error == m.words.error
            &&& r.words.status == m.words.status
            &&& r.run == m.run
            &&& r.shown == m.shown
            &&& r.pick == m.pick
            &&& r.filter == m.filter
        }),
{
}

/// A comparison records the values of the conditions and forgets the last run.
pub proof fn law_a_comparison_records_its_conditions(m: FilesModel, act: Act, now: u64)
    requires
        act is Preview || act is Ask,
    ensures
        ({
            let r = m.after(act, now);
            &&& m.pick.source is Some && m.pick.target is Some ==> {
                &&& r.filter.history == m.filter.history.with_conds(m.filter.conds)
                &&& r.run.log.len() == 0
                &&& r.run.done == 0
                &&& r.run.total == 0
                &&& r.run.running == m.run.running
            }
            &&& m.pick.source is None || m.pick.target is None ==> r == m && !m.saves(act)
            &&& r.filter.conds == m.filter.conds
            &&& r.pick == m.pick
            &&& r.words == m.words
            &&& r.shown == m.shown
        }),
{
}

/// A match count is armed, a moment from now, exactly where a repository is picked and
/// a condition is on names, and whatever was counted before is gone.
pub proof fn law_a_changed_filter_is_counted_anew(m: FilesModel, now: u64)
    ensures
        ({
            let r = m.after(Act::FilterChanged, now);
            let named = exists|i: int|
                0 <= i < m.filter.conds.len() && (#[trigger] m.filter.conds[i]).kind
                    == FilterKind::Name;
            &&& r.count.result is None
            &&& (r.count.deadline is Some) == (m.pick.source is Some && named)
            &&& r.count.deadline matches Some(t) ==> now <= t && t - now <= COUNT_DEBOUNCE_MS
            &&& r.count.token == m.count.token
            &&& r.count.in_flight == m.count.in_flight
            &&& r.filter == m.filter
        }),
{
}

/// The log keeps the newest lines in order: the new one last, and before it as many of
/// the old ones as there is room for.
pub proof fn law_the_log_keeps_its_order(log: Texts, line: Seq<char>, k: int)
    requires
        log.len() <= RUN_LOG_LIMIT,
    ensures
        log.len() < RUN_LOG_LIMIT ==> logged(log, line) == log.push(line),
        log.len() == RUN_LOG_LIMIT ==> logged(log, line).len() == RUN_LOG_LIMIT && (0 <= k
            < RUN_LOG_LIMIT - 1 ==> logged(log, line)[k] == log[k + 1]),
{
}

/// A step of a run shows how far it is and which file it was on, and logs what was
/// done with that file.
pub proof fn law_progress_shows_the_file(
    m: FilesModel,
    action: DiffAction,
    done: u64,
    total: u64,
    rel_path: String,
)
    ensures
        ({
            let r = m.received(
                Msg::Progress(DiffEvent::Progress { action, done, total, rel_path }),
            );
            &&& r.run.done == done
            &&& r.run.total == total
            &&& r.run.current == rel_path@
            &&& r.run.running == m.run.running
            &&& r.run.log.len() > 0
            &&& action == DiffAction::Copy ==> r.run.log.last() == "Copied "@ + rel_path@
            &&& action == DiffAction::Move ==> r.run.log.last() == "Moved "@ + rel_path@
            &&& action == DiffAction::Delete ==> r.run.log.last() == "Deleted "@ + rel_path@
            &&& r.words == m.words
            &&& r.shown == m.shown
            &&& r.pick == m.pick
        }),
{
    reveal_strlit("Copied");
    reveal_strlit("Moved");
    reveal_strlit("Deleted");
    reveal_strlit("Copied ");
    reveal_strlit("Moved ");
    reveal_strlit("Deleted ");
    reveal_strlit(" ");
    assert("Copied"@ + " "@ =~= "Copied "@);
    assert("Moved"@ + " "@ =~= "Moved "@);
    assert("Deleted"@ + " "@ =~= "Deleted "@);
}

/// A file that failed is logged with its path and the reason, and counts nothing.
pub proof fn law_a_failed_file_is_logged(m: FilesModel, path: String, message: String)
    ensures
        ({
            let r = m.received(Msg::Progress(DiffEvent::Error { path, message }));
            &&& r.run.log.len() > 0
            &&& r.run.log.last() == "✗ "@ + path@ + ": "@ + message@
            &&& r.run.done == m.run.done
            &&& r.run.total == m.run.total
            &&& r.run.current == m.run.current
            &&& r.run.running == m.run.running
            &&& r.words == m.words
        }),
{
}

/// A run that ended is no longer under way, and says how it ended: a failure is an
/// error, everything else a status with the number of files.
pub proof fn law_the_end_of_a_run_is_told(m: FilesModel, result: OpResult)
    ensures
        ({
            let r = m.received(Msg::Done(result));
            &&& !r.run.running
            &&& r.run.log == m.run.log
            &&& r.run.done == m.run.done
            &&& result matches OpResult::Error(e) ==> r.words.error == Some(e@) && r.words.status
                == m.words.status
            &&& !(result is Error) ==> r.words.error is None
            &&& result matches OpResult::Copied { copied, cancelled, moved } ==> {
                &&& r.words.status matches Some(s)
                &&& s == (if moved {
                    "Moved "@
                } else {
                    "Copied "@
                }) + dec(copied as nat) + " file(s)"@ + (if cancelled {
                    " (cancelled)"@
                } else {
                    ""@
                }) + "."@
            }
            &&& result matches OpResult::Deleted { deleted, cancelled } ==> {
                &&& r.words.status matches Some(s)
                &&& s == "Deleted "@ + dec(deleted as nat) + " file(s)"@ + (if cancelled {
                    " (cancelled)"@
                } else {
                    ""@
                }) + "."@
            }
            &&& r.pick == m.pick
            &&& r.shown == m.shown
        }),
{
}

/// A count that comes back is taken where it is the newest, and dropped where it is
/// stale.
pub proof fn law_stale_counts_are_dropped(m: FilesModel, token: u64, result: Option<usize>)
    ensures
        token != m.count.token ==> m.received(Msg::Counted(token, result)) == m,
        token == m.count.token ==> m.received(Msg::Counted(token, result)).count.result == result
            && !m.received(Msg::Counted(token, result)).count.in_flight,
        m.received(Msg::Counted(token, result)).count.token == m.count.token,
        m.received(Msg::Counted(token, result)).count.deadline == m.count.deadline,
{
}

/// A picked folder is set and drops the preview; a refused one says why and changes
/// nothing else.
pub proof fn law_a_picked_folder_is_set(m: FilesModel, path: String)
    ensures
        ({
            let r = m.received(Msg::Subdir(Ok(path)));
            &&& r.pick.subdir == path@
            &&& r.pick.source == m.pick.source
            &&& r.pick.target == m.pick.target
            &&& r.pick.command == m.pick.command
            &&& r.words.error is None
            &&& r.shown.rows.len() == 0 && r.shown.total == 0
        }),
        ({
            let r = m.received(Msg::Subdir(Err(path)));
            &&& r.words.error == Some(path@)
            &&& r.pick == m.pick
            &&& r.shown == m.shown
        }),
        ({
            let r = m.received(Msg::History(HistoryIo::Failed(path)));
            &&& r.words.error == Some(path@)
            &&& r.filter == m.filter
        }),
        ({
            let r = m.received(Msg::History(HistoryIo::Exported(path)));
            &&& r.words.error is None
            &&& r.words.status == Some("Exported filter history to "@ + path@ + "."@)
            &&& r.filter == m.filter
        }),
{
}

/// After the repositories were read, what was picked and is gone is no longer picked;
/// what is still there stays. The history that was read counts the first time only.
pub proof fn law_a_reload_keeps_what_is_still_there(
    m: FilesModel,
    history: Option<FilterHistory>,
    listed: Vec<String>,
)
    ensures
        ({
            let r = m.reloaded(history, Ok(listed));
            let repos = views(listed@);
            &&& r.known.repos == repos
            &&& r.known.loaded
            &&& r.words.error is None
            &&& m.pick.source matches Some(s) ==> r.pick.source == if repos.contains(s) {
                Some(s)
            } else {
                None
            }
            &&& m.pick.target matches Some(t) ==> r.pick.target == if repos.contains(t) {
                Some(t)
            } else {
                None
            }
            &&& m.pick.source is None ==> r.pick.source is None
            &&& m.pick.target is None ==> r.pick.target is None
            &&& r.pick.source is None ==> r.known.mime_stats.len() == 0
            &&& r.pick.source is Some ==> r.known.mime_stats == m.known.mime_stats
            &&& r.pick.command == m.pick.command
            &&& r.pick.extra_refs == m.pick.extra_refs
            &&& m.known.loaded ==> r.filter.history == m.filter.history
            &&& !m.known.loaded ==> (history matches Some(h) ==> r.filter.history == h@)
            &&& !m.known.loaded && history is None ==> r.filter.history.presets.len() == 0
                && r.filter.history.mime.len() == 0 && r.filter.history.name.len() == 0
                && r.filter.history.size.len() == 0
            &&& r.run == m.run
            &&& r.shown == m.shown
        }),
{
}

/// A chip names the kind of its condition and shows its trimmed value, or an ellipsis
/// where there is none, and is open where the editor is.
pub proof fn law_a_chip_shows_its_condition(conds: Seq<CondModel>, i: int)
    requires
        0 <= i < conds.len(),
    ensures
        ({
            let c = conds[i];
            let label = if c.kind == FilterKind::Mime {
                "MIME"@
            } else if c.kind == FilterKind::Name {
                "NAME"@
            } else {
                "SIZE"@
            };
            &&& chips_of(conds).len() == conds.len()
            &&& chips_of(conds)[i].1 == c.editing
            &&& trimmed(c.value).len() > 0 ==> chips_of(conds)[i].0 == label + ": "@ + trimmed(
                c.value,
            )
            &&& trimmed(c.value).len() == 0 ==> chips_of(conds)[i].0 == label + ": "@ + "…"@
        }),
{
}

/// The editor that is shown is the last one open, and there is one exactly where an
/// editor is.
pub proof fn law_the_open_editor_is_shown(conds: Seq<CondModel>)
    requires
        conds.len() <= usize::MAX,
    ensures
        editing_at(conds) matches Some(i) ==> {
            &&& i < conds.len()
            &&& conds[i as int].editing
            &&& forall|k: int| i < k < conds.len() ==> !(#[trigger] conds[k]).editing
        },
        editing_at(conds) is None ==> forall|k: int|
            0 <= k < conds.len() ==> !(#[trigger] conds[k]).editing,
    decreases conds.len(),
{
    if conds.len() > 0 && !conds.last().editing {
        let part = conds.drop_last();
        law_the_open_editor_is_shown(part);
        assert forall|k: int|
            0 <= k < conds.len() && (editing_at(conds) is None || editing_at(conds)->0
                < k) implies !(#[trigger] conds[k]).editing by {
            if k < part.len() {
                assert(part[k] == conds[k]);
            }
        }
    }
}

/// The count beside a name condition is the number that was counted, and says that
/// counting is on where it is.
pub proof fn law_the_count_is_shown(count: Count)
    ensures
        count.result matches Some(n) ==> count_text(count) == Some(
            dec(n as nat) + " files match"@,
        ),
        count.result is None && (count.deadline is Some || count.in_flight) ==> count_text(count)
            == Some("counting…"@),
        count.result is None && count.deadline is None && !count.in_flight ==> count_text(
            count,
        ) is None,
{
}

/// The names on the preset row are those of the presets, in order.
pub proof fn law_presets_are_named_in_order(presets: Seq<PresetModel>, i: int)
    requires
        0 <= i < presets.len(),
    ensures
        preset_names(presets).len() == presets.len(),
        preset_names(presets)[i] == presets[i].name,
{
}

/// What the model says of a tab is what its fields hold.
pub proof fn law_the_model_holds_the_fields(v: FilesView)
    ensures
        v@.pick.source == opt_view(v.pick.source),
        v@.pick.target == opt_view(v.pick.target),
        v@.pick.extra_refs == views(v.pick.extra_refs@),
        v@.pick.command == v.pick.command,
        v@.pick.subdir == v.pick.subdir@,
        v@.filter.conds == conds_view(v.filter.conds@),
        v@.filter.preset_name == v.filter.preset_name@,
        v@.count == v.count,
        v@.shown.total == v.shown.total,
        v@.shown.rows.len() == v.shown.rows@.len(),
        forall|i: int|
            0 <= i < v.shown.rows@.len() ==> #[trigger] v@.shown.rows[i] == (
                v.shown.rows@[i].from@,
                v.shown.rows@[i].to@,
            ),
        v@.words.status == opt_view(v.words.status),
        v@.words.error == opt_view(v.words.error),
        v@.words.confirm == opt_view(v.words.confirm),
        v@.run.running == v.run.running,
        v@.run.done == v.run.done,
        v@.run.total == v.run.total,
        v@.run.current == v.run.current@,
        v@.run.log == views(v.run.log@),
        v@.known.repos == views(v.known.repos@),
        v@.known.loaded == v.known.loaded,
{
}

/// The commands are named after what they do.
pub proof fn law_commands_are_named_after_what_they_do()
    ensures
        Command::Copy.title() == "COPY"@,
        Command::Move.title() == "MOVE"@,
        Command::Delete.title() == "DELETE"@,
{
}

} // verus!
