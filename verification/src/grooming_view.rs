//! The grooming tab's state: which command is set up, what its plan showed, and
//! what a click makes of it. Work on disk is asked for as an [`Effect`].

use vstd::prelude::*;
use vstd::string::*;

use crate::board::{Cmd, RowBody, RowMeta};
use crate::filter_expr::composed;
use crate::filter_ui::{copy_list, opt_view, BuilderModel, FilterBuilder, FilterOutcome};
use crate::grooming_plan::{op_report, Command, OpResult, PreviewData};
use crate::lists::{
    drop_name, drops, known_of, law_dropping_leaves_the_others,
    law_switching_changes_one_name, lemma_dropped, lemma_picks_last, lemma_picks_nothing, picks,
    select_names, switch_name, switched, unknown_of,
};
use crate::naming::{next_name, next_preset_name};
use crate::notes::Note;
use crate::recent::{without, Texts};
use crate::row_keys::{KeyModel, KeySet, RowKey};
use crate::text::{
    chars_of, copy, copy_opt, dec, join, joined, lowercase, push_decimal, string_of, to_lowercase,
    trim, trimmed, views,
};

verus! {

/// The tokens offered beneath a rule's template: a label and the text it inserts.
pub fn template_tokens() -> (r: Vec<(&'static str, &'static str)>)
    ensures
        token_texts(r@) == all_tokens(),
{
    let mut v: Vec<(&'static str, &'static str)> = Vec::new();
    v.push(("o-path", "{o-path}"));
    v.push(("o-name", "{o-name}"));
    v.push(("o-stem", "{o-stem}"));
    v.push(("o-ext", "{o-ext}"));
    v.push(("year", "{year}"));
    v.push(("month", "{month}"));
    v.push(("day", "{day}"));
    v.push(("mimetop", "{mimetop}"));
    v.push(("camera", "{camera}"));
    v.push(("origin", "{origin}"));
    v.push(("size", "{size}"));
    v.push(("/", "/"));
    assert(token_texts(v@) =~= all_tokens());
    v
}

/// The texts of a token list.
pub open spec fn token_texts(v: Seq<(&'static str, &'static str)>) -> Seq<(Seq<char>, Seq<char>)> {
    Seq::new(v.len(), |i: int| (v[i].0@, v[i].1@))
}

/// The tokens of a path template.
pub open spec fn all_tokens() -> Seq<(Seq<char>, Seq<char>)> {
    seq![
        ("o-path"@, "{o-path}"@),
        ("o-name"@, "{o-name}"@),
        ("o-stem"@, "{o-stem}"@),
        ("o-ext"@, "{o-ext}"@),
        ("year"@, "{year}"@),
        ("month"@, "{month}"@),
        ("day"@, "{day}"@),
        ("mimetop"@, "{mimetop}"@),
        ("camera"@, "{camera}"@),
        ("origin"@, "{origin}"@),
        ("size"@, "{size}"@),
        ("/"@, "/"@),
    ]
}

/// One rule of a reorganisation: which files, and the template of their new path.
pub struct OrganizeRule {
    /// `None` matches every file.
    pub filter: Option<String>,
    pub template: String,
}

/// A rule's contents.
pub struct OrganizeModel {
    pub filter: Option<Seq<char>>,
    pub template: Seq<char>,
}

/// The contents of each rule of a list.
pub open spec fn rules_view(rules: Seq<OrganizeRule>) -> Seq<OrganizeModel> {
    Seq::new(
        rules.len(),
        |i: int|
            OrganizeModel { filter: opt_view(rules[i].filter), template: rules[i].template@ },
    )
}

/// A rule as it is being set up: a filter wizard and a template.
pub struct RuleUi {
    pub filter: FilterBuilder,
    pub template: String,
}

/// The contents of a rule being set up.
#[verifier::ext_equal]
pub struct RuleModel {
    pub filter: BuilderModel,
    pub template: Seq<char>,
}

impl View for RuleUi {
    type V = RuleModel;

    open spec fn view(&self) -> RuleModel {
        RuleModel { filter: self.filter@, template: self.template@ }
    }
}

/// The contents of each rule being set up.
pub open spec fn setup_view(rules: Seq<RuleUi>) -> Seq<RuleModel> {
    Seq::new(rules.len(), |i: int| rules[i]@)
}

impl RuleUi {
    /// A rule for every file, with this template.
    pub fn new(template: &str) -> (r: Self)
        ensures
            r@ == (RuleModel { filter: BuilderModel::fresh(), template: template@ }),
    {
        RuleUi { filter: FilterBuilder::new(), template: copy(template) }
    }
}

/// One rule of a saved preset.
#[derive(Debug)]
pub struct SavedRule {
    /// The filter expression; empty matches every file.
    pub filter: String,
    pub template: String,
}

/// A saved rule's contents.
pub struct SavedRuleModel {
    pub filter: Seq<char>,
    pub template: Seq<char>,
}

/// A saved, named list of rules.
#[derive(Debug)]
pub struct OrganizePreset {
    pub name: String,
    pub rules: Vec<SavedRule>,
}

/// A preset's contents.
#[verifier::ext_equal]
pub struct OrganizePresetModel {
    pub name: Seq<char>,
    pub rules: Seq<SavedRuleModel>,
}

/// The contents of each saved rule.
pub open spec fn saved_rules(rules: Seq<SavedRule>) -> Seq<SavedRuleModel> {
    Seq::new(
        rules.len(),
        |i: int| SavedRuleModel { filter: rules[i].filter@, template: rules[i].template@ },
    )
}

impl View for OrganizePreset {
    type V = OrganizePresetModel;

    open spec fn view(&self) -> OrganizePresetModel {
        OrganizePresetModel { name: self.name@, rules: saved_rules(self.rules@) }
    }
}

/// The contents of each preset.
pub open spec fn presets_of(presets: Seq<OrganizePreset>) -> Seq<OrganizePresetModel> {
    Seq::new(presets.len(), |i: int| presets[i]@)
}

/// The names of presets.
pub open spec fn names_of(presets: Seq<OrganizePresetModel>) -> Texts {
    Seq::new(presets.len(), |i: int| presets[i].name)
}

/// What a plan needs to know, taken from the controls when it starts.
pub enum PreviewSpec {
    Dedupe { source: String, pool: Vec<String>, filter: Option<String> },
    Purge { repo: String, filter: Option<String> },
    Prune { repo: String },
    Organize { repo: String, rules: Vec<OrganizeRule> },
}

/// The contents of a plan's order.
pub enum SpecModel {
    Dedupe { source: Seq<char>, pool: Texts, filter: Option<Seq<char>> },
    Purge { repo: Seq<char>, filter: Option<Seq<char>> },
    Prune { repo: Seq<char> },
    Organize { repo: Seq<char>, rules: Seq<OrganizeModel> },
}

impl View for PreviewSpec {
    type V = SpecModel;

    open spec fn view(&self) -> SpecModel {
        match self {
            PreviewSpec::Dedupe { source, pool, filter } => SpecModel::Dedupe {
                source: source@,
                pool: views(pool@),
                filter: opt_view(*filter),
            },
            PreviewSpec::Purge { repo, filter } => SpecModel::Purge {
                repo: repo@,
                filter: opt_view(*filter),
            },
            PreviewSpec::Prune { repo } => SpecModel::Prune { repo: repo@ },
            PreviewSpec::Organize { repo, rules } => SpecModel::Organize {
                repo: repo@,
                rules: rules_view(rules@),
            },
        }
    }
}

/// A run to be started.
pub struct RunOrder {
    pub command: Command,
    /// The repository that the run changes.
    pub repo: String,
    pub pool: Vec<String>,
    pub filter: Option<String>,
    pub rules: Vec<OrganizeRule>,
    /// Rows that the run leaves out.
    pub hidden: KeySet,
    /// The one row to carry out, where it is one.
    pub only: Option<RowKey>,
    pub title: String,
    /// The repositories that the run is shown for.
    pub repos: Vec<String>,
}

/// A run's contents.
pub struct RunModel {
    pub command: Command,
    pub repo: Seq<char>,
    pub pool: Texts,
    pub filter: Option<Seq<char>>,
    pub rules: Seq<OrganizeModel>,
    pub hidden: Set<KeyModel>,
    pub only: Option<KeyModel>,
    pub title: Seq<char>,
    pub repos: Texts,
}

/// The contents of an optional key.
pub open spec fn opt_key(key: Option<RowKey>) -> Option<KeyModel> {
    match key {
        Some(k) => Some(k@),
        None => None,
    }
}

impl View for RunOrder {
    type V = RunModel;

    open spec fn view(&self) -> RunModel {
        RunModel {
            command: self.command,
            repo: self.repo@,
            pool: views(self.pool@),
            filter: opt_view(self.filter),
            rules: rules_view(self.rules@),
            hidden: self.hidden@,
            only: opt_key(self.only),
            title: self.title@,
            repos: views(self.repos@),
        }
    }
}

/// What a click asks of the program around the tab.
pub enum Effect {
    Nothing,
    /// Write the presets to disk.
    SavePresets,
    /// Read the row's file from `repo`, and its counterpart, if there is one, from
    /// the first of `pool` that has it.
    ReadRow { repo: String, path: String, counterpart: Option<String>, pool: Vec<String> },
    /// Plan behind the activity window; `confirm` asks once the plan is in.
    Plan { order: PreviewSpec, repos: Vec<String>, title: String, confirm: bool },
    /// Run.
    Run(RunOrder),
}

/// The contents of an effect.
pub enum EffectModel {
    Nothing,
    SavePresets,
    ReadRow { repo: Seq<char>, path: Seq<char>, counterpart: Option<Seq<char>>, pool: Texts },
    Plan { order: SpecModel, repos: Texts, title: Seq<char>, confirm: bool },
    Run(RunModel),
}

impl View for Effect {
    type V = EffectModel;

    open spec fn view(&self) -> EffectModel {
        match self {
            Effect::Nothing => EffectModel::Nothing,
            Effect::SavePresets => EffectModel::SavePresets,
            Effect::ReadRow { repo, path, counterpart, pool } => EffectModel::ReadRow {
                repo: repo@,
                path: path@,
                counterpart: opt_view(*counterpart),
                pool: views(pool@),
            },
            Effect::Plan { order, repos, title, confirm } => EffectModel::Plan {
                order: order@,
                repos: views(repos@),
                title: title@,
                confirm: *confirm,
            },
            Effect::Run(order) => EffectModel::Run(order@),
        }
    }
}

/// A click.
pub enum Act {
    /// Open the viewer on a row: its file, and the path on its right side.
    Inspect(String, Option<String>),
    SetCommand(Command),
    PickSource(String),
    TogglePool(String),
    PickRepo(String),
    AddRule,
    RemoveRule(usize),
    StorePreset,
    ApplyPreset(usize),
    RemovePreset(usize),
    CommitRenamePreset(usize),
    Preview,
    Ask,
    Confirm,
    CancelConfirm,
    /// Carry out a single row now.
    ApplyRow(RowKey),
}

/// A message from work that was asked for.
pub enum Msg {
    Done(OpResult),
    /// A finished plan.
    Preview { result: Result<PreviewData, String>, confirm: bool },
    PreviewCancelled,
}

/// The repositories that the tab knows.
pub struct Known {
    pub repos: Vec<String>,
    /// The repositories that are the main of a backup group.
    pub mains: Vec<String>,
    pub loaded: bool,
}

/// What is set up: the command and what it acts on.
pub struct Pick {
    pub command: Command,
    /// A command was chosen, so the next section may show.
    pub chosen: bool,
    /// The repository whose duplicates are deleted.
    pub source: Option<String>,
    /// The repositories whose content makes a source file deletable.
    pub pool: Vec<String>,
    /// The repository that every other command acts on.
    pub repo: Option<String>,
    /// The sections are folded into one line.
    pub collapsed: bool,
}

/// The saved presets, and the one being renamed.
pub struct Shelf {
    pub presets: Vec<OrganizePreset>,
    pub loaded: bool,
    pub renaming: Option<usize>,
    pub rename_buf: String,
    /// A rename just started, so its field takes the keyboard focus.
    pub focus_pending: bool,
}

/// The plan on the board.
pub struct Shown {
    pub rows: Vec<RowMeta>,
    pub bodies: Vec<RowBody>,
    /// To delete, only here, differing, unchanged.
    pub totals: [usize; 4],
    pub source_header: String,
    pub target_header: Option<String>,
    /// How many files the plan touches, listed or not.
    pub total: usize,
    /// The rows that the run leaves out.
    pub hidden: KeySet,
}

/// What the tab says.
pub struct Words {
    pub status: Option<String>,
    pub error: Option<String>,
    /// The question that waits for an answer.
    pub confirm: Option<String>,
}

/// What is under way.
#[derive(Clone, Copy, Debug, PartialEq, Eq, Structural)]
pub struct Progress {
    pub running: bool,
    pub previewing: bool,
    /// The run in flight is a single row's.
    pub row_action: bool,
    /// Plan again when the run in flight ends.
    pub pending_refresh: bool,
}

/// The grooming tab.
pub struct GroomingView {
    pub known: Known,
    pub pick: Pick,
    pub filter: FilterBuilder,
    pub rules: Vec<RuleUi>,
    pub shelf: Shelf,
    pub shown: Shown,
    pub words: Words,
    pub progress: Progress,
    /// The template of a new rule.
    pub default_template: String,
}

/// The contents of what the tab knows.
pub struct KnownModel {
    pub repos: Texts,
    pub mains: Texts,
    pub loaded: bool,
}

/// The contents of what is set up.
pub struct PickModel {
    pub command: Command,
    pub chosen: bool,
    pub source: Option<Seq<char>>,
    pub pool: Texts,
    pub repo: Option<Seq<char>>,
    pub collapsed: bool,
}

/// The contents of the presets.
pub struct ShelfModel {
    pub presets: Seq<OrganizePresetModel>,
    pub loaded: bool,
    pub renaming: Option<usize>,
    pub rename_buf: Seq<char>,
    pub focus_pending: bool,
}

/// The contents of the board.
pub struct ShownModel {
    pub rows: Seq<RowMeta>,
    pub bodies: Seq<RowBody>,
    pub totals: Seq<usize>,
    pub source_header: Seq<char>,
    pub target_header: Option<Seq<char>>,
    pub total: usize,
    pub hidden: Set<KeyModel>,
}

/// The contents of what the tab says.
pub struct WordsModel {
    pub status: Option<Seq<char>>,
    pub error: Option<Seq<char>>,
    pub confirm: Option<Seq<char>>,
}

/// The tab's contents.
pub struct GroomModel {
    pub known: KnownModel,
    pub pick: PickModel,
    pub filter: BuilderModel,
    pub rules: Seq<RuleModel>,
    pub shelf: ShelfModel,
    pub shown: ShownModel,
    pub words: WordsModel,
    pub progress: Progress,
    pub default_template: Seq<char>,
}

impl View for Known {
    type V = KnownModel;

    open spec fn view(&self) -> KnownModel {
        KnownModel {
            repos: views(self.repos@),
            mains: views(self.mains@),
            loaded: self.loaded,
        }
    }
}

impl View for Pick {
    type V = PickModel;

    open spec fn view(&self) -> PickModel {
        PickModel {
            command: self.command,
            chosen: self.chosen,
            source: opt_view(self.source),
            pool: views(self.pool@),
            repo: opt_view(self.repo),
            collapsed: self.collapsed,
        }
    }
}

impl View for Shelf {
    type V = ShelfModel;

    open spec fn view(&self) -> ShelfModel {
        ShelfModel {
            presets: presets_of(self.presets@),
            loaded: self.loaded,
            renaming: self.renaming,
            rename_buf: self.rename_buf@,
            focus_pending: self.focus_pending,
        }
    }
}

impl View for Shown {
    type V = ShownModel;

    open spec fn view(&self) -> ShownModel {
        ShownModel {
            rows: self.rows@,
            bodies: self.bodies@,
            totals: self.totals@,
            source_header: self.source_header@,
            target_header: opt_view(self.target_header),
            total: self.total,
            hidden: self.hidden@,
        }
    }
}

impl View for Words {
    type V = WordsModel;

    open spec fn view(&self) -> WordsModel {
        WordsModel {
            status: opt_view(self.status),
            error: opt_view(self.error),
            confirm: opt_view(self.confirm),
        }
    }
}

impl View for GroomingView {
    type V = GroomModel;

    open spec fn view(&self) -> GroomModel {
        GroomModel {
            known: self.known@,
            pick: self.pick@,
            filter: self.filter@,
            rules: setup_view(self.rules@),
            shelf: self.shelf@,
            shown: self.shown@,
            words: self.words@,
            progress: self.progress,
            default_template: self.default_template@,
        }
    }
}

impl ShownModel {
    /// An empty board.
    pub open spec fn nothing() -> ShownModel {
        ShownModel {
            rows: Seq::empty(),
            bodies: Seq::empty(),
            totals: seq![0, 0, 0, 0],
            source_header: Seq::empty(),
            target_header: None,
            total: 0,
            hidden: Set::empty(),
        }
    }
}

impl Shown {
    /// An empty board.
    pub fn nothing() -> (r: Self)
        ensures
            r@ == ShownModel::nothing(),
            r.hidden.wf(),
    {
        let r = Shown {
            rows: Vec::new(),
            bodies: Vec::new(),
            totals: [0, 0, 0, 0],
            source_header: String::new(),
            target_header: None,
            total: 0,
            hidden: KeySet::new(),
        };
        assert(r.totals@ =~= seq![0, 0, 0, 0]);
        r
    }
}

/// A wizard holding a filter expression.
pub open spec fn holding(expr: Seq<char>) -> BuilderModel {
    BuilderModel {
        filters: crate::filter_expr::conds_of(crate::filter_expr::groups(expr)),
        case_insensitive: crate::filter_expr::ignores_case(crate::filter_expr::groups(expr)),
        adding: false,
        ..BuilderModel::fresh()
    }
}

/// A wizard's filter expression.
pub open spec fn expression(m: BuilderModel) -> Option<Seq<char>> {
    composed(m.filters, m.case_insensitive)
}

/// The rules of a list as a preset saves them.
pub open spec fn to_preset(rules: Seq<RuleModel>) -> Seq<SavedRuleModel> {
    Seq::new(
        rules.len(),
        |i: int|
            SavedRuleModel {
                filter: match expression(rules[i].filter) {
                    Some(f) => f,
                    None => Seq::empty(),
                },
                template: rules[i].template,
            },
    )
}

/// The rules that a preset restores.
pub open spec fn from_preset(rules: Seq<SavedRuleModel>) -> Seq<RuleModel> {
    Seq::new(
        rules.len(),
        |i: int| RuleModel { filter: holding(rules[i].filter), template: rules[i].template },
    )
}

/// The rules that are handed on: those whose template is not blank, trimmed.
pub open spec fn usable_rules(rules: Seq<RuleModel>) -> Seq<OrganizeModel>
    decreases rules.len(),
{
    if rules.len() == 0 {
        Seq::empty()
    } else {
        let rest = usable_rules(rules.drop_last());
        let rule = rules.last();
        if trimmed(rule.template).len() == 0 {
            rest
        } else {
            rest.push(
                OrganizeModel { filter: expression(rule.filter), template: trimmed(rule.template) },
            )
        }
    }
}

impl GroomModel {
    /// The repository that the current command changes.
    pub open spec fn acted_on(self) -> Option<Seq<char>> {
        if self.pick.command == Command::Dedupe {
            self.pick.source
        } else {
            self.pick.repo
        }
    }

    /// The current command has all it needs.
    pub open spec fn ready(self) -> bool {
        match self.pick.command {
            Command::Dedupe => self.pick.source is Some && self.pick.pool.len() > 0,
            Command::Purge => self.pick.repo is Some && expression(self.filter) is Some,
            Command::Organize => self.pick.repo is Some && self.rules.len() > 0,
            _ => self.pick.repo is Some,
        }
    }

    /// The locks bar the current command: it changes existing files of a protected
    /// repository. Pruning changes the index only.
    pub open spec fn barred(self, read_only: bool) -> bool {
        read_only && self.pick.command != Command::Prune && self.acted_on() is Some
    }

    /// The tab with its plan taken off the board.
    pub open spec fn cleared(self) -> GroomModel {
        GroomModel { shown: ShownModel::nothing(), ..self }
    }

    /// The tab with this status.
    pub open spec fn with_status(self, status: Seq<char>) -> GroomModel {
        GroomModel { words: WordsModel { status: Some(status), ..self.words }, ..self }
    }

    /// The tab with this error, or none.
    pub open spec fn with_error(self, error: Option<Seq<char>>) -> GroomModel {
        GroomModel { words: WordsModel { error, ..self.words }, ..self }
    }

    /// The tab with this question, or none.
    pub open spec fn with_confirm(self, confirm: Option<Seq<char>>) -> GroomModel {
        GroomModel { words: WordsModel { confirm, ..self.words }, ..self }
    }

    /// The tab with these presets.
    pub open spec fn with_presets(self, presets: Seq<OrganizePresetModel>) -> GroomModel {
        GroomModel { shelf: ShelfModel { presets, ..self.shelf }, ..self }
    }

    /// What the confirmation says of the current command, before the rows that are
    /// left out.
    pub open spec fn question(self, repo: Seq<char>) -> Seq<char> {
        let n = dec(self.shown.total as nat);
        match self.pick.command {
            Command::Dedupe => "Delete "@ + n + " file(s) from '"@ + repo
                + "' whose content is in the dupe pool? This cannot be undone."@,
            Command::Purge => "Delete all "@ + n + " file(s) matching the filter from '"@ + repo
                + "'? This cannot be undone."@,
            Command::EmptyDirs => "Remove all empty directories under '"@ + repo + "'?"@,
            Command::Prune => "Permanently drop "@ + n + " record(s) of deleted files from '"@
                + repo + "' and compact its index? This cannot be undone."@,
            Command::Organize => "Move "@ + n + " file(s) into their new layout in '"@ + repo
                + "'? Files move within the repo; nothing is overwritten (collisions are renamed)."@,
        }
    }

    /// The confirmation of the current command.
    pub open spec fn prompt(self) -> Option<Seq<char>> {
        match self.acted_on() {
            None => None,
            Some(repo) => Some(
                self.question(repo) + (if self.shown.hidden.len() > 0 {
                    " "@ + dec(self.shown.hidden.len()) + " hidden row(s) will be skipped."@
                } else {
                    Seq::empty()
                }),
            ),
        }
    }

    /// What planning the current command asks for.
    pub open spec fn plan(self, confirm: bool) -> EffectModel {
        let title = "REVIEW "@ + self.pick.command.title();
        match self.acted_on() {
            None => EffectModel::Nothing,
            Some(repo) => match self.pick.command {
                Command::EmptyDirs => EffectModel::Nothing,
                Command::Dedupe => EffectModel::Plan {
                    order: SpecModel::Dedupe {
                        source: repo,
                        pool: self.pick.pool,
                        filter: expression(self.filter),
                    },
                    repos: seq![repo] + self.pick.pool,
                    title,
                    confirm,
                },
                Command::Purge => EffectModel::Plan {
                    order: SpecModel::Purge { repo, filter: expression(self.filter) },
                    repos: seq![repo],
                    title,
                    confirm,
                },
                Command::Prune => EffectModel::Plan {
                    order: SpecModel::Prune { repo },
                    repos: seq![repo],
                    title,
                    confirm,
                },
                Command::Organize => EffectModel::Plan {
                    order: SpecModel::Organize { repo, rules: usable_rules(self.rules) },
                    repos: seq![repo],
                    title,
                    confirm,
                },
            },
        }
    }

    /// What running the current command asks for.
    pub open spec fn run(self, only: Option<KeyModel>) -> EffectModel {
        match self.acted_on() {
            None => EffectModel::Nothing,
            Some(repo) => EffectModel::Run(
                RunModel {
                    command: self.pick.command,
                    repo,
                    pool: self.pick.pool,
                    filter: expression(self.filter),
                    rules: usable_rules(self.rules),
                    hidden: self.shown.hidden,
                    only,
                    title: self.pick.command.title() + " '"@ + repo + "'"@,
                    repos: if self.pick.command == Command::Dedupe {
                        seq![repo] + self.pick.pool
                    } else {
                        seq![repo]
                    },
                },
            ),
        }
    }

    /// The tab after its rules were stored as a preset.
    pub open spec fn stored(self) -> GroomModel {
        if self.rules.len() == 0 {
            self
        } else {
            let name = next_name(names_of(self.shelf.presets));
            self.with_presets(
                self.shelf.presets.push(
                    OrganizePresetModel { name, rules: to_preset(self.rules) },
                ),
            ).with_status("Saved organize preset '"@ + name + "'."@)
        }
    }

    /// A new rule.
    pub open spec fn new_rule(self) -> RuleModel {
        RuleModel { filter: BuilderModel::fresh(), template: self.default_template }
    }

    /// The locks stop a confirmed run of the current command: it deletes or moves
    /// files of a protected repository. Sweeping empty directories takes no file,
    /// so one that was confirmed goes on.
    pub open spec fn stopped(self, read_only: bool) -> bool {
        self.barred(read_only) && self.pick.command != Command::EmptyDirs
    }

    /// The tab after a click.
    pub open spec fn after(self, act: Act, read_only: bool) -> GroomModel {
        match act {
            Act::SetCommand(command) => GroomModel {
                pick: PickModel { command, chosen: true, ..self.pick },
                ..self
            }.cleared(),
            Act::PickSource(name) => GroomModel {
                pick: PickModel {
                    pool: without(self.pick.pool, name@),
                    source: Some(name@),
                    ..self.pick
                },
                ..self
            }.cleared(),
            Act::TogglePool(name) => GroomModel {
                pick: PickModel { pool: switched(self.pick.pool, name@), ..self.pick },
                ..self
            }.cleared(),
            Act::PickRepo(name) => GroomModel {
                pick: PickModel { repo: Some(name@), ..self.pick },
                ..self
            }.cleared(),
            Act::AddRule => GroomModel {
                rules: self.rules.push(self.new_rule()),
                ..self
            }.cleared(),
            Act::RemoveRule(i) => GroomModel {
                rules: if i < self.rules.len() {
                    self.rules.remove(i as int)
                } else {
                    self.rules
                },
                ..self
            }.cleared(),
            Act::StorePreset => self.stored(),
            Act::ApplyPreset(i) => if i < self.shelf.presets.len() {
                let restored = from_preset(self.shelf.presets[i as int].rules);
                GroomModel {
                    rules: if restored.len() == 0 {
                        seq![self.new_rule()]
                    } else {
                        restored
                    },
                    ..self
                }.cleared()
            } else {
                self
            },
            Act::RemovePreset(i) => if i < self.shelf.presets.len() {
                self.with_presets(self.shelf.presets.remove(i as int))
            } else {
                self
            },
            Act::CommitRenamePreset(i) => {
                let name = trimmed(self.shelf.rename_buf);
                let done = GroomModel {
                    shelf: ShelfModel { renaming: None, ..self.shelf },
                    ..self
                };
                if name.len() > 0 && i < self.shelf.presets.len() {
                    done.with_presets(
                        self.shelf.presets.update(
                            i as int,
                            OrganizePresetModel { name, ..self.shelf.presets[i as int] },
                        ),
                    )
                } else {
                    done
                }
            },
            Act::Ask => if !self.barred(read_only) && self.pick.command == Command::EmptyDirs
                && self.prompt() is Some {
                self.with_confirm(self.prompt())
            } else {
                self
            },
            Act::Confirm => self.with_confirm(None),
            Act::CancelConfirm => self.with_confirm(None),
            Act::Inspect(_, _) => self,
            Act::Preview => self,
            Act::ApplyRow(_) => self,
        }
    }

    /// What a click asks for.
    pub open spec fn effect(self, act: Act, read_only: bool) -> EffectModel {
        match act {
            Act::Inspect(path, right) => match self.acted_on() {
                None => EffectModel::Nothing,
                Some(repo) => EffectModel::ReadRow {
                    repo,
                    path: path@,
                    counterpart: if self.pick.command == Command::Dedupe {
                        opt_view(right)
                    } else {
                        None
                    },
                    pool: self.pick.pool,
                },
            },
            Act::StorePreset => if self.rules.len() > 0 {
                EffectModel::SavePresets
            } else {
                EffectModel::Nothing
            },
            Act::RemovePreset(i) => if i < self.shelf.presets.len() {
                EffectModel::SavePresets
            } else {
                EffectModel::Nothing
            },
            Act::CommitRenamePreset(i) => if trimmed(self.shelf.rename_buf).len() > 0 && i
                < self.shelf.presets.len() {
                EffectModel::SavePresets
            } else {
                EffectModel::Nothing
            },
            Act::Preview => self.plan(false),
            Act::Ask => if self.barred(read_only) {
                EffectModel::Nothing
            } else {
                self.plan(true)
            },
            Act::Confirm => if self.stopped(read_only) {
                EffectModel::Nothing
            } else {
                self.run(None)
            },
            Act::ApplyRow(key) => if self.barred(read_only) {
                EffectModel::Nothing
            } else {
                self.run(Some(key@))
            },
            _ => EffectModel::Nothing,
        }
    }

    /// The tab with a finished plan on the board.
    pub open spec fn showing(self, result: Result<PreviewData, String>, confirm: bool) -> GroomModel {
        match result {
            Err(e) => self.with_error(Some(e@)),
            Ok(data) => {
                let now = GroomModel {
                    shown: ShownModel {
                        rows: data.metas@,
                        bodies: data.bodies@,
                        total: data.total,
                        totals: data.totals@,
                        source_header: data.source_header@,
                        target_header: opt_view(data.target_header),
                        ..self.shown
                    },
                    ..self
                }.with_status(data.status@).with_error(None);
                if confirm && now.prompt() is Some {
                    now.with_confirm(now.prompt())
                } else {
                    now
                }
            },
        }
    }

    /// The tab after a message; `headline` is what a row's note says in one line.
    pub open spec fn received(self, msg: Msg, headline: Seq<char>) -> GroomModel {
        match msg {
            Msg::PreviewCancelled => GroomModel {
                progress: Progress { previewing: false, ..self.progress },
                ..self
            }.with_status("review cancelled"@),
            Msg::Preview { result, confirm } => GroomModel {
                progress: Progress { previewing: false, ..self.progress },
                ..self
            }.showing(result, confirm),
            Msg::Done(result) => {
                let ended = GroomModel {
                    progress: Progress { running: false, row_action: false, ..self.progress },
                    ..self
                };
                match result {
                    OpResult::Applied { .. } => ended.with_status(headline).with_error(None),
                    OpResult::Error(e) => ended.with_error(Some(e@)),
                    _ => ended.with_status(op_report(result).headline()).with_error(None),
                }
            },
        }
    }
}

/// What reading a row's files led to.
#[derive(Clone, Copy, Debug, PartialEq, Eq, Structural)]
pub enum Opened {
    /// Both copies, beside each other.
    Comparison,
    /// The one file.
    Single,
    /// Nothing could be opened.
    Nothing,
}

/// What the program around the tab has to do about a message.
pub struct Received {
    /// The card to show.
    pub card: Option<Note>,
    /// A row's run ended.
    pub row_ended: bool,
}

impl GroomingView {
    /// The set of rows that are left out holds no key twice.
    pub open spec fn wf(&self) -> bool {
        self.shown.hidden.wf()
    }

    /// The tab as it opens. `default_template` is the template of a new rule.
    pub fn new(default_template: &str) -> (r: Self)
        ensures
            r.wf(),
            r@ == (GroomModel {
                known: KnownModel { repos: Seq::empty(), mains: Seq::empty(), loaded: false },
                pick: PickModel {
                    command: Command::Dedupe,
                    chosen: false,
                    source: None,
                    pool: Seq::empty(),
                    repo: None,
                    collapsed: false,
                },
                filter: BuilderModel::fresh(),
                rules: seq![
                    RuleModel { filter: BuilderModel::fresh(), template: default_template@ },
                ],
                shelf: ShelfModel {
                    presets: Seq::empty(),
                    loaded: false,
                    renaming: None,
                    rename_buf: Seq::empty(),
                    focus_pending: false,
                },
                shown: ShownModel::nothing(),
                words: WordsModel { status: None, error: None, confirm: None },
                progress: Progress {
                    running: false,
                    previewing: false,
                    row_action: false,
                    pending_refresh: false,
                },
                default_template: default_template@,
            }),
    {
        let mut rules: Vec<RuleUi> = Vec::new();
        rules.push(RuleUi::new(default_template));
        let r = GroomingView {
            known: Known { repos: Vec::new(), mains: Vec::new(), loaded: false },
            pick: Pick {
                command: Command::Dedupe,
                chosen: false,
                source: None,
                pool: Vec::new(),
                repo: None,
                collapsed: false,
            },
            filter: FilterBuilder::new(),
            rules,
            shelf: Shelf {
                presets: Vec::new(),
                loaded: false,
                renaming: None,
                rename_buf: String::new(),
                focus_pending: false,
            },
            shown: Shown::nothing(),
            words: Words { status: None, error: None, confirm: None },
            progress: Progress {
                running: false,
                previewing: false,
                row_action: false,
                pending_refresh: false,
            },
            default_template: copy(default_template),
        };
        assert(r@.known.repos =~= Seq::empty());
        assert(r@.known.mains =~= Seq::empty());
        assert(r@.pick.pool =~= Seq::empty());
        assert(r@.rules =~= seq![
            RuleModel { filter: BuilderModel::fresh(), template: default_template@ },
        ]);
        assert(r@.shelf.presets =~= Seq::empty());
        r
    }

    /// The repository that the current command changes.
    pub fn acted_on(&self) -> (r: Option<String>)
        ensures
            opt_view(r) == self@.acted_on(),
    {
        if self.pick.command == Command::Dedupe {
            copy_opt(&self.pick.source)
        } else {
            copy_opt(&self.pick.repo)
        }
    }

    /// Whether the repository to act on is picked.
    pub fn repo_picked(&self) -> (r: bool)
        ensures
            r == (self@.acted_on() is Some),
    {
        if self.pick.command == Command::Dedupe {
            self.pick.source.is_some()
        } else {
            self.pick.repo.is_some()
        }
    }

    /// Whether the current command has all it needs.
    pub fn ready(&self) -> (r: bool)
        ensures
            r == self@.ready(),
    {
        match self.pick.command {
            Command::Dedupe => self.pick.source.is_some() && self.pick.pool.len() > 0,
            Command::Purge => self.pick.repo.is_some() && self.filter_string().is_some(),
            Command::Organize => self.pick.repo.is_some() && self.rules.len() > 0,
            _ => self.pick.repo.is_some(),
        }
    }

    /// The shared filter's expression.
    pub fn filter_string(&self) -> (r: Option<String>)
        ensures
            opt_view(r) == expression(self@.filter),
    {
        self.filter.filter_string()
    }

    /// Why the locks bar the run, if they do. `read_only` says whether the
    /// repository that the command changes is protected.
    pub fn lock_block(&self, read_only: bool) -> (r: Option<String>)
        ensures
            (r is Some) == self@.barred(read_only),
            r matches Some(s) ==> s@ == self@.pick.command.title() + " changes existing files in '"@
                + self@.acted_on()->0 + "' — unlock it (its padlock) to run."@,
    {
        if self.pick.command == Command::Prune || !read_only {
            return None;
        }
        match self.acted_on() {
            None => None,
            Some(repo) => {
                let mut s = self.pick.command.label().to_string();
                s.append(" changes existing files in '");
                s.append(repo.as_str());
                s.append("' — unlock it (its padlock) to run.");
                Some(s)
            },
        }
    }

    /// The rules that are handed on.
    pub fn organize_rules(&self) -> (r: Vec<OrganizeRule>)
        ensures
            rules_view(r@) == usable_rules(self@.rules),
    {
        let ghost all = self@.rules;
        let mut out: Vec<OrganizeRule> = Vec::new();
        assert(rules_view(out@) =~= Seq::empty());
        let mut i: usize = 0;
        while i < self.rules.len()
            invariant
                i <= self.rules@.len(),
                all == setup_view(self.rules@),
                rules_view(out@) == usable_rules(all.take(i as int)),
            decreases self.rules@.len() - i,
        {
            let ghost was = out@;
            assert(all.take(i + 1).drop_last() =~= all.take(i as int));
            assert(all.take(i + 1).last() == self.rules@[i as int]@);
            let template = trim(self.rules[i].template.as_str());
            if !template.as_str().is_empty() {
                let filter = self.rules[i].filter.filter_string();
                let ghost rule = OrganizeModel {
                    filter: opt_view(filter),
                    template: template@,
                };
                out.push(OrganizeRule { filter, template });
                assert(rules_view(out@) =~= rules_view(was).push(rule));
            }
            i += 1;
        }
        assert(all.take(i as int) =~= all);
        out
    }

    /// The one line that the selection folds into.
    pub fn selection_summary(&self) -> (r: String)
        ensures
            r@ == summary_of(self@),
    {
        let mut s = self.pick.command.label().to_string();
        if self.pick.command == Command::Dedupe {
            s.append(" from '");
            match &self.pick.source {
                Some(name) => {
                    s.append(name.as_str());
                },
                None => {
                    s.append("");
                },
            }
            s.append("' against ");
            s.append(join(&self.pick.pool, ", ").as_str());
        } else {
            s.append(" in '");
            match &self.pick.repo {
                Some(name) => {
                    s.append(name.as_str());
                },
                None => {
                    s.append("");
                },
            }
            s.append("'");
        }
        proof {
            reveal_strlit("");
        }
        match self.pick.command {
            Command::Dedupe | Command::Purge => {
                if let Some(f) = self.filter_string() {
                    s.append(" · filter: ");
                    s.append(f.as_str());
                }
            },
            Command::Organize => {
                let rules = self.organize_rules();
                assert(rules_view(rules@).len() == rules@.len());
                s.append(" · ");
                push_decimal(&mut s, rules.len() as u128);
                s.append(" rule(s)");
            },
            _ => {},
        }
        assert(s@ =~= summary_of(self@));
        s
    }

    /// Takes the plan off the board.
    pub fn clear_preview(&mut self)
        ensures
            final(self)@ == old(self)@.cleared(),
            final(self).wf(),
    {
        self.shown = Shown::nothing();
    }

    /// The confirmation of the current command.
    pub fn build_prompt(&self) -> (r: Option<String>)
        requires
            self.wf(),
        ensures
            opt_view(r) == self@.prompt(),
    {
        let repo = match self.acted_on() {
            None => return None,
            Some(repo) => repo,
        };
        let n: u128 = self.shown.total as u128;
        let mut s = String::new();
        match self.pick.command {
            Command::Dedupe => {
                s.append("Delete ");
                push_decimal(&mut s, n);
                s.append(" file(s) from '");
                s.append(repo.as_str());
                s.append("' whose content is in the dupe pool? This cannot be undone.");
            },
            Command::Purge => {
                s.append("Delete all ");
                push_decimal(&mut s, n);
                s.append(" file(s) matching the filter from '");
                s.append(repo.as_str());
                s.append("'? This cannot be undone.");
            },
            Command::EmptyDirs => {
                s.append("Remove all empty directories under '");
                s.append(repo.as_str());
                s.append("'?");
            },
            Command::Prune => {
                s.append("Permanently drop ");
                push_decimal(&mut s, n);
                s.append(" record(s) of deleted files from '");
                s.append(repo.as_str());
                s.append("' and compact its index? This cannot be undone.");
            },
            Command::Organize => {
                s.append("Move ");
                push_decimal(&mut s, n);
                s.append(" file(s) into their new layout in '");
                s.append(repo.as_str());
                s.append(
                    "'? Files move within the repo; nothing is overwritten (collisions are renamed).",
                );
            },
        }
        assert(s@ =~= self@.question(repo@));
        let hidden: usize = self.shown.hidden.len();
        if hidden > 0 {
            s.append(" ");
            push_decimal(&mut s, hidden as u128);
            s.append(" hidden row(s) will be skipped.");
        }
        assert(s@ =~= self@.prompt()->0);
        Some(s)
    }

    /// What planning the current command asks for.
    pub fn run_preview(&self, confirm: bool) -> (r: Effect)
        ensures
            r@ == self@.plan(confirm),
    {
        let repo = match self.acted_on() {
            None => return Effect::Nothing,
            Some(repo) => repo,
        };
        let mut title = "REVIEW ".to_string();
        title.append(self.pick.command.label());
        let mut repos: Vec<String> = Vec::new();
        repos.push(repo.clone());
        assert(views(repos@) =~= seq![repo@]);
        let order = match self.pick.command {
            Command::EmptyDirs => return Effect::Nothing,
            Command::Dedupe => {
                push_all(&mut repos, &self.pick.pool);
                PreviewSpec::Dedupe {
                    source: repo,
                    pool: copy_list(&self.pick.pool),
                    filter: self.filter_string(),
                }
            },
            Command::Purge => PreviewSpec::Purge { repo, filter: self.filter_string() },
            Command::Prune => PreviewSpec::Prune { repo },
            Command::Organize => PreviewSpec::Organize { repo, rules: self.organize_rules() },
        };
        Effect::Plan { order, repos, title, confirm }
    }

    /// What running the current command asks for: all of it, or one row.
    pub fn start(&self, only: Option<RowKey>) -> (r: Effect)
        requires
            self.wf(),
        ensures
            r@ == self@.run(opt_key(only)),
    {
        let repo = match self.acted_on() {
            None => return Effect::Nothing,
            Some(repo) => repo,
        };
        let mut title = self.pick.command.label().to_string();
        title.append(" '");
        title.append(repo.as_str());
        title.append("'");
        let mut repos: Vec<String> = Vec::new();
        repos.push(repo.clone());
        assert(views(repos@) =~= seq![repo@]);
        if self.pick.command == Command::Dedupe {
            push_all(&mut repos, &self.pick.pool);
        }
        Effect::Run(
            RunOrder {
                command: self.pick.command,
                repo,
                pool: copy_list(&self.pick.pool),
                filter: self.filter_string(),
                rules: self.organize_rules(),
                hidden: self.shown.hidden.copy(),
                only,
                title,
                repos,
            },
        )
    }

    /// The tab after a plan was begun under this title.
    pub fn plan_started(&mut self, title: &str)
        ensures
            final(self)@ == (GroomModel {
                progress: Progress { previewing: true, ..old(self)@.progress },
                pick: PickModel { collapsed: true, ..old(self)@.pick },
                ..old(self)@
            }).with_status(lowercase(title@) + "…"@),
            final(self).shown == old(self).shown,
    {
        self.progress.previewing = true;
        self.pick.collapsed = true;
        let mut s = to_lowercase(title);
        s.append("…");
        self.words.status = Some(s);
    }

    /// The tab after a run was begun: a single row's keeps the board and plans
    /// again at the end, a whole run takes the plan off the board.
    pub fn run_started(&mut self, title: &str, single_row: bool)
        ensures
            old(self).wf() ==> final(self).wf(),
            final(self)@ == if single_row {
                (GroomModel {
                    progress: Progress {
                        running: true,
                        row_action: true,
                        pending_refresh: true,
                        ..old(self)@.progress
                    },
                    ..old(self)@
                }).with_status("applying…"@)
            } else {
                (GroomModel {
                    progress: Progress { running: true, row_action: false, ..old(self)@.progress },
                    pick: PickModel { collapsed: true, ..old(self)@.pick },
                    ..old(self)@
                }).with_status(lowercase(title@) + "…"@).cleared()
            },
    {
        self.progress.running = true;
        self.progress.row_action = single_row;
        if single_row {
            self.progress.pending_refresh = true;
            self.words.status = Some("applying…".to_string());
        } else {
            self.pick.collapsed = true;
            let mut s = to_lowercase(title);
            s.append("…");
            self.words.status = Some(s);
            self.clear_preview();
        }
    }

    /// After a single row's run has ended, plans again.
    pub fn refresh_due(&mut self) -> (r: Effect)
        ensures
            final(self).shown.hidden == old(self).shown.hidden,
            old(self)@.progress.pending_refresh && !old(self)@.progress.running ==> {
                &&& final(self)@ == (GroomModel {
                    progress: Progress { pending_refresh: false, ..old(self)@.progress },
                    ..old(self)@
                })
                &&& r@ == old(self)@.plan(false)
            },
            !(old(self)@.progress.pending_refresh && !old(self)@.progress.running) ==> {
                &&& final(self)@ == old(self)@
                &&& r@ == EffectModel::Nothing
            },
    {
        if self.progress.pending_refresh && !self.progress.running {
            self.progress.pending_refresh = false;
            self.run_preview(false)
        } else {
            Effect::Nothing
        }
    }

    /// Puts a finished plan on the board; with `confirm`, asks now that the count
    /// is known.
    pub fn apply_preview(&mut self, result: Result<PreviewData, String>, confirm: bool)
        requires
            old(self).wf(),
        ensures
            final(self).wf(),
            final(self)@ == old(self)@.showing(result, confirm),
    {
        match result {
            Err(e) => {
                self.words.error = Some(e);
            },
            Ok(data) => {
                self.shown.rows = data.metas;
                self.shown.bodies = data.bodies;
                self.shown.total = data.total;
                self.shown.totals = data.totals;
                self.shown.source_header = data.source_header;
                self.shown.target_header = data.target_header;
                self.words.status = Some(data.status);
                self.words.error = None;
                if confirm {
                    let prompt = self.build_prompt();
                    if prompt.is_some() {
                        self.words.confirm = prompt;
                    }
                }
            },
        }
    }

    /// Stores the rules as a preset under the next unused name.
    pub fn store_preset(&mut self) -> (r: Effect)
        ensures
            final(self)@ == old(self)@.stored(),
            final(self).shown.hidden == old(self).shown.hidden,
            r@ == if old(self)@.rules.len() > 0 {
                EffectModel::SavePresets
            } else {
                EffectModel::Nothing
            },
    {
        if self.rules.len() == 0 {
            return Effect::Nothing;
        }
        let ghost start = self@;
        let mut rules: Vec<SavedRule> = Vec::new();
        let mut i: usize = 0;
        while i < self.rules.len()
            invariant
                i <= self.rules@.len(),
                start == self@,
                saved_rules(rules@) == to_preset(start.rules).take(i as int),
            decreases self.rules@.len() - i,
        {
            let ghost was = rules@;
            let filter = match self.rules[i].filter.filter_string() {
                Some(f) => f,
                None => String::new(),
            };
            let template = self.rules[i].template.clone();
            let ghost rule = SavedRuleModel { filter: filter@, template: template@ };
            assert(rule.filter =~= to_preset(start.rules)[i as int].filter);
            rules.push(SavedRule { filter, template });
            assert(saved_rules(rules@) =~= saved_rules(was).push(rule));
            i += 1;
            assert(saved_rules(rules@) =~= to_preset(start.rules).take(i as int));
        }
        assert(saved_rules(rules@) =~= to_preset(start.rules));
        let name = self.next_preset_name();
        let mut s = "Saved organize preset '".to_string();
        s.append(name.as_str());
        s.append("'.");
        self.words.status = Some(s);
        let ghost was = self.shelf.presets@;
        let preset = OrganizePreset { name, rules };
        let ghost added = preset@;
        self.shelf.presets.push(preset);
        assert(presets_of(self.shelf.presets@) =~= presets_of(was).push(added));
        Effect::SavePresets
    }

    /// The next unused preset name.
    pub fn next_preset_name(&self) -> (r: String)
        ensures
            r@ == next_name(names_of(self@.shelf.presets)),
    {
        let mut names: Vec<String> = Vec::new();
        let mut i: usize = 0;
        while i < self.shelf.presets.len()
            invariant
                i <= self.shelf.presets@.len(),
                views(names@) == names_of(self@.shelf.presets).take(i as int),
            decreases self.shelf.presets@.len() - i,
        {
            let ghost was = names@;
            names.push(self.shelf.presets[i].name.clone());
            assert(views(names@) =~= views(was).push(self.shelf.presets@[i as int].name@));
            i += 1;
            assert(views(names@) =~= names_of(self@.shelf.presets).take(i as int));
        }
        assert(views(names@) =~= names_of(self@.shelf.presets));
        next_preset_name(&names)
    }

    fn restore_rules(&self, i: usize) -> (r: Vec<RuleUi>)
        requires
            i < self.shelf.presets@.len(),
        ensures
            setup_view(r@) == from_preset(self@.shelf.presets[i as int].rules),
    {
        let saved = &self.shelf.presets[i].rules;
        let ghost wanted = from_preset(saved_rules(saved@));
        let mut rules: Vec<RuleUi> = Vec::new();
        let mut k: usize = 0;
        while k < saved.len()
            invariant
                k <= saved@.len(),
                wanted == from_preset(saved_rules(saved@)),
                setup_view(rules@) == wanted.take(k as int),
            decreases saved@.len() - k,
        {
            let ghost was = rules@;
            let mut filter = FilterBuilder::new();
            filter.set_expression(saved[k].filter.as_str());
            let rule = RuleUi { filter, template: saved[k].template.clone() };
            let ghost added = rule@;
            rules.push(rule);
            assert(added =~= wanted[k as int]);
            assert(setup_view(rules@) =~= setup_view(was).push(added));
            k += 1;
            assert(setup_view(rules@) =~= wanted.take(k as int));
        }
        assert(setup_view(rules@) =~= wanted);
        rules
    }

    fn pick_source(&mut self, name: String)
        ensures
            final(self).wf(),
            final(self)@ == old(self)@.after(Act::PickSource(name), false),
    {
        drop_name(&mut self.pick.pool, &name);
        self.pick.source = Some(name);
        self.clear_preview();
    }

    fn toggle_pool(&mut self, name: String)
        ensures
            final(self).wf(),
            final(self)@ == old(self)@.after(Act::TogglePool(name), false),
    {
        switch_name(&mut self.pick.pool, name);
        self.clear_preview();
    }

    fn add_rule(&mut self)
        ensures
            final(self).wf(),
            final(self)@ == old(self)@.after(Act::AddRule, false),
    {
        let ghost start = self@;
        let rule = RuleUi::new(self.default_template.as_str());
        let ghost added = rule@;
        self.rules.push(rule);
        assert(self@.rules =~= start.rules.push(added));
        self.clear_preview();
    }

    fn remove_rule(&mut self, i: usize)
        ensures
            final(self).wf(),
            final(self)@ == old(self)@.after(Act::RemoveRule(i), false),
    {
        let ghost start = self@;
        if i < self.rules.len() {
            let _gone = self.rules.remove(i);
            assert(self@.rules =~= start.rules.remove(i as int));
        }
        self.clear_preview();
    }

    fn apply_preset(&mut self, i: usize)
        requires
            old(self).wf(),
        ensures
            final(self).wf(),
            final(self)@ == old(self)@.after(Act::ApplyPreset(i), false),
    {
        let ghost start = self@;
        if i < self.shelf.presets.len() {
            let mut rules = self.restore_rules(i);
            if rules.len() == 0 {
                rules.push(RuleUi::new(self.default_template.as_str()));
                assert(setup_view(rules@) =~= seq![start.new_rule()]);
            }
            self.rules = rules;
            self.clear_preview();
        }
    }

    fn remove_preset(&mut self, i: usize) -> (r: Effect)
        ensures
            final(self).shown == old(self).shown,
            final(self)@ == old(self)@.after(Act::RemovePreset(i), false),
            r@ == old(self)@.effect(Act::RemovePreset(i), false),
    {
        let ghost start = self@;
        if i < self.shelf.presets.len() {
            let _gone = self.shelf.presets.remove(i);
            assert(self@.shelf.presets =~= start.shelf.presets.remove(i as int));
            Effect::SavePresets
        } else {
            Effect::Nothing
        }
    }

    fn commit_rename(&mut self, i: usize) -> (r: Effect)
        ensures
            final(self).shown == old(self).shown,
            final(self)@ == old(self)@.after(Act::CommitRenamePreset(i), false),
            r@ == old(self)@.effect(Act::CommitRenamePreset(i), false),
    {
        let ghost start = self@;
        self.shelf.renaming = None;
        let name = trim(self.shelf.rename_buf.as_str());
        if !name.as_str().is_empty() && i < self.shelf.presets.len() {
            let ghost text = name@;
            let ghost was = self.shelf.presets@;
            self.shelf.presets[i].name = name;
            proof {
                let wanted = start.shelf.presets.update(
                    i as int,
                    OrganizePresetModel { name: text, ..start.shelf.presets[i as int] },
                );
                assert forall|k: int| 0 <= k < wanted.len() implies #[trigger] presets_of(
                    self.shelf.presets@,
                )[k] == wanted[k] by {
                    if k != i {
                        assert(self.shelf.presets@[k] == was[k]);
                    }
                }
                assert(presets_of(self.shelf.presets@) =~= wanted);
            }
            Effect::SavePresets
        } else {
            Effect::Nothing
        }
    }

    fn ask(&mut self, read_only: bool) -> (r: Effect)
        requires
            old(self).wf(),
        ensures
            final(self).shown == old(self).shown,
            final(self)@ == old(self)@.after(Act::Ask, read_only),
            r@ == old(self)@.effect(Act::Ask, read_only),
    {
        if self.lock_block(read_only).is_some() {
            return Effect::Nothing;
        }
        if self.pick.command == Command::EmptyDirs {
            let prompt = self.build_prompt();
            if prompt.is_some() {
                self.words.confirm = prompt;
            }
            Effect::Nothing
        } else {
            self.run_preview(true)
        }
    }

    /// Carries out a click. `read_only` says whether the repository that the
    /// command changes is protected.
    pub fn apply(&mut self, act: Act, read_only: bool) -> (r: Effect)
        requires
            old(self).wf(),
        ensures
            final(self).wf(),
            final(self)@ == old(self)@.after(act, read_only),
            r@ == old(self)@.effect(act, read_only),
    {
        match act {
            Act::Inspect(path, right) => match self.acted_on() {
                None => Effect::Nothing,
                Some(repo) => Effect::ReadRow {
                    repo,
                    path,
                    counterpart: if self.pick.command == Command::Dedupe {
                        right
                    } else {
                        None
                    },
                    pool: copy_list(&self.pick.pool),
                },
            },
            Act::SetCommand(command) => {
                self.pick.command = command;
                self.pick.chosen = true;
                self.clear_preview();
                Effect::Nothing
            },
            Act::PickSource(name) => {
                self.pick_source(name);
                Effect::Nothing
            },
            Act::TogglePool(name) => {
                self.toggle_pool(name);
                Effect::Nothing
            },
            Act::PickRepo(name) => {
                self.pick.repo = Some(name);
                self.clear_preview();
                Effect::Nothing
            },
            Act::AddRule => {
                self.add_rule();
                Effect::Nothing
            },
            Act::RemoveRule(i) => {
                self.remove_rule(i);
                Effect::Nothing
            },
            Act::StorePreset => self.store_preset(),
            Act::ApplyPreset(i) => {
                self.apply_preset(i);
                Effect::Nothing
            },
            Act::RemovePreset(i) => self.remove_preset(i),
            Act::CommitRenamePreset(i) => self.commit_rename(i),
            Act::Preview => self.run_preview(false),
            Act::Ask => self.ask(read_only),
            Act::CancelConfirm => {
                self.words.confirm = None;
                Effect::Nothing
            },
            Act::Confirm => {
                self.words.confirm = None;
                if self.lock_block(read_only).is_none() || self.pick.command
                    == Command::EmptyDirs {
                    self.start(None)
                } else {
                    Effect::Nothing
                }
            },
            Act::ApplyRow(key) => {
                if self.lock_block(read_only).is_none() {
                    self.start(Some(key))
                } else {
                    Effect::Nothing
                }
            },
        }
    }

    /// What a row's files, once read, open as. A row that promises a counterpart
    /// does not open as one file when the counterpart could not be read.
    pub fn inspected(&mut self, read_left: bool, promised: bool, read_right: bool) -> (r: Opened)
        ensures
            final(self).shown.hidden == old(self).shown.hidden,
            r == if !read_left {
                Opened::Nothing
            } else if read_right {
                Opened::Comparison
            } else if promised {
                Opened::Nothing
            } else {
                Opened::Single
            },
            final(self)@ == if !read_left {
                old(self)@.with_error(Some("Could not read that row's file."@))
            } else if promised && !read_right {
                old(self)@.with_error(Some("Could not read both copies to compare them."@))
            } else {
                old(self)@
            },
    {
        if !read_left {
            self.words.error = Some("Could not read that row's file.".to_string());
            Opened::Nothing
        } else if read_right {
            Opened::Comparison
        } else if promised {
            self.words.error = Some("Could not read both copies to compare them.".to_string());
            Opened::Nothing
        } else {
            Opened::Single
        }
    }

    /// Takes in a message. `headline` is what a row's note says in one line.
    pub fn drain(&mut self, msg: Msg, headline: &str) -> (r: Received)
        requires
            old(self).wf(),
        ensures
            final(self).wf(),
            final(self)@ == old(self)@.received(msg, headline@),
            r.card == (match msg {
                Msg::Done(OpResult::Applied { note }) => Some(note),
                _ => None,
            }),
            r.row_ended == (msg is Done && old(self)@.progress.row_action),
    {
        match msg {
            Msg::PreviewCancelled => {
                self.progress.previewing = false;
                self.words.status = Some("review cancelled".to_string());
                Received { card: None, row_ended: false }
            },
            Msg::Preview { result, confirm } => {
                self.progress.previewing = false;
                self.apply_preview(result, confirm);
                Received { card: None, row_ended: false }
            },
            Msg::Done(result) => {
                self.progress.running = false;
                let row_ended = self.progress.row_action;
                self.progress.row_action = false;
                match result {
                    OpResult::Applied { note } => {
                        self.words.status = Some(copy(headline));
                        self.words.error = None;
                        Received { card: Some(note), row_ended }
                    },
                    OpResult::Error(e) => {
                        self.words.error = Some(e);
                        Received { card: None, row_ended }
                    },
                    other => {
                        self.words.status = Some(other.report().headline());
                        self.words.error = None;
                        Received { card: None, row_ended }
                    },
                }
            },
        }
    }

    /// Takes in the presets that were read from disk; none where there are none.
    pub fn load_presets(&mut self, read: Option<Vec<OrganizePreset>>)
        ensures
            final(self).shown.hidden == old(self).shown.hidden,
            final(self)@ == (GroomModel {
                shelf: ShelfModel {
                    presets: match read {
                        Some(presets) => presets_of(presets@),
                        None => Seq::empty(),
                    },
                    loaded: true,
                    ..old(self)@.shelf
                },
                ..old(self)@
            }),
    {
        self.shelf.presets = match read {
            Some(presets) => presets,
            None => Vec::new(),
        };
        self.shelf.loaded = true;
        assert(read is None ==> presets_of(self.shelf.presets@) =~= Seq::empty());
    }

    /// What could not be written is reported.
    pub fn save_failed(&mut self, reason: &str)
        ensures
            final(self).shown.hidden == old(self).shown.hidden,
            final(self)@ == old(self)@.with_error(
                Some("Could not save organize presets: "@ + reason@),
            ),
    {
        let mut s = "Could not save organize presets: ".to_string();
        s.append(reason);
        self.words.error = Some(s);
    }

    /// Takes in the repositories of the store: sinks are not offered, and what is
    /// no longer there is no longer picked.
    pub fn sync_repos(&mut self, listed: Result<StoreNames, String>)
        ensures
            final(self).shown.hidden == old(self).shown.hidden,
            final(self)@ == old(self)@.synced(listed),
    {
        match listed {
            Err(e) => {
                self.words.error = Some(e);
            },
            Ok(names) => {
                self.known.repos = select_names(&names.repos, &names.sinks, false);
                self.known.mains = names.mains;
                if let Some(s) = &self.pick.source {
                    if !crate::naming::is_taken(&self.known.repos, s) {
                        self.pick.source = None;
                    }
                }
                if let Some(s) = &self.pick.repo {
                    if !crate::naming::is_taken(&self.known.repos, s) {
                        self.pick.repo = None;
                    }
                }
                self.pick.pool = select_names(&self.pick.pool, &self.known.repos, true);
                self.known.loaded = true;
                self.words.error = None;
            },
        }
    }

    /// Folds in what the shared filter's wizard did.
    pub fn shared_filter(&mut self, outcome: FilterOutcome)
        ensures
            old(self).wf() ==> final(self).wf(),
            final(self)@ == ({
                let base = if outcome.changed {
                    old(self)@.cleared()
                } else {
                    old(self)@
                };
                GroomModel {
                    words: WordsModel {
                        status: if outcome.status is Some {
                            opt_view(outcome.status)
                        } else {
                            base.words.status
                        },
                        error: if outcome.error is Some {
                            opt_view(outcome.error)
                        } else {
                            base.words.error
                        },
                        ..base.words
                    },
                    ..base
                }
            }),
    {
        if outcome.changed {
            self.clear_preview();
        }
        if outcome.status.is_some() {
            self.words.status = outcome.status;
        }
        if outcome.error.is_some() {
            self.words.error = outcome.error;
        }
    }

    /// Folds in what a rule's wizard did.
    pub fn rule_filter(&mut self, outcome: FilterOutcome)
        ensures
            old(self).wf() ==> final(self).wf(),
            final(self)@ == ({
                let base = if outcome.changed {
                    old(self)@.cleared()
                } else {
                    old(self)@
                };
                if outcome.error is Some {
                    base.with_error(opt_view(outcome.error))
                } else {
                    base
                }
            }),
    {
        if outcome.changed {
            self.clear_preview();
        }
        if outcome.error.is_some() {
            self.words.error = outcome.error;
        }
    }

    /// Sets a rule's template as typed.
    pub fn set_template(&mut self, i: usize, template: &str)
        requires
            i < old(self).rules@.len(),
        ensures
            final(self).wf(),
            final(self)@ == (GroomModel {
                rules: old(self)@.rules.update(
                    i as int,
                    RuleModel { template: template@, ..old(self)@.rules[i as int] },
                ),
                ..old(self)@
            }).cleared(),
    {
        let ghost start = self@;
        let ghost was = self.rules@;
        self.rules[i].template = copy(template);
        proof {
            let wanted = start.rules.update(
                i as int,
                RuleModel { template: template@, ..start.rules[i as int] },
            );
            assert forall|k: int| 0 <= k < wanted.len() implies #[trigger] setup_view(
                self.rules@,
            )[k] == wanted[k] by {
                if k != i {
                    assert(self.rules@[k] == was[k]);
                }
            }
            assert(setup_view(self.rules@) =~= wanted);
        }
        self.clear_preview();
    }

    /// Starts renaming a preset.
    pub fn start_rename(&mut self, i: usize)
        requires
            i < old(self).shelf.presets@.len(),
        ensures
            final(self).shown.hidden == old(self).shown.hidden,
            final(self)@ == (GroomModel {
                shelf: ShelfModel {
                    renaming: Some(i),
                    rename_buf: old(self)@.shelf.presets[i as int].name,
                    focus_pending: true,
                    ..old(self)@.shelf
                },
                ..old(self)@
            }),
    {
        self.shelf.rename_buf = self.shelf.presets[i].name.clone();
        self.shelf.renaming = Some(i);
        self.shelf.focus_pending = true;
    }

    /// Gives up renaming a preset.
    pub fn cancel_rename(&mut self)
        ensures
            final(self).shown.hidden == old(self).shown.hidden,
            final(self)@ == (GroomModel {
                shelf: ShelfModel { renaming: None, ..old(self)@.shelf },
                ..old(self)@
            }),
    {
        self.shelf.renaming = None;
    }

    /// The repositories that the pool can hold: all but the source.
    pub fn pool_candidates(&self) -> (r: Vec<String>)
        ensures
            views(r@) == match self@.pick.source {
                Some(s) => without(self@.known.repos, s),
                None => self@.known.repos,
            },
    {
        let mut list = copy_list(&self.known.repos);
        if let Some(s) = &self.pick.source {
            drop_name(&mut list, s);
        }
        list
    }

    /// Puts every repository that can be in the pool there, or none.
    pub fn fill_pool(&mut self, all: bool)
        ensures
            final(self).shown.hidden == old(self).shown.hidden,
            final(self)@ == (GroomModel {
                pick: PickModel {
                    pool: if !all {
                        Seq::empty()
                    } else {
                        match old(self)@.pick.source {
                            Some(s) => without(old(self)@.known.repos, s),
                            None => old(self)@.known.repos,
                        }
                    },
                    ..old(self)@.pick
                },
                ..old(self)@
            }),
    {
        if all {
            self.pick.pool = self.pool_candidates();
        } else {
            self.pick.pool = Vec::new();
            assert(views(self.pick.pool@) =~= Seq::empty());
        }
    }

    /// What is said while a purge has no filter.
    pub fn how_hint(&self) -> (r: Option<&'static str>)
        ensures
            (r is Some) == (self@.pick.command == Command::Purge && expression(self@.filter)
                is None),
            r matches Some(s) ==> s@
                == "PURGE needs at least one filter condition — with no filter, nothing matches and nothing can be deleted."@,
    {
        if self.pick.command == Command::Purge && self.filter_string().is_none() {
            Some(
                "PURGE needs at least one filter condition — with no filter, nothing matches and nothing can be deleted.",
            )
        } else {
            None
        }
    }

    /// What the board's place says while there is no plan.
    pub fn empty_hint(&self) -> (r: &'static str)
        ensures
            r@ == if self@.pick.command == Command::EmptyDirs {
                "Pick a repo, then press RUN."@
            } else {
                "Pick a repo and command, then press REVIEW."@
            },
    {
        if self.pick.command == Command::EmptyDirs {
            "Pick a repo, then press RUN."
        } else {
            "Pick a repo and command, then press REVIEW."
        }
    }

    /// The click that a row's command stands for: applying it, or opening its file
    /// beside the path on its right side.
    pub fn row_act(&self, row: usize, cmd: Cmd) -> (r: Option<Act>)
        ensures
            match r {
                Some(Act::ApplyRow(key)) => cmd == Cmd::Apply && row < self.shown.rows@.len() && key@
                    == self.shown.rows@[row as int].key@,
                Some(Act::Inspect(left, right)) => {
                    &&& cmd == Cmd::OpenRow
                    &&& row < self.shown.rows@.len()
                    &&& self.shown.rows@[row as int].left_paths@.len() > 0
                    &&& left@ == self.shown.rows@[row as int].left_paths@[0]@
                    &&& opt_view(right) == if self.shown.rows@[row as int].right_paths@.len() > 0 {
                        Some(self.shown.rows@[row as int].right_paths@[0]@)
                    } else {
                        None
                    }
                },
                Some(_) => false,
                None => row >= self.shown.rows@.len() || (cmd != Cmd::Apply && !(cmd == Cmd::OpenRow
                    && self.shown.rows@[row as int].left_paths@.len() > 0)),
            },
    {
        if row >= self.shown.rows.len() {
            return None;
        }
        let meta = &self.shown.rows[row];
        match cmd {
            Cmd::Apply => Some(Act::ApplyRow(meta.key.clone())),
            Cmd::OpenRow => if meta.left_paths.len() > 0 {
                let right = if meta.right_paths.len() > 0 {
                    Some(meta.right_paths[0].clone())
                } else {
                    None
                };
                Some(Act::Inspect(meta.left_paths[0].clone(), right))
            } else {
                None
            },
            _ => None,
        }
    }
}

/// The names that the store gives.
pub struct StoreNames {
    pub repos: Vec<String>,
    /// The repositories that a backup group pushes to.
    pub sinks: Vec<String>,
    /// The repositories that are the main of a backup group.
    pub mains: Vec<String>,
}

impl GroomModel {
    /// The tab after the store's names were read.
    pub open spec fn synced(self, listed: Result<StoreNames, String>) -> GroomModel {
        match listed {
            Err(e) => self.with_error(Some(e@)),
            Ok(names) => {
                let repos = unknown_of(views(names.repos@), views(names.sinks@));
                GroomModel {
                    known: KnownModel { repos, mains: views(names.mains@), loaded: true },
                    pick: PickModel {
                        source: still_there(self.pick.source, repos),
                        repo: still_there(self.pick.repo, repos),
                        pool: known_of(self.pick.pool, repos),
                        ..self.pick
                    },
                    ..self
                }.with_error(None)
            },
        }
    }
}

/// A pick, unless it is gone.
pub open spec fn still_there(pick: Option<Seq<char>>, repos: Texts) -> Option<Seq<char>> {
    match pick {
        Some(name) => if repos.contains(name) {
            pick
        } else {
            None
        },
        None => None,
    }
}

/// The one line that a selection folds into.
pub open spec fn summary_of(m: GroomModel) -> Seq<char> {
    let repo = match m.acted_on() {
        Some(name) => name,
        None => Seq::empty(),
    };
    m.pick.command.title() + (if m.pick.command == Command::Dedupe {
        " from '"@ + repo + "' against "@ + joined(m.pick.pool, ", "@)
    } else {
        " in '"@ + repo + "'"@
    }) + match m.pick.command {
        Command::Dedupe | Command::Purge => match expression(m.filter) {
            Some(f) => " · filter: "@ + f,
            None => Seq::empty(),
        },
        Command::Organize => " · "@ + dec(usable_rules(m.rules).len()) + " rule(s)"@,
        _ => Seq::empty(),
    }
}

fn push_all(list: &mut Vec<String>, more: &Vec<String>)
    ensures
        views(final(list)@) == views(old(list)@) + views(more@),
{
    let ghost start = views(list@);
    let mut i: usize = 0;
    assert(views(list@) =~= start + views(more@).take(0));
    while i < more.len()
        invariant
            i <= more@.len(),
            views(list@) == start + views(more@).take(i as int),
        decreases more@.len() - i,
    {
        let ghost was = list@;
        list.push(more[i].clone());
        assert(views(list@) =~= views(was).push(more@[i as int]@));
        i += 1;
        assert(views(list@) =~= start + views(more@).take(i as int));
    }
    assert(views(more@).take(i as int) =~= views(more@));
}

/// The title of a rule's section.
pub fn rule_title(i: usize) -> (r: String)
    ensures
        r@ == "RULE "@ + dec((i + 1) as nat) + " — MATCH & RENAME"@,
{
    let mut s = "RULE ".to_string();
    push_decimal(&mut s, i as u128 + 1);
    s.append(" — MATCH & RENAME");
    s
}

/// The key of a shortcut as a click: a command's number, reviewing, running.
pub fn shortcut(key: char) -> (r: Option<Act>)
    ensures
        r == (match key {
            '1' => Some(Act::SetCommand(Command::Dedupe)),
            '2' => Some(Act::SetCommand(Command::Purge)),
            '3' => Some(Act::SetCommand(Command::EmptyDirs)),
            '4' => Some(Act::SetCommand(Command::Organize)),
            '5' => Some(Act::SetCommand(Command::Prune)),
            'P' => Some(Act::Preview),
            'R' => Some(Act::Ask),
            _ => None,
        }),
{
    match key {
        '1' => Some(Act::SetCommand(Command::Dedupe)),
        '2' => Some(Act::SetCommand(Command::Purge)),
        '3' => Some(Act::SetCommand(Command::EmptyDirs)),
        '4' => Some(Act::SetCommand(Command::Organize)),
        '5' => Some(Act::SetCommand(Command::Prune)),
        'P' => Some(Act::Preview),
        'R' => Some(Act::Ask),
        _ => None,
    }
}

/// Where a token goes in a template of `n` characters: at the caret, and at the end
/// where there is none.
pub open spec fn insert_place(n: nat, caret: Option<usize>) -> int {
    match caret {
        Some(i) => if i <= n {
            i as int
        } else {
            n as int
        },
        None => n as int,
    }
}

/// Inserts a token into a template at the caret. `field` is `None` while the text
/// field was never focused; then the token is appended and there is no caret to
/// move. Returns where the caret goes: just after the token.
pub fn insert_at_cursor(template: &mut String, text: &str, field: Option<Option<usize>>) -> (r:
    Option<u128>)
    ensures
        match field {
            None => {
                &&& final(template)@ == old(template)@ + text@
                &&& r is None
            },
            Some(caret) => {
                let at = insert_place(old(template)@.len(), caret);
                &&& final(template)@ == old(template)@.take(at) + text@ + old(template)@.skip(at)
                &&& r == Some((at + text@.len()) as u128)
            },
        },
{
    let caret = match field {
        None => {
            template.append(text);
            return None;
        },
        Some(caret) => caret,
    };
    let ghost start = template@;
    let chars = chars_of(template.as_str());
    let n = chars.len();
    let at: usize = match caret {
        Some(i) => if i <= n {
            i
        } else {
            n
        },
        None => n,
    };
    let mut out = string_of(&chars, 0, at);
    out.append(text);
    out.append(string_of(&chars, at, n).as_str());
    proof {
        assert(start.subrange(0, at as int) =~= start.take(at as int));
        assert(start.subrange(at as int, n as int) =~= start.skip(at as int));
    }
    *template = out;
    let added = chars_of(text);
    Some(at as u128 + added.len() as u128)
}

/// A token always ends up in the template, and nothing that was there is lost.
pub proof fn law_a_token_is_inserted_whole(template: Seq<char>, text: Seq<char>, caret: Option<usize>)
    ensures
        ({
            let at = insert_place(template.len(), caret);
            let now = template.take(at) + text + template.skip(at);
            &&& now.subrange(at, at + text.len()) == text
            &&& now.take(at) + now.skip(at + text.len()) == template
        }),
{
    let at = insert_place(template.len(), caret);
    let now = template.take(at) + text + template.skip(at);
    assert(now.subrange(at, at + text.len()) =~= text);
    assert(now.take(at) + now.skip(at + text.len()) =~= template);
}

/// Whatever is clicked, no run that deletes or moves files of a protected
/// repository is asked for, and asking for one neither plans nor raises a
/// question. A sweep of empty directories that was confirmed takes no file.
pub proof fn law_nothing_runs_past_the_lock(m: GroomModel, act: Act, read_only: bool)
    requires
        m.barred(read_only),
        !(m.pick.command == Command::EmptyDirs && act is Confirm),
    ensures
        !(m.effect(act, read_only) is Run),
        m.effect(Act::Ask, read_only) == EffectModel::Nothing,
        m.after(Act::Ask, read_only) == m,
{
}

/// Setting up something else takes the old plan off the board, so that a plan is
/// never confirmed for a selection it was not made for.
pub proof fn law_a_new_selection_clears_the_plan(m: GroomModel, act: Act, read_only: bool)
    requires
        act is SetCommand || act is PickSource || act is TogglePool || act is PickRepo
            || act is AddRule || act is RemoveRule,
    ensures
        m.after(act, read_only).shown.rows.len() == 0,
        m.after(act, read_only).shown.total == 0,
        m.after(act, read_only).shown.hidden == Set::<KeyModel>::empty(),
{
}

/// The source is never in the pool after it was picked.
pub proof fn law_the_source_is_not_in_the_pool(m: GroomModel, name: String, read_only: bool)
    ensures
        !m.after(Act::PickSource(name), read_only).pick.pool.contains(name@),
{
    lemma_dropped(m.pick.pool, name@);
}

/// A purge without a filter is never ready to run.
pub proof fn law_purge_needs_a_filter(m: GroomModel)
    requires
        m.pick.command == Command::Purge,
        expression(m.filter) is None,
    ensures
        !m.ready(),
{
}

/// Every rule whose template is not blank is handed on, in order, with its filter and
/// its template trimmed; a rule without a template is not.
pub proof fn law_rules_with_a_template_are_handed_on(rules: Seq<RuleModel>)
    ensures
        picks(
            rules,
            usable_rules(rules),
            |rule: RuleModel| trimmed(rule.template).len() > 0,
            |rule: RuleModel|
                OrganizeModel { filter: expression(rule.filter), template: trimmed(rule.template) },
        ),
    decreases rules.len(),
{
    let keep = |rule: RuleModel| trimmed(rule.template).len() > 0;
    let give = |rule: RuleModel|
        OrganizeModel { filter: expression(rule.filter), template: trimmed(rule.template) };
    if rules.len() == 0 {
        lemma_picks_nothing(rules, usable_rules(rules), keep, give);
    } else {
        let part = rules.drop_last();
        law_rules_with_a_template_are_handed_on(part);
        lemma_picks_last(rules, usable_rules(part), usable_rules(rules), keep, give);
    }
}

/// Deleting duplicates acts on the source, every other command on the picked
/// repository.
pub proof fn law_a_command_acts_on_its_own_repository(m: GroomModel)
    ensures
        m.pick.command == Command::Dedupe ==> m.acted_on() == m.pick.source,
        m.pick.command != Command::Dedupe ==> m.acted_on() == m.pick.repo,
{
}

/// A command is ready where its repository is picked and it has what else it needs:
/// deleting duplicates a pool, a purge a filter, a reorganisation a rule.
pub proof fn law_a_command_is_ready_when_it_has_all(m: GroomModel)
    ensures
        m.ready() ==> m.acted_on() is Some,
        m.pick.command == Command::Dedupe ==> m.ready() == (m.pick.source is Some
            && m.pick.pool.len() > 0),
        m.pick.command == Command::Purge ==> m.ready() == (m.pick.repo is Some && expression(
            m.filter,
        ) is Some),
        m.pick.command == Command::Organize ==> m.ready() == (m.pick.repo is Some
            && m.rules.len() > 0),
        m.pick.command == Command::EmptyDirs || m.pick.command == Command::Prune ==> m.ready() == (
        m.pick.repo is Some),
{
}

/// A protected repository bars every command on it but pruning, which changes the
/// index only; an unprotected one bars nothing.
pub proof fn law_a_lock_bars_all_but_pruning(m: GroomModel)
    ensures
        !m.barred(false),
        !m.stopped(false),
        m.pick.command == Command::Prune ==> !m.barred(true),
        m.pick.command != Command::Prune && m.acted_on() is Some ==> m.barred(true),
        m.acted_on() is None ==> !m.barred(true),
        m.pick.command == Command::EmptyDirs ==> !m.stopped(true),
        m.pick.command != Command::EmptyDirs ==> m.stopped(true) == m.barred(true),
{
}

/// A plan is made for what is picked, with the filter or the rules as they stand, and
/// none is made where no repository is picked or where directories are swept.
pub proof fn law_a_plan_is_for_what_is_picked(m: GroomModel, confirm: bool)
    ensures
        m.acted_on() is None || m.pick.command == Command::EmptyDirs ==> m.plan(confirm) is Nothing,
        m.plan(confirm) matches EffectModel::Plan { order, repos, title, confirm: c } ==> {
            &&& c == confirm
            &&& repos.len() > 0
            &&& m.acted_on() == Some(repos[0])
            &&& m.pick.command == Command::Dedupe ==> repos.skip(1) == m.pick.pool
            &&& m.pick.command != Command::Dedupe ==> repos.len() == 1
            &&& title == "REVIEW "@ + m.pick.command.title()
            &&& m.pick.command == Command::Dedupe ==> {
                &&& order matches SpecModel::Dedupe { source, pool, filter }
                &&& m.pick.source == Some(source)
                &&& pool == m.pick.pool
                &&& filter == expression(m.filter)
            }
            &&& m.pick.command == Command::Purge ==> {
                &&& order matches SpecModel::Purge { repo, filter }
                &&& m.pick.repo == Some(repo)
                &&& filter == expression(m.filter)
            }
            &&& m.pick.command == Command::Prune ==> {
                &&& order matches SpecModel::Prune { repo }
                &&& m.pick.repo == Some(repo)
            }
            &&& m.pick.command == Command::Organize ==> {
                &&& order matches SpecModel::Organize { repo, rules }
                &&& m.pick.repo == Some(repo)
                &&& rules == usable_rules(m.rules)
            }
        },
        m.acted_on() is Some && m.pick.command != Command::EmptyDirs ==> m.plan(confirm) is Plan,
{
    if let EffectModel::Plan { repos, .. } = m.plan(confirm) {
        if m.pick.command == Command::Dedupe {
            assert(repos.skip(1) =~= m.pick.pool);
        }
    }
}

/// A run is of what is picked, leaves out the hidden rows, and is of one row exactly
/// where one row was asked for.
pub proof fn law_a_run_is_of_what_is_picked(m: GroomModel, only: Option<KeyModel>)
    ensures
        m.acted_on() is None ==> m.run(only) is Nothing,
        m.acted_on() matches Some(repo) ==> {
            &&& m.run(only) matches EffectModel::Run(r)
            &&& r.command == m.pick.command
            &&& r.repo == repo
            &&& r.pool == m.pick.pool
            &&& r.filter == expression(m.filter)
            &&& r.rules == usable_rules(m.rules)
            &&& r.hidden == m.shown.hidden
            &&& r.only == only
            &&& r.title == m.pick.command.title() + " '"@ + repo + "'"@
            &&& r.repos[0] == repo
            &&& m.pick.command == Command::Dedupe ==> r.repos.skip(1) == m.pick.pool
            &&& m.pick.command != Command::Dedupe ==> r.repos.len() == 1
        },
{
    if let EffectModel::Run(r) = m.run(only) {
        if m.pick.command == Command::Dedupe {
            assert(r.repos.skip(1) =~= m.pick.pool);
        }
    }
}

/// What the clicks that start work ask for: reviewing plans, running asks first,
/// answering yes runs all of it and a row's button runs that row.
pub proof fn law_clicks_start_the_work_they_say(
    m: GroomModel,
    key: RowKey,
    path: String,
    right: Option<String>,
    i: usize,
)
    ensures
        m.effect(Act::Preview, false) == m.plan(false),
        m.effect(Act::Preview, true) == m.plan(false),
        m.effect(Act::Ask, false) == m.plan(true),
        m.effect(Act::Confirm, false) == m.run(None),
        m.effect(Act::ApplyRow(key), false) == m.run(Some(key@)),
        m.effect(Act::CancelConfirm, false) is Nothing,
        m.effect(Act::AddRule, false) is Nothing,
        m.acted_on() matches Some(repo) ==> {
            &&& m.effect(Act::Inspect(path, right), false) matches EffectModel::ReadRow {
                repo: from,
                path: p,
                counterpart,
                pool,
            }
            &&& from == repo
            &&& p == path@
            &&& m.pick.command == Command::Dedupe ==> counterpart == opt_view(right)
            &&& m.pick.command != Command::Dedupe ==> counterpart is None
            &&& pool == m.pick.pool
        },
        m.acted_on() is None ==> m.effect(Act::Inspect(path, right), false) is Nothing,
        m.effect(Act::StorePreset, false) is SavePresets <==> m.rules.len() > 0,
        m.effect(Act::RemovePreset(i), false) is SavePresets <==> i < m.shelf.presets.len(),
        m.effect(Act::CommitRenamePreset(i), false) is SavePresets <==> i < m.shelf.presets.len()
            && trimmed(m.shelf.rename_buf).len() > 0,
        m.effect(Act::ApplyPreset(i), false) is Nothing,
{
}

/// What the question before a run says: the number of files and the repository, what
/// becomes of them, and how many rows are left out.
pub proof fn law_the_question_names_the_files(m: GroomModel, repo: Seq<char>)
    requires
        m.acted_on() == Some(repo),
    ensures
        ({
            let n = dec(m.shown.total as nat);
            let q = m.question(repo);
            &&& m.pick.command == Command::Dedupe ==> q == "Delete "@ + n + " file(s) from '"@
                + repo + "' whose content is in the dupe pool? This cannot be undone."@
            &&& m.pick.command == Command::Purge ==> q == "Delete all "@ + n
                + " file(s) matching the filter from '"@ + repo + "'? This cannot be undone."@
            &&& m.pick.command == Command::EmptyDirs ==> q
                == "Remove all empty directories under '"@ + repo + "'?"@
            &&& m.pick.command == Command::Prune ==> q == "Permanently drop "@ + n
                + " record(s) of deleted files from '"@ + repo
                + "' and compact its index? This cannot be undone."@
            &&& m.pick.command == Command::Organize ==> q == "Move "@ + n
                + " file(s) into their new layout in '"@ + repo
                + "'? Files move within the repo; nothing is overwritten (collisions are renamed)."@
            &&& m.prompt() matches Some(p)
            &&& m.shown.hidden.len() == 0 ==> p == q
            &&& m.shown.hidden.len() > 0 ==> p == q + (" "@ + dec(m.shown.hidden.len())
                + " hidden row(s) will be skipped."@)
        }),
{
    assert(m.question(repo) + Seq::<char>::empty() =~= m.question(repo));
}

/// No question is put where no repository is picked.
pub proof fn law_no_question_without_a_repository(m: GroomModel)
    requires
        m.acted_on() is None,
    ensures
        m.prompt() is None,
{
}

/// What each pick changes: that pick, and the plan, which goes off the board. The
/// rest stays.
pub proof fn law_a_pick_changes_only_itself(
    m: GroomModel,
    name: String,
    command: Command,
    read_only: bool,
)
    ensures
        ({
            let r = m.after(Act::SetCommand(command), read_only);
            &&& r.pick.command == command
            &&& r.pick.chosen
            &&& r.pick.source == m.pick.source
            &&& r.pick.pool == m.pick.pool
            &&& r.pick.repo == m.pick.repo
            &&& r.pick.collapsed == m.pick.collapsed
            &&& r.rules == m.rules
            &&& r.filter == m.filter
            &&& r.words == m.words
            &&& r.shelf == m.shelf
            &&& r.progress == m.progress
        }),
        ({
            let r = m.after(Act::PickSource(name), read_only);
            &&& r.pick.source == Some(name@)
            &&& drops(m.pick.pool, r.pick.pool, name@)
            &&& r.pick.command == m.pick.command
            &&& r.pick.repo == m.pick.repo
            &&& r.rules == m.rules
            &&& r.filter == m.filter
            &&& r.words == m.words
        }),
        ({
            let r = m.after(Act::TogglePool(name), read_only);
            &&& !m.pick.pool.contains(name@) ==> r.pick.pool == m.pick.pool.push(name@)
            &&& m.pick.pool.contains(name@) ==> r.pick.pool.len() + 1 == m.pick.pool.len()
            &&& r.pick.source == m.pick.source
            &&& r.pick.command == m.pick.command
            &&& r.pick.repo == m.pick.repo
            &&& r.words == m.words
        }),
        ({
            let r = m.after(Act::PickRepo(name), read_only);
            &&& r.pick.repo == Some(name@)
            &&& r.pick.source == m.pick.source
            &&& r.pick.pool == m.pick.pool
            &&& r.pick.command == m.pick.command
            &&& r.rules == m.rules
            &&& r.words == m.words
        }),
{
    law_dropping_leaves_the_others(m.pick.pool, name@);
    law_switching_changes_one_name(m.pick.pool, name@);
}

/// A new rule stands at the end with the default template and no condition; removing
/// one takes out that one.
pub proof fn law_rules_come_and_go_one_by_one(m: GroomModel, i: usize, read_only: bool, k: int)
    ensures
        ({
            let r = m.after(Act::AddRule, read_only);
            &&& r.rules.len() == m.rules.len() + 1
            &&& r.rules.last().template == m.default_template
            &&& r.rules.last().filter == BuilderModel::fresh()
            &&& 0 <= k < m.rules.len() ==> r.rules[k] == m.rules[k]
            &&& r.shelf == m.shelf
            &&& r.pick == m.pick
        }),
        ({
            let r = m.after(Act::RemoveRule(i), read_only);
            &&& i >= m.rules.len() ==> r.rules == m.rules
            &&& i < m.rules.len() ==> r.rules.len() + 1 == m.rules.len()
            &&& i < m.rules.len() && 0 <= k < i ==> r.rules[k] == m.rules[k]
            &&& i < m.rules.len() && i <= k < m.rules.len() - 1 ==> r.rules[k] == m.rules[k + 1]
            &&& r.shelf == m.shelf
            &&& r.pick == m.pick
        }),
{
}

/// Storing puts a preset with every rule at the end of the list, under a name of its
/// own; applying one gives its rules, one for one; removing one takes out that one;
/// renaming gives that one its trimmed new name.
pub proof fn law_presets_are_kept_one_by_one(m: GroomModel, i: usize, read_only: bool, k: int)
    ensures
        ({
            let r = m.after(Act::StorePreset, read_only);
            &&& m.rules.len() == 0 ==> r == m
            &&& m.rules.len() > 0 ==> {
                &&& r.shelf.presets.len() == m.shelf.presets.len() + 1
                &&& r.shelf.presets.last().rules.len() == m.rules.len()
                &&& 0 <= k < m.rules.len() ==> {
                    let saved = r.shelf.presets.last().rules[k];
                    &&& saved.template == m.rules[k].template
                    &&& expression(m.rules[k].filter) matches Some(f) ==> saved.filter == f
                    &&& expression(m.rules[k].filter) is None ==> saved.filter.len() == 0
                }
                &&& 0 <= k < m.shelf.presets.len() ==> r.shelf.presets[k] == m.shelf.presets[k]
                &&& r.words.status is Some
            }
            &&& r.rules == m.rules
            &&& r.shown == m.shown
        }),
        ({
            let r = m.after(Act::ApplyPreset(i), read_only);
            &&& i >= m.shelf.presets.len() ==> r == m
            &&& i < m.shelf.presets.len() ==> {
                let saved = m.shelf.presets[i as int].rules;
                &&& saved.len() > 0 ==> r.rules.len() == saved.len()
                &&& 0 <= k < saved.len() ==> r.rules[k].template == saved[k].template
                    && r.rules[k].filter.filters == crate::filter_expr::conds_of(
                    crate::filter_expr::groups(saved[k].filter),
                )
                &&& saved.len() == 0 ==> r.rules.len() == 1 && r.rules[0].template
                    == m.default_template
                &&& r.shown.rows.len() == 0
            }
            &&& r.shelf == m.shelf
        }),
        ({
            let r = m.after(Act::RemovePreset(i), read_only);
            &&& i >= m.shelf.presets.len() ==> r == m
            &&& i < m.shelf.presets.len() ==> r.shelf.presets.len() + 1 == m.shelf.presets.len()
            &&& i < m.shelf.presets.len() && 0 <= k < i ==> r.shelf.presets[k]
                == m.shelf.presets[k]
            &&& i < m.shelf.presets.len() && i <= k < m.shelf.presets.len() - 1
                ==> r.shelf.presets[k] == m.shelf.presets[k + 1]
            &&& r.rules == m.rules
        }),
        ({
            let r = m.after(Act::CommitRenamePreset(i), read_only);
            let name = trimmed(m.shelf.rename_buf);
            &&& r.shelf.renaming is None
            &&& r.shelf.presets.len() == m.shelf.presets.len()
            &&& i < m.shelf.presets.len() && name.len() > 0 ==> r.shelf.presets[i as int].name
                == name
            &&& i < m.shelf.presets.len() && name.len() == 0 ==> r.shelf.presets[i as int].name
                == m.shelf.presets[i as int].name
            &&& 0 <= k < m.shelf.presets.len() ==> r.shelf.presets[k].rules
                == m.shelf.presets[k].rules
            &&& 0 <= k < m.shelf.presets.len() && k != i ==> r.shelf.presets[k]
                == m.shelf.presets[k]
            &&& r.rules == m.rules
        }),
{
}

/// Answering a question takes it away; only sweeping directories, which has no plan,
/// is asked about at once.
pub proof fn law_questions_are_asked_and_answered(m: GroomModel, read_only: bool)
    ensures
        m.after(Act::Confirm, read_only).words.confirm is None,
        m.after(Act::CancelConfirm, read_only).words.confirm is None,
        m.after(Act::Confirm, read_only).words.status == m.words.status,
        m.after(Act::Confirm, read_only).shown == m.shown,
        m.after(Act::CancelConfirm, read_only).shown == m.shown,
        m.after(Act::Preview, read_only) == m,
        m.pick.command != Command::EmptyDirs ==> m.after(Act::Ask, read_only) == m,
        m.pick.command == Command::EmptyDirs && !read_only && m.pick.repo is Some ==> m.after(
            Act::Ask,
            read_only,
        ).words.confirm == m.prompt(),
{
}

/// A finished plan is on the board as it came, with its status; a failed one says why
/// and leaves the board. Asked about it is only where that was wanted.
pub proof fn law_a_finished_plan_is_on_the_board(m: GroomModel, data: PreviewData, confirm: bool)
    ensures
        ({
            let r = m.showing(Ok(data), confirm);
            &&& r.shown.rows == data.metas@
            &&& r.shown.bodies == data.bodies@
            &&& r.shown.total == data.total
            &&& r.shown.totals == data.totals@
            &&& r.shown.source_header == data.source_header@
            &&& r.shown.target_header == opt_view(data.target_header)
            &&& r.shown.hidden == m.shown.hidden
            &&& r.words.status == Some(data.status@)
            &&& r.words.error is None
            &&& !confirm ==> r.words.confirm == m.words.confirm
            &&& confirm && m.acted_on() is Some ==> r.words.confirm is Some
            &&& r.pick == m.pick
            &&& r.rules == m.rules
        }),
{
}

/// What a message changes: the end of a plan or a run ends it, a failure is told as an
/// error, and everything else as a status.
pub proof fn law_messages_end_the_work(
    m: GroomModel,
    result: OpResult,
    e: String,
    confirm: bool,
    headline: Seq<char>,
)
    ensures
        ({
            let r = m.received(Msg::PreviewCancelled, headline);
            &&& !r.progress.previewing
            &&& r.progress.running == m.progress.running
            &&& r.words.status == Some("review cancelled"@)
            &&& r.words.error == m.words.error
            &&& r.shown == m.shown
        }),
        ({
            let r = m.received(Msg::Preview { result: Err(e), confirm }, headline);
            &&& !r.progress.previewing
            &&& r.words.error == Some(e@)
            &&& r.words.confirm == m.words.confirm
            &&& r.shown == m.shown
        }),
        ({
            let r = m.received(Msg::Done(result), headline);
            &&& !r.progress.running
            &&& !r.progress.row_action
            &&& r.progress.previewing == m.progress.previewing
            &&& r.progress.pending_refresh == m.progress.pending_refresh
            &&& result matches OpResult::Error(x) ==> r.words.error == Some(x@) && r.words.status
                == m.words.status
            &&& !(result is Error) ==> r.words.error is None
            &&& result is Applied ==> r.words.status == Some(headline)
            &&& !(result is Error) && !(result is Applied) ==> r.words.status == Some(
                op_report(result).headline(),
            )
            &&& r.shown == m.shown
            &&& r.pick == m.pick
        }),
{
}

/// After the store was read, the tab knows the repositories that no group pushes to,
/// in order, and what was picked and is no longer among them is no longer picked.
pub proof fn law_a_read_store_is_known(m: GroomModel, names: StoreNames)
    ensures
        ({
            let r = m.synced(Ok(names));
            let repos = r.known.repos;
            &&& forall|i: int|
                0 <= i < names.repos@.len() ==> (repos.contains((#[trigger] names.repos@[i])@)
                    <==> !views(names.sinks@).contains(names.repos@[i]@))
            &&& forall|t: Seq<char>| #[trigger]
                repos.contains(t) ==> views(names.repos@).contains(t)
            &&& r.known.mains == views(names.mains@)
            &&& r.known.loaded
            &&& r.words.error is None
            &&& m.pick.source matches Some(s) ==> r.pick.source == if repos.contains(s) {
                Some(s)
            } else {
                None
            }
            &&& m.pick.source is None ==> r.pick.source is None
            &&& m.pick.repo matches Some(s) ==> r.pick.repo == if repos.contains(s) {
                Some(s)
            } else {
                None
            }
            &&& m.pick.repo is None ==> r.pick.repo is None
            &&& forall|t: Seq<char>| #[trigger]
                r.pick.pool.contains(t) <==> m.pick.pool.contains(t) && repos.contains(t)
            &&& r.pick.command == m.pick.command
            &&& r.shown == m.shown
        }),
{
    let all = views(names.repos@);
    let sinks = views(names.sinks@);
    let repos = unknown_of(all, sinks);
    lemma_known_members(all, sinks);
    lemma_known_members(m.pick.pool, repos);
    assert forall|i: int| 0 <= i < names.repos@.len() implies (repos.contains(
        (#[trigger] names.repos@[i])@,
    ) <==> !sinks.contains(names.repos@[i]@)) by {
        assert(all[i] == names.repos@[i]@);
        assert(all.contains(all[i]));
    }
}

proof fn lemma_known_members(list: Texts, known: Texts)
    ensures
        forall|t: Seq<char>| #[trigger]
            known_of(list, known).contains(t) <==> list.contains(t) && known.contains(t),
        forall|t: Seq<char>| #[trigger]
            unknown_of(list, known).contains(t) <==> list.contains(t) && !known.contains(t),
    decreases list.len(),
{
    if list.len() > 0 {
        let part = list.drop_last();
        lemma_known_members(part, known);
        let last = list.last();
        assert(list =~= part.push(last));
        assert forall|t: Seq<char>|
            list.contains(t) <==> part.contains(t) || t == last by {
            lemma_push_contains(part, last, t);
        }
        assert forall|t: Seq<char>| #[trigger]
            known_of(list, known).contains(t) <==> list.contains(t) && known.contains(t) by {
            lemma_push_contains(known_of(part, known), last, t);
        }
        assert forall|t: Seq<char>| #[trigger]
            unknown_of(list, known).contains(t) <==> list.contains(t) && !known.contains(t) by {
            lemma_push_contains(unknown_of(part, known), last, t);
        }
    }
}

proof fn lemma_push_contains(list: Texts, last: Seq<char>, t: Seq<char>)
    ensures
        list.push(last).contains(t) <==> list.contains(t) || t == last,
{
    let all = list.push(last);
    if list.contains(t) {
        let i = list.index_of(t);
        assert(all[i] == t);
    }
    if t == last {
        assert(all[list.len() as int] == t);
    }
    if all.contains(t) {
        let i = all.index_of(t);
        if i < list.len() {
            assert(list[i] == t);
        }
    }
}

/// The line that a selection folds into names the command, the repository, and what
/// decides which files it takes.
pub proof fn law_a_selection_folds_into_a_line(m: GroomModel, repo: Seq<char>)
    requires
        m.acted_on() == Some(repo),
    ensures
        ({
            let s = summary_of(m);
            let t = m.pick.command.title();
            let f = match expression(m.filter) {
                Some(f) => " · filter: "@ + f,
                None => Seq::empty(),
            };
            &&& m.pick.command == Command::Dedupe ==> s == t + (" from '"@ + repo + "' against "@
                + joined(m.pick.pool, ", "@)) + f
            &&& m.pick.command == Command::Purge ==> s == t + (" in '"@ + repo + "'"@) + f
            &&& m.pick.command == Command::Organize ==> s == t + (" in '"@ + repo + "'"@) + (
            " · "@ + dec(usable_rules(m.rules).len()) + " rule(s)"@)
            &&& m.pick.command == Command::Prune || m.pick.command == Command::EmptyDirs ==> s == t
                + (" in '"@ + repo + "'"@)
        }),
{
    let t = m.pick.command.title() + (" in '"@ + repo + "'"@);
    assert(t + Seq::<char>::empty() =~= t);
}

/// A token goes in at the caret, and at the end where there is no caret or it stands
/// past the end.
pub proof fn law_a_token_goes_in_at_the_caret(n: nat, at: usize)
    ensures
        insert_place(n, None) == n,
        at <= n ==> insert_place(n, Some(at)) == at,
        at > n ==> insert_place(n, Some(at)) == n,
{
}

/// What the model says of a tab is what its fields hold.
pub proof fn law_the_model_holds_the_fields(v: GroomingView)
    ensures
        v@.pick.command == v.pick.command,
        v@.pick.chosen == v.pick.chosen,
        v@.pick.source == opt_view(v.pick.source),
        v@.pick.repo == opt_view(v.pick.repo),
        v@.pick.pool == views(v.pick.pool@),
        v@.pick.collapsed == v.pick.collapsed,
        v@.filter == v.filter@,
        v@.rules.len() == v.rules@.len(),
        forall|i: int| 0 <= i < v.rules@.len() ==> #[trigger] v@.rules[i] == v.rules@[i]@,
        v@.shown.rows == v.shown.rows@,
        v@.shown.total == v.shown.total,
        v@.shown.hidden == v.shown.hidden@,
        v@.words.status == opt_view(v.words.status),
        v@.words.error == opt_view(v.words.error),
        v@.words.confirm == opt_view(v.words.confirm),
        v@.progress == v.progress,
        v@.known.repos == views(v.known.repos@),
        v@.known.mains == views(v.known.mains@),
        v@.shelf.presets.len() == v.shelf.presets@.len(),
        v@.default_template == v.default_template@,
{
}

/// A token inserts its label in braces; the last one is the slash, which stands for
/// itself.
pub proof fn law_tokens_insert_their_labels(i: int)
    requires
        0 <= i,
    ensures
        all_tokens().len() == 12,
        i < 11 ==> all_tokens()[i].1 == "{"@ + all_tokens()[i].0 + "}"@,
        all_tokens()[11] == ("/"@, "/"@),
{
    reveal_strlit("{");
    reveal_strlit("}");
    reveal_strlit("o-path");
    reveal_strlit("{o-path}");
    reveal_strlit("o-name");
    reveal_strlit("{o-name}");
    reveal_strlit("o-stem");
    reveal_strlit("{o-stem}");
    reveal_strlit("o-ext");
    reveal_strlit("{o-ext}");
    reveal_strlit("year");
    reveal_strlit("{year}");
    reveal_strlit("month");
    reveal_strlit("{month}");
    reveal_strlit("day");
    reveal_strlit("{day}");
    reveal_strlit("mimetop");
    reveal_strlit("{mimetop}");
    reveal_strlit("camera");
    reveal_strlit("{camera}");
    reveal_strlit("origin");
    reveal_strlit("{origin}");
    reveal_strlit("size");
    reveal_strlit("{size}");
    assert("{o-path}"@ =~= "{"@ + "o-path"@ + "}"@);
    assert("{o-name}"@ =~= "{"@ + "o-name"@ + "}"@);
    assert("{o-stem}"@ =~= "{"@ + "o-stem"@ + "}"@);
    assert("{o-ext}"@ =~= "{"@ + "o-ext"@ + "}"@);
    assert("{year}"@ =~= "{"@ + "year"@ + "}"@);
    assert("{month}"@ =~= "{"@ + "month"@ + "}"@);
    assert("{day}"@ =~= "{"@ + "day"@ + "}"@);
    assert("{mimetop}"@ =~= "{"@ + "mimetop"@ + "}"@);
    assert("{camera}"@ =~= "{"@ + "camera"@ + "}"@);
    assert("{origin}"@ =~= "{"@ + "origin"@ + "}"@);
    assert("{size}"@ =~= "{"@ + "size"@ + "}"@);
}

/// A stored preset gives its rules back: the same templates, and filters of the same
/// expression, where the values of the conditions can be read back at all.
pub proof fn law_a_preset_gives_its_rules_back(rules: Seq<RuleModel>, k: int)
    requires
        0 <= k < rules.len(),
        crate::filter_expr::plain_conds(rules[k].filter.filters),
    ensures
        from_preset(to_preset(rules)).len() == rules.len(),
        from_preset(to_preset(rules))[k].template == rules[k].template,
        expression(from_preset(to_preset(rules))[k].filter) == expression(rules[k].filter),
{
    let f = rules[k].filter;
    match expression(f) {
        Some(e) => {
            crate::filter_expr::law_composed_expression_is_stable(f.filters, f.case_insensitive);
        },
        None => {
            assert(to_preset(rules)[k].filter =~= Seq::empty());
            let none = crate::filter_expr::groups(Seq::empty());
            assert(none =~= Seq::empty());
            assert(crate::filter_expr::conds_of(none) =~= Seq::empty());
        },
    }
}

/// A wizard that holds an expression has its conditions, and ignores case where the
/// expression does; nothing is being added.
pub proof fn law_a_wizard_holds_its_expression(expr: Seq<char>)
    ensures
        holding(expr).filters == crate::filter_expr::conds_of(crate::filter_expr::groups(expr)),
        holding(expr).case_insensitive == crate::filter_expr::ignores_case(
            crate::filter_expr::groups(expr),
        ),
        !holding(expr).adding,
        holding(expr).history == BuilderModel::fresh().history,
{
}

} // verus!
