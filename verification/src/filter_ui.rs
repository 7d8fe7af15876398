//! The filter wizard shared by every tab: the active condition pills, their
//! inline editors, saved presets, suggestions, and a debounced match count.
//!
//! [`FilterBuilder`] is the wizard's state. A host shows what
//! [`FilterBuilder::bar`], [`FilterBuilder::preset_row`] and
//! [`FilterBuilder::cond_editor`] describe, hands each click back to
//! [`FilterBuilder::apply`], and reads the composed expression with
//! [`FilterBuilder::filter_string`].

use vstd::prelude::*;
use vstd::string::*;

pub use crate::filter_expr::{parse_conditions, FilterCond, FilterKind};
use crate::filter_expr::{
    compose, composed, cond_group, conds_of, conds_view, groups, ignores_case, kept, prefix_text,
    CondModel,
};
use crate::lists::{lemma_picks_last, lemma_picks_nothing, picks};
use crate::naming::{next_name, next_preset_name};
use crate::order::{ascending, insert_ascending};
use crate::recent::{nothing_to_record, record, recorded, Texts, HISTORY_LIMIT};
use crate::settings::TooltipVerbosity;
use crate::text::{
    contains_text, copy, dec, decimal, has_part, lowercase, push_decimal, same_text, to_lowercase,
    trim, trimmed, views,
};

verus! {

/// How long after the last edit the match count is computed, in milliseconds.
pub const COUNT_DEBOUNCE_MS: u64 = 350;

/// A single saved condition inside a preset. `kind` is the stable prefix.
#[derive(Debug, PartialEq, Eq)]
pub struct SavedCond {
    pub kind: String,
    pub value: String,
    pub negated: bool,
}

/// A saved condition's contents.
pub struct SavedModel {
    pub kind: Seq<char>,
    pub value: Seq<char>,
    pub negated: bool,
}

impl View for SavedCond {
    type V = SavedModel;

    open spec fn view(&self) -> SavedModel {
        SavedModel { kind: self.kind@, value: self.value@, negated: self.negated }
    }
}

/// The contents of each saved condition of a list.
pub open spec fn saved_view(conds: Seq<SavedCond>) -> Seq<SavedModel> {
    Seq::new(conds.len(), |i: int| conds[i]@)
}

/// A named preset: a whole condition set saved for reuse.
#[derive(Debug, PartialEq, Eq)]
pub struct FilterPreset {
    pub name: String,
    pub conds: Vec<SavedCond>,
}

/// A preset's contents.
pub struct PresetModel {
    pub name: Seq<char>,
    pub conds: Seq<SavedModel>,
}

impl View for FilterPreset {
    type V = PresetModel;

    open spec fn view(&self) -> PresetModel {
        PresetModel { name: self.name@, conds: saved_view(self.conds@) }
    }
}

/// The contents of each preset of a list.
pub open spec fn presets_view(presets: Seq<FilterPreset>) -> Seq<PresetModel> {
    Seq::new(presets.len(), |i: int| presets[i]@)
}

/// The names of a list of presets.
pub open spec fn preset_names(presets: Seq<PresetModel>) -> Texts {
    Seq::new(presets.len(), |i: int| presets[i].name)
}

/// Remembered values per kind and the named presets.
#[derive(Debug, PartialEq, Eq)]
pub struct FilterHistory {
    pub mime: Vec<String>,
    pub name: Vec<String>,
    pub size: Vec<String>,
    pub tag: Vec<String>,
    pub presets: Vec<FilterPreset>,
}

/// A history's contents.
#[verifier::ext_equal]
pub struct HistoryModel {
    pub mime: Texts,
    pub name: Texts,
    pub size: Texts,
    pub tag: Texts,
    pub presets: Seq<PresetModel>,
}

impl View for FilterHistory {
    type V = HistoryModel;

    open spec fn view(&self) -> HistoryModel {
        HistoryModel {
            mime: views(self.mime@),
            name: views(self.name@),
            size: views(self.size@),
            tag: views(self.tag@),
            presets: presets_view(self.presets@),
        }
    }
}

impl HistoryModel {
    /// The values remembered for a kind.
    pub open spec fn list(self, kind: FilterKind) -> Texts {
        match kind {
            FilterKind::Mime => self.mime,
            FilterKind::Name => self.name,
            FilterKind::Size => self.size,
            FilterKind::Tag => self.tag,
        }
    }

    /// The history with other values for one kind.
    pub open spec fn with_list(self, kind: FilterKind, list: Texts) -> HistoryModel {
        match kind {
            FilterKind::Mime => HistoryModel { mime: list, ..self },
            FilterKind::Name => HistoryModel { name: list, ..self },
            FilterKind::Size => HistoryModel { size: list, ..self },
            FilterKind::Tag => HistoryModel { tag: list, ..self },
        }
    }

    /// The history after a value was recorded.
    pub open spec fn with_value(self, kind: FilterKind, value: Seq<char>) -> HistoryModel {
        self.with_list(kind, recorded(self.list(kind), value))
    }

    /// The history after the values of some conditions were recorded, in order.
    pub open spec fn with_conds(self, conds: Seq<CondModel>) -> HistoryModel
        decreases conds.len(),
    {
        if conds.len() == 0 {
            self
        } else {
            let c = conds.last();
            self.with_conds(conds.drop_last()).with_value(c.kind, c.value)
        }
    }

    /// Recording the values of some conditions changes a list.
    pub open spec fn learns_from(self, conds: Seq<CondModel>) -> bool
        decreases conds.len(),
    {
        if conds.len() == 0 {
            false
        } else {
            let rest = conds.drop_last();
            let c = conds.last();
            self.learns_from(rest) || !nothing_to_record(
                self.with_conds(rest).list(c.kind),
                c.value,
            )
        }
    }
}

impl FilterHistory {
    /// A history that remembers nothing.
    pub fn new() -> (r: Self)
        ensures
            r@ == (HistoryModel {
                mime: Seq::empty(),
                name: Seq::empty(),
                size: Seq::empty(),
                tag: Seq::empty(),
                presets: Seq::empty(),
            }),
    {
        let r = FilterHistory {
            mime: Vec::new(),
            name: Vec::new(),
            size: Vec::new(),
            tag: Vec::new(),
            presets: Vec::new(),
        };
        proof {
            assert(r@.mime =~= Seq::empty());
            assert(r@.name =~= Seq::empty());
            assert(r@.size =~= Seq::empty());
            assert(r@.tag =~= Seq::empty());
            assert(r@.presets =~= Seq::empty());
        }
        r
    }

    /// The values remembered for a kind.
    pub fn for_kind(&self, kind: FilterKind) -> (r: &Vec<String>)
        ensures
            views(r@) == self@.list(kind),
    {
        match kind {
            FilterKind::Mime => &self.mime,
            FilterKind::Name => &self.name,
            FilterKind::Size => &self.size,
            FilterKind::Tag => &self.tag,
        }
    }

    /// The values remembered for a kind, to be changed.
    pub fn for_kind_mut(&mut self, kind: FilterKind) -> (r: &mut Vec<String>)
        ensures
            views(r@) == old(self)@.list(kind),
            final(self)@ == old(self)@.with_list(kind, views(final(r)@)),
            final(self).presets == old(self).presets,
    {
        match kind {
            FilterKind::Mime => &mut self.mime,
            FilterKind::Name => &mut self.name,
            FilterKind::Size => &mut self.size,
            FilterKind::Tag => &mut self.tag,
        }
    }

    /// Records a value at the front of its kind's list. Returns whether the list
    /// changed.
    pub fn record_value(&mut self, kind: FilterKind, value: &str) -> (r: bool)
        ensures
            final(self)@ == old(self)@.with_value(kind, value@),
            final(self).presets == old(self).presets,
            r == !nothing_to_record(old(self)@.list(kind), value@),
    {
        let list = self.for_kind_mut(kind);
        record(list, value)
    }

    /// Records the values of some conditions, in order. Returns whether any list
    /// changed.
    fn record_conds(&mut self, conds: &Vec<FilterCond>) -> (r: bool)
        ensures
            final(self)@ == old(self)@.with_conds(conds_view(conds@)),
            final(self).presets == old(self).presets,
            r == old(self)@.learns_from(conds_view(conds@)),
    {
        let ghost start = self@;
        let ghost kept_presets = self.presets;
        let ghost all = conds_view(conds@);
        let mut dirty = false;
        let mut i: usize = 0;
        while i < conds.len()
            invariant
                i <= conds@.len(),
                all == conds_view(conds@),
                self@ == start.with_conds(all.take(i as int)),
                self.presets == kept_presets,
                dirty == start.learns_from(all.take(i as int)),
            decreases conds@.len() - i,
        {
            proof {
                assert(all.take(i + 1).drop_last() =~= all.take(i as int));
                assert(all.take(i + 1).last() == conds@[i as int]@);
            }
            let changed = self.record_value(conds[i].kind, conds[i].value.as_str());
            dirty = dirty || changed;
            i += 1;
        }
        assert(all.take(i as int) =~= all);
        dirty
    }

    /// The names of the presets.
    fn names(&self) -> (r: Vec<String>)
        ensures
            views(r@) == preset_names(self@.presets),
    {
        let mut out: Vec<String> = Vec::new();
        let mut i: usize = 0;
        while i < self.presets.len()
            invariant
                i <= self.presets@.len(),
                views(out@) =~= preset_names(self@.presets).take(i as int),
            decreases self.presets@.len() - i,
        {
            let ghost before = out@;
            out.push(self.presets[i].name.clone());
            assert(views(out@) =~= views(before).push(self.presets@[i as int].name@));
            i += 1;
        }
        assert(views(out@) =~= preset_names(self@.presets));
        out
    }
}

/// A choice made in the wizard.
#[derive(Clone, Copy, Debug, PartialEq, Eq)]
pub enum Act {
    AddCond(FilterKind),
    RemoveCond(usize),
    EditCond(usize),
    CommitCond,
    ClearConds,
    StorePreset,
    ApplyPreset(usize),
    RemovePreset(usize),
    CommitRenamePreset(usize),
    /// Invert a single condition.
    ToggleNegate(usize),
    /// Switch text matching between heeding and ignoring case.
    ToggleCase,
    FilterChanged,
}

/// What applying a choice asks of the host.
#[derive(Clone, Copy, Debug, PartialEq, Eq)]
pub struct Applied {
    /// The composed filter changed: a preview of it is stale.
    pub changed: bool,
    /// The history changed and has to be written to disk.
    pub save: bool,
}

/// What a frame of the wizard produced for the host to act on.
pub struct FilterOutcome {
    pub changed: bool,
    /// A transient status message to surface.
    pub status: Option<String>,
    /// A transient error message to surface.
    pub error: Option<String>,
}

/// What to do about the debounced match count.
pub enum CountStep {
    /// No count is due.
    Idle,
    /// A count is due in this many milliseconds.
    Wait(u64),
    /// Count the files of `repo` that `filter` selects and report back under
    /// `token`.
    Launch { token: u64, repo: String, filter: Option<String> },
}

/// The wizard's state. One per host tab.
pub struct FilterBuilder {
    pub filters: Vec<FilterCond>,
    /// Whether the kind picker is expanded.
    pub adding: bool,
    pub history: FilterHistory,
    /// The preset being renamed inline, if any.
    pub renaming_preset: Option<usize>,
    /// The text of the rename in progress.
    pub rename_buf: String,
    /// A rename just started, so its field takes the keyboard focus.
    pub focus_rename_pending: bool,
    /// The repository whose statistics and match count the wizard reflects.
    pub repo: Option<String>,
    /// That repository's MIME types and how many files have each.
    pub mime_stats: Vec<(String, u64)>,
    /// That repository's tags, ascending.
    pub tags: Vec<String>,
    /// Tells the newest count from stale ones.
    pub count_token: u64,
    /// When a count is due, on the host's millisecond clock.
    pub count_deadline: Option<u64>,
    /// A launched count has not reported back yet.
    pub count_in_flight: bool,
    /// The latest count, if one was computed.
    pub count_result: Option<usize>,
    pub status: Option<String>,
    pub error: Option<String>,
    pub verbosity: TooltipVerbosity,
    /// Text conditions match without regard to case.
    pub case_insensitive: bool,
}

/// The characters of an optional text.
pub open spec fn opt_view(s: Option<String>) -> Option<Seq<char>> {
    match s {
        Some(t) => Some(t@),
        None => None,
    }
}

/// Names and counts.
pub open spec fn stats_view(stats: Seq<(String, u64)>) -> Seq<(Seq<char>, u64)> {
    Seq::new(stats.len(), |i: int| (stats[i].0@, stats[i].1))
}

/// The wizard's contents.
#[verifier::ext_equal]
pub struct BuilderModel {
    pub filters: Seq<CondModel>,
    pub adding: bool,
    pub history: HistoryModel,
    pub renaming_preset: Option<usize>,
    pub rename_buf: Seq<char>,
    pub focus_rename_pending: bool,
    pub repo: Option<Seq<char>>,
    pub mime_stats: Seq<(Seq<char>, u64)>,
    pub tags: Texts,
    pub count_token: u64,
    pub count_deadline: Option<u64>,
    pub count_in_flight: bool,
    pub count_result: Option<usize>,
    pub status: Option<Seq<char>>,
    pub error: Option<Seq<char>>,
    pub verbosity: TooltipVerbosity,
    pub case_insensitive: bool,
}

impl View for FilterBuilder {
    type V = BuilderModel;

    open spec fn view(&self) -> BuilderModel {
        BuilderModel {
            filters: conds_view(self.filters@),
            adding: self.adding,
            history: self.history@,
            renaming_preset: self.renaming_preset,
            rename_buf: self.rename_buf@,
            focus_rename_pending: self.focus_rename_pending,
            repo: opt_view(self.repo),
            mime_stats: stats_view(self.mime_stats@),
            tags: views(self.tags@),
            count_token: self.count_token,
            count_deadline: self.count_deadline,
            count_in_flight: self.count_in_flight,
            count_result: self.count_result,
            status: opt_view(self.status),
            error: opt_view(self.error),
            verbosity: self.verbosity,
            case_insensitive: self.case_insensitive,
        }
    }
}

/// A moment `COUNT_DEBOUNCE_MS` after `now`, or the end of the clock.
pub open spec fn debounced(now: u64) -> u64 {
    if now + COUNT_DEBOUNCE_MS > u64::MAX {
        u64::MAX
    } else {
        (now + COUNT_DEBOUNCE_MS) as u64
    }
}

/// Some condition is of this kind.
pub open spec fn has_kind(conds: Seq<CondModel>, kind: FilterKind) -> bool {
    exists|i: int| 0 <= i < conds.len() && (#[trigger] conds[i]).kind == kind
}

/// The conditions with no editor open.
pub open spec fn closed_editors(conds: Seq<CondModel>) -> Seq<CondModel> {
    Seq::new(conds.len(), |i: int| CondModel { editing: false, ..conds[i] })
}

/// The saved conditions of a preset as active ones; an unknown kind is dropped.
pub open spec fn restored(saved: Seq<SavedModel>) -> Seq<CondModel>
    decreases saved.len(),
{
    if saved.len() == 0 {
        Seq::empty()
    } else {
        let rest = restored(saved.drop_last());
        let s = saved.last();
        if known_kind(s.kind) {
            rest.push(
                CondModel {
                    kind: kind_of(s.kind),
                    value: s.value,
                    editing: false,
                    negated: s.negated,
                },
            )
        } else {
            rest
        }
    }
}

/// The tag is some kind's prefix.
pub open spec fn known_kind(tag: Seq<char>) -> bool {
    exists|kind: FilterKind| #[trigger] prefix_text(kind) == tag
}

/// The kind whose prefix the tag is.
pub open spec fn kind_of(tag: Seq<char>) -> FilterKind {
    choose|kind: FilterKind| #[trigger] prefix_text(kind) == tag
}

/// The conditions that say something, as a preset saves them.
pub open spec fn to_save(conds: Seq<CondModel>) -> Seq<SavedModel>
    decreases conds.len(),
{
    if conds.len() == 0 {
        Seq::empty()
    } else {
        let rest = to_save(conds.drop_last());
        let c = conds.last();
        if trimmed(c.value).len() > 0 {
            rest.push(
                SavedModel {
                    kind: prefix_text(c.kind),
                    value: trimmed(c.value),
                    negated: c.negated,
                },
            )
        } else {
            rest
        }
    }
}

impl BuilderModel {
    /// A wizard with no condition and nothing remembered.
    pub open spec fn fresh() -> BuilderModel {
        BuilderModel {
            filters: Seq::empty(),
            adding: false,
            history: HistoryModel {
                mime: Seq::empty(),
                name: Seq::empty(),
                size: Seq::empty(),
                tag: Seq::empty(),
                presets: Seq::empty(),
            },
            renaming_preset: None,
            rename_buf: Seq::empty(),
            focus_rename_pending: false,
            repo: None,
            mime_stats: Seq::empty(),
            tags: Seq::empty(),
            count_token: 0,
            count_deadline: None,
            count_in_flight: false,
            count_result: None,
            status: None,
            error: None,
            verbosity: TooltipVerbosity::Short,
            case_insensitive: false,
        }
    }

    /// The wizard with its match count armed where a repository and a name
    /// condition are there, and with no count otherwise.
    pub open spec fn scheduled(self, now: u64) -> BuilderModel {
        BuilderModel {
            count_deadline: if self.repo is Some && has_kind(self.filters, FilterKind::Name) {
                Some(debounced(now))
            } else {
                None
            },
            count_result: None,
            ..self
        }
    }

    /// The wizard after its conditions were stored as a preset: the values are
    /// remembered and the preset gets the next unused name. Nothing happens where
    /// no condition says anything.
    pub open spec fn stored(self) -> BuilderModel {
        let saved = to_save(self.filters);
        if saved.len() == 0 {
            self
        } else {
            let name = next_name(preset_names(self.history.presets));
            let learned = self.history.with_conds(self.filters);
            BuilderModel {
                history: HistoryModel {
                    presets: self.history.presets.push(PresetModel { name, conds: saved }),
                    ..learned
                },
                status: Some("Saved filter preset '"@ + name + "'."@),
                ..self
            }
        }
    }

    /// The wizard after a choice.
    pub open spec fn after(self, act: Act, now: u64) -> BuilderModel {
        match act {
            Act::FilterChanged => self.scheduled(now),
            Act::AddCond(kind) => BuilderModel {
                filters: closed_editors(self.filters).push(
                    CondModel { kind, value: Seq::empty(), editing: true, negated: false },
                ),
                adding: false,
                ..self
            }.scheduled(now),
            Act::RemoveCond(i) => BuilderModel {
                filters: if i < self.filters.len() {
                    self.filters.remove(i as int)
                } else {
                    self.filters
                },
                ..self
            }.scheduled(now),
            Act::EditCond(i) => BuilderModel {
                filters: if i < self.filters.len() {
                    let c = self.filters[i as int];
                    closed_editors(self.filters).update(
                        i as int,
                        CondModel { editing: !c.editing, ..c },
                    )
                } else {
                    closed_editors(self.filters)
                },
                ..self
            }.scheduled(now),
            Act::CommitCond => BuilderModel {
                filters: closed_editors(self.filters),
                history: self.history.with_conds(self.filters),
                ..self
            },
            Act::ClearConds => BuilderModel {
                filters: Seq::empty(),
                adding: false,
                ..self
            }.scheduled(now),
            Act::ToggleNegate(i) => if i < self.filters.len() {
                let c = self.filters[i as int];
                BuilderModel {
                    filters: self.filters.update(i as int, CondModel { negated: !c.negated, ..c }),
                    ..self
                }.scheduled(now)
            } else {
                self
            },
            Act::ToggleCase => BuilderModel {
                case_insensitive: !self.case_insensitive,
                ..self
            }.scheduled(now),
            Act::StorePreset => self.stored(),
            Act::ApplyPreset(i) => if i < self.history.presets.len() {
                BuilderModel {
                    filters: restored(self.history.presets[i as int].conds),
                    adding: false,
                    ..self
                }.scheduled(now)
            } else {
                self
            },
            Act::RemovePreset(i) => if i < self.history.presets.len() {
                BuilderModel {
                    history: HistoryModel {
                        presets: self.history.presets.remove(i as int),
                        ..self.history
                    },
                    ..self
                }
            } else {
                self
            },
            Act::CommitRenamePreset(i) => {
                let name = trimmed(self.rename_buf);
                let done = BuilderModel { renaming_preset: None, ..self };
                if name.len() > 0 && i < self.history.presets.len() {
                    let p = self.history.presets[i as int];
                    BuilderModel {
                        history: HistoryModel {
                            presets: self.history.presets.update(
                                i as int,
                                PresetModel { name, ..p },
                            ),
                            ..self.history
                        },
                        ..done
                    }
                } else {
                    done
                }
            },
        }
    }

    /// Whether a choice changes the composed filter. An editor that reports a
    /// change has already made it.
    pub open spec fn changes(self, act: Act, now: u64) -> bool {
        let next = self.after(act, now);
        ||| act is FilterChanged
        ||| composed(next.filters, next.case_insensitive) != composed(
            self.filters,
            self.case_insensitive,
        )
    }

    /// Whether a choice changes what is written to disk.
    pub open spec fn saves(self, act: Act) -> bool {
        match act {
            Act::CommitCond => self.history.learns_from(self.filters),
            Act::StorePreset => to_save(self.filters).len() > 0,
            Act::RemovePreset(i) => i < self.history.presets.len(),
            Act::CommitRenamePreset(i) => trimmed(self.rename_buf).len() > 0 && i
                < self.history.presets.len(),
            _ => false,
        }
    }

    /// At most one editor is open.
    pub open spec fn one_editor(self) -> bool {
        forall|i: int, j: int|
            0 <= i < self.filters.len() && 0 <= j < self.filters.len()
                && #[trigger] self.filters[i].editing && #[trigger] self.filters[j].editing ==> i
                == j
    }
}

/// At most one condition's editor is open, whatever is chosen.
pub proof fn law_one_editor_at_a_time(m: BuilderModel, act: Act, now: u64)
    requires
        m.one_editor(),
    ensures
        m.after(act, now).one_editor(),
{
    let n = m.after(act, now);
    match act {
        Act::RemoveCond(k) => {
            if k < m.filters.len() {
                assert forall|i: int, j: int|
                    0 <= i < n.filters.len() && 0 <= j < n.filters.len()
                        && #[trigger] n.filters[i].editing
                        && #[trigger] n.filters[j].editing implies i == j by {
                    let p = if i < k {
                        i
                    } else {
                        i + 1
                    };
                    let q = if j < k {
                        j
                    } else {
                        j + 1
                    };
                    assert(n.filters[i] == m.filters[p]);
                    assert(n.filters[j] == m.filters[q]);
                    assert(m.filters[p].editing && m.filters[q].editing);
                }
            }
        },
        Act::ToggleNegate(k) => {
            if k < m.filters.len() {
                assert forall|i: int, j: int|
                    0 <= i < n.filters.len() && 0 <= j < n.filters.len()
                        && #[trigger] n.filters[i].editing
                        && #[trigger] n.filters[j].editing implies i == j by {
                    assert(n.filters[i].editing == m.filters[i].editing);
                    assert(n.filters[j].editing == m.filters[j].editing);
                }
            }
        },
        Act::ApplyPreset(k) => {
            if k < m.history.presets.len() {
                lemma_restored_closed(m.history.presets[k as int].conds);
            }
        },
        _ => {},
    }
}

proof fn lemma_restored_closed(saved: Seq<SavedModel>)
    ensures
        forall|i: int| 0 <= i < restored(saved).len() ==> !(#[trigger] restored(saved)[i]).editing,
    decreases saved.len(),
{
    if saved.len() > 0 {
        lemma_restored_closed(saved.drop_last());
    }
}

/// Inverting a condition twice leaves it as it was.
pub proof fn law_negating_twice_undoes_it(m: BuilderModel, i: usize, now: u64)
    ensures
        m.after(Act::ToggleNegate(i), now).after(Act::ToggleNegate(i), now).filters == m.filters,
{
    let n = m.after(Act::ToggleNegate(i), now).after(Act::ToggleNegate(i), now);
    if i < m.filters.len() {
        assert(n.filters[i as int] =~= m.filters[i as int]);
    }
    assert(n.filters =~= m.filters);
}

proof fn lemma_kind_of(kind: FilterKind)
    ensures
        known_kind(prefix_text(kind)),
        kind_of(prefix_text(kind)) == kind,
{
    assert(prefix_text(kind) == prefix_text(kind));
    crate::filter_expr::law_prefixes_tell_kinds_apart(kind_of(prefix_text(kind)), kind);
}

proof fn lemma_restore_saved(conds: Seq<CondModel>)
    ensures
        restored(to_save(conds)) == conds_of(kept(conds)),
        to_save(conds).len() == kept(conds).len(),
    decreases conds.len(),
{
    if conds.len() > 0 {
        let rest = conds.drop_last();
        lemma_restore_saved(rest);
        let c = conds.last();
        if trimmed(c.value).len() > 0 {
            let s = to_save(conds);
            assert(s.drop_last() =~= to_save(rest));
            lemma_kind_of(c.kind);
            crate::filter_expr::lemma_conds_of_push(kept(rest), cond_group(c));
            assert(restored(s) =~= conds_of(kept(conds)));
        }
    } else {
        assert(kept(conds) =~= Seq::empty());
    }
}

/// A preset gives back the filter it was stored from: applying it composes the
/// same expression.
pub proof fn law_a_preset_restores_its_filter(m: BuilderModel, now: u64)
    requires
        to_save(m.filters).len() > 0,
    ensures
        ({
            let kept_as = m.after(Act::StorePreset, now);
            let k = (kept_as.history.presets.len() - 1) as usize;
            kept_as.history.presets.len() <= usize::MAX ==> composed(
                kept_as.after(Act::ApplyPreset(k), now).filters,
                m.case_insensitive,
            ) == composed(m.filters, m.case_insensitive)
        }),
{
    lemma_restore_saved(m.filters);
    crate::filter_expr::lemma_kept_again(m.filters);
}

/// A stored preset's name is none that was in use.
pub proof fn law_stored_presets_get_fresh_names(m: BuilderModel)
    requires
        to_save(m.filters).len() > 0,
    ensures
        !preset_names(m.history.presets).contains(m.stored().history.presets.last().name),
{
    crate::naming::law_next_name_is_unused(preset_names(m.history.presets));
}

/// A pill of the filter bar.
pub struct Chip {
    pub text: String,
    pub editing: bool,
}

/// The text on a condition's pill: its kind, behind NOT where it is inverted, and
/// its value or an ellipsis.
pub open spec fn chip_text(c: CondModel) -> Seq<char> {
    let label = match c.kind {
        FilterKind::Mime => "MIME"@,
        FilterKind::Name => "NAME"@,
        FilterKind::Size => "SIZE"@,
        FilterKind::Tag => "TAG"@,
    };
    let shown = trimmed(c.value);
    (if c.negated {
        "NOT "@
    } else {
        ""@
    }) + label + ": "@ + (if shown.len() == 0 {
        "…"@
    } else {
        shown
    })
}

/// The filter bar: a pill per condition, which of them has its editor open, and
/// whether the kind picker and the controls over all conditions are shown.
pub struct FilterBar {
    pub chips: Vec<Chip>,
    pub editing: Option<usize>,
    pub picker: bool,
    pub controls: bool,
}

/// The last condition whose editor is open.
pub open spec fn editing_at(conds: Seq<CondModel>) -> Option<usize>
    decreases conds.len(),
{
    if conds.len() == 0 {
        None
    } else if conds.last().editing {
        Some((conds.len() - 1) as usize)
    } else {
        editing_at(conds.drop_last())
    }
}

/// The preset row: the names, which one is being renamed, and whether the current
/// filter can be stored.
pub struct PresetRow {
    pub names: Vec<String>,
    pub renaming: Option<usize>,
    pub can_store: bool,
}

/// The inline editor of a condition.
pub struct CondEditor {
    pub label: String,
    pub negated: bool,
    pub hint: &'static str,
    /// The live match count of a name condition.
    pub count: Option<String>,
    /// The repository's MIME types that the typed text leaves, with their counts.
    pub mime_picks: Vec<(String, u64)>,
    /// The repository's tags that the typed text leaves.
    pub tag_picks: Vec<String>,
    /// Values used before.
    pub recent: Vec<String>,
}

/// A suggestion is offered for what was typed: nothing was, or the suggestion
/// holds it, whatever the case.
pub open spec fn offered(text: Seq<char>, typed: Seq<char>) -> bool {
    let query = lowercase(trimmed(typed));
    query.len() == 0 || has_part(lowercase(text), query)
}

/// The MIME types offered for what was typed.
pub open spec fn offered_stats(stats: Seq<(Seq<char>, u64)>, typed: Seq<char>) -> Seq<
    (Seq<char>, u64),
>
    decreases stats.len(),
{
    if stats.len() == 0 {
        Seq::empty()
    } else {
        let rest = offered_stats(stats.drop_last(), typed);
        if offered(stats.last().0, typed) {
            rest.push(stats.last())
        } else {
            rest
        }
    }
}

/// The tags offered for what was typed.
pub open spec fn offered_tags(tags: Texts, typed: Seq<char>) -> Texts
    decreases tags.len(),
{
    if tags.len() == 0 {
        Seq::empty()
    } else {
        let rest = offered_tags(tags.drop_last(), typed);
        if offered(tags.last(), typed) {
            rest.push(tags.last())
        } else {
            rest
        }
    }
}

/// The live count shown beside a name condition.
pub open spec fn count_text(m: BuilderModel) -> Option<Seq<char>> {
    match m.count_result {
        Some(n) => Some(dec(n as nat) + " files match"@),
        None => if m.count_deadline is Some || m.count_in_flight {
            Some("counting…"@)
        } else {
            None
        },
    }
}

fn is_offered(text: &str, query: &str) -> (r: bool)
    ensures
        r == (query@.len() == 0 || has_part(lowercase(text@), query@)),
{
    query.is_empty() || contains_text(to_lowercase(text).as_str(), query)
}

/// The help on a kind in the picker, in short and at length.
pub fn kind_help(kind: FilterKind) -> (r: (&'static str, &'static str))
    ensures
        match kind {
            FilterKind::Mime => r.0@ == "Filter by MIME type"@ && r.1@
                == "Match files whose detected MIME type contains this substring (e.g. \"image/\" matches every image type)."@,
            FilterKind::Name => r.0@ == "Filter by path (with wildcards)"@ && r.1@
                == "Match files by relative path: a plain substring, or a `*` wildcard glob like \"*.db\" (ends with) or \"copy_of*\" (starts with)."@,
            FilterKind::Size => r.0@ == "Filter by size"@ && r.1@
                == "Match files by size with an operator and byte count, e.g. \">=1000\" or \"<500000\"."@,
            FilterKind::Tag => r.0@ == "Filter by tag"@ && r.1@
                == "Match files carrying a tag that contains this text. Add tags to files in the Browse tab."@,
        },
{
    match kind {
        FilterKind::Mime => (
            "Filter by MIME type",
            "Match files whose detected MIME type contains this substring (e.g. \"image/\" matches every image type).",
        ),
        FilterKind::Name => (
            "Filter by path (with wildcards)",
            "Match files by relative path: a plain substring, or a `*` wildcard glob like \"*.db\" (ends with) or \"copy_of*\" (starts with).",
        ),
        FilterKind::Size => (
            "Filter by size",
            "Match files by size with an operator and byte count, e.g. \">=1000\" or \"<500000\".",
        ),
        FilterKind::Tag => (
            "Filter by tag",
            "Match files carrying a tag that contains this text. Add tags to files in the Browse tab.",
        ),
    }
}

/// The text on a MIME suggestion.
pub fn mime_pick_text(mime: &str, count: u64) -> (r: String)
    ensures
        r@ == mime@ + " ("@ + dec(count as nat) + ")"@,
{
    let mut s = copy(mime);
    s.append(" (");
    push_decimal(&mut s, count as u128);
    s.append(")");
    s
}

fn close_editors(conds: &mut Vec<FilterCond>)
    ensures
        conds_view(final(conds)@) == closed_editors(conds_view(old(conds)@)),
{
    let ghost start = conds_view(conds@);
    let n = conds.len();
    let mut i: usize = 0;
    while i < n
        invariant
            i <= n,
            n == conds@.len(),
            start.len() == n,
            forall|k: int|
                0 <= k < i ==> (#[trigger] conds@[k])@ == (CondModel {
                    editing: false,
                    ..start[k]
                }),
            forall|k: int| i <= k < n ==> (#[trigger] conds@[k])@ == start[k],
        decreases n - i,
    {
        conds[i].editing = false;
        i += 1;
    }
    assert(conds_view(conds@) =~= closed_editors(start));
}

fn same_expr(a: &Option<String>, b: &Option<String>) -> (r: bool)
    ensures
        r == (opt_view(*a) == opt_view(*b)),
{
    match (a, b) {
        (Some(x), Some(y)) => same_text(x.as_str(), y.as_str()),
        (None, None) => true,
        _ => false,
    }
}

fn any_name(conds: &Vec<FilterCond>) -> (r: bool)
    ensures
        r == has_kind(conds_view(conds@), FilterKind::Name),
{
    let mut i: usize = 0;
    while i < conds.len()
        invariant
            i <= conds@.len(),
            forall|k: int| 0 <= k < i ==> (#[trigger] conds@[k]).kind != FilterKind::Name,
        decreases conds@.len() - i,
    {
        if conds[i].kind == FilterKind::Name {
            assert(conds_view(conds@)[i as int].kind == FilterKind::Name);
            return true;
        }
        i += 1;
    }
    assert forall|k: int| 0 <= k < conds_view(conds@).len() implies (#[trigger] conds_view(
        conds@,
    )[k]).kind != FilterKind::Name by {
        assert(conds@[k].kind != FilterKind::Name);
    }
    false
}

fn saved_conds(conds: &Vec<FilterCond>) -> (r: Vec<SavedCond>)
    ensures
        saved_view(r@) == to_save(conds_view(conds@)),
{
    let ghost all = conds_view(conds@);
    let mut out: Vec<SavedCond> = Vec::new();
    let mut i: usize = 0;
    assert(saved_view(out@) =~= to_save(all.take(0)));
    while i < conds.len()
        invariant
            i <= conds@.len(),
            all == conds_view(conds@),
            saved_view(out@) == to_save(all.take(i as int)),
        decreases conds@.len() - i,
    {
        let c = &conds[i];
        proof {
            assert(all.take(i + 1).drop_last() =~= all.take(i as int));
            assert(all.take(i + 1).last() == c@);
        }
        let value = trim(c.value.as_str());
        if !value.as_str().is_empty() {
            let ghost before = out@;
            let s = SavedCond { kind: copy(c.kind.prefix()), value, negated: c.negated };
            let ghost model = s@;
            out.push(s);
            assert(saved_view(out@) =~= saved_view(before).push(model));
        }
        i += 1;
    }
    assert(all.take(i as int) =~= all);
    out
}

fn restore(saved: &Vec<SavedCond>) -> (r: Vec<FilterCond>)
    ensures
        conds_view(r@) == restored(saved_view(saved@)),
{
    let ghost all = saved_view(saved@);
    let mut out: Vec<FilterCond> = Vec::new();
    let mut i: usize = 0;
    assert(conds_view(out@) =~= restored(all.take(0)));
    while i < saved.len()
        invariant
            i <= saved@.len(),
            all == saved_view(saved@),
            conds_view(out@) == restored(all.take(i as int)),
        decreases saved@.len() - i,
    {
        let s = &saved[i];
        proof {
            assert(all.take(i + 1).drop_last() =~= all.take(i as int));
            assert(all.take(i + 1).last() == s@);
        }
        if let Some(kind) = FilterKind::from_prefix(s.kind.as_str()) {
            let ghost before = out@;
            let c = FilterCond {
                kind,
                value: s.value.clone(),
                editing: false,
                negated: s.negated,
            };
            let ghost model = c@;
            proof {
                lemma_kind_of(kind);
            }
            out.push(c);
            assert(conds_view(out@) =~= conds_view(before).push(model));
        }
        i += 1;
    }
    assert(all.take(i as int) =~= all);
    out
}

impl FilterBuilder {
    /// A wizard with no conditions.
    pub fn new() -> (r: Self)
        ensures
            r@ == BuilderModel::fresh(),
    {
        let r = FilterBuilder {
            filters: Vec::new(),
            adding: false,
            history: FilterHistory::new(),
            renaming_preset: None,
            rename_buf: String::new(),
            focus_rename_pending: false,
            repo: None,
            mime_stats: Vec::new(),
            tags: Vec::new(),
            count_token: 0,
            count_deadline: None,
            count_in_flight: false,
            count_result: None,
            status: None,
            error: None,
            verbosity: TooltipVerbosity::Short,
            case_insensitive: false,
        };
        proof {
            assert(r@.filters =~= Seq::empty());
            assert(r@.mime_stats =~= Seq::empty());
            assert(r@.tags =~= Seq::empty());
        }
        r
    }

    /// Replaces the active conditions with those of a filter expression, to
    /// restore a saved rule or preset.
    pub fn set_expression(&mut self, expr: &str)
        ensures
            final(self)@ == (BuilderModel {
                filters: conds_of(groups(expr@)),
                case_insensitive: ignores_case(groups(expr@)),
                adding: false,
                ..old(self)@
            }),
    {
        let (filters, case_insensitive) = parse_conditions(expr);
        self.filters = filters;
        self.case_insensitive = case_insensitive;
        self.adding = false;
    }

    /// The composed filter expression, or `None` when no condition says anything
    /// and everything matches.
    pub fn filter_string(&self) -> (r: Option<String>)
        ensures
            opt_view(r) == composed(self@.filters, self@.case_insensitive),
    {
        compose(&self.filters, self.case_insensitive)
    }

    /// Arms the debounced match count.
    fn schedule_count(&mut self, now: u64)
        ensures
            final(self)@ == old(self)@.scheduled(now),
    {
        if self.repo.is_some() && any_name(&self.filters) {
            self.count_deadline = Some(now.saturating_add(COUNT_DEBOUNCE_MS));
        } else {
            self.count_deadline = None;
        }
        self.count_result = None;
    }

    /// Saves the conditions that say something as a new preset. Returns whether
    /// there was any.
    fn store_preset(&mut self) -> (r: bool)
        ensures
            final(self)@ == old(self)@.stored(),
            r == (to_save(old(self)@.filters).len() > 0),
    {
        let conds = saved_conds(&self.filters);
        if conds.len() == 0 {
            assert(to_save(self@.filters).len() == 0);
            return false;
        }
        let ghost start = self@;
        let names = self.history.names();
        let name = next_preset_name(&names);
        let _ = self.history.record_conds(&self.filters);
        let ghost before = self.history.presets@;
        let ghost learned = self.history@;
        let preset = FilterPreset { name: name.clone(), conds };
        let ghost model = preset@;
        self.history.presets.push(preset);
        proof {
            assert(presets_view(self.history.presets@) =~= presets_view(before).push(model));
            assert(self.history@ =~= (HistoryModel {
                presets: start.history.presets.push(model),
                ..learned
            }));
        }
        let mut s = "Saved filter preset '".to_string();
        s.append(name.as_str());
        s.append("'.");
        self.status = Some(s);
        true
    }

    /// Carries out one choice. Returns whether the history has to be written.
    fn carry_out(&mut self, act: Act, now: u64) -> (r: bool)
        ensures
            final(self)@ == old(self)@.after(act, now),
            r == old(self)@.saves(act),
    {
        let mut save = false;
        match act {
            Act::FilterChanged => {
                self.schedule_count(now);
            },
            Act::AddCond(kind) => {
                close_editors(&mut self.filters);
                let ghost before = self.filters@;
                let c = FilterCond { kind, value: String::new(), editing: true, negated: false };
                let ghost model = c@;
                self.filters.push(c);
                assert(conds_view(self.filters@) =~= conds_view(before).push(model));
                self.adding = false;
                self.schedule_count(now);
            },
            Act::RemoveCond(i) => {
                if i < self.filters.len() {
                    let ghost before = self.filters@;
                    let _ = self.filters.remove(i);
                    assert(conds_view(self.filters@) =~= conds_view(before).remove(i as int));
                }
                self.schedule_count(now);
            },
            Act::EditCond(i) => {
                let open = i < self.filters.len() && self.filters[i].editing;
                close_editors(&mut self.filters);
                if i < self.filters.len() {
                    let ghost before = self.filters@;
                    self.filters[i].editing = !open;
                    assert(conds_view(self.filters@) =~= conds_view(before).update(
                        i as int,
                        CondModel { editing: !open, ..conds_view(before)[i as int] },
                    ));
                }
                self.schedule_count(now);
            },
            Act::CommitCond => {
                save = self.history.record_conds(&self.filters);
                close_editors(&mut self.filters);
            },
            Act::ClearConds => {
                self.filters.clear();
                assert(conds_view(self.filters@) =~= Seq::empty());
                self.adding = false;
                self.schedule_count(now);
            },
            Act::ToggleNegate(i) => {
                if i < self.filters.len() {
                    let ghost before = self.filters@;
                    let negated = self.filters[i].negated;
                    self.filters[i].negated = !negated;
                    assert(conds_view(self.filters@) =~= conds_view(before).update(
                        i as int,
                        CondModel { negated: !negated, ..conds_view(before)[i as int] },
                    ));
                    self.schedule_count(now);
                }
            },
            Act::ToggleCase => {
                self.case_insensitive = !self.case_insensitive;
                self.schedule_count(now);
            },
            Act::StorePreset => {
                save = self.store_preset();
            },
            Act::ApplyPreset(i) => {
                if i < self.history.presets.len() {
                    self.filters = restore(&self.history.presets[i].conds);
                    self.adding = false;
                    self.schedule_count(now);
                }
            },
            Act::RemovePreset(i) => {
                if i < self.history.presets.len() {
                    let ghost before = self.history.presets@;
                    let _ = self.history.presets.remove(i);
                    assert(presets_view(self.history.presets@) =~= presets_view(before).remove(
                        i as int,
                    ));
                    save = true;
                }
            },
            Act::CommitRenamePreset(i) => {
                self.renaming_preset = None;
                let name = trim(self.rename_buf.as_str());
                if !name.as_str().is_empty() && i < self.history.presets.len() {
                    let ghost before = self.history.presets@;
                    let ghost model = PresetModel { name: name@, ..before[i as int]@ };
                    self.history.presets[i].name = name;
                    assert(presets_view(self.history.presets@) =~= presets_view(before).update(
                        i as int,
                        model,
                    ));
                    save = true;
                }
            },
        }
        save
    }

    /// Applies one choice.
    pub fn apply(&mut self, act: Act, now: u64) -> (r: Applied)
        ensures
            final(self)@ == old(self)@.after(act, now),
            r.changed == old(self)@.changes(act, now),
            r.save == old(self)@.saves(act),
    {
        let was = self.filter_string();
        let save = self.carry_out(act, now);
        let told = match act {
            Act::FilterChanged => true,
            _ => false,
        };
        let changed = told || !same_expr(&was, &self.filter_string());
        Applied { changed, save }
    }

    /// Writing the history failed for this reason.
    pub fn save_failed(&mut self, reason: &str)
        ensures
            final(self)@ == (BuilderModel {
                error: Some("Could not save filter history: "@ + reason@),
                ..old(self)@
            }),
    {
        let mut s = "Could not save filter history: ".to_string();
        s.append(reason);
        self.error = Some(s);
    }

    /// Launches the count once its deadline has passed: the newest count gets a
    /// token of its own, so that stale ones can be told.
    pub fn maybe_launch_count(&mut self, now: u64) -> (r: CountStep)
        requires
            old(self).count_token < u64::MAX,
        ensures
            match old(self)@.count_deadline {
                None => r is Idle && final(self)@ == old(self)@,
                Some(deadline) => if now < deadline {
                    r == CountStep::Wait((deadline - now) as u64) && final(self)@ == old(self)@
                } else {
                    let due = BuilderModel { count_deadline: None, ..old(self)@ };
                    match old(self)@.repo {
                        None => r is Idle && final(self)@ == due,
                        Some(repo) => {
                            let token = (due.count_token + 1) as u64;
                            &&& final(self)@ == (BuilderModel {
                                count_token: token,
                                count_in_flight: true,
                                ..due
                            })
                            &&& r matches CountStep::Launch { token: t, repo: p, filter }
                            &&& t == token
                            &&& p@ == repo
                            &&& opt_view(filter) == composed(
                                due.filters,
                                due.case_insensitive,
                            )
                        },
                    }
                },
            },
    {
        match self.count_deadline {
            None => CountStep::Idle,
            Some(deadline) => {
                if now < deadline {
                    return CountStep::Wait(deadline - now);
                }
                self.count_deadline = None;
                match &self.repo {
                    None => CountStep::Idle,
                    Some(repo) => {
                        let repo = repo.clone();
                        self.count_token = self.count_token + 1;
                        self.count_in_flight = true;
                        CountStep::Launch {
                            token: self.count_token,
                            repo,
                            filter: self.filter_string(),
                        }
                    },
                }
            },
        }
    }

    /// A count reported back; a stale one changes nothing.
    pub fn drain(&mut self, token: u64, count: Option<usize>)
        ensures
            final(self)@ == if token == old(self)@.count_token {
                BuilderModel { count_in_flight: false, count_result: count, ..old(self)@ }
            } else {
                old(self)@
            },
    {
        if token == self.count_token {
            self.count_in_flight = false;
            self.count_result = count;
        }
    }

    /// Whether the host's repository is another than the wizard reflects.
    pub fn repo_differs(&self, repo: Option<&str>) -> (r: bool)
        ensures
            r == (self@.repo != match repo {
                Some(name) => Some(name@),
                None => None,
            }),
    {
        match (&self.repo, repo) {
            (None, None) => false,
            (Some(a), Some(b)) => !crate::text::same_text(a.as_str(), b),
            _ => true,
        }
    }

    /// Reflects another repository, given its MIME types and the tags of each of
    /// its annotated files, and re-arms the count.
    pub fn switch_repo(
        &mut self,
        repo: Option<String>,
        mime_stats: Vec<(String, u64)>,
        annotations: &Vec<Vec<String>>,
        now: u64,
    )
        ensures
            final(self)@ == (BuilderModel {
                repo: opt_view(repo),
                mime_stats: stats_view(mime_stats@),
                tags: final(self)@.tags,
                ..old(self)@
            }).scheduled(now),
            repo is None ==> final(self)@.tags.len() == 0,
            repo is Some ==> lists_tags(final(self)@.tags, annotations@),
    {
        self.repo = repo;
        self.mime_stats = mime_stats;
        self.reload_tags(annotations);
        self.schedule_count(now);
    }

    /// Whether the tags are to be read again: a tag condition's editor is open, so
    /// its pick-list has to be current.
    pub fn wants_tags(&self) -> (r: bool)
        ensures
            r == exists|i: int|
                0 <= i < self@.filters.len() && (#[trigger] self@.filters[i]).kind
                    == FilterKind::Tag && self@.filters[i].editing,
    {
        let mut i: usize = 0;
        while i < self.filters.len()
            invariant
                i <= self.filters@.len(),
                forall|k: int|
                    0 <= k < i ==> !((#[trigger] self@.filters[k]).kind == FilterKind::Tag
                        && self@.filters[k].editing),
            decreases self.filters@.len() - i,
        {
            if self.filters[i].kind == FilterKind::Tag && self.filters[i].editing {
                assert(self@.filters[i as int].editing);
                return true;
            }
            i += 1;
        }
        false
    }

    /// Reads the distinct tags, ascending, from the tags of each annotated file;
    /// none where no repository is selected.
    pub fn reload_tags(&mut self, annotations: &Vec<Vec<String>>)
        ensures
            final(self)@ == (BuilderModel { tags: final(self)@.tags, ..old(self)@ }),
            old(self)@.repo is None ==> final(self)@.tags.len() == 0,
            old(self)@.repo is Some ==> lists_tags(final(self)@.tags, annotations@),
    {
        let mut tags: Vec<String> = Vec::new();
        if self.repo.is_some() {
            let mut i: usize = 0;
            while i < annotations.len()
                invariant
                    i <= annotations@.len(),
                    ascending(views(tags@)),
                    forall|x: Seq<char>|
                        #[trigger] views(tags@).contains(x) <==> annotated(
                            annotations@.take(i as int),
                            x,
                        ),
                decreases annotations@.len() - i,
            {
                let file = &annotations[i];
                let mut j: usize = 0;
                while j < file.len()
                    invariant
                        i < annotations@.len(),
                        j <= file@.len(),
                        *file == annotations@[i as int],
                        ascending(views(tags@)),
                        forall|x: Seq<char>|
                            #[trigger] views(tags@).contains(x) <==> annotated(
                                annotations@.take(i as int),
                                x,
                            ) || views(file@.take(j as int)).contains(x),
                    decreases file@.len() - j,
                {
                    let ghost before = views(tags@);
                    insert_ascending(&mut tags, &file[j]);
                    proof {
                        let now = views(file@.take(j + 1));
                        let was = views(file@.take(j as int));
                        assert(now =~= was.push(file@[j as int]@));
                        assert forall|x: Seq<char>| now.contains(x) <==> was.contains(x) || x
                            == file@[j as int]@ by {
                            if was.contains(x) {
                                assert(now[was.index_of(x)] == x);
                            }
                            if x == file@[j as int]@ {
                                assert(now[j as int] == x);
                            }
                        }
                    }
                    j += 1;
                }
                proof {
                    assert(file@.take(j as int) =~= file@);
                    lemma_annotated(annotations@, i as int);
                }
                i += 1;
            }
            assert(annotations@.take(i as int) =~= annotations@);
        }
        self.tags = tags;
    }

    /// Ends a frame: hands over the messages gathered so far.
    pub fn finish(&mut self, changed: bool) -> (r: FilterOutcome)
        ensures
            r.changed == changed,
            opt_view(r.status) == old(self)@.status,
            opt_view(r.error) == old(self)@.error,
            final(self)@ == (BuilderModel { status: None, error: None, ..old(self)@ }),
    {
        let status = self.status.take();
        let error = self.error.take();
        FilterOutcome { changed, status, error }
    }

    /// What the filter bar shows.
    pub fn bar(&self) -> (r: FilterBar)
        ensures
            r.chips@.len() == self@.filters.len(),
            forall|i: int|
                0 <= i < r.chips@.len() ==> (#[trigger] r.chips@[i]).text@ == chip_text(
                    self@.filters[i],
                ) && r.chips@[i].editing == self@.filters[i].editing,
            r.editing == editing_at(self@.filters),
            r.picker == self.adding,
            r.controls == (self@.filters.len() > 0),
    {
        let ghost all = self@.filters;
        let mut chips: Vec<Chip> = Vec::new();
        let mut editing: Option<usize> = None;
        let mut i: usize = 0;
        while i < self.filters.len()
            invariant
                i <= self.filters@.len(),
                all == self@.filters,
                chips@.len() == i,
                forall|k: int|
                    0 <= k < i ==> (#[trigger] chips@[k]).text@ == chip_text(all[k])
                        && chips@[k].editing == all[k].editing,
                editing == editing_at(all.take(i as int)),
            decreases self.filters@.len() - i,
        {
            let c = &self.filters[i];
            proof {
                assert(all.take(i + 1).drop_last() =~= all.take(i as int));
                assert(all.take(i + 1).last() == c@);
            }
            if c.editing {
                editing = Some(i);
            }
            let shown = trim(c.value.as_str());
            let mut text = String::new();
            if c.negated {
                text.append("NOT ");
            } else {
                text.append("");
            }
            text.append(c.kind.label());
            text.append(": ");
            if shown.as_str().is_empty() {
                text.append("…");
            } else {
                text.append(shown.as_str());
            }
            assert(text@ =~= chip_text(c@));
            chips.push(Chip { text, editing: c.editing });
            i += 1;
        }
        assert(all.take(i as int) =~= all);
        FilterBar { chips, editing, picker: self.adding, controls: self.filters.len() > 0 }
    }

    /// Shows or hides the kind picker.
    pub fn toggle_picker(&mut self)
        ensures
            final(self)@ == (BuilderModel { adding: !old(self)@.adding, ..old(self)@ }),
    {
        self.adding = !self.adding;
    }

    /// What the preset row shows; nothing while there is no picker, condition or
    /// preset.
    pub fn preset_row(&self) -> (r: Option<PresetRow>)
        ensures
            (r is Some) == (self@.adding || self@.filters.len() > 0 || self@.history.presets.len()
                > 0),
            r matches Some(row) ==> {
                &&& views(row.names@) == preset_names(self@.history.presets)
                &&& row.renaming == self@.renaming_preset
                &&& row.can_store == (to_save(self@.filters).len() > 0)
            },
    {
        if !self.adding && self.filters.len() == 0 && self.history.presets.len() == 0 {
            return None;
        }
        let saved = saved_conds(&self.filters);
        assert(saved@.len() == to_save(self@.filters).len());
        Some(
            PresetRow {
                names: self.history.names(),
                renaming: self.renaming_preset,
                can_store: saved.len() > 0,
            },
        )
    }

    /// Starts renaming a preset inline, from the name it has.
    pub fn start_rename(&mut self, i: usize)
        requires
            i < old(self)@.history.presets.len(),
        ensures
            final(self)@ == (BuilderModel {
                renaming_preset: Some(i),
                rename_buf: old(self)@.history.presets[i as int].name,
                focus_rename_pending: true,
                ..old(self)@
            }),
    {
        self.renaming_preset = Some(i);
        self.rename_buf = self.history.presets[i].name.clone();
        self.focus_rename_pending = true;
    }

    /// Leaves a rename without keeping it.
    pub fn cancel_rename(&mut self)
        ensures
            final(self)@ == (BuilderModel { renaming_preset: None, ..old(self)@ }),
    {
        self.renaming_preset = None;
    }

    /// Replaces the value of a condition, as typing or a suggestion does; one that
    /// is not there stays that way. Returns whether there was one.
    pub fn set_value(&mut self, i: usize, value: &str) -> (r: bool)
        ensures
            r == (i < old(self)@.filters.len()),
            final(self)@ == if i < old(self)@.filters.len() {
                BuilderModel {
                    filters: old(self)@.filters.update(
                        i as int,
                        CondModel { value: value@, ..old(self)@.filters[i as int] },
                    ),
                    ..old(self)@
                }
            } else {
                old(self)@
            },
    {
        if i < self.filters.len() {
            let ghost before = self.filters@;
            self.filters[i].value = copy(value);
            assert(conds_view(self.filters@) =~= conds_view(before).update(
                i as int,
                CondModel { value: value@, ..conds_view(before)[i as int] },
            ));
            true
        } else {
            false
        }
    }

    /// What the inline editor of a condition shows: its field, the live count for
    /// a name, and the suggestions that the typed text leaves.
    pub fn cond_editor(&self, i: usize) -> (r: Option<CondEditor>)
        ensures
            (r is Some) == (i < self@.filters.len()),
            r matches Some(e) ==> {
                let c = self@.filters[i as int];
                &&& e.label@ == (match c.kind {
                    FilterKind::Mime => "MIME"@,
                    FilterKind::Name => "NAME"@,
                    FilterKind::Size => "SIZE"@,
                    FilterKind::Tag => "TAG"@,
                }) + ":"@
                &&& e.negated == c.negated
                &&& e.hint@ == match c.kind {
                    FilterKind::Mime => "image/"@,
                    FilterKind::Name => "*.db or copy_of*"@,
                    FilterKind::Size => ">=1000"@,
                    FilterKind::Tag => "keeper"@,
                }
                &&& opt_view(e.count) == if c.kind == FilterKind::Name && self@.repo is Some {
                    count_text(self@)
                } else {
                    None
                }
                &&& stats_view(e.mime_picks@) == if c.kind != FilterKind::Mime {
                    Seq::empty()
                } else {
                    first_picks(self@.mime_stats, c.value)
                }
                &&& views(e.tag_picks@) == if c.kind != FilterKind::Tag {
                    Seq::empty()
                } else {
                    offered_tags(self@.tags, c.value)
                }
                &&& views(e.recent@) == self@.history.list(c.kind)
            },
    {
        if i >= self.filters.len() {
            return None;
        }
        let c = &self.filters[i];
        let mut label = copy(c.kind.label());
        label.append(":");
        let query = to_lowercase(trim(c.value.as_str()).as_str());
        let count = if c.kind == FilterKind::Name && self.repo.is_some() {
            self.count_label()
        } else {
            None
        };
        let mime_picks = if c.kind == FilterKind::Mime {
            pick_stats(&self.mime_stats, c.value.as_str())
        } else {
            Vec::new()
        };
        let tag_picks = if c.kind == FilterKind::Tag {
            self.pick_tags(query.as_str(), c.value.as_str())
        } else {
            Vec::new()
        };
        let recent = copy_list(self.history.for_kind(c.kind));
        proof {
            assert(c.kind != FilterKind::Mime ==> stats_view(mime_picks@) =~= Seq::empty());
            assert(c.kind != FilterKind::Tag ==> views(tag_picks@) =~= Seq::empty());
        }
        Some(
            CondEditor {
                label,
                negated: c.negated,
                hint: c.kind.hint(),
                count,
                mime_picks,
                tag_picks,
                recent,
            },
        )
    }

    fn count_label(&self) -> (r: Option<String>)
        ensures
            opt_view(r) == count_text(self@),
    {
        match self.count_result {
            Some(n) => {
                let mut s = decimal(n as u128);
                s.append(" files match");
                Some(s)
            },
            None => if self.count_deadline.is_some() || self.count_in_flight {
                Some("counting…".to_string())
            } else {
                None
            },
        }
    }

    fn pick_tags(&self, query: &str, typed: &str) -> (r: Vec<String>)
        requires
            query@ == lowercase(trimmed(typed@)),
        ensures
            views(r@) == offered_tags(self@.tags, typed@),
    {
        let ghost all = self@.tags;
        let mut out: Vec<String> = Vec::new();
        let mut i: usize = 0;
        assert(views(out@) =~= offered_tags(all.take(0), typed@));
        while i < self.tags.len()
            invariant
                i <= self.tags@.len(),
                all == self@.tags,
                query@ == lowercase(trimmed(typed@)),
                views(out@) == offered_tags(all.take(i as int), typed@),
            decreases self.tags@.len() - i,
        {
            let ghost before = out@;
            proof {
                assert(all.take(i + 1).drop_last() =~= all.take(i as int));
                assert(all.take(i + 1).last() == all[i as int]);
            }
            if is_offered(self.tags[i].as_str(), query) {
                out.push(self.tags[i].clone());
                assert(views(out@) =~= views(before).push(all[i as int]));
            }
            i += 1;
        }
        assert(all.take(i as int) =~= all);
        out
    }
}

/// The first MIME types offered for what was typed.
pub open spec fn first_picks(stats: Seq<(Seq<char>, u64)>, typed: Seq<char>) -> Seq<
    (Seq<char>, u64),
> {
    let picks = offered_stats(stats, typed);
    if picks.len() <= HISTORY_LIMIT {
        picks
    } else {
        picks.take(HISTORY_LIMIT as int)
    }
}

/// The first MIME types, with their counts, that are offered for what was typed.
pub fn pick_stats(stats: &Vec<(String, u64)>, typed: &str) -> (r: Vec<(String, u64)>)
    ensures
        stats_view(r@) == first_picks(stats_view(stats@), typed@),
{
    let query = to_lowercase(trim(typed).as_str());
    let ghost all = stats_view(stats@);
    let mut out: Vec<(String, u64)> = Vec::new();
    let mut i: usize = 0;
    assert(stats_view(out@) =~= offered_stats(all.take(0), typed@));
    while i < stats.len() && out.len() < HISTORY_LIMIT
        invariant
            i <= stats@.len(),
            all == stats_view(stats@),
            query@ == lowercase(trimmed(typed@)),
            out@.len() <= HISTORY_LIMIT,
            stats_view(out@) == offered_stats(all.take(i as int), typed@),
        decreases stats@.len() - i,
    {
        let ghost before = out@;
        proof {
            assert(all.take(i + 1).drop_last() =~= all.take(i as int));
            assert(all.take(i + 1).last() == all[i as int]);
        }
        if is_offered(stats[i].0.as_str(), query.as_str()) {
            out.push((stats[i].0.clone(), stats[i].1));
            assert(stats_view(out@) =~= stats_view(before).push(all[i as int]));
        }
        i += 1;
    }
    proof {
        lemma_offered_prefix(all, typed@, i as int);
        if i == all.len() {
            assert(all.take(i as int) =~= all);
        } else {
            let picks = offered_stats(all, typed@);
            assert(picks.take(picks.len() as int) =~= picks);
        }
    }
    out
}

proof fn lemma_offered_prefix(stats: Seq<(Seq<char>, u64)>, typed: Seq<char>, i: int)
    requires
        0 <= i <= stats.len(),
    ensures
        offered_stats(stats.take(i), typed).len() <= offered_stats(stats, typed).len(),
        offered_stats(stats.take(i), typed) == offered_stats(stats, typed).take(
            offered_stats(stats.take(i), typed).len() as int,
        ),
    decreases stats.len() - i,
{
    if i == stats.len() {
        assert(stats.take(i) =~= stats);
        let all = offered_stats(stats, typed);
        assert(all.take(all.len() as int) =~= all);
    } else {
        lemma_offered_prefix(stats, typed, i + 1);
        let next = stats.take(i + 1);
        assert(next.drop_last() =~= stats.take(i));
        let p = offered_stats(stats.take(i), typed);
        let q = offered_stats(next, typed);
        let all = offered_stats(stats, typed);
        assert(q.take(p.len() as int) =~= p);
        assert(all.take(q.len() as int).take(p.len() as int) =~= all.take(p.len() as int));
    }
}

/// A copy of a list of texts.
pub fn copy_list(list: &Vec<String>) -> (r: Vec<String>)
    ensures
        views(r@) == views(list@),
{
    let mut out: Vec<String> = Vec::new();
    let mut i: usize = 0;
    while i < list.len()
        invariant
            i <= list@.len(),
            views(out@) =~= views(list@).take(i as int),
        decreases list@.len() - i,
    {
        let ghost before = out@;
        out.push(list[i].clone());
        assert(views(out@) =~= views(before).push(list@[i as int]@));
        i += 1;
    }
    assert(views(out@) =~= views(list@));
    out
}

/// `x` is a tag of one of the annotated files.
pub open spec fn annotated(files: Seq<Vec<String>>, x: Seq<char>) -> bool {
    exists|i: int| 0 <= i < files.len() && #[trigger] views(files[i]@).contains(x)
}

/// `tags` are the annotated files' distinct tags, ascending.
pub open spec fn lists_tags(tags: Texts, files: Seq<Vec<String>>) -> bool {
    &&& ascending(tags)
    &&& forall|x: Seq<char>| #[trigger] tags.contains(x) <==> annotated(files, x)
}

proof fn lemma_annotated(files: Seq<Vec<String>>, i: int)
    requires
        0 <= i < files.len(),
    ensures
        forall|x: Seq<char>| #[trigger]
            annotated(files.take(i + 1), x) <==> annotated(files.take(i), x) || views(
                files[i]@,
            ).contains(x),
{
    let p = files.take(i);
    let q = files.take(i + 1);
    assert forall|x: Seq<char>| #[trigger] annotated(q, x) <==> annotated(p, x) || views(
        files[i]@,
    ).contains(x) by {
        if annotated(p, x) {
            let k = choose|k: int| 0 <= k < p.len() && #[trigger] views(p[k]@).contains(x);
            assert(q[k] == p[k]);
            assert(views(q[k]@).contains(x));
        }
        if views(files[i]@).contains(x) {
            assert(q[i] == files[i]);
            assert(views(q[i]@).contains(x));
        }
        if annotated(q, x) {
            let k = choose|k: int| 0 <= k < q.len() && #[trigger] views(q[k]@).contains(x);
            if k < i {
                assert(p[k] == q[k]);
                assert(views(p[k]@).contains(x));
            }
        }
    }
}

/// A value is recorded under its own kind, and the other kinds and the presets stay.
pub proof fn law_values_are_recorded_by_kind(h: HistoryModel, kind: FilterKind, value: Seq<char>)
    ensures
        kind == FilterKind::Mime ==> {
            let r = h.with_value(kind, value);
            &&& r.mime == recorded(h.mime, value)
            &&& r.name == h.name
            &&& r.size == h.size
            &&& r.tag == h.tag
            &&& r.presets == h.presets
        },
        kind == FilterKind::Name ==> {
            let r = h.with_value(kind, value);
            &&& r.name == recorded(h.name, value)
            &&& r.mime == h.mime
            &&& r.size == h.size
            &&& r.tag == h.tag
            &&& r.presets == h.presets
        },
        kind == FilterKind::Size ==> {
            let r = h.with_value(kind, value);
            &&& r.size == recorded(h.size, value)
            &&& r.mime == h.mime
            &&& r.name == h.name
            &&& r.tag == h.tag
            &&& r.presets == h.presets
        },
        kind == FilterKind::Tag ==> {
            let r = h.with_value(kind, value);
            &&& r.tag == recorded(h.tag, value)
            &&& r.mime == h.mime
            &&& r.name == h.name
            &&& r.size == h.size
            &&& r.presets == h.presets
        },
        h.list(FilterKind::Mime) == h.mime,
        h.list(FilterKind::Name) == h.name,
        h.list(FilterKind::Size) == h.size,
        h.list(FilterKind::Tag) == h.tag,
{
}

/// The values of conditions are recorded one after the other, the last one last, and
/// the presets stay.
pub proof fn law_conditions_are_recorded_in_order(
    h: HistoryModel,
    conds: Seq<CondModel>,
    c: CondModel,
)
    ensures
        h.with_conds(Seq::empty()) == h,
        h.with_conds(conds.push(c)) == h.with_conds(conds).with_value(c.kind, c.value),
        h.with_conds(conds).presets == h.presets,
    decreases conds.len(),
{
    assert(conds.push(c).drop_last() =~= conds);
    if conds.len() > 0 {
        law_conditions_are_recorded_in_order(h, conds.drop_last(), conds.last());
    }
}

/// A history that learns nothing from conditions is left as it is, and one that learns
/// from a single condition is not.
pub proof fn law_learning_changes_the_history(
    h: HistoryModel,
    conds: Seq<CondModel>,
    c: CondModel,
)
    ensures
        !h.learns_from(conds) ==> h.with_conds(conds) == h,
        h.learns_from(seq![c]) <==> h.with_conds(seq![c]) != h,
    decreases conds.len(),
{
    if conds.len() > 0 {
        let part = conds.drop_last();
        law_learning_changes_the_history(h, part, c);
        if !h.learns_from(conds) {
            assert(h.with_conds(conds) =~= h);
        }
    }
    let one = seq![c];
    let none = one.drop_last();
    assert(none =~= Seq::empty());
    assert(h.with_conds(none) == h);
    assert(!h.learns_from(none));
    crate::lists::law_recording_puts_the_value_first(h.list(c.kind), c.value);
    if nothing_to_record(h.list(c.kind), c.value) {
        assert(h.with_conds(one) =~= h);
    } else {
        assert(h.with_conds(one).list(c.kind) == recorded(h.list(c.kind), c.value));
    }
}

/// Every condition that says something is saved, in order, under its kind's tag, with
/// its value trimmed and inverted where it was.
pub proof fn law_each_condition_is_saved(conds: Seq<CondModel>)
    ensures
        picks(
            conds,
            to_save(conds),
            |c: CondModel| trimmed(c.value).len() > 0,
            |c: CondModel|
                SavedModel {
                    kind: prefix_text(c.kind),
                    value: trimmed(c.value),
                    negated: c.negated,
                },
        ),
    decreases conds.len(),
{
    let keep = |c: CondModel| trimmed(c.value).len() > 0;
    let give = |c: CondModel|
        SavedModel {
            kind: prefix_text(c.kind),
            value: trimmed(c.value),
            negated: c.negated,
        };
    if conds.len() == 0 {
        lemma_picks_nothing(conds, to_save(conds), keep, give);
    } else {
        let part = conds.drop_last();
        law_each_condition_is_saved(part);
        lemma_picks_last(conds, to_save(part), to_save(conds), keep, give);
    }
}

/// Every saved condition of a known kind is restored, in order, with its value,
/// inverted where it was, and with its editor closed.
pub proof fn law_each_saved_condition_is_restored(saved: Seq<SavedModel>)
    ensures
        picks(
            saved,
            restored(saved),
            |s: SavedModel| known_kind(s.kind),
            |s: SavedModel|
                CondModel {
                    kind: kind_of(s.kind),
                    value: s.value,
                    editing: false,
                    negated: s.negated,
                },
        ),
    decreases saved.len(),
{
    let keep = |s: SavedModel| known_kind(s.kind);
    let give = |s: SavedModel|
        CondModel {
            kind: kind_of(s.kind),
            value: s.value,
            editing: false,
            negated: s.negated,
        };
    if saved.len() == 0 {
        lemma_picks_nothing(saved, restored(saved), keep, give);
    } else {
        let part = saved.drop_last();
        law_each_saved_condition_is_restored(part);
        lemma_picks_last(saved, restored(part), restored(saved), keep, give);
    }
}

/// The four tags are the known ones, each that of its kind.
pub proof fn law_four_tags_are_known(tag: Seq<char>)
    ensures
        known_kind(tag) <==> tag == "mime"@ || tag == "name"@ || tag == "size"@ || tag == "tag"@,
        kind_of("mime"@) == FilterKind::Mime,
        kind_of("name"@) == FilterKind::Name,
        kind_of("size"@) == FilterKind::Size,
        kind_of("tag"@) == FilterKind::Tag,
{
    lemma_kind_of(FilterKind::Mime);
    lemma_kind_of(FilterKind::Name);
    lemma_kind_of(FilterKind::Size);
    lemma_kind_of(FilterKind::Tag);
}

/// Every MIME type that holds what was typed, whatever the case, is offered with its
/// count, in order; all are where nothing was typed.
pub proof fn law_every_fitting_type_is_offered(stats: Seq<(Seq<char>, u64)>, typed: Seq<char>)
    ensures
        picks(
            stats,
            offered_stats(stats, typed),
            |s: (Seq<char>, u64)|
                lowercase(trimmed(typed)).len() == 0 || has_part(lowercase(s.0), lowercase(trimmed(typed))),
            |s: (Seq<char>, u64)| s,
        ),
    decreases stats.len(),
{
    let keep = |s: (Seq<char>, u64)|
        lowercase(trimmed(typed)).len() == 0 || has_part(lowercase(s.0), lowercase(trimmed(typed)));
    let give = |s: (Seq<char>, u64)| s;
    if stats.len() == 0 {
        lemma_picks_nothing(stats, offered_stats(stats, typed), keep, give);
    } else {
        let part = stats.drop_last();
        law_every_fitting_type_is_offered(part, typed);
        lemma_picks_last(stats, offered_stats(part, typed), offered_stats(stats, typed), keep, give);
    }
}

/// Every tag that holds what was typed, whatever the case, is offered, in order; all
/// are where nothing was typed.
pub proof fn law_every_fitting_tag_is_offered(tags: Seq<Seq<char>>, typed: Seq<char>)
    ensures
        picks(
            tags,
            offered_tags(tags, typed),
            |t: Seq<char>|
                lowercase(trimmed(typed)).len() == 0 || has_part(
                    lowercase(t),
                    lowercase(trimmed(typed)),
                ),
            |t: Seq<char>| t,
        ),
    decreases tags.len(),
{
    let keep = |t: Seq<char>|
        lowercase(trimmed(typed)).len() == 0 || has_part(
            lowercase(t),
            lowercase(trimmed(typed)),
        );
    let give = |t: Seq<char>| t;
    if tags.len() == 0 {
        lemma_picks_nothing(tags, offered_tags(tags, typed), keep, give);
    } else {
        let part = tags.drop_last();
        law_every_fitting_tag_is_offered(part, typed);
        lemma_picks_last(tags, offered_tags(part, typed), offered_tags(tags, typed), keep, give);
    }
}

/// The first types offered are shown, up to the limit.
pub proof fn law_the_first_types_are_shown(
    stats: Seq<(Seq<char>, u64)>,
    typed: Seq<char>,
    k: int,
)
    ensures
        ({
            let all = offered_stats(stats, typed);
            let shown = first_picks(stats, typed);
            &&& shown.len() == if all.len() < HISTORY_LIMIT {
                all.len() as int
            } else {
                HISTORY_LIMIT as int
            }
            &&& 0 <= k < shown.len() ==> shown[k] == all[k]
        }),
{
}

/// The editor that is shown is the last one open, and there is one exactly where an
/// editor is.
pub proof fn law_the_open_editor_is_shown(conds: Seq<CondModel>)
    requires
        conds.len() <= usize::MAX,
    ensures
        editing_at(conds) matches Some(i) ==> {
            &&& i < conds.len()
            &&& conds[i as int].editing
            &&& forall|k: int| i < k < conds.len() ==> !(#[trigger] conds[k]).editing
        },
        editing_at(conds) is None ==> forall|k: int|
            0 <= k < conds.len() ==> !(#[trigger] conds[k]).editing,
    decreases conds.len(),
{
    if conds.len() > 0 && !conds.last().editing {
        let part = conds.drop_last();
        law_the_open_editor_is_shown(part);
        assert forall|k: int|
            0 <= k < conds.len() && (editing_at(conds) is None || editing_at(conds)->0
                < k) implies !(#[trigger] conds[k]).editing by {
            if k < part.len() {
                assert(part[k] == conds[k]);
            }
        }
    }
}

/// A pill names the kind, says NOT exactly where the condition is inverted, and shows
/// the trimmed value, or an ellipsis where there is none.
pub proof fn law_a_pill_shows_its_condition(kind: FilterKind, value: Seq<char>, editing: bool)
    ensures
        ({
            let plain = chip_text(CondModel { kind, value, editing, negated: false });
            let label = if kind == FilterKind::Mime {
                "MIME"@
            } else if kind == FilterKind::Name {
                "NAME"@
            } else if kind == FilterKind::Size {
                "SIZE"@
            } else {
                "TAG"@
            };
            &&& trimmed(value).len() > 0 ==> plain == label + ": "@ + trimmed(value)
            &&& trimmed(value).len() == 0 ==> plain == label + ": "@ + "…"@
            &&& chip_text(CondModel { kind, value, editing, negated: true }) == "NOT "@ + plain
        }),
{
    reveal_strlit("");
    let label = if kind == FilterKind::Mime {
        "MIME"@
    } else if kind == FilterKind::Name {
        "NAME"@
    } else if kind == FilterKind::Size {
        "SIZE"@
    } else {
        "TAG"@
    };
    let shown = if trimmed(value).len() == 0 {
        "…"@
    } else {
        trimmed(value)
    };
    assert(""@ + label =~= label);
    assert("NOT "@ + label + ": "@ + shown =~= "NOT "@ + (label + ": "@ + shown));
}

/// The count beside a name condition is the number that was counted, and says that
/// counting is on where it is.
pub proof fn law_the_count_is_shown(m: BuilderModel)
    ensures
        m.count_result matches Some(n) ==> count_text(m) == Some(dec(n as nat) + " files match"@),
        m.count_result is None && (m.count_deadline is Some || m.count_in_flight) ==> count_text(m)
            == Some("counting…"@),
        m.count_result is None && m.count_deadline is None && !m.count_in_flight ==> count_text(
            m,
        ) is None,
{
}

/// A new condition stands at the end, empty and open and not inverted, and closes the
/// other editors.
pub proof fn law_a_new_condition_is_open_at_the_end(
    m: BuilderModel,
    kind: FilterKind,
    now: u64,
    k: int,
)
    ensures
        ({
            let was = m.filters;
            let r = m.after(Act::AddCond(kind), now);
            &&& r.filters.len() == was.len() + 1
            &&& r.filters.last().kind == kind
            &&& r.filters.last().value.len() == 0
            &&& r.filters.last().editing
            &&& !r.filters.last().negated
            &&& 0 <= k < was.len() ==> r.filters[k].kind == was[k].kind && r.filters[k].value
                == was[k].value && r.filters[k].negated == was[k].negated && !r.filters[k].editing
            &&& !r.adding
            &&& r.history == m.history
            &&& r.case_insensitive == m.case_insensitive
        }),
{
}

/// Each choice touches the condition it is about and leaves the others.
pub proof fn law_conditions_change_one_by_one(m: BuilderModel, i: usize, now: u64, k: int)
    ensures
        ({
            let was = m.filters;
            let r = m.after(Act::RemoveCond(i), now);
            &&& i >= was.len() ==> r.filters == was
            &&& i < was.len() ==> r.filters.len() + 1 == was.len()
            &&& i < was.len() && 0 <= k < i ==> r.filters[k] == was[k]
            &&& i < was.len() && i <= k < was.len() - 1 ==> r.filters[k] == was[k + 1]
            &&& r.history == m.history
        }),
        ({
            let was = m.filters;
            let r = m.after(Act::EditCond(i), now);
            &&& r.filters.len() == was.len()
            &&& 0 <= k < was.len() ==> r.filters[k].kind == was[k].kind && r.filters[k].value
                == was[k].value && r.filters[k].negated == was[k].negated
            &&& 0 <= k < was.len() && k != i ==> !r.filters[k].editing
            &&& i < was.len() ==> r.filters[i as int].editing == !was[i as int].editing
            &&& r.history == m.history
        }),
        ({
            let was = m.filters;
            let r = m.after(Act::CommitCond, now);
            &&& r.filters.len() == was.len()
            &&& 0 <= k < was.len() ==> r.filters[k].kind == was[k].kind && r.filters[k].value
                == was[k].value && r.filters[k].negated == was[k].negated && !r.filters[k].editing
            &&& r.history == m.history.with_conds(was)
        }),
        ({
            let was = m.filters;
            let r = m.after(Act::ToggleNegate(i), now);
            &&& r.filters.len() == was.len()
            &&& 0 <= k < was.len() ==> r.filters[k].kind == was[k].kind && r.filters[k].value
                == was[k].value && r.filters[k].editing == was[k].editing
            &&& 0 <= k < was.len() && k != i ==> r.filters[k].negated == was[k].negated
            &&& i < was.len() ==> r.filters[i as int].negated == !was[i as int].negated
            &&& r.history == m.history
        }),
        ({
            let r = m.after(Act::ClearConds, now);
            &&& r.filters.len() == 0
            &&& !r.adding
            &&& r.history == m.history
            &&& r.case_insensitive == m.case_insensitive
        }),
        ({
            let r = m.after(Act::ToggleCase, now);
            &&& r.case_insensitive == !m.case_insensitive
            &&& r.filters == m.filters
            &&& r.history == m.history
        }),
{
}

/// Storing puts a preset at the end with what its conditions say; applying one gives
/// its conditions; removing one takes out that one; renaming gives that one its
/// trimmed new name.
pub proof fn law_presets_are_kept_one_by_one(m: BuilderModel, i: usize, now: u64, k: int)
    ensures
        ({
            let r = m.after(Act::StorePreset, now);
            let was = m.history.presets;
            let saved = to_save(m.filters);
            &&& saved.len() == 0 ==> r == m
            &&& saved.len() > 0 ==> {
                &&& r.history.presets.len() == was.len() + 1
                &&& r.history.presets.last().conds == saved
                &&& 0 <= k < was.len() ==> r.history.presets[k] == was[k]
                &&& r.history.mime == m.history.with_conds(m.filters).mime
                &&& r.history.name == m.history.with_conds(m.filters).name
                &&& r.status is Some
            }
            &&& r.filters == m.filters
            &&& m.saves(Act::StorePreset) == (saved.len() > 0)
        }),
        ({
            let r = m.after(Act::ApplyPreset(i), now);
            &&& i < m.history.presets.len() ==> r.filters == restored(
                m.history.presets[i as int].conds,
            )
            &&& i >= m.history.presets.len() ==> r == m
            &&& r.history == m.history
            &&& !m.saves(Act::ApplyPreset(i))
        }),
        ({
            let r = m.after(Act::RemovePreset(i), now);
            let was = m.history.presets;
            &&& i >= was.len() ==> r == m
            &&& i < was.len() ==> r.history.presets.len() + 1 == was.len()
            &&& i < was.len() && 0 <= k < i ==> r.history.presets[k] == was[k]
            &&& i < was.len() && i <= k < was.len() - 1 ==> r.history.presets[k] == was[k + 1]
            &&& r.filters == m.filters
            &&& m.saves(Act::RemovePreset(i)) == (i < was.len())
        }),
        ({
            let r = m.after(Act::CommitRenamePreset(i), now);
            let was = m.history.presets;
            let name = trimmed(m.rename_buf);
            &&& r.renaming_preset is None
            &&& r.history.presets.len() == was.len()
            &&& i < was.len() && name.len() > 0 ==> r.history.presets[i as int].name == name
            &&& i < was.len() && name.len() == 0 ==> r.history.presets[i as int].name
                == was[i as int].name
            &&& 0 <= k < was.len() ==> r.history.presets[k].conds == was[k].conds
            &&& 0 <= k < was.len() && k != i ==> r.history.presets[k] == was[k]
            &&& r.filters == m.filters
            &&& m.saves(Act::CommitRenamePreset(i)) == (i < was.len() && name.len() > 0)
        }),
{
}

/// A match count is armed, a moment from now, exactly where a repository and a
/// condition on names are there, and whatever was counted before is gone.
pub proof fn law_a_changed_filter_is_counted_anew(m: BuilderModel, now: u64)
    ensures
        ({
            let r = m.after(Act::FilterChanged, now);
            let named = exists|i: int|
                0 <= i < m.filters.len() && (#[trigger] m.filters[i]).kind == FilterKind::Name;
            &&& r.count_result is None
            &&& (r.count_deadline is Some) == (m.repo is Some && named)
            &&& now <= u64::MAX - COUNT_DEBOUNCE_MS ==> (r.count_deadline matches Some(t) ==> t
                == now + COUNT_DEBOUNCE_MS)
            &&& r.count_deadline matches Some(t) ==> t >= now
            &&& r.count_token == m.count_token
            &&& r.filters == m.filters
            &&& m.changes(Act::FilterChanged, now)
        }),
{
}

/// The tags that are offered are those of the annotated files, each once, ascending.
pub proof fn law_tags_are_listed_once(tags: Texts, files: Seq<Vec<String>>, i: int, j: int)
    requires
        lists_tags(tags, files),
    ensures
        0 <= i < files.len() && 0 <= j < files[i]@.len() ==> tags.contains(files[i]@[j]@),
        0 <= i < tags.len() ==> exists|k: int, l: int|
            0 <= k < files.len() && 0 <= l < files[k]@.len() && #[trigger] files[k]@[l]@ == tags[i],
        0 <= i < j < tags.len() ==> crate::order::before(tags[i], tags[j]),
{
    if 0 <= i < files.len() && 0 <= j < files[i]@.len() {
        assert(views(files[i]@)[j] == files[i]@[j]@);
        assert(views(files[i]@).contains(files[i]@[j]@));
        assert(annotated(files, files[i]@[j]@));
    }
    if 0 <= i < tags.len() {
        assert(tags.contains(tags[i]));
        assert(annotated(files, tags[i]));
        let k = choose|k: int| 0 <= k < files.len() && #[trigger] views(files[k]@).contains(tags[i]);
        let l = views(files[k]@).index_of(tags[i]);
        assert(files[k]@[l]@ == tags[i]);
    }
}

/// What the model says of a wizard is what its fields hold.
pub proof fn law_the_model_holds_the_fields(b: FilterBuilder)
    ensures
        b@.filters == conds_view(b.filters@),
        b@.adding == b.adding,
        b@.history == b.history@,
        b@.repo == opt_view(b.repo),
        b@.case_insensitive == b.case_insensitive,
        b@.rename_buf == b.rename_buf@,
        b@.history.mime == views(b.history.mime@),
        b@.history.name == views(b.history.name@),
        b@.history.size == views(b.history.size@),
        b@.history.tag == views(b.history.tag@),
{
}

/// A new wizard has no condition, remembers nothing and counts nothing.
pub proof fn law_a_new_wizard_is_empty()
    ensures
        ({
            let m = BuilderModel::fresh();
            &&& m.filters.len() == 0
            &&& !m.adding
            &&& m.history.presets.len() == 0
            &&& m.history.mime.len() == 0 && m.history.name.len() == 0
            &&& m.history.size.len() == 0 && m.history.tag.len() == 0
            &&& m.repo is None
            &&& m.count_deadline is None && !m.count_in_flight && m.count_result is None
            &&& !m.case_insensitive
            &&& m.status is None && m.error is None
            &&& composed(m.filters, m.case_insensitive) is None
        }),
{
}

} // verus!
