//! The filter of the file tab: MIME, name and size conditions that all have to
//! hold, the values used before, and named presets.

use vstd::prelude::*;
use vstd::string::*;

use crate::lists::{lemma_picks_last, lemma_picks_nothing, picks};
use crate::recent::{nothing_to_record, record, recorded, without, Texts, HISTORY_LIMIT};
use crate::text::{copy, join, joined, same_text, trim, trimmed, views};

verus! {

/// The kind of a condition.
#[derive(Clone, Copy, Debug, PartialEq, Eq, Structural)]
pub enum FilterKind {
    Mime,
    Name,
    Size,
}

/// The word that a kind is written with in an expression.
pub open spec fn prefix_text(kind: FilterKind) -> Seq<char> {
    match kind {
        FilterKind::Mime => "mime"@,
        FilterKind::Name => "name"@,
        FilterKind::Size => "size"@,
    }
}

/// The name of a kind.
pub open spec fn label_text(kind: FilterKind) -> Seq<char> {
    match kind {
        FilterKind::Mime => "MIME"@,
        FilterKind::Name => "NAME"@,
        FilterKind::Size => "SIZE"@,
    }
}

impl FilterKind {
    /// The kind's name.
    pub fn label(self) -> (r: &'static str)
        ensures
            r@ == label_text(self),
    {
        match self {
            FilterKind::Mime => "MIME",
            FilterKind::Name => "NAME",
            FilterKind::Size => "SIZE",
        }
    }

    /// The kind's word in an expression, and its tag in a saved condition.
    pub fn prefix(self) -> (r: &'static str)
        ensures
            r@ == prefix_text(self),
    {
        match self {
            FilterKind::Mime => "mime",
            FilterKind::Name => "name",
            FilterKind::Size => "size",
        }
    }

    /// The kind with this tag.
    pub fn from_prefix(prefix: &str) -> (r: Option<FilterKind>)
        ensures
            r == kind_tagged(prefix@),
    {
        proof {
            lemma_prefixes();
        }
        if same_text(prefix, "mime") {
            Some(FilterKind::Mime)
        } else if same_text(prefix, "name") {
            Some(FilterKind::Name)
        } else if same_text(prefix, "size") {
            Some(FilterKind::Size)
        } else {
            None
        }
    }

    /// What the empty field suggests.
    pub fn hint(self) -> (r: &'static str)
        ensures
            r@ == match self {
                FilterKind::Mime => "image/"@,
                FilterKind::Name => "substring"@,
                FilterKind::Size => ">=1000"@,
            },
    {
        match self {
            FilterKind::Mime => "image/",
            FilterKind::Name => "substring",
            FilterKind::Size => ">=1000",
        }
    }
}

/// The kind whose tag this is.
pub open spec fn kind_tagged(tag: Seq<char>) -> Option<FilterKind> {
    if tag == "mime"@ {
        Some(FilterKind::Mime)
    } else if tag == "name"@ {
        Some(FilterKind::Name)
    } else if tag == "size"@ {
        Some(FilterKind::Size)
    } else {
        None
    }
}

proof fn lemma_prefixes()
    ensures
        "mime"@ != "name"@,
        "mime"@ != "size"@,
        "name"@ != "size"@,
{
    reveal_strlit("mime");
    reveal_strlit("name");
    reveal_strlit("size");
    assert("mime"@[0] == 'm');
    assert("name"@[0] == 'n');
    assert("size"@[0] == 's');
}

/// A kind is found again by its tag.
pub proof fn law_tags_tell_kinds_apart(kind: FilterKind)
    ensures
        kind_tagged(prefix_text(kind)) == Some(kind),
{
    lemma_prefixes();
}

/// A condition of the filter. At most one is open in the editor.
#[derive(Debug, PartialEq, Eq)]
pub struct FilterCond {
    pub kind: FilterKind,
    pub value: String,
    pub editing: bool,
}

/// A condition's contents.
pub struct CondModel {
    pub kind: FilterKind,
    pub value: Seq<char>,
    pub editing: bool,
}

impl View for FilterCond {
    type V = CondModel;

    open spec fn view(&self) -> CondModel {
        CondModel { kind: self.kind, value: self.value@, editing: self.editing }
    }
}

/// The contents of conditions.
pub open spec fn conds_view(conds: Seq<FilterCond>) -> Seq<CondModel> {
    Seq::new(conds.len(), |i: int| conds[i]@)
}

/// A condition as a preset saves it.
#[derive(Debug, PartialEq, Eq)]
pub struct SavedCond {
    /// The tag of the condition's kind.
    pub kind: String,
    pub value: String,
}

/// A saved condition's contents.
pub struct SavedModel {
    pub kind: Seq<char>,
    pub value: Seq<char>,
}

/// The contents of saved conditions.
pub open spec fn saved_view(conds: Seq<SavedCond>) -> Seq<SavedModel> {
    Seq::new(
        conds.len(),
        |i: int| SavedModel { kind: conds[i].kind@, value: conds[i].value@ },
    )
}

/// A named set of conditions.
#[derive(Debug, PartialEq, Eq)]
pub struct FilterPreset {
    pub name: String,
    pub conds: Vec<SavedCond>,
}

/// A preset's contents.
#[verifier::ext_equal]
pub struct PresetModel {
    pub name: Seq<char>,
    pub conds: Seq<SavedModel>,
}

impl View for FilterPreset {
    type V = PresetModel;

    open spec fn view(&self) -> PresetModel {
        PresetModel { name: self.name@, conds: saved_view(self.conds@) }
    }
}

/// The contents of presets.
pub open spec fn presets_view(presets: Seq<FilterPreset>) -> Seq<PresetModel> {
    Seq::new(presets.len(), |i: int| presets[i]@)
}

/// The values used before, kind by kind, and the presets.
#[derive(Debug, PartialEq, Eq)]
pub struct FilterHistory {
    pub mime: Vec<String>,
    pub name: Vec<String>,
    pub size: Vec<String>,
    pub presets: Vec<FilterPreset>,
}

/// The contents of a history.
#[verifier::ext_equal]
pub struct HistoryModel {
    pub mime: Texts,
    pub name: Texts,
    pub size: Texts,
    pub presets: Seq<PresetModel>,
}

impl View for FilterHistory {
    type V = HistoryModel;

    open spec fn view(&self) -> HistoryModel {
        HistoryModel {
            mime: views(self.mime@),
            name: views(self.name@),
            size: views(self.size@),
            presets: presets_view(self.presets@),
        }
    }
}

/// A preset list after one was put in: in the place of the first of that name, or
/// at the end.
pub open spec fn placed(presets: Seq<PresetModel>, preset: PresetModel) -> Seq<PresetModel>
    decreases presets.len(),
{
    if presets.len() == 0 {
        seq![preset]
    } else if presets[0].name == preset.name {
        presets.update(0, preset)
    } else {
        seq![presets[0]] + placed(presets.drop_first(), preset)
    }
}

/// A preset list after others were put in, in order.
pub open spec fn placed_all(presets: Seq<PresetModel>, more: Seq<PresetModel>) -> Seq<PresetModel>
    decreases more.len(),
{
    if more.len() == 0 {
        presets
    } else {
        placed(placed_all(presets, more.drop_last()), more.last())
    }
}

/// A list after imported values were recorded: the last first, so that they end up
/// in their order.
pub open spec fn imported(list: Texts, values: Texts) -> Texts
    decreases values.len(),
{
    if values.len() == 0 {
        list
    } else {
        recorded(imported(list, values.drop_first()), values[0])
    }
}

impl HistoryModel {
    /// Nothing remembered.
    pub open spec fn nothing() -> HistoryModel {
        HistoryModel {
            mime: Seq::empty(),
            name: Seq::empty(),
            size: Seq::empty(),
            presets: Seq::empty(),
        }
    }

    /// The values of a kind.
    pub open spec fn list(self, kind: FilterKind) -> Texts {
        match kind {
            FilterKind::Mime => self.mime,
            FilterKind::Name => self.name,
            FilterKind::Size => self.size,
        }
    }

    /// The history with other values of a kind.
    pub open spec fn with_list(self, kind: FilterKind, list: Texts) -> HistoryModel {
        match kind {
            FilterKind::Mime => HistoryModel { mime: list, ..self },
            FilterKind::Name => HistoryModel { name: list, ..self },
            FilterKind::Size => HistoryModel { size: list, ..self },
        }
    }

    /// The history after a value was recorded.
    pub open spec fn with_value(self, kind: FilterKind, value: Seq<char>) -> HistoryModel {
        self.with_list(kind, recorded(self.list(kind), value))
    }

    /// The history after the values of conditions were recorded, in order.
    pub open spec fn with_conds(self, conds: Seq<CondModel>) -> HistoryModel
        decreases conds.len(),
    {
        if conds.len() == 0 {
            self
        } else {
            self.with_conds(conds.drop_last()).with_value(conds.last().kind, conds.last().value)
        }
    }

    /// Recording the values of conditions changes a list.
    pub open spec fn learns_from(self, conds: Seq<CondModel>) -> bool
        decreases conds.len(),
    {
        if conds.len() == 0 {
            false
        } else {
            let c = conds.last();
            self.learns_from(conds.drop_last()) || !nothing_to_record(
                self.with_conds(conds.drop_last()).list(c.kind),
                c.value,
            )
        }
    }

    /// The history after another was taken in: its values in front of the own
    /// ones, its presets in the place of those of the same name.
    pub open spec fn merged(self, other: HistoryModel) -> HistoryModel {
        HistoryModel {
            mime: imported(self.mime, other.mime),
            name: imported(self.name, other.name),
            size: imported(self.size, other.size),
            presets: placed_all(self.presets, other.presets),
        }
    }
}

/// The first imported value that is not blank comes first.
pub proof fn law_an_imported_value_comes_first(list: Texts, values: Texts)
    requires
        values.len() > 0,
        trimmed(values[0]).len() > 0,
    ensures
        imported(list, values).len() > 0,
        imported(list, values)[0] == trimmed(values[0]),
{
    let rest = imported(list, values.drop_first());
    assert(recorded(rest, values[0])[0] == trimmed(values[0]));
}

/// A preset that was put in is there, once under its name where no name stood twice.
pub proof fn law_a_placed_preset_is_there(presets: Seq<PresetModel>, preset: PresetModel)
    ensures
        placed(presets, preset).contains(preset),
        placed(presets, preset).len() <= presets.len() + 1,
    decreases presets.len(),
{
    let now = placed(presets, preset);
    if presets.len() == 0 || presets[0].name == preset.name {
        assert(now[0] == preset);
    } else {
        let rest = placed(presets.drop_first(), preset);
        law_a_placed_preset_is_there(presets.drop_first(), preset);
        let k = rest.index_of(preset);
        assert(now[k + 1] == rest[k]);
    }
}

/// Puts a preset into a list.
pub fn place_preset(presets: &mut Vec<FilterPreset>, preset: FilterPreset)
    ensures
        presets_view(final(presets)@) == placed(presets_view(old(presets)@), preset@),
{
    let ghost start = presets_view(presets@);
    let ghost p = preset@;
    let mut i: usize = 0;
    assert(start.skip(0) =~= start);
    assert(start.take(0) + placed(start, p) =~= placed(start, p));
    while i < presets.len()
        invariant
            i <= presets@.len(),
            start == presets_view(presets@),
            start == presets_view(old(presets)@),
            p == preset@,
            placed(start, p) == start.take(i as int) + placed(start.skip(i as int), p),
        decreases presets@.len() - i,
    {
        proof {
            assert(start.skip(i as int).drop_first() =~= start.skip(i + 1));
            assert(start.skip(i as int)[0] == start[i as int]);
        }
        if same_text(presets[i].name.as_str(), preset.name.as_str()) {
            assert(placed(start.skip(i as int), p) == start.skip(i as int).update(0, p));
            presets.set(i, preset);
            proof {
                assert(start.take(i as int) + start.skip(i as int).update(0, p) =~= start.update(
                    i as int,
                    p,
                ));
                assert(presets_view(presets@) =~= start.update(i as int, p));
            }
            return;
        }
        assert(start.take(i + 1) =~= start.take(i as int) + seq![start[i as int]]);
        assert(start.take(i as int) + (seq![start[i as int]] + placed(start.skip(i + 1), p))
            =~= start.take(i + 1) + placed(start.skip(i + 1), p));
        i += 1;
    }
    presets.push(preset);
    assert(start.take(i as int) =~= start);
    assert(presets_view(presets@) =~= start + seq![p]);
}

impl Default for FilterHistory {
    fn default() -> (r: Self)
        ensures
            r@ == HistoryModel::nothing(),
    {
        FilterHistory::new()
    }
}

impl FilterHistory {
    /// Nothing remembered.
    pub fn new() -> (r: Self)
        ensures
            r@ == HistoryModel::nothing(),
    {
        let r = FilterHistory {
            mime: Vec::new(),
            name: Vec::new(),
            size: Vec::new(),
            presets: Vec::new(),
        };
        assert(r@ =~= HistoryModel::nothing());
        r
    }

    /// The values of a kind.
    pub fn for_kind(&self, kind: FilterKind) -> (r: &Vec<String>)
        ensures
            views(r@) == self@.list(kind),
    {
        match kind {
            FilterKind::Mime => &self.mime,
            FilterKind::Name => &self.name,
            FilterKind::Size => &self.size,
        }
    }

    /// The values of a kind, to be changed.
    pub fn for_kind_mut(&mut self, kind: FilterKind) -> (r: &mut Vec<String>)
        ensures
            views(r@) == old(self)@.list(kind),
            final(self)@ == old(self)@.with_list(kind, views(final(r)@)),
            final(self).presets == old(self).presets,
    {
        match kind {
            FilterKind::Mime => &mut self.mime,
            FilterKind::Name => &mut self.name,
            FilterKind::Size => &mut self.size,
        }
    }

    /// Records a value at the front of its kind's list. Returns whether the list
    /// changed.
    pub fn record_value(&mut self, kind: FilterKind, value: &str) -> (r: bool)
        ensures
            final(self)@ == old(self)@.with_value(kind, value@),
            final(self).presets == old(self).presets,
            r == !nothing_to_record(old(self)@.list(kind), value@),
    {
        let list = self.for_kind_mut(kind);
        record(list, value)
    }

    /// Records the values of conditions, in order. Returns whether a list changed.
    pub fn record_conds(&mut self, conds: &Vec<FilterCond>) -> (r: bool)
        ensures
            final(self)@ == old(self)@.with_conds(conds_view(conds@)),
            final(self).presets == old(self).presets,
            r == old(self)@.learns_from(conds_view(conds@)),
    {
        let ghost start = self@;
        let ghost kept = self.presets;
        let ghost all = conds_view(conds@);
        let mut dirty = false;
        let mut i: usize = 0;
        while i < conds.len()
            invariant
                i <= conds@.len(),
                all == conds_view(conds@),
                self@ == start.with_conds(all.take(i as int)),
                self.presets == kept,
                dirty == start.learns_from(all.take(i as int)),
            decreases conds@.len() - i,
        {
            proof {
                assert(all.take(i + 1).drop_last() =~= all.take(i as int));
                assert(all.take(i + 1).last() == conds@[i as int]@);
            }
            let changed = self.record_value(conds[i].kind, conds[i].value.as_str());
            dirty = dirty || changed;
            i += 1;
        }
        assert(all.take(i as int) =~= all);
        dirty
    }

    /// Takes in another history.
    pub fn merge(&mut self, other: FilterHistory)
        ensures
            final(self)@ == old(self)@.merged(other@),
    {
        take_in(&mut self.mime, &other.mime);
        take_in(&mut self.name, &other.name);
        take_in(&mut self.size, &other.size);
        place_all(&mut self.presets, other.presets);
    }
}

fn take_in(list: &mut Vec<String>, values: &Vec<String>)
    ensures
        views(final(list)@) == imported(views(old(list)@), views(values@)),
{
    let ghost start = views(list@);
    let ghost all = views(values@);
    let mut i: usize = values.len();
    assert(all.skip(i as int) =~= Seq::empty());
    while i > 0
        invariant
            i <= values@.len(),
            all == views(values@),
            views(list@) == imported(start, all.skip(i as int)),
        decreases i,
    {
        i -= 1;
        assert(all.skip(i as int).drop_first() =~= all.skip(i + 1));
        assert(all.skip(i as int)[0] == values@[i as int]@);
        let _changed = record(list, values[i].as_str());
    }
    assert(all.skip(0) =~= all);
}

fn place_all(presets: &mut Vec<FilterPreset>, more: Vec<FilterPreset>)
    ensures
        presets_view(final(presets)@) == placed_all(presets_view(old(presets)@), presets_view(more@)),
{
    let ghost start = presets_view(presets@);
    let ghost all = presets_view(more@);
    let mut i: usize = 0;
    assert(all.take(0) =~= Seq::empty());
    while i < more.len()
        invariant
            i <= more@.len(),
            all == presets_view(more@),
            presets_view(presets@) == placed_all(start, all.take(i as int)),
        decreases more@.len() - i,
    {
        assert(all.take(i + 1).drop_last() =~= all.take(i as int));
        assert(all.take(i + 1).last() == more@[i as int]@);
        place_preset(presets, copy_preset(&more[i]));
        i += 1;
    }
    assert(all.take(i as int) =~= all);
}

fn copy_preset(preset: &FilterPreset) -> (r: FilterPreset)
    ensures
        r@ == preset@,
{
    let mut conds: Vec<SavedCond> = Vec::new();
    let mut i: usize = 0;
    while i < preset.conds.len()
        invariant
            i <= preset.conds@.len(),
            saved_view(conds@) == saved_view(preset.conds@).take(i as int),
        decreases preset.conds@.len() - i,
    {
        let ghost was = conds@;
        let c = &preset.conds[i];
        conds.push(SavedCond { kind: c.kind.clone(), value: c.value.clone() });
        assert(saved_view(conds@) =~= saved_view(was).push(
            SavedModel { kind: c.kind@, value: c.value@ },
        ));
        i += 1;
        assert(saved_view(conds@) =~= saved_view(preset.conds@).take(i as int));
    }
    assert(saved_view(conds@) =~= saved_view(preset.conds@));
    FilterPreset { name: preset.name.clone(), conds }
}

/// The parts of an expression: the conditions that say something, trimmed.
pub open spec fn parts(conds: Seq<CondModel>) -> Texts
    decreases conds.len(),
{
    if conds.len() == 0 {
        Seq::empty()
    } else {
        let rest = parts(conds.drop_last());
        let value = trimmed(conds.last().value);
        if value.len() == 0 {
            rest
        } else {
            rest.push(prefix_text(conds.last().kind) + ":"@ + value)
        }
    }
}

/// The expression that conditions compose, if any says something.
pub open spec fn composed(conds: Seq<CondModel>) -> Option<Seq<char>> {
    if parts(conds).len() == 0 {
        None
    } else {
        Some(joined(parts(conds), " "@))
    }
}

/// The expression that conditions compose.
pub fn compose(conds: &Vec<FilterCond>) -> (r: Option<String>)
    ensures
        crate::filter_ui::opt_view(r) == composed(conds_view(conds@)),
{
    let ghost all = conds_view(conds@);
    let mut out: Vec<String> = Vec::new();
    let mut i: usize = 0;
    assert(views(out@) =~= parts(all.take(0)));
    while i < conds.len()
        invariant
            i <= conds@.len(),
            all == conds_view(conds@),
            views(out@) == parts(all.take(i as int)),
        decreases conds@.len() - i,
    {
        let ghost was = out@;
        assert(all.take(i + 1).drop_last() =~= all.take(i as int));
        assert(all.take(i + 1).last() == conds@[i as int]@);
        let value = trim(conds[i].value.as_str());
        if !value.as_str().is_empty() {
            let mut part = copy(conds[i].kind.prefix());
            part.append(":");
            part.append(value.as_str());
            let ghost text = part@;
            out.push(part);
            assert(views(out@) =~= views(was).push(text));
        }
        i += 1;
    }
    assert(all.take(i as int) =~= all);
    assert(views(out@).len() == out@.len());
    if out.len() == 0 {
        None
    } else {
        Some(join(&out, " "))
    }
}

/// The conditions that say something, as a preset saves them.
pub open spec fn to_save(conds: Seq<CondModel>) -> Seq<SavedModel>
    decreases conds.len(),
{
    if conds.len() == 0 {
        Seq::empty()
    } else {
        let rest = to_save(conds.drop_last());
        let value = trimmed(conds.last().value);
        if value.len() == 0 {
            rest
        } else {
            rest.push(SavedModel { kind: prefix_text(conds.last().kind), value })
        }
    }
}

/// The conditions that say something, as a preset saves them.
pub fn saved_conds(conds: &Vec<FilterCond>) -> (r: Vec<SavedCond>)
    ensures
        saved_view(r@) == to_save(conds_view(conds@)),
{
    let ghost all = conds_view(conds@);
    let mut out: Vec<SavedCond> = Vec::new();
    let mut i: usize = 0;
    assert(saved_view(out@) =~= to_save(all.take(0)));
    while i < conds.len()
        invariant
            i <= conds@.len(),
            all == conds_view(conds@),
            saved_view(out@) == to_save(all.take(i as int)),
        decreases conds@.len() - i,
    {
        let ghost was = out@;
        assert(all.take(i + 1).drop_last() =~= all.take(i as int));
        assert(all.take(i + 1).last() == conds@[i as int]@);
        let value = trim(conds[i].value.as_str());
        if !value.as_str().is_empty() {
            let kind = copy(conds[i].kind.prefix());
            let ghost model = SavedModel { kind: kind@, value: value@ };
            out.push(SavedCond { kind, value });
            assert(saved_view(out@) =~= saved_view(was).push(model));
        }
        i += 1;
    }
    assert(all.take(i as int) =~= all);
    out
}

/// The conditions that a preset restores: those of an unknown kind are dropped.
pub open spec fn restored(saved: Seq<SavedModel>) -> Seq<CondModel>
    decreases saved.len(),
{
    if saved.len() == 0 {
        Seq::empty()
    } else {
        let rest = restored(saved.drop_last());
        match kind_tagged(saved.last().kind) {
            Some(kind) => rest.push(
                CondModel { kind, value: saved.last().value, editing: false },
            ),
            None => rest,
        }
    }
}

/// The conditions that a preset restores.
pub fn restore(saved: &Vec<SavedCond>) -> (r: Vec<FilterCond>)
    ensures
        conds_view(r@) == restored(saved_view(saved@)),
{
    let ghost all = saved_view(saved@);
    let mut out: Vec<FilterCond> = Vec::new();
    let mut i: usize = 0;
    assert(conds_view(out@) =~= restored(all.take(0)));
    while i < saved.len()
        invariant
            i <= saved@.len(),
            all == saved_view(saved@),
            conds_view(out@) == restored(all.take(i as int)),
        decreases saved@.len() - i,
    {
        let ghost was = out@;
        assert(all.take(i + 1).drop_last() =~= all.take(i as int));
        assert(all.take(i + 1).last() == all[i as int]);
        if let Some(kind) = FilterKind::from_prefix(saved[i].kind.as_str()) {
            let cond = FilterCond { kind, value: saved[i].value.clone(), editing: false };
            let ghost model = cond@;
            out.push(cond);
            assert(conds_view(out@) =~= conds_view(was).push(model));
        }
        i += 1;
    }
    assert(all.take(i as int) =~= all);
    out
}

/// The values that a preset of conditions restores, kind by kind: those that said
/// something, trimmed.
pub open spec fn spoken(conds: Seq<CondModel>) -> Seq<CondModel>
    decreases conds.len(),
{
    if conds.len() == 0 {
        Seq::empty()
    } else {
        let rest = spoken(conds.drop_last());
        let value = trimmed(conds.last().value);
        if value.len() == 0 {
            rest
        } else {
            rest.push(CondModel { kind: conds.last().kind, value, editing: false })
        }
    }
}

proof fn lemma_restored(conds: Seq<CondModel>)
    ensures
        restored(to_save(conds)) == spoken(conds),
    decreases conds.len(),
{
    if conds.len() > 0 {
        lemma_restored(conds.drop_last());
        let rest = to_save(conds.drop_last());
        let value = trimmed(conds.last().value);
        if value.len() > 0 {
            law_tags_tell_kinds_apart(conds.last().kind);
            let now = rest.push(SavedModel { kind: prefix_text(conds.last().kind), value });
            assert(now.drop_last() =~= rest);
        }
    }
}

proof fn lemma_spoken_parts(conds: Seq<CondModel>)
    ensures
        parts(spoken(conds)) == parts(conds),
    decreases conds.len(),
{
    if conds.len() > 0 {
        lemma_spoken_parts(conds.drop_last());
        let rest = spoken(conds.drop_last());
        let value = trimmed(conds.last().value);
        if value.len() > 0 {
            crate::text::lemma_trimmed_shape(conds.last().value);
            crate::text::lemma_trimmed_fixed(value);
            let now = rest.push(CondModel { kind: conds.last().kind, value, editing: false });
            assert(now.drop_last() =~= rest);
        }
    }
}

/// Applying a preset gives back the filter that it was saved from.
pub proof fn law_a_preset_gives_its_filter_back(conds: Seq<CondModel>)
    ensures
        composed(restored(to_save(conds))) == composed(conds),
{
    lemma_restored(conds);
    lemma_spoken_parts(conds);
}

/// A value is recorded under its own kind, and the other kinds and the presets stay.
pub proof fn law_values_are_recorded_by_kind(h: HistoryModel, kind: FilterKind, value: Seq<char>)
    ensures
        kind == FilterKind::Mime ==> {
            let r = h.with_value(kind, value);
            &&& r.mime == recorded(h.mime, value)
            &&& r.name == h.name
            &&& r.size == h.size
            &&& r.presets == h.presets
        },
        kind == FilterKind::Name ==> {
            let r = h.with_value(kind, value);
            &&& r.name == recorded(h.name, value)
            &&& r.mime == h.mime
            &&& r.size == h.size
            &&& r.presets == h.presets
        },
        kind == FilterKind::Size ==> {
            let r = h.with_value(kind, value);
            &&& r.size == recorded(h.size, value)
            &&& r.mime == h.mime
            &&& r.name == h.name
            &&& r.presets == h.presets
        },
        h.list(FilterKind::Mime) == h.mime,
        h.list(FilterKind::Name) == h.name,
        h.list(FilterKind::Size) == h.size,
{
}

/// The values of conditions are recorded one after the other, the last one last, and
/// the presets stay.
pub proof fn law_conditions_are_recorded_in_order(
    h: HistoryModel,
    conds: Seq<CondModel>,
    c: CondModel,
)
    ensures
        h.with_conds(Seq::empty()) == h,
        h.with_conds(conds.push(c)) == h.with_conds(conds).with_value(c.kind, c.value),
        h.with_conds(conds).presets == h.presets,
    decreases conds.len(),
{
    assert(conds.push(c).drop_last() =~= conds);
    if conds.len() > 0 {
        law_conditions_are_recorded_in_order(h, conds.drop_last(), conds.last());
    }
}

/// A history that learns nothing from conditions is left as it is, and one that learns
/// from a single condition is not.
pub proof fn law_learning_changes_the_history(
    h: HistoryModel,
    conds: Seq<CondModel>,
    c: CondModel,
)
    ensures
        !h.learns_from(conds) ==> h.with_conds(conds) == h,
        h.learns_from(seq![c]) <==> h.with_conds(seq![c]) != h,
    decreases conds.len(),
{
    if conds.len() > 0 {
        let part = conds.drop_last();
        law_learning_changes_the_history(h, part, c);
        if !h.learns_from(conds) {
            assert(h.with_conds(conds) =~= h);
        }
    }
    let one = seq![c];
    let none = one.drop_last();
    assert(none =~= Seq::empty());
    assert(h.with_conds(none) == h);
    assert(!h.learns_from(none));
    crate::lists::law_recording_puts_the_value_first(h.list(c.kind), c.value);
    if nothing_to_record(h.list(c.kind), c.value) {
        assert(h.with_conds(one) =~= h);
    } else {
        assert(h.with_conds(one).list(c.kind) == recorded(h.list(c.kind), c.value));
    }
}

/// A preset that is put in takes the place of the first of its name, and else goes to
/// the end; the others stay where they are.
pub proof fn law_a_preset_replaces_its_namesake(
    presets: Seq<PresetModel>,
    preset: PresetModel,
) -> (i: int)
    ensures
        0 <= i <= presets.len(),
        forall|k: int| 0 <= k < i ==> (#[trigger] presets[k]).name != preset.name,
        i < presets.len() ==> presets[i].name == preset.name && placed(presets, preset)
            == presets.update(i, preset),
        i == presets.len() ==> placed(presets, preset) == presets.push(preset),
    decreases presets.len(),
{
    if presets.len() == 0 {
        assert(placed(presets, preset) =~= presets.push(preset));
        0
    } else if presets[0].name == preset.name {
        0
    } else {
        let rest = presets.drop_first();
        let i = law_a_preset_replaces_its_namesake(rest, preset);
        assert forall|k: int| 0 <= k < i + 1 implies (#[trigger] presets[k]).name
            != preset.name by {
            if k > 0 {
                assert(rest[k - 1] == presets[k]);
            }
        }
        if i < rest.len() {
            assert(seq![presets[0]] + rest.update(i, preset) =~= presets.update(i + 1, preset));
        } else {
            assert(seq![presets[0]] + rest.push(preset) =~= presets.push(preset));
        }
        i + 1
    }
}

/// Taking in another history takes in each kind's values and its presets, the last
/// preset of a name winning.
pub proof fn law_a_history_is_taken_in_kind_by_kind(h: HistoryModel, other: HistoryModel)
    ensures
        h.merged(other).mime == imported(h.mime, other.mime),
        h.merged(other).name == imported(h.name, other.name),
        h.merged(other).size == imported(h.size, other.size),
        other.presets.len() == 0 ==> h.merged(other).presets == h.presets,
        other.presets.len() > 0 ==> h.merged(other).presets.contains(other.presets.last()),
{
    if other.presets.len() > 0 {
        law_a_placed_preset_is_there(
            placed_all(h.presets, other.presets.drop_last()),
            other.presets.last(),
        );
    }
}

proof fn lemma_without_front(front: Texts, rest: Texts, value: Seq<char>)
    requires
        !front.contains(value),
    ensures
        without(front + rest, value) == front + without(rest, value),
    decreases rest.len(),
{
    if rest.len() > 0 {
        assert((front + rest).drop_last() =~= front + rest.drop_last());
        lemma_without_front(front, rest.drop_last(), value);
        assert(without(front + rest, value) =~= front + without(rest, value));
    } else {
        assert(front + rest =~= front);
        lemma_without_none(front, value);
        assert(front + without(rest, value) =~= front);
    }
}

proof fn lemma_without_none(list: Texts, value: Seq<char>)
    requires
        !list.contains(value),
    ensures
        without(list, value) == list,
    decreases list.len(),
{
    if list.len() > 0 {
        let part = list.drop_last();
        assert(list[list.len() - 1] != value);
        if part.contains(value) {
            let k = part.index_of(value);
            assert(list[k] == value);
        }
        lemma_without_none(part, value);
        assert(part.push(list.last()) =~= list);
    }
}

/// Imported values come first and in their order, before what was there.
pub proof fn law_imported_values_come_in_order(list: Texts, values: Texts)
    requires
        values.len() <= HISTORY_LIMIT,
        forall|i: int| 0 <= i < values.len() ==> trimmed(#[trigger] values[i]) == values[i],
        forall|i: int| 0 <= i < values.len() ==> (#[trigger] values[i]).len() > 0,
        forall|i: int, j: int| 0 <= i < j < values.len() ==> values[i] != values[j],
    ensures
        imported(list, values).len() >= values.len(),
        imported(list, values).take(values.len() as int) == values,
    decreases values.len(),
{
    let out = imported(list, values);
    if values.len() > 0 {
        let first = values[0];
        let more = values.drop_first();
        assert forall|i: int| 0 <= i < more.len() implies trimmed(#[trigger] more[i])
            == more[i] by {
            assert(more[i] == values[i + 1]);
        }
        assert forall|i: int| 0 <= i < more.len() implies (#[trigger] more[i]).len() > 0 by {
            assert(more[i] == values[i + 1]);
        }
        law_imported_values_come_in_order(list, more);
        let rest = imported(list, more);
        if more.contains(first) {
            let k = more.index_of(first);
            assert(values[k + 1] == first);
        }
        let n = more.len() as int;
        if !nothing_to_record(rest, first) {
            assert(rest =~= rest.take(n) + rest.skip(n));
            lemma_without_front(more, rest.skip(n), first);
            let all = seq![first] + without(rest, first);
            assert(all.take(values.len() as int) =~= values);
            assert(out.take(values.len() as int) =~= values);
        } else {
            assert(trimmed(first) == first);
            assert(rest[0] == first);
            if n > 0 {
                assert(rest.take(n)[0] == more[0]);
                assert(more.contains(more[0]));
            }
            assert(out.take(1) =~= values);
        }
    } else {
        assert(out.take(0) =~= values);
    }
}

/// Every condition that says something has its part of the expression, in order: its
/// kind's prefix, a colon, and its value trimmed.
pub proof fn law_each_condition_has_its_part(conds: Seq<CondModel>)
    ensures
        picks(
            conds,
            parts(conds),
            |c: CondModel| trimmed(c.value).len() > 0,
            |c: CondModel| prefix_text(c.kind) + ":"@ + trimmed(c.value),
        ),
    decreases conds.len(),
{
    let keep = |c: CondModel| trimmed(c.value).len() > 0;
    let give = |c: CondModel| prefix_text(c.kind) + ":"@ + trimmed(c.value);
    if conds.len() == 0 {
        lemma_picks_nothing(conds, parts(conds), keep, give);
    } else {
        let part = conds.drop_last();
        law_each_condition_has_its_part(part);
        lemma_picks_last(conds, parts(part), parts(conds), keep, give);
    }
}

/// Every condition that says something is saved, in order, under its kind's tag and
/// with its value trimmed.
pub proof fn law_each_condition_is_saved(conds: Seq<CondModel>)
    ensures
        picks(
            conds,
            to_save(conds),
            |c: CondModel| trimmed(c.value).len() > 0,
            |c: CondModel|
                SavedModel { kind: prefix_text(c.kind), value: trimmed(c.value) },
        ),
    decreases conds.len(),
{
    let keep = |c: CondModel| trimmed(c.value).len() > 0;
    let give = |c: CondModel|
        SavedModel { kind: prefix_text(c.kind), value: trimmed(c.value) };
    if conds.len() == 0 {
        lemma_picks_nothing(conds, to_save(conds), keep, give);
    } else {
        let part = conds.drop_last();
        law_each_condition_is_saved(part);
        lemma_picks_last(conds, to_save(part), to_save(conds), keep, give);
    }
}

/// Every saved condition of a known kind is restored, in order, with its value and
/// with its editor closed.
pub proof fn law_each_saved_condition_is_restored(saved: Seq<SavedModel>)
    ensures
        picks(
            saved,
            restored(saved),
            |s: SavedModel| s.kind == "mime"@ || s.kind == "name"@ || s.kind == "size"@,
            |s: SavedModel|
                CondModel {
                    kind: if s.kind == "mime"@ {
                        FilterKind::Mime
                    } else if s.kind == "name"@ {
                        FilterKind::Name
                    } else {
                        FilterKind::Size
                    },
                    value: s.value,
                    editing: false,
                },
        ),
    decreases saved.len(),
{
    lemma_prefixes();
    let keep = |s: SavedModel| s.kind == "mime"@ || s.kind == "name"@ || s.kind == "size"@;
    let give = |s: SavedModel|
        CondModel {
            kind: if s.kind == "mime"@ {
                FilterKind::Mime
            } else if s.kind == "name"@ {
                FilterKind::Name
            } else {
                FilterKind::Size
            },
            value: s.value,
            editing: false,
        };
    if saved.len() == 0 {
        lemma_picks_nothing(saved, restored(saved), keep, give);
    } else {
        let part = saved.drop_last();
        law_each_saved_condition_is_restored(part);
        lemma_picks_last(saved, restored(part), restored(saved), keep, give);
    }
}

/// The expression is the parts with blanks between them, and there is none exactly
/// where no condition says anything.
pub proof fn law_the_expression_is_its_parts(conds: Seq<CondModel>, c: CondModel)
    ensures
        trimmed(c.value).len() > 0 ==> composed(conds.push(c)) == Some(
            match composed(conds) {
                Some(s) => s + " "@ + (prefix_text(c.kind) + ":"@ + trimmed(c.value)),
                None => prefix_text(c.kind) + ":"@ + trimmed(c.value),
            },
        ),
        trimmed(c.value).len() == 0 ==> composed(conds.push(c)) == composed(conds),
        composed(Seq::empty()) is None,
        prefix_text(FilterKind::Mime) == "mime"@,
        prefix_text(FilterKind::Name) == "name"@,
        prefix_text(FilterKind::Size) == "size"@,
{
    let all = conds.push(c);
    assert(all.drop_last() =~= conds);
    if trimmed(c.value).len() > 0 {
        assert(parts(all).drop_last() =~= parts(conds));
    }
}

} // verus!
