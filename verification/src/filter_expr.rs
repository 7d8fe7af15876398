//! Filter expressions: conditions such as `mime:image !name:*thumb*`, composed
//! from a list of conditions and read back into one.

use vstd::prelude::*;
use vstd::string::*;

use crate::lists::{lemma_picks_last, lemma_picks_nothing, picks};
use crate::text::{
    begins, chars_of, holds_at, join, joined, lemma_trimmed_fixed, lemma_trimmed_place,
    lemma_trimmed_shape, trim, trim_end, trim_range, trim_start, trimmed, views,
};

verus! {

/// The kind of a single filter condition, one for each prefix that the filter
/// language understands.
#[derive(Clone, Copy, PartialEq, Eq, Debug, Structural)]
pub enum FilterKind {
    Mime,
    Name,
    Size,
    Tag,
}

/// A single active filter condition. At most one condition at a time is
/// `editing`, which reveals its inline editor.
#[derive(PartialEq, Eq, Debug)]
pub struct FilterCond {
    pub kind: FilterKind,
    pub value: String,
    pub editing: bool,
    /// Whether the condition is inverted: everything it does not select.
    pub negated: bool,
}

/// A condition's contents.
#[verifier::ext_equal]
pub struct CondModel {
    pub kind: FilterKind,
    pub value: Seq<char>,
    pub editing: bool,
    pub negated: bool,
}

impl View for FilterCond {
    type V = CondModel;

    open spec fn view(&self) -> CondModel {
        CondModel {
            kind: self.kind,
            value: self.value@,
            editing: self.editing,
            negated: self.negated,
        }
    }
}

/// The contents of each condition of a list.
pub open spec fn conds_view(conds: Seq<FilterCond>) -> Seq<CondModel> {
    Seq::new(conds.len(), |i: int| conds[i]@)
}

/// The lower-case prefix of a kind.
pub open spec fn prefix_text(kind: FilterKind) -> Seq<char> {
    match kind {
        FilterKind::Mime => "mime"@,
        FilterKind::Name => "name"@,
        FilterKind::Size => "size"@,
        FilterKind::Tag => "tag"@,
    }
}

impl FilterKind {
    /// The upper-case name on a pill.
    pub fn label(self) -> (r: &'static str)
        ensures
            r@ == match self {
                FilterKind::Mime => "MIME"@,
                FilterKind::Name => "NAME"@,
                FilterKind::Size => "SIZE"@,
                FilterKind::Tag => "TAG"@,
            },
    {
        match self {
            FilterKind::Mime => "MIME",
            FilterKind::Name => "NAME",
            FilterKind::Size => "SIZE",
            FilterKind::Tag => "TAG",
        }
    }

    /// The lower-case prefix used in the composed expression, and the stable tag
    /// of a saved condition.
    pub fn prefix(self) -> (r: &'static str)
        ensures
            r@ == prefix_text(self),
    {
        match self {
            FilterKind::Mime => "mime",
            FilterKind::Name => "name",
            FilterKind::Size => "size",
            FilterKind::Tag => "tag",
        }
    }

    /// Reads a kind back from its [`prefix`](Self::prefix).
    pub fn from_prefix(prefix: &str) -> (r: Option<Self>)
        ensures
            match r {
                Some(kind) => prefix@ == prefix_text(kind),
                None => forall|kind: FilterKind| prefix@ != #[trigger] prefix_text(kind),
            },
    {
        proof {
            lemma_prefixes();
        }
        if crate::text::same_text(prefix, "mime") {
            Some(FilterKind::Mime)
        } else if crate::text::same_text(prefix, "name") {
            Some(FilterKind::Name)
        } else if crate::text::same_text(prefix, "size") {
            Some(FilterKind::Size)
        } else if crate::text::same_text(prefix, "tag") {
            Some(FilterKind::Tag)
        } else {
            None
        }
    }

    /// The example shown in an empty value field.
    pub fn hint(self) -> (r: &'static str)
        ensures
            r@ == match self {
                FilterKind::Mime => "image/"@,
                FilterKind::Name => "*.db or copy_of*"@,
                FilterKind::Size => ">=1000"@,
                FilterKind::Tag => "keeper"@,
            },
    {
        match self {
            FilterKind::Mime => "image/",
            FilterKind::Name => "*.db or copy_of*",
            FilterKind::Size => ">=1000",
            FilterKind::Tag => "keeper",
        }
    }
}

/// A kind is the only one with its prefix, so a saved condition reads back as the
/// kind it was saved with.
pub proof fn law_prefixes_tell_kinds_apart(a: FilterKind, b: FilterKind)
    requires
        prefix_text(a) == prefix_text(b),
    ensures
        a == b,
{
    lemma_prefixes();
}

proof fn lemma_prefixes()
    ensures
        forall|a: FilterKind, b: FilterKind|
            #[trigger] prefix_text(a) == #[trigger] prefix_text(b) ==> a == b,
{
    reveal_strlit("mime");
    reveal_strlit("name");
    reveal_strlit("size");
    reveal_strlit("tag");
    assert("mime"@[0] == 'm');
    assert("name"@[0] == 'n');
    assert("size"@[0] == 's');
    assert("tag"@[0] == 't');
}

/// ASCII white space: blank, tab, line feed, form feed, carriage return.
pub open spec fn ascii_white(c: char) -> bool {
    c == ' ' || c as u32 == 0x09 || c as u32 == 0x0a || c as u32 == 0x0c || c as u32 == 0x0d
}

fn is_ascii_white(c: char) -> (r: bool)
    ensures
        r == ascii_white(c),
{
    let n: u32 = c as u32;
    n == 0x20 || n == 0x09 || n == 0x0a || n == 0x0c || n == 0x0d
}

/// A group of an expression: a condition of some kind, or the `case:` modifier
/// where the kind is `None`; whether it is negated; and its value.
pub struct Group {
    pub kind: Option<FilterKind>,
    pub negated: bool,
    pub value: Seq<char>,
}

/// The word that opens a group.
pub open spec fn word(kind: Option<FilterKind>) -> Seq<char> {
    match kind {
        None => "case:"@,
        Some(FilterKind::Mime) => "mime:"@,
        Some(FilterKind::Name) => "name:"@,
        Some(FilterKind::Size) => "size:"@,
        Some(FilterKind::Tag) => "tag:"@,
    }
}

/// The opening of a group: its word, behind `!` where it is negated.
pub open spec fn header(kind: Option<FilterKind>, negated: bool) -> Seq<char> {
    if negated {
        seq!['!'] + word(kind)
    } else {
        word(kind)
    }
}

/// The kind of the group that `s` opens with its word, if any.
pub open spec fn opens_plain(s: Seq<char>) -> Option<Option<FilterKind>> {
    if begins(s, "case:"@) {
        Some(None)
    } else if begins(s, "mime:"@) {
        Some(Some(FilterKind::Mime))
    } else if begins(s, "name:"@) {
        Some(Some(FilterKind::Name))
    } else if begins(s, "size:"@) {
        Some(Some(FilterKind::Size))
    } else if begins(s, "tag:"@) {
        Some(Some(FilterKind::Tag))
    } else {
        None
    }
}

/// The kind of the group that `s` opens, and whether `!` negates it.
#[verifier::opaque]
pub open spec fn opens(s: Seq<char>) -> Option<(Option<FilterKind>, bool)> {
    if s.len() > 0 && s[0] == '!' {
        match opens_plain(s.drop_first()) {
            Some(kind) => Some((kind, true)),
            None => None,
        }
    } else {
        match opens_plain(s) {
            Some(kind) => Some((kind, false)),
            None => None,
        }
    }
}

/// How far into `s` the next group opens; the length of `s` where none does. A
/// group opens at the start of an expression or behind white space: `at` says
/// whether `s` stands there.
pub open spec fn next_open(s: Seq<char>, at: bool) -> nat
    decreases s.len(),
{
    if s.len() == 0 || (at && opens(s) is Some) {
        0
    } else {
        1 + next_open(s.drop_first(), ascii_white(s[0]))
    }
}

/// The group that `s` opens with: its value runs to the next group, without the
/// white space around it.
pub open spec fn first_group(s: Seq<char>) -> Group {
    let (kind, negated) = opens(s)->0;
    let end = 1 + next_open(s.drop_first(), ascii_white(s[0]));
    Group {
        kind,
        negated,
        value: trimmed(s.subrange(header(kind, negated).len() as int, end as int)),
    }
}

/// The groups of `s`, in order; text before the first one belongs to none.
pub open spec fn groups_in(s: Seq<char>, at: bool) -> Seq<Group>
    decreases s.len(),
{
    if s.len() == 0 {
        Seq::empty()
    } else {
        let rest = groups_in(s.drop_first(), ascii_white(s[0]));
        if at && opens(s) is Some {
            seq![first_group(s)] + rest
        } else {
            rest
        }
    }
}

/// The condition that a group stands for, if it is one and its value is not blank.
pub open spec fn group_conds(g: Group) -> Seq<CondModel> {
    match g.kind {
        Some(kind) if g.value.len() > 0 => seq![
            CondModel { kind, value: g.value, editing: false, negated: g.negated },
        ],
        _ => Seq::empty(),
    }
}

/// The conditions of a list of groups.
pub open spec fn conds_of(groups: Seq<Group>) -> Seq<CondModel>
    decreases groups.len(),
{
    if groups.len() == 0 {
        Seq::empty()
    } else {
        group_conds(groups[0]) + conds_of(groups.drop_first())
    }
}

/// The groups hold the modifier that ignores case.
pub open spec fn ignores_case(groups: Seq<Group>) -> bool {
    exists|i: int|
        0 <= i < groups.len() && (#[trigger] groups[i]).kind is None && groups[i].value
            == "insensitive"@
}

/// The expression's groups.
pub open spec fn groups(expr: Seq<char>) -> Seq<Group> {
    groups_in(expr, true)
}

proof fn lemma_words()
    ensures
        forall|k: Option<FilterKind>, i: int|
            0 <= i < word(k).len() ==> !ascii_white(#[trigger] word(k)[i]) && word(k)[i] != '!',
        word(None).len() == 5,
        word(Some(FilterKind::Mime)).len() == 5,
        word(Some(FilterKind::Name)).len() == 5,
        word(Some(FilterKind::Size)).len() == 5,
        word(Some(FilterKind::Tag)).len() == 4,
        forall|k: FilterKind| #[trigger] prefix_text(k) + ":"@ == word(Some(k)),
        word(None)[0] == 'c',
        word(Some(FilterKind::Mime))[0] == 'm',
        word(Some(FilterKind::Name))[0] == 'n',
        word(Some(FilterKind::Size))[0] == 's',
        word(Some(FilterKind::Tag))[0] == 't',
{
    reveal_strlit("case:");
    reveal_strlit("mime:");
    reveal_strlit("name:");
    reveal_strlit("size:");
    reveal_strlit("tag:");
    reveal_strlit("mime");
    reveal_strlit("name");
    reveal_strlit("size");
    reveal_strlit("tag");
    reveal_strlit(":");
    assert forall|k: FilterKind| #[trigger] prefix_text(k) + ":"@ == word(Some(k)) by {
        assert(prefix_text(k) + ":"@ =~= word(Some(k)));
    }
}

/// The opening of a group holds no white space.
proof fn lemma_header(s: Seq<char>)
    requires
        opens(s) is Some,
    ensures
        ({
            let (kind, negated) = opens(s)->0;
            let h = header(kind, negated);
            &&& 0 < h.len() <= s.len()
            &&& forall|i: int| 0 <= i < h.len() ==> !ascii_white(#[trigger] s[i])
        }),
{
    reveal(opens);
    lemma_words();
    let (kind, negated) = opens(s)->0;
    let h = header(kind, negated);
    let t = if negated {
        s.drop_first()
    } else {
        s
    };
    assert(begins(t, word(kind)));
    assert forall|i: int| 0 <= i < h.len() implies !ascii_white(#[trigger] s[i]) by {
        if negated {
            if i > 0 {
                assert(t.take(word(kind).len() as int)[i - 1] == s[i]);
            }
        } else {
            assert(t.take(word(kind).len() as int)[i] == s[i]);
        }
    }
}

/// No group opens inside the opening of another.
proof fn lemma_header_before_end(s: Seq<char>, j: int)
    requires
        opens(s) is Some,
        1 <= j <= header((opens(s)->0).0, (opens(s)->0).1).len(),
    ensures
        header((opens(s)->0).0, (opens(s)->0).1).len() <= j + next_open(
            s.skip(j),
            ascii_white(s[j - 1]),
        ) <= s.len(),
    decreases s.len() - j,
{
    lemma_header(s);
    let h = header((opens(s)->0).0, (opens(s)->0).1).len();
    if j < h {
        lemma_header_before_end(s, j + 1);
        assert(s.skip(j).drop_first() =~= s.skip(j + 1));
        assert(s.skip(j)[0] == s[j]);
    } else {
        lemma_next_open_bound(s.skip(j), ascii_white(s[j - 1]));
    }
}

proof fn lemma_next_open_bound(s: Seq<char>, at: bool)
    ensures
        next_open(s, at) <= s.len(),
    decreases s.len(),
{
    if s.len() > 0 {
        lemma_next_open_bound(s.drop_first(), ascii_white(s[0]));
    }
}

/// `i` is where a group may open.
spec fn boundary(s: Seq<char>, i: int) -> bool {
    i == 0 || ascii_white(s[i - 1])
}

fn opener(v: &Vec<char>, i: usize) -> (r: Option<(Option<FilterKind>, bool)>)
    requires
        i < v@.len(),
    ensures
        r == opens(v@.skip(i as int)),
{
    let n = v.len();
    assert(i < n);
    reveal(opens);
    let negated = v[i] == '!';
    let from: usize = if negated {
        i + 1
    } else {
        i
    };
    proof {
        assert(v@.skip(i as int)[0] == v@[i as int]);
        assert(v@.skip(i as int).drop_first() =~= v@.skip(i + 1));
    }
    if holds_at(v, from, "case:") {
        Some((None, negated))
    } else if holds_at(v, from, "mime:") {
        Some((Some(FilterKind::Mime), negated))
    } else if holds_at(v, from, "name:") {
        Some((Some(FilterKind::Name), negated))
    } else if holds_at(v, from, "size:") {
        Some((Some(FilterKind::Size), negated))
    } else if holds_at(v, from, "tag:") {
        Some((Some(FilterKind::Tag), negated))
    } else {
        None
    }
}

/// The position of the next opening after `i`.
fn next_opener(v: &Vec<char>, i: usize) -> (r: usize)
    requires
        i < v@.len(),
    ensures
        r == i + 1 + next_open(v@.skip(i + 1), ascii_white(v@[i as int])),
        r <= v@.len(),
{
    let n = v.len();
    let mut j: usize = i + 1;
    while j < n
        invariant
            n == v@.len(),
            i < j <= n,
            i + 1 + next_open(v@.skip(i + 1), ascii_white(v@[i as int])) == j + next_open(
                v@.skip(j as int),
                ascii_white(v@[j - 1]),
            ),
        decreases v@.len() - j,
    {
        if is_ascii_white(v[j - 1]) && opener(v, j).is_some() {
            return j;
        }
        proof {
            assert(v@.skip(j as int)[0] == v@[j as int]);
            assert(v@.skip(j as int).drop_first() =~= v@.skip(j + 1));
        }
        j += 1;
    }
    j
}

fn header_len(kind: Option<FilterKind>, negated: bool) -> (r: usize)
    ensures
        r == header(kind, negated).len(),
{
    proof {
        reveal_strlit("case:");
        reveal_strlit("mime:");
        reveal_strlit("name:");
        reveal_strlit("size:");
        reveal_strlit("tag:");
    }
    let n: usize = match kind {
        Some(FilterKind::Tag) => 4,
        _ => 5,
    };
    if negated {
        n + 1
    } else {
        n
    }
}

proof fn lemma_ignores_case_front(g: Seq<Group>)
    requires
        g.len() > 0,
    ensures
        ignores_case(g) == ((g[0].kind is None && g[0].value == "insensitive"@) || ignores_case(
            g.drop_first(),
        )),
{
    let t = g.drop_first();
    if ignores_case(g) {
        let i = choose|i: int|
            0 <= i < g.len() && (#[trigger] g[i]).kind is None && g[i].value == "insensitive"@;
        if i > 0 {
            assert(t[i - 1] == g[i]);
        }
    }
    if ignores_case(t) {
        let i = choose|i: int|
            0 <= i < t.len() && (#[trigger] t[i]).kind is None && t[i].value == "insensitive"@;
        assert(g[i + 1] == t[i]);
    }
}

/// Splits a filter expression into conditions: each `mime:`, `name:`, `size:` or
/// `tag:` at the start or behind white space starts a new condition whose value
/// runs to the next such word, and `!` before the word negates it. The `case:`
/// modifier ends a value too, but is no condition. Returns the conditions and
/// whether the expression carried `case:insensitive`.
pub fn parse_conditions(expr: &str) -> (r: (Vec<FilterCond>, bool))
    ensures
        conds_view(r.0@) == conds_of(groups(expr@)),
        r.1 == ignores_case(groups(expr@)),
{
    let v = chars_of(expr);
    let mut conds: Vec<FilterCond> = Vec::new();
    let mut ignore = false;
    let mut i: usize = 0;
    assert(v@.skip(0) == v@);
    assert(conds_view(conds@) + conds_of(groups(v@)) =~= conds_of(groups(v@)));
    while i < v.len()
        invariant
            i <= v@.len(),
            v@ == expr@,
            conds_view(conds@) + conds_of(groups_in(v@.skip(i as int), boundary(v@, i as int)))
                == conds_of(groups(v@)),
            (ignore || ignores_case(groups_in(v@.skip(i as int), boundary(v@, i as int))))
                == ignores_case(groups(v@)),
        decreases v@.len() - i,
    {
        let ghost s = v@.skip(i as int);
        let ghost at = boundary(v@, i as int);
        let ghost rest = groups_in(v@.skip(i + 1), boundary(v@, i + 1));
        proof {
            assert(s[0] == v@[i as int]);
            assert(s.drop_first() =~= v@.skip(i + 1));
            assert(rest == groups_in(s.drop_first(), ascii_white(s[0])));
        }
        let here = i == 0 || is_ascii_white(v[i - 1]);
        if here {
            if let Some((kind, negated)) = opener(&v, i) {
                let end = next_opener(&v, i);
                let n = header_len(kind, negated);
                let ghost g = first_group(s);
                proof {
                    lemma_header(s);
                    lemma_header_before_end(s, 1);
                    assert(s.skip(1) =~= s.drop_first());
                    assert(n <= end - i);
                    assert(v@.subrange(i + n, end as int) =~= s.subrange(n as int, end - i));
                }
                let value = trim_range(&v, i + n, end);
                let ghost before = conds@;
                proof {
                    assert(value@ == g.value);
                    let all = seq![g] + rest;
                    assert(groups_in(s, at) == all);
                    assert(all.drop_first() =~= rest);
                    lemma_ignores_case_front(all);
                    assert(conds_of(all) == group_conds(g) + conds_of(rest));
                }
                match kind {
                    None => {
                        if crate::text::same_text(value.as_str(), "insensitive") {
                            ignore = true;
                        }
                        assert(group_conds(g) =~= Seq::<CondModel>::empty());
                        assert(conds_view(conds@) + (group_conds(g) + conds_of(rest)) =~= conds_view(
                            conds@,
                        ) + conds_of(rest));
                    },
                    Some(kind) => {
                        if !value.as_str().is_empty() {
                            conds.push(FilterCond { kind, value, editing: false, negated });
                            assert(conds_view(conds@) =~= conds_view(before) + group_conds(g));
                        } else {
                            assert(group_conds(g) =~= Seq::<CondModel>::empty());
                        }
                        assert(conds_view(before) + (group_conds(g) + conds_of(rest)) =~= conds_view(
                            conds@,
                        ) + conds_of(rest));
                    },
                }
            }
        }
        i += 1;
    }
    proof {
        assert(v@.skip(i as int).len() == 0);
        assert(conds_view(conds@) + Seq::<CondModel>::empty() =~= conds_view(conds@));
    }
    (conds, ignore)
}

/// The group that a condition is written as; its value is trimmed.
pub open spec fn cond_group(c: CondModel) -> Group {
    Group { kind: Some(c.kind), negated: c.negated, value: trimmed(c.value) }
}

/// The groups of the conditions that are not blank.
pub open spec fn kept(conds: Seq<CondModel>) -> Seq<Group>
    decreases conds.len(),
{
    if conds.len() == 0 {
        Seq::empty()
    } else {
        let rest = kept(conds.drop_last());
        if trimmed(conds.last().value).len() > 0 {
            rest.push(cond_group(conds.last()))
        } else {
            rest
        }
    }
}

/// A group as it is written: its opening and its value.
pub open spec fn written(g: Group) -> Seq<char> {
    header(g.kind, g.negated) + g.value
}

/// Each group as it is written.
pub open spec fn all_written(gs: Seq<Group>) -> Seq<Seq<char>> {
    Seq::new(gs.len(), |i: int| written(gs[i]))
}

/// The modifier that ignores case, where it is wanted.
pub open spec fn modifier(ignore_case: bool) -> Seq<Group> {
    if ignore_case {
        seq![Group { kind: None, negated: false, value: "insensitive"@ }]
    } else {
        Seq::empty()
    }
}

/// The expression of a list of conditions: `None` where none of them says
/// anything, which matches everything whatever the case.
pub open spec fn composed(conds: Seq<CondModel>, ignore_case: bool) -> Option<Seq<char>> {
    if kept(conds).len() == 0 {
        None
    } else {
        Some(joined(all_written(modifier(ignore_case) + kept(conds)), " "@))
    }
}

/// Composes the expression of a list of conditions.
pub fn compose(conds: &Vec<FilterCond>, ignore_case: bool) -> (r: Option<String>)
    ensures
        (r is Some) == (composed(conds_view(conds@), ignore_case) is Some),
        r is Some ==> r->0@ == composed(conds_view(conds@), ignore_case)->0,
{
    let ghost all = conds_view(conds@);
    let mut parts: Vec<String> = Vec::new();
    let ghost lead = modifier(ignore_case);
    if ignore_case {
        let word = "case:insensitive".to_string();
        proof {
            reveal_strlit("case:insensitive");
            reveal_strlit("case:");
            reveal_strlit("insensitive");
            assert(word@ =~= written(lead[0]));
        }
        parts.push(word);
    }
    assert(views(parts@) =~= all_written(lead + kept(all.take(0))));
    let mut any = false;
    let mut i: usize = 0;
    while i < conds.len()
        invariant
            i <= conds@.len(),
            all == conds_view(conds@),
            lead == modifier(ignore_case),
            views(parts@) == all_written(lead + kept(all.take(i as int))),
            any == (kept(all.take(i as int)).len() > 0),
        decreases conds@.len() - i,
    {
        let c = &conds[i];
        proof {
            assert(all.take(i + 1).drop_last() =~= all.take(i as int));
            assert(all.take(i + 1).last() == c@);
        }
        let value = trim(c.value.as_str());
        if !value.as_str().is_empty() {
            let mut part = String::new();
            if c.negated {
                part.append("!");
            }
            part.append(c.kind.prefix());
            part.append(":");
            part.append(value.as_str());
            let ghost before = parts@;
            proof {
                lemma_words();
                reveal_strlit("!");
                assert(prefix_text(c.kind) + ":"@ == word(Some(c.kind)));
                assert(part@ =~= written(cond_group(c@)));
                let k = kept(all.take(i as int));
                assert(all_written(lead + k.push(cond_group(c@))) =~= all_written(lead + k).push(
                    part@,
                ));
            }
            parts.push(part);
            assert(views(parts@) =~= views(before).push(part@));
            any = true;
        }
        i += 1;
    }
    assert(all.take(i as int) == all);
    if !any {
        return None;
    }
    Some(join(&parts, " "))
}

/// A value that reads back as it is: trimmed, not blank, and without white space
/// followed by what would open another group.
pub open spec fn plain_value(v: Seq<char>) -> bool {
    &&& v.len() > 0
    &&& trimmed(v) == v
    &&& forall|i: int| 0 < i < v.len() && ascii_white(v[i - 1]) ==> opens(#[trigger] v.skip(i)) is None
}

proof fn lemma_joined_front(parts: Seq<Seq<char>>, sep: Seq<char>)
    requires
        parts.len() >= 2,
    ensures
        joined(parts, sep) == parts[0] + sep + joined(parts.drop_first(), sep),
    decreases parts.len(),
{
    let rest = parts.drop_first();
    if parts.len() == 2 {
        assert(joined(parts.drop_last(), sep) == parts[0]);
        assert(joined(rest, sep) == parts[1]);
    } else {
        lemma_joined_front(parts.drop_last(), sep);
        assert(parts.drop_last().drop_first() =~= rest.drop_last());
        assert(rest.last() == parts.last());
        assert(joined(parts, sep) =~= parts[0] + sep + joined(rest, sep));
    }
}

/// What follows a group in an expression: nothing, or a blank and the next group.
spec fn tail_ok(tail: Seq<char>) -> bool {
    tail.len() == 0 || (tail[0] == ' ' && opens(tail.drop_first()) is Some)
}

proof fn lemma_opens_with_tail(x: Seq<char>, tail: Seq<char>)
    requires
        x.len() > 0,
        tail_ok(tail),
        opens(x) is None,
    ensures
        opens(x + tail) is None,
{
    reveal(opens);
    lemma_words();
    let s = x + tail;
    if opens(s) is Some {
        let (kind, negated) = opens(s)->0;
        let w = word(kind);
        let y = if negated {
            x.drop_first()
        } else {
            x
        };
        let t = if negated {
            s.drop_first()
        } else {
            s
        };
        assert(s[0] == x[0]);
        assert(t =~= y + tail);
        assert(begins(t, w));
        if w.len() <= y.len() {
            assert(y.take(w.len() as int) =~= t.take(w.len() as int));
            assert(begins(y, w));
            assert(opens_plain(y) is Some);
        } else {
            assert(t.take(w.len() as int)[y.len() as int] == tail[0]);
            assert(ascii_white(w[y.len() as int]));
        }
    }
}

proof fn lemma_opens_header(kind: Option<FilterKind>, negated: bool, rest: Seq<char>)
    ensures
        opens(header(kind, negated) + rest) == Some((kind, negated)),
{
    reveal(opens);
    lemma_words();
    let s = header(kind, negated) + rest;
    let w = word(kind);
    let t = if negated {
        s.drop_first()
    } else {
        s
    };
    assert(t =~= w + rest);
    assert(t.take(w.len() as int) =~= w);
    assert(begins(t, w));
    assert(t[0] == w[0]);
    if begins(t, "case:"@) {
        assert(t.take(5)[0] == word(None)[0]);
    }
    if begins(t, "mime:"@) {
        assert(t.take(word(Some(FilterKind::Mime)).len() as int)[0] == t[0]);
    }
    if begins(t, "name:"@) {
        assert(t.take(word(Some(FilterKind::Name)).len() as int)[0] == t[0]);
    }
    if begins(t, "size:"@) {
        assert(t.take(word(Some(FilterKind::Size)).len() as int)[0] == t[0]);
    }
    if begins(t, "tag:"@) {
        assert(t.take(word(Some(FilterKind::Tag)).len() as int)[0] == t[0]);
    }
    assert(opens_plain(t) == Some(kind));
    if negated {
        assert(s[0] == '!');
    } else {
        assert(s[0] == w[0]);
    }
}

/// No group opens between the opening of a group and what follows it.
proof fn lemma_skip_group(g: Group, tail: Seq<char>, j: int)
    requires
        plain_value(g.value),
        tail_ok(tail),
        1 <= j <= written(g).len(),
    ensures
        ({
            let s = written(g) + tail;
            let at = ascii_white(written(g)[j - 1]);
            &&& groups_in(s.skip(j), at) == groups_in(tail, false)
            &&& next_open(s.skip(j), at) == written(g).len() - j + next_open(tail, false)
        }),
    decreases written(g).len() - j,
{
    let part = written(g);
    let s = part + tail;
    let h = header(g.kind, g.negated);
    let at = ascii_white(part[j - 1]);
    lemma_trimmed_shape(g.value);
    if j == part.len() {
        assert(part[j - 1] == g.value.last());
        assert(!at);
        assert(s.skip(j) =~= tail);
    } else {
        lemma_skip_group(g, tail, j + 1);
        let t = s.skip(j);
        assert(t.drop_first() =~= s.skip(j + 1));
        assert(t[0] == part[j]);
        lemma_opens_header(g.kind, g.negated, g.value);
        lemma_header(part);
        if j <= h.len() {
            assert(!at);
        } else {
            let i = j - h.len();
            assert(part[j - 1] == g.value[i - 1]);
            if at {
                let x = g.value.skip(i);
                assert(opens(x) is None);
                lemma_opens_with_tail(x, tail);
                assert(t =~= x + tail);
            }
        }
        assert(!(at && opens(t) is Some));
    }
}

proof fn lemma_trim_with_blank(v: Seq<char>)
    requires
        v.len() > 0,
        trimmed(v) == v,
    ensures
        trimmed(v + seq![' ']) == v,
{
    lemma_trimmed_shape(v);
    let s = v + seq![' '];
    assert(trim_start(s) == s);
    assert(s.last() == ' ');
    assert(s.drop_last() =~= v);
    assert(trim_end(s) == trim_end(v));
    assert(trim_start(v) == v);
}

proof fn lemma_read_group(g: Group, tail: Seq<char>)
    requires
        plain_value(g.value),
        tail_ok(tail),
    ensures
        groups(written(g) + tail) == seq![g] + groups_in(tail, false),
        opens(written(g) + tail) is Some,
{
    let part = written(g);
    let s = part + tail;
    let h = header(g.kind, g.negated);
    lemma_words();
    lemma_opens_header(g.kind, g.negated, g.value + tail);
    assert(s =~= h + (g.value + tail));
    lemma_skip_group(g, tail, 1);
    assert(s.skip(1) =~= s.drop_first());
    assert(s[0] == part[0]);
    let end = 1 + next_open(s.drop_first(), ascii_white(s[0]));
    if tail.len() == 0 {
        assert(next_open(tail, false) == 0);
        assert(s.subrange(h.len() as int, end as int) =~= g.value);
    } else {
        let next = tail.drop_first();
        assert(next_open(tail, false) == 1 + next_open(next, true));
        assert(next_open(next, true) == 0);
        assert(s.subrange(h.len() as int, end as int) =~= g.value + seq![' ']);
        lemma_trim_with_blank(g.value);
    }
    assert(first_group(s).value == g.value);
}

proof fn lemma_read_all(gs: Seq<Group>)
    requires
        gs.len() > 0,
        forall|i: int| 0 <= i < gs.len() ==> plain_value(#[trigger] gs[i].value),
    ensures
        groups(joined(all_written(gs), " "@)) == gs,
        opens(joined(all_written(gs), " "@)) is Some,
    decreases gs.len(),
{
    let parts = all_written(gs);
    assert(plain_value(gs[0].value));
    if gs.len() == 1 {
        let none = Seq::<char>::empty();
        lemma_read_group(gs[0], none);
        assert(written(gs[0]) + none =~= parts[0]);
        assert(groups_in(none, false) =~= Seq::<Group>::empty());
        assert(seq![gs[0]] + Seq::<Group>::empty() =~= gs);
    } else {
        let rest = gs.drop_first();
        assert forall|i: int| 0 <= i < rest.len() implies plain_value(#[trigger] rest[i].value) by {
            assert(rest[i] == gs[i + 1]);
        }
        lemma_read_all(rest);
        assert(parts.drop_first() =~= all_written(rest));
        lemma_joined_front(parts, " "@);
        reveal_strlit(" ");
        let e = joined(all_written(rest), " "@);
        let tail = " "@ + e;
        assert(tail[0] == ' ');
        assert(tail.drop_first() =~= e);
        lemma_read_group(gs[0], tail);
        assert(joined(parts, " "@) =~= written(gs[0]) + tail);
        assert(groups_in(tail, false) == groups_in(e, true));
        assert(seq![gs[0]] + rest =~= gs);
    }
}

/// Conditions whose values read back as they are.
pub open spec fn plain_conds(conds: Seq<CondModel>) -> bool {
    forall|i: int|
        0 <= i < conds.len() ==> trimmed((#[trigger] conds[i]).value).len() == 0 || plain_value(
            trimmed(conds[i].value),
        )
}

proof fn lemma_kept_plain(conds: Seq<CondModel>)
    requires
        plain_conds(conds),
    ensures
        forall|i: int| 0 <= i < kept(conds).len() ==> plain_value(#[trigger] kept(conds)[i].value),
        forall|i: int| 0 <= i < kept(conds).len() ==> (#[trigger] kept(conds)[i]).kind is Some,
    decreases conds.len(),
{
    if conds.len() > 0 {
        let rest = conds.drop_last();
        assert forall|i: int| 0 <= i < rest.len() implies trimmed((#[trigger] rest[i]).value).len()
            == 0 || plain_value(trimmed(rest[i].value)) by {
            assert(rest[i] == conds[i]);
        }
        lemma_kept_plain(rest);
        assert(conds[conds.len() - 1] == conds.last());
    }
}

proof fn lemma_insensitive_plain()
    ensures
        plain_value("insensitive"@),
{
    reveal_strlit("insensitive");
    let v = "insensitive"@;
    assert forall|i: int| 0 < i < v.len() implies !ascii_white(#[trigger] v[i - 1]) by {
        assert(v[i - 1] == 'i' || v[i - 1] == 'n' || v[i - 1] == 's' || v[i - 1] == 'e' || v[i - 1]
            == 't' || v[i - 1] == 'v');
    }
    lemma_trimmed_fixed(v);
}

/// What composing writes, parsing reads back: the conditions that say something,
/// with trimmed values and their negation, and the case modifier.
pub proof fn law_expression_round_trip(conds: Seq<CondModel>, ignore_case: bool)
    requires
        plain_conds(conds),
        composed(conds, ignore_case) is Some,
    ensures
        conds_of(groups(composed(conds, ignore_case)->0)) == conds_of(kept(conds)),
        ignores_case(groups(composed(conds, ignore_case)->0)) == ignore_case,
{
    let gs = modifier(ignore_case) + kept(conds);
    lemma_kept_plain(conds);
    lemma_insensitive_plain();
    assert forall|i: int| 0 <= i < gs.len() implies plain_value(#[trigger] gs[i].value) by {
        if i < modifier(ignore_case).len() {
        } else {
            assert(gs[i] == kept(conds)[i - modifier(ignore_case).len()]);
        }
    }
    lemma_read_all(gs);
    if ignore_case {
        assert(gs.drop_first() =~= kept(conds));
        assert(gs[0].kind is None);
        assert(group_conds(gs[0]) =~= Seq::<CondModel>::empty());
        assert(conds_of(gs) =~= conds_of(kept(conds)));
    } else {
        assert(gs =~= kept(conds));
    }
}

/// The conditions of one more group come last.
pub proof fn lemma_conds_of_push(gs: Seq<Group>, g: Group)
    ensures
        conds_of(gs.push(g)) == conds_of(gs) + group_conds(g),
    decreases gs.len(),
{
    let all = gs.push(g);
    if gs.len() == 0 {
        assert(all.drop_first() =~= gs);
        assert(conds_of(all) =~= conds_of(gs) + group_conds(g));
    } else {
        lemma_conds_of_push(gs.drop_first(), g);
        assert(all.drop_first() =~= gs.drop_first().push(g));
        assert(all[0] == gs[0]);
        assert(conds_of(all) =~= conds_of(gs) + group_conds(g));
    }
}

/// Conditions that were written and read are kept as they are.
pub proof fn lemma_kept_again(conds: Seq<CondModel>)
    ensures
        kept(conds_of(kept(conds))) == kept(conds),
    decreases conds.len(),
{
    if conds.len() > 0 {
        let rest = conds.drop_last();
        lemma_kept_again(rest);
        let c = conds.last();
        lemma_trimmed_shape(c.value);
        if trimmed(c.value).len() > 0 {
            lemma_conds_of_push(kept(rest), cond_group(c));
            let again = conds_of(kept(conds));
            let one = group_conds(cond_group(c));
            assert(again == conds_of(kept(rest)) + one);
            assert(again.drop_last() =~= conds_of(kept(rest)));
            assert(again.last() == one[0]);
            assert(cond_group(again.last()) == cond_group(c));
        }
    } else {
        assert(kept(conds) =~= Seq::<Group>::empty());
    }
}

/// An expression that was composed reads back to the same expression.
pub proof fn law_composed_expression_is_stable(conds: Seq<CondModel>, ignore_case: bool)
    requires
        plain_conds(conds),
        composed(conds, ignore_case) is Some,
    ensures
        ({
            let e = composed(conds, ignore_case)->0;
            composed(conds_of(groups(e)), ignores_case(groups(e))) == Some(e)
        }),
{
    law_expression_round_trip(conds, ignore_case);
    lemma_kept_again(conds);
}

/// A longer text opens a group where its beginning does.
proof fn lemma_opens_longer(x: Seq<char>, y: Seq<char>)
    requires
        opens(x) is Some,
        begins(y, x),
    ensures
        opens(y) is Some,
{
    reveal(opens);
    lemma_words();
    lemma_header(x);
    let (kind, negated) = opens(x)->0;
    let w = word(kind);
    assert(y[0] == y.take(x.len() as int)[0]);
    let (s, t) = if negated {
        (x.drop_first(), y.drop_first())
    } else {
        (x, y)
    };
    assert(begins(s, w));
    assert forall|i: int| 0 <= i < w.len() implies t.take(w.len() as int)[i] == w[i] by {
        assert(s.take(w.len() as int)[i] == w[i]);
        assert(y.take(x.len() as int)[i] == x[i]);
        if negated {
            assert(y.take(x.len() as int)[i + 1] == x[i + 1]);
        }
    }
    assert(t.take(w.len() as int) =~= w);
    assert(begins(t, w));
    assert(opens_plain(t) is Some);
}

/// Before the next opening, no group opens.
proof fn lemma_no_open_before(s: Seq<char>, at: bool, j: int)
    requires
        0 <= j < next_open(s, at),
        j < s.len(),
        if j == 0 {
            at
        } else {
            ascii_white(s[j - 1])
        },
    ensures
        opens(s.skip(j)) is None,
    decreases j,
{
    if j == 0 {
        assert(s.skip(0) =~= s);
    } else {
        let t = s.drop_first();
        if j > 1 {
            assert(t[j - 2] == s[j - 1]);
        }
        lemma_no_open_before(t, ascii_white(s[0]), j - 1);
        assert(t.skip(j - 1) =~= s.skip(j));
    }
}

/// The value of a group that was read is blank or reads back as it is.
proof fn lemma_read_value(s: Seq<char>)
    requires
        opens(s) is Some,
    ensures
        first_group(s).value.len() == 0 || plain_value(first_group(s).value),
{
    let (kind, negated) = opens(s)->0;
    let h = header(kind, negated).len() as int;
    let end = 1 + next_open(s.drop_first(), ascii_white(s[0]));
    lemma_header(s);
    lemma_header_before_end(s, 1);
    assert(s.skip(1) =~= s.drop_first());
    let raw = s.subrange(h, end as int);
    let v = trimmed(raw);
    let p = lemma_trimmed_place(raw);
    lemma_trimmed_shape(raw);
    assert forall|i: int| 0 < i < v.len() && ascii_white(v[i - 1]) implies opens(
        #[trigger] v.skip(i),
    ) is None by {
        let j = h + p + i;
        assert(v[i - 1] == s[j - 1]);
        let t = s.drop_first();
        assert(j >= 2);
        assert(t[j - 2] == s[j - 1]);
        lemma_no_open_before(t, ascii_white(s[0]), j - 1);
        assert(t.skip(j - 1) =~= s.skip(j));
        if opens(v.skip(i)) is Some {
            let x = v.skip(i);
            assert(s.skip(j).take(x.len() as int) =~= x);
            lemma_opens_longer(x, s.skip(j));
        }
    }
}

proof fn lemma_read_values(s: Seq<char>, at: bool)
    ensures
        forall|i: int|
            0 <= i < groups_in(s, at).len() ==> (#[trigger] groups_in(s, at)[i]).value.len() == 0
                || plain_value(groups_in(s, at)[i].value),
    decreases s.len(),
{
    if s.len() > 0 {
        let rest = groups_in(s.drop_first(), ascii_white(s[0]));
        lemma_read_values(s.drop_first(), ascii_white(s[0]));
        if at && opens(s) is Some {
            lemma_read_value(s);
            assert forall|i: int| 0 <= i < groups_in(s, at).len() implies (#[trigger] groups_in(
                s,
                at,
            )[i]).value.len() == 0 || plain_value(groups_in(s, at)[i].value) by {
                if i > 0 {
                    assert(groups_in(s, at)[i] == rest[i - 1]);
                }
            }
        }
    }
}

/// A condition as parsing gives it: closed, with a value that reads back as it is.
pub open spec fn as_parsed(c: CondModel) -> bool {
    !c.editing && plain_value(c.value)
}

proof fn lemma_parsed_conds(gs: Seq<Group>)
    requires
        forall|i: int|
            0 <= i < gs.len() ==> (#[trigger] gs[i]).value.len() == 0 || plain_value(gs[i].value),
    ensures
        forall|i: int| 0 <= i < conds_of(gs).len() ==> as_parsed(#[trigger] conds_of(gs)[i]),
    decreases gs.len(),
{
    if gs.len() > 0 {
        let rest = gs.drop_first();
        assert forall|i: int| 0 <= i < rest.len() implies (#[trigger] rest[i]).value.len() == 0
            || plain_value(rest[i].value) by {
            assert(rest[i] == gs[i + 1]);
        }
        lemma_parsed_conds(rest);
        let one = group_conds(gs[0]);
        assert forall|i: int| 0 <= i < conds_of(gs).len() implies as_parsed(
            #[trigger] conds_of(gs)[i],
        ) by {
            if i < one.len() {
                assert(conds_of(gs)[i] == one[i]);
            } else {
                assert(conds_of(gs)[i] == conds_of(rest)[i - one.len()]);
            }
        }
    }
}

proof fn lemma_parsed_kept(conds: Seq<CondModel>)
    requires
        forall|i: int| 0 <= i < conds.len() ==> as_parsed(#[trigger] conds[i]),
    ensures
        kept(conds).len() == conds.len(),
        conds_of(kept(conds)) == conds,
    decreases conds.len(),
{
    if conds.len() > 0 {
        let rest = conds.drop_last();
        assert forall|i: int| 0 <= i < rest.len() implies as_parsed(#[trigger] rest[i]) by {
            assert(rest[i] == conds[i]);
        }
        lemma_parsed_kept(rest);
        let c = conds.last();
        assert(as_parsed(conds[conds.len() - 1]));
        lemma_conds_of_push(kept(rest), cond_group(c));
        assert(group_conds(cond_group(c)) =~= seq![c]);
    }
    assert(conds_of(kept(conds)) =~= conds);
}

/// Whatever expression was parsed, every condition is closed and has a value that
/// is not blank, is trimmed, and reads back as it is.
pub proof fn law_parsed_conditions_read_back(expr: Seq<char>)
    ensures
        forall|i: int|
            0 <= i < conds_of(groups(expr)).len() ==> as_parsed(#[trigger] conds_of(groups(expr))[i]),
        plain_conds(conds_of(groups(expr))),
{
    lemma_read_values(expr, true);
    lemma_parsed_conds(groups(expr));
}

/// Whatever was parsed, composed and parsed again gives the same conditions in the
/// same order and the same treatment of case.
pub proof fn law_parsing_again_changes_nothing(expr: Seq<char>)
    requires
        conds_of(groups(expr)).len() > 0,
    ensures
        ({
            let conds = conds_of(groups(expr));
            let ignore_case = ignores_case(groups(expr));
            let again = composed(conds, ignore_case);
            &&& again is Some
            &&& conds_of(groups(again->0)) == conds
            &&& ignores_case(groups(again->0)) == ignore_case
        }),
{
    let conds = conds_of(groups(expr));
    law_parsed_conditions_read_back(expr);
    lemma_parsed_kept(conds);
    law_expression_round_trip(conds, ignores_case(groups(expr)));
}

/// Every condition that says something is written, in order, with its kind, its value
/// trimmed and inverted where it is; a blank one is not.
pub proof fn law_blank_conditions_are_left_out(conds: Seq<CondModel>)
    ensures
        picks(
            conds,
            kept(conds),
            |c: CondModel| trimmed(c.value).len() > 0,
            |c: CondModel|
                Group { kind: Some(c.kind), negated: c.negated, value: trimmed(c.value) },
        ),
    decreases conds.len(),
{
    let keep = |c: CondModel| trimmed(c.value).len() > 0;
    let give = |c: CondModel|
        Group { kind: Some(c.kind), negated: c.negated, value: trimmed(c.value) };
    if conds.len() == 0 {
        lemma_picks_nothing(conds, kept(conds), keep, give);
    } else {
        let part = conds.drop_last();
        law_blank_conditions_are_left_out(part);
        lemma_picks_last(conds, kept(part), kept(conds), keep, give);
    }
}

/// The words that open a group, and their prefixes.
pub proof fn law_groups_open_with_these_words(kind: FilterKind)
    ensures
        word(None) == "case:"@,
        word(Some(FilterKind::Mime)) == "mime:"@,
        word(Some(FilterKind::Name)) == "name:"@,
        word(Some(FilterKind::Size)) == "size:"@,
        word(Some(FilterKind::Tag)) == "tag:"@,
        word(Some(kind)) == prefix_text(kind) + ":"@,
        header(Some(kind), false) == prefix_text(kind) + ":"@,
        header(Some(kind), true) == seq!['!'] + (prefix_text(kind) + ":"@),
{
    reveal_strlit("mime");
    reveal_strlit("name");
    reveal_strlit("size");
    reveal_strlit("tag");
    reveal_strlit("mime:");
    reveal_strlit("name:");
    reveal_strlit("size:");
    reveal_strlit("tag:");
    reveal_strlit(":");
    assert("mime"@ + ":"@ =~= "mime:"@);
    assert("name"@ + ":"@ =~= "name:"@);
    assert("size"@ + ":"@ =~= "size:"@);
    assert("tag"@ + ":"@ =~= "tag:"@);
}

/// A further condition is written behind the others and a blank, its prefix, a colon
/// and its value, behind an exclamation mark where it is inverted; a blank one adds
/// nothing. The modifier that ignores case stands in front.
pub proof fn law_the_expression_is_its_parts(conds: Seq<CondModel>, c: CondModel, ignore_case: bool)
    ensures
        ({
            let part = (if c.negated {
                seq!['!']
            } else {
                Seq::empty()
            }) + (prefix_text(c.kind) + ":"@) + trimmed(c.value);
            let more = composed(conds.push(c), ignore_case);
            &&& trimmed(c.value).len() == 0 ==> more == composed(conds, ignore_case)
            &&& trimmed(c.value).len() > 0 ==> (composed(conds, ignore_case) matches Some(s)
                ==> more == Some(s + " "@ + part))
            &&& trimmed(c.value).len() > 0 && composed(conds, ignore_case) is None && ignore_case
                ==> more == Some("case:insensitive"@ + " "@ + part)
            &&& trimmed(c.value).len() > 0 && composed(conds, ignore_case) is None && !ignore_case
                ==> more == Some(part)
        }),
        composed(Seq::empty(), ignore_case) is None,
{
    let all = conds.push(c);
    assert(all.drop_last() =~= conds);
    law_groups_open_with_these_words(c.kind);
    if trimmed(c.value).len() > 0 {
        let g = cond_group(c);
        let front = modifier(ignore_case) + kept(conds);
        let now = modifier(ignore_case) + kept(all);
        let part = (if c.negated {
            seq!['!']
        } else {
            Seq::empty()
        }) + (prefix_text(c.kind) + ":"@) + trimmed(c.value);
        assert(written(g) =~= part);
        assert(all_written(now) =~= all_written(front).push(part));
        let texts = all_written(front);
        assert(texts.push(part).drop_last() =~= texts);
        if kept(conds).len() == 0 {
            if ignore_case {
                reveal_strlit("case:insensitive");
                reveal_strlit("case:");
                reveal_strlit("insensitive");
                assert("case:"@ + "insensitive"@ =~= "case:insensitive"@);
                assert(texts =~= seq!["case:insensitive"@]);
                assert(joined(texts, " "@) == "case:insensitive"@);
            } else {
                assert(texts =~= Seq::empty());
            }
        }
    }
}

} // verus!
