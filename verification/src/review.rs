//! The review board that a plan is shown on: a side-by-side list of a source and
//! a target, sorted by a column and shown a page at a time.

use vstd::prelude::*;
use vstd::string::*;

use crate::icon;
use crate::media_cell::FileFacts;
use crate::order::{before, comes_before, lemma_before_total, lemma_before_transitive};
use crate::row_keys::{toggled, KeyModel, KeySet, RowKey};
use crate::text::{copy, dec, lowercase, push_decimal, to_lowercase};
use crate::theme::Ink;

verus! {

/// How many rows a preview holds at most. The counts stay the true totals.
pub const PREVIEW_CAP: usize = 10000;

/// Rows shown per page.
pub const PAGE_SIZE: usize = 500;

/// A file's status on one side of the board.
#[derive(Clone, Copy, Debug, PartialEq, Eq, Structural)]
pub enum SideStatus {
    Added,
    Removed,
    Unchanged,
    /// The file is not on this side.
    Absent,
}

impl SideStatus {
    /// The word beside the icon. An absent side has nothing to say.
    pub fn word(self) -> (r: &'static str)
        ensures
            r@ == match self {
                SideStatus::Added => "ADDED"@,
                SideStatus::Removed => "REMOVED"@,
                SideStatus::Unchanged => "UNCHANGED"@,
                SideStatus::Absent => ""@,
            },
    {
        match self {
            SideStatus::Added => "ADDED",
            SideStatus::Removed => "REMOVED",
            SideStatus::Unchanged => "UNCHANGED",
            SideStatus::Absent => "",
        }
    }

    /// The status icon.
    pub open spec fn glyph(self) -> Seq<char> {
        match self {
            SideStatus::Added => icon::PLUS@,
            SideStatus::Removed => icon::TRASH@,
            SideStatus::Unchanged => icon::CHECK@,
            SideStatus::Absent => icon::X@,
        }
    }

    /// The status icon.
    pub fn symbol(self) -> (r: &'static str)
        ensures
            r@ == self.glyph(),
    {
        match self {
            SideStatus::Added => icon::PLUS,
            SideStatus::Removed => icon::TRASH,
            SideStatus::Unchanged => icon::CHECK,
            SideStatus::Absent => icon::X,
        }
    }

    /// The colour of the status.
    pub open spec fn ink(self) -> Ink {
        match self {
            SideStatus::Added => Ink::Green,
            SideStatus::Removed => Ink::Red,
            SideStatus::Unchanged => Ink::Grey,
            SideStatus::Absent => Ink::Grey,
        }
    }

    /// The colour of the status.
    pub fn color(self) -> (r: Ink)
        ensures
            r == self.ink(),
    {
        match self {
            SideStatus::Added => Ink::Green,
            SideStatus::Removed => Ink::Red,
            SideStatus::Unchanged => Ink::Grey,
            SideStatus::Absent => Ink::Grey,
        }
    }

    /// The sort rank: absent last.
    pub open spec fn place(self) -> u8 {
        match self {
            SideStatus::Added => 0,
            SideStatus::Removed => 1,
            SideStatus::Unchanged => 2,
            SideStatus::Absent => 3,
        }
    }

    /// The sort rank: absent last.
    pub fn rank(self) -> (r: u8)
        ensures
            r == self.place(),
    {
        match self {
            SideStatus::Added => 0,
            SideStatus::Removed => 1,
            SideStatus::Unchanged => 2,
            SideStatus::Absent => 3,
        }
    }
}

/// One file of the review. A side's path is empty when the file is absent there.
pub struct ReviewRow {
    pub source: SideStatus,
    pub target: SideStatus,
    pub source_path: String,
    pub target_path: String,
    /// Display facts of each side on which the file exists.
    pub source_facts: Option<FileFacts>,
    pub target_facts: Option<FileFacts>,
}

impl ReviewRow {
    /// Neither side changes.
    pub open spec fn unchanged(&self) -> bool {
        self.source == SideStatus::Unchanged && self.target == SideStatus::Unchanged
    }

    /// Whether neither side changes.
    pub fn is_unchanged(&self) -> (r: bool)
        ensures
            r == self.unchanged(),
    {
        self.source == SideStatus::Unchanged && self.target == SideStatus::Unchanged
    }

    /// The contents of the row's key.
    pub open spec fn key_model(&self) -> KeyModel {
        if self.source_path@.len() == 0 {
            KeyModel::Target(self.target_path@)
        } else {
            KeyModel::Source(self.source_path@)
        }
    }

    /// The row's key: the source path, or the target path of a row that has a
    /// target side only.
    pub fn key(&self) -> (r: RowKey)
        ensures
            r@ == self.key_model(),
    {
        if self.source_path.as_str().is_empty() {
            RowKey::Target(self.target_path.clone())
        } else {
            RowKey::Source(self.source_path.clone())
        }
    }

    /// Whether the row stands for an action at all.
    pub fn is_actionable(&self) -> (r: bool)
        ensures
            r == !self.unchanged(),
    {
        !self.is_unchanged()
    }
}

/// What a row's control asks the caller to do.
pub enum ReviewAction {
    /// Run this row now.
    Apply(RowKey),
}

/// Whether a board offers controls on its rows.
#[derive(Clone, Copy, Debug, PartialEq, Eq, Structural)]
pub enum RowControls {
    /// Each row can be rejected or applied on its own.
    Enabled,
    /// The run is all or nothing, so nothing can be rejected.
    ReadOnly,
}

/// The column that the board is sorted by.
#[derive(Clone, Copy, Debug, PartialEq, Eq, Structural)]
pub enum ReviewCol {
    SourceStatus,
    Source,
    Target,
    TargetStatus,
}

/// What the board remembers from one frame to the next.
pub struct ReviewState {
    pub sort_col: ReviewCol,
    pub sort_asc: bool,
    /// Whether unchanged rows are shown.
    pub show_unchanged: bool,
    /// The page of the visible rows, counted from zero.
    pub page: usize,
    /// The rows that the run skips.
    pub rejected: KeySet,
}

/// The contents of the board's settings.
pub struct ReviewModel {
    pub sort_col: ReviewCol,
    pub sort_asc: bool,
    pub show_unchanged: bool,
    pub page: usize,
    pub rejected: Set<KeyModel>,
}

impl View for ReviewState {
    type V = ReviewModel;

    open spec fn view(&self) -> ReviewModel {
        ReviewModel {
            sort_col: self.sort_col,
            sort_asc: self.sort_asc,
            show_unchanged: self.show_unchanged,
            page: self.page,
            rejected: self.rejected@,
        }
    }
}

impl Default for ReviewState {
    fn default() -> (r: Self)
        ensures
            r.sort_col == ReviewCol::Source,
            r.sort_asc,
            !r.show_unchanged,
            r.page == 0,
            r.rejected.wf(),
            r.rejected@ == Set::<KeyModel>::empty(),
    {
        ReviewState {
            sort_col: ReviewCol::Source,
            sort_asc: true,
            show_unchanged: false,
            page: 0,
            rejected: KeySet::new(),
        }
    }
}

/// The status rank that a column sorts by first.
pub open spec fn sort_rank(row: ReviewRow, col: ReviewCol) -> u8 {
    match col {
        ReviewCol::SourceStatus => row.source.place(),
        ReviewCol::TargetStatus => row.target.place(),
        _ => 0,
    }
}

/// The text that a column sorts by next.
pub open spec fn sort_text(row: ReviewRow, col: ReviewCol) -> Seq<char> {
    match col {
        ReviewCol::Target => lowercase(row.target_path@),
        _ => Seq::empty(),
    }
}

/// `a` comes before `b` in a column: by status rank, target path or nothing, and
/// then by the source path, without regard to case.
pub open spec fn row_before(a: ReviewRow, b: ReviewRow, col: ReviewCol) -> bool {
    let ra = sort_rank(a, col);
    let rb = sort_rank(b, col);
    let ta = sort_text(a, col);
    let tb = sort_text(b, col);
    ra < rb || (ra == rb && (before(ta, tb) || (ta == tb && before(
        lowercase(a.source_path@),
        lowercase(b.source_path@),
    ))))
}

/// Row `i` goes ahead of row `j`: it comes before it in the chosen direction, or
/// they tie and it stood ahead.
pub open spec fn ahead(
    rows: Seq<ReviewRow>,
    col: ReviewCol,
    asc: bool,
    i: int,
    j: int,
) -> bool {
    let (a, b) = if asc {
        (rows[i], rows[j])
    } else {
        (rows[j], rows[i])
    };
    row_before(a, b, col) || (!row_before(b, a, col) && i < j)
}

/// A list of positions in which each goes ahead of all that follow.
pub open spec fn in_order(
    rows: Seq<ReviewRow>,
    col: ReviewCol,
    asc: bool,
    order: Seq<usize>,
) -> bool {
    forall|i: int, j: int|
        0 <= i < j < order.len() ==> ahead(rows, col, asc, order[i] as int, order[j] as int)
}

/// The positions of a list are those of a range.
pub open spec fn fills(order: Seq<usize>, from: int, to: int) -> bool {
    &&& order.len() == to - from
    &&& forall|x: usize| order.contains(x) <==> from <= x < to
}

/// The rows at these positions.
pub open spec fn picked(rows: Seq<ReviewRow>, order: Seq<usize>) -> Seq<ReviewRow> {
    Seq::new(order.len(), |k: int| rows[order[k] as int])
}

/// `after` holds the rows of `rows`, each once, sorted by a column; rows that tie
/// keep their order.
pub open spec fn sorted_by(
    rows: Seq<ReviewRow>,
    after: Seq<ReviewRow>,
    col: ReviewCol,
    asc: bool,
) -> bool {
    exists|order: Seq<usize>|
        {
            &&& fills(order, 0, rows.len() as int)
            &&& #[trigger] in_order(rows, col, asc, order)
            &&& after == picked(rows, order)
        }
}

proof fn lemma_row_before(a: ReviewRow, b: ReviewRow, col: ReviewCol)
    ensures
        !row_before(a, a, col),
        row_before(a, b, col) ==> !row_before(b, a, col),
{
    let sa = lowercase(a.source_path@);
    let sb = lowercase(b.source_path@);
    lemma_before_total(sa, sb);
    lemma_before_total(sort_text(a, col), sort_text(b, col));
}

/// Rows that come before one another in neither direction agree on everything
/// that the column sorts by.
proof fn lemma_row_tie(a: ReviewRow, b: ReviewRow, col: ReviewCol)
    requires
        !row_before(a, b, col),
        !row_before(b, a, col),
    ensures
        sort_rank(a, col) == sort_rank(b, col),
        sort_text(a, col) == sort_text(b, col),
        lowercase(a.source_path@) == lowercase(b.source_path@),
{
    lemma_before_total(lowercase(a.source_path@), lowercase(b.source_path@));
    lemma_before_total(sort_text(a, col), sort_text(b, col));
}

proof fn lemma_row_transitive(a: ReviewRow, b: ReviewRow, c: ReviewRow, col: ReviewCol)
    requires
        row_before(a, b, col),
        row_before(b, c, col),
    ensures
        row_before(a, c, col),
{
    let (ta, tb, tc) = (sort_text(a, col), sort_text(b, col), sort_text(c, col));
    let (sa, sb, sc) = (
        lowercase(a.source_path@),
        lowercase(b.source_path@),
        lowercase(c.source_path@),
    );
    if before(ta, tb) && before(tb, tc) {
        lemma_before_transitive(ta, tb, tc);
    }
    if before(sa, sb) && before(sb, sc) {
        lemma_before_transitive(sa, sb, sc);
    }
}

/// Going ahead is a strict total order of the positions.
proof fn lemma_ahead_total(rows: Seq<ReviewRow>, col: ReviewCol, asc: bool, i: int, j: int)
    ensures
        !ahead(rows, col, asc, i, i),
        i != j ==> ahead(rows, col, asc, i, j) != ahead(rows, col, asc, j, i),
{
    lemma_row_before(rows[i], rows[j], col);
    lemma_row_before(rows[j], rows[i], col);
}

proof fn lemma_ahead_transitive(
    rows: Seq<ReviewRow>,
    col: ReviewCol,
    asc: bool,
    i: int,
    j: int,
    k: int,
)
    requires
        ahead(rows, col, asc, i, j),
        ahead(rows, col, asc, j, k),
    ensures
        ahead(rows, col, asc, i, k),
{
    let (a, b, c) = if asc {
        (rows[i], rows[j], rows[k])
    } else {
        (rows[k], rows[j], rows[i])
    };
    lemma_row_before(a, b, col);
    lemma_row_before(b, c, col);
    lemma_row_before(a, c, col);
    if row_before(a, b, col) && row_before(b, c, col) {
        lemma_row_transitive(a, b, c, col);
    } else if !row_before(a, b, col) && !row_before(b, c, col) {
        lemma_row_tie(a, b, col);
        lemma_row_tie(b, c, col);
    } else if !row_before(a, b, col) {
        lemma_row_tie(a, b, col);
    } else {
        lemma_row_tie(b, c, col);
    }
}

/// What a row is sorted by.
struct SortKey {
    rank: u8,
    text: String,
    source: String,
}

spec fn key_of(row: ReviewRow, col: ReviewCol, key: SortKey) -> bool {
    &&& key.rank == sort_rank(row, col)
    &&& key.text@ == sort_text(row, col)
    &&& key.source@ == lowercase(row.source_path@)
}

spec fn keys_fit(rows: Seq<ReviewRow>, col: ReviewCol, keys: Seq<SortKey>) -> bool {
    &&& keys.len() == rows.len()
    &&& forall|i: int| 0 <= i < keys.len() ==> key_of(rows[i], col, #[trigger] keys[i])
}

fn sort_keys(rows: &Vec<ReviewRow>, col: ReviewCol) -> (r: Vec<SortKey>)
    ensures
        keys_fit(rows@, col, r@),
{
    let mut keys: Vec<SortKey> = Vec::new();
    let mut i: usize = 0;
    while i < rows.len()
        invariant
            i <= rows@.len(),
            keys@.len() == i,
            forall|k: int| 0 <= k < i ==> key_of(rows@[k], col, #[trigger] keys@[k]),
        decreases rows@.len() - i,
    {
        let row = &rows[i];
        let rank: u8 = match col {
            ReviewCol::SourceStatus => row.source.rank(),
            ReviewCol::TargetStatus => row.target.rank(),
            _ => 0,
        };
        let text = match col {
            ReviewCol::Target => to_lowercase(row.target_path.as_str()),
            _ => String::new(),
        };
        let source = to_lowercase(row.source_path.as_str());
        assert(text@ =~= sort_text(*row, col));
        keys.push(SortKey { rank, text, source });
        i += 1;
    }
    keys
}

fn key_before(a: &SortKey, b: &SortKey) -> (r: bool)
    ensures
        r == (a.rank < b.rank || (a.rank == b.rank && (before(a.text@, b.text@) || (a.text@
            == b.text@ && before(a.source@, b.source@))))),
{
    if a.rank != b.rank {
        return a.rank < b.rank;
    }
    if comes_before(a.text.as_str(), b.text.as_str()) {
        return true;
    }
    if a.text != b.text {
        return false;
    }
    comes_before(a.source.as_str(), b.source.as_str())
}

fn goes_ahead(
    keys: &Vec<SortKey>,
    asc: bool,
    i: usize,
    j: usize,
    rows: Ghost<Seq<ReviewRow>>,
    col: ReviewCol,
) -> (r: bool)
    requires
        keys_fit(rows@, col, keys@),
        i < keys@.len(),
        j < keys@.len(),
    ensures
        r == ahead(rows@, col, asc, i as int, j as int),
{
    let (a, b) = if asc {
        (i, j)
    } else {
        (j, i)
    };
    assert(key_of(rows@[a as int], col, keys@[a as int]));
    assert(key_of(rows@[b as int], col, keys@[b as int]));
    key_before(&keys[a], &keys[b]) || (!key_before(&keys[b], &keys[a]) && i < j)
}

spec fn ordered_part(
    rows: Seq<ReviewRow>,
    col: ReviewCol,
    asc: bool,
    part: Seq<usize>,
    from: int,
    to: int,
) -> bool {
    &&& fills(part, from, to)
    &&& in_order(rows, col, asc, part)
}

/// Merges the ordered positions of two neighbouring ranges.
fn merge(
    keys: &Vec<SortKey>,
    asc: bool,
    left: Vec<usize>,
    right: Vec<usize>,
    bounds: Ghost<(int, int, int)>,
    rows: Ghost<Seq<ReviewRow>>,
    col: ReviewCol,
) -> (r: Vec<usize>)
    requires
        keys_fit(rows@, col, keys@),
        0 <= bounds@.0 <= bounds@.1 <= bounds@.2 <= keys@.len(),
        ordered_part(rows@, col, asc, left@, bounds@.0, bounds@.1),
        ordered_part(rows@, col, asc, right@, bounds@.1, bounds@.2),
    ensures
        ordered_part(rows@, col, asc, r@, bounds@.0, bounds@.2),
{
    let ghost rs = rows@;
    let ghost (lo, mid, hi) = bounds@;
    let mut out: Vec<usize> = Vec::new();
    let mut i: usize = 0;
    let mut j: usize = 0;
    while i < left.len() || j < right.len()
        invariant
            rs == rows@,
            keys_fit(rs, col, keys@),
            0 <= lo <= mid <= hi <= keys@.len(),
            ordered_part(rs, col, asc, left@, lo, mid),
            ordered_part(rs, col, asc, right@, mid, hi),
            i <= left@.len(),
            j <= right@.len(),
            out@.len() == i + j,
            in_order(rs, col, asc, out@),
            forall|x: usize| #[trigger]
                out@.contains(x) <==> left@.take(i as int).contains(x) || right@.take(
                    j as int,
                ).contains(x),
            forall|a: int, b: int|
                0 <= a < out@.len() && i <= b < left@.len() ==> ahead(
                    rs,
                    col,
                    asc,
                    #[trigger] out@[a] as int,
                    #[trigger] left@[b] as int,
                ),
            forall|a: int, b: int|
                0 <= a < out@.len() && j <= b < right@.len() ==> ahead(
                    rs,
                    col,
                    asc,
                    #[trigger] out@[a] as int,
                    #[trigger] right@[b] as int,
                ),
        decreases left@.len() - i + right@.len() - j,
    {
        proof {
            assert(forall|k: int|
                0 <= k < left@.len() ==> left@.contains(#[trigger] left@[k]));
            assert(forall|k: int|
                0 <= k < right@.len() ==> right@.contains(#[trigger] right@[k]));
        }
        let take_left = if i >= left.len() {
            false
        } else if j >= right.len() {
            true
        } else {
            goes_ahead(keys, asc, left[i], right[j], rows, col)
        };
        let ghost was = out@;
        if take_left {
            let x: usize = left[i];
            out.push(x);
            proof {
                if j < right@.len() {
                    assert forall|b: int| j <= b < right@.len() implies ahead(
                        rs,
                        col,
                        asc,
                        x as int,
                        #[trigger] right@[b] as int,
                    ) by {
                        if b > j {
                            lemma_ahead_transitive(
                                rs,
                                col,
                                asc,
                                x as int,
                                right@[j as int] as int,
                                right@[b] as int,
                            );
                        }
                    }
                }
                lemma_took(was, left@, i as int, out@, x);
            }
            i += 1;
        } else {
            let x: usize = right[j];
            out.push(x);
            proof {
                if i < left@.len() {
                    lemma_ahead_total(rs, col, asc, left@[i as int] as int, x as int);
                    assert forall|b: int| i <= b < left@.len() implies ahead(
                        rs,
                        col,
                        asc,
                        x as int,
                        #[trigger] left@[b] as int,
                    ) by {
                        if b > i {
                            lemma_ahead_transitive(
                                rs,
                                col,
                                asc,
                                x as int,
                                left@[i as int] as int,
                                left@[b] as int,
                            );
                        }
                    }
                }
                lemma_took(was, right@, j as int, out@, x);
            }
            j += 1;
        }
    }
    proof {
        assert(left@.take(i as int) =~= left@);
        assert(right@.take(j as int) =~= right@);
        assert(fills(out@, lo, hi));
    }
    out
}

/// Taking one more element of a list into another.
proof fn lemma_took(was: Seq<usize>, list: Seq<usize>, i: int, now: Seq<usize>, x: usize)
    requires
        0 <= i < list.len(),
        x == list[i],
        now == was.push(x),
    ensures
        forall|y: usize| #[trigger] now.contains(y) <==> was.contains(y) || y == x,
        forall|y: usize| #[trigger]
            list.take(i + 1).contains(y) <==> list.take(i).contains(y) || y == x,
{
    assert forall|y: usize| #[trigger] now.contains(y) <==> was.contains(y) || y == x by {
        lemma_pushed(was, x, y);
    }
    assert(list.take(i + 1) =~= list.take(i).push(x));
    assert forall|y: usize| #[trigger]
        list.take(i + 1).contains(y) <==> list.take(i).contains(y) || y == x by {
        lemma_pushed(list.take(i), x, y);
    }
}

proof fn lemma_pushed(s: Seq<usize>, x: usize, y: usize)
    ensures
        s.push(x).contains(y) <==> s.contains(y) || y == x,
{
    let t = s.push(x);
    if s.contains(y) {
        assert(t[s.index_of(y)] == y);
    }
    if y == x {
        assert(t[s.len() as int] == y);
    }
    if t.contains(y) {
        let k = t.index_of(y);
        if k < s.len() {
            assert(s[k] == y);
        }
    }
}

/// The positions of a range, in order.
fn sort_range(
    keys: &Vec<SortKey>,
    asc: bool,
    from: usize,
    to: usize,
    rows: Ghost<Seq<ReviewRow>>,
    col: ReviewCol,
) -> (r: Vec<usize>)
    requires
        keys_fit(rows@, col, keys@),
        from <= to <= keys@.len(),
    ensures
        ordered_part(rows@, col, asc, r@, from as int, to as int),
    decreases to - from,
{
    let mut out: Vec<usize> = Vec::new();
    if from == to {
        return out;
    }
    if to - from == 1 {
        out.push(from);
        assert(out@[0] == from);
        assert(fills(out@, from as int, to as int));
        return out;
    }
    let mid: usize = from + (to - from) / 2;
    let left = sort_range(keys, asc, from, mid, rows, col);
    let right = sort_range(keys, asc, mid, to, rows, col);
    merge(
        keys,
        asc,
        left,
        right,
        Ghost((from as int, mid as int, to as int)),
        rows,
        col,
    )
}

proof fn lemma_order_distinct(
    rows: Seq<ReviewRow>,
    col: ReviewCol,
    asc: bool,
    order: Seq<usize>,
)
    requires
        in_order(rows, col, asc, order),
    ensures
        order.no_duplicates(),
{
    assert forall|i: int, j: int|
        0 <= i < order.len() && 0 <= j < order.len() && i != j implies order[i] != order[j] by {
        let (a, b) = if i < j {
            (i, j)
        } else {
            (j, i)
        };
        assert(ahead(rows, col, asc, order[a] as int, order[b] as int));
        lemma_ahead_total(rows, col, asc, order[a] as int, order[b] as int);
    }
}

/// Moves the rows into the order of these positions.
fn rearrange(rows: &mut Vec<ReviewRow>, order: &Vec<usize>)
    requires
        fills(order@, 0, old(rows)@.len() as int),
        order@.no_duplicates(),
    ensures
        final(rows)@ == picked(old(rows)@, order@),
{
    let ghost all = rows@;
    let n = rows.len();
    let mut slots: Vec<Option<ReviewRow>> = Vec::new();
    let mut k: usize = 0;
    while k < n
        invariant
            k <= n,
            n == all.len(),
            rows@ == all.take(n - k),
            slots@.len() == k,
            forall|i: int| 0 <= i < k ==> #[trigger] slots@[i] == Some(all[n - 1 - i]),
        decreases n - k,
    {
        match rows.pop() {
            Some(row) => {
                assert(all.take(n - k).drop_last() =~= all.take(n - k - 1));
                slots.push(Some(row));
            },
            None => {},
        }
        k += 1;
    }
    let mut i: usize = 0;
    while i < order.len()
        invariant
            i <= order@.len(),
            n == all.len(),
            n == slots@.len(),
            fills(order@, 0, n as int),
            order@.no_duplicates(),
            rows@ == picked(all, order@).take(i as int),
            forall|j: int|
                0 <= j < n && !order@.take(i as int).contains((n - 1 - j) as usize)
                    ==> #[trigger] slots@[j] == Some(all[n - 1 - j]),
        decreases order@.len() - i,
    {
        let p: usize = order[i];
        proof {
            assert(order@.contains(order@[i as int]));
            if order@.take(i as int).contains(p) {
                let q = order@.take(i as int).index_of(p);
                assert(order@[q] == order@[i as int]);
            }
        }
        let s: usize = n - 1 - p;
        let ghost was = slots@;
        assert(slots@[s as int] == Some(all[p as int]));
        match slots[s].take() {
            Some(row) => {
                rows.push(row);
            },
            None => {},
        }
        proof {
            assert(rows@ =~= picked(all, order@).take(i + 1));
            assert(order@.take(i + 1) =~= order@.take(i as int).push(p));
            assert forall|j: int|
                0 <= j < n && !order@.take(i + 1).contains((n - 1 - j) as usize) implies
                #[trigger] slots@[j] == Some(all[n - 1 - j]) by {
                lemma_pushed(order@.take(i as int), p, (n - 1 - j) as usize);
                assert(j != s);
                assert(slots@[j] == was[j]);
            }
        }
        i += 1;
    }
    assert(picked(all, order@).take(i as int) =~= picked(all, order@));
}

/// Sorts the rows by the state's column and direction. Rows that tie keep their
/// order.
pub fn sort(rows: &mut Vec<ReviewRow>, state: &ReviewState)
    ensures
        sorted_by(old(rows)@, final(rows)@, state.sort_col, state.sort_asc),
{
    let ghost all = rows@;
    let keys = sort_keys(rows, state.sort_col);
    let order = sort_range(
        &keys,
        state.sort_asc,
        0,
        rows.len(),
        Ghost(all),
        state.sort_col,
    );
    proof {
        lemma_order_distinct(all, state.sort_col, state.sort_asc, order@);
    }
    rearrange(rows, &order);
    assert(in_order(all, state.sort_col, state.sort_asc, order@));
}

proof fn lemma_order_unique(
    rows: Seq<ReviewRow>,
    col: ReviewCol,
    asc: bool,
    a: Seq<usize>,
    b: Seq<usize>,
    k: int,
)
    requires
        fills(a, 0, rows.len() as int),
        fills(b, 0, rows.len() as int),
        in_order(rows, col, asc, a),
        in_order(rows, col, asc, b),
        0 <= k <= rows.len(),
    ensures
        a.take(k) == b.take(k),
    decreases k,
{
    if k > 0 {
        lemma_order_unique(rows, col, asc, a, b, k - 1);
        assert(a.take(k) =~= a.take(k - 1).push(a[k - 1]));
        assert(b.take(k) =~= b.take(k - 1).push(b[k - 1]));
        let x = a[k - 1];
        let y = b[k - 1];
        if x != y {
            lemma_order_distinct(rows, col, asc, a);
            lemma_order_distinct(rows, col, asc, b);
            lemma_comes_later(rows, col, asc, a, b, k - 1);
            lemma_comes_later(rows, col, asc, b, a, k - 1);
            lemma_ahead_total(rows, col, asc, x as int, y as int);
        }
    }
}

/// Where two orders agree up to a place and differ there, what the first has there
/// stands later in the second.
proof fn lemma_comes_later(
    rows: Seq<ReviewRow>,
    col: ReviewCol,
    asc: bool,
    a: Seq<usize>,
    b: Seq<usize>,
    k: int,
)
    requires
        fills(a, 0, rows.len() as int),
        fills(b, 0, rows.len() as int),
        a.no_duplicates(),
        in_order(rows, col, asc, b),
        0 <= k < rows.len(),
        a.take(k) == b.take(k),
        a[k] != b[k],
    ensures
        ahead(rows, col, asc, b[k] as int, a[k] as int),
{
    assert(a.contains(a[k]));
    assert(b.contains(a[k]));
    let m = b.index_of(a[k]);
    assert(b[m] == a[k]);
    if m < k {
        assert(a.take(k)[m] == a[m]);
        assert(b.take(k)[m] == b[m]);
    }
    assert(ahead(rows, col, asc, b[k] as int, b[m] as int));
}

/// A list of rows has one sorted order only.
pub proof fn law_sorting_is_determined(
    rows: Seq<ReviewRow>,
    one: Seq<ReviewRow>,
    other: Seq<ReviewRow>,
    col: ReviewCol,
    asc: bool,
)
    requires
        sorted_by(rows, one, col, asc),
        sorted_by(rows, other, col, asc),
    ensures
        one == other,
{
    let a = choose|order: Seq<usize>|
        {
            &&& fills(order, 0, rows.len() as int)
            &&& #[trigger] in_order(rows, col, asc, order)
            &&& one == picked(rows, order)
        };
    let b = choose|order: Seq<usize>|
        {
            &&& fills(order, 0, rows.len() as int)
            &&& #[trigger] in_order(rows, col, asc, order)
            &&& other == picked(rows, order)
        };
    lemma_order_unique(rows, col, asc, a, b, rows.len() as int);
    assert(a.take(rows.len() as int) =~= a);
    assert(b.take(rows.len() as int) =~= b);
}

/// Sorting neither loses nor invents a row.
pub proof fn law_sorting_keeps_every_row(
    rows: Seq<ReviewRow>,
    after: Seq<ReviewRow>,
    col: ReviewCol,
    asc: bool,
)
    requires
        rows.len() <= usize::MAX,
        sorted_by(rows, after, col, asc),
    ensures
        after.len() == rows.len(),
        forall|row: ReviewRow| #[trigger] after.contains(row) <==> rows.contains(row),
{
    let order = choose|order: Seq<usize>|
        {
            &&& fills(order, 0, rows.len() as int)
            &&& #[trigger] in_order(rows, col, asc, order)
            &&& after == picked(rows, order)
        };
    assert forall|row: ReviewRow| #[trigger] after.contains(row) <==> rows.contains(row) by {
        if after.contains(row) {
            let k = after.index_of(row);
            assert(order.contains(order[k]));
            assert(rows[order[k] as int] == row);
        }
        if rows.contains(row) {
            let p = rows.index_of(row);
            assert(order.contains(p as usize));
            let k = order.index_of(p as usize);
            assert(after[k] == row);
        }
    }
}

/// The board's shape and headers.
pub struct BoardView<'a> {
    /// Added, removed and unchanged, counted over the whole plan.
    pub totals: [usize; 3],
    pub source_header: &'a str,
    /// The target side's header; `None` is a board of one side.
    pub target: Option<&'a str>,
    pub controls: RowControls,
}

/// The status cell of one side.
pub struct StatusCell {
    pub symbol: &'static str,
    pub word: &'static str,
    pub ink: Ink,
}

/// The path cell of one side.
pub struct SideCell {
    pub path: String,
    pub ink: Ink,
    pub facts_ink: Ink,
    /// The path is struck through: the row is rejected.
    pub struck: bool,
}

/// The controls of one row.
pub struct RowButtons {
    pub rejected: bool,
    pub reject_ink: Ink,
    pub reject_fill: Ink,
    pub reject_hover: &'static str,
    /// The row can be applied on its own.
    pub can_apply: bool,
}

/// One row of the board.
pub struct BoardLine {
    /// The position of the row.
    pub row: usize,
    pub key: RowKey,
    pub buttons: Option<RowButtons>,
    pub source_status: StatusCell,
    pub source: Option<SideCell>,
    /// The target side's cells, where the board has that side.
    pub target: Option<(Option<SideCell>, StatusCell)>,
}

/// The page controls.
pub struct Pager {
    pub prev: bool,
    pub label: String,
    pub next: bool,
}

/// What the board shows.
pub struct Board {
    pub summary: Vec<(String, Ink)>,
    /// The label of the toggle for unchanged rows, where there are any.
    pub toggle: Option<String>,
    /// Said where the plan has more rows than the board.
    pub capped: Option<String>,
    pub count: String,
    pub pager: Option<Pager>,
    pub columns: Vec<(ReviewCol, String)>,
    pub has_actions: bool,
    pub lines: Vec<BoardLine>,
}

/// The texts of a list with their colours.
pub open spec fn inked(list: Seq<(String, Ink)>) -> Seq<(Seq<char>, Ink)> {
    Seq::new(list.len(), |i: int| (list[i].0@, list[i].1))
}

/// The summary's entry for one status: nothing where there is none.
pub open spec fn summary_entry(status: SideStatus, n: nat, label: Seq<char>) -> Seq<
    (Seq<char>, Ink),
> {
    if n == 0 {
        Seq::empty()
    } else {
        seq![(status.glyph() + " "@ + dec(n) + " "@ + label, status.ink())]
    }
}

/// The summary: a count for each status that occurs, and the rejected rows.
pub open spec fn summary_texts(totals: Seq<usize>, rejected: nat) -> Seq<(Seq<char>, Ink)> {
    summary_entry(SideStatus::Added, totals[0] as nat, "added"@) + summary_entry(
        SideStatus::Removed,
        totals[1] as nat,
        "removed"@,
    ) + summary_entry(SideStatus::Unchanged, totals[2] as nat, "unchanged"@) + (if rejected == 0 {
        Seq::empty()
    } else {
        seq![(icon::X@ + " "@ + dec(rejected) + " rejected — RUN skips these"@, Ink::Hairline)]
    })
}

fn push_entry(out: &mut Vec<(String, Ink)>, status: SideStatus, n: usize, label: &str)
    ensures
        inked(final(out)@) == inked(old(out)@) + summary_entry(status, n as nat, label@),
{
    let ghost was = out@;
    if n > 0 {
        let mut s = status.symbol().to_string();
        s.append(" ");
        push_decimal(&mut s, n as u128);
        s.append(" ");
        s.append(label);
        out.push((s, status.color()));
    }
    assert(inked(out@) =~= inked(was) + summary_entry(status, n as nat, label@));
}

/// The summary line of a plan.
pub fn summary(totals: [usize; 3], rejected: usize) -> (r: Vec<(String, Ink)>)
    ensures
        inked(r@) == summary_texts(totals@, rejected as nat),
{
    let mut out: Vec<(String, Ink)> = Vec::new();
    assert(inked(out@) =~= Seq::empty());
    push_entry(&mut out, SideStatus::Added, totals[0], "added");
    push_entry(&mut out, SideStatus::Removed, totals[1], "removed");
    push_entry(&mut out, SideStatus::Unchanged, totals[2], "unchanged");
    let ghost was = out@;
    if rejected > 0 {
        let mut s = icon::X.to_string();
        s.append(" ");
        push_decimal(&mut s, rejected as u128);
        s.append(" rejected — RUN skips these");
        out.push((s, Ink::Hairline));
    }
    assert(inked(out@) =~= summary_texts(totals@, rejected as nat));
    out
}

/// The compact line under a path: size, dimensions or duration, time, and where
/// the file came from.
pub open spec fn facts_text(f: FileFacts, size: Seq<char>, mtime: Seq<char>) -> Seq<char> {
    size + " · "@ + f.extent_text() + " · "@ + mtime + match f.origin {
        Some(o) => " · from "@ + o@,
        None => Seq::empty(),
    }
}

/// The facts line of a file whose size and time read so.
pub fn facts_line(f: &FileFacts, size: &str, mtime: &str) -> (r: String)
    ensures
        r@ == facts_text(*f, size@, mtime@),
{
    let mut line = copy(size);
    line.append(" · ");
    line.append(f.dims_or_duration().as_str());
    line.append(" · ");
    line.append(mtime);
    if let Some(origin) = &f.origin {
        line.append(" · from ");
        line.append(origin.as_str());
    }
    assert(line@ =~= facts_text(*f, size@, mtime@));
    line
}

/// A status cell shows a status, dimmed where the row is rejected.
pub open spec fn is_status_cell(cell: StatusCell, status: SideStatus, rejected: bool) -> bool {
    &&& cell.symbol@ == status.glyph()
    &&& cell.word@ == match status {
        SideStatus::Added => "ADDED"@,
        SideStatus::Removed => "REMOVED"@,
        SideStatus::Unchanged => "UNCHANGED"@,
        SideStatus::Absent => ""@,
    }
    &&& cell.ink == if rejected {
        Ink::Hairline
    } else {
        status.ink()
    }
}

/// The status cell of one side.
pub fn status_cell(status: SideStatus, rejected: bool) -> (r: StatusCell)
    ensures
        is_status_cell(r, status, rejected),
{
    let ink = if rejected {
        Ink::Hairline
    } else {
        status.color()
    };
    StatusCell { symbol: status.symbol(), word: status.word(), ink }
}

/// A side's cell shows its path in the colour of its status; an absent side shows
/// nothing, a rejected row is dimmed and struck through.
pub open spec fn is_side_cell(
    cell: Option<SideCell>,
    status: SideStatus,
    path: Seq<char>,
    rejected: bool,
) -> bool {
    &&& (cell is Some) == (status != SideStatus::Absent && path.len() > 0)
    &&& cell matches Some(c) ==> {
        &&& c.path@ == path
        &&& c.struck == rejected
        &&& c.ink == if rejected {
            Ink::Hairline
        } else {
            status.ink()
        }
        &&& c.facts_ink == if rejected {
            Ink::Hairline
        } else {
            Ink::Tan
        }
    }
}

/// The path cell of one side.
pub fn side_cell(status: SideStatus, path: &String, rejected: bool) -> (r: Option<SideCell>)
    ensures
        is_side_cell(r, status, path@, rejected),
{
    if status == SideStatus::Absent || path.as_str().is_empty() {
        return None;
    }
    let (ink, facts_ink) = if rejected {
        (Ink::Hairline, Ink::Hairline)
    } else {
        (status.color(), Ink::Tan)
    };
    Some(SideCell { path: path.clone(), ink, facts_ink, struck: rejected })
}

/// The positions of those of the first `n` rows that are shown.
pub open spec fn visible(rows: Seq<ReviewRow>, show_unchanged: bool, n: int) -> Seq<usize>
    decreases n,
{
    if n <= 0 {
        Seq::empty()
    } else if show_unchanged || !rows[n - 1].unchanged() {
        visible(rows, show_unchanged, n - 1).push((n - 1) as usize)
    } else {
        visible(rows, show_unchanged, n - 1)
    }
}

/// How many pages a number of rows takes: at least one.
pub open spec fn page_count(n: nat) -> nat {
    if n == 0 {
        1
    } else {
        (n + PAGE_SIZE - 1) as nat / PAGE_SIZE as nat
    }
}

/// The rows of one page.
pub open spec fn page_of(shown: Seq<usize>, page: int) -> Seq<usize> {
    let end = if (page + 1) * PAGE_SIZE <= shown.len() {
        (page + 1) * PAGE_SIZE
    } else {
        shown.len() as int
    };
    shown.subrange(page * PAGE_SIZE, end)
}

/// The first `n` pages, one after the other.
pub open spec fn pages_joined(shown: Seq<usize>, n: int) -> Seq<usize>
    decreases n,
{
    if n <= 0 {
        Seq::empty()
    } else {
        pages_joined(shown, n - 1) + page_of(shown, n - 1)
    }
}

proof fn lemma_pages(shown: Seq<usize>, n: int)
    requires
        0 <= n <= page_count(shown.len()),
    ensures
        pages_joined(shown, n) == shown.take(if n * PAGE_SIZE <= shown.len() {
            n * PAGE_SIZE
        } else {
            shown.len() as int
        }),
    decreases n,
{
    if n > 0 {
        lemma_pages(shown, n - 1);
        assert(pages_joined(shown, n) =~= shown.take(if n * PAGE_SIZE <= shown.len() {
            n * PAGE_SIZE
        } else {
            shown.len() as int
        }));
    } else {
        assert(pages_joined(shown, n) =~= shown.take(0));
    }
}

/// Paging through the board shows every visible row, once and in order.
pub proof fn law_pages_show_every_row_once(shown: Seq<usize>)
    ensures
        pages_joined(shown, page_count(shown.len()) as int) == shown,
{
    lemma_pages(shown, page_count(shown.len()) as int);
    assert(shown.take(shown.len() as int) =~= shown);
}

fn visible_rows(rows: &Vec<ReviewRow>, show_unchanged: bool) -> (r: Vec<usize>)
    ensures
        r@ == visible(rows@, show_unchanged, rows@.len() as int),
        forall|k: int| 0 <= k < r@.len() ==> #[trigger] r@[k] < rows@.len(),
{
    let mut out: Vec<usize> = Vec::new();
    let mut i: usize = 0;
    while i < rows.len()
        invariant
            i <= rows@.len(),
            out@ == visible(rows@, show_unchanged, i as int),
            forall|k: int| 0 <= k < out@.len() ==> #[trigger] out@[k] < rows@.len(),
        decreases rows@.len() - i,
    {
        if show_unchanged || !rows[i].is_unchanged() {
            out.push(i);
        }
        i += 1;
    }
    out
}

fn pages_for(n: usize) -> (r: usize)
    ensures
        r == page_count(n as nat),
        r >= 1,
{
    if n == 0 {
        1
    } else {
        (n - 1) / PAGE_SIZE + 1
    }
}

/// The controls of a row: an action can be rejected, and applied while it is not.
pub open spec fn is_buttons(
    buttons: Option<RowButtons>,
    row: ReviewRow,
    interactive: bool,
    rejected: bool,
) -> bool {
    &&& (buttons is Some) == (interactive && !row.unchanged())
    &&& buttons matches Some(b) ==> {
        &&& b.rejected == rejected
        &&& b.can_apply == !rejected
        &&& b.reject_ink == if rejected {
            Ink::Black
        } else {
            Ink::Red
        }
        &&& b.reject_fill == if rejected {
            Ink::Red
        } else {
            Ink::Panel
        }
        &&& b.reject_hover@ == if rejected {
            "Restore this action (it runs again with RUN)"@
        } else {
            "Reject this action — RUN will skip it"@
        }
    }
}

/// A line of the board shows the row at a position.
pub open spec fn is_line(
    line: BoardLine,
    rows: Seq<ReviewRow>,
    at: usize,
    rejected: Set<KeyModel>,
    interactive: bool,
    two_sided: bool,
) -> bool {
    let row = rows[at as int];
    let out = interactive && rejected.contains(row.key_model());
    &&& line.row == at
    &&& line.key@ == row.key_model()
    &&& is_buttons(line.buttons, row, interactive, out)
    &&& is_status_cell(line.source_status, row.source, out)
    &&& is_side_cell(line.source, row.source, row.source_path@, out)
    &&& (line.target is Some) == two_sided
    &&& line.target matches Some((cell, status)) ==> {
        &&& is_side_cell(cell, row.target, row.target_path@, out)
        &&& is_status_cell(status, row.target, out)
    }
}

fn row_buttons(row: &ReviewRow, interactive: bool, rejected: bool) -> (r: Option<RowButtons>)
    ensures
        is_buttons(r, *row, interactive, rejected),
{
    if !interactive || !row.is_actionable() {
        return None;
    }
    if rejected {
        Some(
            RowButtons {
                rejected,
                reject_ink: Ink::Black,
                reject_fill: Ink::Red,
                reject_hover: "Restore this action (it runs again with RUN)",
                can_apply: false,
            },
        )
    } else {
        Some(
            RowButtons {
                rejected,
                reject_ink: Ink::Red,
                reject_fill: Ink::Panel,
                reject_hover: "Reject this action — RUN will skip it",
                can_apply: true,
            },
        )
    }
}

fn board_line(
    rows: &Vec<ReviewRow>,
    at: usize,
    rejected: &KeySet,
    interactive: bool,
    two_sided: bool,
) -> (r: BoardLine)
    requires
        at < rows@.len(),
    ensures
        is_line(r, rows@, at, rejected@, interactive, two_sided),
{
    let row = &rows[at];
    let key = row.key();
    let out = interactive && rejected.has(&key);
    let target = if two_sided {
        Some((side_cell(row.target, &row.target_path, out), status_cell(row.target, out)))
    } else {
        None
    };
    BoardLine {
        row: at,
        key,
        buttons: row_buttons(row, interactive, out),
        source_status: status_cell(row.source, out),
        source: side_cell(row.source, &row.source_path, out),
        target,
    }
}

/// The columns of a board and their headers.
pub open spec fn column_heads(source: Seq<char>, target: Option<Seq<char>>) -> Seq<
    (ReviewCol, Seq<char>),
> {
    seq![(ReviewCol::SourceStatus, "STATUS"@), (ReviewCol::Source, source)] + match target {
        Some(t) => seq![(ReviewCol::Target, t), (ReviewCol::TargetStatus, "STATUS"@)],
        None => Seq::empty(),
    }
}

/// The columns of a list and their headers.
pub open spec fn heads(list: Seq<(ReviewCol, String)>) -> Seq<(ReviewCol, Seq<char>)> {
    Seq::new(list.len(), |i: int| (list[i].0, list[i].1@))
}

fn columns(source: &str, target: Option<&str>) -> (r: Vec<(ReviewCol, String)>)
    ensures
        heads(r@) == column_heads(source@, match target {
            Some(t) => Some(t@),
            None => None,
        }),
{
    let mut out: Vec<(ReviewCol, String)> = Vec::new();
    out.push((ReviewCol::SourceStatus, "STATUS".to_string()));
    out.push((ReviewCol::Source, copy(source)));
    if let Some(t) = target {
        out.push((ReviewCol::Target, copy(t)));
        out.push((ReviewCol::TargetStatus, "STATUS".to_string()));
    }
    assert(heads(out@) =~= column_heads(source@, match target {
        Some(t) => Some(t@),
        None => None,
    }));
    out
}

/// A sort that sits on the target side.
pub open spec fn on_target(col: ReviewCol) -> bool {
    col == ReviewCol::Target || col == ReviewCol::TargetStatus
}

/// What the board says above its rows.
pub open spec fn is_head(board: Board, state: ReviewState, n_rows: nat, shown: nat, view: BoardView) -> bool {
    let full = view.totals@[0] + view.totals@[1] + view.totals@[2];
    let pages = page_count(shown);
    &&& inked(board.summary@) == summary_texts(view.totals@, state.rejected@.len())
    &&& (board.toggle is Some) == (view.totals@[2] > 0)
    &&& board.toggle matches Some(t) ==> t@ == if state.show_unchanged {
        "HIDE UNCHANGED"@
    } else {
        "SHOW UNCHANGED"@
    }
    &&& (board.capped is Some) == (full > n_rows)
    &&& board.capped matches Some(t) ==> t@ == "showing the first "@ + dec(n_rows) + " of "@ + dec(
        full as nat,
    ) + " — refine the filter to see the rest"@
    &&& board.count@ == dec(shown) + " rows"@
    &&& (board.pager is Some) == (pages > 1)
    &&& board.pager matches Some(p) ==> {
        &&& p.prev == (state.page > 0)
        &&& p.label@ == "PAGE "@ + dec((state.page + 1) as nat) + " / "@ + dec(pages)
        &&& p.next == (state.page + 1 < pages)
    }
    &&& heads(board.columns@) == column_heads(view.source_header@, match view.target {
        Some(t) => Some(t@),
        None => None,
    })
    &&& board.has_actions == (view.controls == RowControls::Enabled)
}

fn board_head(state: &ReviewState, n_rows: usize, shown: usize, view: &BoardView) -> (r: Board)
    requires
        state.rejected.wf(),
        state.page < page_count(shown as nat),
    ensures
        is_head(r, *state, n_rows as nat, shown as nat, *view),
        r.lines@.len() == 0,
{
    let full: u128 = view.totals[0] as u128 + view.totals[1] as u128 + view.totals[2] as u128;
    let toggle = if view.totals[2] > 0 {
        Some(if state.show_unchanged {
            "HIDE UNCHANGED".to_string()
        } else {
            "SHOW UNCHANGED".to_string()
        })
    } else {
        None
    };
    let capped = if full > n_rows as u128 {
        let mut s = "showing the first ".to_string();
        push_decimal(&mut s, n_rows as u128);
        s.append(" of ");
        push_decimal(&mut s, full);
        s.append(" — refine the filter to see the rest");
        Some(s)
    } else {
        None
    };
    let mut count = String::new();
    push_decimal(&mut count, shown as u128);
    count.append(" rows");
    assert(count@ =~= dec(shown as nat) + " rows"@);
    let pages = pages_for(shown);
    let pager = if pages > 1 {
        let mut label = "PAGE ".to_string();
        push_decimal(&mut label, state.page as u128 + 1);
        label.append(" / ");
        push_decimal(&mut label, pages as u128);
        Some(Pager { prev: state.page > 0, label, next: state.page < pages - 1 })
    } else {
        None
    };
    Board {
        summary: summary(view.totals, state.rejected.len()),
        toggle,
        capped,
        count,
        pager,
        columns: columns(view.source_header, view.target),
        has_actions: view.controls == RowControls::Enabled,
        lines: Vec::new(),
    }
}

/// What the board shows. A board of one side takes its sort off the target side
/// first, and the page is kept within the pages there are.
pub fn table(state: &mut ReviewState, rows: &mut Vec<ReviewRow>, view: &BoardView) -> (r: Board)
    requires
        old(state).rejected.wf(),
    ensures
        ({
            let moved = view.target is None && on_target(old(state).sort_col);
            let shown = visible(
                final(rows)@,
                old(state).show_unchanged,
                final(rows)@.len() as int,
            );
            let page = page_of(shown, final(state).page as int);
            let last = page_count(shown.len()) - 1;
            &&& final(state).sort_col == if moved {
                ReviewCol::Source
            } else {
                old(state).sort_col
            }
            &&& final(state).sort_asc == old(state).sort_asc
            &&& final(state).show_unchanged == old(state).show_unchanged
            &&& final(state).rejected == old(state).rejected
            &&& final(state).page == if old(state).page <= last {
                old(state).page as int
            } else {
                last
            }
            &&& moved ==> sorted_by(
                old(rows)@,
                final(rows)@,
                ReviewCol::Source,
                old(state).sort_asc,
            )
            &&& !moved ==> final(rows)@ == old(rows)@
            &&& is_head(r, *final(state), final(rows)@.len(), shown.len(), *view)
            &&& r.lines@.len() == page.len()
            &&& forall|i: int|
                0 <= i < r.lines@.len() ==> is_line(
                    #[trigger] r.lines@[i],
                    final(rows)@,
                    page[i],
                    old(state).rejected@,
                    view.controls == RowControls::Enabled,
                    view.target is Some,
                )
        }),
{
    let two_sided = view.target.is_some();
    if !two_sided && (state.sort_col == ReviewCol::Target || state.sort_col
        == ReviewCol::TargetStatus) {
        state.sort_col = ReviewCol::Source;
        sort(rows, state);
    }
    let shown = visible_rows(rows, state.show_unchanged);
    let pages = pages_for(shown.len());
    if state.page > pages - 1 {
        state.page = pages - 1;
    }
    let mut board = board_head(state, rows.len(), shown.len(), view);
    let ghost page = page_of(shown@, state.page as int);
    let interactive = view.controls == RowControls::Enabled;
    let from: usize = state.page * PAGE_SIZE;
    let left: usize = shown.len() - from;
    let to: usize = if left > PAGE_SIZE {
        from + PAGE_SIZE
    } else {
        shown.len()
    };
    let ghost head = board;
    let mut lines: Vec<BoardLine> = Vec::new();
    let mut i: usize = from;
    while i < to
        invariant
            from <= i <= to <= shown@.len(),
            page == shown@.subrange(from as int, to as int),
            forall|k: int| 0 <= k < shown@.len() ==> #[trigger] shown@[k] < rows@.len(),
            lines@.len() == i - from,
            forall|k: int|
                0 <= k < lines@.len() ==> is_line(
                    #[trigger] lines@[k],
                    rows@,
                    page[k],
                    state.rejected@,
                    interactive,
                    two_sided,
                ),
        decreases to - i,
    {
        lines.push(board_line(rows, shown[i], &state.rejected, interactive, two_sided));
        i += 1;
    }
    board.lines = lines;
    board
}

/// A click on the board.
pub enum BoardEvent {
    ToggleUnchanged,
    PrevPage,
    NextPage,
    ToggleReject(RowKey),
    Apply(RowKey),
    SortBy(ReviewCol),
}

/// Carries out a click on the board. What the caller has to run is returned. With
/// read-only controls nothing is rejected and nothing is run.
pub fn act(
    state: &mut ReviewState,
    rows: &mut Vec<ReviewRow>,
    event: BoardEvent,
    controls: RowControls,
) -> (r: Option<ReviewAction>)
    ensures
        old(state).rejected.wf() ==> final(state).rejected.wf(),
        final(state).rejected@ == (match event {
            BoardEvent::ToggleReject(key) if controls == RowControls::Enabled => toggled(
                old(state).rejected@,
                key@,
            ),
            _ => old(state).rejected@,
        }),
        final(state).show_unchanged == (old(state).show_unchanged != (event is ToggleUnchanged)),
        final(state).sort_col == (match event {
            BoardEvent::SortBy(col) => col,
            _ => old(state).sort_col,
        }),
        final(state).sort_asc == (match event {
            BoardEvent::SortBy(col) => col != old(state).sort_col || !old(state).sort_asc,
            _ => old(state).sort_asc,
        }),
        ({
            let pages = page_count(
                visible(old(rows)@, old(state).show_unchanged, old(rows)@.len() as int).len(),
            );
            final(state).page == match event {
                BoardEvent::ToggleUnchanged => 0,
                BoardEvent::SortBy(_) => 0,
                BoardEvent::PrevPage => if old(state).page > 0 {
                    old(state).page - 1
                } else {
                    0
                },
                BoardEvent::NextPage => if old(state).page + 1 < pages {
                    old(state).page + 1
                } else {
                    old(state).page as int
                },
                _ => old(state).page as int,
            }
        }),
        event matches BoardEvent::SortBy(col) ==> sorted_by(
            old(rows)@,
            final(rows)@,
            col,
            final(state).sort_asc,
        ),
        !(event is SortBy) ==> final(rows)@ == old(rows)@,
        (r is Some) == (event matches BoardEvent::Apply(key) && controls == RowControls::Enabled
            && !old(state).rejected@.contains(key@)),
        r matches Some(ReviewAction::Apply(key)) ==> event matches BoardEvent::Apply(k) && key@
            == k@,
{
    match event {
        BoardEvent::ToggleUnchanged => {
            state.show_unchanged = !state.show_unchanged;
            state.page = 0;
            None
        },
        BoardEvent::PrevPage => {
            if state.page > 0 {
                state.page = state.page - 1;
            }
            None
        },
        BoardEvent::NextPage => {
            let pages = pages_for(visible_rows(rows, state.show_unchanged).len());
            if state.page < pages - 1 {
                state.page = state.page + 1;
            }
            None
        },
        BoardEvent::ToggleReject(key) => {
            if controls == RowControls::Enabled {
                state.rejected.toggle(key);
            }
            None
        },
        BoardEvent::Apply(key) => if controls != RowControls::Enabled || state.rejected.has(&key) {
            None
        } else {
            Some(ReviewAction::Apply(key))
        },
        BoardEvent::SortBy(col) => {
            if state.sort_col == col {
                state.sort_asc = !state.sort_asc;
            } else {
                state.sort_col = col;
                state.sort_asc = true;
            }
            state.page = 0;
            sort(rows, state);
            None
        },
    }
}

/// Rows of the two sides have different keys, even with equal paths.
pub proof fn law_row_keys_never_collide(a: ReviewRow, b: ReviewRow)
    requires
        a.source_path@.len() > 0,
        b.source_path@.len() == 0,
    ensures
        a.key_model() != b.key_model(),
{
}

/// With unchanged rows shown, every row is visible, in order.
pub proof fn law_all_rows_are_visible_when_asked_for(rows: Seq<ReviewRow>, n: int)
    requires
        0 <= n <= rows.len(),
        n <= usize::MAX,
    ensures
        visible(rows, true, n).len() == n,
        forall|k: int| 0 <= k < n ==> #[trigger] visible(rows, true, n)[k] == k,
    decreases n,
{
    if n > 0 {
        law_all_rows_are_visible_when_asked_for(rows, n - 1);
    }
}

/// With unchanged rows hidden, a row is visible exactly where one of its sides
/// changes, and the visible rows stand in the order of the list.
pub proof fn law_unchanged_rows_are_hidden(rows: Seq<ReviewRow>, n: int)
    requires
        0 <= n <= rows.len(),
        n <= usize::MAX,
    ensures
        forall|k: int|
            0 <= k < n ==> (visible(rows, false, n).contains(k as usize) <==> !((
            #[trigger] rows[k]).source == SideStatus::Unchanged && rows[k].target
                == SideStatus::Unchanged)),
        forall|j: int|
            0 <= j < visible(rows, false, n).len() ==> #[trigger] visible(rows, false, n)[j] < n,
        forall|i: int, j: int|
            0 <= i < j < visible(rows, false, n).len() ==> #[trigger] visible(rows, false, n)[i]
                < #[trigger] visible(rows, false, n)[j],
    decreases n,
{
    if n > 0 {
        law_unchanged_rows_are_hidden(rows, n - 1);
        let rest = visible(rows, false, n - 1);
        let all = visible(rows, false, n);
        assert forall|k: int| 0 <= k < n implies (all.contains(k as usize) <==> !((
        #[trigger] rows[k]).source == SideStatus::Unchanged && rows[k].target
            == SideStatus::Unchanged)) by {
            if all.contains(k as usize) {
                let j = all.index_of(k as usize);
                if j < rest.len() {
                    assert(rest[j] == k as usize);
                    assert(rest[j] < n - 1);
                    assert(rest.contains(k as usize));
                }
            }
            if k < n - 1 && rest.contains(k as usize) {
                let j = rest.index_of(k as usize);
                assert(all[j] == k as usize);
            }
            if k == n - 1 && all.len() > rest.len() {
                assert(all[rest.len() as int] == k as usize);
            }
        }
    }
}

/// A line of the board shows the row that it stands for: its paths, its statuses,
/// and whether it was rejected.
pub proof fn law_a_line_shows_its_row(
    line: BoardLine,
    rows: Seq<ReviewRow>,
    at: usize,
    rejected: Set<KeyModel>,
    interactive: bool,
    two_sided: bool,
)
    requires
        is_line(line, rows, at, rejected, interactive, two_sided),
        at < rows.len(),
    ensures
        ({
            let row = rows[at as int];
            let out = interactive && rejected.contains(line.key@);
            &&& line.row == at
            &&& row.source_path@.len() > 0 ==> line.key@ == KeyModel::Source(row.source_path@)
            &&& row.source_path@.len() == 0 ==> line.key@ == KeyModel::Target(row.target_path@)
            &&& row.source != SideStatus::Absent && row.source_path@.len() > 0 ==> {
                &&& line.source matches Some(c)
                &&& c.path@ == row.source_path@
                &&& c.struck == out
            }
            &&& row.source == SideStatus::Absent || row.source_path@.len() == 0
                ==> line.source is None
            &&& two_sided ==> {
                &&& line.target matches Some((cell, status))
                &&& row.target != SideStatus::Absent && row.target_path@.len() > 0 ==> {
                    &&& cell matches Some(c)
                    &&& c.path@ == row.target_path@
                    &&& c.struck == out
                }
                &&& row.target == SideStatus::Absent || row.target_path@.len() == 0 ==> cell is None
                &&& row.target == SideStatus::Added ==> status.word@ == "ADDED"@
                &&& row.target == SideStatus::Removed ==> status.word@ == "REMOVED"@
                &&& row.target == SideStatus::Unchanged ==> status.word@ == "UNCHANGED"@
                &&& !out && row.target == SideStatus::Added ==> status.ink == Ink::Green
                &&& !out && row.target == SideStatus::Removed ==> status.ink == Ink::Red
            }
            &&& !two_sided ==> line.target is None
            &&& row.source == SideStatus::Added ==> line.source_status.word@ == "ADDED"@
            &&& row.source == SideStatus::Removed ==> line.source_status.word@ == "REMOVED"@
            &&& row.source == SideStatus::Unchanged ==> line.source_status.word@ == "UNCHANGED"@
            &&& !out && row.source == SideStatus::Removed ==> line.source_status.ink == Ink::Red
            &&& !out && row.source == SideStatus::Added ==> line.source_status.ink == Ink::Green
            &&& interactive && !(row.source == SideStatus::Unchanged && row.target
                == SideStatus::Unchanged) ==> {
                &&& line.buttons matches Some(b)
                &&& b.rejected == out
                &&& b.can_apply == !out
            }
            &&& !interactive ==> line.buttons is None
            &&& row.source == SideStatus::Unchanged && row.target == SideStatus::Unchanged
                ==> line.buttons is None
        }),
{
}

/// Pages hold [`PAGE_SIZE`] rows each and follow one another, and there is one page
/// at least.
pub proof fn law_pages_are_full_and_follow_one_another(shown: Seq<usize>, page: int, i: int)
    requires
        0 <= page < page_count(shown.len()),
        0 <= i < page_of(shown, page).len(),
    ensures
        page_of(shown, page)[i] == shown[page * PAGE_SIZE + i],
        page_of(shown, page).len() <= PAGE_SIZE,
        page + 1 < page_count(shown.len()) ==> page_of(shown, page).len() == PAGE_SIZE,
        page_count(shown.len()) >= 1,
{
}

/// What stands above the rows tells the truth of them: the counts, whether rows
/// were left out, which way the toggle goes, and where the pages end.
pub proof fn law_the_head_tells_the_counts(
    board: Board,
    state: ReviewState,
    n_rows: nat,
    shown: nat,
    view: BoardView,
)
    requires
        is_head(board, state, n_rows, shown, view),
    ensures
        board.count@ == dec(shown) + " rows"@,
        view.totals@[2] > 0 && !state.show_unchanged ==> (board.toggle matches Some(t) && t@
            == "SHOW UNCHANGED"@),
        view.totals@[2] > 0 && state.show_unchanged ==> (board.toggle matches Some(t) && t@
            == "HIDE UNCHANGED"@),
        view.totals@[2] == 0 ==> board.toggle is None,
        view.totals@[0] + view.totals@[1] + view.totals@[2] > n_rows ==> board.capped is Some,
        view.totals@[0] + view.totals@[1] + view.totals@[2] <= n_rows ==> board.capped is None,
        shown <= PAGE_SIZE ==> board.pager is None,
        shown > PAGE_SIZE ==> {
            &&& board.pager matches Some(p)
            &&& p.prev == (state.page > 0)
            &&& p.next == ((state.page + 1) * PAGE_SIZE < shown)
        },
        board.has_actions == (view.controls == RowControls::Enabled),
        board.columns@.len() == if view.target is Some {
            4int
        } else {
            2
        },
        board.columns@[1].0 == ReviewCol::Source && board.columns@[1].1@ == view.source_header@,
        view.target matches Some(t) ==> board.columns@[2].0 == ReviewCol::Target
            && board.columns@[2].1@ == t@,
{
    let hs = heads(board.columns@);
    assert(hs.len() == board.columns@.len());
    assert(hs[1] == (board.columns@[1].0, board.columns@[1].1@));
    if view.target is Some {
        assert(hs[2] == (board.columns@[2].0, board.columns@[2].1@));
    }
}

/// The summary counts each status under its own word, and says how many rows are
/// rejected; a status that does not occur is not spoken of.
pub proof fn law_the_summary_counts_each_status(totals: Seq<usize>, rejected: nat)
    requires
        totals.len() == 3,
    ensures
        ({
            let s = summary_texts(totals, rejected);
            let n = (if totals[0] > 0 {
                1int
            } else {
                0
            });
            let m = n + (if totals[1] > 0 {
                1int
            } else {
                0
            });
            let k = m + (if totals[2] > 0 {
                1int
            } else {
                0
            });
            &&& s.len() == k + (if rejected > 0 {
                1int
            } else {
                0
            })
            &&& totals[0] > 0 ==> s[0] == (
                icon::PLUS@ + " "@ + dec(totals[0] as nat) + " "@ + "added"@,
                Ink::Green,
            )
            &&& totals[1] > 0 ==> s[n] == (
                icon::TRASH@ + " "@ + dec(totals[1] as nat) + " "@ + "removed"@,
                Ink::Red,
            )
            &&& totals[2] > 0 ==> s[m] == (
                icon::CHECK@ + " "@ + dec(totals[2] as nat) + " "@ + "unchanged"@,
                Ink::Grey,
            )
            &&& rejected > 0 ==> s[k].0 == icon::X@ + " "@ + dec(rejected)
                + " rejected — RUN skips these"@
        }),
{
}

/// What a sort means: of two rows, the one that stands later never comes before the
/// other. By a status column the statuses ascend from added to absent, by a path
/// column the paths ascend, and a descending sort turns this around.
pub proof fn law_sorted_rows_ascend(
    rows: Seq<ReviewRow>,
    after: Seq<ReviewRow>,
    i: int,
    j: int,
)
    requires
        0 <= i < j < after.len(),
    ensures
        sorted_by(rows, after, ReviewCol::Source, true) ==> !before(
            lowercase(after[j].source_path@),
            lowercase(after[i].source_path@),
        ),
        sorted_by(rows, after, ReviewCol::Source, false) ==> !before(
            lowercase(after[i].source_path@),
            lowercase(after[j].source_path@),
        ),
        sorted_by(rows, after, ReviewCol::Target, true) ==> !before(
            lowercase(after[j].target_path@),
            lowercase(after[i].target_path@),
        ),
        sorted_by(rows, after, ReviewCol::Target, false) ==> !before(
            lowercase(after[i].target_path@),
            lowercase(after[j].target_path@),
        ),
        sorted_by(rows, after, ReviewCol::SourceStatus, true) ==> after[i].source.place()
            <= after[j].source.place(),
        sorted_by(rows, after, ReviewCol::SourceStatus, false) ==> after[i].source.place()
            >= after[j].source.place(),
        sorted_by(rows, after, ReviewCol::TargetStatus, true) ==> after[i].target.place()
            <= after[j].target.place(),
        sorted_by(rows, after, ReviewCol::TargetStatus, false) ==> after[i].target.place()
            >= after[j].target.place(),
        SideStatus::Added.place() < SideStatus::Removed.place() < SideStatus::Unchanged.place()
            < SideStatus::Absent.place(),
{
    lemma_sorted_pair(rows, after, ReviewCol::Source, true, i, j);
    lemma_sorted_pair(rows, after, ReviewCol::Source, false, i, j);
    lemma_sorted_pair(rows, after, ReviewCol::Target, true, i, j);
    lemma_sorted_pair(rows, after, ReviewCol::Target, false, i, j);
    lemma_sorted_pair(rows, after, ReviewCol::SourceStatus, true, i, j);
    lemma_sorted_pair(rows, after, ReviewCol::SourceStatus, false, i, j);
    lemma_sorted_pair(rows, after, ReviewCol::TargetStatus, true, i, j);
    lemma_sorted_pair(rows, after, ReviewCol::TargetStatus, false, i, j);
}

proof fn lemma_sorted_pair(
    rows: Seq<ReviewRow>,
    after: Seq<ReviewRow>,
    col: ReviewCol,
    asc: bool,
    i: int,
    j: int,
)
    requires
        0 <= i < j < after.len(),
    ensures
        sorted_by(rows, after, col, asc) ==> {
            let (a, b) = if asc {
                (after[i], after[j])
            } else {
                (after[j], after[i])
            };
            &&& !row_before(b, a, col)
            &&& sort_rank(a, col) <= sort_rank(b, col)
            &&& sort_rank(a, col) == sort_rank(b, col) ==> !before(
                sort_text(b, col),
                sort_text(a, col),
            )
            &&& sort_rank(a, col) == sort_rank(b, col) && sort_text(a, col) == sort_text(b, col)
                ==> !before(lowercase(b.source_path@), lowercase(a.source_path@))
        },
{
    if sorted_by(rows, after, col, asc) {
        let order = choose|order: Seq<usize>|
            {
                &&& fills(order, 0, rows.len() as int)
                &&& #[trigger] in_order(rows, col, asc, order)
                &&& after == picked(rows, order)
            };
        assert(ahead(rows, col, asc, order[i] as int, order[j] as int));
        let (a, b) = if asc {
            (after[i], after[j])
        } else {
            (after[j], after[i])
        };
        lemma_row_before(a, b, col);
        lemma_row_before(b, a, col);
    }
}

/// A rejected row is dimmed on both sides and offers to be taken back; one that is not
/// shows its status in the status's colour and offers to be rejected.
pub proof fn law_rejected_rows_are_dimmed(
    line: BoardLine,
    rows: Seq<ReviewRow>,
    at: usize,
    rejected: Set<KeyModel>,
    interactive: bool,
    two_sided: bool,
)
    requires
        is_line(line, rows, at, rejected, interactive, two_sided),
        at < rows.len(),
    ensures
        ({
            let row = rows[at as int];
            let out = interactive && rejected.contains(line.key@);
            &&& out ==> line.source_status.ink == Ink::Hairline
            &&& out ==> (line.source matches Some(c) ==> c.ink == Ink::Hairline && c.facts_ink
                == Ink::Hairline)
            &&& out ==> (line.target matches Some((cell, status)) ==> status.ink == Ink::Hairline
                && (cell matches Some(c) ==> c.ink == Ink::Hairline))
            &&& !out ==> (line.source matches Some(c) ==> c.facts_ink == Ink::Tan)
            &&& !out && row.source == SideStatus::Added ==> (line.source matches Some(c) ==> c.ink
                == Ink::Green)
            &&& !out && row.source == SideStatus::Removed ==> (line.source matches Some(c)
                ==> c.ink == Ink::Red)
            &&& line.buttons matches Some(b) ==> {
                &&& out ==> b.reject_ink == Ink::Black && b.reject_fill == Ink::Red
                    && b.reject_hover@ == "Restore this action (it runs again with RUN)"@
                &&& !out ==> b.reject_ink == Ink::Red && b.reject_fill == Ink::Panel
                    && b.reject_hover@ == "Reject this action — RUN will skip it"@
            }
        }),
{
}

/// Each status has its own glyph; what is added is green, what is removed red, and
/// everything else grey.
pub proof fn law_each_status_has_its_own_sign()
    ensures
        SideStatus::Added.glyph() == icon::PLUS@,
        SideStatus::Removed.glyph() == icon::TRASH@,
        SideStatus::Unchanged.glyph() == icon::CHECK@,
        SideStatus::Absent.glyph() == icon::X@,
        SideStatus::Added.ink() == Ink::Green,
        SideStatus::Removed.ink() == Ink::Red,
        SideStatus::Unchanged.ink() == Ink::Grey,
        SideStatus::Absent.ink() == Ink::Grey,
{
}

/// The line under a path gives the size, the extent, the time and, where it is known,
/// where the file came from.
pub proof fn law_facts_are_told_in_order(f: FileFacts, size: Seq<char>, mtime: Seq<char>)
    ensures
        ({
            let line = size + " · "@ + f.extent_text() + " · "@ + mtime;
            &&& f.origin is None ==> facts_text(f, size, mtime) == line
            &&& f.origin matches Some(o) ==> facts_text(f, size, mtime) == line + (" · from "@ + o@)
        }),
{
    let line = size + " · "@ + f.extent_text() + " · "@ + mtime;
    assert(line + Seq::<char>::empty() =~= line);
}

/// The two columns of the target are the ones on its side.
pub proof fn law_two_columns_are_on_the_target_side()
    ensures
        on_target(ReviewCol::Target),
        on_target(ReviewCol::TargetStatus),
        !on_target(ReviewCol::Source),
        !on_target(ReviewCol::SourceStatus),
{
}

/// The head tells which page is shown, of how many, and how much of the plan is.
pub proof fn law_the_head_tells_the_page(
    board: Board,
    state: ReviewState,
    n_rows: nat,
    shown: nat,
    view: BoardView,
)
    requires
        is_head(board, state, n_rows, shown, view),
    ensures
        board.pager matches Some(p) ==> p.label@ == "PAGE "@ + dec((state.page + 1) as nat)
            + " / "@ + dec(page_count(shown)),
        board.capped matches Some(t) ==> t@ == "showing the first "@ + dec(n_rows) + " of "@ + dec(
            (view.totals@[0] + view.totals@[1] + view.totals@[2]) as nat,
        ) + " — refine the filter to see the rest"@,
        board.columns@[0].0 == ReviewCol::SourceStatus && board.columns@[0].1@ == "STATUS"@,
        view.target is Some ==> board.columns@[3].0 == ReviewCol::TargetStatus
            && board.columns@[3].1@ == "STATUS"@,
        board.summary@.len() == summary_texts(view.totals@, state.rejected@.len()).len(),
        forall|i: int|
            0 <= i < board.summary@.len() ==> (#[trigger] board.summary@[i]).0@ == summary_texts(
                view.totals@,
                state.rejected@.len(),
            )[i].0 && board.summary@[i].1 == summary_texts(
                view.totals@,
                state.rejected@.len(),
            )[i].1,
{
    let hs = heads(board.columns@);
    assert(hs.len() == board.columns@.len());
    assert(hs[0] == (board.columns@[0].0, board.columns@[0].1@));
    if view.target is Some {
        assert(hs[3] == (board.columns@[3].0, board.columns@[3].1@));
    }
    let list = inked(board.summary@);
    assert(list.len() == board.summary@.len());
    assert forall|i: int| 0 <= i < board.summary@.len() implies (#[trigger] board.summary@[i]).0@
        == list[i].0 && board.summary@[i].1 == list[i].1 by {}
}

} // verus!
