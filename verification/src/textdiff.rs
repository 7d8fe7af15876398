//! The aligned, side-by-side diff of two documents' extracted text.
//!
//! Equal lines sit across from each other, a line present on only one side
//! leaves the other blank, and a line that changed shows both versions with the
//! differing characters marked. Rows follow the document's own line breaks: a
//! line-level longest common subsequence pairs equal lines, and a byte alignment
//! of the two versions does the highlighting within a changed pair.

use vstd::prelude::*;
use vstd::utf8::*;

use crate::align::{covers, truthful, Alignment, Segment, SegmentKind};
use crate::text::{lines, lines_of, views};
use crate::theme::Ink;

verus! {

broadcast use vstd::seq_lib::group_seq_properties;

/// Largest line table (`a_lines * b_lines`) paired exactly; past it the pairing
/// degrades to a positional one and says so. Bounds memory and time.
pub const LCS_BUDGET: usize = 4_000_000;

/// Ceiling on rendered rows, a guard on very large documents.
pub const MAX_ROWS: usize = 20_000;

/// How a run of characters relates across the two sides.
#[derive(Clone, Copy, PartialEq, Eq, Debug, Structural)]
pub enum Mark {
    /// Identical on both sides.
    Equal,
    /// Present on only one side: an inserted or removed run.
    Gap,
    /// Changed: both sides carry a differing run at this spot.
    Change,
}

/// A marked run of text within one side of one row.
pub struct Cell {
    pub text: String,
    pub mark: Mark,
}

/// One aligned row: the left side's cells and the right side's cells (either may
/// be empty, a blank), and whether this row differs at all.
pub struct Row {
    pub left: Vec<Cell>,
    pub right: Vec<Cell>,
    pub changed: bool,
}

/// A cell's text and mark.
pub type CellModel = (Seq<char>, Mark);

/// A row's cells and whether it differs.
#[verifier::ext_equal]
pub struct RowModel {
    pub left: Seq<CellModel>,
    pub right: Seq<CellModel>,
    pub changed: bool,
}

/// The texts and marks of a list of cells.
pub open spec fn cells_view(cells: Seq<Cell>) -> Seq<CellModel> {
    Seq::new(cells.len(), |i: int| (cells[i].text@, cells[i].mark))
}

impl View for Row {
    type V = RowModel;

    open spec fn view(&self) -> RowModel {
        RowModel {
            left: cells_view(self.left@),
            right: cells_view(self.right@),
            changed: self.changed,
        }
    }
}

/// The cells of each row of a list.
pub open spec fn rows_view(rows: Seq<Row>) -> Seq<RowModel> {
    Seq::new(rows.len(), |i: int| rows[i]@)
}

/// What one row shows: a pair of differing lines, a line of one side only, or a
/// line that both sides share. The numbers index the documents' lines.
#[derive(Clone, Copy, PartialEq, Eq, Debug, Structural)]
pub enum Step {
    Pair(usize, usize),
    LeftOnly(usize),
    RightOnly(usize),
    Same(usize, usize),
}

/// The rows that a diff of two documents will show, before any pair of changed
/// lines has been aligned.
pub struct RowPlan {
    pub left: Vec<String>,
    pub right: Vec<String>,
    pub steps: Vec<Step>,
    pub degraded: bool,
    pub truncated: bool,
}

/// A built, side-by-side aligned diff of two documents' extracted text.
pub struct TextDiff {
    pub rows: Vec<Row>,
    /// The line pairing degraded to a positional match (document too large).
    pub degraded: bool,
    /// The document had more rows than [`MAX_ROWS`] and was cut.
    pub truncated: bool,
}

/// Lines of a document.
pub type Lines = Seq<Seq<char>>;

/// The length of the longest common subsequence of `a[i..]` and `b[j..]`.
pub open spec fn lcs_len(a: Lines, b: Lines, i: int, j: int) -> nat
    decreases a.len() - i, b.len() - j,
{
    if i < 0 || j < 0 || i >= a.len() || j >= b.len() {
        0
    } else if a[i] == b[j] {
        1 + lcs_len(a, b, i + 1, j + 1)
    } else {
        let x = lcs_len(a, b, i + 1, j);
        let y = lcs_len(a, b, i, j + 1);
        if x >= y {
            x
        } else {
            y
        }
    }
}

/// The pairs of equal lines that the walk through `a[i..]` and `b[j..]` takes:
/// equal lines pair up, and otherwise the side whose rest promises the longer
/// subsequence is kept, the right one where they promise the same.
pub open spec fn lcs_pairs(a: Lines, b: Lines, i: int, j: int) -> Seq<(int, int)>
    decreases a.len() - i, b.len() - j,
{
    if i < 0 || j < 0 || i >= a.len() || j >= b.len() {
        Seq::empty()
    } else if a[i] == b[j] {
        seq![(i, j)] + lcs_pairs(a, b, i + 1, j + 1)
    } else if lcs_len(a, b, i + 1, j) >= lcs_len(a, b, i, j + 1) {
        lcs_pairs(a, b, i + 1, j)
    } else {
        lcs_pairs(a, b, i, j + 1)
    }
}

/// The pairs `(i, i)` of lines that are equal at the same index, from `i` on.
pub open spec fn index_pairs(a: Lines, b: Lines, i: int) -> Seq<(int, int)>
    decreases a.len() - i,
{
    if i < 0 || i >= a.len() || i >= b.len() {
        Seq::empty()
    } else if a[i] == b[i] {
        seq![(i, i)] + index_pairs(a, b, i + 1)
    } else {
        index_pairs(a, b, i + 1)
    }
}

/// Pairs of equal lines, ascending on both sides: a common subsequence of
/// `a[i..]` and `b[j..]`.
pub open spec fn common(a: Lines, b: Lines, ps: Seq<(int, int)>, i: int, j: int) -> bool {
    &&& forall|k: int|
        0 <= k < ps.len() ==> {
            &&& i <= (#[trigger] ps[k]).0 < a.len()
            &&& j <= ps[k].1 < b.len()
            &&& a[ps[k].0] == b[ps[k].1]
        }
    &&& forall|k: int, l: int|
        0 <= k < l < ps.len() ==> #[trigger] ps[k].0 < #[trigger] ps[l].0 && ps[k].1 < ps[l].1
}

/// A list of index pairs as mathematical integers.
pub open spec fn pairs_view(ps: Seq<(usize, usize)>) -> Seq<(int, int)> {
    Seq::new(ps.len(), |k: int| (ps[k].0 as int, ps[k].1 as int))
}

/// The rows of an unmatched block `a[ai..mi]`, `b[bj..mj]`: lines pair up by
/// position, and the surplus of the longer side stands alone.
pub open spec fn block(ai: int, mi: int, bj: int, mj: int) -> Seq<Step> {
    let p = mi - ai;
    let q = mj - bj;
    Seq::new(
        (if p >= q {
            p
        } else {
            q
        }) as nat,
        |k: int|
            if k < p && k < q {
                Step::Pair((ai + k) as usize, (bj + k) as usize)
            } else if k < p {
                Step::LeftOnly((ai + k) as usize)
            } else {
                Step::RightOnly((bj + k) as usize)
            },
    )
}

/// The `k`-th stop of the walk over the matches: a pair of equal lines, or past
/// the last one the ends of both documents.
pub open spec fn stop(ms: Seq<(int, int)>, k: int, n: int, m: int) -> (int, int) {
    if k < ms.len() {
        ms[k]
    } else {
        (n, m)
    }
}

/// The rows planned so far, `acc`, with those up to a stop and the stop's own
/// shared line, if it is one.
pub open spec fn after_stop(n: int, acc: Seq<Step>, ai: int, mi: int, bj: int, mj: int) -> Seq<
    Step,
> {
    let unmatched = acc + block(ai, mi, bj, mj);
    if mi < n {
        unmatched.push(Step::Same(mi as usize, mj as usize))
    } else {
        unmatched
    }
}

/// The rows planned so far, `acc`, and those of the matches from `k` on, for
/// documents of `n` and `m` lines read up to `ai` and `bj`; with whether the plan
/// was cut at [`MAX_ROWS`].
pub open spec fn plan_from(
    n: int,
    m: int,
    ms: Seq<(int, int)>,
    k: int,
    ai: int,
    bj: int,
    acc: Seq<Step>,
) -> (Seq<Step>, bool)
    decreases ms.len() + 1 - k,
{
    if k < 0 || k > ms.len() {
        (acc, false)
    } else {
        let (mi, mj) = stop(ms, k, n, m);
        let next = after_stop(n, acc, ai, mi, bj, mj);
        if next.len() > MAX_ROWS {
            (next.take(MAX_ROWS as int), true)
        } else {
            plan_from(n, m, ms, k + 1, mi + 1, mj + 1, next)
        }
    }
}

/// The pairing of two documents is too large to be exact.
pub open spec fn too_large(a: Lines, b: Lines) -> bool {
    a.len() * b.len() > LCS_BUDGET
}

/// The equal lines that the diff of two documents pairs up.
pub open spec fn matched(a: Lines, b: Lines) -> Seq<(int, int)> {
    if too_large(a, b) {
        index_pairs(a, b, 0)
    } else {
        lcs_pairs(a, b, 0, 0)
    }
}

/// The rows that the diff of two documents shows, and whether they were cut.
pub open spec fn plan(a: Lines, b: Lines) -> (Seq<Step>, bool) {
    plan_from(a.len() as int, b.len() as int, matched(a, b), 0, 0, 0, Seq::empty())
}

/// How many of the steps are pairs of differing lines.
pub open spec fn pair_count(steps: Seq<Step>) -> nat
    decreases steps.len(),
{
    if steps.len() == 0 {
        0
    } else {
        pair_count(steps.drop_last()) + if steps.last() is Pair {
            1nat
        } else {
            0nat
        }
    }
}

/// The differing lines of the pairs among the steps, in order.
pub open spec fn pair_lines(a: Lines, b: Lines, steps: Seq<Step>) -> Seq<(Seq<char>, Seq<char>)>
    decreases steps.len(),
{
    if steps.len() == 0 {
        Seq::empty()
    } else {
        let rest = pair_lines(a, b, steps.drop_last());
        match steps.last() {
            Step::Pair(i, j) => rest.push((a[i as int], b[j as int])),
            _ => rest,
        }
    }
}

/// The text of a byte sequence in which malformed parts were replaced.
pub uninterp spec fn lossy_text(bytes: Seq<u8>) -> Seq<char>;

/// `String::from_utf8_lossy` of the standard library. Trusted to be a function
/// of the bytes that decodes well-formed UTF-8 as it stands, and to give no text
/// for no bytes and some text for any. What replaces a malformed part is not
/// stated.
#[verifier::external_body]
fn from_utf8_lossy(bytes: &[u8]) -> (r: String)
    ensures
        r@ == lossy_text(bytes@),
        valid_utf8(bytes@) ==> r@ == decode_utf8(bytes@),
        (r@.len() == 0) == (bytes@.len() == 0),
{
    String::from_utf8_lossy(bytes).into_owned()
}

/// What is known of the text of a stretch of bytes: well-formed UTF-8 is decoded
/// as it stands, and only no bytes give no text.
pub open spec fn stretch_decodes(bytes: Seq<u8>) -> bool {
    &&& valid_utf8(bytes) ==> lossy_text(bytes) == decode_utf8(bytes)
    &&& (lossy_text(bytes).len() == 0) == (bytes.len() == 0)
}

/// A segment's stretch of the first stream.
pub open spec fn a_stretch(x: Seq<u8>, s: Segment) -> Seq<u8> {
    x.subrange(s.a_start as int, s.a_end as int)
}

/// A segment's stretch of the second stream.
pub open spec fn b_stretch(y: Seq<u8>, s: Segment) -> Seq<u8> {
    y.subrange(s.b_start as int, s.b_end as int)
}

/// The stretches of every segment decode.
pub open spec fn stretches_decode(x: Seq<u8>, y: Seq<u8>, segments: Seq<Segment>) -> bool {
    forall|k: int|
        0 <= k < segments.len() ==> stretch_decodes(a_stretch(x, #[trigger] segments[k]))
            && stretch_decodes(b_stretch(y, segments[k]))
}

/// The left cell that a segment of two aligned lines gives, if any.
pub open spec fn left_cell(x: Seq<u8>, y: Seq<u8>, s: Segment) -> Seq<CellModel> {
    if s.a_start < s.a_end {
        seq![
            (lossy_text(a_stretch(x, s)), segment_mark(s)),
        ]
    } else {
        Seq::empty()
    }
}

/// The right cell that a segment of two aligned lines gives, if any.
pub open spec fn right_cell(x: Seq<u8>, y: Seq<u8>, s: Segment) -> Seq<CellModel> {
    if s.b_start < s.b_end {
        seq![
            (lossy_text(b_stretch(y, s)), segment_mark(s)),
        ]
    } else {
        Seq::empty()
    }
}

/// Equal segments are plain; a differing one is a change where both sides carry
/// text and a gap where one does.
pub open spec fn segment_mark(s: Segment) -> Mark {
    if s.kind == SegmentKind::Equal {
        Mark::Equal
    } else if s.a_start < s.a_end && s.b_start < s.b_end {
        Mark::Change
    } else {
        Mark::Gap
    }
}

/// The left cells of a list of segments.
pub open spec fn left_cells(x: Seq<u8>, y: Seq<u8>, segments: Seq<Segment>) -> Seq<CellModel>
    decreases segments.len(),
{
    if segments.len() == 0 {
        Seq::empty()
    } else {
        left_cells(x, y, segments.drop_last()) + left_cell(x, y, segments.last())
    }
}

/// The right cells of a list of segments.
pub open spec fn right_cells(x: Seq<u8>, y: Seq<u8>, segments: Seq<Segment>) -> Seq<CellModel>
    decreases segments.len(),
{
    if segments.len() == 0 {
        Seq::empty()
    } else {
        right_cells(x, y, segments.drop_last()) + right_cell(x, y, segments.last())
    }
}

/// The row of two differing lines, given their alignment.
pub open spec fn pair_row(a: Seq<char>, b: Seq<char>, segments: Seq<Segment>) -> RowModel {
    RowModel {
        left: left_cells(encode_utf8(a), encode_utf8(b), segments),
        right: right_cells(encode_utf8(a), encode_utf8(b), segments),
        changed: true,
    }
}

/// The row of one step; a pair takes the alignment at `k`.
pub open spec fn step_row(a: Lines, b: Lines, step: Step, als: Seq<Alignment>, k: int) -> RowModel {
    match step {
        Step::Pair(i, j) => pair_row(a[i as int], b[j as int], als[k].segments@),
        Step::LeftOnly(i) => RowModel {
            left: seq![(a[i as int], Mark::Gap)],
            right: Seq::empty(),
            changed: true,
        },
        Step::RightOnly(j) => RowModel {
            left: Seq::empty(),
            right: seq![(b[j as int], Mark::Gap)],
            changed: true,
        },
        Step::Same(i, j) => RowModel {
            left: seq![(a[i as int], Mark::Equal)],
            right: seq![(b[j as int], Mark::Equal)],
            changed: false,
        },
    }
}

/// The rows of a list of steps; the pairs take the alignments in order.
pub open spec fn step_rows(a: Lines, b: Lines, steps: Seq<Step>, als: Seq<Alignment>) -> Seq<
    RowModel,
>
    decreases steps.len(),
{
    if steps.len() == 0 {
        Seq::empty()
    } else {
        let rest = steps.drop_last();
        step_rows(a, b, rest, als).push(
            step_row(a, b, steps.last(), als, pair_count(rest) as int),
        )
    }
}

/// There is one alignment per pair of differing lines, each of that pair's bytes.
pub open spec fn alignments_fit(
    pairs: Seq<(Seq<char>, Seq<char>)>,
    als: Seq<Alignment>,
) -> bool {
    &&& als.len() == pairs.len()
    &&& forall|k: int|
        0 <= k < pairs.len() ==> (#[trigger] als[k]).fits(
            encode_utf8(pairs[k].0).len(),
            encode_utf8(pairs[k].1).len(),
        )
}

/// The stretches of every aligned pair of lines decode.
pub open spec fn pairs_decode(pairs: Seq<(Seq<char>, Seq<char>)>, als: Seq<Alignment>) -> bool {
    forall|k: int|
        0 <= k < pairs.len() ==> stretches_decode(
            encode_utf8(pairs[k].0),
            encode_utf8(pairs[k].1),
            (#[trigger] als[k]).segments@,
        )
}

proof fn lemma_lcs_bound(a: Lines, b: Lines, i: int, j: int)
    requires
        0 <= i <= a.len(),
        0 <= j <= b.len(),
    ensures
        lcs_len(a, b, i, j) <= a.len() - i,
    decreases a.len() - i, b.len() - j,
{
    if i < a.len() && j < b.len() {
        if a[i] == b[j] {
            lemma_lcs_bound(a, b, i + 1, j + 1);
        } else {
            lemma_lcs_bound(a, b, i + 1, j);
            lemma_lcs_bound(a, b, i, j + 1);
        }
    }
}

/// One row of the table, from the back: entry `k` is the length for `b[m-k..]`.
spec fn table_row(a: Lines, b: Lines, i: int, row: Seq<usize>) -> bool {
    &&& row.len() == b.len() + 1
    &&& forall|k: int|
        0 <= k <= b.len() ==> #[trigger] row[k] == lcs_len(a, b, i, b.len() - k)
}

/// The equal-line pairs of a longest common subsequence: the longest run of
/// lines that appear, in order, in both documents.
pub fn lcs_line_matches(la: &Vec<String>, lb: &Vec<String>) -> (r: Vec<(usize, usize)>)
    ensures
        pairs_view(r@) == lcs_pairs(views(la@), views(lb@), 0, 0),
        common(views(la@), views(lb@), pairs_view(r@), 0, 0),
        r@.len() == lcs_len(views(la@), views(lb@), 0, 0),
{
    let n = la.len();
    let m = lb.len();
    let ghost a = views(la@);
    let ghost b = views(lb@);
    // `table[n - i][m - j]` is the length for `a[i..]` and `b[j..]`.
    let mut table: Vec<Vec<usize>> = Vec::new();
    let mut base: Vec<usize> = Vec::new();
    let mut k: usize = 0;
    loop
        invariant_except_break
            k <= m,
            m == b.len(),
            n == a.len(),
            base@.len() == k,
            forall|l: int| 0 <= l < k ==> #[trigger] base@[l] == 0,
        ensures
            base@.len() == m + 1,
            forall|l: int| 0 <= l <= m ==> #[trigger] base@[l] == 0,
        decreases m - k,
    {
        base.push(0);
        if k == m {
            break;
        }
        k += 1;
    }
    table.push(base);
    assert(table_row(a, b, n as int, table@[0]@));
    let mut i: usize = n;
    while i > 0
        invariant
            i <= n,
            n == la@.len(),
            m == lb@.len(),
            a == views(la@),
            b == views(lb@),
            table@.len() == n - i + 1,
            forall|t: int| i <= t <= n ==> table_row(a, b, t, #[trigger] table@[n - t]@),
        decreases i,
    {
        i -= 1;
        let mut row: Vec<usize> = Vec::new();
        row.push(0);
        let mut j: usize = m;
        while j > 0
            invariant
                i < n,
                j <= m,
                n == la@.len(),
                m == lb@.len(),
                a == views(la@),
                b == views(lb@),
                table@.len() == n - i,
                table_row(a, b, i + 1, table@[n - i - 1]@),
                row@.len() == m - j + 1,
                forall|k: int|
                    0 <= k <= m - j ==> #[trigger] row@[k] == lcs_len(a, b, i as int, m - k),
            decreases j,
        {
            j -= 1;
            let below = &table[n - i - 1];
            let v: usize = if la[i] == lb[j] {
                proof {
                    lemma_lcs_bound(a, b, i + 1, j + 1);
                    assert(a[i as int] == b[j as int]);
                    assert(below@[m - j - 1] == lcs_len(a, b, i + 1, m - (m - j - 1)));
                }
                below[m - j - 1] + 1
            } else {
                let x: usize = below[m - j];
                let y: usize = row[m - j - 1];
                proof {
                    assert(a[i as int] != b[j as int]);
                    assert(x == lcs_len(a, b, i + 1, m - (m - j)));
                    assert(y == lcs_len(a, b, i as int, m - (m - j - 1)));
                }
                if x >= y {
                    x
                } else {
                    y
                }
            };
            let ghost before = row@;
            row.push(v);
            assert(v == lcs_len(a, b, i as int, j as int));
            assert forall|k: int| 0 <= k <= m - j implies #[trigger] row@[k] == lcs_len(
                a,
                b,
                i as int,
                m - k,
            ) by {
                if k < m - j {
                    assert(row@[k] == before[k]);
                }
            }
        }
        let ghost old_table = table@;
        table.push(row);
        assert forall|t: int| i <= t <= n implies table_row(a, b, t, #[trigger] table@[n - t]@) by {
            if t > i {
                assert(table@[n - t] == old_table[n - t]);
            }
        }
    }
    let mut out: Vec<(usize, usize)> = Vec::new();
    let mut p: usize = 0;
    let mut q: usize = 0;
    assert(pairs_view(out@) + lcs_pairs(a, b, 0, 0) =~= lcs_pairs(a, b, 0, 0));
    while p < n && q < m
        invariant
            p <= n,
            q <= m,
            n == la@.len(),
            m == lb@.len(),
            a == views(la@),
            b == views(lb@),
            table@.len() == n + 1,
            forall|t: int| 0 <= t <= n ==> table_row(a, b, t, #[trigger] table@[n - t]@),
            pairs_view(out@) + lcs_pairs(a, b, p as int, q as int) == lcs_pairs(a, b, 0, 0),
        decreases n - p + m - q,
    {
        if la[p] == lb[q] {
            let ghost before = out@;
            out.push((p, q));
            proof {
                assert(a[p as int] == b[q as int]);
                assert(pairs_view(out@) =~= pairs_view(before).push((p as int, q as int)));
                assert(pairs_view(out@) + lcs_pairs(a, b, p + 1, q + 1) =~= pairs_view(before) + (
                seq![(p as int, q as int)] + lcs_pairs(a, b, p + 1, q + 1)));
            }
            p += 1;
            q += 1;
        } else {
            proof {
                assert(a[p as int] != b[q as int]);
                assert(table_row(a, b, p + 1, table@[n - (p + 1)]@));
                assert(table_row(a, b, p as int, table@[n - p]@));
                assert(table@[n - (p + 1)]@[m - q] == lcs_len(a, b, p + 1, m - (m - q)));
                assert(table@[n - p]@[m - (q + 1)] == lcs_len(a, b, p as int, m - (m - (q + 1))));
            }
            if table[n - (p + 1)][m - q] >= table[n - p][m - (q + 1)] {
                p += 1;
            } else {
                q += 1;
            }
        }
    }
    proof {
        assert(lcs_pairs(a, b, p as int, q as int) == Seq::<(int, int)>::empty());
        assert(pairs_view(out@) + Seq::<(int, int)>::empty() =~= pairs_view(out@));
        lemma_lcs_pairs(a, b, 0, 0);
    }
    out
}

proof fn lemma_lcs_pairs(a: Lines, b: Lines, i: int, j: int)
    requires
        0 <= i <= a.len(),
        0 <= j <= b.len(),
    ensures
        common(a, b, lcs_pairs(a, b, i, j), i, j),
        lcs_pairs(a, b, i, j).len() == lcs_len(a, b, i, j),
    decreases a.len() - i, b.len() - j,
{
    if i < a.len() && j < b.len() {
        if a[i] == b[j] {
            lemma_lcs_pairs(a, b, i + 1, j + 1);
            let rest = lcs_pairs(a, b, i + 1, j + 1);
            let all = lcs_pairs(a, b, i, j);
            assert forall|k: int| 0 <= k < all.len() implies {
                &&& i <= (#[trigger] all[k]).0 < a.len()
                &&& j <= all[k].1 < b.len()
                &&& a[all[k].0] == b[all[k].1]
            } by {
                if k > 0 {
                    assert(all[k] == rest[k - 1]);
                }
            }
            assert forall|k: int, l: int| 0 <= k < l < all.len() implies #[trigger] all[k].0
                < #[trigger] all[l].0 && all[k].1 < all[l].1 by {
                assert(all[l] == rest[l - 1]);
                if k > 0 {
                    assert(all[k] == rest[k - 1]);
                }
            }
        } else {
            lemma_lcs_pairs(a, b, i + 1, j);
            lemma_lcs_pairs(a, b, i, j + 1);
        }
    }
}

/// The pairing is the longest there is: no common subsequence of the two
/// documents' lines has more pairs than the one taken.
pub proof fn law_pairing_is_longest(a: Lines, b: Lines, other: Seq<(int, int)>)
    requires
        common(a, b, other, 0, 0),
    ensures
        other.len() <= lcs_pairs(a, b, 0, 0).len(),
        common(a, b, lcs_pairs(a, b, 0, 0), 0, 0),
{
    lemma_longest(a, b, other, 0, 0);
    lemma_lcs_pairs(a, b, 0, 0);
}

proof fn lemma_longest(a: Lines, b: Lines, ps: Seq<(int, int)>, i: int, j: int)
    requires
        0 <= i <= a.len(),
        0 <= j <= b.len(),
        common(a, b, ps, i, j),
    ensures
        ps.len() <= lcs_len(a, b, i, j),
    decreases a.len() - i, b.len() - j,
{
    if ps.len() > 0 {
        let first = ps[0];
        assert(i <= first.0 < a.len());
        if a[i] == b[j] {
            let rest = ps.drop_first();
            assert forall|k: int| 0 <= k < rest.len() implies {
                &&& i + 1 <= (#[trigger] rest[k]).0 < a.len()
                &&& j + 1 <= rest[k].1 < b.len()
                &&& a[rest[k].0] == b[rest[k].1]
            } by {
                assert(rest[k] == ps[k + 1]);
                assert(ps[0].0 < ps[k + 1].0);
            }
            assert forall|k: int, l: int| 0 <= k < l < rest.len() implies #[trigger] rest[k].0
                < #[trigger] rest[l].0 && rest[k].1 < rest[l].1 by {
                assert(rest[k] == ps[k + 1]);
                assert(rest[l] == ps[l + 1]);
            }
            lemma_longest(a, b, rest, i + 1, j + 1);
        } else if first.0 > i {
            assert forall|k: int| 0 <= k < ps.len() implies (#[trigger] ps[k]).0 >= i + 1 by {
                if k > 0 {
                    assert(ps[0].0 < ps[k].0);
                }
            }
            lemma_longest(a, b, ps, i + 1, j);
        } else {
            assert(first.1 > j);
            assert forall|k: int| 0 <= k < ps.len() implies (#[trigger] ps[k]).1 >= j + 1 by {
                if k > 0 {
                    assert(ps[0].0 < ps[k].0);
                }
            }
            lemma_longest(a, b, ps, i, j + 1);
        }
    }
}

/// Degraded pairing for a document too large for the exact one: lines that
/// happen to be equal at the same index, nothing more.
pub fn positional_matches(la: &Vec<String>, lb: &Vec<String>) -> (r: Vec<(usize, usize)>)
    ensures
        pairs_view(r@) == index_pairs(views(la@), views(lb@), 0),
        common(views(la@), views(lb@), pairs_view(r@), 0, 0),
{
    let ghost a = views(la@);
    let ghost b = views(lb@);
    let mut out: Vec<(usize, usize)> = Vec::new();
    let mut i: usize = 0;
    assert(pairs_view(out@) + index_pairs(a, b, 0) =~= index_pairs(a, b, 0));
    while i < la.len() && i < lb.len()
        invariant
            i <= la@.len(),
            i <= lb@.len(),
            a == views(la@),
            b == views(lb@),
            pairs_view(out@) + index_pairs(a, b, i as int) == index_pairs(a, b, 0),
            forall|k: int|
                0 <= k < out@.len() ==> (#[trigger] out@[k]).0 < i && out@[k].0 == out@[k].1
                    && a[out@[k].0 as int] == b[out@[k].1 as int],
            forall|k: int, l: int|
                0 <= k < l < out@.len() ==> #[trigger] out@[k].0 < #[trigger] out@[l].0,
        decreases la@.len() - i,
    {
        if la[i] == lb[i] {
            let ghost before = out@;
            out.push((i, i));
            proof {
                assert(a[i as int] == b[i as int]);
                assert(pairs_view(out@) =~= pairs_view(before).push((i as int, i as int)));
                assert(pairs_view(out@) + index_pairs(a, b, i + 1) =~= pairs_view(before) + (seq![
                    (i as int, i as int),
                ] + index_pairs(a, b, i + 1)));
            }
        } else {
            assert(a[i as int] != b[i as int]);
        }
        i += 1;
    }
    assert(pairs_view(out@) + Seq::<(int, int)>::empty() =~= pairs_view(out@));
    out
}

/// Emits the rows of a changed block, a run of unmatched lines on each side.
pub fn emit_changed_block(steps: &mut Vec<Step>, ai: usize, mi: usize, bj: usize, mj: usize)
    requires
        ai <= mi,
        bj <= mj,
    ensures
        final(steps)@ == old(steps)@ + block(ai as int, mi as int, bj as int, mj as int),
{
    let ghost start = steps@;
    let ghost all = block(ai as int, mi as int, bj as int, mj as int);
    let p: usize = mi - ai;
    let q: usize = mj - bj;
    let n: usize = if p >= q {
        p
    } else {
        q
    };
    let mut k: usize = 0;
    while k < n
        invariant
            k <= n,
            p == mi - ai,
            q == mj - bj,
            n == if p >= q {
                p
            } else {
                q
            },
            all == block(ai as int, mi as int, bj as int, mj as int),
            steps@ == start + all.take(k as int),
        decreases n - k,
    {
        let step = if k < p && k < q {
            Step::Pair(ai + k, bj + k)
        } else if k < p {
            Step::LeftOnly(ai + k)
        } else {
            Step::RightOnly(bj + k)
        };
        assert(step == all[k as int]);
        steps.push(step);
        k += 1;
        assert(steps@ =~= start + all.take(k as int));
    }
    assert(all.take(n as int) == all);
}

/// Emits the rows up to a stop of the walk, and the shared line at it.
fn emit_stop(steps: &mut Vec<Step>, n: usize, ai: usize, mi: usize, bj: usize, mj: usize)
    requires
        ai <= mi,
        bj <= mj,
    ensures
        final(steps)@ == after_stop(
            n as int,
            old(steps)@,
            ai as int,
            mi as int,
            bj as int,
            mj as int,
        ),
{
    emit_changed_block(steps, ai, mi, bj, mj);
    if mi < n {
        steps.push(Step::Same(mi, mj));
    }
}

/// The line number of `s` is in range.
pub open spec fn step_in(s: Step, n: int, m: int) -> bool {
    match s {
        Step::Pair(i, j) => i < n && j < m,
        Step::LeftOnly(i) => i < n,
        Step::RightOnly(j) => j < m,
        Step::Same(i, j) => i < n && j < m,
    }
}

/// The line numbers of every step are in range.
pub open spec fn steps_in(steps: Seq<Step>, n: int, m: int) -> bool {
    forall|k: int| 0 <= k < steps.len() ==> step_in(#[trigger] steps[k], n, m)
}

impl RowPlan {
    /// Every step speaks of lines that the documents have.
    pub open spec fn wf(&self) -> bool {
        steps_in(self.steps@, self.left@.len() as int, self.right@.len() as int)
    }

    /// Pairs up the lines of two documents.
    pub fn new(a: &str, b: &str) -> (r: Self)
        ensures
            r.wf(),
            views(r.left@) == lines(a@),
            views(r.right@) == lines(b@),
            r.degraded == too_large(lines(a@), lines(b@)),
            (r.steps@, r.truncated) == plan(lines(a@), lines(b@)),
    {
        let left = lines_of(a);
        let right = lines_of(b);
        let n = left.len();
        let m = right.len();
        let ghost la = views(left@);
        let ghost lb = views(right@);
        let degraded = match n.checked_mul(m) {
            Some(cells) => cells > LCS_BUDGET,
            None => true,
        };
        let matches = if degraded {
            positional_matches(&left, &right)
        } else {
            lcs_line_matches(&left, &right)
        };
        let ghost ms = pairs_view(matches@);
        let mut steps: Vec<Step> = Vec::new();
        let mut truncated = false;
        let mut ai: usize = 0;
        let mut bj: usize = 0;
        let mut k: usize = 0;
        let mut done = false;
        let ghost whole = plan_from(n as int, m as int, ms, 0, 0, 0, Seq::empty());
        while !done
            invariant
                la.len() == n,
                lb.len() == m,
                ms == pairs_view(matches@),
                common(la, lb, ms, 0, 0),
                k <= matches@.len(),
                ai <= n,
                bj <= m,
                k > 0 ==> ai == ms[k - 1].0 + 1 && bj == ms[k - 1].1 + 1,
                k == 0 ==> ai == 0 && bj == 0,
                !done ==> !truncated && plan_from(
                    n as int,
                    m as int,
                    ms,
                    k as int,
                    ai as int,
                    bj as int,
                    steps@,
                ) == whole,
                done ==> (steps@, truncated) == whole,
            decreases
                matches@.len() - k,
                if done {
                    0int
                } else {
                    1int
                },
        {
            let at_end = k == matches.len();
            let (mi, mj): (usize, usize) = if at_end {
                (n, m)
            } else {
                matches[k]
            };
            proof {
                assert((mi as int, mj as int) == stop(ms, k as int, n as int, m as int));
                if !at_end {
                    assert(ms[k as int].0 < n);
                    if k > 0 {
                        assert(ms[k - 1].0 < ms[k as int].0);
                    }
                }
            }
            emit_stop(&mut steps, n, ai, mi, bj, mj);
            if steps.len() > MAX_ROWS {
                steps.truncate(MAX_ROWS);
                truncated = true;
                done = true;
            } else if at_end {
                assert(plan_from(n as int, m as int, ms, k + 1, mi + 1, mj + 1, steps@) == (
                    steps@,
                    false,
                ));
                done = true;
            } else {
                ai = mi + 1;
                bj = mj + 1;
                k += 1;
            }
        }
        proof {
            lemma_plan_in_range(la, lb, ms, 0, 0, 0, Seq::empty());
        }
        RowPlan { left, right, steps, degraded, truncated }
    }

    /// The pairs of differing lines, in order: what has to be aligned.
    pub fn pairs(&self) -> (r: Vec<(String, String)>)
        requires
            self.wf(),
        ensures
            pair_texts(r@) == pair_lines(views(self.left@), views(self.right@), self.steps@),
    {
        let mut out: Vec<(String, String)> = Vec::new();
        let ghost a = views(self.left@);
        let ghost b = views(self.right@);
        let mut k: usize = 0;
        assert(pair_texts(out@) =~= Seq::<(Seq<char>, Seq<char>)>::empty());
        while k < self.steps.len()
            invariant
                k <= self.steps@.len(),
                self.wf(),
                a == views(self.left@),
                b == views(self.right@),
                pair_texts(out@) == pair_lines(a, b, self.steps@.take(k as int)),
            decreases self.steps@.len() - k,
        {
            assert(self.steps@.take(k + 1).drop_last() == self.steps@.take(k as int));
            assert(step_in(self.steps@[k as int], a.len() as int, b.len() as int));
            let ghost before = out@;
            if let Step::Pair(i, j) = self.steps[k] {
                let x = self.left[i].clone();
                let y = self.right[j].clone();
                out.push((x, y));
                assert(pair_texts(out@) =~= pair_texts(before).push((x@, y@)));
            }
            k += 1;
        }
        assert(self.steps@.take(k as int) == self.steps@);
        out
    }
}

/// The characters of each pair of strings.
pub open spec fn pair_texts(ps: Seq<(String, String)>) -> Seq<(Seq<char>, Seq<char>)> {
    Seq::new(ps.len(), |k: int| (ps[k].0@, ps[k].1@))
}

/// One cell that shows a whole line.
fn line_cell(line: &String, mark: Mark) -> (r: Vec<Cell>)
    ensures
        cells_view(r@) == seq![(line@, mark)],
{
    let mut cells: Vec<Cell> = Vec::new();
    cells.push(Cell { text: line.clone(), mark });
    assert(cells_view(cells@) =~= seq![(line@, mark)]);
    cells
}

/// The row of two differing lines: the shared parts stay plain, the differing
/// characters are marked changed, or a gap where only one side has any.
pub fn changed_pair(a: &str, b: &str, alignment: &Alignment) -> (r: Row)
    requires
        alignment.fits(encode_utf8(a@).len(), encode_utf8(b@).len()),
    ensures
        r@ == pair_row(a@, b@, alignment.segments@),
        stretches_decode(encode_utf8(a@), encode_utf8(b@), alignment.segments@),
{
    let x = a.as_bytes();
    let y = b.as_bytes();
    let mut left: Vec<Cell> = Vec::new();
    let mut right: Vec<Cell> = Vec::new();
    let ghost segs = alignment.segments@;
    assert(cells_view(left@) =~= Seq::<CellModel>::empty());
    assert(cells_view(right@) =~= Seq::<CellModel>::empty());
    let mut k: usize = 0;
    while k < alignment.segments.len()
        invariant
            k <= segs.len(),
            segs == alignment.segments@,
            x@ == encode_utf8(a@),
            y@ == encode_utf8(b@),
            alignment.fits(x@.len(), y@.len()),
            cells_view(left@) == left_cells(x@, y@, segs.take(k as int)),
            cells_view(right@) == right_cells(x@, y@, segs.take(k as int)),
            stretches_decode(x@, y@, segs.take(k as int)),
        decreases segs.len() - k,
    {
        let s = alignment.segments[k];
        proof {
            assert(s.fits(x@.len(), y@.len()));
            assert(segs.take(k + 1).drop_last() == segs.take(k as int));
            assert(segs.take(k + 1).last() == s);
        }
        let at = from_utf8_lossy(vstd::slice::slice_subrange(x, s.a_start, s.a_end));
        let bt = from_utf8_lossy(vstd::slice::slice_subrange(y, s.b_start, s.b_end));
        let has_left = s.a_start < s.a_end;
        let has_right = s.b_start < s.b_end;
        let mark = match s.kind {
            SegmentKind::Equal => Mark::Equal,
            SegmentKind::Diff => if has_left && has_right {
                Mark::Change
            } else {
                Mark::Gap
            },
        };
        let ghost l0 = left@;
        let ghost r0 = right@;
        if has_left {
            left.push(Cell { text: at, mark });
        }
        if has_right {
            right.push(Cell { text: bt, mark });
        }
        proof {
            assert(cells_view(left@) =~= cells_view(l0) + left_cell(x@, y@, s));
            assert(cells_view(right@) =~= cells_view(r0) + right_cell(x@, y@, s));
            assert(stretch_decodes(a_stretch(x@, s)) && stretch_decodes(b_stretch(y@, s)));
            assert forall|j: int| 0 <= j < k + 1 implies stretch_decodes(
                a_stretch(x@, #[trigger] segs.take(k + 1)[j]),
            ) && stretch_decodes(b_stretch(y@, segs.take(k + 1)[j])) by {
                if j < k {
                    assert(segs.take(k + 1)[j] == segs.take(k as int)[j]);
                }
            }
        }
        k += 1;
    }
    assert(segs.take(k as int) == segs);
    Row { left, right, changed: true }
}

proof fn lemma_pair_lines(a: Lines, b: Lines, steps: Seq<Step>, k: int)
    requires
        0 <= k <= steps.len(),
    ensures
        pair_lines(a, b, steps.take(k)).len() == pair_count(steps.take(k)),
        pair_count(steps.take(k)) <= pair_count(steps),
        pair_lines(a, b, steps.take(k)) == pair_lines(a, b, steps).take(
            pair_count(steps.take(k)) as int,
        ),
        pair_lines(a, b, steps).len() == pair_count(steps),
    decreases steps.len(),
{
    if steps.len() > 0 {
        let rest = steps.drop_last();
        if k == steps.len() {
            lemma_pair_lines(a, b, rest, rest.len() as int);
            assert(steps.take(k) == steps);
            assert(pair_lines(a, b, steps).take(pair_count(steps) as int) =~= pair_lines(
                a,
                b,
                steps,
            ));
        } else {
            lemma_pair_lines(a, b, rest, k);
            assert(steps.take(k) == rest.take(k));
            let c = pair_count(steps.take(k)) as int;
            assert(pair_lines(a, b, steps).take(c) =~= pair_lines(a, b, rest).take(c));
        }
    } else {
        assert(steps.take(k) == steps);
        assert(pair_lines(a, b, steps).take(0) =~= pair_lines(a, b, steps));
    }
}

impl TextDiff {
    /// Builds the aligned diff of two extracted texts. `alignments` holds one
    /// byte alignment for each of the pairs that [`RowPlan::pairs`] lists.
    pub fn build(a: &str, b: &str, alignments: &Vec<Alignment>) -> (r: Self)
        requires
            alignments_fit(
                pair_lines(lines(a@), lines(b@), plan(lines(a@), lines(b@)).0),
                alignments@,
            ),
        ensures
            rows_view(r.rows@) == step_rows(
                lines(a@),
                lines(b@),
                plan(lines(a@), lines(b@)).0,
                alignments@,
            ),
            r.degraded == too_large(lines(a@), lines(b@)),
            r.truncated == plan(lines(a@), lines(b@)).1,
            pairs_decode(
                pair_lines(lines(a@), lines(b@), plan(lines(a@), lines(b@)).0),
                alignments@,
            ),
    {
        let made = RowPlan::new(a, b);
        let ghost la = lines(a@);
        let ghost lb = lines(b@);
        let ghost steps = made.steps@;
        let mut rows: Vec<Row> = Vec::new();
        assert(rows_view(rows@) =~= Seq::<RowModel>::empty());
        let mut used: usize = 0;
        let total = alignments.len();
        let mut k: usize = 0;
        while k < made.steps.len()
            invariant
                k <= steps.len(),
                total == alignments@.len(),
                steps == made.steps@,
                made.wf(),
                la == views(made.left@),
                lb == views(made.right@),
                alignments_fit(pair_lines(la, lb, steps), alignments@),
                used == pair_count(steps.take(k as int)),
                used <= alignments@.len(),
                rows_view(rows@) == step_rows(la, lb, steps.take(k as int), alignments@),
                forall|p: int|
                    0 <= p < used ==> stretches_decode(
                        encode_utf8(pair_lines(la, lb, steps)[p].0),
                        encode_utf8(pair_lines(la, lb, steps)[p].1),
                        (#[trigger] alignments@[p]).segments@,
                    ),
            decreases steps.len() - k,
        {
            proof {
                assert(steps.take(k + 1).drop_last() == steps.take(k as int));
                assert(steps.take(k + 1).last() == steps[k as int]);
                assert(step_in(steps[k as int], la.len() as int, lb.len() as int));
                lemma_pair_lines(la, lb, steps, k as int);
                lemma_pair_lines(la, lb, steps, k + 1);
            }
            let ghost before = rows@;
            let row = match made.steps[k] {
                Step::Pair(i, j) => {
                    proof {
                        let all = pair_lines(la, lb, steps);
                        assert(pair_lines(la, lb, steps.take(k + 1)).last() == (
                            la[i as int],
                            lb[j as int],
                        ));
                        assert(used < total);
                        assert(all[used as int] == (la[i as int], lb[j as int]));
                        assert(alignments@[used as int].fits(
                            encode_utf8(all[used as int].0).len(),
                            encode_utf8(all[used as int].1).len(),
                        ));
                    }
                    let row = changed_pair(
                        made.left[i].as_str(),
                        made.right[j].as_str(),
                        &alignments[used],
                    );
                    used += 1;
                    row
                },
                Step::LeftOnly(i) => {
                    let row = Row {
                        left: line_cell(&made.left[i], Mark::Gap),
                        right: Vec::new(),
                        changed: true,
                    };
                    assert(row@.right =~= Seq::<CellModel>::empty());
                    row
                },
                Step::RightOnly(j) => {
                    let row = Row {
                        left: Vec::new(),
                        right: line_cell(&made.right[j], Mark::Gap),
                        changed: true,
                    };
                    assert(row@.left =~= Seq::<CellModel>::empty());
                    row
                },
                Step::Same(i, j) => Row {
                    left: line_cell(&made.left[i], Mark::Equal),
                    right: line_cell(&made.right[j], Mark::Equal),
                    changed: false,
                },
            };
            rows.push(row);
            k += 1;
            assert(rows_view(rows@) =~= rows_view(before).push(row@));
        }
        assert(steps.take(k as int) == steps);
        proof {
            lemma_pair_lines(la, lb, steps, k as int);
        }
        TextDiff { rows, degraded: made.degraded, truncated: made.truncated }
    }

    /// The colour role of a mark.
    pub fn color(mark: Mark) -> (r: Ink)
        ensures
            r == match mark {
                Mark::Equal => Ink::Text,
                Mark::Gap => Ink::Green,
                Mark::Change => Ink::Amber,
            },
    {
        match mark {
            Mark::Equal => Ink::Text,
            Mark::Gap => Ink::Green,
            Mark::Change => Ink::Amber,
        }
    }
}

/// The left line numbers that a list of steps shows, in order.
pub open spec fn left_shown(steps: Seq<Step>) -> Seq<int>
    decreases steps.len(),
{
    if steps.len() == 0 {
        Seq::empty()
    } else {
        let rest = left_shown(steps.drop_last());
        match steps.last() {
            Step::Pair(i, j) => rest.push(i as int),
            Step::LeftOnly(i) => rest.push(i as int),
            Step::RightOnly(j) => rest,
            Step::Same(i, j) => rest.push(i as int),
        }
    }
}

/// The right line numbers that a list of steps shows, in order.
pub open spec fn right_shown(steps: Seq<Step>) -> Seq<int>
    decreases steps.len(),
{
    if steps.len() == 0 {
        Seq::empty()
    } else {
        let rest = right_shown(steps.drop_last());
        match steps.last() {
            Step::Pair(i, j) => rest.push(j as int),
            Step::LeftOnly(i) => rest,
            Step::RightOnly(j) => rest.push(j as int),
            Step::Same(i, j) => rest.push(j as int),
        }
    }
}

/// The numbers from 0 up to `n`.
pub open spec fn count_up(n: int) -> Seq<int> {
    Seq::new(n as nat, |i: int| i)
}

proof fn lemma_shown_append(x: Seq<Step>, y: Seq<Step>)
    ensures
        left_shown(x + y) == left_shown(x) + left_shown(y),
        right_shown(x + y) == right_shown(x) + right_shown(y),
    decreases y.len(),
{
    if y.len() == 0 {
        assert(x + y == x);
    } else {
        lemma_shown_append(x, y.drop_last());
        assert((x + y).drop_last() == x + y.drop_last());
        assert((x + y).last() == y.last());
        assert(left_shown(x + y) =~= left_shown(x) + left_shown(y));
        assert(right_shown(x + y) =~= right_shown(x) + right_shown(y));
    }
}

proof fn lemma_block_shown(ai: int, mi: int, bj: int, mj: int, k: int)
    requires
        0 <= ai <= mi <= usize::MAX,
        0 <= bj <= mj <= usize::MAX,
        0 <= k <= block(ai, mi, bj, mj).len(),
    ensures
        ({
            let part = block(ai, mi, bj, mj).take(k);
            let p = if k <= mi - ai { k } else { mi - ai };
            let q = if k <= mj - bj { k } else { mj - bj };
            &&& left_shown(part) == Seq::new(p as nat, |t: int| ai + t)
            &&& right_shown(part) == Seq::new(q as nat, |t: int| bj + t)
        }),
    decreases k,
{
    let part = block(ai, mi, bj, mj).take(k);
    let p = if k <= mi - ai { k } else { mi - ai };
    let q = if k <= mj - bj { k } else { mj - bj };
    if k > 0 {
        lemma_block_shown(ai, mi, bj, mj, k - 1);
        assert(part.drop_last() == block(ai, mi, bj, mj).take(k - 1));
        assert(part.last() == block(ai, mi, bj, mj)[k - 1]);
    }
    assert(left_shown(part) =~= Seq::new(p as nat, |t: int| ai + t));
    assert(right_shown(part) =~= Seq::new(q as nat, |t: int| bj + t));
}

proof fn lemma_plan_in_range(
    a: Lines,
    b: Lines,
    ms: Seq<(int, int)>,
    k: int,
    ai: int,
    bj: int,
    acc: Seq<Step>,
)
    requires
        common(a, b, ms, 0, 0),
        a.len() <= usize::MAX,
        b.len() <= usize::MAX,
        0 <= k <= ms.len(),
        0 <= ai <= a.len(),
        0 <= bj <= b.len(),
        k == 0 ==> ai == 0 && bj == 0,
        k > 0 ==> ai == ms[k - 1].0 + 1 && bj == ms[k - 1].1 + 1,
        steps_in(acc, a.len() as int, b.len() as int),
    ensures
        steps_in(
            plan_from(a.len() as int, b.len() as int, ms, k, ai, bj, acc).0,
            a.len() as int,
            b.len() as int,
        ),
    decreases ms.len() + 1 - k,
{
    let n = a.len() as int;
    let m = b.len() as int;
    let (mi, mj) = stop(ms, k, n, m);
    if k < ms.len() {
        assert(0 <= ms[k].0 < n);
        if k > 0 {
            assert(ms[k - 1].0 < ms[k].0);
        }
    }
    let own = block(ai, mi, bj, mj);
    assert(steps_in(own, n, m));
    let next = after_stop(n, acc, ai, mi, bj, mj);
    assert(steps_in(next, n, m));
    if k < ms.len() {
        if next.len() <= MAX_ROWS {
            lemma_plan_in_range(a, b, ms, k + 1, mi + 1, mj + 1, next);
        }
    } else if next.len() <= MAX_ROWS {
        assert(plan_from(n, m, ms, k + 1, mi + 1, mj + 1, next) == (next, false));
    }
}

proof fn lemma_plan_shows(
    a: Lines,
    b: Lines,
    ms: Seq<(int, int)>,
    k: int,
    ai: int,
    bj: int,
    acc: Seq<Step>,
)
    requires
        common(a, b, ms, 0, 0),
        a.len() <= usize::MAX,
        b.len() <= usize::MAX,
        0 <= k <= ms.len(),
        0 <= ai <= a.len(),
        0 <= bj <= b.len(),
        k == 0 ==> ai == 0 && bj == 0,
        k > 0 ==> ai == ms[k - 1].0 + 1 && bj == ms[k - 1].1 + 1,
        left_shown(acc) == count_up(ai),
        right_shown(acc) == count_up(bj),
    ensures
        ({
            let (steps, cut) = plan_from(a.len() as int, b.len() as int, ms, k, ai, bj, acc);
            !cut ==> {
                &&& left_shown(steps) == count_up(a.len() as int)
                &&& right_shown(steps) == count_up(b.len() as int)
            }
        }),
    decreases ms.len() + 1 - k,
{
    let n = a.len() as int;
    let m = b.len() as int;
    let (mi, mj) = stop(ms, k, n, m);
    if k < ms.len() {
        assert(0 <= ms[k].0 < n);
        if k > 0 {
            assert(ms[k - 1].0 < ms[k].0);
        }
    }
    let own = block(ai, mi, bj, mj);
    lemma_shown_append(acc, own);
    lemma_block_shown(ai, mi, bj, mj, own.len() as int);
    assert(own.take(own.len() as int) == own);
    let unmatched = acc + own;
    assert(left_shown(unmatched) =~= count_up(mi));
    assert(right_shown(unmatched) =~= count_up(mj));
    if mi < n {
        let next = unmatched.push(Step::Same(mi as usize, mj as usize));
        assert(next.drop_last() == unmatched);
        assert(left_shown(next) =~= count_up(mi + 1));
        assert(right_shown(next) =~= count_up(mj + 1));
        if next.len() <= MAX_ROWS && k < ms.len() {
            lemma_plan_shows(a, b, ms, k + 1, mi + 1, mj + 1, next);
        }
    } else if unmatched.len() <= MAX_ROWS {
        assert(plan_from(n, m, ms, k + 1, mi + 1, mj + 1, unmatched) == (unmatched, false));
    }
}

/// Every line of both documents is shown exactly once and in order, unless the
/// rows were cut.
pub proof fn law_every_line_is_shown_once(a: Lines, b: Lines)
    requires
        a.len() <= usize::MAX,
        b.len() <= usize::MAX,
        !plan(a, b).1,
    ensures
        left_shown(plan(a, b).0) == count_up(a.len() as int),
        right_shown(plan(a, b).0) == count_up(b.len() as int),
{
    lemma_matched(a, b);
    assert(left_shown(Seq::empty()) =~= count_up(0));
    assert(right_shown(Seq::empty()) =~= count_up(0));
    lemma_plan_shows(a, b, matched(a, b), 0, 0, 0, Seq::empty());
}

proof fn lemma_plan_capped(
    n: int,
    m: int,
    ms: Seq<(int, int)>,
    k: int,
    ai: int,
    bj: int,
    acc: Seq<Step>,
)
    requires
        acc.len() <= MAX_ROWS,
    ensures
        plan_from(n, m, ms, k, ai, bj, acc).0.len() <= MAX_ROWS,
        plan_from(n, m, ms, k, ai, bj, acc).1 ==> plan_from(n, m, ms, k, ai, bj, acc).0.len()
            == MAX_ROWS,
    decreases ms.len() + 1 - k,
{
    if 0 <= k <= ms.len() {
        let (mi, mj) = stop(ms, k, n, m);
        let next = after_stop(n, acc, ai, mi, bj, mj);
        if next.len() <= MAX_ROWS {
            lemma_plan_capped(n, m, ms, k + 1, mi + 1, mj + 1, next);
        }
    }
}

/// No diff shows more than [`MAX_ROWS`] rows, and one that was cut shows exactly
/// so many.
pub proof fn law_rows_keep_to_the_ceiling(a: Lines, b: Lines)
    ensures
        plan(a, b).0.len() <= MAX_ROWS,
        plan(a, b).1 ==> plan(a, b).0.len() == MAX_ROWS,
{
    lemma_plan_capped(a.len() as int, b.len() as int, matched(a, b), 0, 0, 0, Seq::empty());
}

proof fn lemma_matched(a: Lines, b: Lines)
    ensures
        common(a, b, matched(a, b), 0, 0),
{
    if too_large(a, b) {
        lemma_index_pairs(a, b, 0);
    } else {
        lemma_lcs_pairs(a, b, 0, 0);
    }
}

proof fn lemma_index_pairs(a: Lines, b: Lines, i: int)
    requires
        0 <= i,
    ensures
        common(a, b, index_pairs(a, b, i), i, i),
    decreases a.len() - i,
{
    if i < a.len() && i < b.len() {
        lemma_index_pairs(a, b, i + 1);
        if a[i] == b[i] {
            let rest = index_pairs(a, b, i + 1);
            let all = index_pairs(a, b, i);
            assert forall|k: int| 0 <= k < all.len() implies {
                &&& i <= (#[trigger] all[k]).0 < a.len()
                &&& i <= all[k].1 < b.len()
                &&& a[all[k].0] == b[all[k].1]
            } by {
                if k > 0 {
                    assert(all[k] == rest[k - 1]);
                }
            }
            assert forall|k: int, l: int| 0 <= k < l < all.len() implies #[trigger] all[k].0
                < #[trigger] all[l].0 && all[k].1 < all[l].1 by {
                assert(all[l] == rest[l - 1]);
                if k > 0 {
                    assert(all[k] == rest[k - 1]);
                }
            }
        }
    }
}

proof fn lemma_self_pairs(a: Lines, i: int)
    requires
        0 <= i <= a.len(),
    ensures
        lcs_pairs(a, a, i, i) == Seq::new((a.len() - i) as nat, |k: int| (i + k, i + k)),
        index_pairs(a, a, i) == Seq::new((a.len() - i) as nat, |k: int| (i + k, i + k)),
    decreases a.len() - i,
{
    if i < a.len() {
        lemma_self_pairs(a, i + 1);
    }
    assert(lcs_pairs(a, a, i, i) =~= Seq::new((a.len() - i) as nat, |k: int| (i + k, i + k)));
    assert(index_pairs(a, a, i) =~= Seq::new((a.len() - i) as nat, |k: int| (i + k, i + k)));
}

proof fn lemma_self_plan(n: int, ms: Seq<(int, int)>, k: int, acc: Seq<Step>)
    requires
        0 <= k <= n <= usize::MAX,
        ms == Seq::new(n as nat, |t: int| (t, t)),
        forall|t: int| 0 <= t < acc.len() ==> #[trigger] acc[t] is Same,
    ensures
        ({
            let (steps, cut) = plan_from(n, n, ms, k, k, k, acc);
            forall|t: int| 0 <= t < steps.len() ==> #[trigger] steps[t] is Same
        }),
    decreases n - k,
{
    let (mi, mj) = stop(ms, k, n, n);
    assert(mi == k && mj == k);
    let own = block(k, mi, k, mj);
    assert(own.len() == 0);
    assert(acc + own =~= acc);
    if k < n {
        let next = (acc + own).push(Step::Same(mi as usize, mj as usize));
        if next.len() <= MAX_ROWS {
            lemma_self_plan(n, ms, k + 1, next);
        }
    } else if acc.len() <= MAX_ROWS {
        assert(plan_from(n, n, ms, k + 1, mi + 1, mj + 1, acc + own) == (acc + own, false));
    }
}

/// A document compared with itself shows no mark: every row is a shared line.
pub proof fn law_identical_documents_show_no_marks(a: Lines)
    requires
        a.len() <= usize::MAX,
    ensures
        forall|t: int| 0 <= t < plan(a, a).0.len() ==> #[trigger] plan(a, a).0[t] is Same,
{
    lemma_self_pairs(a, 0);
    assert(matched(a, a) =~= Seq::new(a.len(), |t: int| (t, t)));
    lemma_self_plan(a.len() as int, matched(a, a), 0, Seq::empty());
}

/// The texts of a list of cells, one after the other.
pub open spec fn text_of(cells: Seq<CellModel>) -> Seq<char>
    decreases cells.len(),
{
    if cells.len() == 0 {
        Seq::empty()
    } else {
        text_of(cells.drop_last()) + cells.last().0
    }
}

/// The cells with this mark.
pub open spec fn marked(cells: Seq<CellModel>, mark: Mark) -> Seq<CellModel>
    decreases cells.len(),
{
    if cells.len() == 0 {
        Seq::empty()
    } else if cells.last().1 == mark {
        marked(cells.drop_last(), mark).push(cells.last())
    } else {
        marked(cells.drop_last(), mark)
    }
}

/// No segment cuts through a character.
pub open spec fn whole_stretches(x: Seq<u8>, y: Seq<u8>, segments: Seq<Segment>) -> bool {
    forall|k: int|
        0 <= k < segments.len() ==> valid_utf8(a_stretch(x, #[trigger] segments[k]))
            && valid_utf8(b_stretch(y, segments[k]))
}

proof fn lemma_encode_concat(c: Seq<char>, d: Seq<char>)
    ensures
        encode_utf8(c + d) == encode_utf8(c) + encode_utf8(d),
    decreases c.len(),
{
    if c.len() == 0 {
        assert(c + d =~= d);
        assert(encode_utf8(c) + encode_utf8(d) =~= encode_utf8(d));
    } else {
        lemma_encode_concat(c.drop_first(), d);
        assert((c + d).drop_first() =~= c.drop_first() + d);
        assert((c + d)[0] == c[0]);
        assert(encode_utf8(c + d) =~= encode_utf8(c) + encode_utf8(d));
    }
}

proof fn lemma_decode_concat(x: Seq<u8>, y: Seq<u8>)
    requires
        valid_utf8(x),
        valid_utf8(y),
    ensures
        valid_utf8(x + y),
        decode_utf8(x + y) == decode_utf8(x) + decode_utf8(y),
{
    valid_utf8_concat(x, y);
    decode_utf8_encode_utf8(x);
    decode_utf8_encode_utf8(y);
    lemma_encode_concat(decode_utf8(x), decode_utf8(y));
    encode_utf8_decode_utf8(decode_utf8(x) + decode_utf8(y));
}

proof fn lemma_text_append(x: Seq<CellModel>, y: Seq<CellModel>)
    ensures
        text_of(x + y) == text_of(x) + text_of(y),
    decreases y.len(),
{
    if y.len() == 0 {
        assert(x + y =~= x);
    } else {
        lemma_text_append(x, y.drop_last());
        assert((x + y).drop_last() =~= x + y.drop_last());
        assert(text_of(x + y) =~= text_of(x) + text_of(y));
    }
}

proof fn lemma_text_one(c: CellModel)
    ensures
        text_of(seq![c]) == c.0,
{
    reveal_with_fuel(text_of, 2);
    assert(text_of(seq![c]) =~= c.0);
}

proof fn lemma_cells_read_back(
    x: Seq<u8>,
    y: Seq<u8>,
    segments: Seq<Segment>,
    n: nat,
    m: nat,
)
    requires
        n <= x.len(),
        m <= y.len(),
        covers(segments, n, m),
        whole_stretches(x, y, segments),
        stretches_decode(x, y, segments),
    ensures
        valid_utf8(x.take(n as int)),
        valid_utf8(y.take(m as int)),
        text_of(left_cells(x, y, segments)) == decode_utf8(x.take(n as int)),
        text_of(right_cells(x, y, segments)) == decode_utf8(y.take(m as int)),
    decreases segments.len(),
{
    if segments.len() == 0 {
        assert(x.take(0).len() == 0 && y.take(0).len() == 0);
        assert(decode_utf8(x.take(0)) =~= Seq::<char>::empty());
        assert(decode_utf8(y.take(0)) =~= Seq::<char>::empty());
    } else {
        let s = segments.last();
        let rest = segments.drop_last();
        assert(segments[segments.len() - 1] == s);
        assert forall|k: int| 0 <= k < rest.len() implies valid_utf8(
            a_stretch(x, #[trigger] rest[k]),
        ) && valid_utf8(b_stretch(y, rest[k])) by {
            assert(rest[k] == segments[k]);
        }
        assert forall|k: int| 0 <= k < rest.len() implies stretch_decodes(
            a_stretch(x, #[trigger] rest[k]),
        ) && stretch_decodes(b_stretch(y, rest[k])) by {
            assert(rest[k] == segments[k]);
        }
        lemma_cells_read_back(x, y, rest, s.a_start as nat, s.b_start as nat);
        let p = a_stretch(x, s);
        let q = b_stretch(y, s);
        assert(x.take(s.a_start as int) + p =~= x.take(n as int));
        assert(y.take(s.b_start as int) + q =~= y.take(m as int));
        lemma_decode_concat(x.take(s.a_start as int), p);
        lemma_decode_concat(y.take(s.b_start as int), q);
        lemma_text_append(left_cells(x, y, rest), left_cell(x, y, s));
        lemma_text_append(right_cells(x, y, rest), right_cell(x, y, s));
        if s.a_start < s.a_end {
            lemma_text_one((lossy_text(p), segment_mark(s)));
        } else {
            assert(decode_utf8(p) =~= Seq::<char>::empty());
        }
        if s.b_start < s.b_end {
            lemma_text_one((lossy_text(q), segment_mark(s)));
        } else {
            assert(decode_utf8(q) =~= Seq::<char>::empty());
        }
    }
}

/// The row of two differing lines reads back as those lines: where the alignment
/// covers both and cuts through no character, the cells of either side put
/// together are its line.
pub proof fn law_a_changed_row_reads_back(a: Seq<char>, b: Seq<char>, segments: Seq<Segment>)
    requires
        covers(segments, encode_utf8(a).len(), encode_utf8(b).len()),
        whole_stretches(encode_utf8(a), encode_utf8(b), segments),
        stretches_decode(encode_utf8(a), encode_utf8(b), segments),
    ensures
        text_of(pair_row(a, b, segments).left) == a,
        text_of(pair_row(a, b, segments).right) == b,
{
    let x = encode_utf8(a);
    let y = encode_utf8(b);
    lemma_cells_read_back(x, y, segments, x.len(), y.len());
    assert(x.take(x.len() as int) =~= x);
    assert(y.take(y.len() as int) =~= y);
    encode_utf8_decode_utf8(a);
    encode_utf8_decode_utf8(b);
}

proof fn lemma_ascii_stretch(a: Seq<char>, p: int, q: int)
    requires
        is_ascii_chars(a),
        0 <= p <= q <= encode_utf8(a).len(),
    ensures
        valid_utf8(encode_utf8(a).subrange(p, q)),
        decode_utf8(encode_utf8(a).subrange(p, q)) == a.subrange(p, q),
{
    is_ascii_chars_encode_utf8(a);
    let part = a.subrange(p, q);
    assert forall|i: int| 0 <= i < part.len() implies '\0' <= #[trigger] part[i] <= '\u{7f}' by {
        assert(part[i] == a[p + i]);
    }
    is_ascii_chars_encode_utf8(part);
    assert forall|i: int| 0 <= i < part.len() implies #[trigger] encode_utf8(part)[i]
        == encode_utf8(a).subrange(p, q)[i] by {
        assert(part[i] == a[p + i]);
        assert(encode_utf8(a)[p + i] == a[p + i] as u8);
    }
    assert(encode_utf8(part) =~= encode_utf8(a).subrange(p, q));
    encode_utf8_valid_utf8(part);
    encode_utf8_decode_utf8(part);
}

/// No segment of an alignment of two ASCII lines cuts through a character, and its
/// stretches decode to the same stretches of the lines.
pub proof fn law_ascii_lines_are_never_cut(a: Seq<char>, b: Seq<char>, segments: Seq<Segment>)
    requires
        is_ascii_chars(a),
        is_ascii_chars(b),
        forall|k: int|
            0 <= k < segments.len() ==> (#[trigger] segments[k]).fits(
                encode_utf8(a).len(),
                encode_utf8(b).len(),
            ),
    ensures
        whole_stretches(encode_utf8(a), encode_utf8(b), segments),
        forall|k: int|
            0 <= k < segments.len() ==> {
                let s = #[trigger] segments[k];
                &&& decode_utf8(a_stretch(encode_utf8(a), s)) == a.subrange(
                    s.a_start as int,
                    s.a_end as int,
                )
                &&& decode_utf8(b_stretch(encode_utf8(b), s)) == b.subrange(
                    s.b_start as int,
                    s.b_end as int,
                )
            },
{
    assert forall|k: int| 0 <= k < segments.len() implies {
        let s = #[trigger] segments[k];
        &&& valid_utf8(a_stretch(encode_utf8(a), s))
        &&& valid_utf8(b_stretch(encode_utf8(b), s))
        &&& decode_utf8(a_stretch(encode_utf8(a), s)) == a.subrange(
            s.a_start as int,
            s.a_end as int,
        )
        &&& decode_utf8(b_stretch(encode_utf8(b), s)) == b.subrange(
            s.b_start as int,
            s.b_end as int,
        )
    } by {
        let s = segments[k];
        assert(s.fits(encode_utf8(a).len(), encode_utf8(b).len()));
        lemma_ascii_stretch(a, s.a_start as int, s.a_end as int);
        lemma_ascii_stretch(b, s.b_start as int, s.b_end as int);
    }
}

proof fn lemma_marked_one(cells: Seq<CellModel>, c: CellModel, mark: Mark)
    ensures
        marked(cells + seq![c], mark) == if c.1 == mark {
            marked(cells, mark).push(c)
        } else {
            marked(cells, mark)
        },
{
    assert((cells + seq![c]).drop_last() =~= cells);
    assert((cells + seq![c]).last() == c);
}

/// The marks of a changed row are true: no cell is empty, the plain text is the
/// same on both sides, and every change stands across from one.
pub proof fn law_marks_of_a_changed_row_are_true(
    a: Seq<char>,
    b: Seq<char>,
    segments: Seq<Segment>,
)
    requires
        forall|k: int|
            0 <= k < segments.len() ==> (#[trigger] segments[k]).fits(
                encode_utf8(a).len(),
                encode_utf8(b).len(),
            ),
        truthful(segments, encode_utf8(a), encode_utf8(b)),
        stretches_decode(encode_utf8(a), encode_utf8(b), segments),
    ensures
        ({
            let row = pair_row(a, b, segments);
            &&& row.changed
            &&& forall|i: int| 0 <= i < row.left.len() ==> (#[trigger] row.left[i]).0.len() > 0
            &&& forall|i: int| 0 <= i < row.right.len() ==> (#[trigger] row.right[i]).0.len() > 0
            &&& text_of(marked(row.left, Mark::Equal)) == text_of(marked(row.right, Mark::Equal))
            &&& marked(row.left, Mark::Change).len() == marked(row.right, Mark::Change).len()
        }),
    decreases segments.len(),
{
    let x = encode_utf8(a);
    let y = encode_utf8(b);
    if segments.len() > 0 {
        let s = segments.last();
        let rest = segments.drop_last();
        assert(segments[segments.len() - 1] == s);
        assert forall|k: int| 0 <= k < rest.len() implies (#[trigger] rest[k]).fits(
            x.len(),
            y.len(),
        ) by {
            assert(rest[k] == segments[k]);
        }
        assert forall|k: int| 0 <= k < rest.len() implies {
            let t = #[trigger] rest[k];
            (t.kind == SegmentKind::Equal) == (x.subrange(t.a_start as int, t.a_end as int)
                == y.subrange(t.b_start as int, t.b_end as int))
        } by {
            assert(rest[k] == segments[k]);
        }
        assert forall|k: int| 0 <= k < rest.len() implies stretch_decodes(
            a_stretch(x, #[trigger] rest[k]),
        ) && stretch_decodes(b_stretch(y, rest[k])) by {
            assert(rest[k] == segments[k]);
        }
        law_marks_of_a_changed_row_are_true(a, b, rest);
        let l = left_cells(x, y, rest);
        let r = right_cells(x, y, rest);
        let lc = left_cell(x, y, s);
        let rc = right_cell(x, y, s);
        let lx = (lossy_text(a_stretch(x, s)), segment_mark(s));
        let rx = (lossy_text(b_stretch(y, s)), segment_mark(s));
        assert(s.fits(x.len(), y.len()));
        assert(a_stretch(x, s).len() == s.a_end - s.a_start);
        assert(b_stretch(y, s).len() == s.b_end - s.b_start);
        if s.a_start < s.a_end {
            assert(lc =~= seq![lx]);
            lemma_marked_one(l, lx, Mark::Equal);
            lemma_marked_one(l, lx, Mark::Change);
            assert(marked(l, Mark::Equal).push(lx).drop_last() =~= marked(l, Mark::Equal));
        } else {
            assert(l + lc =~= l);
        }
        if s.b_start < s.b_end {
            assert(rc =~= seq![rx]);
            lemma_marked_one(r, rx, Mark::Equal);
            lemma_marked_one(r, rx, Mark::Change);
            assert(marked(r, Mark::Equal).push(rx).drop_last() =~= marked(r, Mark::Equal));
        } else {
            assert(r + rc =~= r);
        }
        let row = pair_row(a, b, segments);
        assert(row.left == l + lc && row.right == r + rc);
        assert forall|i: int| 0 <= i < row.left.len() implies (#[trigger] row.left[i]).0.len()
            > 0 by {
            if i < l.len() {
                assert(row.left[i] == pair_row(a, b, rest).left[i]);
            } else {
                assert(row.left[i] == lx);
            }
        }
        assert forall|i: int| 0 <= i < row.right.len() implies (#[trigger] row.right[i]).0.len()
            > 0 by {
            if i < r.len() {
                assert(row.right[i] == pair_row(a, b, rest).right[i]);
            } else {
                assert(row.right[i] == rx);
            }
        }
    }
}

/// Where the `k`-th run of unmatched lines starts on either side.
spec fn gap_start(ms: Seq<(int, int)>, k: int) -> (int, int) {
    if k <= 0 {
        (0, 0)
    } else {
        (ms[k - 1].0 + 1, ms[k - 1].1 + 1)
    }
}

proof fn lemma_one_more_pair(a: Lines, b: Lines, ms: Seq<(int, int)>, k: int, i: int, j: int)
    requires
        common(a, b, ms, 0, 0),
        0 <= k <= ms.len(),
        gap_start(ms, k).0 <= i < stop(ms, k, a.len() as int, b.len() as int).0,
        gap_start(ms, k).1 <= j < stop(ms, k, a.len() as int, b.len() as int).1,
        a[i] == b[j],
    ensures
        exists|other: Seq<(int, int)>|
            #[trigger] common(a, b, other, 0, 0) && other.len() == ms.len() + 1,
{
    let other = ms.take(k).push((i, j)) + ms.skip(k);
    if k > 0 {
        assert(0 <= ms[k - 1].0 && 0 <= ms[k - 1].1);
    }
    if k < ms.len() {
        assert(ms[k].0 < a.len() && ms[k].1 < b.len());
    }
    assert forall|p: int| 0 <= p < other.len() implies {
        &&& 0 <= (#[trigger] other[p]).0 < a.len()
        &&& 0 <= other[p].1 < b.len()
        &&& a[other[p].0] == b[other[p].1]
    } by {
        if p < k {
            assert(other[p] == ms[p]);
        } else if p > k {
            assert(other[p] == ms[p - 1]);
        }
    }
    assert forall|p: int, q: int| 0 <= p < q < other.len() implies #[trigger] other[p].0
        < #[trigger] other[q].0 && other[p].1 < other[q].1 by {
        if p < k {
            assert(other[p] == ms[p]);
            assert(p < k - 1 ==> ms[p].0 < ms[k - 1].0 && ms[p].1 < ms[k - 1].1);
        } else if p > k {
            assert(other[p] == ms[p - 1]);
        }
        if q < k {
            assert(other[q] == ms[q]);
        } else if q > k {
            assert(other[q] == ms[q - 1]);
            assert(q - 1 > k ==> ms[k].0 < ms[q - 1].0 && ms[k].1 < ms[q - 1].1);
        }
    }
    assert(common(a, b, other, 0, 0));
}

proof fn lemma_index_pairs_complete(a: Lines, b: Lines, from: int, i: int) -> (p: int)
    requires
        0 <= from <= i < a.len(),
        i < b.len(),
        a[i] == b[i],
    ensures
        0 <= p < index_pairs(a, b, from).len(),
        index_pairs(a, b, from)[p] == (i, i),
    decreases i - from,
{
    if from == i {
        0
    } else {
        let p = lemma_index_pairs_complete(a, b, from + 1, i);
        if a[from] == b[from] {
            assert(index_pairs(a, b, from)[p + 1] == index_pairs(a, b, from + 1)[p]);
            p + 1
        } else {
            p
        }
    }
}

proof fn lemma_index_pairs_diagonal(a: Lines, b: Lines, from: int)
    requires
        0 <= from,
    ensures
        forall|p: int|
            0 <= p < index_pairs(a, b, from).len() ==> (#[trigger] index_pairs(a, b, from)[p]).0
                == index_pairs(a, b, from)[p].1,
    decreases a.len() - from,
{
    if from < a.len() && from < b.len() {
        lemma_index_pairs_diagonal(a, b, from + 1);
        let rest = index_pairs(a, b, from + 1);
        if a[from] == b[from] {
            assert forall|p: int| 0 <= p < index_pairs(a, b, from).len() implies (
            #[trigger] index_pairs(a, b, from)[p]).0 == index_pairs(a, b, from)[p].1 by {
                if p > 0 {
                    assert(index_pairs(a, b, from)[p] == rest[p - 1]);
                }
            }
        }
    }
}

/// Lines that are shown as a changed pair differ.
proof fn lemma_gap_differs(a: Lines, b: Lines, k: int, t: int)
    requires
        ({
            let ms = matched(a, b);
            let (mi, mj) = stop(ms, k, a.len() as int, b.len() as int);
            let (ai, bj) = gap_start(ms, k);
            &&& 0 <= k <= ms.len()
            &&& 0 <= t
            &&& ai + t < mi
            &&& bj + t < mj
        }),
    ensures
        ({
            let (ai, bj) = gap_start(matched(a, b), k);
            a[ai + t] != b[bj + t]
        }),
{
    let ms = matched(a, b);
    let (mi, mj) = stop(ms, k, a.len() as int, b.len() as int);
    let (ai, bj) = gap_start(ms, k);
    let i = ai + t;
    let j = bj + t;
    lemma_matched(a, b);
    if k > 0 {
        assert(0 <= ms[k - 1].0 && 0 <= ms[k - 1].1);
    }
    if k < ms.len() {
        assert(ms[k].0 < a.len() && ms[k].1 < b.len());
    }
    if a[i] == b[j] {
        if too_large(a, b) {
            lemma_index_pairs_diagonal(a, b, 0);
            if k > 0 {
                assert(ms[k - 1].0 == ms[k - 1].1);
            }
            let p = lemma_index_pairs_complete(a, b, 0, i);
            assert(ms[p] == (i, i));
            if p < k {
                assert(p < k - 1 ==> ms[p].0 < ms[k - 1].0);
            } else {
                assert(p > k ==> ms[k].0 < ms[p].0);
            }
        } else {
            lemma_one_more_pair(a, b, ms, k, i, j);
            let other = choose|other: Seq<(int, int)>|
                #[trigger] common(a, b, other, 0, 0) && other.len() == ms.len() + 1;
            law_pairing_is_longest(a, b, other);
        }
    }
}

/// Pairs are lines that differ, and shared lines are equal.
spec fn steps_true(a: Lines, b: Lines, steps: Seq<Step>) -> bool {
    forall|t: int|
        0 <= t < steps.len() ==> match #[trigger] steps[t] {
            Step::Pair(i, j) => a[i as int] != b[j as int],
            Step::Same(i, j) => a[i as int] == b[j as int],
            _ => true,
        }
}

/// How many steps show a shared line.
pub open spec fn same_count(steps: Seq<Step>) -> nat
    decreases steps.len(),
{
    if steps.len() == 0 {
        0
    } else {
        same_count(steps.drop_last()) + if steps.last() is Same {
            1nat
        } else {
            0nat
        }
    }
}

proof fn lemma_same_append(x: Seq<Step>, y: Seq<Step>)
    requires
        forall|t: int| 0 <= t < y.len() ==> !(#[trigger] y[t] is Same),
    ensures
        same_count(x + y) == same_count(x),
    decreases y.len(),
{
    if y.len() == 0 {
        assert(x + y =~= x);
    } else {
        lemma_same_append(x, y.drop_last());
        assert((x + y).drop_last() =~= x + y.drop_last());
        assert(!(y[y.len() - 1] is Same));
    }
}

proof fn lemma_plan_true(a: Lines, b: Lines, k: int, acc: Seq<Step>)
    requires
        a.len() <= usize::MAX,
        b.len() <= usize::MAX,
        0 <= k <= matched(a, b).len(),
        steps_true(a, b, acc),
    ensures
        ({
            let ms = matched(a, b);
            let (ai, bj) = gap_start(ms, k);
            let (steps, cut) = plan_from(
                a.len() as int,
                b.len() as int,
                ms,
                k,
                ai,
                bj,
                acc,
            );
            &&& steps_true(a, b, steps)
            &&& !cut ==> same_count(steps) == same_count(acc) + ms.len() - k
        }),
    decreases matched(a, b).len() + 1 - k,
{
    let ms = matched(a, b);
    let n = a.len() as int;
    let m = b.len() as int;
    let (ai, bj) = gap_start(ms, k);
    let (mi, mj) = stop(ms, k, n, m);
    lemma_matched(a, b);
    if k > 0 {
        assert(0 <= ms[k - 1].0 < n && 0 <= ms[k - 1].1 < m);
    }
    if k < ms.len() {
        assert(0 <= ms[k].0 < n && 0 <= ms[k].1 < m);
        if k > 0 {
            assert(ms[k - 1].0 < ms[k].0 && ms[k - 1].1 < ms[k].1);
        }
    }
    let own = block(ai, mi, bj, mj);
    let unmatched = acc + own;
    assert forall|t: int| 0 <= t < own.len() implies match #[trigger] own[t] {
        Step::Pair(i, j) => a[i as int] != b[j as int],
        Step::Same(i, j) => a[i as int] == b[j as int],
        _ => true,
    } by {
        if t < mi - ai && t < mj - bj {
            lemma_gap_differs(a, b, k, t);
        }
    }
    assert(steps_true(a, b, unmatched)) by {
        assert forall|t: int| 0 <= t < unmatched.len() implies match #[trigger] unmatched[t] {
            Step::Pair(i, j) => a[i as int] != b[j as int],
            Step::Same(i, j) => a[i as int] == b[j as int],
            _ => true,
        } by {
            if t < acc.len() {
                assert(unmatched[t] == acc[t]);
            } else {
                assert(unmatched[t] == own[t - acc.len()]);
            }
        }
    }
    lemma_same_append(acc, own);
    let next = after_stop(n, acc, ai, mi, bj, mj);
    if k < ms.len() {
        assert(next == unmatched.push(Step::Same(mi as usize, mj as usize)));
        assert(next.drop_last() =~= unmatched);
        assert(steps_true(a, b, next)) by {
            assert forall|t: int| 0 <= t < next.len() implies match #[trigger] next[t] {
                Step::Pair(i, j) => a[i as int] != b[j as int],
                Step::Same(i, j) => a[i as int] == b[j as int],
                _ => true,
            } by {
                if t < unmatched.len() {
                    assert(next[t] == unmatched[t]);
                }
            }
        }
        if next.len() <= MAX_ROWS {
            assert(gap_start(ms, k + 1) == (mi + 1, mj + 1));
            lemma_plan_true(a, b, k + 1, next);
        }
    } else {
        assert(next == unmatched);
        if next.len() <= MAX_ROWS {
            assert(plan_from(n, m, ms, k + 1, mi + 1, mj + 1, next) == (next, false));
        }
    }
    if next.len() > MAX_ROWS {
        let cut = next.take(MAX_ROWS as int);
        assert forall|t: int| 0 <= t < cut.len() implies match #[trigger] cut[t] {
            Step::Pair(i, j) => a[i as int] != b[j as int],
            Step::Same(i, j) => a[i as int] == b[j as int],
            _ => true,
        } by {
            assert(cut[t] == next[t]);
        }
    }
}

/// Every aligned pair of lines is covered by its alignment, which cuts through no
/// character.
pub open spec fn alignments_read(
    pairs: Seq<(Seq<char>, Seq<char>)>,
    als: Seq<Alignment>,
) -> bool {
    forall|k: int|
        0 <= k < pairs.len() ==> covers(
            (#[trigger] als[k]).segments@,
            encode_utf8(pairs[k].0).len(),
            encode_utf8(pairs[k].1).len(),
        ) && whole_stretches(
            encode_utf8(pairs[k].0),
            encode_utf8(pairs[k].1),
            als[k].segments@,
        )
}

/// The left line that a step shows, if any.
pub open spec fn left_line(a: Lines, step: Step) -> Seq<char> {
    match step {
        Step::Pair(i, j) => a[i as int],
        Step::LeftOnly(i) => a[i as int],
        Step::RightOnly(j) => Seq::empty(),
        Step::Same(i, j) => a[i as int],
    }
}

/// The right line that a step shows, if any.
pub open spec fn right_line(b: Lines, step: Step) -> Seq<char> {
    match step {
        Step::Pair(i, j) => b[j as int],
        Step::LeftOnly(i) => Seq::empty(),
        Step::RightOnly(j) => b[j as int],
        Step::Same(i, j) => b[j as int],
    }
}

proof fn lemma_step_rows(a: Lines, b: Lines, steps: Seq<Step>, als: Seq<Alignment>, t: int)
    requires
        0 <= t < steps.len(),
    ensures
        step_rows(a, b, steps, als).len() == steps.len(),
        step_rows(a, b, steps, als)[t] == step_row(
            a,
            b,
            steps[t],
            als,
            pair_count(steps.take(t)) as int,
        ),
    decreases steps.len(),
{
    let rest = steps.drop_last();
    if t < rest.len() {
        lemma_step_rows(a, b, rest, als, t);
        assert(rest.take(t) =~= steps.take(t));
        assert(rest[t] == steps[t]);
    } else {
        if rest.len() > 0 {
            lemma_step_rows(a, b, rest, als, 0);
        }
        assert(steps.take(t) =~= rest);
    }
}

/// Each row's cells put together are the lines that its step shows.
pub proof fn law_a_row_shows_its_lines(
    a: Lines,
    b: Lines,
    steps: Seq<Step>,
    als: Seq<Alignment>,
    t: int,
)
    requires
        0 <= t < steps.len(),
        alignments_read(pair_lines(a, b, steps), als),
        pairs_decode(pair_lines(a, b, steps), als),
    ensures
        step_rows(a, b, steps, als).len() == steps.len(),
        text_of(step_rows(a, b, steps, als)[t].left) == left_line(a, steps[t]),
        text_of(step_rows(a, b, steps, als)[t].right) == right_line(b, steps[t]),
{
    lemma_step_rows(a, b, steps, als, t);
    let none = Seq::<CellModel>::empty();
    match steps[t] {
        Step::Pair(i, j) => {
            let c = pair_count(steps.take(t)) as int;
            let all = pair_lines(a, b, steps);
            lemma_pair_lines(a, b, steps, t);
            lemma_pair_lines(a, b, steps, t + 1);
            assert(steps.take(t + 1).drop_last() =~= steps.take(t));
            assert(steps.take(t + 1).last() == steps[t]);
            assert(pair_lines(a, b, steps.take(t + 1)).last() == (a[i as int], b[j as int]));
            assert(all[c] == (a[i as int], b[j as int]));
            assert(covers(
                als[c].segments@,
                encode_utf8(all[c].0).len(),
                encode_utf8(all[c].1).len(),
            ));
            law_a_changed_row_reads_back(a[i as int], b[j as int], als[c].segments@);
        },
        Step::LeftOnly(i) => {
            lemma_text_one((a[i as int], Mark::Gap));
        },
        Step::RightOnly(j) => {
            lemma_text_one((b[j as int], Mark::Gap));
        },
        Step::Same(i, j) => {
            lemma_text_one((a[i as int], Mark::Equal));
            lemma_text_one((b[j as int], Mark::Equal));
        },
    }
}

/// The texts that are not empty.
pub open spec fn nonblank(texts: Seq<Seq<char>>) -> Seq<Seq<char>>
    decreases texts.len(),
{
    if texts.len() == 0 {
        Seq::empty()
    } else if texts.last().len() > 0 {
        nonblank(texts.drop_last()).push(texts.last())
    } else {
        nonblank(texts.drop_last())
    }
}

/// The left text of each row.
pub open spec fn left_texts(rows: Seq<RowModel>) -> Seq<Seq<char>> {
    Seq::new(rows.len(), |t: int| text_of(rows[t].left))
}

/// The right text of each row.
pub open spec fn right_texts(rows: Seq<RowModel>) -> Seq<Seq<char>> {
    Seq::new(rows.len(), |t: int| text_of(rows[t].right))
}

spec fn picked(a: Lines, at: Seq<int>) -> Lines {
    Seq::new(at.len(), |k: int| a[at[k]])
}

proof fn lemma_shown_lines(a: Lines, b: Lines, steps: Seq<Step>)
    ensures
        nonblank(Seq::new(steps.len(), |t: int| left_line(a, steps[t]))) == nonblank(
            picked(a, left_shown(steps)),
        ),
        nonblank(Seq::new(steps.len(), |t: int| right_line(b, steps[t]))) == nonblank(
            picked(b, right_shown(steps)),
        ),
    decreases steps.len(),
{
    let left = Seq::new(steps.len(), |t: int| left_line(a, steps[t]));
    let right = Seq::new(steps.len(), |t: int| right_line(b, steps[t]));
    if steps.len() == 0 {
        assert(left =~= picked(a, left_shown(steps)));
        assert(right =~= picked(b, right_shown(steps)));
    } else {
        let rest = steps.drop_last();
        lemma_shown_lines(a, b, rest);
        assert(left.drop_last() =~= Seq::new(rest.len(), |t: int| left_line(a, rest[t])));
        assert(right.drop_last() =~= Seq::new(rest.len(), |t: int| right_line(b, rest[t])));
        let pl = picked(a, left_shown(steps));
        let pr = picked(b, right_shown(steps));
        if !(steps.last() is RightOnly) {
            assert(pl.drop_last() =~= picked(a, left_shown(rest)));
            assert(pl.last() == left.last());
        }
        if !(steps.last() is LeftOnly) {
            assert(pr.drop_last() =~= picked(b, right_shown(rest)));
            assert(pr.last() == right.last());
        }
    }
}

/// No line is lost, repeated or moved: unless the rows were cut, what they show on
/// either side, blank lines aside, is that document, line for line.
pub proof fn law_rows_read_back(a: Lines, b: Lines, als: Seq<Alignment>)
    requires
        a.len() <= usize::MAX,
        b.len() <= usize::MAX,
        !plan(a, b).1,
        alignments_read(pair_lines(a, b, plan(a, b).0), als),
        pairs_decode(pair_lines(a, b, plan(a, b).0), als),
    ensures
        nonblank(left_texts(step_rows(a, b, plan(a, b).0, als))) == nonblank(a),
        nonblank(right_texts(step_rows(a, b, plan(a, b).0, als))) == nonblank(b),
{
    let steps = plan(a, b).0;
    let rows = step_rows(a, b, steps, als);
    law_every_line_is_shown_once(a, b);
    lemma_shown_lines(a, b, steps);
    assert(picked(a, count_up(a.len() as int)) =~= a);
    assert(picked(b, count_up(b.len() as int)) =~= b);
    if steps.len() > 0 {
        law_a_row_shows_its_lines(a, b, steps, als, 0);
    }
    assert forall|t: int| 0 <= t < steps.len() implies text_of((#[trigger] rows[t]).left)
        == left_line(a, steps[t]) && text_of(rows[t].right) == right_line(b, steps[t]) by {
        law_a_row_shows_its_lines(a, b, steps, als, t);
    }
    assert(left_texts(rows) =~= Seq::new(steps.len(), |t: int| left_line(a, steps[t])));
    assert(right_texts(rows) =~= Seq::new(steps.len(), |t: int| right_line(b, steps[t])));
}

/// How many rows show no difference.
pub open spec fn unchanged_count(rows: Seq<RowModel>) -> nat
    decreases rows.len(),
{
    if rows.len() == 0 {
        0
    } else {
        unchanged_count(rows.drop_last()) + if rows.last().changed {
            0nat
        } else {
            1nat
        }
    }
}

proof fn lemma_unchanged_count(a: Lines, b: Lines, steps: Seq<Step>, als: Seq<Alignment>)
    ensures
        unchanged_count(step_rows(a, b, steps, als)) == same_count(steps),
    decreases steps.len(),
{
    if steps.len() > 0 {
        lemma_unchanged_count(a, b, steps.drop_last(), als);
        let rows = step_rows(a, b, steps, als);
        assert(rows.drop_last() =~= step_rows(a, b, steps.drop_last(), als));
    }
}

/// A row shows no difference exactly where both sides show a line and the lines
/// are equal.
pub proof fn law_unchanged_rows_are_equal_lines(a: Lines, b: Lines, als: Seq<Alignment>, t: int)
    requires
        a.len() <= usize::MAX,
        b.len() <= usize::MAX,
        alignments_read(pair_lines(a, b, plan(a, b).0), als),
        pairs_decode(pair_lines(a, b, plan(a, b).0), als),
        0 <= t < step_rows(a, b, plan(a, b).0, als).len(),
    ensures
        ({
            let row = step_rows(a, b, plan(a, b).0, als)[t];
            !row.changed == (row.left.len() > 0 && row.right.len() > 0 && text_of(row.left)
                == text_of(row.right))
        }),
{
    let steps = plan(a, b).0;
    if steps.len() > 0 {
        lemma_step_rows(a, b, steps, als, 0);
        lemma_step_rows(a, b, steps, als, t);
        law_a_row_shows_its_lines(a, b, steps, als, t);
        lemma_plan_true(a, b, 0, Seq::empty());
        assert(steps_true(a, b, steps));
        assert(steps[t] == plan(a, b).0[t]);
    }
}

/// Unless the rows were cut or the documents are too large, the rows without a
/// difference are as many as a longest common subsequence of the lines has: no
/// other pairing of equal lines has more.
pub proof fn law_unchanged_rows_are_the_most_there_are(
    a: Lines,
    b: Lines,
    als: Seq<Alignment>,
    other: Seq<(int, int)>,
)
    requires
        a.len() <= usize::MAX,
        b.len() <= usize::MAX,
        !plan(a, b).1,
        !too_large(a, b),
        common(a, b, other, 0, 0),
    ensures
        unchanged_count(step_rows(a, b, plan(a, b).0, als)) == lcs_len(a, b, 0, 0),
        other.len() <= unchanged_count(step_rows(a, b, plan(a, b).0, als)),
{
    lemma_unchanged_count(a, b, plan(a, b).0, als);
    lemma_plan_true(a, b, 0, Seq::empty());
    lemma_lcs_pairs(a, b, 0, 0);
    law_pairing_is_longest(a, b, other);
}

/// A segment of equal bytes gives plain cells on both sides; one that differs gives a
/// change on both sides where both have text, and a gap on the side that has text
/// where only one has.
pub proof fn law_a_segment_marks_its_cells(x: Seq<u8>, y: Seq<u8>, s: Segment)
    ensures
        ({
            let l = left_cell(x, y, s);
            let r = right_cell(x, y, s);
            let on_left = s.a_start < s.a_end;
            let on_right = s.b_start < s.b_end;
            &&& on_left ==> l.len() == 1 && l[0].0 == lossy_text(
                x.subrange(s.a_start as int, s.a_end as int),
            )
            &&& on_right ==> r.len() == 1 && r[0].0 == lossy_text(
                y.subrange(s.b_start as int, s.b_end as int),
            )
            &&& !on_left ==> l.len() == 0
            &&& !on_right ==> r.len() == 0
            &&& s.kind == SegmentKind::Equal && on_left ==> l[0].1 == Mark::Equal
            &&& s.kind == SegmentKind::Equal && on_right ==> r[0].1 == Mark::Equal
            &&& s.kind == SegmentKind::Diff && on_left && on_right ==> l[0].1 == Mark::Change
                && r[0].1 == Mark::Change
            &&& s.kind == SegmentKind::Diff && on_left && !on_right ==> l[0].1 == Mark::Gap
            &&& s.kind == SegmentKind::Diff && !on_left && on_right ==> r[0].1 == Mark::Gap
        }),
{
}

/// A line that one side lacks stands alone as a gap on its own side; a shared line
/// stands plain on both.
pub proof fn law_lone_lines_are_gaps(
    a: Lines,
    b: Lines,
    i: usize,
    j: usize,
    als: Seq<Alignment>,
    k: int,
)
    ensures
        ({
            let row = step_row(a, b, Step::LeftOnly(i), als, k);
            row.changed && row.right.len() == 0 && row.left == seq![(a[i as int], Mark::Gap)]
        }),
        ({
            let row = step_row(a, b, Step::RightOnly(j), als, k);
            row.changed && row.left.len() == 0 && row.right == seq![(b[j as int], Mark::Gap)]
        }),
        ({
            let row = step_row(a, b, Step::Same(i, j), als, k);
            &&& !row.changed
            &&& row.left == seq![(a[i as int], Mark::Equal)]
            &&& row.right == seq![(b[j as int], Mark::Equal)]
        }),
        step_row(a, b, Step::Pair(i, j), als, k).changed,
{
}

/// Between two shared lines the lines of both sides stand beside each other by their
/// position, and the surplus of the longer side stands alone.
pub proof fn law_unmatched_lines_pair_by_position(ai: int, mi: int, bj: int, mj: int, k: int)
    requires
        0 <= ai <= mi <= usize::MAX,
        0 <= bj <= mj <= usize::MAX,
        0 <= k < block(ai, mi, bj, mj).len(),
    ensures
        ({
            let rows = block(ai, mi, bj, mj);
            let p = mi - ai;
            let q = mj - bj;
            &&& rows.len() >= p && rows.len() >= q && (rows.len() == p || rows.len() == q)
            &&& k < p && k < q ==> (rows[k] matches Step::Pair(i, j) && i == ai + k && j == bj + k)
            &&& q <= k < p ==> (rows[k] matches Step::LeftOnly(i) && i == ai + k)
            &&& p <= k < q ==> (rows[k] matches Step::RightOnly(j) && j == bj + k)
        }),
{
}

/// Of two documents too large to be paired exactly, the lines that are equal at the
/// same place are shared, all of them and no others, in order.
pub proof fn law_large_documents_pair_by_place(a: Lines, b: Lines, i: int, k: int)
    requires
        0 <= i,
    ensures
        index_pairs(a, b, i).contains((k, k)) <==> i <= k < a.len() && k < b.len() && a[k] == b[k],
        forall|t: int|
            0 <= t < index_pairs(a, b, i).len() ==> (#[trigger] index_pairs(a, b, i)[t]).0
                == index_pairs(a, b, i)[t].1,
    decreases a.len() - i,
{
    let all = index_pairs(a, b, i);
    if i < a.len() && i < b.len() {
        law_large_documents_pair_by_place(a, b, i + 1, k);
        let rest = index_pairs(a, b, i + 1);
        if a[i] == b[i] {
            assert(all == seq![(i, i)] + rest);
            assert(all[0] == (i, i));
            if rest.contains((k, k)) {
                let t = rest.index_of((k, k));
                assert(all[t + 1] == (k, k));
            }
            if all.contains((k, k)) {
                let t = all.index_of((k, k));
                if t > 0 {
                    assert(rest[t - 1] == (k, k));
                    assert(rest.contains((k, k)));
                }
            }
            assert forall|t: int| 0 <= t < all.len() implies (#[trigger] all[t]).0
                == all[t].1 by {
                if t > 0 {
                    assert(all[t] == rest[t - 1]);
                }
            }
        }
    }
}

/// Documents are paired exactly up to a budget of line pairs, and by place beyond it.
pub proof fn law_the_budget_decides_how_to_pair(a: Lines, b: Lines)
    ensures
        a.len() * b.len() <= LCS_BUDGET ==> matched(a, b) == lcs_pairs(a, b, 0, 0),
        a.len() * b.len() > LCS_BUDGET ==> matched(a, b) == index_pairs(a, b, 0),
{
}

/// Equal lines pair up at once; where passing over either line promises as much, the
/// left one is passed over.
pub proof fn law_ties_pass_over_the_left_line(a: Lines, b: Lines, i: int, j: int)
    requires
        0 <= i < a.len(),
        0 <= j < b.len(),
    ensures
        a[i] == b[j] ==> lcs_pairs(a, b, i, j) == seq![(i, j)] + lcs_pairs(a, b, i + 1, j + 1),
        a[i] != b[j] && lcs_len(a, b, i + 1, j) == lcs_len(a, b, i, j + 1) ==> lcs_pairs(a, b, i, j)
            == lcs_pairs(a, b, i + 1, j),
{
}

/// A plan that is cut shows the first rows of what it would show: rows that were
/// planned stay as they are when more are planned behind them.
pub proof fn law_planned_rows_stay(
    n: int,
    m: int,
    ms: Seq<(int, int)>,
    k: int,
    ai: int,
    bj: int,
    acc: Seq<Step>,
    t: int,
)
    requires
        0 <= t < acc.len() <= MAX_ROWS,
    ensures
        t < plan_from(n, m, ms, k, ai, bj, acc).0.len(),
        plan_from(n, m, ms, k, ai, bj, acc).0[t] == acc[t],
    decreases ms.len() + 1 - k,
{
    if 0 <= k <= ms.len() {
        let (mi, mj) = stop(ms, k, n, m);
        let next = after_stop(n, acc, ai, mi, bj, mj);
        assert(next[t] == acc[t]);
        if next.len() <= MAX_ROWS {
            law_planned_rows_stay(n, m, ms, k + 1, mi + 1, mj + 1, next, t);
        }
    }
}

} // verus!
