//! The full-file, aligned, paginated hex diff.
//!
//! [`HexDiff::build`] flattens a byte alignment of two files into a stream of
//! aligned units, one per byte position, carrying the byte on each side (either
//! may be absent, which is a gap). The stream reads as a dual hex dump where
//! equal bytes line up; it paginates, jumps between differences, and says when
//! only part of a very large file was read.

use vstd::prelude::*;
use vstd::string::*;

use crate::align::{Alignment, Segment, SegmentKind};
use crate::text::{push_char, push_hex2, push_hex_padded};
use crate::theme::Ink;

verus! {

broadcast use vstd::seq_lib::group_seq_properties;

/// Bytes per row, per side.
pub const ROW: usize = 16;

/// Rows shown per page.
pub const ROWS_PER_PAGE: usize = 40;

/// Largest slice kept of each file; a longer file is cut, and says so.
pub const MAX_READ: usize = 8388608;

/// Ceiling on the flattened unit stream, a second guard on memory.
pub const MAX_UNITS: usize = 4194304;

/// One aligned byte position: the offset and byte on each side (either may be
/// absent, a gap), and whether this position is part of a differing run.
#[derive(Clone, Copy, Debug, PartialEq, Eq)]
pub struct Unit {
    pub a: Option<(u32, u8)>,
    pub b: Option<(u32, u8)>,
    pub diff: bool,
}

/// A built, paginable aligned hex diff of two byte streams.
pub struct HexDiff {
    /// The aligned byte positions.
    pub units: Vec<Unit>,
    /// Row indices that contain at least one difference.
    pub diff_rows: Vec<usize>,
    /// The alignment degraded to a coarse block-level match (large input).
    pub degraded: bool,
    /// One or both sides, or the unit stream, were cut.
    pub truncated: bool,
    /// A side could not be read and is treated as empty here.
    pub read_failed: bool,
}

/// How many positions a segment takes: the longer of its two stretches.
pub open spec fn segment_len(s: Segment) -> nat {
    let p = s.a_end - s.a_start;
    let q = s.b_end - s.b_start;
    if p >= q {
        p as nat
    } else {
        q as nat
    }
}

/// The unit at position `k` of a segment.
pub open spec fn segment_unit(a: Seq<u8>, b: Seq<u8>, s: Segment, k: int) -> Unit {
    Unit {
        a: if s.a_start + k < s.a_end {
            Some(((s.a_start + k) as u32, a[s.a_start + k]))
        } else {
            None
        },
        b: if s.b_start + k < s.b_end {
            Some(((s.b_start + k) as u32, b[s.b_start + k]))
        } else {
            None
        },
        diff: s.kind == SegmentKind::Diff,
    }
}

/// The units of one segment: both stretches from their start, side by side.
pub open spec fn segment_units(a: Seq<u8>, b: Seq<u8>, s: Segment) -> Seq<Unit> {
    Seq::new(segment_len(s), |k: int| segment_unit(a, b, s, k))
}

/// The units of a list of segments, one segment after the other.
pub open spec fn unit_stream(a: Seq<u8>, b: Seq<u8>, segments: Seq<Segment>) -> Seq<Unit>
    decreases segments.len(),
{
    if segments.len() == 0 {
        Seq::empty()
    } else {
        unit_stream(a, b, segments.drop_last()) + segment_units(a, b, segments.last())
    }
}

/// How many rows of `ROW` units `n` units fill.
pub open spec fn row_count(n: nat) -> nat {
    (n + 15) / 16
}

/// Whether row `r` holds a differing unit.
pub open spec fn row_differs(units: Seq<Unit>, r: int) -> bool {
    exists|i: int| 16 * r <= i < 16 * r + 16 && 0 <= i < units.len() && (#[trigger] units[i]).diff
}

/// `rows` are exactly the rows of `units` that differ, in ascending order.
pub open spec fn lists_diff_rows(rows: Seq<usize>, units: Seq<Unit>) -> bool {
    &&& forall|i: int, j: int| 0 <= i < j < rows.len() ==> rows[i] < rows[j]
    &&& forall|i: int|
        0 <= i < rows.len() ==> #[trigger] rows[i] < row_count(units.len()) && row_differs(
            units,
            rows[i] as int,
        )
    &&& forall|r: int|
        0 <= r < row_count(units.len()) && #[trigger] row_differs(units, r) ==> rows.contains(
            r as usize,
        )
}

/// The bytes that the units carry for the first stream, in order.
pub open spec fn left_bytes(units: Seq<Unit>) -> Seq<u8>
    decreases units.len(),
{
    if units.len() == 0 {
        Seq::empty()
    } else {
        match units.last().a {
            Some(p) => left_bytes(units.drop_last()).push(p.1),
            None => left_bytes(units.drop_last()),
        }
    }
}

/// The bytes that the units carry for the second stream, in order.
pub open spec fn right_bytes(units: Seq<Unit>) -> Seq<u8>
    decreases units.len(),
{
    if units.len() == 0 {
        Seq::empty()
    } else {
        match units.last().b {
            Some(p) => right_bytes(units.drop_last()).push(p.1),
            None => right_bytes(units.drop_last()),
        }
    }
}

proof fn lemma_stream_prefix(a: Seq<u8>, b: Seq<u8>, segments: Seq<Segment>, i: int)
    requires
        0 <= i <= segments.len(),
    ensures
        unit_stream(a, b, segments.take(i)).len() <= unit_stream(a, b, segments).len(),
        unit_stream(a, b, segments.take(i)) == unit_stream(a, b, segments).take(
            unit_stream(a, b, segments.take(i)).len() as int,
        ),
    decreases segments.len() - i,
{
    if i == segments.len() {
        assert(segments.take(i) == segments);
        assert(unit_stream(a, b, segments).take(unit_stream(a, b, segments).len() as int)
            == unit_stream(a, b, segments));
    } else {
        lemma_stream_prefix(a, b, segments, i + 1);
        let next = segments.take(i + 1);
        assert(next.drop_last() == segments.take(i));
        let p = unit_stream(a, b, segments.take(i));
        let q = unit_stream(a, b, next);
        assert(q.take(p.len() as int) == p);
        assert(unit_stream(a, b, segments).take(q.len() as int).take(p.len() as int)
            == unit_stream(a, b, segments).take(p.len() as int));
    }
}

/// No unit is part of a differing run.
pub open spec fn all_same(units: Seq<Unit>) -> bool {
    forall|i: int| 0 <= i < units.len() ==> !(#[trigger] units[i]).diff
}

/// The offset run of a hex row.
pub open spec fn offset_text(offset: Option<u32>) -> Seq<char> {
    match offset {
        Some(off) => crate::text::zero_pad(crate::text::hex(off as nat), 8) + "  "@,
        None => "          "@,
    }
}

/// The byte that a unit carries on one side.
pub open spec fn side_of(u: Unit, left: bool) -> Option<(u32, u8)> {
    if left {
        u.a
    } else {
        u.b
    }
}

/// The first offset on one side at or after position `i` of the row that ends
/// before `end`.
pub open spec fn first_offset(units: Seq<Unit>, left: bool, i: int, end: int) -> Option<u32>
    decreases end - i,
{
    if i >= end || i < 0 || i >= units.len() {
        None
    } else {
        match side_of(units[i], left) {
            Some(p) => Some(p.0),
            None => first_offset(units, left, i + 1, end),
        }
    }
}

/// The colour of a unit: plain where equal, amber where both sides carry a
/// differing byte, green where only one side has a byte.
pub open spec fn unit_ink(u: Unit) -> Ink {
    if !u.diff {
        Ink::Text
    } else if u.a is Some && u.b is Some {
        Ink::Amber
    } else {
        Ink::Green
    }
}

/// The hex run of position `i` on one side.
pub open spec fn byte_run(units: Seq<Unit>, left: bool, i: int) -> (Seq<char>, Ink) {
    if i < units.len() {
        match side_of(units[i], left) {
            Some(p) => (crate::text::hex2(p.1) + " "@, unit_ink(units[i])),
            None => ("   "@, Ink::Text),
        }
    } else {
        ("   "@, Ink::Text)
    }
}

/// The gutter character of position `i` on one side.
pub open spec fn gutter_char(units: Seq<Unit>, left: bool, i: int) -> char {
    if i < units.len() {
        match side_of(units[i], left) {
            Some(p) => if 0x20 <= p.1 < 0x7f {
                p.1 as char
            } else {
                '.'
            },
            None => ' ',
        }
    } else {
        ' '
    }
}

/// The runs of one side of one row: the offset, sixteen hex bytes, a space and
/// the gutter, each with its colour.
pub open spec fn side_row(units: Seq<Unit>, row: int, left: bool) -> Seq<(Seq<char>, Ink)> {
    let base = 16 * row;
    seq![(offset_text(first_offset(units, left, base, base + 16)), Ink::Grey)] + Seq::new(
        16,
        |i: int| byte_run(units, left, base + i),
    ) + seq![
        (" "@, Ink::Text),
        (Seq::new(16, |i: int| gutter_char(units, left, base + i)), Ink::Tan),
    ]
}

/// The texts and colours of a list of runs.
pub open spec fn runs_view(runs: Seq<(String, Ink)>) -> Seq<(Seq<char>, Ink)> {
    Seq::new(runs.len(), |i: int| (runs[i].0@, runs[i].1))
}

impl HexDiff {
    /// The aligned units.
    pub open spec fn units(&self) -> Seq<Unit> {
        self.units@
    }

    /// The rows that differ.
    pub open spec fn diff_rows(&self) -> Seq<usize> {
        self.diff_rows@
    }

    /// The listed rows are those of the units.
    pub open spec fn wf(&self) -> bool {
        &&& lists_diff_rows(self.diff_rows(), self.units())
        &&& self.units().len() <= MAX_UNITS
    }

    /// Builds the aligned diff from the two files' (already read, possibly cut)
    /// bytes and their alignment. `truncated` says whether the caller cut either
    /// side to [`MAX_READ`].
    pub fn build(
        a: &[u8],
        b: &[u8],
        alignment: &Alignment,
        truncated: bool,
        read_failed: bool,
    ) -> (r: Self)
        requires
            alignment.fits(a@.len(), b@.len()),
        ensures
            r.wf(),
            ({
                let all = unit_stream(a@, b@, alignment.segments@);
                let full = all.len() > MAX_UNITS;
                &&& r.units() == if full {
                    all.take(MAX_UNITS as int)
                } else {
                    all
                }
                &&& r.truncated == (truncated || full)
            }),
            r.degraded == alignment.degraded,
            r.read_failed == read_failed,
            crate::align::sound(alignment.segments@, a@, b@) && a@.len() + b@.len() <= MAX_UNITS
                ==> all_same(r.units()) == (a@ == b@) && r.truncated == truncated,
    {
        let mut units: Vec<Unit> = Vec::new();
        let mut full = false;
        let ghost segs = alignment.segments@;
        let mut i: usize = 0;
        while i < alignment.segments.len() && !full
            invariant
                i <= segs.len(),
                segs == alignment.segments@,
                alignment.fits(a@.len(), b@.len()),
                units@.len() <= MAX_UNITS,
                !full ==> units@ == unit_stream(a@, b@, segs.take(i as int)),
                full ==> {
                    &&& unit_stream(a@, b@, segs).len() > MAX_UNITS
                    &&& units@ == unit_stream(a@, b@, segs).take(MAX_UNITS as int)
                },
            decreases segs.len() - i,
        {
            let s = alignment.segments[i];
            assert(s.fits(a@.len(), b@.len()));
            let p: usize = s.a_end - s.a_start;
            let q: usize = s.b_end - s.b_start;
            let n: usize = if p >= q {
                p
            } else {
                q
            };
            let diff = match s.kind {
                SegmentKind::Diff => true,
                SegmentKind::Equal => false,
            };
            let ghost before = units@;
            let ghost own = segment_units(a@, b@, s);
            let mut k: usize = 0;
            while k < n && !full
                invariant
                    k <= n,
                    n == own.len(),
                    p == s.a_end - s.a_start,
                    q == s.b_end - s.b_start,
                    s.fits(a@.len(), b@.len()),
                    own == segment_units(a@, b@, s),
                    n == segment_len(s),
                    diff == (s.kind == SegmentKind::Diff),
                    full ==> units@.len() == MAX_UNITS && k < n,
                    units@.len() <= MAX_UNITS,
                    units@ == before + own.take(k as int),
                decreases
                    n - k,
                    if full {
                        0int
                    } else {
                        1int
                    },
            {
                if units.len() >= MAX_UNITS {
                    full = true;
                    continue;
                }
                let ua: Option<(u32, u8)> = if k < p {
                    Some(((s.a_start + k) as u32, a[s.a_start + k]))
                } else {
                    None
                };
                let ub: Option<(u32, u8)> = if k < q {
                    Some(((s.b_start + k) as u32, b[s.b_start + k]))
                } else {
                    None
                };
                let u = Unit { a: ua, b: ub, diff };
                assert(u == own[k as int]);
                units.push(u);
                k += 1;
                assert(units@ =~= before + own.take(k as int));
            }
            proof {
                let next = segs.take(i + 1);
                assert(next.drop_last() == segs.take(i as int));
                assert(next.last() == s);
                lemma_stream_prefix(a@, b@, segs, i + 1);
                let q = unit_stream(a@, b@, next);
                assert(q == before + own);
                if full {
                    assert(units@ =~= q.take(MAX_UNITS as int));
                    assert(unit_stream(a@, b@, segs).take(q.len() as int).take(MAX_UNITS as int)
                        =~= unit_stream(a@, b@, segs).take(MAX_UNITS as int));
                } else {
                    assert(own.take(n as int) == own);
                }
            }
            i += 1;
        }
        proof {
            assert(segs.take(segs.len() as int) == segs);
            if crate::align::sound(segs, a@, b@) {
                law_no_difference_exactly_for_the_same_bytes(a@, b@, segs);
            }
        }
        let diff_rows = list_diff_rows(&units);
        HexDiff {
            units,
            diff_rows,
            degraded: alignment.degraded,
            truncated: truncated || full,
            read_failed,
        }
    }

    /// Total number of rows across all pages.
    pub fn rows(&self) -> (r: usize)
        ensures
            r == row_count(self.units().len()),
    {
        rows_for(self.units.len())
    }

    /// Number of pages; an empty diff still has one.
    pub fn pages(&self) -> (r: usize)
        ensures
            ({
                let rows = row_count(self.units().len());
                r == if rows == 0 {
                    1
                } else {
                    (rows + 39) / 40
                }
            }),
    {
        let rows = self.rows();
        let whole: usize = rows / ROWS_PER_PAGE;
        let pages: usize = if rows % ROWS_PER_PAGE > 0 {
            whole + 1
        } else {
            whole
        };
        if pages == 0 {
            1
        } else {
            pages
        }
    }

    /// Whether the two streams are identical (no differing run at all).
    pub fn is_identical(&self) -> (r: bool)
        requires
            self.wf(),
        ensures
            r == (self.diff_rows().len() == 0),
            r == all_same(self.units()),
    {
        proof {
            let rows = self.diff_rows();
            let units = self.units();
            if rows.len() == 0 {
                assert forall|i: int| 0 <= i < units.len() implies !(#[trigger] units[i]).diff by {
                    if units[i].diff {
                        assert(row_differs(units, i / 16));
                        assert(rows.contains((i / 16) as usize));
                    }
                }
            } else {
                assert(row_differs(units, rows[0] as int));
            }
        }
        self.diff_rows.len() == 0
    }

    /// The page holding the first difference after `current_page`, wrapping to
    /// the top: for "jump to next difference".
    pub fn next_diff_page(&self, current_page: usize) -> (r: Option<usize>)
        requires
            self.wf(),
            (current_page + 1) * ROWS_PER_PAGE <= usize::MAX,
        ensures
            (r is None) == (self.diff_rows().len() == 0),
            r is Some ==> exists|k: int|
                {
                    &&& 0 <= k < self.diff_rows().len()
                    &&& #[trigger] self.diff_rows()[k] / ROWS_PER_PAGE == r->0
                    &&& next_is(self.diff_rows(), (current_page + 1) * ROWS_PER_PAGE, k)
                },
    {
        if self.diff_rows.len() == 0 {
            return None;
        }
        let after: usize = (current_page + 1) * ROWS_PER_PAGE;
        let mut k: usize = 0;
        while k < self.diff_rows.len()
            invariant
                k <= self.diff_rows@.len(),
                self.diff_rows@.len() > 0,
                self.wf(),
                after == (current_page + 1) * ROWS_PER_PAGE,
                forall|j: int| 0 <= j < k ==> #[trigger] self.diff_rows@[j] < after,
            decreases self.diff_rows@.len() - k,
        {
            if self.diff_rows[k] >= after {
                assert(next_is(self.diff_rows(), after as int, k as int));
                return Some(self.diff_rows[k] / ROWS_PER_PAGE);
            }
            k += 1;
        }
        assert(next_is(self.diff_rows(), after as int, 0));
        Some(self.diff_rows[0] / ROWS_PER_PAGE)
    }

    /// The page holding the last difference before `current_page`, wrapping to
    /// the end: for "jump to previous difference".
    pub fn prev_diff_page(&self, current_page: usize) -> (r: Option<usize>)
        requires
            self.wf(),
            current_page * ROWS_PER_PAGE <= usize::MAX,
        ensures
            (r is None) == (self.diff_rows().len() == 0),
            r is Some ==> exists|k: int|
                {
                    &&& 0 <= k < self.diff_rows().len()
                    &&& #[trigger] self.diff_rows()[k] / ROWS_PER_PAGE == r->0
                    &&& prev_is(self.diff_rows(), current_page * ROWS_PER_PAGE, k)
                },
    {
        if self.diff_rows.len() == 0 {
            return None;
        }
        let before: usize = current_page * ROWS_PER_PAGE;
        let mut k: usize = self.diff_rows.len();
        while k > 0
            invariant
                k <= self.diff_rows@.len(),
                self.diff_rows@.len() > 0,
                self.wf(),
                before == current_page * ROWS_PER_PAGE,
                forall|j: int|
                    k <= j < self.diff_rows@.len() ==> #[trigger] self.diff_rows@[j] >= before,
            decreases k,
        {
            k -= 1;
            if self.diff_rows[k] < before {
                assert(prev_is(self.diff_rows(), before as int, k as int));
                return Some(self.diff_rows[k] / ROWS_PER_PAGE);
            }
        }
        let last: usize = self.diff_rows.len() - 1;
        assert(prev_is(self.diff_rows(), before as int, last as int));
        Some(self.diff_rows[last] / ROWS_PER_PAGE)
    }

    /// The rows of one page: the first, and the one past the last.
    pub fn page_rows(&self, page: usize) -> (r: (usize, usize))
        requires
            (page + 1) * ROWS_PER_PAGE <= usize::MAX,
        ensures
            r.0 == page * ROWS_PER_PAGE,
            ({
                let rows = row_count(self.units().len());
                r.1 == if r.0 + ROWS_PER_PAGE <= rows {
                    r.0 + ROWS_PER_PAGE
                } else {
                    rows as int
                }
            }),
    {
        let start: usize = page * ROWS_PER_PAGE;
        let rows = self.rows();
        let end: usize = if start + ROWS_PER_PAGE <= rows {
            start + ROWS_PER_PAGE
        } else {
            rows
        };
        (start, end)
    }

    /// Whether a row carries a difference: the band drawn behind it.
    pub fn is_diff_row(&self, row: usize) -> (r: bool)
        requires
            row * ROW + ROW <= usize::MAX,
        ensures
            r == row_differs(self.units(), row as int),
    {
        differs(&self.units, row)
    }

    /// One side of one row: offset, then sixteen hex bytes (blank where that side
    /// has a gap), then the gutter of printable characters.
    pub fn side_runs(&self, row: usize, left: bool) -> (r: Vec<(String, Ink)>)
        requires
            row * ROW + ROW <= usize::MAX,
        ensures
            runs_view(r@) == side_row(self.units(), row as int, left),
    {
        let base: usize = row * ROW;
        let ghost units = self.units@;
        let mut offset: Option<u32> = None;
        let mut i: usize = 0;
        while i < ROW && offset.is_none() && base + i < self.units.len()
            invariant
                i <= ROW,
                base == 16 * row,
                base + ROW <= usize::MAX,
                units == self.units@,
                offset is None ==> first_offset(units, left, base as int, base + 16)
                    == first_offset(units, left, base + i, base + 16),
                offset is Some ==> first_offset(units, left, base as int, base + 16) == offset,
            decreases ROW - i,
        {
            let u = self.units[base + i];
            let side = if left {
                u.a
            } else {
                u.b
            };
            if let Some(p) = side {
                offset = Some(p.0);
            }
            i += 1;
        }
        let mut head = String::new();
        match offset {
            Some(off) => {
                push_hex_padded(&mut head, off as usize, 8);
                head.append("  ");
            },
            None => {
                head.append("          ");
            },
        }
        proof {
            assert(head@ =~= offset_text(first_offset(units, left, base as int, base + 16)));
        }
        let mut out: Vec<(String, Ink)> = Vec::new();
        let mut gutter = String::new();
        out.push((head, Ink::Grey));
        let ghost first = runs_view(out@);
        let mut k: usize = 0;
        while k < ROW
            invariant
                k <= ROW,
                base == 16 * row,
                base + ROW <= usize::MAX,
                units == self.units@,
                runs_view(out@) == first + Seq::new(
                    k as nat,
                    |i: int| byte_run(units, left, base + i),
                ),
                gutter@ == Seq::new(k as nat, |i: int| gutter_char(units, left, base + i)),
            decreases ROW - k,
        {
            let ghost before = out@;
            let ghost ink = byte_run(units, left, base + k);
            let mut cell = String::new();
            let mut color = Ink::Text;
            let mut mark = ' ';
            let mut filled = false;
            if base + k < self.units.len() {
                let u = self.units[base + k];
                let side = if left {
                    u.a
                } else {
                    u.b
                };
                if let Some(p) = side {
                    filled = true;
                    push_hex2(&mut cell, p.1);
                    cell.append(" ");
                    if u.diff {
                        color = if u.a.is_some() && u.b.is_some() {
                            Ink::Amber
                        } else {
                            Ink::Green
                        };
                    }
                    mark = if 0x20 <= p.1 && p.1 < 0x7f {
                        p.1 as char
                    } else {
                        '.'
                    };
                    assert(cell@ =~= crate::text::hex2(p.1) + " "@);
                }
            }
            if !filled {
                cell.append("   ");
                assert(cell@ =~= "   "@);
            }
            out.push((cell, color));
            push_char(&mut gutter, mark);
            k += 1;
            proof {
                assert(runs_view(out@) =~= runs_view(before).push(ink));
                assert(runs_view(out@) =~= first + Seq::new(
                    k as nat,
                    |i: int| byte_run(units, left, base + i),
                ));
                assert(gutter@ =~= Seq::new(k as nat, |i: int| gutter_char(units, left, base + i)));
            }
        }
        let ghost mid = runs_view(out@);
        let blank = " ".to_string();
        out.push((blank, Ink::Text));
        out.push((gutter, Ink::Tan));
        assert(runs_view(out@) =~= mid + seq![(" "@, Ink::Text), (gutter@, Ink::Tan)]);
        assert(runs_view(out@) =~= side_row(units, row as int, left));
        out
    }
}

/// `k` indexes the first row at or past `after`, or the first row of all where
/// no row is that far.
pub open spec fn next_is(rows: Seq<usize>, after: int, k: int) -> bool {
    if exists|j: int| 0 <= j < rows.len() && #[trigger] rows[j] >= after {
        &&& rows[k] >= after
        &&& forall|j: int| 0 <= j < k ==> #[trigger] rows[j] < after
    } else {
        k == 0
    }
}

/// `k` indexes the last row before `before`, or the last row of all where no row
/// is before it.
pub open spec fn prev_is(rows: Seq<usize>, before: int, k: int) -> bool {
    if exists|j: int| 0 <= j < rows.len() && #[trigger] rows[j] < before {
        &&& rows[k] < before
        &&& forall|j: int| k < j < rows.len() ==> #[trigger] rows[j] >= before
    } else {
        k == rows.len() - 1
    }
}

fn rows_for(n: usize) -> (r: usize)
    ensures
        r == row_count(n as nat),
{
    let whole: usize = n / ROW;
    if n % ROW > 0 {
        whole + 1
    } else {
        whole
    }
}

fn differs(units: &Vec<Unit>, row: usize) -> (r: bool)
    requires
        row * ROW + ROW <= usize::MAX,
    ensures
        r == row_differs(units@, row as int),
{
    let base: usize = row * ROW;
    let mut i: usize = 0;
    while i < ROW && base + i < units.len()
        invariant
            i <= ROW,
            base == 16 * row,
            base + ROW <= usize::MAX,
            forall|j: int|
                base <= j < base + i && j < units@.len() ==> !(#[trigger] units@[j]).diff,
        decreases ROW - i,
    {
        if units[base + i].diff {
            assert(units@[base + i].diff);
            return true;
        }
        i += 1;
    }
    false
}

fn list_diff_rows(units: &Vec<Unit>) -> (r: Vec<usize>)
    requires
        units@.len() <= MAX_UNITS,
    ensures
        lists_diff_rows(r@, units@),
{
    let n = rows_for(units.len());
    let mut out: Vec<usize> = Vec::new();
    let mut row: usize = 0;
    while row < n
        invariant
            row <= n,
            n == row_count(units@.len()),
            units@.len() <= MAX_UNITS,
            forall|i: int, j: int| 0 <= i < j < out@.len() ==> out@[i] < out@[j],
            forall|i: int|
                0 <= i < out@.len() ==> #[trigger] out@[i] < row && row_differs(
                    units@,
                    out@[i] as int,
                ),
            forall|r: int|
                0 <= r < row && #[trigger] row_differs(units@, r) ==> out@.contains(r as usize),
        decreases n - row,
    {
        let ghost before = out@;
        if differs(units, row) {
            out.push(row);
            proof {
                assert(out@[before.len() as int] == row);
                assert forall|r: int| 0 <= r < row + 1 && #[trigger] row_differs(units@, r) implies out@.contains(
                    r as usize,
                ) by {
                    if r < row {
                        let i = choose|i: int| 0 <= i < before.len() && before[i] == r as usize;
                        assert(out@[i] == r as usize);
                    }
                }
            }
        }
        row += 1;
    }
    out
}

/// Bytes kept of one side for the diff, capped at [`MAX_READ`].
pub struct Capped {
    pub bytes: Vec<u8>,
    /// The file was longer than [`MAX_READ`] and only its head was kept.
    pub truncated: bool,
    /// The file could be read at all; where it could not, the empty bytes are no
    /// content.
    pub read_ok: bool,
}

impl Capped {
    /// What is kept of a file that was read in full, or could not be read.
    pub fn of(read: Option<Vec<u8>>) -> (r: Self)
        ensures
            match read {
                Some(bytes) => {
                    &&& r.read_ok
                    &&& r.truncated == (bytes@.len() > MAX_READ)
                    &&& r.bytes@ == if bytes@.len() > MAX_READ {
                        bytes@.take(MAX_READ as int)
                    } else {
                        bytes@
                    }
                },
                None => !r.read_ok && !r.truncated && r.bytes@.len() == 0,
            },
    {
        match read {
            Some(mut bytes) => {
                let truncated = bytes.len() > MAX_READ;
                if truncated {
                    bytes.truncate(MAX_READ);
                }
                Capped { bytes, truncated, read_ok: true }
            },
            None => Capped { bytes: Vec::new(), truncated: false, read_ok: false },
        }
    }
}

proof fn lemma_bytes_append(x: Seq<Unit>, y: Seq<Unit>)
    ensures
        left_bytes(x + y) == left_bytes(x) + left_bytes(y),
        right_bytes(x + y) == right_bytes(x) + right_bytes(y),
    decreases y.len(),
{
    if y.len() == 0 {
        assert(x + y == x);
    } else {
        lemma_bytes_append(x, y.drop_last());
        assert((x + y).drop_last() == x + y.drop_last());
        assert((x + y).last() == y.last());
        assert(left_bytes(x + y) =~= left_bytes(x) + left_bytes(y));
        assert(right_bytes(x + y) =~= right_bytes(x) + right_bytes(y));
    }
}

proof fn lemma_segment_bytes(a: Seq<u8>, b: Seq<u8>, s: Segment, k: int)
    requires
        s.fits(a.len(), b.len()),
        0 <= k <= segment_len(s),
    ensures
        ({
            let part = segment_units(a, b, s).take(k);
            let p = if s.a_start + k <= s.a_end { s.a_start + k } else { s.a_end as int };
            let q = if s.b_start + k <= s.b_end { s.b_start + k } else { s.b_end as int };
            &&& left_bytes(part) == a.subrange(s.a_start as int, p)
            &&& right_bytes(part) == b.subrange(s.b_start as int, q)
        }),
    decreases k,
{
    let part = segment_units(a, b, s).take(k);
    if k == 0 {
        assert(part.len() == 0);
    } else {
        lemma_segment_bytes(a, b, s, k - 1);
        assert(part.drop_last() == segment_units(a, b, s).take(k - 1));
        assert(part.last() == segment_unit(a, b, s, k - 1));
        let p = if s.a_start + k <= s.a_end { s.a_start + k } else { s.a_end as int };
        let q = if s.b_start + k <= s.b_end { s.b_start + k } else { s.b_end as int };
        assert(left_bytes(part) =~= a.subrange(s.a_start as int, p));
        assert(right_bytes(part) =~= b.subrange(s.b_start as int, q));
    }
}

/// The diff loses nothing: where the alignment covers both streams, the units
/// read back on either side, gaps skipped, are that stream.
pub proof fn law_units_read_back(a: Seq<u8>, b: Seq<u8>, segments: Seq<Segment>)
    requires
        crate::align::covers(segments, a.len(), b.len()),
    ensures
        left_bytes(unit_stream(a, b, segments)) == a,
        right_bytes(unit_stream(a, b, segments)) == b,
    decreases segments.len(),
{
    lemma_cover_bytes(a, b, segments, a.len(), b.len());
    assert(a.take(a.len() as int) == a);
    assert(b.take(b.len() as int) == b);
}

proof fn lemma_cover_bytes(a: Seq<u8>, b: Seq<u8>, segments: Seq<Segment>, n: nat, m: nat)
    requires
        n <= a.len(),
        m <= b.len(),
        crate::align::covers(segments, n, m),
    ensures
        left_bytes(unit_stream(a, b, segments)) == a.take(n as int),
        right_bytes(unit_stream(a, b, segments)) == b.take(m as int),
    decreases segments.len(),
{
    if segments.len() > 0 {
        let s = segments.last();
        lemma_cover_bytes(a, b, segments.drop_last(), s.a_start as nat, s.b_start as nat);
        let own = segment_units(a, b, s);
        lemma_bytes_append(unit_stream(a, b, segments.drop_last()), own);
        lemma_segment_bytes(a, b, s, segment_len(s) as int);
        assert(own.take(segment_len(s) as int) == own);
        assert(a.take(s.a_start as int) + a.subrange(s.a_start as int, n as int) =~= a.take(
            n as int,
        ));
        assert(b.take(s.b_start as int) + b.subrange(s.b_start as int, m as int) =~= b.take(
            m as int,
        ));
    } else {
        assert(a.take(0) =~= Seq::<u8>::empty());
        assert(b.take(0) =~= Seq::<u8>::empty());
    }
}

/// Where the alignment covers both streams and says the truth of every segment, a
/// diff without a difference means that they are the same bytes.
pub proof fn law_no_difference_means_same_bytes(a: Seq<u8>, b: Seq<u8>, segments: Seq<Segment>)
    requires
        crate::align::covers(segments, a.len(), b.len()),
        crate::align::truthful(segments, a, b),
        all_same(unit_stream(a, b, segments)),
    ensures
        a == b,
{
    lemma_same_prefix(a, b, segments, a.len(), b.len());
    assert(a.take(a.len() as int) == a);
    assert(b.take(b.len() as int) == b);
}

proof fn lemma_equal_segments(a: Seq<u8>, b: Seq<u8>, segments: Seq<Segment>)
    requires
        forall|i: int|
            0 <= i < segments.len() ==> (#[trigger] segments[i]).kind == SegmentKind::Equal,
    ensures
        all_same(unit_stream(a, b, segments)),
    decreases segments.len(),
{
    if segments.len() > 0 {
        let rest = segments.drop_last();
        assert forall|i: int| 0 <= i < rest.len() implies (#[trigger] rest[i]).kind
            == SegmentKind::Equal by {
            assert(rest[i] == segments[i]);
        }
        lemma_equal_segments(a, b, rest);
        assert(segments[segments.len() - 1].kind == SegmentKind::Equal);
    }
}

proof fn lemma_stream_len(a: Seq<u8>, b: Seq<u8>, segments: Seq<Segment>, n: nat, m: nat)
    requires
        crate::align::covers(segments, n, m),
    ensures
        unit_stream(a, b, segments).len() <= n + m,
    decreases segments.len(),
{
    if segments.len() > 0 {
        let s = segments.last();
        lemma_stream_len(a, b, segments.drop_last(), s.a_start as nat, s.b_start as nat);
    }
}

/// Under a sound alignment the diff has no difference exactly where the two
/// streams are the same bytes, and no more positions than they have bytes.
pub proof fn law_no_difference_exactly_for_the_same_bytes(
    a: Seq<u8>,
    b: Seq<u8>,
    segments: Seq<Segment>,
)
    requires
        crate::align::sound(segments, a, b),
    ensures
        all_same(unit_stream(a, b, segments)) == (a == b),
        unit_stream(a, b, segments).len() <= a.len() + b.len(),
{
    lemma_stream_len(a, b, segments, a.len(), b.len());
    if a == b {
        lemma_equal_segments(a, b, segments);
    } else if all_same(unit_stream(a, b, segments)) {
        law_no_difference_means_same_bytes(a, b, segments);
    }
}

proof fn lemma_same_prefix(a: Seq<u8>, b: Seq<u8>, segments: Seq<Segment>, n: nat, m: nat)
    requires
        n <= a.len(),
        m <= b.len(),
        crate::align::covers(segments, n, m),
        crate::align::truthful(segments, a, b),
        forall|i: int|
            0 <= i < unit_stream(a, b, segments).len() ==> !(#[trigger] unit_stream(
                a,
                b,
                segments,
            )[i]).diff,
    ensures
        a.take(n as int) == b.take(m as int),
    decreases segments.len(),
{
    if segments.len() > 0 {
        let s = segments.last();
        let rest = segments.drop_last();
        let all = unit_stream(a, b, segments);
        let head = unit_stream(a, b, rest);
        let own = segment_units(a, b, s);
        assert(all == head + own);
        assert forall|i: int| 0 <= i < head.len() implies !(#[trigger] head[i]).diff by {
            assert(all[i] == head[i]);
        }
        assert forall|i: int| 0 <= i < rest.len() implies {
            let t = #[trigger] rest[i];
            (t.kind == SegmentKind::Equal) == (a.subrange(t.a_start as int, t.a_end as int)
                == b.subrange(t.b_start as int, t.b_end as int))
        } by {
            assert(rest[i] == segments[i]);
        }
        lemma_same_prefix(a, b, rest, s.a_start as nat, s.b_start as nat);
        let x = a.subrange(s.a_start as int, n as int);
        let y = b.subrange(s.b_start as int, m as int);
        assert(segments[segments.len() - 1] == s);
        if segment_len(s) > 0 {
            assert(all[head.len() as int] == own[0]);
            assert(!own[0].diff);
            assert(s.kind == SegmentKind::Equal);
        } else {
            assert(x =~= y);
        }
        assert(x == y);
        assert(a.take(n as int) =~= a.take(s.a_start as int) + x);
        assert(b.take(m as int) =~= b.take(s.b_start as int) + y);
    } else {
        assert(a.take(0) =~= b.take(0));
    }
}

proof fn lemma_first_offset(units: Seq<Unit>, left: bool, i: int, end: int)
    requires
        0 <= i <= end,
    ensures
        forall|p: int|
            i <= p < end && p < units.len() && side_of(units[p], left) is Some && (forall|q: int|
                i <= q < p ==> side_of(#[trigger] units[q], left) is None) ==> first_offset(
                units,
                left,
                i,
                end,
            ) == Some((#[trigger] side_of(units[p], left)->0).0),
        (forall|q: int| i <= q < end && q < units.len() ==> side_of(#[trigger] units[q], left) is None)
            ==> first_offset(units, left, i, end) is None,
    decreases end - i,
{
    if i < end && i < units.len() {
        lemma_first_offset(units, left, i + 1, end);
    }
}

/// The pane of a side shows that side's file. At each place of a row stands the
/// byte that this file has there, in two hexadecimal digits, and a blank where it
/// has none; the gutter shows the same bytes as characters; and the offset is that
/// of the first byte that this file has in the row.
pub proof fn law_each_pane_shows_its_own_file(units: Seq<Unit>, row: int, i: int)
    requires
        0 <= row,
        0 <= i < 16,
    ensures
        ({
            let p = 16 * row + i;
            let left = side_row(units, row, true);
            let right = side_row(units, row, false);
            &&& left.len() == 19
            &&& right.len() == 19
            &&& p < units.len() && units[p].a is Some ==> {
                let byte = (units[p].a->0).1;
                &&& left[1 + i].0 == seq![
                    crate::text::digit(byte as int / 16),
                    crate::text::digit(byte as int % 16),
                    ' ',
                ]
                &&& left[18].0[i] == if 0x20 <= byte < 0x7f {
                    byte as char
                } else {
                    '.'
                }
            }
            &&& p < units.len() && units[p].b is Some ==> {
                let byte = (units[p].b->0).1;
                &&& right[1 + i].0 == seq![
                    crate::text::digit(byte as int / 16),
                    crate::text::digit(byte as int % 16),
                    ' ',
                ]
                &&& right[18].0[i] == if 0x20 <= byte < 0x7f {
                    byte as char
                } else {
                    '.'
                }
            }
            &&& p >= units.len() || units[p].a is None ==> left[1 + i].0 == seq![' ', ' ', ' ']
                && left[18].0[i] == ' '
            &&& p >= units.len() || units[p].b is None ==> right[1 + i].0 == seq![' ', ' ', ' ']
                && right[18].0[i] == ' '
            &&& left[18].0.len() == 16
            &&& right[18].0.len() == 16
        }),
{
    reveal_strlit(" ");
    reveal_strlit("   ");
    let p = 16 * row + i;
    let left = side_row(units, row, true);
    let right = side_row(units, row, false);
    assert(left[1 + i] == byte_run(units, true, p));
    assert(right[1 + i] == byte_run(units, false, p));
    if p < units.len() && units[p].a is Some {
        let byte = (units[p].a->0).1;
        assert(left[1 + i].0 =~= seq![
            crate::text::digit(byte as int / 16),
            crate::text::digit(byte as int % 16),
            ' ',
        ]);
    } else {
        assert(left[1 + i].0 =~= seq![' ', ' ', ' ']);
    }
    if p < units.len() && units[p].b is Some {
        let byte = (units[p].b->0).1;
        assert(right[1 + i].0 =~= seq![
            crate::text::digit(byte as int / 16),
            crate::text::digit(byte as int % 16),
            ' ',
        ]);
    } else {
        assert(right[1 + i].0 =~= seq![' ', ' ', ' ']);
    }
}

/// The offset in front of a row is that of the first byte that the pane's own file
/// has in the row, and blank where it has none there.
pub proof fn law_a_row_starts_at_its_first_byte(units: Seq<Unit>, row: int, p: int)
    requires
        0 <= row,
        16 * row <= p < 16 * row + 16,
        p < units.len(),
    ensures
        units[p].a is Some && (forall|q: int| 16 * row <= q < p ==> (#[trigger] units[q]).a is None)
            ==> side_row(units, row, true)[0].0 == crate::text::zero_pad(
            crate::text::hex((units[p].a->0).0 as nat),
            8,
        ) + seq![' ', ' '],
        units[p].b is Some && (forall|q: int| 16 * row <= q < p ==> (#[trigger] units[q]).b is None)
            ==> side_row(units, row, false)[0].0 == crate::text::zero_pad(
            crate::text::hex((units[p].b->0).0 as nat),
            8,
        ) + seq![' ', ' '],
        (forall|q: int|
            16 * row <= q < 16 * row + 16 && q < units.len() ==> (#[trigger] units[q]).a is None)
            ==> side_row(units, row, true)[0].0 == Seq::new(10, |k: int| ' '),
        (forall|q: int|
            16 * row <= q < 16 * row + 16 && q < units.len() ==> (#[trigger] units[q]).b is None)
            ==> side_row(units, row, false)[0].0 == Seq::new(10, |k: int| ' '),
{
    reveal_strlit("  ");
    reveal_strlit("          ");
    lemma_first_offset(units, true, 16 * row, 16 * row + 16);
    lemma_first_offset(units, false, 16 * row, 16 * row + 16);
    assert("  "@ =~= seq![' ', ' ']);
    assert("          "@ =~= Seq::new(10, |k: int| ' '));
    assert forall|q: int| 16 * row <= q < p && units[q].a is None implies side_of(
        #[trigger] units[q],
        true,
    ) is None by {}
    assert forall|q: int| 16 * row <= q < p && units[q].b is None implies side_of(
        #[trigger] units[q],
        false,
    ) is None by {}
    assert(side_of(units[p], true) == units[p].a);
    assert(side_of(units[p], false) == units[p].b);
}

/// A byte is plain where the two files agree, amber where both have a byte there
/// and differ, and green where only one of them has one.
pub proof fn law_colours_tell_the_difference(units: Seq<Unit>, row: int, i: int)
    requires
        0 <= row,
        0 <= i < 16,
        16 * row + i < units.len(),
    ensures
        ({
            let u = units[16 * row + i];
            let left = side_row(units, row, true)[1 + i];
            let right = side_row(units, row, false)[1 + i];
            &&& !u.diff ==> left.1 == Ink::Text && right.1 == Ink::Text
            &&& u.diff && u.a is Some && u.b is Some ==> left.1 == Ink::Amber && right.1
                == Ink::Amber
            &&& u.diff && u.a is Some && u.b is None ==> left.1 == Ink::Green
            &&& u.diff && u.a is None && u.b is Some ==> right.1 == Ink::Green
        }),
{
    let p = 16 * row + i;
    assert(side_row(units, row, true)[1 + i] == byte_run(units, true, p));
    assert(side_row(units, row, false)[1 + i] == byte_run(units, false, p));
}

/// A unit carries, on each side, the byte that the file has at the offset it names;
/// it has a byte on one side at least.
pub proof fn law_a_unit_carries_the_byte_at_its_offset(
    a: Seq<u8>,
    b: Seq<u8>,
    segments: Seq<Segment>,
    i: int,
)
    requires
        forall|k: int| 0 <= k < segments.len() ==> (#[trigger] segments[k]).fits(a.len(), b.len()),
        a.len() <= u32::MAX,
        b.len() <= u32::MAX,
        0 <= i < unit_stream(a, b, segments).len(),
    ensures
        ({
            let u = unit_stream(a, b, segments)[i];
            &&& u.a matches Some(p) ==> p.0 < a.len() && p.1 == a[p.0 as int]
            &&& u.b matches Some(p) ==> p.0 < b.len() && p.1 == b[p.0 as int]
            &&& u.a is Some || u.b is Some
        }),
    decreases segments.len(),
{
    if segments.len() > 0 {
        let rest = segments.drop_last();
        let s = segments.last();
        assert(segments[segments.len() - 1].fits(a.len(), b.len()));
        let head = unit_stream(a, b, rest);
        if i < head.len() {
            assert forall|k: int| 0 <= k < rest.len() implies (#[trigger] rest[k]).fits(
                a.len(),
                b.len(),
            ) by {
                assert(rest[k] == segments[k]);
            }
            law_a_unit_carries_the_byte_at_its_offset(a, b, rest, i);
        } else {
            assert(unit_stream(a, b, segments)[i] == segment_unit(a, b, s, i - head.len()));
        }
    }
}

/// Both files are walked in order: of two units that carry a byte of a file, the later
/// one carries a later byte.
pub proof fn law_offsets_ascend(
    a: Seq<u8>,
    b: Seq<u8>,
    segments: Seq<Segment>,
    n: nat,
    m: nat,
    i: int,
    j: int,
)
    requires
        crate::align::covers(segments, n, m),
        n <= u32::MAX,
        m <= u32::MAX,
        0 <= i < j < unit_stream(a, b, segments).len(),
    ensures
        ({
            let u = unit_stream(a, b, segments)[i];
            let v = unit_stream(a, b, segments)[j];
            &&& u.a is Some && v.a is Some ==> (u.a->0).0 < (v.a->0).0
            &&& u.b is Some && v.b is Some ==> (u.b->0).0 < (v.b->0).0
        }),
    decreases segments.len(),
{
    if segments.len() > 0 {
        let rest = segments.drop_last();
        let s = segments.last();
        let head = unit_stream(a, b, rest);
        let all = unit_stream(a, b, segments);
        if j < head.len() {
            law_offsets_ascend(a, b, rest, s.a_start as nat, s.b_start as nat, i, j);
        } else {
            assert(all[j] == segment_unit(a, b, s, j - head.len()));
            if i < head.len() {
                lemma_offsets_below(a, b, rest, s.a_start as nat, s.b_start as nat, i);
            } else {
                assert(all[i] == segment_unit(a, b, s, i - head.len()));
            }
        }
    }
}

proof fn lemma_offsets_below(
    a: Seq<u8>,
    b: Seq<u8>,
    segments: Seq<Segment>,
    n: nat,
    m: nat,
    i: int,
)
    requires
        crate::align::covers(segments, n, m),
        n <= u32::MAX,
        m <= u32::MAX,
        0 <= i < unit_stream(a, b, segments).len(),
    ensures
        ({
            let u = unit_stream(a, b, segments)[i];
            &&& u.a is Some ==> (u.a->0).0 < n
            &&& u.b is Some ==> (u.b->0).0 < m
        }),
    decreases segments.len(),
{
    if segments.len() > 0 {
        let rest = segments.drop_last();
        let s = segments.last();
        let head = unit_stream(a, b, rest);
        if i < head.len() {
            lemma_offsets_below(a, b, rest, s.a_start as nat, s.b_start as nat, i);
        } else {
            assert(unit_stream(a, b, segments)[i] == segment_unit(a, b, s, i - head.len()));
        }
    }
}

/// Where the alignment says the truth, a unit outside every differing run carries the
/// same byte on both sides.
pub proof fn law_equal_units_carry_the_same_byte(
    a: Seq<u8>,
    b: Seq<u8>,
    segments: Seq<Segment>,
    i: int,
)
    requires
        forall|k: int| 0 <= k < segments.len() ==> (#[trigger] segments[k]).fits(a.len(), b.len()),
        crate::align::truthful(segments, a, b),
        0 <= i < unit_stream(a, b, segments).len(),
        !unit_stream(a, b, segments)[i].diff,
    ensures
        ({
            let u = unit_stream(a, b, segments)[i];
            &&& u.a matches Some(p)
            &&& u.b matches Some(q)
            &&& p.1 == q.1
        }),
    decreases segments.len(),
{
    if segments.len() > 0 {
        let rest = segments.drop_last();
        let s = segments[segments.len() - 1];
        assert(s.fits(a.len(), b.len()));
        let head = unit_stream(a, b, rest);
        if i < head.len() {
            assert forall|k: int| 0 <= k < rest.len() implies (#[trigger] rest[k]).fits(
                a.len(),
                b.len(),
            ) by {
                assert(rest[k] == segments[k]);
            }
            assert forall|k: int| 0 <= k < rest.len() implies {
                let t = #[trigger] rest[k];
                (t.kind == SegmentKind::Equal) == (a.subrange(t.a_start as int, t.a_end as int)
                    == b.subrange(t.b_start as int, t.b_end as int))
            } by {
                assert(rest[k] == segments[k]);
            }
            assert(unit_stream(a, b, segments)[i] == head[i]);
            law_equal_units_carry_the_same_byte(a, b, rest, i);
        } else {
            let k = i - head.len();
            assert(unit_stream(a, b, segments)[i] == segment_unit(a, b, s, k));
            assert(s.kind == SegmentKind::Equal);
            let x = a.subrange(s.a_start as int, s.a_end as int);
            let y = b.subrange(s.b_start as int, s.b_end as int);
            assert(x == y);
            assert(x.len() == s.a_end - s.a_start);
            assert(y.len() == s.b_end - s.b_start);
            assert(x[k] == a[s.a_start + k]);
            assert(y[k] == b[s.b_start + k]);
        }
    }
}

/// The rows hold all units and no row is empty.
pub proof fn law_rows_hold_every_unit(n: nat)
    ensures
        16 * row_count(n) >= n,
        n > 0 ==> 16 * (row_count(n) - 1) < n,
        n == 0 ==> row_count(n) == 0,
{
}

/// A row differs exactly where a unit of it does.
pub proof fn law_a_row_differs_with_its_units(units: Seq<Unit>, i: int)
    requires
        0 <= i < units.len(),
    ensures
        units[i].diff ==> row_differs(units, i / 16),
        !row_differs(units, i / 16) ==> !units[i].diff,
        forall|r: int| #[trigger]
            row_differs(units, r) ==> exists|k: int|
                0 <= k < units.len() && k / 16 == r && (#[trigger] units[k]).diff,
{
    assert forall|r: int| #[trigger] row_differs(units, r) implies exists|k: int|
        0 <= k < units.len() && k / 16 == r && (#[trigger] units[k]).diff by {
        let k = choose|k: int|
            16 * r <= k < 16 * r + 16 && 0 <= k < units.len() && (#[trigger] units[k]).diff;
        assert(k / 16 == r);
        assert(units[k].diff);
    }
}

/// Every differing unit is in a listed row, and every listed row has one.
pub proof fn law_the_list_of_rows_is_complete(rows: Seq<usize>, units: Seq<Unit>, i: int)
    requires
        lists_diff_rows(rows, units),
        units.len() <= usize::MAX,
    ensures
        0 <= i < units.len() && units[i].diff ==> rows.contains((i / 16) as usize),
        0 <= i < rows.len() ==> exists|k: int|
            16 * rows[i] <= k < 16 * rows[i] + 16 && 0 <= k < units.len() && (
            #[trigger] units[k]).diff,
        0 <= i < rows.len() - 1 ==> rows[i] < rows[i + 1],
{
    if 0 <= i < units.len() && units[i].diff {
        assert(row_differs(units, i / 16));
    }
    if 0 <= i < rows.len() {
        let r = rows[i] as int;
        assert(row_differs(units, r));
        let k = choose|k: int|
            16 * r <= k < 16 * r + 16 && 0 <= k < units.len() && (#[trigger] units[k]).diff;
        assert(units[k].diff);
    }
}

/// Going to the next difference goes to the nearest row that is far enough, and to
/// the first row of all where none is.
pub proof fn law_the_next_difference_is_the_nearest(rows: Seq<usize>, after: int, k: int, j: int)
    requires
        forall|x: int, y: int| 0 <= x < y < rows.len() ==> rows[x] < rows[y],
        0 <= k < rows.len(),
        0 <= j < rows.len(),
        next_is(rows, after, k),
    ensures
        rows[j] >= after ==> rows[k] >= after && rows[k] <= rows[j],
        rows[k] < after ==> k == 0 && rows[j] < after,
{
    if rows[j] >= after && j < k {
        assert(rows[j] < after);
    }
}

/// Going to the previous difference goes to the nearest row before, and to the last
/// row of all where none is.
pub proof fn law_the_previous_difference_is_the_nearest(
    rows: Seq<usize>,
    before: int,
    k: int,
    j: int,
)
    requires
        forall|x: int, y: int| 0 <= x < y < rows.len() ==> rows[x] < rows[y],
        0 <= k < rows.len(),
        0 <= j < rows.len(),
        prev_is(rows, before, k),
    ensures
        rows[j] < before ==> rows[k] < before && rows[k] >= rows[j],
        rows[k] >= before ==> k == rows.len() - 1 && rows[j] >= before,
{
    if rows[j] < before && k < j {
        assert(rows[j] >= before);
    }
}

} // verus!
