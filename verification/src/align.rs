//! The result of aligning two byte streams: a list of segments, each a stretch
//! of either stream, in order.

use vstd::prelude::*;

verus! {

/// Whether the two stretches of a segment are the same bytes.
#[derive(Clone, Copy, Debug, PartialEq, Eq, Structural)]
pub enum SegmentKind {
    Equal,
    Diff,
}

/// One segment: `a_start..a_end` of the first stream against `b_start..b_end`
/// of the second. Either stretch may be empty.
#[derive(Clone, Copy, Debug, PartialEq, Eq, Structural)]
pub struct Segment {
    pub kind: SegmentKind,
    pub a_start: usize,
    pub a_end: usize,
    pub b_start: usize,
    pub b_end: usize,
}

/// The segments of an alignment, and whether it fell back to a coarse match.
#[derive(Debug, PartialEq, Eq)]
pub struct Alignment {
    pub segments: Vec<Segment>,
    pub degraded: bool,
}

impl Segment {
    /// The stretches lie inside streams of these lengths.
    pub open spec fn fits(self, a_len: nat, b_len: nat) -> bool {
        &&& self.a_start <= self.a_end <= a_len
        &&& self.b_start <= self.b_end <= b_len
    }
}

impl Alignment {
    /// Every segment lies inside streams of these lengths.
    pub open spec fn fits(self, a_len: nat, b_len: nat) -> bool {
        forall|i: int|
            0 <= i < self.segments@.len() ==> (#[trigger] self.segments@[i]).fits(a_len, b_len)
    }

    /// Whether every segment lies inside streams of these lengths: the test to
    /// make before an alignment from elsewhere is drawn.
    pub fn stays_within(&self, a_len: usize, b_len: usize) -> (r: bool)
        ensures
            r == self.fits(a_len as nat, b_len as nat),
    {
        let mut i: usize = 0;
        while i < self.segments.len()
            invariant
                i <= self.segments@.len(),
                forall|k: int|
                    0 <= k < i ==> (#[trigger] self.segments@[k]).fits(a_len as nat, b_len as nat),
            decreases self.segments@.len() - i,
        {
            let s: Segment = self.segments[i];
            if s.a_start > s.a_end || s.a_end > a_len || s.b_start > s.b_end || s.b_end > b_len {
                assert(!self.segments@[i as int].fits(a_len as nat, b_len as nat));
                return false;
            }
            i += 1;
        }
        true
    }
}

/// The segments cover both streams from their first byte up to `a_len` and
/// `b_len`, each starting where the one before it ended.
pub open spec fn covers(segments: Seq<Segment>, a_len: nat, b_len: nat) -> bool
    decreases segments.len(),
{
    if segments.len() == 0 {
        a_len == 0 && b_len == 0
    } else {
        let last = segments.last();
        &&& last.fits(a_len, b_len)
        &&& last.a_end == a_len
        &&& last.b_end == b_len
        &&& covers(segments.drop_last(), last.a_start as nat, last.b_start as nat)
    }
}

/// Every segment called equal holds the same bytes on both sides, and every
/// segment called different does not.
pub open spec fn truthful(segments: Seq<Segment>, a: Seq<u8>, b: Seq<u8>) -> bool {
    forall|i: int|
        0 <= i < segments.len() ==> {
            let s = #[trigger] segments[i];
            (s.kind == SegmentKind::Equal) == (a.subrange(s.a_start as int, s.a_end as int)
                == b.subrange(s.b_start as int, s.b_end as int))
        }
}

/// The alignment is right for these streams: it covers both, says the truth of
/// every segment, and finds no difference between a stream and itself.
pub open spec fn sound(segments: Seq<Segment>, a: Seq<u8>, b: Seq<u8>) -> bool {
    &&& covers(segments, a.len(), b.len())
    &&& truthful(segments, a, b)
    &&& a == b ==> forall|i: int|
        0 <= i < segments.len() ==> (#[trigger] segments[i]).kind == SegmentKind::Equal
}

} // verus!
