//! Rings: closed chains of segments, their areas and their outlines.

use vstd::prelude::*;
use crate::error::SketchError;
use crate::segment::{Line, Segment};

verus! {

/// An ordered chain of segments. In a ring that `find_rings` returns the
/// last segment ends where the first begins.
pub type Ring = Vec<Segment>;

/// An area, held exactly: `doubled` is twice the area, in square grid units.
#[derive(Debug, Clone, Copy, PartialEq, Eq, Structural)]
pub struct Area {
    pub doubled: i128,
}

/// What one segment adds to the shoelace sum of its ring.
pub open spec fn sweep(s: Segment) -> int {
    (s.end_point().x - s.start_point().x) * (s.end_point().y + s.start_point().y)
}

/// The shoelace sum over a chain of segments.
pub open spec fn swept(ring: Seq<Segment>) -> int
    decreases ring.len(),
{
    if ring.len() == 0 {
        0
    } else {
        swept(ring.drop_last()) + sweep(ring.last())
    }
}

/// Twice the signed area that a ring encloses: positive for a ring that
/// runs counter-clockwise, negative for one that runs clockwise. Only the
/// end points of a segment count: an arc encloses what its chord encloses.
pub open spec fn doubled_area(ring: Seq<Segment>) -> int {
    -swept(ring)
}

proof fn sweep_bound(s: Segment)
    ensures
        -0x1_0000_0000_0000_0000 <= sweep(s) <= 0x1_0000_0000_0000_0000,
{
    let dx = s.end_point().x - s.start_point().x;
    let sy = s.end_point().y + s.start_point().y;
    assert(-0x1_0000_0000_0000_0000 <= dx * sy <= 0x1_0000_0000_0000_0000) by (nonlinear_arith)
        requires
            -0x1_0000_0000 <= dx <= 0x1_0000_0000,
            -0x1_0000_0000 <= sy <= 0x1_0000_0000,
    ;
}

impl Area {
    pub fn is_positive(&self) -> (r: bool)
        ensures
            r == (self.doubled > 0),
    {
        self.doubled > 0
    }
}

/// The signed area of a ring, by the shoelace formula.
pub fn signed_area(ring: &Ring) -> (r: Area)
    requires
        ring.len() <= usize::MAX / 4,
    ensures
        r.doubled == doubled_area(ring@),
{
    let n = ring.len();
    let mut sum: i128 = 0;
    let mut i: usize = 0;
    while i < n
        invariant
            n == ring.len(),
            n <= usize::MAX / 4,
            i <= n,
            sum == swept(ring@.take(i as int)),
            -(i * 0x1_0000_0000_0000_0000) <= sum <= i * 0x1_0000_0000_0000_0000,
        decreases n - i,
    {
        let start = ring[i].get_start();
        let end = ring[i].get_end();
        let dx: i64 = end.x as i64 - start.x as i64;
        let sy: i64 = end.y as i64 + start.y as i64;
        proof {
            sweep_bound(ring@[i as int]);
            assert(ring@.take(i + 1).drop_last() =~= ring@.take(i as int));
        }
        sum = sum + dx as i128 * sy as i128;
        i = i + 1;
    }
    proof {
        assert(ring@.take(n as int) =~= ring@);
    }
    Area { doubled: -sum }
}

/// The corners of a ring: the start point of each segment, in order.
pub open spec fn corners(ring: Seq<Segment>) -> Seq<(i32, i32)> {
    Seq::new(ring.len(), |k: int| (ring[k].start_point().x, ring[k].start_point().y))
}

/// The outline of a ring as a polygon: its corners, in order.
pub fn as_polygon(ring: &Ring) -> (r: Vec<(i32, i32)>)
    ensures
        r@ == corners(ring@),
{
    let mut outline: Vec<(i32, i32)> = Vec::new();
    let mut i: usize = 0;
    while i < ring.len()
        invariant
            i <= ring.len(),
            outline@ == corners(ring@.take(i as int)),
        decreases ring.len() - i,
    {
        let start = ring[i].get_start();
        outline.push((start.x, start.y));
        i = i + 1;
        assert(outline@ =~= corners(ring@.take(i as int)));
    }
    proof {
        assert(ring@.take(ring.len() as int) =~= ring@);
    }
    outline
}

/// The segment chains of a list of rings.
pub open spec fn chains(rings: Seq<Ring>) -> Seq<Seq<Segment>> {
    Seq::new(rings.len(), |k: int| rings[k]@)
}

/// A copy of a ring.
pub fn copy_ring(ring: &Ring) -> (r: Ring)
    ensures
        r@ == ring@,
{
    let mut copy: Vec<Segment> = Vec::new();
    let mut i: usize = 0;
    while i < ring.len()
        invariant
            i <= ring.len(),
            copy@ == ring@.take(i as int),
        decreases ring.len() - i,
    {
        copy.push(ring[i].clone());
        i = i + 1;
        assert(copy@ =~= ring@.take(i as int));
    }
    proof {
        assert(ring@.take(ring.len() as int) =~= ring@);
    }
    copy
}

/// The straight line between the ends of a segment: a line itself, the
/// chord of an arc.
pub open spec fn chord_of(s: Segment) -> Line {
    Line { start: s.start_point(), end: s.end_point() }
}

/// The segment at `index` of a ring, as a straight line: of an arc its
/// chord. `IndexOutOfRange` where the ring has no such segment.
pub fn get_segment(ring: &Ring, index: usize) -> (r: Result<Line, SketchError>)
    ensures
        r == if index < ring.len() {
            Ok::<Line, SketchError>(chord_of(ring@[index as int]))
        } else {
            Err::<Line, SketchError>(SketchError::IndexOutOfRange)
        },
{
    if index < ring.len() {
        Ok(Line::new(ring[index].get_start(), ring[index].get_end()))
    } else {
        Err(SketchError::IndexOutOfRange)
    }
}

} // verus!
