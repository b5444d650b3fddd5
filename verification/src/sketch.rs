//! The sketch: a bag of segments, and the rings that they form.

use vstd::prelude::*;
use crate::error::SketchError;
use crate::face::{assemble_faces, exteriors_ascend, is_faces_over, Face};
use crate::order::{
    comes_before, is_stable_order, key_values, stable_order, stable_order_is_unique,
};
use crate::ring::{chains, copy_ring, doubled_area, signed_area, Ring};
use crate::point::Point;
use crate::segment::{Line, Segment};
use crate::trace::{
    find_next_segment_index, find_ring_indices, is_ring, may_follow, ring_at,
    ring_is_closed_chain, rings_found, rings_found_is_unique, steps_on, taken, walks,
};

verus! {

/// An unordered collection of segments. Segments are only ever added.
#[derive(Debug)]
pub struct Sketch {
    pub segments: Vec<Segment>,
}

/// Every segment in both directions: the segments as given, then the
/// reversal of each, in the same order.
pub open spec fn directed(segments: Seq<Segment>) -> Seq<Segment> {
    segments + Seq::new(segments.len(), |k: int| segments[k].reversed())
}

/// The segments that a walk passes, in order.
pub open spec fn chain(all: Seq<Segment>, walk: Seq<usize>) -> Seq<Segment> {
    Seq::new(walk.len(), |k: int| all[walk[k] as int])
}

/// Twice the signed area of each walk.
pub open spec fn ring_areas(all: Seq<Segment>, found: Seq<Seq<usize>>) -> Seq<int> {
    Seq::new(found.len(), |k: int| doubled_area(chain(all, found[k])))
}

/// The walks `found` as chains of segments, put in the order `order`.
pub open spec fn rings_in_order(
    all: Seq<Segment>,
    found: Seq<Seq<usize>>,
    order: Seq<usize>,
) -> Seq<Seq<Segment>> {
    Seq::new(order.len(), |k: int| chain(all, found[order[k] as int]))
}

/// Whether `rings` are the rings of a sketch that holds `segments`: the
/// rings walked over its directed segments, in ascending order of signed
/// area, rings of equal area in the order in which they were walked.
pub open spec fn is_rings_of(segments: Seq<Segment>, rings: Seq<Seq<Segment>>) -> bool {
    exists|found: Seq<Seq<usize>>, order: Seq<usize>|
        {
            &&& rings_found(directed(segments), found)
            &&& is_stable_order(ring_areas(directed(segments), found), order)
            &&& rings == #[trigger] rings_in_order(directed(segments), found, order)
        }
}

/// Whether `faces` are the faces of a sketch that holds `segments`: the
/// faces over its rings.
pub open spec fn is_faces_of(segments: Seq<Segment>, faces: Seq<Face>) -> bool {
    exists|rings: Seq<Seq<Segment>>|
        is_rings_of(segments, rings) && #[trigger] is_faces_over(rings, faces)
}

/// The directed segments of a sketch.
fn directed_segments(segments: &Vec<Segment>) -> (all: Vec<Segment>)
    requires
        segments.len() <= usize::MAX / 8,
    ensures
        all@ == directed(segments@),
{
    let n = segments.len();
    let mut all = copy_ring(segments);
    let mut i: usize = 0;
    while i < n
        invariant
            n == segments.len(),
            i <= n,
            all@ == segments@ + Seq::new(i as nat, |k: int| segments@[k].reversed()),
        decreases n - i,
    {
        all.push(segments[i].reverse());
        i = i + 1;
        assert(all@ =~= segments@ + Seq::new(i as nat, |k: int| segments@[k].reversed()));
    }
    all
}

/// The segments that a walk passes.
fn walked(all: &Vec<Segment>, walk: &Vec<usize>) -> (ring: Ring)
    requires
        forall|k: int| 0 <= k < walk.len() ==> walk@[k] < all.len(),
    ensures
        ring@ == chain(all@, walk@),
{
    let mut ring: Vec<Segment> = Vec::new();
    let mut i: usize = 0;
    while i < walk.len()
        invariant
            i <= walk.len(),
            forall|k: int| 0 <= k < walk.len() ==> walk@[k] < all.len(),
            ring@ == chain(all@, walk@.take(i as int)),
        decreases walk.len() - i,
    {
        ring.push(all[walk[i]].clone());
        i = i + 1;
        assert(ring@ =~= chain(all@, walk@.take(i as int)));
    }
    proof {
        assert(walk@.take(walk.len() as int) =~= walk@);
    }
    ring
}

/// A ring passes segments of the list only.
pub proof fn ring_stays_in_range(all: Seq<Segment>, used: Seq<usize>, walk: Seq<usize>, k: int)
    requires
        is_ring(all, used, walk),
        0 <= k < walk.len(),
    ensures
        walk[k] < all.len(),
{
    if k > 0 {
        assert(steps_on(all, used, walk, k - 1));
    }
}

/// Whether nothing may follow directed segment `i`, with every segment in
/// play.
pub open spec fn is_dead_end(all: Seq<Segment>, i: int) -> bool {
    forall|j: int| !may_follow(all, all[i], Seq::<usize>::empty(), j)
}

/// Whether some directed segment is a dead end.
pub open spec fn has_dead_end(all: Seq<Segment>) -> bool {
    exists|i: int| 0 <= i < all.len() && #[trigger] is_dead_end(all, i)
}

/// Whether a segment is an arc through which no circle passes.
pub open spec fn is_degenerate_arc(s: Segment) -> bool {
    match s {
        Segment::Line(_) => false,
        Segment::Arc(a) => a.is_degenerate(),
    }
}

/// Whether a chain of segments is closed: each segment begins where the
/// one before it ends, and the last ends where the first begins.
pub open spec fn is_closed_chain(ring: Seq<Segment>) -> bool {
    &&& ring.len() > 0
    &&& forall|k: int| 0 <= k < ring.len() - 1 ==> (#[trigger] ring[k + 1]).follows(&ring[k])
    &&& ring.last().end_point().same(&ring[0].start_point())
}

/// A sketch has one list of rings only.
pub proof fn rings_of_is_unique(
    segments: Seq<Segment>,
    first: Seq<Seq<Segment>>,
    second: Seq<Seq<Segment>>,
)
    requires
        is_rings_of(segments, first),
        is_rings_of(segments, second),
    ensures
        first == second,
{
    let all = directed(segments);
    let (found1, order1) = choose|found: Seq<Seq<usize>>, order: Seq<usize>|
        {
            &&& rings_found(directed(segments), found)
            &&& is_stable_order(ring_areas(directed(segments), found), order)
            &&& first == #[trigger] rings_in_order(directed(segments), found, order)
        };
    let (found2, order2) = choose|found: Seq<Seq<usize>>, order: Seq<usize>|
        {
            &&& rings_found(directed(segments), found)
            &&& is_stable_order(ring_areas(directed(segments), found), order)
            &&& second == #[trigger] rings_in_order(directed(segments), found, order)
        };
    rings_found_is_unique(all, found1, found2);
    stable_order_is_unique(ring_areas(all, found1), order1, order2);
}

/// The rings of a sketch are closed chains, of as many segments as the
/// sketch has directed segments at most, and they stand in ascending order
/// of their signed areas.
pub proof fn rings_are_closed_and_ascend(segments: Seq<Segment>, rings: Seq<Seq<Segment>>)
    requires
        is_rings_of(segments, rings),
    ensures
        forall|k: int| 0 <= k < rings.len() ==> is_closed_chain(#[trigger] rings[k]),
        forall|k: int| 0 <= k < rings.len() ==> (#[trigger] rings[k]).len() <= 2 * segments.len(),
        forall|a: int, b: int|
            0 <= a <= b < rings.len() ==> doubled_area(#[trigger] rings[a]) <= doubled_area(
                #[trigger] rings[b],
            ),
{
    let all = directed(segments);
    let (found, order) = choose|found: Seq<Seq<usize>>, order: Seq<usize>|
        {
            &&& rings_found(directed(segments), found)
            &&& is_stable_order(ring_areas(directed(segments), found), order)
            &&& rings == #[trigger] rings_in_order(directed(segments), found, order)
        };
    let keys = ring_areas(all, found);
    assert forall|k: int| 0 <= k < rings.len() implies is_closed_chain(#[trigger] rings[k])
        && rings[k].len() <= 2 * segments.len() by {
        let place = order[k] as int;
        let walk = found[place];
        assert(ring_at(all, found, place));
        ring_is_closed_chain(all, taken(found, place), walk);
        let ring = rings[k];
        assert(ring == chain(all, walk));
        assert forall|m: int| 0 <= m < ring.len() - 1 implies (#[trigger] ring[m + 1]).follows(
            &ring[m],
        ) by {
            assert(all[walk[m + 1] as int].follows(&all[walk[m] as int]));
        }
    }
    assert forall|a: int, b: int| 0 <= a <= b < rings.len() implies doubled_area(
        #[trigger] rings[a],
    ) <= doubled_area(#[trigger] rings[b]) by {
        assert(doubled_area(rings[a]) == keys[order[a] as int]);
        assert(doubled_area(rings[b]) == keys[order[b] as int]);
        if a < b {
            assert(comes_before(keys, order[a] as int, order[b] as int));
        }
    }
}

/// The faces of a sketch stand in ascending order of the areas of their
/// exteriors, and these areas are positive.
pub proof fn faces_ascend(segments: Seq<Segment>, faces: Seq<Face>)
    requires
        is_faces_of(segments, faces),
    ensures
        forall|k: int| 0 <= k < faces.len() ==> doubled_area((#[trigger] faces[k]).exterior@) > 0,
        forall|a: int, b: int|
            0 <= a <= b < faces.len() ==> doubled_area((#[trigger] faces[a]).exterior@)
                <= doubled_area((#[trigger] faces[b]).exterior@),
{
    let rings = choose|rings: Seq<Seq<Segment>>|
        is_rings_of(segments, rings) && #[trigger] is_faces_over(rings, faces);
    rings_are_closed_and_ascend(segments, rings);
    exteriors_ascend(rings, faces);
}

impl Sketch {
    pub fn new() -> (r: Sketch)
        ensures
            r.segments@ == Seq::<Segment>::empty(),
    {
        Sketch { segments: Vec::new() }
    }

    /// Adds segments to the sketch, after those that it holds.
    pub fn add_segments(&mut self, segments: Vec<Segment>)
        ensures
            final(self).segments@ == old(self).segments@ + segments@,
    {
        let mut added = segments;
        self.segments.append(&mut added);
    }

    /// Adds one line, after the segments that the sketch holds.
    pub fn add_line(&mut self, line: Line)
        ensures
            final(self).segments@ == old(self).segments@.push(Segment::Line(line)),
    {
        self.segments.push(Segment::Line(line));
    }

    /// Adds the line from `(x1, y1)` to `(x2, y2)`. Both ends bear the
    /// label `a`: the line connects to lines that were added in this way
    /// and end at the same place.
    pub fn add_segment(&mut self, x1: i32, y1: i32, x2: i32, y2: i32)
        ensures
            final(self).segments@.len() == old(self).segments@.len() + 1,
            final(self).segments@.drop_last() == old(self).segments@,
            match final(self).segments@.last() {
                Segment::Line(l) => {
                    &&& l.start.x == x1 && l.start.y == y1 && l.start.id@ == "a"@
                    &&& l.end.x == x2 && l.end.y == y2 && l.end.id@ == "a"@
                },
                Segment::Arc(_) => false,
            },
    {
        let ghost before = self.segments@;
        let line = Line::new(Point::new(x1, y1, "a"), Point::new(x2, y2, "a"));
        self.segments.push(Segment::Line(line));
        proof {
            assert(self.segments@.drop_last() =~= before);
        }
    }

    /// The rings of the sketch, in ascending order of signed area. Each
    /// segment is walked in both directions, so a closed loop is found
    /// twice: once counter-clockwise with a positive area, once clockwise
    /// with a negative one. A walk that comes to a dead end gives no ring.
    pub fn find_rings(&self) -> (r: Vec<Ring>)
        requires
            self.segments.len() <= usize::MAX / 8,
        ensures
            is_rings_of(self.segments@, chains(r@)),
            forall|k: int| 0 <= k < r.len() ==> (#[trigger] r@[k]).len() <= 2 * self.segments.len(),
    {
        let all = directed_segments(&self.segments);
        let found = find_ring_indices(&all);
        let ghost index_rings = walks(found@);
        let mut rings: Vec<Ring> = Vec::new();
        let mut keys: Vec<i128> = Vec::new();
        let mut k: usize = 0;
        while k < found.len()
            invariant
                k <= found.len(),
                all.len() <= usize::MAX / 4,
                index_rings == walks(found@),
                rings_found(all@, index_rings),
                rings.len() == k,
                keys.len() == k,
                forall|j: int| 0 <= j < k ==> #[trigger] rings@[j]@ == chain(all@, index_rings[j]),
                forall|j: int| 0 <= j < k ==> (#[trigger] rings@[j]).len() <= all.len(),
                forall|j: int|
                    0 <= j < k ==> #[trigger] keys@[j] == doubled_area(chain(all@, index_rings[j])),
            decreases found.len() - k,
        {
            proof {
                assert(ring_at(all@, index_rings, k as int));
                assert forall|j: int| 0 <= j < found@[k as int].len() implies found@[k as int]@[j]
                    < all.len() by {
                    let used = taken(index_rings, k as int);
                    ring_stays_in_range(all@, used, index_rings[k as int], j);
                }
            }
            let ring = walked(&all, &found[k]);
            let area = signed_area(&ring);
            keys.push(area.doubled);
            rings.push(ring);
            k = k + 1;
        }
        proof {
            assert(key_values(keys@) =~= ring_areas(all@, index_rings));
        }
        let order = stable_order(&keys);
        let mut sorted: Vec<Ring> = Vec::new();
        let mut m: usize = 0;
        while m < order.len()
            invariant
                m <= order.len(),
                order.len() == rings.len(),
                rings.len() == index_rings.len(),
                forall|a: int| 0 <= a < order.len() ==> #[trigger] order@[a] < rings.len(),
                forall|j: int|
                    0 <= j < rings.len() ==> #[trigger] rings@[j]@ == chain(all@, index_rings[j]),
                forall|j: int| 0 <= j < rings.len() ==> (#[trigger] rings@[j]).len() <= all.len(),
                sorted.len() == m,
                forall|j: int| 0 <= j < m ==> (#[trigger] sorted@[j]).len() <= all.len(),
                forall|j: int|
                    0 <= j < m ==> #[trigger] sorted@[j]@ == chain(
                        all@,
                        index_rings[order@[j] as int],
                    ),
            decreases order.len() - m,
        {
            let ring = copy_ring(&rings[order[m]]);
            sorted.push(ring);
            m = m + 1;
        }
        proof {
            assert(chains(sorted@) =~= rings_in_order(all@, index_rings, order@));
        }
        sorted
    }

    /// Looks for a segment that ends where no other goes on, in either
    /// direction: `DisconnectedSegment` where there is one. Such a segment
    /// lies on no ring; the rings of the others are found all the same.
    pub fn check_connected(&self) -> (r: Result<(), SketchError>)
        requires
            self.segments.len() <= usize::MAX / 8,
        ensures
            r == if has_dead_end(directed(self.segments@)) {
                Err::<(), SketchError>(SketchError::DisconnectedSegment)
            } else {
                Ok::<(), SketchError>(())
            },
    {
        let all = directed_segments(&self.segments);
        let nothing: Vec<usize> = Vec::new();
        let mut i: usize = 0;
        while i < all.len()
            invariant
                i <= all.len(),
                all@ == directed(self.segments@),
                nothing@ == Seq::<usize>::empty(),
                forall|k: int| 0 <= k < i ==> !is_dead_end(all@, k),
            decreases all.len() - i,
        {
            match find_next_segment_index(&all, &all[i], &nothing) {
                None => {
                    proof {
                        assert(is_dead_end(all@, i as int));
                    }
                    return Err(SketchError::DisconnectedSegment);
                },
                Some(next) => {
                    proof {
                        assert(may_follow(all@, all@[i as int], nothing@, next as int));
                    }
                },
            }
            i = i + 1;
        }
        Ok(())
    }

    /// Looks for an arc through which no circle passes: `DegenerateArc`
    /// where there is one.
    pub fn check_arcs(&self) -> (r: Result<(), SketchError>)
        ensures
            r == if exists|k: int|
                0 <= k < self.segments.len() && is_degenerate_arc(#[trigger] self.segments@[k]) {
                Err::<(), SketchError>(SketchError::DegenerateArc)
            } else {
                Ok::<(), SketchError>(())
            },
    {
        let mut i: usize = 0;
        while i < self.segments.len()
            invariant
                i <= self.segments.len(),
                forall|k: int| 0 <= k < i ==> !is_degenerate_arc(#[trigger] self.segments@[k]),
            decreases self.segments.len() - i,
        {
            if self.segments[i].check().is_err() {
                proof {
                    assert(is_degenerate_arc(self.segments@[i as int]));
                }
                return Err(SketchError::DegenerateArc);
            }
            i = i + 1;
        }
        Ok(())
    }

    /// The faces of the sketch, in ascending order of the area of their
    /// exteriors. Each ring with a positive area is the exterior of one
    /// face; a ring that a larger one encloses is also a hole of the
    /// smallest face that encloses it.
    pub fn find_faces(&self) -> (r: Vec<Face>)
        requires
            self.segments.len() <= usize::MAX / 8,
        ensures
            is_faces_of(self.segments@, r@),
    {
        let rings = self.find_rings();
        let faces = assemble_faces(&rings);
        proof {
            assert(is_faces_over(chains(rings@), faces@));
        }
        faces
    }
}

impl Clone for Sketch {
    fn clone(&self) -> (r: Sketch)
        ensures
            r.segments@ == self.segments@,
    {
        Sketch { segments: copy_ring(&self.segments) }
    }
}

} // verus!
