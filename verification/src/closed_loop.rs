//! What the kernel finds in a single closed loop.

use vstd::prelude::*;
use crate::angle::le_reflexive;
use crate::point::Point;
use crate::ring::{doubled_area, sweep, swept};
use crate::segment::Segment;
use crate::order::{comes_before, is_stable_order};
use crate::sketch::{chain, directed, is_rings_of, ring_areas, rings_in_order};
use crate::trace::{
    closes, fits, is_next, is_ring, may_follow, ring_at, rings_found, steps_on, taken, turn_into,
};

verus! {

/// The place after `i` on a loop of `n` places.
pub open spec fn after(i: int, n: int) -> int {
    if i + 1 == n {
        0
    } else {
        i + 1
    }
}

/// The place before `i` on a loop of `n` places.
pub open spec fn before(i: int, n: int) -> int {
    if i == 0 {
        n - 1
    } else {
        i - 1
    }
}

/// Whether `segments` are a single closed loop through `points`: three
/// points or more, no two of them equal, and segment `i` runs from point
/// `i` to the point after it.
pub open spec fn is_loop(points: Seq<Point>, segments: Seq<Segment>) -> bool {
    &&& points.len() >= 3
    &&& segments.len() == points.len()
    &&& forall|i: int|
        0 <= i < segments.len() ==> (#[trigger] segments[i]).start_point() == points[i]
            && segments[i].end_point() == points[after(i, points.len() as int)]
    &&& forall|i: int, j: int|
        0 <= i < j < points.len() ==> !#[trigger] points[i].same(&points[j])
}

/// The loop as it is drawn: the walk over the segments as given.
pub open spec fn forward_walk(n: int) -> Seq<usize> {
    Seq::new(n as nat, |k: int| k as usize)
}

/// The loop walked backwards: the walk over the reversed segments that
/// begins with the reversal of the first.
pub open spec fn backward_walk(n: int) -> Seq<usize> {
    Seq::new(
        n as nat,
        |k: int|
            if k == 0 {
                n as usize
            } else {
                (2 * n - k) as usize
            },
    )
}

/// The point at which directed segment `j` of a loop begins.
spec fn start_of(j: int, n: int) -> int {
    if j < n {
        j
    } else {
        after(j - n, n)
    }
}

/// The point at which directed segment `j` of a loop ends.
spec fn end_of(j: int, n: int) -> int {
    if j < n {
        after(j, n)
    } else {
        j - n
    }
}

/// The same edge of a loop walked the other way.
spec fn twin(j: int, n: int) -> int {
    if j < n {
        j + n
    } else {
        j - n
    }
}

/// The directed segment that goes on from directed segment `j` of a loop.
spec fn onward(j: int, n: int) -> int {
    if j < n {
        after(j, n)
    } else {
        n + before(j - n, n)
    }
}

proof fn ends_of_directed(points: Seq<Point>, segments: Seq<Segment>, j: int)
    requires
        is_loop(points, segments),
        0 <= j < 2 * points.len(),
    ensures
        directed(segments)[j].start_point() == points[start_of(j, points.len() as int)],
        directed(segments)[j].end_point() == points[end_of(j, points.len() as int)],
        0 <= start_of(j, points.len() as int) < points.len(),
        0 <= end_of(j, points.len() as int) < points.len(),
        directed(segments)[twin(j, points.len() as int)] == directed(segments)[j].reversed(),
{
    let n = points.len() as int;
    if j < n {
        assert(directed(segments)[j] == segments[j]);
        assert(directed(segments)[j + n] == segments[j].reversed());
    } else {
        assert(directed(segments)[j] == segments[j - n].reversed());
        assert(directed(segments)[j - n] == segments[j - n]);
    }
}

proof fn points_same_iff(points: Seq<Point>, segments: Seq<Segment>, a: int, b: int)
    requires
        is_loop(points, segments),
        0 <= a < points.len(),
        0 <= b < points.len(),
    ensures
        points[a].same(&points[b]) == (a == b),
{
    if a < b {
        assert(!points[a].same(&points[b]));
    } else if b < a {
        assert(!points[b].same(&points[a]));
    }
}

/// After a directed segment of a loop only one segment may follow.
proof fn only_onward_may_follow(
    points: Seq<Point>,
    segments: Seq<Segment>,
    used: Seq<usize>,
    i: int,
    j: int,
)
    requires
        is_loop(points, segments),
        0 <= i < 2 * points.len(),
    ensures
        may_follow(directed(segments), directed(segments)[i], used, j) == (j == onward(
            i,
            points.len() as int,
        ) && !used.contains(j as usize)),
        0 <= onward(i, points.len() as int) < 2 * points.len(),
{
    let n = points.len() as int;
    let all = directed(segments);
    let next = onward(i, n);
    ends_of_directed(points, segments, i);
    if 0 <= j < 2 * n {
        ends_of_directed(points, segments, j);
        points_same_iff(points, segments, end_of(i, n), start_of(j, n));
        points_same_iff(points, segments, start_of(j, n), start_of(i, n));
        points_same_iff(points, segments, end_of(j, n), start_of(i, n));
        points_same_iff(points, segments, start_of(j, n), end_of(i, n));
        if j == twin(i, n) {
            assert(all[j].same(&all[i].reversed()));
        }
    }
}

/// In a loop the segment that goes on is the next one, unless it is used.
proof fn onward_is_next(points: Seq<Point>, segments: Seq<Segment>, used: Seq<usize>, i: int)
    requires
        is_loop(points, segments),
        0 <= i < 2 * points.len(),
        !used.contains(onward(i, points.len() as int) as usize),
    ensures
        is_next(
            directed(segments),
            directed(segments)[i],
            used,
            onward(i, points.len() as int),
        ),
{
    let n = points.len() as int;
    let all = directed(segments);
    let next = onward(i, n);
    only_onward_may_follow(points, segments, used, i, next);
    assert forall|j: int| j < all.len() && #[trigger] may_follow(all, all[i], used, j) implies {
        &&& turn_into(all[i], all[j]).le(&turn_into(all[i], all[next]))
        &&& j > next ==> turn_into(all[i], all[j]).lt(&turn_into(all[i], all[next]))
    } by {
        only_onward_may_follow(points, segments, used, i, j);
        le_reflexive(turn_into(all[i], all[next]));
    }
}

/// Where a directed segment of a loop closes a walk.
proof fn closes_iff(points: Seq<Point>, segments: Seq<Segment>, first: int, at: int)
    requires
        is_loop(points, segments),
        0 <= first < 2 * points.len(),
        0 <= at < 2 * points.len(),
    ensures
        closes(directed(segments), first, at) == (end_of(at, points.len() as int) == start_of(
            first,
            points.len() as int,
        )),
{
    let n = points.len() as int;
    ends_of_directed(points, segments, first);
    ends_of_directed(points, segments, at);
    points_same_iff(points, segments, end_of(at, n), start_of(first, n));
}

/// The loop as it is drawn passes the segments as given, and no others.
proof fn forward_walk_holds(n: int, x: usize)
    requires
        0 <= n <= usize::MAX,
    ensures
        forward_walk(n).contains(x) == (x < n),
{
    let walk = forward_walk(n);
    if x < n {
        assert(walk[x as int] == x);
    }
    if walk.contains(x) {
        let k = choose|k: int| 0 <= k < walk.len() && walk[k] == x;
        assert(walk[k] == k);
    }
}

/// The loop as it is drawn is a ring, while no segment is used.
pub proof fn forward_walk_is_ring(points: Seq<Point>, segments: Seq<Segment>)
    requires
        is_loop(points, segments),
        2 * points.len() <= usize::MAX,
    ensures
        is_ring(directed(segments), Seq::empty(), forward_walk(points.len() as int)),
{
    let n = points.len() as int;
    let all = directed(segments);
    let used = Seq::<usize>::empty();
    let walk = forward_walk(n);
    assert forall|k: int| 0 <= k < walk.len() - 1 implies #[trigger] steps_on(
        all,
        used,
        walk,
        k,
    ) by {
        closes_iff(points, segments, 0, k);
        onward_is_next(points, segments, used, k);
    }
    closes_iff(points, segments, 0, n - 1);
    only_onward_may_follow(points, segments, used, n - 1, 0);
    assert(may_follow(all, all[walk.last() as int], used, 0));
}

/// The loop walked backwards is a ring, while the segments of the loop as
/// drawn are used.
pub proof fn backward_walk_is_ring(points: Seq<Point>, segments: Seq<Segment>)
    requires
        is_loop(points, segments),
        2 * points.len() <= usize::MAX,
    ensures
        is_ring(
            directed(segments),
            forward_walk(points.len() as int),
            backward_walk(points.len() as int),
        ),
{
    let n = points.len() as int;
    let all = directed(segments);
    let used = forward_walk(n);
    let walk = backward_walk(n);
    assert forall|k: int| 0 <= k < walk.len() - 1 implies #[trigger] steps_on(
        all,
        used,
        walk,
        k,
    ) by {
        closes_iff(points, segments, n, walk[k] as int);
        forward_walk_holds(n, walk[k + 1]);
        onward_is_next(points, segments, used, walk[k] as int);
    }
    closes_iff(points, segments, n, n + 1);
    forward_walk_holds(n, n as usize);
    only_onward_may_follow(points, segments, used, n + 1, n);
    assert(walk.last() == n + 1);
    assert(may_follow(all, all[walk.last() as int], used, n));
}

/// The loop walked backwards passes the reversed segments, and no others.
proof fn backward_walk_holds(n: int, x: usize)
    requires
        3 <= n,
        2 * n <= usize::MAX,
    ensures
        backward_walk(n).contains(x) == (n <= x < 2 * n),
{
    let walk = backward_walk(n);
    if n <= x < 2 * n {
        if x == n {
            assert(walk[0] == x);
        } else {
            assert(walk[2 * n - x] == x);
        }
    }
    if walk.contains(x) {
        let k = choose|k: int| 0 <= k < walk.len() && walk[k] == x;
        assert(walk[k] == x);
    }
}

/// The rings walked over a single closed loop are the loop as drawn and
/// the loop walked backwards, in this order.
pub proof fn loop_walks_found(points: Seq<Point>, segments: Seq<Segment>, found: Seq<Seq<usize>>)
    requires
        is_loop(points, segments),
        2 * points.len() <= usize::MAX,
        rings_found(directed(segments), found),
    ensures
        found == seq![forward_walk(points.len() as int), backward_walk(points.len() as int)],
{
    let n = points.len() as int;
    let all = directed(segments);
    let ahead = forward_walk(n);
    let back = backward_walk(n);
    forward_walk_is_ring(points, segments);
    backward_walk_is_ring(points, segments);
    assert(taken(found, 0) =~= Seq::<usize>::empty());
    assert(fits(all, found, 0, ahead));
    assert(found[0] == ahead);
    assert(taken(found, 1) =~= ahead);
    forward_walk_holds(n, n as usize);
    if found.len() > 1 {
        assert(ring_at(all, found, 1));
        forward_walk_holds(n, found[1][0]);
    }
    assert(fits(all, found, 1, back));
    assert(found[1] == back);
    if found.len() > 2 {
        assert(ring_at(all, found, 2));
        let x = found[2][0];
        assert(taken(found, 2) =~= ahead + back);
        forward_walk_holds(n, x);
        backward_walk_holds(n, x);
        if x < n {
            let k = choose|k: int| 0 <= k < ahead.len() && ahead[k] == x;
            assert((ahead + back)[k] == x);
        } else {
            let k = choose|k: int| 0 <= k < back.len() && back[k] == x;
            assert((ahead + back)[n + k] == x);
        }
        assert(false);
    }
    assert(found =~= seq![ahead, back]);
}

proof fn negated_product(a: int, b: int)
    by (nonlinear_arith)
    ensures
        (-a) * b == -(a * b),
{
}

/// A segment walked the other way sweeps the opposite.
pub proof fn sweep_of_reversed(s: Segment)
    ensures
        sweep(s.reversed()) == -sweep(s),
{
    let dx = s.end_point().x - s.start_point().x;
    let sy = s.end_point().y + s.start_point().y;
    negated_product(dx, sy);
    assert(s.reversed().start_point() == s.end_point());
    assert(s.reversed().end_point() == s.start_point());
}

proof fn swept_take(ring: Seq<Segment>, k: int)
    requires
        0 <= k < ring.len(),
    ensures
        swept(ring.take(k + 1)) == swept(ring.take(k)) + sweep(ring[k]),
{
    assert(ring.take(k + 1).drop_last() =~= ring.take(k));
}

proof fn backward_sweep(segments: Seq<Segment>, back: Seq<Segment>, k: int)
    requires
        segments.len() >= 3,
        back.len() == segments.len(),
        back[0] == segments[0].reversed(),
        forall|m: int| 1 <= m < back.len() ==> back[m] == segments[segments.len() - m].reversed(),
        0 <= k < segments.len(),
    ensures
        swept(back.take(k + 1)) + swept(segments) == swept(segments.take(segments.len() - k))
            - sweep(segments[0]),
    decreases k,
{
    let n = segments.len() as int;
    swept_take(back, k);
    if k == 0 {
        assert(back.take(0) =~= Seq::<Segment>::empty());
        assert(segments.take(n) =~= segments);
        sweep_of_reversed(segments[0]);
    } else {
        backward_sweep(segments, back, k - 1);
        swept_take(segments, n - k);
        sweep_of_reversed(segments[n - k]);
    }
}

/// The loop walked backwards encloses the opposite of what the loop as
/// drawn encloses.
pub proof fn backward_area(points: Seq<Point>, segments: Seq<Segment>)
    requires
        is_loop(points, segments),
        2 * points.len() <= usize::MAX,
    ensures
        chain(directed(segments), forward_walk(points.len() as int)) == segments,
        doubled_area(chain(directed(segments), backward_walk(points.len() as int)))
            == -doubled_area(segments),
{
    let n = points.len() as int;
    let all = directed(segments);
    let back = chain(all, backward_walk(n));
    assert(chain(all, forward_walk(n)) =~= segments);
    assert(back[0] == segments[0].reversed());
    assert forall|m: int| 1 <= m < back.len() implies back[m] == segments[segments.len()
        - m].reversed() by {}
    backward_sweep(segments, back, n - 1);
    assert(back.take(n) =~= back);
    swept_take(segments, 0);
    assert(segments.take(0) =~= Seq::<Segment>::empty());
}

/// A sketch that holds a single closed loop has exactly two rings: the
/// loop as it is drawn and the loop walked backwards. Their areas are
/// opposite, and the ring with the area below nought comes first.
pub proof fn single_loop_has_two_rings(
    points: Seq<Point>,
    segments: Seq<Segment>,
    rings: Seq<Seq<Segment>>,
)
    requires
        is_loop(points, segments),
        2 * points.len() <= usize::MAX,
        is_rings_of(segments, rings),
    ensures
        rings.len() == 2,
        doubled_area(rings[0]) == -doubled_area(rings[1]),
        doubled_area(rings[0]) <= 0 <= doubled_area(rings[1]),
        ({
            let back = chain(directed(segments), backward_walk(points.len() as int));
            if doubled_area(segments) > 0 {
                rings[0] == back && rings[1] == segments
            } else {
                rings[0] == segments && rings[1] == back
            }
        }),
{
    let n = points.len() as int;
    let all = directed(segments);
    let (found, order) = choose|found: Seq<Seq<usize>>, order: Seq<usize>|
        {
            &&& rings_found(directed(segments), found)
            &&& is_stable_order(ring_areas(directed(segments), found), order)
            &&& rings == #[trigger] rings_in_order(directed(segments), found, order)
        };
    loop_walks_found(points, segments, found);
    backward_area(points, segments);
    let keys = ring_areas(all, found);
    assert(keys[0] == doubled_area(segments));
    assert(keys[1] == -doubled_area(segments));
    assert(order[0] < 2 && order[1] < 2);
    assert(comes_before(keys, order[0] as int, order[1] as int));
    assert(rings[0] == chain(all, found[order[0] as int]));
    assert(rings[1] == chain(all, found[order[1] as int]));
}

} // verus!
