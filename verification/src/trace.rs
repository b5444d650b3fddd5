//! Walking the directed segments of a sketch into rings.
//!
//! Each segment of a sketch is walked in both directions. From a directed
//! segment the walk goes on along the segment that continues it with the
//! widest counter-clockwise turn, and so keeps one face of the sketch to one
//! fixed side.

use vstd::prelude::*;
use crate::angle::{angle_le, le_reflexive, le_total, le_transitive, turn, Turn};
use crate::segment::Segment;

verus! {

/// Whether directed segment `i` may be walked after `current`: it has not
/// been used, it begins where `current` ends, and it is not `current`'s own
/// edge.
pub open spec fn may_follow(all: Seq<Segment>, current: Segment, used: Seq<usize>, i: int) -> bool {
    &&& 0 <= i < all.len()
    &&& !used.contains(i as usize)
    &&& all[i].follows(&current)
    &&& !all[i].same_edge(&current)
}

/// The turn that a walk takes where it leaves `current` for `next`.
pub open spec fn turn_into(current: Segment, next: Segment) -> Turn {
    turn(current.start_point(), current.end_point(), next.end_point())
}

/// Whether `i` is the segment to walk after `current`, as far as the
/// segments below `limit` go: it may follow, no other that may follow turns
/// wider, and of those that turn as wide it is the last.
pub open spec fn is_next_among(
    all: Seq<Segment>,
    current: Segment,
    used: Seq<usize>,
    i: int,
    limit: int,
) -> bool {
    &&& may_follow(all, current, used, i)
    &&& i < limit
    &&& forall|j: int|
        j < limit && #[trigger] may_follow(all, current, used, j) ==> {
            &&& turn_into(current, all[j]).le(&turn_into(current, all[i]))
            &&& j > i ==> turn_into(current, all[j]).lt(&turn_into(current, all[i]))
        }
}

/// Whether `i` is the segment to walk after `current`.
pub open spec fn is_next(all: Seq<Segment>, current: Segment, used: Seq<usize>, i: int) -> bool {
    is_next_among(all, current, used, i, all.len() as int)
}

/// Only one segment is the next one.
pub proof fn next_is_unique(all: Seq<Segment>, current: Segment, used: Seq<usize>, i: int, j: int)
    requires
        is_next(all, current, used, i),
        is_next(all, current, used, j),
    ensures
        i == j,
{
}

fn contains(list: &Vec<usize>, x: usize) -> (r: bool)
    ensures
        r == list@.contains(x),
{
    let mut k: usize = 0;
    while k < list.len()
        invariant
            k <= list.len(),
            forall|m: int| 0 <= m < k ==> list@[m] != x,
        decreases list.len() - k,
    {
        if list[k] == x {
            return true;
        }
        k = k + 1;
    }
    false
}

/// Picks the segment to walk after `starting_segment`: among the unused
/// segments that continue it and are not its own edge, the one with the
/// widest turn; the last of them where several turn as wide. `None` where
/// no segment may follow.
pub fn find_next_segment_index(
    segments: &Vec<Segment>,
    starting_segment: &Segment,
    used_indices: &Vec<usize>,
) -> (r: Option<usize>)
    ensures
        match r {
            Some(i) => is_next(segments@, *starting_segment, used_indices@, i as int),
            None => forall|j: int| !may_follow(segments@, *starting_segment, used_indices@, j),
        },
{
    let point_a = starting_segment.get_start();
    let point_b = starting_segment.get_end();
    let mut best: Option<usize> = None;
    let mut idx: usize = 0;
    while idx < segments.len()
        invariant
            idx <= segments.len(),
            point_a == starting_segment.start_point(),
            point_b == starting_segment.end_point(),
            match best {
                Some(i) => is_next_among(
                    segments@,
                    *starting_segment,
                    used_indices@,
                    i as int,
                    idx as int,
                ),
                None => forall|j: int|
                    j < idx ==> !may_follow(segments@, *starting_segment, used_indices@, j),
            },
        decreases segments.len() - idx,
    {
        let candidate = &segments[idx];
        if !contains(used_indices, idx) && candidate.continues(starting_segment)
            && !candidate.equals_or_reverse_equals(starting_segment) {
            let ghost here = turn_into(*starting_segment, segments@[idx as int]);
            match best {
                None => {
                    proof {
                        le_reflexive(here);
                    }
                    best = Some(idx);
                },
                Some(b) => {
                    let point_c = candidate.get_end();
                    let best_c = segments[b].get_end();
                    let ghost there = turn_into(*starting_segment, segments@[b as int]);
                    if angle_le(&point_a, &point_b, &best_c, &point_c) {
                        proof {
                            le_reflexive(here);
                            assert forall|j: int|
                                j < idx + 1 && #[trigger] may_follow(
                                    segments@,
                                    *starting_segment,
                                    used_indices@,
                                    j,
                                ) implies turn_into(*starting_segment, segments@[j]).le(&here) by {
                                if j < idx {
                                    le_transitive(
                                        turn_into(*starting_segment, segments@[j]),
                                        there,
                                        here,
                                    );
                                }
                            }
                        }
                        best = Some(idx);
                    } else {
                        proof {
                            le_total(here, there);
                        }
                    }
                },
            }
        }
        idx = idx + 1;
    }
    best
}

/// Whether the segment at `at` ends where the segment at `first` begins.
pub open spec fn closes(all: Seq<Segment>, first: int, at: int) -> bool {
    all[at].end_point().same(&all[first].start_point())
}

/// Whether a walk goes on at step `k`: the segment there does not close the
/// walk, and the segment after it is the next one.
pub open spec fn steps_on(all: Seq<Segment>, used: Seq<usize>, walk: Seq<usize>, k: int) -> bool {
    &&& !closes(all, walk[0] as int, walk[k] as int)
    &&& is_next(all, all[walk[k] as int], used, walk[k + 1] as int)
}

/// Whether `walk` is a ring of the directed segments `all`, walked while
/// the segments `used` were out of play: it has as many steps as there are
/// directed segments at most, each segment but the last is followed by the
/// next one, only the last ends where the first begins, and some segment
/// could still follow the last.
pub open spec fn is_ring(all: Seq<Segment>, used: Seq<usize>, walk: Seq<usize>) -> bool {
    &&& 0 < walk.len() <= all.len()
    &&& walk[0] < all.len()
    &&& forall|k: int| 0 <= k < walk.len() - 1 ==> #[trigger] steps_on(all, used, walk, k)
    &&& closes(all, walk[0] as int, walk.last() as int)
    &&& exists|j: int| may_follow(all, all[walk.last() as int], used, j)
}

/// Two walks from one segment pass the same segments, as far as both go on.
proof fn walks_agree(
    all: Seq<Segment>,
    used: Seq<usize>,
    first: Seq<usize>,
    second: Seq<usize>,
    k: int,
)
    requires
        0 <= k < first.len(),
        k < second.len(),
        first[0] == second[0],
        forall|j: int| 0 <= j < k ==> #[trigger] steps_on(all, used, first, j),
        forall|j: int| 0 <= j < k ==> #[trigger] steps_on(all, used, second, j),
    ensures
        first[k] == second[k],
    decreases k,
{
    if k > 0 {
        walks_agree(all, used, first, second, k - 1);
        assert(steps_on(all, used, first, k - 1));
        assert(steps_on(all, used, second, k - 1));
        next_is_unique(
            all,
            all[first[k - 1] as int],
            used,
            first[k] as int,
            second[k] as int,
        );
    }
}

/// From one segment at most one ring can be walked.
pub proof fn ring_is_unique(
    all: Seq<Segment>,
    used: Seq<usize>,
    first: Seq<usize>,
    second: Seq<usize>,
)
    requires
        is_ring(all, used, first),
        is_ring(all, used, second),
        first[0] == second[0],
    ensures
        first == second,
{
    if first.len() < second.len() {
        let e = first.len() - 1;
        walks_agree(all, used, first, second, e);
        assert(steps_on(all, used, second, e));
    } else if second.len() < first.len() {
        let e = second.len() - 1;
        walks_agree(all, used, first, second, e);
        assert(steps_on(all, used, first, e));
    } else {
        assert forall|k: int| 0 <= k < first.len() implies first[k] == second[k] by {
            walks_agree(all, used, first, second, k);
        }
        assert(first =~= second);
    }
}

/// A walk that has come to a segment which nothing may follow shows that
/// no ring begins where the walk began.
proof fn no_ring_past_dead_end(
    all: Seq<Segment>,
    used: Seq<usize>,
    walk: Seq<usize>,
    ring: Seq<usize>,
)
    requires
        0 < walk.len(),
        forall|k: int| 0 <= k < walk.len() - 1 ==> #[trigger] steps_on(all, used, walk, k),
        forall|j: int| !may_follow(all, all[walk.last() as int], used, j),
        ring.len() > 0,
        ring[0] == walk[0],
    ensures
        !is_ring(all, used, ring),
{
    if is_ring(all, used, ring) {
        let m = walk.len() as int;
        if ring.len() < m {
            // the ring closes where the walk went on
            let e = ring.len() - 1;
            walks_agree(all, used, walk, ring, e);
            assert(steps_on(all, used, walk, e));
        } else {
            // the ring goes on, or closes, where nothing may follow
            walks_agree(all, used, walk, ring, m - 1);
            assert(walk.last() == ring[m - 1]);
            if ring.len() > m {
                assert(steps_on(all, used, ring, m - 1));
                assert(!may_follow(all, all[walk.last() as int], used, ring[m] as int));
            }
        }
    }
}

/// A walk that has taken as many steps as there are directed segments, and
/// has not closed, shows that no ring begins where the walk began.
proof fn no_ring_beyond_limit(
    all: Seq<Segment>,
    used: Seq<usize>,
    walk: Seq<usize>,
    ring: Seq<usize>,
)
    requires
        0 < walk.len(),
        walk.len() == all.len(),
        forall|k: int| 0 <= k < walk.len() - 1 ==> #[trigger] steps_on(all, used, walk, k),
        !closes(all, walk[0] as int, walk.last() as int),
        ring.len() > 0,
        ring[0] == walk[0],
    ensures
        !is_ring(all, used, ring),
{
    if is_ring(all, used, ring) {
        let e = ring.len() - 1;
        walks_agree(all, used, walk, ring, e);
        if e < walk.len() - 1 {
            assert(steps_on(all, used, walk, e));
        }
    }
}

/// Walks from directed segment `first` until the walk closes: `Some` ring
/// where it does, `None` where the walk comes to a dead end or does not
/// close within as many steps as there are directed segments.
pub fn trace_ring(segments: &Vec<Segment>, used_indices: &Vec<usize>, first: usize) -> (r: Option<
    Vec<usize>,
>)
    ensures
        match r {
            Some(walk) => is_ring(segments@, used_indices@, walk@) && walk@[0] == first,
            None => forall|ring: Seq<usize>|
                ring.len() > 0 && ring[0] == first ==> !#[trigger] is_ring(
                    segments@,
                    used_indices@,
                    ring,
                ),
        },
{
    let total = segments.len();
    if first >= total {
        return None;
    }
    let starting_point = segments[first].get_start();
    let mut walk: Vec<usize> = Vec::new();
    let mut current: usize = first;
    let mut steps: usize = 0;
    while steps < total
        invariant
            total == segments.len(),
            first < total,
            starting_point == segments@[first as int].start_point(),
            steps == walk.len(),
            steps <= total,
            current < total,
            steps == 0 ==> current == first,
            steps > 0 ==> walk@[0] == first && steps_on(
                segments@,
                used_indices@,
                walk@.push(current),
                steps - 1,
            ),
            forall|k: int|
                0 <= k < steps - 1 ==> #[trigger] steps_on(segments@, used_indices@, walk@, k),
        decreases total - steps,
    {
        let ghost before = walk@;
        walk.push(current);
        proof {
            assert forall|k: int| 0 <= k < walk.len() - 1 implies #[trigger] steps_on(
                segments@,
                used_indices@,
                walk@,
                k,
            ) by {
                if k < steps - 1 {
                    assert(steps_on(segments@, used_indices@, before, k));
                }
            }
        }
        let here = &segments[current];
        match find_next_segment_index(segments, here, used_indices) {
            None => {
                proof {
                    assert forall|ring: Seq<usize>|
                        ring.len() > 0 && ring[0] == first implies !#[trigger] is_ring(
                        segments@,
                        used_indices@,
                        ring,
                    ) by {
                        no_ring_past_dead_end(segments@, used_indices@, walk@, ring);
                    }
                }
                return None;
            },
            Some(next) => {
                let end = here.get_end();
                if end == starting_point {
                    proof {
                        assert(may_follow(
                            segments@,
                            segments@[walk@.last() as int],
                            used_indices@,
                            next as int,
                        ));
                    }
                    return Some(walk);
                }
                proof {
                    assert(steps_on(segments@, used_indices@, walk@.push(next), steps as int));
                }
                current = next;
            },
        }
        steps = steps + 1;
    }
    proof {
        assert(steps_on(segments@, used_indices@, walk@.push(current), steps - 1));
        assert forall|ring: Seq<usize>|
            ring.len() > 0 && ring[0] == first implies !#[trigger] is_ring(
            segments@,
            used_indices@,
            ring,
        ) by {
            no_ring_beyond_limit(segments@, used_indices@, walk@, ring);
        }
    }
    None
}

/// The segments of the first `k` rings, in the order in which they were
/// walked.
pub open spec fn taken(found: Seq<Seq<usize>>, k: int) -> Seq<usize>
    decreases k,
{
    if k <= 0 {
        Seq::empty()
    } else {
        taken(found, k - 1) + found[k - 1]
    }
}

/// Whether ring `k` of `found` is in order: it is a ring walked while the
/// segments of the rings before it were out of play, it begins at a segment
/// that none of them had used, and it begins after the ring before it.
pub open spec fn ring_at(all: Seq<Segment>, found: Seq<Seq<usize>>, k: int) -> bool {
    &&& is_ring(all, taken(found, k), found[k])
    &&& !taken(found, k).contains(found[k][0])
    &&& k > 0 ==> found[k - 1][0] < found[k][0]
}

/// Whether `walk` is a ring that belongs in place `k` of `found`: a ring
/// walked while the segments of the first `k` rings were out of play, from
/// a segment that none of them had used, which begins after ring `k - 1`
/// and not after ring `k`.
pub open spec fn fits(all: Seq<Segment>, found: Seq<Seq<usize>>, k: int, walk: Seq<usize>) -> bool {
    &&& 0 <= k <= found.len()
    &&& k > 0 ==> found[k - 1][0] < walk[0]
    &&& k < found.len() ==> walk[0] <= found[k][0]
    &&& !taken(found, k).contains(walk[0])
    &&& is_ring(all, taken(found, k), walk)
}

/// Whether `found` holds the rings that begin below `limit`: each ring is
/// in order, and every ring that belongs in a place is the ring in that
/// place.
pub open spec fn rings_found_below(all: Seq<Segment>, found: Seq<Seq<usize>>, limit: int) -> bool {
    &&& forall|k: int|
        0 <= k < found.len() ==> #[trigger] ring_at(all, found, k) && found[k][0] < limit
    &&& forall|k: int, walk: Seq<usize>|
        #[trigger] fits(all, found, k, walk) && walk[0] < limit ==> k < found.len() && found[k]
            == walk
}

/// Whether `found` holds the rings of the directed segments `all`: going
/// through the segments in order, each segment that no earlier ring has
/// used and from which a ring can be walked begins the next ring, and there
/// are no other rings.
pub open spec fn rings_found(all: Seq<Segment>, found: Seq<Seq<usize>>) -> bool {
    rings_found_below(all, found, all.len() as int)
}

/// The index lists of a list of walks.
pub open spec fn walks(found: Seq<Vec<usize>>) -> Seq<Seq<usize>> {
    Seq::new(found.len(), |k: int| found[k]@)
}

proof fn taken_keeps_prefix(found: Seq<Seq<usize>>, longer: Seq<Seq<usize>>, k: int)
    requires
        0 <= k <= found.len() <= longer.len(),
        forall|j: int| 0 <= j < found.len() ==> found[j] == longer[j],
    ensures
        taken(longer, k) == taken(found, k),
    decreases k,
{
    if k > 0 {
        taken_keeps_prefix(found, longer, k - 1);
    }
}

/// The rings of a list of directed segments are determined: two lists that
/// both hold them are one list.
pub proof fn rings_found_is_unique(
    all: Seq<Segment>,
    first: Seq<Seq<usize>>,
    second: Seq<Seq<usize>>,
)
    requires
        rings_found(all, first),
        rings_found(all, second),
    ensures
        first == second,
{
    rings_agree(all, first, second, first.len() as int);
    rings_agree(all, second, first, second.len() as int);
    assert(first =~= second);
}

proof fn rings_agree(all: Seq<Segment>, first: Seq<Seq<usize>>, second: Seq<Seq<usize>>, k: int)
    requires
        rings_found(all, first),
        rings_found(all, second),
        0 <= k <= first.len(),
    ensures
        k <= second.len(),
        forall|j: int| 0 <= j < k ==> first[j] == second[j],
        taken(first, k) == taken(second, k),
    decreases k,
{
    if k > 0 {
        rings_agree(all, first, second, k - 1);
        let walk = first[k - 1];
        assert(ring_at(all, first, k - 1));
        if k - 1 > 0 {
            assert(ring_at(all, first, k - 2));
        }
        if k - 1 < second.len() && second[k - 1][0] < walk[0] {
            // the ring that `second` holds here begins earlier: it belongs in `first` too
            let other = second[k - 1];
            assert(ring_at(all, second, k - 1));
            assert(fits(all, first, k - 1, other));
            assert(false);
        }
        assert(fits(all, second, k - 1, walk));
    }
}

/// Where no ring begins at segment `i`, the rings that begin below `i` are
/// the rings that begin below `i + 1`.
proof fn found_without(all: Seq<Segment>, found: Seq<Seq<usize>>, i: int)
    requires
        rings_found_below(all, found, i),
        forall|walk: Seq<usize>|
            walk.len() > 0 && walk[0] == i && !taken(found, found.len() as int).contains(walk[0])
                ==> !#[trigger] is_ring(all, taken(found, found.len() as int), walk),
    ensures
        rings_found_below(all, found, i + 1),
{
    assert forall|k: int, walk: Seq<usize>| #[trigger]
        fits(all, found, k, walk) && walk[0] < i + 1 implies k < found.len() && found[k]
        == walk by {
        if walk[0] == i {
            if k < found.len() {
                assert(ring_at(all, found, k));
            }
        }
    }
}

/// Where a ring begins at segment `i`, the rings that begin below `i + 1`
/// are those that begin below `i`, and this ring after them.
proof fn found_with(all: Seq<Segment>, found: Seq<Seq<usize>>, i: int, ring: Seq<usize>)
    requires
        rings_found_below(all, found, i),
        is_ring(all, taken(found, found.len() as int), ring),
        ring[0] == i,
        !taken(found, found.len() as int).contains(ring[0]),
    ensures
        rings_found_below(all, found.push(ring), i + 1),
        taken(found.push(ring), found.len() as int + 1) == taken(found, found.len() as int) + ring,
{
    let after = found.push(ring);
    let n = found.len() as int;
    let used = taken(found, n);
    assert forall|k: int| 0 <= k <= n implies taken(after, k) == taken(found, k) by {
        taken_keeps_prefix(found, after, k);
    }
    assert forall|k: int| 0 <= k < after.len() implies #[trigger] ring_at(all, after, k)
        && after[k][0] < i + 1 by {
        if k < n {
            assert(ring_at(all, found, k));
            if k > 0 {
                assert(found[k - 1] == after[k - 1]);
            }
        } else {
            if n > 0 {
                assert(ring_at(all, found, n - 1));
            }
        }
    }
    assert forall|k: int, other: Seq<usize>| #[trigger]
        fits(all, after, k, other) && other[0] < i + 1 implies k < after.len() && after[k]
        == other by {
        if k < n {
            assert(ring_at(all, found, k));
            assert(fits(all, found, k, other));
        } else if k == n {
            if other[0] < i {
                assert(fits(all, found, k, other));
            } else {
                ring_is_unique(all, used, other, ring);
            }
        }
    }
}

/// Walks the directed segments `segments` into rings. Going through the
/// segments in order, each one that no earlier ring has used begins a walk;
/// a walk that closes is a ring, and its segments are then out of play.
pub fn find_ring_indices(segments: &Vec<Segment>) -> (r: Vec<Vec<usize>>)
    ensures
        rings_found(segments@, walks(r@)),
{
    let mut used_indices: Vec<usize> = Vec::new();
    let mut found: Vec<Vec<usize>> = Vec::new();
    let mut i: usize = 0;
    while i < segments.len()
        invariant
            i <= segments.len(),
            used_indices@ == taken(walks(found@), found.len() as int),
            rings_found_below(segments@, walks(found@), i as int),
        decreases segments.len() - i,
    {
        let ghost before = walks(found@);
        let ghost used = used_indices@;
        let mut fresh: Option<Vec<usize>> = None;
        if !contains(&used_indices, i) {
            fresh = trace_ring(segments, &used_indices, i);
        }
        match fresh {
            None => {
                proof {
                    found_without(segments@, before, i as int);
                }
            },
            Some(walk) => {
                let mut j: usize = 0;
                while j < walk.len()
                    invariant
                        j <= walk.len(),
                        used_indices@ == used + walk@.take(j as int),
                    decreases walk.len() - j,
                {
                    used_indices.push(walk[j]);
                    j = j + 1;
                    assert(used_indices@ =~= used + walk@.take(j as int));
                }
                let ghost ring = walk@;
                found.push(walk);
                proof {
                    assert(ring.take(ring.len() as int) =~= ring);
                    assert(walks(found@) =~= before.push(ring));
                    found_with(segments@, before, i as int, ring);
                }
            },
        }
        i = i + 1;
    }
    found
}

/// In a ring each segment begins where the one before it ends, and the
/// last ends where the first begins.
pub proof fn ring_is_closed_chain(all: Seq<Segment>, used: Seq<usize>, walk: Seq<usize>)
    requires
        is_ring(all, used, walk),
    ensures
        forall|k: int|
            0 <= k < walk.len() - 1 ==> (#[trigger] all[walk[k + 1] as int]).follows(
                &all[walk[k] as int],
            ),
        all[walk.last() as int].end_point().same(&all[walk[0] as int].start_point()),
{
    assert forall|k: int| 0 <= k < walk.len() - 1 implies (#[trigger] all[walk[k
        + 1] as int]).follows(&all[walk[k] as int]) by {
        assert(steps_on(all, used, walk, k));
    }
}

proof fn walk_repeats(all: Seq<Segment>, used: Seq<usize>, walk: Seq<usize>, p: int, q: int, t: int)
    requires
        is_ring(all, used, walk),
        0 <= p < q,
        0 <= t,
        q + t < walk.len(),
        walk[p] == walk[q],
    ensures
        walk[p + t] == walk[q + t],
    decreases t,
{
    if t > 0 {
        walk_repeats(all, used, walk, p, q, t - 1);
        assert(steps_on(all, used, walk, p + t - 1));
        assert(steps_on(all, used, walk, q + t - 1));
        next_is_unique(
            all,
            all[walk[p + t - 1] as int],
            used,
            walk[p + t] as int,
            walk[q + t] as int,
        );
    }
}

/// A ring passes no directed segment twice.
pub proof fn ring_has_no_repeats(
    all: Seq<Segment>,
    used: Seq<usize>,
    walk: Seq<usize>,
    p: int,
    q: int,
)
    requires
        is_ring(all, used, walk),
        0 <= p < q < walk.len(),
    ensures
        walk[p] != walk[q],
{
    if walk[p] == walk[q] {
        // the walk would close before its end, where it went on
        let t = walk.len() - 1 - q;
        walk_repeats(all, used, walk, p, q, t);
        assert(steps_on(all, used, walk, p + t));
    }
}

/// No ring passes a segment that was out of play when it was walked, but
/// for its first.
pub proof fn ring_avoids_used(all: Seq<Segment>, used: Seq<usize>, walk: Seq<usize>, k: int)
    requires
        is_ring(all, used, walk),
        1 <= k < walk.len(),
    ensures
        !used.contains(walk[k]),
        walk[k] < all.len(),
{
    assert(steps_on(all, used, walk, k - 1));
}

proof fn taken_holds_ring(found: Seq<Seq<usize>>, k: int, a: int, i: int)
    requires
        0 <= a < k <= found.len(),
        0 <= i < found[a].len(),
    ensures
        taken(found, k).contains(found[a][i]),
    decreases k,
{
    let earlier = taken(found, k - 1);
    if a == k - 1 {
        assert((earlier + found[a])[earlier.len() + i] == found[a][i]);
    } else {
        taken_holds_ring(found, k - 1, a, i);
        let m = choose|m: int| 0 <= m < earlier.len() && earlier[m] == found[a][i];
        assert((earlier + found[k - 1])[m] == found[a][i]);
    }
}

/// No directed segment lies on two rings.
pub proof fn rings_are_disjoint(
    all: Seq<Segment>,
    found: Seq<Seq<usize>>,
    a: int,
    i: int,
    b: int,
    j: int,
)
    requires
        rings_found(all, found),
        0 <= a < b < found.len(),
        0 <= i < found[a].len(),
        0 <= j < found[b].len(),
    ensures
        found[a][i] != found[b][j],
{
    assert(ring_at(all, found, b));
    taken_holds_ring(found, b, a, i);
    if j > 0 {
        ring_avoids_used(all, taken(found, b), found[b], j);
    }
}

} // verus!
