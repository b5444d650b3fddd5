//! Faces: rings with the rings that lie inside them as holes.

use vstd::prelude::*;
use crate::ring::{as_polygon, chains, copy_ring, corners, doubled_area, signed_area, Ring};
use crate::segment::Segment;

verus! {

/// A region of the sketch: the ring around it and the rings around its
/// holes.
#[derive(Debug)]
pub struct Face {
    pub exterior: Ring,
    pub interiors: Vec<Ring>,
}

/// Whether the polygon with the corners `outline` holds the points
/// `points`: none of them lies outside it, and one at least lies strictly
/// inside.
pub uninterp spec fn holds_points(outline: Seq<(i32, i32)>, points: Seq<(i32, i32)>) -> bool;

/// Asks `geo` whether a polygon contains a set of points, through
/// `Contains<MultiPoint>` of `geo::Polygon`. Nothing is claimed of the
/// answer but that it depends on the two lists alone. The coordinates are
/// handed over as `i128`, in which the products that `geo` forms of
/// differences of `i32` values cannot overflow.
#[verifier::external_body]
fn outline_holds_points(outline: &Vec<(i32, i32)>, points: &Vec<(i32, i32)>) -> (r: bool)
    ensures
        r == holds_points(outline@, points@),
{
    let ring: Vec<(i128, i128)> = outline.iter().map(|c| (c.0.into(), c.1.into())).collect();
    let cloud: Vec<(i128, i128)> = points.iter().map(|c| (c.0.into(), c.1.into())).collect();
    let polygon = geo::Polygon::new(geo::LineString::from(ring), Vec::new());
    geo::Contains::contains(&polygon, &geo::MultiPoint::from(cloud))
}

/// Whether the ring `outer` encloses the ring `inner`, judged by the
/// corners: the polygon of `outer` holds the corners of `inner`. For two
/// rings of one sketch whose segments meet in their end points only, this
/// is containment of the regions.
pub open spec fn encloses(outer: Seq<Segment>, inner: Seq<Segment>) -> bool {
    holds_points(corners(outer), corners(inner))
}

/// The rings with a positive area, in their order.
pub open spec fn positive_rings(rings: Seq<Seq<Segment>>) -> Seq<Seq<Segment>>
    decreases rings.len(),
{
    if rings.len() == 0 {
        rings
    } else {
        let rest = positive_rings(rings.drop_last());
        if doubled_area(rings.last()) > 0 {
            rest.push(rings.last())
        } else {
            rest
        }
    }
}

/// Whether polygon `k` is the one that takes polygon `j` as a hole: the
/// first after `j` that encloses it.
pub open spec fn is_parent(polygons: Seq<Seq<Segment>>, j: int, k: int) -> bool {
    &&& 0 <= j < k < polygons.len()
    &&& encloses(polygons[k], polygons[j])
    &&& forall|m: int| j < m < k ==> !#[trigger] encloses(polygons[m], polygons[j])
}

/// Whether no polygon takes polygon `j` as a hole.
pub open spec fn is_orphan(polygons: Seq<Seq<Segment>>, j: int) -> bool {
    forall|m: int| j < m < polygons.len() ==> !#[trigger] encloses(polygons[m], polygons[j])
}

/// The holes of polygon `k` among the first `upto` polygons, in their
/// order.
pub open spec fn holes_below(polygons: Seq<Seq<Segment>>, k: int, upto: int) -> Seq<Seq<Segment>>
    decreases upto,
{
    if upto <= 0 {
        Seq::empty()
    } else {
        let rest = holes_below(polygons, k, upto - 1);
        if is_parent(polygons, upto - 1, k) {
            rest.push(polygons[upto - 1])
        } else {
            rest
        }
    }
}

/// The holes of polygon `k`: the polygons before it that it takes.
pub open spec fn holes(polygons: Seq<Seq<Segment>>, k: int) -> Seq<Seq<Segment>> {
    holes_below(polygons, k, k)
}

/// Every hole of a polygon is an earlier polygon that this one encloses,
/// and that no polygon between the two encloses.
pub proof fn hole_has_its_parent(polygons: Seq<Seq<Segment>>, k: int, upto: int, h: int) -> (j: int)
    requires
        0 <= h < holes_below(polygons, k, upto).len(),
    ensures
        0 <= j < upto,
        holes_below(polygons, k, upto)[h] == polygons[j],
        is_parent(polygons, j, k),
    decreases upto,
{
    let rest = holes_below(polygons, k, upto - 1);
    if is_parent(polygons, upto - 1, k) && h == rest.len() {
        upto - 1
    } else {
        hole_has_its_parent(polygons, k, upto - 1, h)
    }
}

/// The rings with a positive area are rings of the list: ring `k` of them
/// is the ring of the list that has a positive area and `k` rings with a
/// positive area before it.
pub proof fn positive_ring_has_its_place(rings: Seq<Seq<Segment>>, k: int) -> (place: int)
    requires
        0 <= k < positive_rings(rings).len(),
    ensures
        0 <= place < rings.len(),
        positive_rings(rings)[k] == rings[place],
        doubled_area(rings[place]) > 0,
        positive_rings(rings.take(place)).len() == k,
    decreases rings.len(),
{
    let rest = positive_rings(rings.drop_last());
    if doubled_area(rings.last()) > 0 && k == rest.len() {
        assert(rings.take(rings.len() - 1) =~= rings.drop_last());
        rings.len() - 1
    } else {
        let place = positive_ring_has_its_place(rings.drop_last(), k);
        assert(rings.drop_last().take(place) =~= rings.take(place));
        place
    }
}

/// Whether `faces` are the faces over the polygons `polygons`: one face
/// for each polygon, in order, with the polygon as its exterior and the
/// polygon's holes as its interiors.
pub open spec fn faces_match(polygons: Seq<Seq<Segment>>, faces: Seq<Face>) -> bool {
    &&& faces.len() == polygons.len()
    &&& forall|k: int|
        0 <= k < faces.len() ==> (#[trigger] faces[k]).exterior@ == polygons[k] && chains(
            faces[k].interiors@,
        ) == holes(polygons, k)
}

proof fn positive_count_grows(rings: Seq<Seq<Segment>>, a: int, b: int)
    requires
        0 <= a <= b <= rings.len(),
    ensures
        positive_rings(rings.take(a)).len() <= positive_rings(rings.take(b)).len(),
    decreases b - a,
{
    if a < b {
        positive_count_grows(rings, a, b - 1);
        assert(rings.take(b).drop_last() =~= rings.take(b - 1));
    }
}

/// Over rings that stand in ascending order of their areas, the exteriors
/// of the faces have positive areas and stand in ascending order of them.
pub proof fn exteriors_ascend(rings: Seq<Seq<Segment>>, faces: Seq<Face>)
    requires
        is_faces_over(rings, faces),
        forall|a: int, b: int|
            0 <= a <= b < rings.len() ==> doubled_area(#[trigger] rings[a]) <= doubled_area(
                #[trigger] rings[b],
            ),
    ensures
        forall|k: int| 0 <= k < faces.len() ==> doubled_area((#[trigger] faces[k]).exterior@) > 0,
        forall|a: int, b: int|
            0 <= a <= b < faces.len() ==> doubled_area((#[trigger] faces[a]).exterior@)
                <= doubled_area((#[trigger] faces[b]).exterior@),
{
    assert forall|k: int| 0 <= k < faces.len() implies doubled_area(
        (#[trigger] faces[k]).exterior@,
    ) > 0 by {
        let place = positive_ring_has_its_place(rings, k);
    }
    assert forall|a: int, b: int| 0 <= a <= b < faces.len() implies doubled_area(
        (#[trigger] faces[a]).exterior@,
    ) <= doubled_area((#[trigger] faces[b]).exterior@) by {
        if a < b {
            let first = positive_ring_has_its_place(rings, a);
            let second = positive_ring_has_its_place(rings, b);
            if second < first {
                positive_count_grows(rings, second, first);
            }
            assert(doubled_area(rings[first]) <= doubled_area(rings[second]));
        }
    }
}

/// Every interior of a face is the exterior of an earlier face, which the
/// face encloses and which no face between the two encloses: a hole lies
/// in the first face after it that encloses it.
pub proof fn interior_has_its_face(
    polygons: Seq<Seq<Segment>>,
    faces: Seq<Face>,
    k: int,
    h: int,
) -> (j: int)
    requires
        faces_match(polygons, faces),
        0 <= k < faces.len(),
        0 <= h < faces[k].interiors.len(),
    ensures
        0 <= j < k,
        faces[k].interiors@[h]@ == faces[j].exterior@,
        is_parent(polygons, j, k),
{
    assert(chains(faces[k].interiors@)[h] == faces[k].interiors@[h]@);
    hole_has_its_parent(polygons, k, k, h)
}

/// Whether `faces` are the faces over the rings `rings`: the rings with a
/// positive area become polygons, and each polygon that a later one
/// encloses becomes a hole of the first that does.
pub open spec fn is_faces_over(rings: Seq<Seq<Segment>>, faces: Seq<Face>) -> bool {
    faces_match(positive_rings(rings), faces)
}

/// The rings with a positive area, in their order.
fn keep_positive(rings: &Vec<Ring>) -> (r: Vec<Ring>)
    requires
        forall|k: int| 0 <= k < rings.len() ==> (#[trigger] rings@[k]).len() <= usize::MAX / 4,
    ensures
        chains(r@) == positive_rings(chains(rings@)),
{
    let mut kept: Vec<Ring> = Vec::new();
    let mut i: usize = 0;
    while i < rings.len()
        invariant
            i <= rings.len(),
            forall|k: int| 0 <= k < rings.len() ==> (#[trigger] rings@[k]).len() <= usize::MAX / 4,
            chains(kept@) == positive_rings(chains(rings@).take(i as int)),
        decreases rings.len() - i,
    {
        let ghost before = chains(rings@).take(i as int);
        let ghost after = chains(rings@).take(i + 1);
        proof {
            assert(after.drop_last() =~= before);
            assert(after.last() == rings@[i as int]@);
            assert(positive_rings(after) == if doubled_area(after.last()) > 0 {
                positive_rings(before).push(after.last())
            } else {
                positive_rings(before)
            });
        }
        if signed_area(&rings[i]).is_positive() {
            let ghost old_kept = chains(kept@);
            kept.push(copy_ring(&rings[i]));
            proof {
                assert(chains(kept@) =~= old_kept.push(rings@[i as int]@));
            }
        }
        i = i + 1;
    }
    proof {
        assert(chains(rings@).take(rings.len() as int) =~= chains(rings@));
    }
    kept
}

/// For each polygon the polygon that takes it as a hole, if one does.
fn find_parents(polygons: &Vec<Ring>) -> (r: Vec<Option<usize>>)
    ensures
        r.len() == polygons.len(),
        forall|j: int|
            0 <= j < r.len() ==> match #[trigger] r@[j] {
                Some(k) => is_parent(chains(polygons@), j, k as int),
                None => is_orphan(chains(polygons@), j),
            },
{
    let ghost all = chains(polygons@);
    let count = polygons.len();
    let mut outlines: Vec<Vec<(i32, i32)>> = Vec::new();
    let mut i: usize = 0;
    while i < count
        invariant
            count == polygons.len(),
            i <= count,
            outlines.len() == i,
            forall|k: int| 0 <= k < i ==> (#[trigger] outlines@[k])@ == corners(polygons@[k]@),
        decreases count - i,
    {
        outlines.push(as_polygon(&polygons[i]));
        i = i + 1;
    }
    let mut parents: Vec<Option<usize>> = Vec::new();
    let mut j: usize = 0;
    while j < count
        invariant
            count == polygons.len(),
            all == chains(polygons@),
            j <= count,
            outlines.len() == count,
            forall|k: int| 0 <= k < count ==> (#[trigger] outlines@[k])@ == corners(polygons@[k]@),
            parents.len() == j,
            forall|s: int|
                0 <= s < j ==> match #[trigger] parents@[s] {
                    Some(k) => is_parent(all, s, k as int),
                    None => is_orphan(all, s),
                },
        decreases count - j,
    {
        let mut parent: Option<usize> = None;
        let mut k: usize = j + 1;
        while k < count
            invariant_except_break
                parent.is_none(),
                forall|m: int| j < m < k ==> !#[trigger] encloses(all[m], all[j as int]),
            invariant
                count == polygons.len(),
                all == chains(polygons@),
                j < count,
                j < k <= count,
                outlines.len() == count,
                forall|m: int|
                    0 <= m < count ==> (#[trigger] outlines@[m])@ == corners(polygons@[m]@),
            ensures
                match parent {
                    Some(p) => is_parent(all, j as int, p as int),
                    None => is_orphan(all, j as int),
                },
            decreases count - k,
        {
            if outline_holds_points(&outlines[k], &outlines[j]) {
                parent = Some(k);
                break ;
            }
            k = k + 1;
        }
        parents.push(parent);
        j = j + 1;
    }
    parents
}

/// Builds the faces over a list of rings: the rings with a positive area
/// become the exteriors, in their order, and each of them that a later one
/// encloses becomes an interior of the first that does.
pub fn assemble_faces(rings: &Vec<Ring>) -> (r: Vec<Face>)
    requires
        forall|k: int| 0 <= k < rings.len() ==> (#[trigger] rings@[k]).len() <= usize::MAX / 4,
    ensures
        is_faces_over(chains(rings@), r@),
{
    let polygons = keep_positive(rings);
    let parents = find_parents(&polygons);
    let ghost all = chains(polygons@);
    let mut faces: Vec<Face> = Vec::new();
    let mut k: usize = 0;
    while k < polygons.len()
        invariant
            k <= polygons.len(),
            all == chains(polygons@),
            parents.len() == polygons.len(),
            forall|j: int|
                0 <= j < parents.len() ==> match #[trigger] parents@[j] {
                    Some(p) => is_parent(all, j, p as int),
                    None => is_orphan(all, j),
                },
            faces.len() == k,
            forall|f: int|
                0 <= f < k ==> (#[trigger] faces@[f]).exterior@ == all[f] && chains(
                    faces@[f].interiors@,
                ) == holes(all, f),
        decreases polygons.len() - k,
    {
        let mut interiors: Vec<Ring> = Vec::new();
        let mut j: usize = 0;
        while j < k
            invariant
                j <= k < polygons.len(),
                all == chains(polygons@),
                parents.len() == polygons.len(),
                forall|s: int|
                    0 <= s < parents.len() ==> match #[trigger] parents@[s] {
                        Some(p) => is_parent(all, s, p as int),
                        None => is_orphan(all, s),
                    },
                chains(interiors@) == holes_below(all, k as int, j as int),
            decreases k - j,
        {
            let ghost before = chains(interiors@);
            let taken = match parents[j] {
                Some(p) => p == k,
                None => false,
            };
            proof {
                assert(taken == is_parent(all, j as int, k as int)) by {
                    match parents@[j as int] {
                        Some(p) => {
                            if p != k && is_parent(all, j as int, k as int) {
                                if (p as int) < k {
                                    assert(encloses(all[p as int], all[j as int]));
                                } else {
                                    assert(encloses(all[k as int], all[j as int]));
                                }
                            }
                        },
                        None => {
                            if is_parent(all, j as int, k as int) {
                                assert(encloses(all[k as int], all[j as int]));
                            }
                        },
                    }
                }
            }
            if taken {
                interiors.push(copy_ring(&polygons[j]));
                proof {
                    assert(chains(interiors@) =~= before.push(all[j as int]));
                }
            }
            j = j + 1;
        }
        faces.push(Face { exterior: copy_ring(&polygons[k]), interiors });
        k = k + 1;
    }
    faces
}

} // verus!
