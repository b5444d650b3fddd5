//! A sketch seen in space.

use vstd::prelude::*;
use crate::face::Face;
use crate::ring::Ring;
use crate::segment::Segment;
use crate::sketch::{is_faces_of, Sketch};
use crate::space::{CoordinateFrame, LineFace, LineRing, LineSegment};

verus! {

/// The segments and the faces of a sketch, placed in space.
#[derive(Debug)]
pub struct SketchView {
    pub segments: Vec<LineSegment>,
    pub faces: Vec<LineFace>,
}

/// A segment of the plane in space: the straight segment between the
/// positions of its two ends. Of an arc this is the chord.
pub open spec fn chord_in(frame: CoordinateFrame, s: Segment) -> LineSegment {
    LineSegment {
        start: frame.projected(s.start_point().x as int, s.start_point().y as int),
        end: frame.projected(s.end_point().x as int, s.end_point().y as int),
    }
}

/// A chain of segments of the plane in space.
pub open spec fn chords_in(frame: CoordinateFrame, ring: Seq<Segment>) -> Seq<LineSegment> {
    Seq::new(ring.len(), |k: int| chord_in(frame, ring[k]))
}

/// Whether `placed` is the face `face` in space: its exterior and each of
/// its interiors, in order, segment by segment.
pub open spec fn is_face_in(frame: CoordinateFrame, face: Face, placed: LineFace) -> bool {
    &&& placed.exterior.segments@ == chords_in(frame, face.exterior@)
    &&& placed.interiors.len() == face.interiors.len()
    &&& forall|h: int|
        0 <= h < placed.interiors.len() ==> (#[trigger] placed.interiors@[h]).segments@
            == chords_in(frame, face.interiors@[h]@)
}

/// Whether `view` shows the segments `segments` and the faces `faces` in
/// space.
pub open spec fn shows(
    frame: CoordinateFrame,
    segments: Seq<Segment>,
    faces: Seq<Face>,
    view: SketchView,
) -> bool {
    &&& view.segments@ == chords_in(frame, segments)
    &&& view.faces.len() == faces.len()
    &&& forall|k: int|
        0 <= k < faces.len() ==> is_face_in(frame, faces[k], #[trigger] view.faces@[k])
}

/// Whether `view` is the view of a sketch that holds `segments`: its
/// segments and its faces in space.
pub open spec fn is_view_of(
    frame: CoordinateFrame,
    segments: Seq<Segment>,
    view: SketchView,
) -> bool {
    exists|faces: Seq<Face>|
        is_faces_of(segments, faces) && #[trigger] shows(frame, segments, faces, view)
}

/// Places a chain of segments in space.
pub fn project_ring(frame: &CoordinateFrame, ring: &Ring) -> (r: LineRing)
    requires
        frame.in_reach(),
    ensures
        r.segments@ == chords_in(*frame, ring@),
{
    let mut placed = LineRing::new();
    let mut i: usize = 0;
    while i < ring.len()
        invariant
            i <= ring.len(),
            frame.in_reach(),
            placed.segments@ == chords_in(*frame, ring@.take(i as int)),
        decreases ring.len() - i,
    {
        let start = frame.to_3d(&ring[i].get_start());
        let end = frame.to_3d(&ring[i].get_end());
        placed.add_segment(LineSegment::new(start, end));
        i = i + 1;
        assert(placed.segments@ =~= chords_in(*frame, ring@.take(i as int)));
    }
    proof {
        assert(ring@.take(ring.len() as int) =~= ring@);
    }
    placed
}

/// Places a face in space.
pub fn project_face(frame: &CoordinateFrame, face: &Face) -> (r: LineFace)
    requires
        frame.in_reach(),
    ensures
        is_face_in(*frame, *face, r),
{
    let exterior = project_ring(frame, &face.exterior);
    let mut interiors: Vec<LineRing> = Vec::new();
    let mut h: usize = 0;
    while h < face.interiors.len()
        invariant
            h <= face.interiors.len(),
            frame.in_reach(),
            interiors.len() == h,
            forall|m: int|
                0 <= m < h ==> (#[trigger] interiors@[m]).segments@ == chords_in(
                    *frame,
                    face.interiors@[m]@,
                ),
        decreases face.interiors.len() - h,
    {
        interiors.push(project_ring(frame, &face.interiors[h]));
        h = h + 1;
    }
    LineFace { exterior, interiors }
}

impl Sketch {
    /// The sketch in space: each of its segments, and each of its faces,
    /// placed by the frame.
    pub fn create_view(&self, frame: &CoordinateFrame) -> (r: SketchView)
        requires
            self.segments.len() <= usize::MAX / 8,
            frame.in_reach(),
        ensures
            is_view_of(*frame, self.segments@, r),
    {
        let segments = project_ring(frame, &self.segments).segments;
        let found = self.find_faces();
        let mut faces: Vec<LineFace> = Vec::new();
        let mut k: usize = 0;
        while k < found.len()
            invariant
                k <= found.len(),
                frame.in_reach(),
                faces.len() == k,
                forall|m: int| 0 <= m < k ==> is_face_in(*frame, found@[m], #[trigger] faces@[m]),
            decreases found.len() - k,
        {
            faces.push(project_face(frame, &found[k]));
            k = k + 1;
        }
        let view = SketchView { segments, faces };
        proof {
            assert(shows(*frame, self.segments@, found@, view));
        }
        view
    }
}

} // verus!
