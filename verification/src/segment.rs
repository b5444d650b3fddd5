//! Straight and circular segments between named points.

use vstd::prelude::*;
use crate::error::SketchError;
use crate::point::Point;

verus! {

/// A straight segment from `start` to `end`.
#[derive(Debug)]
pub struct Line {
    pub start: Point,
    pub end: Point,
}

/// A circular arc from `start` to `end` that passes through `transit`.
#[derive(Debug)]
pub struct Arc {
    pub start: Point,
    pub end: Point,
    pub transit: Point,
}

/// One edge of a sketch.
#[derive(Debug)]
pub enum Segment {
    Line(Line),
    Arc(Arc),
}

proof fn difference_product_bound(a: int, b: int)
    by (nonlinear_arith)
    requires
        -0xffff_ffff <= a <= 0xffff_ffff,
        -0xffff_ffff <= b <= 0xffff_ffff,
    ensures
        -0xffff_fffe_0000_0001 <= a * b <= 0xffff_fffe_0000_0001,
{
}

impl Line {
    /// Line equality: equal start points and equal end points.
    pub open spec fn same(&self, other: &Line) -> bool {
        self.start.same(&other.start) && self.end.same(&other.end)
    }

    /// The same line walked the other way.
    pub open spec fn reversed(&self) -> Line {
        Line { start: self.end, end: self.start }
    }

    pub fn new(start: Point, end: Point) -> (r: Line)
        ensures
            r.start == start,
            r.end == end,
    {
        Line { start, end }
    }

    pub fn reverse(&self) -> (r: Line)
        ensures
            r == self.reversed(),
    {
        Line { start: self.end.clone(), end: self.start.clone() }
    }
}

impl Clone for Line {
    fn clone(&self) -> (r: Line)
        ensures
            r == *self,
    {
        Line { start: self.start.clone(), end: self.end.clone() }
    }
}

impl PartialEq for Line {
    fn eq(&self, other: &Line) -> (r: bool) {
        self.start == other.start && self.end == other.end
    }
}

impl vstd::std_specs::cmp::PartialEqSpecImpl for Line {
    open spec fn obeys_eq_spec() -> bool {
        true
    }

    open spec fn eq_spec(&self, other: &Line) -> bool {
        self.same(other)
    }
}

impl Eq for Line {

}

impl Arc {
    /// Arc equality: equal start, end and transit points.
    pub open spec fn same(&self, other: &Arc) -> bool {
        &&& self.start.same(&other.start)
        &&& self.end.same(&other.end)
        &&& self.transit.same(&other.transit)
    }

    /// The same arc walked the other way; the transit point stays.
    pub open spec fn reversed(&self) -> Arc {
        Arc { start: self.end, end: self.start, transit: self.transit }
    }

    pub fn new(start: Point, end: Point, transit: Point) -> (r: Arc)
        ensures
            r.start == start,
            r.end == end,
            r.transit == transit,
    {
        Arc { start, end, transit }
    }

    pub fn reverse(&self) -> (r: Arc)
        ensures
            r == self.reversed(),
    {
        Arc { start: self.end.clone(), end: self.start.clone(), transit: self.transit.clone() }
    }

    /// Whether the three points lie on one straight line, so that no
    /// circle passes through them.
    pub open spec fn is_degenerate(&self) -> bool {
        (self.transit.x - self.start.x) * (self.end.y - self.start.y) == (self.transit.y
            - self.start.y) * (self.end.x - self.start.x)
    }

    /// Refuses an arc through which no circle passes.
    pub fn check(&self) -> (r: Result<(), SketchError>)
        ensures
            r == if self.is_degenerate() {
                Err::<(), SketchError>(SketchError::DegenerateArc)
            } else {
                Ok::<(), SketchError>(())
            },
    {
        let tx: i64 = self.transit.x as i64 - self.start.x as i64;
        let ty: i64 = self.transit.y as i64 - self.start.y as i64;
        let ex: i64 = self.end.x as i64 - self.start.x as i64;
        let ey: i64 = self.end.y as i64 - self.start.y as i64;
        proof {
            difference_product_bound(tx as int, ey as int);
            difference_product_bound(ty as int, ex as int);
        }
        let left: i128 = tx as i128 * ey as i128;
        let right: i128 = ty as i128 * ex as i128;
        if left == right {
            Err(SketchError::DegenerateArc)
        } else {
            Ok(())
        }
    }
}

impl Clone for Arc {
    fn clone(&self) -> (r: Arc)
        ensures
            r == *self,
    {
        Arc { start: self.start.clone(), end: self.end.clone(), transit: self.transit.clone() }
    }
}

impl PartialEq for Arc {
    fn eq(&self, other: &Arc) -> (r: bool) {
        self.start == other.start && self.end == other.end && self.transit == other.transit
    }
}

impl vstd::std_specs::cmp::PartialEqSpecImpl for Arc {
    open spec fn obeys_eq_spec() -> bool {
        true
    }

    open spec fn eq_spec(&self, other: &Arc) -> bool {
        self.same(other)
    }
}

impl Eq for Arc {

}

impl Segment {
    /// The point where the segment begins.
    pub open spec fn start_point(&self) -> Point {
        match self {
            Segment::Line(l) => l.start,
            Segment::Arc(a) => a.start,
        }
    }

    /// The point where the segment ends.
    pub open spec fn end_point(&self) -> Point {
        match self {
            Segment::Line(l) => l.end,
            Segment::Arc(a) => a.end,
        }
    }

    /// The same segment walked the other way.
    pub open spec fn reversed(&self) -> Segment {
        match self {
            Segment::Line(l) => Segment::Line(l.reversed()),
            Segment::Arc(a) => Segment::Arc(a.reversed()),
        }
    }

    /// Segment equality: the same kind of segment, between equal points.
    pub open spec fn same(&self, other: &Segment) -> bool {
        match (self, other) {
            (Segment::Line(l), Segment::Line(m)) => l.same(m),
            (Segment::Arc(a), Segment::Arc(b)) => a.same(b),
            _ => false,
        }
    }

    /// Whether this segment begins where `prior` ends.
    pub open spec fn follows(&self, prior: &Segment) -> bool {
        prior.end_point().same(&self.start_point())
    }

    /// Whether the two are one edge, walked the same way or opposite ways.
    pub open spec fn same_edge(&self, other: &Segment) -> bool {
        self.same(other) || self.same(&other.reversed())
    }

    pub fn reverse(&self) -> (r: Segment)
        ensures
            r == self.reversed(),
    {
        match self {
            Segment::Line(l) => Segment::Line(l.reverse()),
            Segment::Arc(a) => Segment::Arc(a.reverse()),
        }
    }

    pub fn get_start(&self) -> (r: Point)
        ensures
            r == self.start_point(),
    {
        match self {
            Segment::Line(l) => l.start.clone(),
            Segment::Arc(a) => a.start.clone(),
        }
    }

    pub fn get_end(&self) -> (r: Point)
        ensures
            r == self.end_point(),
    {
        match self {
            Segment::Line(l) => l.end.clone(),
            Segment::Arc(a) => a.end.clone(),
        }
    }

    /// Refuses an arc through which no circle passes. A line is in order.
    pub fn check(&self) -> (r: Result<(), SketchError>)
        ensures
            r == match self {
                Segment::Line(_) => Ok::<(), SketchError>(()),
                Segment::Arc(a) => if a.is_degenerate() {
                    Err::<(), SketchError>(SketchError::DegenerateArc)
                } else {
                    Ok::<(), SketchError>(())
                },
            },
    {
        match self {
            Segment::Line(_) => Ok(()),
            Segment::Arc(a) => a.check(),
        }
    }

    /// Whether this segment continues `prior_segment`.
    pub fn continues(&self, prior_segment: &Segment) -> (r: bool)
        ensures
            r == self.follows(prior_segment),
    {
        match prior_segment {
            Segment::Line(p) => match self {
                Segment::Line(l) => p.end == l.start,
                Segment::Arc(a) => p.end == a.start,
            },
            Segment::Arc(p) => match self {
                Segment::Line(l) => p.end == l.start,
                Segment::Arc(a) => p.end == a.start,
            },
        }
    }

    pub fn equals_or_reverse_equals(&self, other: &Segment) -> (r: bool)
        ensures
            r == self.same_edge(other),
    {
        if *self == *other {
            true
        } else {
            let turned = other.reverse();
            *self == turned
        }
    }

    /// Joins consecutive points by lines; `closed` adds the line from the
    /// last point back to the first. No points give no segments.
    pub fn link(points: Vec<Point>, closed: bool) -> (r: Vec<Segment>)
        ensures
            r@ == linked(points@, closed),
    {
        let mut segments: Vec<Segment> = Vec::new();
        let n = points.len();
        if n == 0 {
            return segments;
        }
        let mut i: usize = 0;
        while i + 1 < n
            invariant
                n == points.len(),
                0 < n,
                i < n,
                segments@ == Seq::new(i as nat, |k: int| chord(points@, k, k + 1)),
            decreases n - i,
        {
            let line = Line::new(points[i].clone(), points[i + 1].clone());
            segments.push(Segment::Line(line));
            i = i + 1;
            assert(segments@ =~= Seq::new(i as nat, |k: int| chord(points@, k, k + 1)));
        }
        if closed {
            let line = Line::new(points[n - 1].clone(), points[0].clone());
            segments.push(Segment::Line(line));
        }
        segments
    }
}

/// The line from point `i` to point `j` of a list.
pub open spec fn chord(points: Seq<Point>, i: int, j: int) -> Segment {
    Segment::Line(Line { start: points[i], end: points[j] })
}

/// The chain of lines through a list of points: one between each two
/// neighbours and, if `closed`, one from the last back to the first.
pub open spec fn linked(points: Seq<Point>, closed: bool) -> Seq<Segment> {
    if points.len() == 0 {
        Seq::empty()
    } else {
        let open_chain = Seq::new((points.len() - 1) as nat, |k: int| chord(points, k, k + 1));
        if closed {
            open_chain.push(chord(points, points.len() - 1, 0))
        } else {
            open_chain
        }
    }
}

impl Clone for Segment {
    fn clone(&self) -> (r: Segment)
        ensures
            r == *self,
    {
        match self {
            Segment::Line(l) => Segment::Line(l.clone()),
            Segment::Arc(a) => Segment::Arc(a.clone()),
        }
    }
}

impl PartialEq for Segment {
    fn eq(&self, other: &Segment) -> (r: bool) {
        match self {
            Segment::Line(l) => match other {
                Segment::Line(m) => *l == *m,
                Segment::Arc(_) => false,
            },
            Segment::Arc(a) => match other {
                Segment::Line(_) => false,
                Segment::Arc(b) => *a == *b,
            },
        }
    }
}

impl vstd::std_specs::cmp::PartialEqSpecImpl for Segment {
    open spec fn obeys_eq_spec() -> bool {
        true
    }

    open spec fn eq_spec(&self, other: &Segment) -> bool {
        self.same(other)
    }
}

impl Eq for Segment {

}

} // verus!
