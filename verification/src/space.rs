//! Points, directions and frames in space, and the projection of a sketch
//! plane into space.
//!
//! Positions in space are counted in the grid units of the sketch. The
//! components of a direction are counted in units of 10^-5, so that an axis
//! of length one has the length `UNITS_PER_ONE`.

use vstd::prelude::*;
use crate::error::SketchError;
use crate::point::{close, Point as Point2D, UNITS_PER_ONE};
use crate::round::{magnitude, round_div, rounded, rounded_is_near};

verus! {

/// A position in space.
#[derive(Debug, Clone, Copy, PartialEq, Eq, Structural)]
pub struct Point {
    pub x: i64,
    pub y: i64,
    pub z: i64,
}

/// A direction in space.
#[derive(Debug, Clone, Copy, PartialEq, Eq, Structural)]
pub struct Vector {
    pub x: i32,
    pub y: i32,
    pub z: i32,
}

/// A plane in space with its own coordinates: the position of its origin,
/// the directions of its two axes, and the direction that stands on it.
#[derive(Debug, Clone, Copy, PartialEq, Eq, Structural)]
pub struct CoordinateFrame {
    pub origin: Point,
    pub x_axis: Vector,
    pub y_axis: Vector,
    pub normal: Vector,
}

/// A straight segment in space.
#[derive(Debug, Clone, Copy, PartialEq, Eq, Structural)]
pub struct LineSegment {
    pub start: Point,
    pub end: Point,
}

/// A chain of straight segments in space.
#[derive(Debug)]
pub struct LineRing {
    pub segments: Vec<LineSegment>,
}

/// A face in space: the ring around it and the rings around its holes.
#[derive(Debug)]
pub struct LineFace {
    pub exterior: LineRing,
    pub interiors: Vec<LineRing>,
}

/// The farthest that the origin of a frame may lie from the origin of
/// space, along each axis, for a projection to stay within `i64`.
pub const ORIGIN_REACH: i64 = 0x4000_0000_0000_0000;

/// One coordinate of the position in space of the point `(x, y)` of a
/// plane: `origin + x_axis * x + y_axis * y`, with the products brought
/// back to grid units.
pub open spec fn lifted(origin: int, x_axis: int, y_axis: int, x: int, y: int) -> int {
    origin + rounded(x_axis * x + y_axis * y, UNITS_PER_ONE as int)
}

/// One coordinate in a plane of a position in space: the offset from the
/// origin, measured along an axis of length one.
pub open spec fn dropped(offset: (int, int, int), axis: Vector) -> int {
    rounded(offset.0 * axis.x + offset.1 * axis.y + offset.2 * axis.z, UNITS_PER_ONE as int)
}

impl Point {
    pub fn new(x: i64, y: i64, z: i64) -> (r: Point)
        ensures
            r == (Point { x, y, z }),
    {
        Point { x, y, z }
    }
}

impl Vector {
    pub fn new(x: i32, y: i32, z: i32) -> (r: Vector)
        ensures
            r == (Vector { x, y, z }),
    {
        Vector { x, y, z }
    }

    /// The square of the length, in units of 10^-10.
    pub open spec fn norm(&self) -> int {
        self.x * self.x + self.y * self.y + self.z * self.z
    }

    /// The dot product with `other`, in units of 10^-10.
    pub open spec fn dot_spec(&self, other: &Vector) -> int {
        self.x * other.x + self.y * other.y + self.z * other.z
    }
}

impl LineSegment {
    pub fn new(start: Point, end: Point) -> (r: LineSegment)
        ensures
            r == (LineSegment { start, end }),
    {
        LineSegment { start, end }
    }
}

impl LineRing {
    pub fn new() -> (r: LineRing)
        ensures
            r.segments@ == Seq::<LineSegment>::empty(),
    {
        LineRing { segments: Vec::new() }
    }

    pub fn add_segment(&mut self, s: LineSegment)
        ensures
            final(self).segments@ == old(self).segments@.push(s),
    {
        self.segments.push(s);
    }

    pub fn num_segments(&self) -> (r: usize)
        ensures
            r == self.segments.len(),
    {
        self.segments.len()
    }

    /// The segment at `index`; `IndexOutOfRange` where there is none.
    pub fn get_segment(&self, index: usize) -> (r: Result<LineSegment, SketchError>)
        ensures
            r == if index < self.segments.len() {
                Ok::<LineSegment, SketchError>(self.segments@[index as int])
            } else {
                Err::<LineSegment, SketchError>(SketchError::IndexOutOfRange)
            },
    {
        if index < self.segments.len() {
            Ok(self.segments[index])
        } else {
            Err(SketchError::IndexOutOfRange)
        }
    }
}

impl Clone for LineRing {
    fn clone(&self) -> (r: LineRing)
        ensures
            r.segments@ == self.segments@,
    {
        let mut segments: Vec<LineSegment> = Vec::new();
        let mut i: usize = 0;
        while i < self.segments.len()
            invariant
                i <= self.segments.len(),
                segments@ == self.segments@.take(i as int),
            decreases self.segments.len() - i,
        {
            segments.push(self.segments[i]);
            i = i + 1;
            assert(segments@ =~= self.segments@.take(i as int));
        }
        proof {
            assert(self.segments@.take(self.segments.len() as int) =~= self.segments@);
        }
        LineRing { segments }
    }
}

impl LineFace {
    pub fn new() -> (r: LineFace)
        ensures
            r.exterior.segments@ == Seq::<LineSegment>::empty(),
            r.interiors@ == Seq::<LineRing>::empty(),
    {
        LineFace { exterior: LineRing::new(), interiors: Vec::new() }
    }

    pub fn add_interior(&mut self, r: LineRing)
        ensures
            final(self).interiors@ == old(self).interiors@.push(r),
            final(self).exterior == old(self).exterior,
    {
        self.interiors.push(r);
    }

    pub fn num_interiors(&self) -> (r: usize)
        ensures
            r == self.interiors.len(),
    {
        self.interiors.len()
    }

    /// A copy of the ring around the face.
    pub fn exterior(&self) -> (r: LineRing)
        ensures
            r.segments@ == self.exterior.segments@,
    {
        self.exterior.clone()
    }

    /// A copy of the ring around hole `index`; `IndexOutOfRange` where
    /// the face has no such hole.
    pub fn get_interior(&self, index: usize) -> (r: Result<LineRing, SketchError>)
        ensures
            match r {
                Ok(ring) => index < self.interiors.len() && ring.segments@
                    == self.interiors@[index as int].segments@,
                Err(e) => index >= self.interiors.len() && e == SketchError::IndexOutOfRange,
            },
    {
        if index < self.interiors.len() {
            Ok(self.interiors[index].clone())
        } else {
            Err(SketchError::IndexOutOfRange)
        }
    }
}

proof fn axis_product_bound(a: int, x: int)
    by (nonlinear_arith)
    requires
        -0x8000_0000 <= a <= 0x8000_0000,
        -0x8000_0000 <= x <= 0x8000_0000,
    ensures
        -0x4000_0000_0000_0000 <= a * x <= 0x4000_0000_0000_0000,
{
}

/// One coordinate of a projection.
fn lift(origin: i64, x_axis: i32, y_axis: i32, x: i32, y: i32) -> (r: i64)
    requires
        -ORIGIN_REACH <= origin <= ORIGIN_REACH,
    ensures
        r == lifted(origin as int, x_axis as int, y_axis as int, x as int, y as int),
{
    proof {
        axis_product_bound(x_axis as int, x as int);
        axis_product_bound(y_axis as int, y as int);
    }
    let along: i128 = x_axis as i128 * x as i128 + y_axis as i128 * y as i128;
    let shift = round_div(along, UNITS_PER_ONE as i128);
    proof {
        rounded_is_near(along as int, UNITS_PER_ONE as int);
    }
    (origin as i128 + shift) as i64
}

proof fn offset_product_bound(a: int, x: int)
    by (nonlinear_arith)
    requires
        -0x1_0000_0000_0000_0000 <= a <= 0x1_0000_0000_0000_0000,
        -0x8000_0000 <= x <= 0x8000_0000,
    ensures
        -0x8000_0000_0000_0000_0000_0000 <= a * x <= 0x8000_0000_0000_0000_0000_0000,
{
}

/// One coordinate of an inverse projection.
fn drop_on(dx: i128, dy: i128, dz: i128, axis: &Vector) -> (r: i128)
    requires
        -0x1_0000_0000_0000_0000 <= dx <= 0x1_0000_0000_0000_0000,
        -0x1_0000_0000_0000_0000 <= dy <= 0x1_0000_0000_0000_0000,
        -0x1_0000_0000_0000_0000 <= dz <= 0x1_0000_0000_0000_0000,
    ensures
        r == dropped((dx as int, dy as int, dz as int), *axis),
{
    proof {
        offset_product_bound(dx as int, axis.x as int);
        offset_product_bound(dy as int, axis.y as int);
        offset_product_bound(dz as int, axis.z as int);
    }
    let along: i128 = dx * (axis.x as i128) + dy * (axis.y as i128) + dz * (axis.z as i128);
    round_div(along, UNITS_PER_ONE as i128)
}

impl CoordinateFrame {
    pub fn new(origin: Point, x: Vector, y: Vector, normal: Vector) -> (r: CoordinateFrame)
        ensures
            r == (CoordinateFrame { origin, x_axis: x, y_axis: y, normal }),
    {
        CoordinateFrame { origin, x_axis: x, y_axis: y, normal }
    }

    /// Whether the origin lies within `ORIGIN_REACH` of the origin of
    /// space along each axis.
    pub open spec fn in_reach(&self) -> bool {
        &&& -ORIGIN_REACH <= self.origin.x <= ORIGIN_REACH
        &&& -ORIGIN_REACH <= self.origin.y <= ORIGIN_REACH
        &&& -ORIGIN_REACH <= self.origin.z <= ORIGIN_REACH
    }

    /// The position in space of the point `(x, y)` of the plane.
    pub open spec fn projected(&self, x: int, y: int) -> Point {
        Point {
            x: lifted(self.origin.x as int, self.x_axis.x as int, self.y_axis.x as int, x, y)
                as i64,
            y: lifted(self.origin.y as int, self.x_axis.y as int, self.y_axis.y as int, x, y)
                as i64,
            z: lifted(self.origin.z as int, self.x_axis.z as int, self.y_axis.z as int, x, y)
                as i64,
        }
    }

    /// Whether the two axes have the length one and stand at a right angle.
    pub open spec fn is_orthonormal(&self) -> bool {
        &&& self.x_axis.norm() == UNITS_PER_ONE * UNITS_PER_ONE
        &&& self.y_axis.norm() == UNITS_PER_ONE * UNITS_PER_ONE
        &&& self.x_axis.dot_spec(&self.y_axis) == 0
    }

    /// The point of the plane below a position in space: its offset from
    /// the origin, measured along the two axes.
    pub open spec fn unprojected(&self, p: Point) -> (int, int) {
        let offset = (p.x - self.origin.x, p.y - self.origin.y, p.z - self.origin.z);
        (dropped(offset, self.x_axis), dropped(offset, self.y_axis))
    }

    pub fn is_in_reach(&self) -> (r: bool)
        ensures
            r == self.in_reach(),
    {
        -ORIGIN_REACH <= self.origin.x && self.origin.x <= ORIGIN_REACH && -ORIGIN_REACH
            <= self.origin.y && self.origin.y <= ORIGIN_REACH && -ORIGIN_REACH <= self.origin.z
            && self.origin.z <= ORIGIN_REACH
    }

    /// The point of the plane below a position in space, where its
    /// coordinates are on the grid; `None` where they are not.
    pub fn to_2d(&self, p: &Point) -> (r: Option<(i32, i32)>)
        ensures
            match r {
                Some(c) => (c.0 as int, c.1 as int) == self.unprojected(*p),
                None => {
                    let c = self.unprojected(*p);
                    !(i32::MIN <= c.0 <= i32::MAX && i32::MIN <= c.1 <= i32::MAX)
                },
            },
    {
        let dx: i128 = p.x as i128 - self.origin.x as i128;
        let dy: i128 = p.y as i128 - self.origin.y as i128;
        let dz: i128 = p.z as i128 - self.origin.z as i128;
        let x = drop_on(dx, dy, dz, &self.x_axis);
        let y = drop_on(dx, dy, dz, &self.y_axis);
        if -0x8000_0000 <= x && x <= 0x7fff_ffff && -0x8000_0000 <= y && y <= 0x7fff_ffff {
            Some((x as i32, y as i32))
        } else {
            None
        }
    }

    /// Maps a point of the sketch plane into space:
    /// `origin + x_axis * x + y_axis * y`.
    pub fn to_3d(&self, point: &Point2D) -> (r: Point)
        requires
            self.in_reach(),
        ensures
            r == self.projected(point.x as int, point.y as int),
    {
        Point {
            x: lift(self.origin.x, self.x_axis.x, self.y_axis.x, point.x, point.y),
            y: lift(self.origin.y, self.x_axis.y, self.y_axis.y, point.x, point.y),
            z: lift(self.origin.z, self.x_axis.z, self.y_axis.z, point.x, point.y),
        }
    }
}

proof fn sum_of_magnitudes(p: int, q: int, r: int, s: int)
    by (nonlinear_arith)
    requires
        p >= 0 && q >= 0 && r >= 0 && s > 0,
        p * p + q * q + r * r == s * s,
    ensures
        p + q + r <= 2 * s,
{
    assert(2 * (p * q) <= p * p + q * q) by {
        assert((p - q) * (p - q) >= 0);
    }
    assert(2 * (q * r) <= q * q + r * r) by {
        assert((q - r) * (q - r) >= 0);
    }
    assert(2 * (p * r) <= p * p + r * r) by {
        assert((p - r) * (p - r) >= 0);
    }
    assert((p + q + r) * (p + q + r) == p * p + q * q + r * r + 2 * (p * q) + 2 * (q * r) + 2 * (p
        * r));
    assert((p + q + r) * (p + q + r) <= 3 * (s * s));
    if p + q + r > 2 * s {
        assert((p + q + r) * (p + q + r) >= (2 * s) * (2 * s));
        assert((2 * s) * (2 * s) == 4 * (s * s));
    }
}

proof fn squared_magnitude(x: int)
    by (nonlinear_arith)
    ensures
        magnitude(x) * magnitude(x) == x * x,
{
}

proof fn error_along(e: int, a: int, s: int)
    by (nonlinear_arith)
    requires
        -s <= 2 * e <= s,
    ensures
        -(s * magnitude(a)) <= 2 * (e * a) <= s * magnitude(a),
{
}

proof fn lifted_along(a: int, b: int, x: int, y: int)
    by (nonlinear_arith)
    ensures
        (a * x + b * y) * a == (a * a) * x + (b * a) * y,
{
}

proof fn spread(s: int, r: int, e: int, n: int, a: int)
    by (nonlinear_arith)
    requires
        e == s * r - n,
    ensures
        s * (r * a) == n * a + e * a,
{
}

/// What comes back along an axis of length one, when a point of the plane
/// has been lifted into space: the coordinate along that axis, within one
/// grid unit.
proof fn axis_round_trip(axis: Vector, other: Vector, x: int, y: int)
    requires
        axis.norm() == UNITS_PER_ONE * UNITS_PER_ONE,
        axis.dot_spec(&other) == 0,
    ensures
        ({
            let s = UNITS_PER_ONE as int;
            let offset = (
                rounded(axis.x * x + other.x * y, s),
                rounded(axis.y * x + other.y * y, s),
                rounded(axis.z * x + other.z * y, s),
            );
            close(dropped(offset, axis), x)
        }),
{
    let s = UNITS_PER_ONE as int;
    let n0 = axis.x * x + other.x * y;
    let n1 = axis.y * x + other.y * y;
    let n2 = axis.z * x + other.z * y;
    let r0 = rounded(n0, s);
    let r1 = rounded(n1, s);
    let r2 = rounded(n2, s);
    let e0 = s * r0 - n0;
    let e1 = s * r1 - n1;
    let e2 = s * r2 - n2;
    rounded_is_near(n0, s);
    rounded_is_near(n1, s);
    rounded_is_near(n2, s);
    let m = r0 * axis.x + r1 * axis.y + r2 * axis.z;
    spread(s, r0, e0, n0, axis.x as int);
    spread(s, r1, e1, n1, axis.y as int);
    spread(s, r2, e2, n2, axis.z as int);
    lifted_along(axis.x as int, other.x as int, x, y);
    lifted_along(axis.y as int, other.y as int, x, y);
    lifted_along(axis.z as int, other.z as int, x, y);
    let gain = axis.x * axis.x + axis.y * axis.y + axis.z * axis.z;
    let skew = other.x * axis.x + other.y * axis.y + other.z * axis.z;
    assert(skew == 0) by (nonlinear_arith)
        requires
            axis.x * other.x + axis.y * other.y + axis.z * other.z == 0,
            skew == other.x * axis.x + other.y * axis.y + other.z * axis.z,
    ;
    assert(n0 * axis.x + n1 * axis.y + n2 * axis.z == gain * x + skew * y) by (nonlinear_arith)
        requires
            n0 * axis.x == (axis.x * axis.x) * x + (other.x * axis.x) * y,
            n1 * axis.y == (axis.y * axis.y) * x + (other.y * axis.y) * y,
            n2 * axis.z == (axis.z * axis.z) * x + (other.z * axis.z) * y,
            gain == axis.x * axis.x + axis.y * axis.y + axis.z * axis.z,
            skew == other.x * axis.x + other.y * axis.y + other.z * axis.z,
    ;
    let error = e0 * axis.x + e1 * axis.y + e2 * axis.z;
    assert(s * m == s * (r0 * axis.x) + s * (r1 * axis.y) + s * (r2 * axis.z));
    assert(skew * y == 0) by (nonlinear_arith)
        requires
            skew == 0,
    ;
    assert(gain * x == (s * s) * x);
    assert(s * m == (s * s) * x + error);
    error_along(e0, axis.x as int, s);
    error_along(e1, axis.y as int, s);
    error_along(e2, axis.z as int, s);
    squared_magnitude(axis.x as int);
    squared_magnitude(axis.y as int);
    squared_magnitude(axis.z as int);
    sum_of_magnitudes(
        magnitude(axis.x as int),
        magnitude(axis.y as int),
        magnitude(axis.z as int),
        s,
    );
    assert(-(2 * s * s) <= 2 * error <= 2 * s * s);
    assert((s * s) * x == s * (s * x)) by (nonlinear_arith);
    assert(-s <= m - s * x <= s);
    rounded_is_near(m, s);
}

/// Lifting a point of the plane into space and dropping it back gives the
/// point again, within the distance under which two coordinates count as
/// the same, where the two axes of the frame have the length one and stand
/// at a right angle.
pub proof fn projection_round_trip(frame: CoordinateFrame, x: int, y: int)
    requires
        frame.is_orthonormal(),
        frame.in_reach(),
        i32::MIN <= x <= i32::MAX,
        i32::MIN <= y <= i32::MAX,
    ensures
        close(frame.unprojected(frame.projected(x, y)).0, x),
        close(frame.unprojected(frame.projected(x, y)).1, y),
{
    let s = UNITS_PER_ONE as int;
    let p = frame.projected(x, y);
    axis_product_bound(frame.x_axis.x as int, x);
    axis_product_bound(frame.y_axis.x as int, y);
    axis_product_bound(frame.x_axis.y as int, x);
    axis_product_bound(frame.y_axis.y as int, y);
    axis_product_bound(frame.x_axis.z as int, x);
    axis_product_bound(frame.y_axis.z as int, y);
    rounded_is_near(frame.x_axis.x * x + frame.y_axis.x * y, s);
    rounded_is_near(frame.x_axis.y * x + frame.y_axis.y * y, s);
    rounded_is_near(frame.x_axis.z * x + frame.y_axis.z * y, s);
    assert(p.x - frame.origin.x == rounded(frame.x_axis.x * x + frame.y_axis.x * y, s));
    assert(p.y - frame.origin.y == rounded(frame.x_axis.y * x + frame.y_axis.y * y, s));
    assert(p.z - frame.origin.z == rounded(frame.x_axis.z * x + frame.y_axis.z * y, s));
    axis_round_trip(frame.x_axis, frame.y_axis, x, y);
    assert(frame.y_axis.dot_spec(&frame.x_axis) == 0) by (nonlinear_arith)
        requires
            frame.x_axis.dot_spec(&frame.y_axis) == 0,
    ;
    axis_round_trip(frame.y_axis, frame.x_axis, y, x);
    assert(frame.y_axis.x * y + frame.x_axis.x * x == frame.x_axis.x * x + frame.y_axis.x * y);
    assert(frame.y_axis.y * y + frame.x_axis.y * x == frame.x_axis.y * x + frame.y_axis.y * y);
    assert(frame.y_axis.z * y + frame.x_axis.z * x == frame.x_axis.z * x + frame.y_axis.z * y);
}

} // verus!
