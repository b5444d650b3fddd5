//! The circle of an arc, and the direction in which a segment sets out.

use vstd::prelude::*;
use crate::angle::{direction, bearing, Angle, Turn};
use crate::error::SketchError;
use crate::point::Point;
use crate::round::{
    floor_root, is_floor_root, magnitude, round_div, rounded, rounded_is_near,
};
use crate::segment::{Arc, Line, Segment};

verus! {

/// The circle through the three points of an arc, on the grid.
#[derive(Debug)]
pub struct Circle {
    pub center: Point,
    pub radius: i64,
}

impl Clone for Circle {
    fn clone(&self) -> (r: Circle)
        ensures
            r == *self,
    {
        Circle { center: self.center.clone(), radius: self.radius }
    }
}

/// The square of the length of a displacement.
pub open spec fn norm(v: (int, int)) -> int {
    v.0 * v.0 + v.1 * v.1
}

/// Whether both coordinates lie on the grid.
pub open spec fn on_grid(p: (int, int)) -> bool {
    i32::MIN <= p.0 <= i32::MAX && i32::MIN <= p.1 <= i32::MAX
}

impl Arc {
    /// The displacement from the start to the transit point.
    pub open spec fn to_transit(&self) -> (int, int) {
        (self.transit.x - self.start.x, self.transit.y - self.start.y)
    }

    /// The displacement from the start to the end.
    pub open spec fn to_end(&self) -> (int, int) {
        (self.end.x - self.start.x, self.end.y - self.start.y)
    }

    /// The centre of the circle lies at `center_dividend / center_divisor`
    /// from the start. This is the divisor: nought where the three points
    /// lie on one line.
    pub open spec fn center_divisor(&self) -> int {
        let t = self.to_transit();
        let e = self.to_end();
        2 * (t.0 * e.1 - t.1 * e.0)
    }

    /// The dividend of the centre.
    pub open spec fn center_dividend(&self) -> (int, int) {
        let t = self.to_transit();
        let e = self.to_end();
        (e.1 * norm(t) - t.1 * norm(e), t.0 * norm(e) - e.0 * norm(t))
    }

    /// The displacement from the start to the centre, rounded to the grid.
    pub open spec fn center_offset(&self) -> (int, int) {
        let d = self.center_divisor();
        let u = self.center_dividend();
        if d > 0 {
            (rounded(u.0, d), rounded(u.1, d))
        } else {
            (rounded(-u.0, -d), rounded(-u.1, -d))
        }
    }

    /// The centre of the circle, rounded to the grid.
    pub open spec fn center(&self) -> (int, int) {
        (self.start.x + self.center_offset().0, self.start.y + self.center_offset().1)
    }

    /// The direction from the centre of the circle to the start.
    pub open spec fn radius_direction(&self) -> (int, int) {
        let u = self.center_dividend();
        if self.center_divisor() > 0 {
            (-u.0, -u.1)
        } else {
            u
        }
    }

    /// The direction in which the arc sets out: of the two directions at a
    /// right angle to the radius at the start, the one that lies nearer to
    /// the direction of the transit point; the clockwise one where the
    /// transit point lies straight across the circle.
    pub open spec fn tangent(&self) -> Turn {
        let c = self.radius_direction();
        let t = self.to_transit();
        if -c.1 * t.0 + c.0 * t.1 > 0 {
            Turn { cos: -c.1, sin: c.0 }
        } else {
            Turn { cos: c.1, sin: -c.0 }
        }
    }
}

proof fn product_within(a: int, b: int, m: int, n: int)
    by (nonlinear_arith)
    requires
        -m <= a <= m,
        -n <= b <= n,
    ensures
        -(m * n) <= a * b <= m * n,
{
}

/// What an arc is measured by: the two displacements from its start, their
/// squares, and the divisor and the dividend of its centre.
struct Measures {
    t: (i64, i64),
    e: (i64, i64),
    divisor: i128,
    dividend: (i128, i128),
    toward: i128,
}

fn measure(arc: &Arc) -> (m: Measures)
    ensures
        (m.t.0 as int, m.t.1 as int) == arc.to_transit(),
        (m.e.0 as int, m.e.1 as int) == arc.to_end(),
        m.divisor == arc.center_divisor(),
        (m.dividend.0 as int, m.dividend.1 as int) == arc.center_dividend(),
        m.toward == arc.to_end().0 * arc.to_transit().0 + arc.to_end().1 * arc.to_transit().1
            - norm(arc.to_end()),
        -0x4_0000_0000_0000_0000 <= m.divisor <= 0x4_0000_0000_0000_0000,
        -0x4_0000_0000_0000_0000_0000_0000 <= m.dividend.0 <= 0x4_0000_0000_0000_0000_0000_0000,
        -0x4_0000_0000_0000_0000_0000_0000 <= m.dividend.1 <= 0x4_0000_0000_0000_0000_0000_0000,
{
    let tx: i64 = arc.transit.x as i64 - arc.start.x as i64;
    let ty: i64 = arc.transit.y as i64 - arc.start.y as i64;
    let ex: i64 = arc.end.x as i64 - arc.start.x as i64;
    let ey: i64 = arc.end.y as i64 - arc.start.y as i64;
    proof {
        product_within(tx as int, tx as int, 0x1_0000_0000, 0x1_0000_0000);
        product_within(ty as int, ty as int, 0x1_0000_0000, 0x1_0000_0000);
        product_within(ex as int, ex as int, 0x1_0000_0000, 0x1_0000_0000);
        product_within(ey as int, ey as int, 0x1_0000_0000, 0x1_0000_0000);
        product_within(tx as int, ey as int, 0x1_0000_0000, 0x1_0000_0000);
        product_within(ty as int, ex as int, 0x1_0000_0000, 0x1_0000_0000);
        product_within(ex as int, tx as int, 0x1_0000_0000, 0x1_0000_0000);
        product_within(ey as int, ty as int, 0x1_0000_0000, 0x1_0000_0000);
        assert(0x1_0000_0000 * 0x1_0000_0000 == 0x1_0000_0000_0000_0000) by (nonlinear_arith);
    }
    let nt: i128 = tx as i128 * tx as i128 + ty as i128 * ty as i128;
    let ne: i128 = ex as i128 * ex as i128 + ey as i128 * ey as i128;
    let divisor: i128 = 2 * (tx as i128 * ey as i128 - ty as i128 * ex as i128);
    proof {
        product_within(ey as int, nt as int, 0x1_0000_0000, 0x2_0000_0000_0000_0000);
        product_within(ty as int, ne as int, 0x1_0000_0000, 0x2_0000_0000_0000_0000);
        product_within(tx as int, ne as int, 0x1_0000_0000, 0x2_0000_0000_0000_0000);
        product_within(ex as int, nt as int, 0x1_0000_0000, 0x2_0000_0000_0000_0000);
        assert(0x1_0000_0000 * 0x2_0000_0000_0000_0000 == 0x2_0000_0000_0000_0000_0000_0000)
            by (nonlinear_arith);
    }
    let ux: i128 = ey as i128 * nt - ty as i128 * ne;
    let uy: i128 = tx as i128 * ne - ex as i128 * nt;
    let toward: i128 = ex as i128 * tx as i128 + ey as i128 * ty as i128 - ne;
    Measures { t: (tx, ty), e: (ex, ey), divisor, dividend: (ux, uy), toward }
}

proof fn rounded_within(n: int, d: int)
    requires
        d > 0,
    ensures
        -magnitude(n) - 1 <= rounded(n, d) <= magnitude(n) + 1,
{
    rounded_is_near(n, d);
    let r = rounded(n, d);
    assert(-magnitude(n) - 1 <= r <= magnitude(n) + 1) by (nonlinear_arith)
        requires
            d > 0,
            -d <= 2 * (d * r - n) <= d,
    ;
}

impl Arc {
    /// Fits the circle through the start, the transit point and the end.
    /// The centre is rounded to the grid, and the radius is the distance
    /// from that centre to the start, rounded down. `DegenerateArc` where
    /// the three points lie on one line, or so nearly that the centre lies
    /// off the grid.
    pub fn to_circle(&self) -> (r: Result<Circle, SketchError>)
        ensures
            match r {
                Ok(circle) => {
                    &&& !self.is_degenerate()
                    &&& (circle.center.x as int, circle.center.y as int) == self.center()
                    &&& circle.center.id@ == "center_point"@
                    &&& is_floor_root(circle.radius as int, norm(self.center_offset()))
                },
                Err(e) => e == SketchError::DegenerateArc && (self.is_degenerate() || !on_grid(
                    self.center(),
                )),
            },
    {
        let m = measure(self);
        if m.divisor == 0 {
            proof {
                different_products(
                    self.to_transit().0 * self.to_end().1,
                    self.to_transit().1 * self.to_end().0,
                );
            }
            return Err(SketchError::DegenerateArc);
        }
        proof {
            different_products(
                self.to_transit().0 * self.to_end().1,
                self.to_transit().1 * self.to_end().0,
            );
            let d = self.center_divisor();
            let u = self.center_dividend();
            if d > 0 {
                rounded_within(u.0, d);
                rounded_within(u.1, d);
            } else {
                rounded_within(-u.0, -d);
                rounded_within(-u.1, -d);
            }
        }
        let (dx, dy) = if m.divisor > 0 {
            (round_div(m.dividend.0, m.divisor), round_div(m.dividend.1, m.divisor))
        } else {
            (round_div(-m.dividend.0, -m.divisor), round_div(-m.dividend.1, -m.divisor))
        };
        let x: i128 = self.start.x as i128 + dx;
        let y: i128 = self.start.y as i128 + dy;
        if x < -0x8000_0000 || x > 0x7fff_ffff || y < -0x8000_0000 || y > 0x7fff_ffff {
            return Err(SketchError::DegenerateArc);
        }
        proof {
            product_within(dx as int, dx as int, 0x1_0000_0000, 0x1_0000_0000);
            product_within(dy as int, dy as int, 0x1_0000_0000, 0x1_0000_0000);
            assert(0x1_0000_0000 * 0x1_0000_0000 == 0x1_0000_0000_0000_0000) by (nonlinear_arith);
            assert(dx * dx >= 0 && dy * dy >= 0) by (nonlinear_arith);
        }
        let radius = floor_root(dx * dx + dy * dy);
        Ok(Circle { center: Point::new(x as i32, y as i32, "center_point"), radius })
    }

    /// The direction in which the arc sets out from its start, as an
    /// angle from the x axis. `DegenerateArc` where the three points lie on
    /// one line.
    pub fn angle(&self) -> (r: Result<Angle, SketchError>)
        ensures
            match r {
                Ok(a) => !self.is_degenerate() && a@ == self.tangent(),
                Err(e) => self.is_degenerate() && e == SketchError::DegenerateArc,
            },
    {
        let m = measure(self);
        proof {
            different_products(
                self.to_transit().0 * self.to_end().1,
                self.to_transit().1 * self.to_end().0,
            );
        }
        if m.divisor == 0 {
            return Err(SketchError::DegenerateArc);
        }
        proof {
            side_of_transit(self.to_transit(), self.to_end());
            let t = self.to_transit();
            if t.0 == 0 && t.1 == 0 {
                assert(t.0 * self.to_end().1 == 0 && t.1 * self.to_end().0 == 0)
                    by (nonlinear_arith)
                    requires
                        t.0 == 0 && t.1 == 0,
                ;
            }
            positive_norm(t);
            sign_of_product(norm(t), m.toward as int);
            let u = self.center_dividend();
            let across = u.0 * t.1 - u.1 * t.0;
            assert(-(-u.1) * t.0 + (-u.0) * t.1 == -across) by (nonlinear_arith)
                requires
                    across == u.0 * t.1 - u.1 * t.0,
            ;
            assert(-u.1 * t.0 + u.0 * t.1 == across) by (nonlinear_arith)
                requires
                    across == u.0 * t.1 - u.1 * t.0,
            ;
        }
        let left = if m.divisor > 0 {
            m.toward < 0
        } else {
            m.toward > 0
        };
        // the quarter turn counter-clockwise from the radius, or the one clockwise
        let up = (m.divisor > 0) == left;
        if up {
            Ok(Angle { cos: m.dividend.1, sin: -m.dividend.0 })
        } else {
            Ok(Angle { cos: -m.dividend.1, sin: m.dividend.0 })
        }
    }
}

proof fn different_products(a: int, b: int)
    ensures
        (2 * (a - b) == 0) == (a == b),
{
}

proof fn positive_norm(v: (int, int))
    by (nonlinear_arith)
    requires
        v.0 != 0 || v.1 != 0,
    ensures
        norm(v) > 0,
{
}

proof fn sign_of_product(k: int, x: int)
    by (nonlinear_arith)
    requires
        k > 0,
    ensures
        (k * x > 0) == (x > 0),
        (k * x < 0) == (x < 0),
{
}

/// On which side of the radius the transit point lies: the dividend of
/// the centre, crossed with the displacement to the transit point, is the
/// square of that displacement times `e·t - e·e`.
proof fn side_of_transit(t: (int, int), e: (int, int))
    ensures
        ({
            let u = (e.1 * norm(t) - t.1 * norm(e), t.0 * norm(e) - e.0 * norm(t));
            u.0 * t.1 - u.1 * t.0 == norm(t) * (e.0 * t.0 + e.1 * t.1 - norm(e))
        }),
{
    let nt = norm(t);
    let ne = norm(e);
    assert((e.1 * nt - t.1 * ne) * t.1 == nt * (e.1 * t.1) - ne * (t.1 * t.1)) by (nonlinear_arith);
    assert((t.0 * ne - e.0 * nt) * t.0 == ne * (t.0 * t.0) - nt * (e.0 * t.0)) by (nonlinear_arith);
    assert(nt * (e.1 * t.1) + nt * (e.0 * t.0) == nt * (e.0 * t.0 + e.1 * t.1))
        by (nonlinear_arith);
    assert(ne * (t.1 * t.1) + ne * (t.0 * t.0) == ne * nt) by (nonlinear_arith)
        requires
            nt == t.0 * t.0 + t.1 * t.1,
    ;
    assert(nt * (e.0 * t.0 + e.1 * t.1) - ne * nt == nt * (e.0 * t.0 + e.1 * t.1 - ne))
        by (nonlinear_arith);
}

/// The centre of an arc lies as far from the transit point and from the
/// end as from the start: with the centre at `u / d` from the start, and
/// the two points at `t` and at `e`, `2 u·t = d t·t` and `2 u·e = d e·e`.
pub proof fn center_is_equidistant(arc: Arc)
    ensures
        ({
            let u = arc.center_dividend();
            let d = arc.center_divisor();
            let t = arc.to_transit();
            let e = arc.to_end();
            &&& 2 * (u.0 * t.0 + u.1 * t.1) == d * norm(t)
            &&& 2 * (u.0 * e.0 + u.1 * e.1) == d * norm(e)
        }),
{
    let t = arc.to_transit();
    let e = arc.to_end();
    let nt = norm(t);
    let ne = norm(e);
    let cross = t.0 * e.1 - t.1 * e.0;
    assert((e.1 * nt - t.1 * ne) * t.0 == nt * (t.0 * e.1) - ne * (t.1 * t.0)) by (nonlinear_arith);
    assert((t.0 * ne - e.0 * nt) * t.1 == ne * (t.1 * t.0) - nt * (t.1 * e.0)) by (nonlinear_arith);
    assert(nt * (t.0 * e.1) - nt * (t.1 * e.0) == nt * cross) by (nonlinear_arith)
        requires
            cross == t.0 * e.1 - t.1 * e.0,
    ;
    assert((e.1 * nt - t.1 * ne) * e.0 == nt * (e.1 * e.0) - ne * (t.1 * e.0)) by (nonlinear_arith);
    assert((t.0 * ne - e.0 * nt) * e.1 == ne * (t.0 * e.1) - nt * (e.1 * e.0)) by (nonlinear_arith);
    assert(ne * (t.0 * e.1) - ne * (t.1 * e.0) == ne * cross) by (nonlinear_arith)
        requires
            cross == t.0 * e.1 - t.1 * e.0,
    ;
    assert((2 * cross) * nt == 2 * (nt * cross)) by (nonlinear_arith);
    assert((2 * cross) * ne == 2 * (ne * cross)) by (nonlinear_arith);
}

impl Line {
    /// The direction of the line, as an angle from the x axis.
    pub fn angle(&self) -> (r: Angle)
        ensures
            r@ == (Turn {
                cos: bearing(self.start, self.end).0,
                sin: bearing(self.start, self.end).1,
            }),
    {
        direction(&self.start, &self.end)
    }
}

impl Segment {
    /// The direction in which the segment sets out from its start.
    pub open spec fn heading(&self) -> Turn {
        match self {
            Segment::Line(l) => Turn {
                cos: bearing(l.start, l.end).0,
                sin: bearing(l.start, l.end).1,
            },
            Segment::Arc(a) => a.tangent(),
        }
    }

    /// The direction in which the segment sets out from its start, as an
    /// angle from the x axis. `DegenerateArc` for an arc whose three
    /// points lie on one line.
    pub fn angle(&self) -> (r: Result<Angle, SketchError>)
        ensures
            match r {
                Ok(a) => a@ == self.heading() && match self {
                    Segment::Line(_) => true,
                    Segment::Arc(arc) => !arc.is_degenerate(),
                },
                Err(e) => e == SketchError::DegenerateArc && match self {
                    Segment::Line(_) => false,
                    Segment::Arc(arc) => arc.is_degenerate(),
                },
            },
    {
        match self {
            Segment::Line(l) => Ok(l.angle()),
            Segment::Arc(a) => a.angle(),
        }
    }
}

} // verus!
