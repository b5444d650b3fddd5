//! Exact turn angles.
//!
//! An angle is held as a direction: a pair of integers in proportion to its
//! cosine and sine. Angles are compared by the signs of integer products, so
//! no two different angles are ever taken for equal.

use vstd::prelude::*;
use crate::point::Point;

verus! {

/// An angle in (0, 2π], given by integers `cos` and `sin` that are its
/// cosine and sine times a common positive factor.
pub struct Turn {
    pub cos: int,
    pub sin: int,
}

/// A `Turn` in machine integers.
#[derive(Debug, Clone, Copy, PartialEq, Eq, Structural)]
pub struct Angle {
    pub cos: i128,
    pub sin: i128,
}

impl View for Angle {
    type V = Turn;

    open spec fn view(&self) -> Turn {
        Turn { cos: self.cos as int, sin: self.sin as int }
    }
}

impl Turn {
    /// Where the angle lies in the full turn: 0 for less than a half turn,
    /// 1 for the half turn, 2 for more than a half turn, 3 for the full turn.
    pub open spec fn part(&self) -> int {
        if self.sin > 0 {
            0
        } else if self.sin < 0 {
            2
        } else if self.cos < 0 {
            1
        } else {
            3
        }
    }

    /// Whether the angle is the full turn, 2π.
    pub open spec fn is_full(&self) -> bool {
        self.part() == 3
    }

    /// `self <= other` as angles in (0, 2π].
    pub open spec fn le(&self, other: &Turn) -> bool {
        ||| self.part() < other.part()
        ||| self.part() == other.part() && (self.sin == 0 || self.cos * other.sin
            - self.sin * other.cos >= 0)
    }

    /// `self < other` as angles in (0, 2π].
    pub open spec fn lt(&self, other: &Turn) -> bool {
        self.le(other) && !other.le(self)
    }

    /// Whether the two are one angle: the same direction, whatever the
    /// factors.
    pub open spec fn same(&self, other: &Turn) -> bool {
        &&& self.cos * other.sin == self.sin * other.cos
        &&& self.cos * other.cos + self.sin * other.sin > 0
    }

    /// Whether the two angles add up to one full turn.
    pub open spec fn completes(&self, other: &Turn) -> bool {
        &&& !self.is_full()
        &&& !other.is_full()
        &&& self.cos * other.sin + self.sin * other.cos == 0
        &&& self.cos * other.cos - self.sin * other.sin > 0
    }
}

/// The direction of a displacement. No displacement at all counts as the
/// direction of the x axis.
pub open spec fn heading(dx: int, dy: int) -> (int, int) {
    if dx == 0 && dy == 0 {
        (1, 0)
    } else {
        (dx, dy)
    }
}

/// The direction in which `to` lies from `from`.
pub open spec fn bearing(from: Point, to: Point) -> (int, int) {
    heading(to.x - from.x, to.y - from.y)
}

/// The angle from the direction `u` counter-clockwise to the direction `w`.
pub open spec fn between(u: (int, int), w: (int, int)) -> Turn {
    Turn { cos: u.0 * w.0 + u.1 * w.1, sin: u.0 * w.1 - u.1 * w.0 }
}

/// The turn at `b` from the ray towards `a` counter-clockwise to the ray
/// towards `c`: in (0, 2π], and 2π where the rays coincide.
pub open spec fn turn(a: Point, b: Point, c: Point) -> Turn {
    between(bearing(b, a), bearing(b, c))
}

impl Angle {
    pub fn part(&self) -> (r: u8)
        ensures
            r == self@.part(),
    {
        if self.sin > 0 {
            0
        } else if self.sin < 0 {
            2
        } else if self.cos < 0 {
            1
        } else {
            3
        }
    }

    pub fn is_full(&self) -> (r: bool)
        ensures
            r == self@.is_full(),
    {
        self.sin == 0 && self.cos >= 0
    }
}

proof fn product_bound(x: int, y: int, m: int)
    by (nonlinear_arith)
    requires
        -m <= x <= m,
        -m <= y <= m,
    ensures
        -(m * m) <= x * y <= m * m,
{
}

/// The direction from `from` to `to`, in machine integers.
fn bearing_of(from: &Point, to: &Point) -> (r: (i64, i64))
    ensures
        (r.0 as int, r.1 as int) == bearing(*from, *to),
        -0xffff_ffff <= r.0 <= 0xffff_ffff,
        -0xffff_ffff <= r.1 <= 0xffff_ffff,
{
    let dx: i64 = to.x as i64 - from.x as i64;
    let dy: i64 = to.y as i64 - from.y as i64;
    if dx == 0 && dy == 0 {
        (1, 0)
    } else {
        (dx, dy)
    }
}

/// The cross product of two directions.
fn cross(u: (i64, i64), w: (i64, i64)) -> (r: i128)
    requires
        -0xffff_ffff <= u.0 <= 0xffff_ffff,
        -0xffff_ffff <= u.1 <= 0xffff_ffff,
        -0xffff_ffff <= w.0 <= 0xffff_ffff,
        -0xffff_ffff <= w.1 <= 0xffff_ffff,
    ensures
        r == u.0 * w.1 - u.1 * w.0,
{
    proof {
        product_bound(u.0 as int, w.1 as int, 0xffff_ffff);
        product_bound(u.1 as int, w.0 as int, 0xffff_ffff);
    }
    let left: i128 = u.0 as i128 * w.1 as i128;
    let right: i128 = u.1 as i128 * w.0 as i128;
    left - right
}

/// The dot product of two directions.
fn dot(u: (i64, i64), w: (i64, i64)) -> (r: i128)
    requires
        -0xffff_ffff <= u.0 <= 0xffff_ffff,
        -0xffff_ffff <= u.1 <= 0xffff_ffff,
        -0xffff_ffff <= w.0 <= 0xffff_ffff,
        -0xffff_ffff <= w.1 <= 0xffff_ffff,
    ensures
        r == u.0 * w.0 + u.1 * w.1,
{
    proof {
        product_bound(u.0 as int, w.0 as int, 0xffff_ffff);
        product_bound(u.1 as int, w.1 as int, 0xffff_ffff);
    }
    let left: i128 = u.0 as i128 * w.0 as i128;
    let right: i128 = u.1 as i128 * w.1 as i128;
    left + right
}

/// The direction in which `to` lies from `from`, as an angle from the x
/// axis.
pub fn direction(from: &Point, to: &Point) -> (r: Angle)
    ensures
        r@ == (Turn { cos: bearing(*from, *to).0, sin: bearing(*from, *to).1 }),
{
    let d = bearing_of(from, to);
    Angle { cos: d.0 as i128, sin: d.1 as i128 }
}

/// The turn at `b` from the ray towards `a` to the ray towards `c`.
pub fn angle(a: &Point, b: &Point, c: &Point) -> (r: Angle)
    ensures
        r@ == turn(*a, *b, *c),
{
    let u = bearing_of(b, a);
    let w = bearing_of(b, c);
    Angle { cos: dot(u, w), sin: cross(u, w) }
}

proof fn product_of_sum_and_difference(a: int, b: int, c: int, d: int)
    by (nonlinear_arith)
    ensures
        (a + b) * (c - d) == a * c - a * d + b * c - b * d,
{
}

proof fn product_swap(p: int, x: int, q: int, y: int)
    by (nonlinear_arith)
    ensures
        (p * x) * (q * y) == (q * x) * (p * y),
        (p * x) * (q * y) == (p * q) * (x * y),
{
}

proof fn difference_of_scaled(k: int, x: int, y: int)
    by (nonlinear_arith)
    ensures
        k * x - k * y == k * (x - y),
        k * x + k * y == k * (x + y),
{
}

/// Compared from one direction `(p, q)`, two angles lie as the directions
/// they lead to: the products that order them differ by the factor
/// `p*p + q*q`.
proof fn order_by_directions(p: int, q: int, a1: int, b1: int, a2: int, b2: int)
    ensures
        (p * a1 + q * b1) * (p * b2 - q * a2) - (p * b1 - q * a1) * (p * a2 + q * b2) == (p * p
            + q * q) * (a1 * b2 - b1 * a2),
{
    let side = a1 * b2 - b1 * a2;
    product_of_sum_and_difference(p * a1, q * b1, p * b2, q * a2);
    product_of_sum_and_difference(p * a2, q * b2, p * b1, q * a1);
    assert((p * b1 - q * a1) * (p * a2 + q * b2) == (p * a2 + q * b2) * (p * b1 - q * a1))
        by (nonlinear_arith);
    product_swap(p, a1, q, a2);
    product_swap(q, b1, p, b2);
    product_swap(p, a2, q, a1);
    product_swap(q, b2, p, b1);
    product_swap(p, a1, p, b2);
    product_swap(p, a2, p, b1);
    product_swap(q, b1, q, a2);
    product_swap(q, b2, q, a1);
    assert(a2 * a1 == a1 * a2) by (nonlinear_arith);
    assert(b2 * b1 == b1 * b2) by (nonlinear_arith);
    assert(a2 * b1 == b1 * a2) by (nonlinear_arith);
    assert(b2 * a1 == a1 * b2) by (nonlinear_arith);
    assert(q * p == p * q) by (nonlinear_arith);
    difference_of_scaled(p * p, a1 * b2, b1 * a2);
    difference_of_scaled(q * q, a1 * b2, b1 * a2);
    assert((p * p) * side + (q * q) * side == (p * p + q * q) * side) by (nonlinear_arith);
}

proof fn sign_of_scaled(k: int, x: int)
    by (nonlinear_arith)
    requires
        k > 0,
    ensures
        (k * x >= 0) == (x >= 0),
        (k * x == 0) == (x == 0),
{
}

proof fn square_sum_positive(p: int, q: int)
    by (nonlinear_arith)
    requires
        p != 0 || q != 0,
    ensures
        p * p + q * q > 0,
{
}

/// Whether the turn at `b` from `a` to `c1` is no wider than the turn from
/// `a` to `c2`.
pub fn angle_le(a: &Point, b: &Point, c1: &Point, c2: &Point) -> (r: bool)
    ensures
        r == turn(*a, *b, *c1).le(&turn(*a, *b, *c2)),
{
    let u = bearing_of(b, a);
    let w1 = bearing_of(b, c1);
    let w2 = bearing_of(b, c2);
    let first = Angle { cos: dot(u, w1), sin: cross(u, w1) };
    let second = Angle { cos: dot(u, w2), sin: cross(u, w2) };
    let part1 = first.part();
    let part2 = second.part();
    if part1 != part2 {
        part1 < part2
    } else if part1 == 1 || part1 == 3 {
        true
    } else {
        let side = cross(w1, w2);
        proof {
            order_by_directions(
                u.0 as int,
                u.1 as int,
                w1.0 as int,
                w1.1 as int,
                w2.0 as int,
                w2.1 as int,
            );
            square_sum_positive(u.0 as int, u.1 as int);
            sign_of_scaled(u.0 * u.0 + u.1 * u.1, side as int);
        }
        side >= 0
    }
}

proof fn commute(x: int, y: int)
    by (nonlinear_arith)
    ensures
        x * y == y * x,
{
}

proof fn sum_of_squares(x: int, y: int)
    by (nonlinear_arith)
    ensures
        x * x + y * y >= 0,
        x * x + y * y == 0 ==> x == 0 && y == 0,
{
}

proof fn scaled_zero(k: int, x: int)
    by (nonlinear_arith)
    requires
        k != 0,
        k * x == 0,
    ensures
        x == 0,
{
}

/// Between two directions, neither of them null, lies a proper angle: its
/// cosine and sine are not both nought.
proof fn between_is_proper(u: (int, int), w: (int, int))
    requires
        u.0 != 0 || u.1 != 0,
        w.0 != 0 || w.1 != 0,
    ensures
        ({
            let t = between(u, w);
            t.cos * t.cos + t.sin * t.sin > 0
        }),
{
    let t = between(u, w);
    sum_of_squares(t.cos, t.sin);
    if t.cos == 0 && t.sin == 0 {
        let norm = u.0 * u.0 + u.1 * u.1;
        square_sum_positive(u.0, u.1);
        assert(norm * w.0 == u.0 * t.cos - u.1 * t.sin) by (nonlinear_arith)
            requires
                norm == u.0 * u.0 + u.1 * u.1,
                t.cos == u.0 * w.0 + u.1 * w.1,
                t.sin == u.0 * w.1 - u.1 * w.0,
        ;
        assert(norm * w.1 == u.1 * t.cos + u.0 * t.sin) by (nonlinear_arith)
            requires
                norm == u.0 * u.0 + u.1 * u.1,
                t.cos == u.0 * w.0 + u.1 * w.1,
                t.sin == u.0 * w.1 - u.1 * w.0,
        ;
        assert(u.0 * t.cos == 0 && u.1 * t.sin == 0 && u.1 * t.cos == 0 && u.0 * t.sin == 0)
            by (nonlinear_arith)
            requires
                t.cos == 0,
                t.sin == 0,
        ;
        scaled_zero(norm, w.0);
        scaled_zero(norm, w.1);
    }
}

/// Directions stretched by positive factors enclose the same angle.
proof fn between_stretched(
    u: (int, int),
    w: (int, int),
    u2: (int, int),
    w2: (int, int),
    ku: int,
    ku2: int,
    kw: int,
    kw2: int,
)
    requires
        ku > 0 && ku2 > 0 && kw > 0 && kw2 > 0,
        ku2 * u2.0 == ku * u.0,
        ku2 * u2.1 == ku * u.1,
        kw2 * w2.0 == kw * w.0,
        kw2 * w2.1 == kw * w.1,
        u.0 != 0 || u.1 != 0,
        w.0 != 0 || w.1 != 0,
    ensures
        between(u2, w2).same(&between(u, w)),
{
    let t = between(u, w);
    let t2 = between(u2, w2);
    let k = ku * kw;
    let k2 = ku2 * kw2;
    assert(k > 0 && k2 > 0) by (nonlinear_arith)
        requires
            ku > 0 && ku2 > 0 && kw > 0 && kw2 > 0,
            k == ku * kw,
            k2 == ku2 * kw2,
    ;
    product_swap(ku2, u2.0, kw2, w2.0);
    product_swap(ku2, u2.1, kw2, w2.1);
    product_swap(ku2, u2.0, kw2, w2.1);
    product_swap(ku2, u2.1, kw2, w2.0);
    product_swap(ku, u.0, kw, w.0);
    product_swap(ku, u.1, kw, w.1);
    product_swap(ku, u.0, kw, w.1);
    product_swap(ku, u.1, kw, w.0);
    difference_of_scaled(k2, u2.0 * w2.0, u2.1 * w2.1);
    difference_of_scaled(k2, u2.0 * w2.1, u2.1 * w2.0);
    difference_of_scaled(k, u.0 * w.0, u.1 * w.1);
    difference_of_scaled(k, u.0 * w.1, u.1 * w.0);
    assert(k2 * t2.cos == k * t.cos);
    assert(k2 * t2.sin == k * t.sin);
    between_is_proper(u, w);
    let norm = t.cos * t.cos + t.sin * t.sin;
    assert(k2 * (t2.cos * t.sin - t2.sin * t.cos) == 0) by (nonlinear_arith)
        requires
            k2 * t2.cos == k * t.cos,
            k2 * t2.sin == k * t.sin,
    ;
    scaled_zero(k2, t2.cos * t.sin - t2.sin * t.cos);
    assert(k2 * (t2.cos * t.cos + t2.sin * t.sin) == k * norm) by (nonlinear_arith)
        requires
            k2 * t2.cos == k * t.cos,
            k2 * t2.sin == k * t.sin,
            norm == t.cos * t.cos + t.sin * t.sin,
    ;
    assert(t2.cos * t.cos + t2.sin * t.sin > 0) by (nonlinear_arith)
        requires
            k2 * (t2.cos * t.cos + t2.sin * t.sin) == k * norm,
            k > 0,
            k2 > 0,
            norm > 0,
    ;
}

/// A displacement stretched by a positive ratio keeps its heading.
proof fn heading_stretched(dx: int, dy: int, dx2: int, dy2: int, num: int, den: int) -> (k: (
    int,
    int,
))
    requires
        num > 0,
        den > 0,
        den * dx2 == num * dx,
        den * dy2 == num * dy,
    ensures
        k.0 > 0 && k.1 > 0,
        k.1 * heading(dx2, dy2).0 == k.0 * heading(dx, dy).0,
        k.1 * heading(dx2, dy2).1 == k.0 * heading(dx, dy).1,
{
    assert(dx == 0 <==> dx2 == 0) by (nonlinear_arith)
        requires
            num > 0,
            den > 0,
            den * dx2 == num * dx,
    ;
    assert(dy == 0 <==> dy2 == 0) by (nonlinear_arith)
        requires
            num > 0,
            den > 0,
            den * dy2 == num * dy,
    ;
    if dx == 0 && dy == 0 {
        (1, 1)
    } else {
        (num, den)
    }
}

/// The turn at `b` does not change when `a` and `c` are moved along their
/// rays from `b`, both by one positive ratio `num / den`: the angle is
/// invariant under uniform scaling about `b`.
pub proof fn turn_scale_invariant(
    a: Point,
    b: Point,
    c: Point,
    a2: Point,
    c2: Point,
    num: int,
    den: int,
)
    requires
        num > 0,
        den > 0,
        den * (a2.x - b.x) == num * (a.x - b.x),
        den * (a2.y - b.y) == num * (a.y - b.y),
        den * (c2.x - b.x) == num * (c.x - b.x),
        den * (c2.y - b.y) == num * (c.y - b.y),
    ensures
        turn(a2, b, c2).same(&turn(a, b, c)),
{
    let ku = heading_stretched(a.x - b.x, a.y - b.y, a2.x - b.x, a2.y - b.y, num, den);
    let kw = heading_stretched(c.x - b.x, c.y - b.y, c2.x - b.x, c2.y - b.y, num, den);
    between_stretched(
        bearing(b, a),
        bearing(b, c),
        bearing(b, a2),
        bearing(b, c2),
        ku.0,
        ku.1,
        kw.0,
        kw.1,
    );
}

/// The turn from `a` to `c` and the turn from `c` to `a` add up to one full
/// turn, unless the rays from `b` towards `a` and towards `c` coincide:
/// then each of the two is the full turn.
pub proof fn turn_reflection(a: Point, b: Point, c: Point)
    ensures
        turn(a, b, c).is_full() == turn(c, b, a).is_full(),
        !turn(a, b, c).is_full() ==> turn(a, b, c).completes(&turn(c, b, a)),
{
    let u = bearing(b, a);
    let w = bearing(b, c);
    let s = turn(a, b, c);
    let t = turn(c, b, a);
    commute(u.0, w.0);
    commute(u.1, w.1);
    commute(u.0, w.1);
    commute(u.1, w.0);
    assert(t.cos == s.cos);
    assert(t.sin == -s.sin);
    between_is_proper(u, w);
    assert(s.cos * t.sin + s.sin * t.cos == 0 && s.cos * t.cos - s.sin * t.sin == s.cos * s.cos
        + s.sin * s.sin) by (nonlinear_arith)
        requires
            t.cos == s.cos,
            t.sin == -s.sin,
    ;
}

/// Every angle is no wider than itself.
pub proof fn le_reflexive(s: Turn)
    ensures
        s.le(&s),
{
    commute(s.cos, s.sin);
}

/// Of two angles one is no wider than the other.
pub proof fn le_total(s: Turn, t: Turn)
    ensures
        s.le(&t) || t.le(&s),
{
    commute(s.cos, t.sin);
    commute(s.sin, t.cos);
}

/// If `s` is no wider than `t`, and `t` no wider than `r`, then `s` is no
/// wider than `r`.
pub proof fn le_transitive(s: Turn, t: Turn, r: Turn)
    requires
        s.le(&t),
        t.le(&r),
    ensures
        s.le(&r),
{
    if s.part() == r.part() && s.sin != 0 {
        let st = s.cos * t.sin - s.sin * t.cos;
        let tr = t.cos * r.sin - t.sin * r.cos;
        let sr = s.cos * r.sin - s.sin * r.cos;
        assert(sr * t.sin == st * r.sin + tr * s.sin) by (nonlinear_arith)
            requires
                st == s.cos * t.sin - s.sin * t.cos,
                tr == t.cos * r.sin - t.sin * r.cos,
                sr == s.cos * r.sin - s.sin * r.cos,
        ;
        if s.sin > 0 {
            assert(sr >= 0) by (nonlinear_arith)
                requires
                    sr * t.sin == st * r.sin + tr * s.sin,
                    st >= 0,
                    tr >= 0,
                    s.sin > 0,
                    t.sin > 0,
                    r.sin > 0,
            ;
        } else {
            assert(sr >= 0) by (nonlinear_arith)
                requires
                    sr * t.sin == st * r.sin + tr * s.sin,
                    st >= 0,
                    tr >= 0,
                    s.sin < 0,
                    t.sin < 0,
                    r.sin < 0,
            ;
        }
    }
}

} // verus!
