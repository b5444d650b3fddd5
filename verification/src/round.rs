//! Quotients and square roots in whole numbers.

use vstd::prelude::*;

verus! {

/// `n / d`, rounded to the nearest integer; a half is rounded away from
/// nought.
pub open spec fn rounded(n: int, d: int) -> int {
    if n >= 0 {
        (2 * n + d) / (2 * d)
    } else {
        -((d - 2 * n) / (2 * d))
    }
}

/// The absolute value.
pub open spec fn magnitude(x: int) -> int {
    if x < 0 {
        -x
    } else {
        x
    }
}

/// Whether `r` is the square root of `n`, rounded down.
pub open spec fn is_floor_root(r: int, n: int) -> bool {
    r >= 0 && r * r <= n < (r + 1) * (r + 1)
}

proof fn quotient_bound(n: int, d: int)
    by (nonlinear_arith)
    requires
        0 <= n,
        0 < d,
    ensures
        0 <= n / d <= n,
{
}

/// `n / d` rounded to the nearest integer, for a positive `d`.
pub(crate) fn round_div(n: i128, d: i128) -> (r: i128)
    requires
        0 < d <= 0x10_0000_0000_0000_0000_0000_0000,
        -0x10_0000_0000_0000_0000_0000_0000 <= n <= 0x10_0000_0000_0000_0000_0000_0000,
    ensures
        r == rounded(n as int, d as int),
{
    if n >= 0 {
        let q = (2 * n + d) / (2 * d);
        proof {
            quotient_bound(2 * n + d, 2 * d);
        }
        q
    } else {
        let q = (d - 2 * n) / (2 * d);
        proof {
            quotient_bound(d - 2 * n, 2 * d);
        }
        -q
    }
}

/// The rounded quotient is the nearest integer: `d` times it lies within
/// `d / 2` of `n`.
pub proof fn rounded_is_near(n: int, d: int)
    requires
        d > 0,
    ensures
        -d <= 2 * (d * rounded(n, d) - n) <= d,
{
    if n >= 0 {
        let m = 2 * n + d;
        assert(m == (2 * d) * (m / (2 * d)) + m % (2 * d) && 0 <= m % (2 * d) < 2 * d)
            by (nonlinear_arith)
            requires
                d > 0,
        ;
        assert((2 * d) * (m / (2 * d)) == 2 * (d * (m / (2 * d)))) by (nonlinear_arith);
    } else {
        let m = d - 2 * n;
        assert(m == (2 * d) * (m / (2 * d)) + m % (2 * d) && 0 <= m % (2 * d) < 2 * d)
            by (nonlinear_arith)
            requires
                d > 0,
        ;
        assert((2 * d) * (m / (2 * d)) == 2 * (d * (m / (2 * d)))) by (nonlinear_arith);
        assert(d * (-(m / (2 * d))) == -(d * (m / (2 * d)))) by (nonlinear_arith);
    }
}

proof fn squares_grow(a: int, b: int)
    by (nonlinear_arith)
    requires
        0 <= a <= b,
    ensures
        a * a <= b * b,
{
}

/// A number has one square root rounded down.
pub proof fn floor_root_is_unique(r: int, s: int, n: int)
    requires
        is_floor_root(r, n),
        is_floor_root(s, n),
    ensures
        r == s,
{
    if r < s {
        squares_grow(r + 1, s);
    } else if s < r {
        squares_grow(s + 1, r);
    }
}

/// The square root of `n`, rounded down.
pub(crate) fn floor_root(n: i128) -> (r: i64)
    requires
        0 <= n < 0x1_0000_0000_0000_0000_0000,
    ensures
        is_floor_root(r as int, n as int),
        r < 0x100_0000_0000,
{
    let mut low: i128 = 0;
    let mut high: i128 = 0x100_0000_0000;
    proof {
        assert(0x100_0000_0000 * 0x100_0000_0000 == 0x1_0000_0000_0000_0000_0000)
            by (nonlinear_arith);
    }
    while high - low > 1
        invariant
            0 <= low < high <= 0x100_0000_0000,
            low * low <= n < high * high,
        decreases high - low,
    {
        let middle = low + (high - low) / 2;
        proof {
            squares_grow(middle as int, 0x100_0000_0000);
            assert(0x100_0000_0000 * 0x100_0000_0000 == 0x1_0000_0000_0000_0000_0000)
                by (nonlinear_arith);
        }
        if middle * middle <= n {
            low = middle;
        } else {
            high = middle;
        }
    }
    low as i64
}

} // verus!
