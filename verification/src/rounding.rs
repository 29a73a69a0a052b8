//! Rounding a fraction to the nearest integer, and a fractional point to the
//! nearest lattice point.
//!
//! A fraction is a numerator over a positive denominator. The three
//! components of a fractional point share one denominator, so their rounding
//! errors can be compared as integers.

use vstd::prelude::*;
use vstd::arithmetic::div_mod::{lemma_fundamental_div_mod, lemma_mod_bound};
use crate::lattice::{magnitude, Cube};

verus! {

/// The integer nearest to `n / d` for `n >= 0` and `d > 0`; a half goes up.
pub open spec fn nearest_above_zero(n: int, d: int) -> int {
    if 2 * (n % d) >= d {
        n / d + 1
    } else {
        n / d
    }
}

/// The integer nearest to `n / d` for `d > 0`; a half goes away from zero.
pub open spec fn nearest(n: int, d: int) -> int {
    if n >= 0 {
        nearest_above_zero(n, d)
    } else {
        -nearest_above_zero(-n, d)
    }
}

/// How far `nearest(n, d)` lies from `n / d`, in units of `1 / d`.
pub open spec fn rounding_error(n: int, d: int) -> int {
    magnitude(n - nearest(n, d) * d)
}

/// The lattice point nearest to the fractional point `(q, r, s) / den`.
///
/// Each axis is rounded on its own. If the three results do not add up to
/// zero, the axis with the largest rounding error is replaced by the negated
/// sum of the other two. `q` gives way only when its error is strictly the
/// largest; otherwise `r` gives way when its error is strictly larger than
/// that of `s`; otherwise `s` gives way.
pub open spec fn round_cube(q: int, r: int, s: int, den: int) -> Cube {
    let rq = nearest(q, den);
    let rr = nearest(r, den);
    let rs = nearest(s, den);
    if rq + rr + rs == 0 {
        Cube { q: rq, r: rr, s: rs }
    } else {
        let eq = rounding_error(q, den);
        let er = rounding_error(r, den);
        let es = rounding_error(s, den);
        if eq > er && eq > es {
            Cube { q: -rr - rs, r: rr, s: rs }
        } else if er > es {
            Cube { q: rq, r: -rq - rs, s: rs }
        } else {
            Cube { q: rq, r: rr, s: -rq - rr }
        }
    }
}

/// Bound on the numerators and denominators that [`round_wide`] accepts.
pub open spec fn wide_limit() -> int {
    0x4000_0000_0000_0000_0000_0000_0000_0000
}

/// `nearest(n, d)` is within half a unit of `n / d`, and where it is exactly
/// half a unit away it is the candidate farther from zero.
pub proof fn lemma_nearest_is_nearest(n: int, d: int)
    requires
        d > 0,
    ensures
        2 * rounding_error(n, d) <= d,
        2 * (n - nearest(n, d) * d) == d ==> n < 0,
        2 * (n - nearest(n, d) * d) == -d ==> n > 0,
{
    let m = magnitude(n);
    let whole = m / d;
    let rest = m % d;
    lemma_fundamental_div_mod(m, d);
    lemma_mod_bound(m, d);
    let k = nearest_above_zero(m, d);
    assert(d * whole == whole * d) by (nonlinear_arith);
    assert((whole + 1) * d == whole * d + d) by (nonlinear_arith);
    assert(m - k * d == if 2 * rest >= d { rest - d } else { rest });
    if n < 0 {
        assert((-k) * d == -(k * d)) by (nonlinear_arith);
        assert(n - nearest(n, d) * d == -(m - k * d));
    } else {
        assert(n - nearest(n, d) * d == m - k * d);
    }
}

/// An integer that lies as [`lemma_nearest_is_nearest`] says is the nearest one.
pub proof fn lemma_nearest_unique(n: int, d: int, k: int)
    requires
        d > 0,
        -d <= 2 * (n - k * d) <= d,
        2 * (n - k * d) == d ==> n < 0,
        2 * (n - k * d) == -d ==> n > 0,
    ensures
        nearest(n, d) == k,
{
    lemma_nearest_is_nearest(n, d);
    let j = nearest(n, d);
    // Two integers within half a unit of the same fraction differ by at most one,
    // and by one only when both are exactly half a unit away, on opposite sides.
    assert((j - k) * d == j * d - k * d) by (nonlinear_arith);
    if j - k >= 1 {
        assert((j - k) * d >= d) by (nonlinear_arith)
            requires
                j - k >= 1,
                d > 0,
        ;
    }
    if j - k <= -1 {
        assert((j - k) * d <= -d) by (nonlinear_arith)
            requires
                j - k <= -1,
                d > 0,
        ;
    }
}

/// Whatever is rounded, the result lies on the plane.
pub proof fn lemma_round_cube_on_plane(q: int, r: int, s: int, den: int)
    ensures
        round_cube(q, r, s, den).on_plane(),
{
}

/// Rounding a point of the plane moves no component by more than one unit.
pub proof fn lemma_round_cube_is_close(q: int, r: int, s: int, den: int)
    requires
        den > 0,
        q + r + s == 0,
    ensures
        magnitude(q - round_cube(q, r, s, den).q * den) <= den,
        magnitude(r - round_cube(q, r, s, den).r * den) <= den,
        magnitude(s - round_cube(q, r, s, den).s * den) <= den,
{
    let rq = nearest(q, den);
    let rr = nearest(r, den);
    let rs = nearest(s, den);
    lemma_nearest_is_nearest(q, den);
    lemma_nearest_is_nearest(r, den);
    lemma_nearest_is_nearest(s, den);
    assert((-rr - rs) * den == -(rr * den) - rs * den) by (nonlinear_arith);
    assert((-rq - rs) * den == -(rq * den) - rs * den) by (nonlinear_arith);
    assert((-rq - rr) * den == -(rq * den) - rr * den) by (nonlinear_arith);
}

/// Rounds `n / d` to the nearest integer and reports the rounding error.
pub(crate) fn nearest_wide(n: i128, d: i128) -> (out: (i128, i128))
    requires
        0 < d < wide_limit(),
        -wide_limit() < n < wide_limit(),
    ensures
        out.0 == nearest(n as int, d as int),
        out.1 == rounding_error(n as int, d as int),
        magnitude(out.0 as int) <= magnitude(n as int),
        0 <= out.1 < d,
{
    let m: i128 = if n < 0 { -n } else { n };
    let whole: i128 = m / d;
    let rest: i128 = m % d;
    proof {
        lemma_fundamental_div_mod(m as int, d as int);
        lemma_mod_bound(m as int, d as int);
        assert(d * (m / d) == (m / d) * d) by (nonlinear_arith);
        assert((whole + 1) * d == whole * d + d) by (nonlinear_arith);
        assert(whole * d >= whole) by (nonlinear_arith)
            requires
                whole >= 0,
                d >= 1,
        ;
        assert((-whole) * d == -(whole * d)) by (nonlinear_arith);
        assert((-(whole + 1)) * d == -(whole * d) - d) by (nonlinear_arith);
        if d == 1 {
            assert(rest == 0);
        } else if m > 0 {
            assert(whole * d >= 2 * whole) by (nonlinear_arith)
                requires
                    whole >= 0,
                    d >= 2,
            ;
        }
    }
    let up: bool = rest >= d - rest;
    let rounded: i128 = if up { whole + 1 } else { whole };
    let error: i128 = if up { d - rest } else { rest };
    if n < 0 {
        (-rounded, error)
    } else {
        (rounded, error)
    }
}

/// Rounds the fractional point `(q, r, s) / den`, in wide integers.
pub(crate) fn round_wide(q: i128, r: i128, s: i128, den: i128) -> (out: (i128, i128, i128))
    requires
        0 < den < wide_limit(),
        -wide_limit() < q < wide_limit(),
        -wide_limit() < r < wide_limit(),
        -wide_limit() < s < wide_limit(),
    ensures
        (Cube { q: out.0 as int, r: out.1 as int, s: out.2 as int }) == round_cube(
            q as int,
            r as int,
            s as int,
            den as int,
        ),
{
    let (rq, eq) = nearest_wide(q, den);
    let (rr, er) = nearest_wide(r, den);
    let (rs, es) = nearest_wide(s, den);
    if rq + rr == -rs {
        (rq, rr, rs)
    } else if eq > er && eq > es {
        (-rr - rs, rr, rs)
    } else if er > es {
        (rq, -rq - rs, rs)
    } else {
        (rq, rr, -rq - rr)
    }
}

} // verus!
