//! Why a line drawn by rounding is a walk: one step at a time, from the first
//! point to the last.
//!
//! The two ends of a line are `n` steps apart, so along one of the three axes
//! they differ by exactly `n`. On that axis every point of the line is a whole
//! number and rounding changes nothing. Of the other two axes one is rounded
//! and the other follows from the sum being zero. From one point to the next
//! the whole axis moves by one, the rounded axis by one the other way or not
//! at all, and the third axis makes up the difference.

use vstd::prelude::*;
use crate::lattice::{magnitude, Cube, Hex};
use crate::rounding::{
    lemma_nearest_is_nearest,
    lemma_nearest_unique,
    nearest,
    round_cube,
    rounding_error,
};
use crate::shapes::{blend, lerp_cube, line, line_point};

verus! {

/// Whether `x` lies between `a` and `b`, whichever of the two is larger.
pub open spec fn between(a: int, x: int, b: int) -> bool {
    (a <= x <= b) || (b <= x <= a)
}

/// A whole number rounds to itself.
pub proof fn lemma_nearest_exact(k: int, d: int)
    requires
        d > 0,
    ensures
        nearest(k * d, d) == k,
        rounding_error(k * d, d) == 0,
{
    lemma_nearest_unique(k * d, d, k);
}

/// Moving a fraction up by at most one moves its nearest integer up by at
/// most one. A move by exactly one must start at a whole number.
pub proof fn lemma_nearest_step(x: int, delta: int, d: int)
    requires
        d > 0,
        0 <= delta <= d,
        delta == d ==> rounding_error(x, d) == 0,
    ensures
        nearest(x, d) <= nearest(x + delta, d) <= nearest(x, d) + 1,
{
    let j = nearest(x, d);
    let k = nearest(x + delta, d);
    lemma_nearest_is_nearest(x, d);
    lemma_nearest_is_nearest(x + delta, d);
    assert((k - j) * d == k * d - j * d) by (nonlinear_arith);
    if k - j >= 2 {
        assert((k - j) * d >= 2 * d) by (nonlinear_arith)
            requires
                k - j >= 2,
                d > 0,
        ;
    }
    if k - j <= -1 {
        assert((k - j) * d <= -d) by (nonlinear_arith)
            requires
                k - j <= -1,
                d > 0,
        ;
    }
}

/// An integer within half a unit of a fraction that lies between two whole
/// numbers lies between them too.
pub proof fn lemma_close_between(x: int, k: int, d: int, lo: int, hi: int)
    requires
        d > 0,
        -d <= 2 * (x - k * d) <= d,
        lo * d <= x <= hi * d,
    ensures
        lo <= k <= hi,
{
    assert((lo - k) * d == lo * d - k * d) by (nonlinear_arith);
    assert((k - hi) * d == k * d - hi * d) by (nonlinear_arith);
    if k < lo {
        assert((lo - k) * d >= d) by (nonlinear_arith)
            requires
                lo - k >= 1,
                d > 0,
        ;
    }
    if k > hi {
        assert((k - hi) * d >= d) by (nonlinear_arith)
            requires
                k - hi >= 1,
                d > 0,
        ;
    }
}

/// Two fractions that add up to a whole number round to integers that add up
/// to its negation, unless both lie exactly half way between two integers; in
/// that case their rounding errors are equal.
pub proof fn lemma_complement(x: int, y: int, k: int, d: int)
    requires
        d > 0,
        x + y + k * d == 0,
    ensures
        nearest(x, d) + nearest(y, d) + k == 0 || (rounding_error(x, d) == rounding_error(y, d)
            && rounding_error(x, d) > 0),
        -d <= 2 * (y - (-k - nearest(x, d)) * d) <= d,
{
    let rx = nearest(x, d);
    let ry = nearest(y, d);
    let c = -k - rx;
    lemma_nearest_is_nearest(x, d);
    lemma_nearest_is_nearest(y, d);
    assert(c * d == -(k * d) - rx * d) by (nonlinear_arith)
        requires
            c == -k - rx,
    ;
    assert(y - c * d == -(x - rx * d));
    if -d < 2 * (x - rx * d) < d {
        lemma_nearest_unique(y, d, c);
    } else if ry != c {
        assert((c - ry) * d == c * d - ry * d) by (nonlinear_arith);
        if c - ry >= 1 {
            assert((c - ry) * d >= d) by (nonlinear_arith)
                requires
                    c - ry >= 1,
                    d > 0,
            ;
        } else {
            assert((c - ry) * d <= -d) by (nonlinear_arith)
                requires
                    c - ry <= -1,
                    d > 0,
            ;
        }
    }
}

/// Rounding a point on the plane whose `q` is whole keeps `q`, rounds `r` and
/// lets `s` follow.
pub proof fn lemma_round_whole_q(k: int, x: int, y: int, d: int)
    requires
        d > 0,
        k * d + x + y == 0,
    ensures
        round_cube(k * d, x, y, d) == (Cube { q: k, r: nearest(x, d), s: -k - nearest(x, d) }),
{
    lemma_nearest_exact(k, d);
    lemma_complement(x, y, k, d);
}

/// Rounding a point on the plane whose `r` is whole keeps `r`, rounds `q` and
/// lets `s` follow.
pub proof fn lemma_round_whole_r(x: int, k: int, y: int, d: int)
    requires
        d > 0,
        x + k * d + y == 0,
    ensures
        round_cube(x, k * d, y, d) == (Cube { q: nearest(x, d), r: k, s: -nearest(x, d) - k }),
{
    lemma_nearest_exact(k, d);
    lemma_complement(x, y, k, d);
}

/// Rounding a point on the plane whose `s` is whole keeps `s`, rounds `q` and
/// lets `r` follow.
pub proof fn lemma_round_whole_s(x: int, y: int, k: int, d: int)
    requires
        d > 0,
        x + y + k * d == 0,
    ensures
        round_cube(x, y, k * d, d) == (Cube { q: nearest(x, d), r: -nearest(x, d) - k, s: k }),
{
    lemma_nearest_exact(k, d);
    lemma_complement(x, y, k, d);
}

/// What blending two integers gives at the ends and from one step to the next.
pub proof fn lemma_blend(a: int, b: int, i: int, n: int)
    requires
        n > 0,
        0 <= i <= n,
    ensures
        blend(a, b, 0, n) == a * n,
        blend(a, b, n, n) == b * n,
        blend(a, b, i + 1, n) == blend(a, b, i, n) + (b - a),
        a <= b ==> a * n <= blend(a, b, i, n) <= b * n,
        b <= a ==> b * n <= blend(a, b, i, n) <= a * n,
        b - a == n ==> blend(a, b, i, n) == (a + i) * n,
        b - a == -n ==> blend(a, b, i, n) == (a - i) * n,
{
    assert(blend(a, b, i, n) == a * n + (b - a) * i) by (nonlinear_arith)
        requires
            blend(a, b, i, n) == a * (n - i) + b * i,
    ;
    assert(blend(a, b, i + 1, n) == a * n + (b - a) * i + (b - a)) by (nonlinear_arith)
        requires
            blend(a, b, i + 1, n) == a * (n - (i + 1)) + b * (i + 1),
    ;
    assert(blend(a, b, 0, n) == a * n) by (nonlinear_arith)
        requires
            blend(a, b, 0, n) == a * (n - 0) + b * 0,
    ;
    assert(blend(a, b, n, n) == b * n) by (nonlinear_arith)
        requires
            blend(a, b, n, n) == a * (n - n) + b * n,
    ;
    if a <= b {
        assert(0 <= (b - a) * i <= (b - a) * n) by (nonlinear_arith)
            requires
                0 <= i <= n,
                a <= b,
        ;
        assert(a * n + (b - a) * n == b * n) by (nonlinear_arith);
    }
    if b <= a {
        assert((b - a) * n <= (b - a) * i <= 0) by (nonlinear_arith)
            requires
                0 <= i <= n,
                b <= a,
        ;
        assert(a * n + (b - a) * n == b * n) by (nonlinear_arith);
    }
    if b - a == n {
        assert(a * n + n * i == (a + i) * n) by (nonlinear_arith);
    }
    if b - a == -n {
        assert(a * n + (-n) * i == (a - i) * n) by (nonlinear_arith);
    }
}

/// The three blended components of two points on the plane add up to zero.
pub proof fn lemma_blend_on_plane(a: Cube, b: Cube, i: int, n: int)
    requires
        a.on_plane(),
        b.on_plane(),
    ensures
        blend(a.q, b.q, i, n) + blend(a.r, b.r, i, n) + blend(a.s, b.s, i, n) == 0,
{
    assert(a.q * (n - i) + a.r * (n - i) + a.s * (n - i) == (a.q + a.r + a.s) * (n - i))
        by (nonlinear_arith);
    assert(b.q * i + b.r * i + b.s * i == (b.q + b.r + b.s) * i) by (nonlinear_arith);
    assert((a.q + a.r + a.s) * (n - i) == 0) by (nonlinear_arith)
        requires
            a.q + a.r + a.s == 0,
    ;
    assert((b.q + b.r + b.s) * i == 0) by (nonlinear_arith)
        requires
            b.q + b.r + b.s == 0,
    ;
}

/// One axis of a line runs over whole numbers from `e0` to `e1`, which are `n`
/// apart; a second axis runs the other way from `x0` to `x1` and is rounded;
/// the third follows from the other two.
///
/// The lemma says where the walk starts and ends, that no axis leaves the
/// range between its two ends, and how each axis moves in one step.
pub proof fn lemma_axis_walk(e0: int, e1: int, x0: int, x1: int, i: int, n: int)
    requires
        n > 0,
        0 <= i <= n,
        e1 - e0 == n || e1 - e0 == -n,
        e1 - e0 == n ==> -n <= x1 - x0 <= 0,
        e1 - e0 == -n ==> 0 <= x1 - x0 <= n,
    ensures
        ({
            let step: int = if e1 - e0 == n { 1 } else { -1 };
            let whole = if e1 - e0 == n { e0 + i } else { e0 - i };
            let rounded = nearest(blend(x0, x1, i, n), n);
            let rounded_next = nearest(blend(x0, x1, i + 1, n), n);
            &&& blend(e0, e1, i, n) == whole * n
            &&& between(e0, whole, e1)
            &&& between(x0, rounded, x1)
            &&& between(-e0 - x0, -whole - rounded, -e1 - x1)
            &&& i == 0 ==> whole == e0 && rounded == x0
            &&& i == n ==> whole == e1 && rounded == x1
            &&& i < n ==> rounded_next == rounded || rounded_next == rounded - step
        }),
{
    let step: int = if e1 - e0 == n { 1 } else { -1 };
    let whole = if e1 - e0 == n { e0 + i } else { e0 - i };
    let at = blend(x0, x1, i, n);
    let rounded = nearest(at, n);
    lemma_blend(e0, e1, i, n);
    lemma_blend(x0, x1, i, n);
    lemma_nearest_is_nearest(at, n);
    lemma_nearest_exact(x0, n);
    lemma_nearest_exact(x1, n);
    assert(blend(e0, e1, i, n) == whole * n);
    // The rounded axis stays between its ends.
    if x0 <= x1 {
        lemma_close_between(at, rounded, n, x0, x1);
    } else {
        lemma_close_between(at, rounded, n, x1, x0);
    }
    // So does the axis that follows from the other two.
    let third = -(whole * n) - at;
    let t0 = -e0 - x0;
    let t1 = -e1 - x1;
    lemma_blend(t0, t1, i, n);
    assert(blend(t0, t1, i, n) == third) by {
        lemma_blend_on_plane(
            Cube { q: e0, r: x0, s: t0 },
            Cube { q: e1, r: x1, s: t1 },
            i,
            n,
        );
    }
    let follows = -whole - rounded;
    assert(follows * n == -(whole * n) - rounded * n) by (nonlinear_arith)
        requires
            follows == -whole - rounded,
    ;
    if t0 <= t1 {
        lemma_close_between(third, follows, n, t0, t1);
    } else {
        lemma_close_between(third, follows, n, t1, t0);
    }
    // One step along the line.
    if i < n {
        let next = blend(x0, x1, i + 1, n);
        lemma_blend(x0, x1, i + 1, n);
        if step == 1 {
            if x1 - x0 == -n {
                lemma_nearest_exact(x0 - (i + 1), n);
            }
            lemma_nearest_step(next, x0 - x1, n);
        } else {
            if x1 - x0 == n {
                lemma_nearest_exact(x0 + i, n);
            }
            lemma_nearest_step(at, x1 - x0, n);
        }
    }
}


/// Point `i` of the line between two points that are `n > 0` steps apart lies
/// on the plane and between the two ends on every axis; the first point is one
/// end, the last is the other, and each next point is one step away.
pub proof fn lemma_line_point(a: Hex, b: Hex, i: int)
    requires
        0 <= i <= a.distance(b),
        a.distance(b) > 0,
    ensures
        ({
            let n = a.distance(b);
            let p = lerp_cube(a.to_cube(), b.to_cube(), i, n);
            &&& p.on_plane()
            &&& between(a.q, p.q, b.q)
            &&& between(a.r, p.r, b.r)
            &&& between(a.s(), p.s, b.s())
            &&& i == 0 ==> p.to_hex() == a
            &&& i == n ==> p.to_hex() == b
            &&& i < n ==> line_point(a, b, i, n).distance(line_point(a, b, i + 1, n)) == 1
        }),
{
    let n = a.distance(b);
    let ca = a.to_cube();
    let cb = b.to_cube();
    let dq = b.q - a.q;
    let dr = b.r - a.r;
    let ds = b.s() - a.s();
    let q0 = blend(ca.q, cb.q, i, n);
    let r0 = blend(ca.r, cb.r, i, n);
    let s0 = blend(ca.s, cb.s, i, n);
    let q1 = blend(ca.q, cb.q, i + 1, n);
    let r1 = blend(ca.r, cb.r, i + 1, n);
    let s1 = blend(ca.s, cb.s, i + 1, n);
    lemma_blend_on_plane(ca, cb, i, n);
    lemma_blend_on_plane(ca, cb, i + 1, n);
    if dq == n || dq == -n {
        lemma_axis_walk(a.q, b.q, a.r, b.r, i, n);
        let whole = if dq == n { a.q + i } else { a.q - i };
        lemma_round_whole_q(whole, r0, s0, n);
        if i < n {
            lemma_axis_walk(a.q, b.q, a.r, b.r, i + 1, n);
            let whole_next = if dq == n { a.q + i + 1 } else { a.q - i - 1 };
            lemma_round_whole_q(whole_next, r1, s1, n);
        }
    } else if dr == n || dr == -n {
        lemma_axis_walk(a.r, b.r, a.q, b.q, i, n);
        let whole = if dr == n { a.r + i } else { a.r - i };
        lemma_round_whole_r(q0, whole, s0, n);
        if i < n {
            lemma_axis_walk(a.r, b.r, a.q, b.q, i + 1, n);
            let whole_next = if dr == n { a.r + i + 1 } else { a.r - i - 1 };
            lemma_round_whole_r(q1, whole_next, s1, n);
        }
    } else {
        assert(ds == n || ds == -n);
        lemma_axis_walk(a.s(), b.s(), a.q, b.q, i, n);
        let whole = if ds == n { a.s() + i } else { a.s() - i };
        lemma_round_whole_s(q0, r0, whole, n);
        if i < n {
            lemma_axis_walk(a.s(), b.s(), a.q, b.q, i + 1, n);
            let whole_next = if ds == n { a.s() + i + 1 } else { a.s() - i - 1 };
            lemma_round_whole_s(q1, r1, whole_next, n);
        }
    }
}

/// A line has one point more than its ends are steps apart, starts at its
/// first end, stops at its second, and moves one step at a time.
pub proof fn lemma_line_is_walk(a: Hex, b: Hex)
    ensures
        line(a, b).len() == a.distance(b) + 1,
        line(a, b)[0] == a,
        line(a, b)[a.distance(b)] == b,
        forall|i: int|
            0 <= i < a.distance(b) ==> (#[trigger] line(a, b)[i]).distance(line(a, b)[i + 1]) == 1,
{
    let n = a.distance(b);
    if n > 0 {
        lemma_line_point(a, b, 0);
        lemma_line_point(a, b, n);
        assert forall|i: int| 0 <= i < n implies (#[trigger] line(a, b)[i]).distance(
            line(a, b)[i + 1],
        ) == 1 by {
            lemma_line_point(a, b, i);
        }
    }
}

} // verus!
