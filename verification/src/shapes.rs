//! The straight line between two lattice points.

use vstd::prelude::*;
use crate::lattice::{Cube, Hex};
use crate::rounding::round_cube;

verus! {

/// Numerator, over `den`, of the value `num / den` of the way from `a` to `b`.
pub open spec fn blend(a: int, b: int, num: int, den: int) -> int {
    a * (den - num) + b * num
}

/// The lattice point nearest to the point `num / den` of the way from `a` to
/// `b`.
pub open spec fn lerp_cube(a: Cube, b: Cube, num: int, den: int) -> Cube {
    round_cube(
        blend(a.q, b.q, num, den),
        blend(a.r, b.r, num, den),
        blend(a.s, b.s, num, den),
        den,
    )
}

/// Element `i` of the line from `a` to `b`, which are `n > 0` steps apart.
pub open spec fn line_point(a: Hex, b: Hex, i: int, n: int) -> Hex {
    lerp_cube(a.to_cube(), b.to_cube(), i, n).to_hex()
}

/// The line from `a` to `b`: with `n` the distance between them, the points
/// `i / n` of the way for `i` in `0..=n`, each rounded to the lattice. A line
/// from a point to itself is that point alone.
pub open spec fn line(a: Hex, b: Hex) -> Seq<Hex> {
    let n = a.distance(b);
    if n == 0 {
        seq![a]
    } else {
        Seq::new((n + 1) as nat, |i: int| line_point(a, b, i, n))
    }
}

} // verus!
