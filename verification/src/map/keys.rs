//! Lattice points as keys of a hash table: a point is packed into one
//! unsigned integer, the `q` component in the upper half and the `r`
//! component in the lower half, each moved up so that it is not negative.

use vstd::prelude::*;
use vstd::arithmetic::div_mod::{
    lemma_fundamental_div_mod,
    lemma_fundamental_div_mod_converse,
    lemma_mod_bound,
};
use crate::coords::axial::AxialCoords;
use crate::lattice::Hex;

verus! {

/// Number of values of one half of a key.
pub open spec fn half() -> int {
    0x1_0000_0000_0000_0000
}

/// What is added to a component to make it non-negative.
pub open spec fn lift() -> int {
    0x8000_0000_0000_0000
}

/// Whether both components of a point fit one half of a key.
pub open spec fn in_key_range(h: Hex) -> bool {
    -lift() <= h.q < lift() && -lift() <= h.r < lift()
}

/// The key of a point.
pub open spec fn key_of(h: Hex) -> u128 {
    ((h.q + lift()) * half() + (h.r + lift())) as u128
}

/// The point of a key.
pub open spec fn point_of(k: u128) -> Hex {
    Hex { q: (k as int) / half() - lift(), r: (k as int) % half() - lift() }
}

/// Keys and the points in their range correspond one to one.
pub proof fn lemma_key_round_trip(h: Hex, k: u128)
    ensures
        in_key_range(point_of(k)),
        key_of(point_of(k)) == k,
        in_key_range(h) ==> point_of(key_of(h)) == h,
        in_key_range(h) ==> key_of(h) == (h.q + lift()) * half() + (h.r + lift()),
{
    let upper = (k as int) / half();
    let lower = (k as int) % half();
    lemma_fundamental_div_mod(k as int, half());
    lemma_mod_bound(k as int, half());
    assert(half() * upper == upper * half()) by (nonlinear_arith);
    assert(0 <= upper < half()) by (nonlinear_arith)
        requires
            0 <= k < 0x1_0000_0000_0000_0000_0000_0000_0000_0000,
            k == upper * half() + lower,
            0 <= lower < half(),
            half() == 0x1_0000_0000_0000_0000,
    ;
    if in_key_range(h) {
        let up = h.q + lift();
        let low = h.r + lift();
        assert(0 <= up * half() + low < 0x1_0000_0000_0000_0000_0000_0000_0000_0000)
            by (nonlinear_arith)
            requires
                0 <= up < half(),
                0 <= low < half(),
                half() == 0x1_0000_0000_0000_0000,
        ;
        lemma_fundamental_div_mod_converse(up * half() + low, half(), up, low);
    }
}

/// The key of an axial coordinate.
pub(crate) fn key(a: AxialCoords) -> (k: u128)
    ensures
        k == key_of(a@),
        in_key_range(a@),
{
    let upper: u128 = (a.q as i128 + 0x8000_0000_0000_0000i128) as u128;
    let lower: u128 = (a.r as i128 + 0x8000_0000_0000_0000i128) as u128;
    upper * 0x1_0000_0000_0000_0000u128 + lower
}

} // verus!
