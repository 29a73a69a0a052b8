//! Coordinate types and what they have in common.

pub mod axial;
pub mod cube;
pub mod order;
pub mod text;

use vstd::prelude::*;
use crate::coords::axial::AxialCoords;
use crate::lattice::{area, area_len, neighbor, ring, Hex};
use crate::shapes::line;
use crate::lattice_laws::lemma_area_len_grows;
use crate::word::fits_word;

verus! {

/// The lattice points that a sequence of coordinates names, in order.
pub open spec fn hexes<C: HexCoords>(coords: Seq<C>) -> Seq<Hex> {
    Seq::new(coords.len(), |i: int| coords[i].hex())
}

/// The valid coordinate of type `C` that names `h`.
pub open spec fn named<C: HexCoords>(h: Hex) -> C {
    choose|c: C| c.valid() && c.hex() == h
}

/// A valid coordinate is the one that names its point.
pub proof fn lemma_named<C: HexCoords>(c: C)
    requires
        c.valid(),
    ensures
        named::<C>(c.hex()) == c,
{
    C::lemma_naming(c, named::<C>(c.hex()), c.hex());
}

/// A way of writing down the points of the hexagonal lattice.
///
/// A value of the type names the lattice point `hex()`, provided it is
/// `valid()`. Two valid values that name the same point are equal.
pub trait HexCoords: Copy + Sized {
    /// The lattice point that this value names.
    spec fn hex(self) -> Hex;

    /// Whether this value names a lattice point at all.
    spec fn valid(self) -> bool;

    /// Whether the type has a valid value that names `h`.
    spec fn representable(h: Hex) -> bool;

    /// Valid values name representable points, one value per point, and a
    /// representable point has both axial components in the machine's range.
    proof fn lemma_naming(a: Self, b: Self, h: Hex)
        ensures
            a.valid() ==> Self::representable(a.hex()),
            a.valid() && b.valid() && a.hex() == b.hex() ==> a == b,
            Self::representable(h) ==> isize::MIN <= h.q <= isize::MAX && isize::MIN <= h.r
                <= isize::MAX,
    ;

    /// The same point in axial coordinates.
    fn to_axial(self) -> (a: AxialCoords)
        requires
            self.valid(),
        ensures
            a@ == self.hex(),
    ;

    /// The value that names the point of an axial coordinate.
    fn from_axial(a: AxialCoords) -> (c: Self)
        requires
            Self::representable(a@),
        ensures
            c.valid(),
            c.hex() == a@,
    ;

    /// The straight line from `a` to `b`, both ends included.
    fn line(a: Self, b: Self) -> (out: Vec<Self>)
        requires
            a.valid(),
            b.valid(),
            fits_word(a.hex().s()),
            fits_word(b.hex().s()),
            a.hex().distance(b.hex()) < isize::MAX,
        ensures
            out@.len() == line(a.hex(), b.hex()).len(),
            forall|i: int|
                0 <= i < out@.len() ==> (#[trigger] out@[i]).valid() && out@[i].hex() == line(
                    a.hex(),
                    b.hex(),
                )[i],
    ;

    /// The points at exactly `radius` steps from `center`.
    fn ring(center: Self, radius: usize) -> (out: Vec<Self>)
        requires
            center.valid(),
            forall|h: Hex| center.hex().distance(h) <= radius ==> #[trigger] Self::representable(h),
            6 * radius <= usize::MAX,
        ensures
            out@.len() == ring(center.hex(), radius as nat).len(),
            forall|i: int|
                0 <= i < out@.len() ==> (#[trigger] out@[i]).valid() && out@[i].hex() == ring(
                    center.hex(),
                    radius as nat,
                )[i],
    ;

    /// The six neighbours of `center`, in angular order.
    fn adjacent(center: Self) -> (out: Vec<Self>)
        requires
            center.valid(),
            forall|h: Hex| center.hex().distance(h) <= 1 ==> #[trigger] Self::representable(h),
        ensures
            out@.len() == 6,
            forall|i: int|
                0 <= i < 6 ==> (#[trigger] out@[i]).valid() && out@[i].hex() == neighbor(
                    center.hex(),
                    i,
                ),
    ;

    /// The points within `radius` steps of `center`, ring by ring from the
    /// center outwards.
    fn area(center: Self, radius: usize) -> (out: Vec<Self>)
        requires
            center.valid(),
            forall|h: Hex| center.hex().distance(h) <= radius ==> #[trigger] Self::representable(h),
            area_len(radius as nat) <= usize::MAX,
        ensures
            out@.len() == area(center.hex(), radius as nat).len(),
            forall|i: int|
                0 <= i < out@.len() ==> (#[trigger] out@[i]).valid() && out@[i].hex() == area(
                    center.hex(),
                    radius as nat,
                )[i],
    {
        let mut out = Self::ring(center, 0);
        let mut done: usize = 0;
        while done < radius
            invariant
                done <= radius,
                center.valid(),
                forall|h: Hex|
                    center.hex().distance(h) <= radius ==> #[trigger] Self::representable(h),
                area_len(radius as nat) <= usize::MAX,
                out@.len() == area(center.hex(), done as nat).len(),
                forall|i: int|
                    0 <= i < out@.len() ==> (#[trigger] out@[i]).valid() && out@[i].hex() == area(
                        center.hex(),
                        done as nat,
                    )[i],
            decreases radius - done,
        {
            done += 1;
            proof {
                lemma_area_len_grows(done as nat, radius as nat);
            }
            let mut next = Self::ring(center, done);
            out.append(&mut next);
        }
        out
    }
}

} // verus!
