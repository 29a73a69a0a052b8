//! What can go wrong when a coordinate is made.

use vstd::prelude::*;

verus! {

/// Why a cube coordinate could not be made.
#[derive(Clone, Copy, Debug, PartialEq, Eq, Structural)]
pub enum HexError {
    /// The three components do not add up to zero.
    InvalidCoordinate,
    /// A fractional point has no representable lattice point next to it, or
    /// its denominator is not positive.
    RoundingFailure,
}

} // verus!
