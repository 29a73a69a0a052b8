//! How a grid is turned on the plane.

use vstd::prelude::*;

verus! {

/// Which way the hexagons of a grid point. The lattice itself does not depend
/// on it; whoever draws the grid does.
#[derive(Clone, Copy, Debug, PartialEq, Eq, Structural)]
pub enum Orientation {
    /// A corner of each hexagon points up.
    PointyTop,
    /// A side of each hexagon faces up.
    FlatTop,
}

} // verus!
