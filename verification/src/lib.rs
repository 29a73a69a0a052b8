//! Hexagonal grids: coordinates on the lattice, the shapes drawn on it, a
//! sparse map of tiles, and least-cost paths across that map.
//!
//! Every function here is verified: it cannot overflow or panic, and it
//! returns what its contract says. The contracts are written over a
//! mathematical model of the lattice, in which a point is a pair of unbounded
//! integers:
//!
//! - [`lattice`] defines points, distance, neighbours, rings and areas;
//!   [`rounding`] and [`shapes`] define how a fractional point is rounded and
//!   how a line is drawn. [`lattice_laws`] and [`line_laws`] prove what the
//!   shapes are: which points a ring and an area hold and how many, and that
//!   a line is a walk from its first point to its last.
//! - [`coords`] has the two coordinate types, [`AxialCoords`] and
//!   [`CubeCoords`], and the trait [`HexCoords`] that both implement.
//! - [`map`] has [`HexMap`], whose view is a mathematical map from points to
//!   tiles, and the search for a cheapest route across it.
//!
//! Fractions are written as an integer numerator over an integer denominator
//! and costs as unsigned integers, so that all arithmetic is exact. The cost
//! of one move is a `u64` and the cost of a route a `u128`, which no route
//! across a map can exceed.

pub mod coords;
pub mod error;
pub mod lattice;
pub mod lattice_laws;
pub mod line_laws;
pub mod map;
pub mod orientation;
pub mod rounding;
pub mod shapes;
pub mod word;

pub use crate::coords::axial::AxialCoords;
pub use crate::coords::cube::CubeCoords;
pub use crate::coords::HexCoords;
pub use crate::error::HexError;
pub use crate::map::pathfinding::{PathMap, PathNode};
pub use crate::map::HexMap;
pub use crate::orientation::Orientation;
