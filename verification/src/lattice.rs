//! The hexagonal lattice as mathematics.
//!
//! Points and vectors are written with unbounded integers, so nothing here can
//! overflow. The coordinate types of this crate say what they compute by
//! pointing at these definitions.

use vstd::prelude::*;

verus! {

/// Absolute value of an integer.
pub open spec fn magnitude(x: int) -> int {
    if x < 0 {
        -x
    } else {
        x
    }
}

/// A lattice point, or the vector between two of them, on the two axial axes.
/// The third axis is implied by the other two: see [`Hex::s`].
pub struct Hex {
    pub q: int,
    pub r: int,
}

/// Three integers on the cube axes. They name a lattice point only when they
/// add up to zero: see [`Cube::on_plane`].
pub struct Cube {
    pub q: int,
    pub r: int,
    pub s: int,
}

impl Hex {
    /// The implied third axis.
    pub open spec fn s(self) -> int {
        -self.q - self.r
    }

    /// The same point on the three cube axes.
    pub open spec fn to_cube(self) -> Cube {
        Cube { q: self.q, r: self.r, s: self.s() }
    }

    /// Componentwise sum.
    pub open spec fn plus(self, other: Hex) -> Hex {
        Hex { q: self.q + other.q, r: self.r + other.r }
    }

    /// Componentwise difference.
    pub open spec fn minus(self, other: Hex) -> Hex {
        Hex { q: self.q - other.q, r: self.r - other.r }
    }

    /// Every component multiplied by `k`.
    pub open spec fn times(self, k: int) -> Hex {
        Hex { q: self.q * k, r: self.r * k }
    }

    /// Number of steps from the origin to the tip of this vector: half the sum
    /// of the magnitudes on the three cube axes.
    pub open spec fn length(self) -> int {
        (magnitude(self.q) + magnitude(self.r) + magnitude(self.s())) / 2
    }

    /// Number of steps between two points.
    pub open spec fn distance(self, other: Hex) -> int {
        self.minus(other).length()
    }
}

impl Cube {
    /// Whether the three components add up to zero.
    pub open spec fn on_plane(self) -> bool {
        self.q + self.r + self.s == 0
    }

    /// The axial point that keeps `q` and `r` and forgets `s`.
    pub open spec fn to_hex(self) -> Hex {
        Hex { q: self.q, r: self.r }
    }

    /// Componentwise sum.
    pub open spec fn plus(self, other: Cube) -> Cube {
        Cube { q: self.q + other.q, r: self.r + other.r, s: self.s + other.s }
    }

    /// Componentwise difference.
    pub open spec fn minus(self, other: Cube) -> Cube {
        Cube { q: self.q - other.q, r: self.r - other.r, s: self.s - other.s }
    }

    /// Every component multiplied by `k`.
    pub open spec fn times(self, k: int) -> Cube {
        Cube { q: self.q * k, r: self.r * k, s: self.s * k }
    }

    /// Every component negated.
    pub open spec fn negated(self) -> Cube {
        Cube { q: -self.q, r: -self.r, s: -self.s }
    }

    /// Half the sum of the three magnitudes.
    pub open spec fn length(self) -> int {
        (magnitude(self.q) + magnitude(self.r) + magnitude(self.s)) / 2
    }
}

/// The point from which the others are counted.
pub open spec fn origin() -> Hex {
    Hex { q: 0, r: 0 }
}

/// The six unit vectors, in the angular order in which neighbours are listed.
/// Outside `0..6` the index wraps.
pub open spec fn direction(k: int) -> Hex {
    let k = k % 6;
    if k == 0 {
        Hex { q: 0, r: -1 }
    } else if k == 1 {
        Hex { q: 1, r: -1 }
    } else if k == 2 {
        Hex { q: 1, r: 0 }
    } else if k == 3 {
        Hex { q: 0, r: 1 }
    } else if k == 4 {
        Hex { q: -1, r: 1 }
    } else {
        Hex { q: -1, r: 0 }
    }
}

/// The neighbour of `center` in direction `k`.
pub open spec fn neighbor(center: Hex, k: int) -> Hex {
    center.plus(direction(k))
}

/// The six points at distance one from `center`, in angular order.
pub open spec fn neighbors(center: Hex) -> Seq<Hex> {
    Seq::new(6, |k: int| neighbor(center, k))
}

/// Whether `b` is one of the six neighbours of `a`.
pub open spec fn adjacent(a: Hex, b: Hex) -> bool {
    a.distance(b) == 1
}

/// Step `step` of edge `edge` of the ring of the given radius around the
/// origin.
///
/// The ring has six edges. Edge `k` starts at the corner
/// `radius * direction(k + 2)` and walks along `direction(k + 4)`; see
/// [`crate::lattice_laws::lemma_ring_offset_is_walk`].
pub open spec fn ring_offset(radius: int, step: int, edge: int) -> Hex {
    if edge == 0 {
        Hex { q: radius - step, r: step }
    } else if edge == 1 {
        Hex { q: -step, r: radius }
    } else if edge == 2 {
        Hex { q: -radius, r: radius - step }
    } else if edge == 3 {
        Hex { q: step - radius, r: -step }
    } else if edge == 4 {
        Hex { q: step, r: -radius }
    } else {
        Hex { q: radius, r: step - radius }
    }
}

/// Element `n` of the ring of the given radius around `center`. The edges are
/// dealt round-robin: element `n` is step `n / 6` of edge `n % 6`.
pub open spec fn ring_point(center: Hex, radius: int, n: int) -> Hex {
    center.plus(ring_offset(radius, n / 6, n % 6))
}

/// The ring of the given radius around `center`: the center alone for radius
/// zero, else `6 * radius` points.
pub open spec fn ring(center: Hex, radius: nat) -> Seq<Hex> {
    if radius == 0 {
        seq![center]
    } else {
        Seq::new(6 * radius, |n: int| ring_point(center, radius as int, n))
    }
}

/// The rings of radius `0..=radius` around `center`, one after the other.
pub open spec fn area(center: Hex, radius: nat) -> Seq<Hex>
    decreases radius,
{
    if radius == 0 {
        ring(center, 0)
    } else {
        area(center, (radius - 1) as nat) + ring(center, radius)
    }
}

/// Number of points within `radius` steps of a point.
pub open spec fn area_len(radius: nat) -> nat {
    3 * radius * radius + 3 * radius + 1
}

} // verus!
