//! Axial coordinates.

use vstd::prelude::*;
use std::ops::{Add, Mul, Sub};
use vstd::std_specs::convert::FromSpecImpl;
use vstd::std_specs::ops::{AddSpecImpl, MulSpecImpl, SubSpecImpl};
use crate::coords::cube::{cube_of, line_points, CubeCoords};
use crate::coords::HexCoords;
use crate::lattice::{neighbor, ring, ring_point, Hex};
use crate::lattice_laws::{lemma_neighbor_distance, lemma_ring_point_distance};
use crate::shapes::line;
use crate::word::{fits, fits_word, lemma_product_fits, narrow};

verus! {

/// A lattice point on the two axial axes. Coordinates are ordered by `q`,
/// then by `r`.
#[derive(Clone, Copy, Debug, PartialEq, Eq, Ord, Hash, Structural)]
pub struct AxialCoords {
    pub q: isize,
    pub r: isize,
}

impl View for AxialCoords {
    type V = Hex;

    open spec fn view(&self) -> Hex {
        Hex { q: self.q as int, r: self.r as int }
    }
}

impl AxialCoords {
    /// The coordinate with the given components.
    pub fn new(q: isize, r: isize) -> (out: Self)
        ensures
            out.q == q,
            out.r == r,
    {
        AxialCoords { q, r }
    }

    /// Number of steps between `a` and `b`.
    pub fn distance(a: Self, b: Self) -> (out: isize)
        requires
            a@.distance(b@) <= isize::MAX,
        ensures
            out == a@.distance(b@),
    {
        let dq: i128 = a.q as i128 - b.q as i128;
        let dr: i128 = a.r as i128 - b.r as i128;
        let ds: i128 = -dq - dr;
        let mq: i128 = if dq < 0 { -dq } else { dq };
        let mr: i128 = if dr < 0 { -dr } else { dr };
        let ms: i128 = if ds < 0 { -ds } else { ds };
        narrow((mq + mr + ms) / 2)
    }
}


/// The six points that one step along the edges of a ring adds fit the
/// machine word if every point within the radius does.
proof fn lemma_ring_step_fits(center: Hex, radius: int, step: int)
    requires
        0 <= step < radius,
        forall|h: Hex| center.distance(h) <= radius ==> #[trigger] axial_fits(h),
    ensures
        fits_word(center.q + radius) && fits_word(center.q - radius),
        fits_word(center.r + radius) && fits_word(center.r - radius),
        fits_word(center.q + radius - step) && fits_word(center.q - radius + step),
        fits_word(center.r + radius - step) && fits_word(center.r - radius + step),
        fits_word(center.q + step) && fits_word(center.q - step),
        fits_word(center.r + step) && fits_word(center.r - step),
{
    assert forall|edge: int| 0 <= edge < 6 implies axial_fits(
        #[trigger] ring_point(center, radius, 6 * step + edge),
    ) by {
        lemma_ring_point_distance(center, radius, 6 * step + edge);
    }
    assert(axial_fits(ring_point(center, radius, 6 * step + 0)));
    assert(axial_fits(ring_point(center, radius, 6 * step + 1)));
    assert(axial_fits(ring_point(center, radius, 6 * step + 2)));
    assert(axial_fits(ring_point(center, radius, 6 * step + 3)));
    assert(axial_fits(ring_point(center, radius, 6 * step + 4)));
    assert(axial_fits(ring_point(center, radius, 6 * step + 5)));
}

/// Whether both components of a point fit the machine word.
pub open spec fn axial_fits(h: Hex) -> bool {
    fits_word(h.q) && fits_word(h.r)
}

/// The ring of the given radius around `center`, in axial coordinates.
pub(crate) fn ring_points(center: AxialCoords, radius: usize) -> (out: Vec<AxialCoords>)
    requires
        forall|h: Hex| center@.distance(h) <= radius ==> #[trigger] axial_fits(h),
        6 * radius <= usize::MAX,
    ensures
        out@.len() == ring(center@, radius as nat).len(),
        forall|i: int| 0 <= i < out@.len() ==> (#[trigger] out@[i])@ == ring(center@, radius as nat)[i],
{
    if radius == 0 {
        return vec![center];
    }
    let cq: i128 = center.q as i128;
    let cr: i128 = center.r as i128;
    let rad: i128 = radius as i128;
    let mut out: Vec<AxialCoords> = Vec::new();
    let mut i: usize = 0;
    while i < radius
        invariant
            0 <= i <= radius,
            radius > 0,
            6 * radius <= usize::MAX,
            cq == center.q,
            cr == center.r,
            rad == radius,
            forall|h: Hex| center@.distance(h) <= radius ==> #[trigger] axial_fits(h),
            out@.len() == 6 * i,
            forall|n: int|
                0 <= n < 6 * i ==> (#[trigger] out@[n])@ == ring_point(center@, radius as int, n),
        decreases radius - i,
    {
        let step: i128 = i as i128;
        proof {
            lemma_ring_step_fits(center@, radius as int, i as int);
        }
        out.push(AxialCoords { q: narrow(cq + rad - step), r: narrow(cr + step) });
        out.push(AxialCoords { q: narrow(cq - step), r: narrow(cr + rad) });
        out.push(AxialCoords { q: narrow(cq - rad), r: narrow(cr + rad - step) });
        out.push(AxialCoords { q: narrow(cq - rad + step), r: narrow(cr - step) });
        out.push(AxialCoords { q: narrow(cq + step), r: narrow(cr - rad) });
        out.push(AxialCoords { q: narrow(cq + rad), r: narrow(cr - rad + step) });
        i += 1;
    }
    out
}

/// The six neighbours of `center`, in axial coordinates and angular order.
pub(crate) fn neighbor_points(center: AxialCoords) -> (out: Vec<AxialCoords>)
    requires
        forall|h: Hex| center@.distance(h) <= 1 ==> #[trigger] axial_fits(h),
    ensures
        out@.len() == 6,
        forall|i: int| 0 <= i < 6 ==> (#[trigger] out@[i])@ == neighbor(center@, i),
{
    let cq: i128 = center.q as i128;
    let cr: i128 = center.r as i128;
    proof {
        lemma_neighbor_distance(center@, 0);
        lemma_neighbor_distance(center@, 1);
        lemma_neighbor_distance(center@, 2);
        lemma_neighbor_distance(center@, 3);
        lemma_neighbor_distance(center@, 4);
        lemma_neighbor_distance(center@, 5);
        assert(axial_fits(neighbor(center@, 0)));
        assert(axial_fits(neighbor(center@, 1)));
        assert(axial_fits(neighbor(center@, 2)));
        assert(axial_fits(neighbor(center@, 3)));
        assert(axial_fits(neighbor(center@, 4)));
        assert(axial_fits(neighbor(center@, 5)));
    }
    vec![
        AxialCoords { q: narrow(cq), r: narrow(cr - 1) },
        AxialCoords { q: narrow(cq + 1), r: narrow(cr - 1) },
        AxialCoords { q: narrow(cq + 1), r: narrow(cr) },
        AxialCoords { q: narrow(cq), r: narrow(cr + 1) },
        AxialCoords { q: narrow(cq - 1), r: narrow(cr + 1) },
        AxialCoords { q: narrow(cq - 1), r: narrow(cr) },
    ]
}

/// The neighbour of `center` in direction `k`, if its components fit the
/// machine word.
pub(crate) fn neighbor_at(center: AxialCoords, k: usize) -> (out: Option<AxialCoords>)
    requires
        k < 6,
    ensures
        match out {
            Some(a) => a@ == neighbor(center@, k as int),
            None => !axial_fits(neighbor(center@, k as int)),
        },
{
    let (dq, dr): (i128, i128) = if k == 0 {
        (0, -1)
    } else if k == 1 {
        (1, -1)
    } else if k == 2 {
        (1, 0)
    } else if k == 3 {
        (0, 1)
    } else if k == 4 {
        (-1, 1)
    } else {
        (-1, 0)
    };
    let q: i128 = center.q as i128 + dq;
    let r: i128 = center.r as i128 + dr;
    if fits(q) && fits(r) {
        Some(AxialCoords { q: narrow(q), r: narrow(r) })
    } else {
        None
    }
}

impl HexCoords for AxialCoords {
    open spec fn hex(self) -> Hex {
        self@
    }

    open spec fn valid(self) -> bool {
        true
    }

    open spec fn representable(h: Hex) -> bool {
        axial_fits(h)
    }

    proof fn lemma_naming(a: Self, b: Self, h: Hex) {
    }

    fn to_axial(self) -> (a: AxialCoords) {
        self
    }

    fn from_axial(a: AxialCoords) -> (c: Self) {
        a
    }

    fn line(a: Self, b: Self) -> (out: Vec<Self>) {
        let points = line_points(cube_of(a), cube_of(b));
        let mut out: Vec<Self> = Vec::new();
        let mut i: usize = 0;
        while i < points.len()
            invariant
                0 <= i <= points@.len(),
                points@.len() == line(a@, b@).len(),
                forall|j: int|
                    0 <= j < points@.len() ==> (#[trigger] points@[j])@.to_hex() == line(a@, b@)[j],
                out@.len() == i,
                forall|j: int| 0 <= j < i ==> (#[trigger] out@[j])@ == line(a@, b@)[j],
            decreases points@.len() - i,
        {
            let point = points[i];
            out.push(AxialCoords { q: point.q, r: point.r });
            i += 1;
        }
        out
    }

    fn ring(center: Self, radius: usize) -> (out: Vec<Self>) {
        proof {
            assert forall|h: Hex| center@.distance(h) <= radius implies #[trigger] axial_fits(
                h,
            ) by {
                assert(Self::representable(h));
            }
        }
        ring_points(center, radius)
    }

    fn adjacent(center: Self) -> (out: Vec<Self>) {
        proof {
            assert forall|h: Hex| center@.distance(h) <= 1 implies #[trigger] axial_fits(h) by {
                assert(Self::representable(h));
            }
        }
        neighbor_points(center)
    }
}


impl AxialCoords {
    /// The origin.
    pub fn zero() -> (out: Self)
        ensures
            out == (AxialCoords { q: 0, r: 0 }),
    {
        AxialCoords { q: 0, r: 0 }
    }

    /// One step along the `q` axis.
    pub fn unit_q() -> (out: Self)
        ensures
            out == (AxialCoords { q: 1, r: 0 }),
    {
        AxialCoords { q: 1, r: 0 }
    }

    /// One step along the `r` axis.
    pub fn unit_r() -> (out: Self)
        ensures
            out == (AxialCoords { q: 0, r: 1 }),
    {
        AxialCoords { q: 0, r: 1 }
    }

    /// One step along the `s` axis.
    pub fn unit_s() -> (out: Self)
        ensures
            out.q == -1,
            out.r == 1,
    {
        AxialCoords { q: -1, r: 1 }
    }
}

impl Add for AxialCoords {
    type Output = AxialCoords;

    fn add(self, rhs: AxialCoords) -> (out: AxialCoords) {
        AxialCoords { q: self.q + rhs.q, r: self.r + rhs.r }
    }
}

impl AddSpecImpl for AxialCoords {
    open spec fn obeys_add_spec() -> bool {
        true
    }

    open spec fn add_req(self, rhs: AxialCoords) -> bool {
        axial_fits(self@.plus(rhs@))
    }

    open spec fn add_spec(self, rhs: AxialCoords) -> AxialCoords {
        AxialCoords { q: (self.q + rhs.q) as isize, r: (self.r + rhs.r) as isize }
    }
}

impl Sub for AxialCoords {
    type Output = AxialCoords;

    fn sub(self, rhs: AxialCoords) -> (out: AxialCoords) {
        AxialCoords { q: self.q - rhs.q, r: self.r - rhs.r }
    }
}

impl SubSpecImpl for AxialCoords {
    open spec fn obeys_sub_spec() -> bool {
        true
    }

    open spec fn sub_req(self, rhs: AxialCoords) -> bool {
        axial_fits(self@.minus(rhs@))
    }

    open spec fn sub_spec(self, rhs: AxialCoords) -> AxialCoords {
        AxialCoords { q: (self.q - rhs.q) as isize, r: (self.r - rhs.r) as isize }
    }
}

impl Mul<usize> for AxialCoords {
    type Output = AxialCoords;

    fn mul(self, rhs: usize) -> (out: AxialCoords) {
        proof {
            lemma_product_fits(self.q as int, rhs as int);
            lemma_product_fits(self.r as int, rhs as int);
        }
        AxialCoords {
            q: narrow(self.q as i128 * rhs as i128),
            r: narrow(self.r as i128 * rhs as i128),
        }
    }
}

impl MulSpecImpl<usize> for AxialCoords {
    open spec fn obeys_mul_spec() -> bool {
        true
    }

    open spec fn mul_req(self, rhs: usize) -> bool {
        axial_fits(self@.times(rhs as int))
    }

    open spec fn mul_spec(self, rhs: usize) -> AxialCoords {
        AxialCoords { q: (self.q * rhs) as isize, r: (self.r * rhs) as isize }
    }
}

impl From<CubeCoords> for AxialCoords {
    fn from(value: CubeCoords) -> (out: AxialCoords) {
        AxialCoords { q: value.q, r: value.r }
    }
}

impl FromSpecImpl<CubeCoords> for AxialCoords {
    open spec fn obeys_from_spec() -> bool {
        true
    }

    open spec fn from_spec(value: CubeCoords) -> AxialCoords {
        AxialCoords { q: value.q, r: value.r }
    }
}

impl From<&CubeCoords> for AxialCoords {
    fn from(value: &CubeCoords) -> (out: AxialCoords) {
        AxialCoords { q: value.q, r: value.r }
    }
}

impl FromSpecImpl<&CubeCoords> for AxialCoords {
    open spec fn obeys_from_spec() -> bool {
        true
    }

    open spec fn from_spec(value: &CubeCoords) -> AxialCoords {
        AxialCoords { q: value.q, r: value.r }
    }
}

} // verus!
