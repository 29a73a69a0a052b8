//! Cube coordinates.

use vstd::prelude::*;
use std::ops::{Add, Mul, Neg, Sub};
use vstd::std_specs::convert::{FromSpec, FromSpecImpl};
use vstd::std_specs::ops::{AddSpecImpl, MulSpecImpl, NegSpecImpl, SubSpecImpl};
use crate::coords::axial::{axial_fits, neighbor_points, ring_points, AxialCoords};
use crate::coords::HexCoords;
use crate::error::HexError;
use crate::lattice::{neighbor, origin, ring, Cube, Hex};
use crate::lattice_laws::{lemma_neighbor_distance, lemma_ring_point_distance};
use crate::line_laws::lemma_line_point;
use crate::rounding::{round_cube, round_wide};
use crate::shapes::{lerp_cube, line, line_point};
use crate::word::{fits, fits_word, lemma_blend_fits, lemma_product_fits, narrow};

verus! {

/// A lattice point on the three cube axes. The value is valid when its
/// components add up to zero.
#[derive(Clone, Copy, Debug, PartialEq, Eq, Hash, Structural)]
pub struct CubeCoords {
    pub q: isize,
    pub r: isize,
    pub s: isize,
}

impl View for CubeCoords {
    type V = Cube;

    open spec fn view(&self) -> Cube {
        Cube { q: self.q as int, r: self.r as int, s: self.s as int }
    }
}

/// Whether all three components fit the machine's signed word.
pub open spec fn cube_fits(c: Cube) -> bool {
    fits_word(c.q) && fits_word(c.r) && fits_word(c.s)
}

/// The third component that puts `q` and `r` on the plane, or zero where that
/// component does not fit the machine word.
pub open spec fn third_axis(q: isize, r: isize) -> isize {
    if fits_word(-q - r) {
        (-q - r) as isize
    } else {
        0
    }
}

/// The coordinate of three wide integers, if each fits the machine word.
fn narrow_cube(q: i128, r: i128, s: i128) -> (out: Option<CubeCoords>)
    ensures
        match out {
            Some(c) => c@ == (Cube { q: q as int, r: r as int, s: s as int }),
            None => !cube_fits(Cube { q: q as int, r: r as int, s: s as int }),
        },
{
    if fits(q) && fits(r) && fits(s) {
        Some(CubeCoords { q: narrow(q), r: narrow(r), s: narrow(s) })
    } else {
        None
    }
}

impl CubeCoords {
    /// The origin.
    pub fn zero() -> (out: Self)
        ensures
            out == (CubeCoords { q: 0, r: 0, s: 0 }),
    {
        CubeCoords { q: 0, r: 0, s: 0 }
    }

    /// The coordinate with the given components, which must add up to zero.
    pub fn new(q: isize, r: isize, s: isize) -> (out: Result<Self, HexError>)
        ensures
            q + r + s == 0 ==> out == Ok::<Self, HexError>(CubeCoords { q, r, s }),
            q + r + s != 0 ==> out == Err::<Self, HexError>(HexError::InvalidCoordinate),
    {
        let coords = CubeCoords { q, r, s };
        if coords.is_valid() {
            Ok(coords)
        } else {
            Err(HexError::InvalidCoordinate)
        }
    }

    /// Whether the components add up to zero.
    pub fn is_valid(&self) -> (out: bool)
        ensures
            out == self@.on_plane(),
    {
        self.q as i128 + self.r as i128 + self.s as i128 == 0
    }

    /// The lattice point nearest to the fractional point `(q, r, s) / den`.
    ///
    /// Fails where the denominator is not positive and where a component of
    /// the result does not fit the machine word.
    pub fn round(q: isize, r: isize, s: isize, den: isize) -> (out: Result<Self, HexError>)
        ensures
            match out {
                Ok(c) => den > 0 && c@.on_plane() && c@ == round_cube(
                    q as int,
                    r as int,
                    s as int,
                    den as int,
                ),
                Err(e) => e == HexError::RoundingFailure && (den <= 0 || !cube_fits(
                    round_cube(q as int, r as int, s as int, den as int),
                )),
            },
    {
        if den <= 0 {
            return Err(HexError::RoundingFailure);
        }
        let (rq, rr, rs) = round_wide(q as i128, r as i128, s as i128, den as i128);
        match narrow_cube(rq, rr, rs) {
            Some(c) => Ok(c),
            None => Err(HexError::RoundingFailure),
        }
    }

    /// The lattice point nearest to the point `num / den` of the way from
    /// `self` to `other`.
    ///
    /// Fails where a component of the result does not fit the machine word.
    pub fn lerp(self, other: Self, num: isize, den: isize) -> (out: Result<Self, HexError>)
        requires
            0 <= num <= den,
            0 < den < isize::MAX,
        ensures
            match out {
                Ok(c) => c@.on_plane() && c@ == lerp_cube(self@, other@, num as int, den as int),
                Err(e) => e == HexError::RoundingFailure && !cube_fits(
                    lerp_cube(self@, other@, num as int, den as int),
                ),
            },
    {
        let n: i128 = num as i128;
        let d: i128 = den as i128;
        let rest: i128 = d - n;
        proof {
            lemma_blend_fits(self@.q, other@.q, num as int, den as int);
            lemma_blend_fits(self@.r, other@.r, num as int, den as int);
            lemma_blend_fits(self@.s, other@.s, num as int, den as int);
        }
        let (rq, rr, rs) = round_wide(
            self.q as i128 * rest + other.q as i128 * n,
            self.r as i128 * rest + other.r as i128 * n,
            self.s as i128 * rest + other.s as i128 * n,
            d,
        );
        match narrow_cube(rq, rr, rs) {
            Some(c) => Ok(c),
            None => Err(HexError::RoundingFailure),
        }
    }

    /// Number of steps between `a` and `b`: half the sum of the magnitudes of
    /// the three differences.
    pub fn distance(a: Self, b: Self) -> (out: isize)
        requires
            a@.minus(b@).length() <= isize::MAX,
        ensures
            out == a@.minus(b@).length(),
            a@.on_plane() && b@.on_plane() ==> out == a@.to_hex().distance(b@.to_hex()),
    {
        let dq: i128 = a.q as i128 - b.q as i128;
        let dr: i128 = a.r as i128 - b.r as i128;
        let ds: i128 = a.s as i128 - b.s as i128;
        let mq: i128 = if dq < 0 { -dq } else { dq };
        let mr: i128 = if dr < 0 { -dr } else { dr };
        let ms: i128 = if ds < 0 { -ds } else { ds };
        narrow((mq + mr + ms) / 2)
    }

    /// The straight line from the origin to `end`.
    pub fn line_from_center(end: Self) -> (out: Vec<Self>)
        requires
            end@.on_plane(),
            origin().distance(end@.to_hex()) < isize::MAX,
        ensures
            out@.len() == line(origin(), end@.to_hex()).len(),
            forall|i: int|
                0 <= i < out@.len() ==> (#[trigger] out@[i])@.on_plane() && out@[i]@.to_hex()
                    == line(origin(), end@.to_hex())[i],
    {
        line_points(Self::zero(), end)
    }
}

/// Whether the type has a value for the point: all three components fit the
/// machine word.
pub open spec fn point_fits(h: Hex) -> bool {
    fits_word(h.q) && fits_word(h.r) && fits_word(h.s())
}

/// The cube coordinate of an axial one whose third component fits.
pub(crate) fn cube_of(a: AxialCoords) -> (out: CubeCoords)
    requires
        fits_word(a@.s()),
    ensures
        out@ == a@.to_cube(),
{
    CubeCoords { q: a.q, r: a.r, s: narrow(-(a.q as i128) - a.r as i128) }
}

/// The cube coordinates of axial ones whose third components fit.
fn cubes_of(points: Vec<AxialCoords>) -> (out: Vec<CubeCoords>)
    requires
        forall|i: int| 0 <= i < points@.len() ==> fits_word((#[trigger] points@[i])@.s()),
    ensures
        out@.len() == points@.len(),
        forall|i: int| 0 <= i < out@.len() ==> (#[trigger] out@[i])@ == points@[i]@.to_cube(),
{
    let mut out: Vec<CubeCoords> = Vec::new();
    let mut i: usize = 0;
    while i < points.len()
        invariant
            0 <= i <= points@.len(),
            forall|j: int| 0 <= j < points@.len() ==> fits_word((#[trigger] points@[j])@.s()),
            out@.len() == i,
            forall|j: int| 0 <= j < i ==> (#[trigger] out@[j])@ == points@[j]@.to_cube(),
        decreases points@.len() - i,
    {
        out.push(cube_of(points[i]));
        i += 1;
    }
    out
}

/// The straight line between two valid coordinates.
pub(crate) fn line_points(a: CubeCoords, b: CubeCoords) -> (out: Vec<CubeCoords>)
    requires
        a@.on_plane(),
        b@.on_plane(),
        a@.to_hex().distance(b@.to_hex()) < isize::MAX,
    ensures
        out@.len() == line(a@.to_hex(), b@.to_hex()).len(),
        forall|i: int|
            0 <= i < out@.len() ==> (#[trigger] out@[i])@.on_plane() && out@[i]@.to_hex() == line(
                a@.to_hex(),
                b@.to_hex(),
            )[i],
{
    let n: isize = CubeCoords::distance(a, b);
    if n == 0 {
        return vec![a];
    }
    let mut out: Vec<CubeCoords> = Vec::new();
    let mut i: isize = 0;
    while i <= n
        invariant
            0 <= i <= n + 1,
            0 < n < isize::MAX,
            n == a@.to_hex().distance(b@.to_hex()),
            a@.on_plane(),
            b@.on_plane(),
            out@.len() == i,
            forall|j: int|
                0 <= j < i ==> (#[trigger] out@[j])@.on_plane() && out@[j]@.to_hex() == line_point(
                    a@.to_hex(),
                    b@.to_hex(),
                    j,
                    n as int,
                ),
        decreases n + 1 - i,
    {
        proof {
            lemma_line_point(a@.to_hex(), b@.to_hex(), i as int);
            assert(a@ == a@.to_hex().to_cube());
            assert(b@ == b@.to_hex().to_cube());
        }
        match a.lerp(b, i, n) {
            Ok(point) => {
                out.push(point);
            },
            Err(_) => {
                assert(false);
            },
        }
        i += 1;
    }
    out
}

impl HexCoords for CubeCoords {
    open spec fn hex(self) -> Hex {
        self@.to_hex()
    }

    open spec fn valid(self) -> bool {
        self@.on_plane()
    }

    open spec fn representable(h: Hex) -> bool {
        point_fits(h)
    }

    proof fn lemma_naming(a: Self, b: Self, h: Hex) {
    }

    fn to_axial(self) -> (a: AxialCoords) {
        AxialCoords { q: self.q, r: self.r }
    }

    fn from_axial(a: AxialCoords) -> (c: Self) {
        cube_of(a)
    }

    fn line(a: Self, b: Self) -> (out: Vec<Self>) {
        line_points(a, b)
    }

    fn ring(center: Self, radius: usize) -> (out: Vec<Self>) {
        proof {
            assert forall|h: Hex| center.hex().distance(h) <= radius implies #[trigger] axial_fits(
                h,
            ) by {
                assert(Self::representable(h));
            }
        }
        let points = ring_points(AxialCoords { q: center.q, r: center.r }, radius);
        proof {
            assert forall|i: int| 0 <= i < points@.len() implies fits_word(
                (#[trigger] points@[i])@.s(),
            ) by {
                if radius > 0 {
                    lemma_ring_point_distance(center.hex(), radius as int, i);
                }
                assert(Self::representable(points@[i]@));
            }
        }
        cubes_of(points)
    }

    fn adjacent(center: Self) -> (out: Vec<Self>) {
        proof {
            assert forall|h: Hex| center.hex().distance(h) <= 1 implies #[trigger] axial_fits(
                h,
            ) by {
                assert(Self::representable(h));
            }
        }
        let points = neighbor_points(AxialCoords { q: center.q, r: center.r });
        proof {
            assert forall|i: int| 0 <= i < points@.len() implies fits_word(
                (#[trigger] points@[i])@.s(),
            ) by {
                lemma_neighbor_distance(center.hex(), i);
                assert(Self::representable(points@[i]@));
            }
        }
        cubes_of(points)
    }
}


impl Add for CubeCoords {
    type Output = CubeCoords;

    fn add(self, rhs: CubeCoords) -> (out: CubeCoords) {
        CubeCoords { q: self.q + rhs.q, r: self.r + rhs.r, s: self.s + rhs.s }
    }
}

impl AddSpecImpl for CubeCoords {
    open spec fn obeys_add_spec() -> bool {
        true
    }

    open spec fn add_req(self, rhs: CubeCoords) -> bool {
        cube_fits(self@.plus(rhs@))
    }

    open spec fn add_spec(self, rhs: CubeCoords) -> CubeCoords {
        CubeCoords {
            q: (self.q + rhs.q) as isize,
            r: (self.r + rhs.r) as isize,
            s: (self.s + rhs.s) as isize,
        }
    }
}

impl Add<&CubeCoords> for CubeCoords {
    type Output = CubeCoords;

    fn add(self, rhs: &CubeCoords) -> (out: CubeCoords) {
        CubeCoords { q: self.q + rhs.q, r: self.r + rhs.r, s: self.s + rhs.s }
    }
}

impl AddSpecImpl<&CubeCoords> for CubeCoords {
    open spec fn obeys_add_spec() -> bool {
        true
    }

    open spec fn add_req(self, rhs: &CubeCoords) -> bool {
        cube_fits(self@.plus(rhs@))
    }

    open spec fn add_spec(self, rhs: &CubeCoords) -> CubeCoords {
        CubeCoords {
            q: (self.q + rhs.q) as isize,
            r: (self.r + rhs.r) as isize,
            s: (self.s + rhs.s) as isize,
        }
    }
}

impl Add<CubeCoords> for &CubeCoords {
    type Output = CubeCoords;

    fn add(self, rhs: CubeCoords) -> (out: CubeCoords) {
        CubeCoords { q: self.q + rhs.q, r: self.r + rhs.r, s: self.s + rhs.s }
    }
}

impl AddSpecImpl<CubeCoords> for &CubeCoords {
    open spec fn obeys_add_spec() -> bool {
        true
    }

    open spec fn add_req(self, rhs: CubeCoords) -> bool {
        cube_fits(self@.plus(rhs@))
    }

    open spec fn add_spec(self, rhs: CubeCoords) -> CubeCoords {
        CubeCoords {
            q: (self.q + rhs.q) as isize,
            r: (self.r + rhs.r) as isize,
            s: (self.s + rhs.s) as isize,
        }
    }
}

impl Add<&CubeCoords> for &CubeCoords {
    type Output = CubeCoords;

    fn add(self, rhs: &CubeCoords) -> (out: CubeCoords) {
        CubeCoords { q: self.q + rhs.q, r: self.r + rhs.r, s: self.s + rhs.s }
    }
}

impl AddSpecImpl<&CubeCoords> for &CubeCoords {
    open spec fn obeys_add_spec() -> bool {
        true
    }

    open spec fn add_req(self, rhs: &CubeCoords) -> bool {
        cube_fits(self@.plus(rhs@))
    }

    open spec fn add_spec(self, rhs: &CubeCoords) -> CubeCoords {
        CubeCoords {
            q: (self.q + rhs.q) as isize,
            r: (self.r + rhs.r) as isize,
            s: (self.s + rhs.s) as isize,
        }
    }
}

impl Sub for CubeCoords {
    type Output = CubeCoords;

    fn sub(self, rhs: CubeCoords) -> (out: CubeCoords) {
        CubeCoords { q: self.q - rhs.q, r: self.r - rhs.r, s: self.s - rhs.s }
    }
}

impl SubSpecImpl for CubeCoords {
    open spec fn obeys_sub_spec() -> bool {
        true
    }

    open spec fn sub_req(self, rhs: CubeCoords) -> bool {
        cube_fits(self@.minus(rhs@))
    }

    open spec fn sub_spec(self, rhs: CubeCoords) -> CubeCoords {
        CubeCoords {
            q: (self.q - rhs.q) as isize,
            r: (self.r - rhs.r) as isize,
            s: (self.s - rhs.s) as isize,
        }
    }
}

impl Neg for CubeCoords {
    type Output = CubeCoords;

    fn neg(self) -> (out: CubeCoords) {
        CubeCoords { q: -self.q, r: -self.r, s: -self.s }
    }
}

impl NegSpecImpl for CubeCoords {
    open spec fn obeys_neg_spec() -> bool {
        true
    }

    open spec fn neg_req(self) -> bool {
        cube_fits(self@.negated())
    }

    open spec fn neg_spec(self) -> CubeCoords {
        CubeCoords { q: (-self.q) as isize, r: (-self.r) as isize, s: (-self.s) as isize }
    }
}

impl Mul<CubeCoords> for CubeCoords {
    type Output = CubeCoords;

    fn mul(self, rhs: CubeCoords) -> (out: CubeCoords) {
        proof {
            lemma_product_fits(self.q as int, rhs.q as int);
            lemma_product_fits(self.r as int, rhs.r as int);
            lemma_product_fits(self.s as int, rhs.s as int);
        }
        CubeCoords {
            q: narrow(self.q as i128 * rhs.q as i128),
            r: narrow(self.r as i128 * rhs.r as i128),
            s: narrow(self.s as i128 * rhs.s as i128),
        }
    }
}

impl MulSpecImpl<CubeCoords> for CubeCoords {
    open spec fn obeys_mul_spec() -> bool {
        true
    }

    open spec fn mul_req(self, rhs: CubeCoords) -> bool {
        cube_fits(Cube { q: self.q * rhs.q, r: self.r * rhs.r, s: self.s * rhs.s })
    }

    open spec fn mul_spec(self, rhs: CubeCoords) -> CubeCoords {
        CubeCoords {
            q: (self.q * rhs.q) as isize,
            r: (self.r * rhs.r) as isize,
            s: (self.s * rhs.s) as isize,
        }
    }
}

impl Mul<isize> for CubeCoords {
    type Output = CubeCoords;

    fn mul(self, rhs: isize) -> (out: CubeCoords) {
        proof {
            lemma_product_fits(self.q as int, rhs as int);
            lemma_product_fits(self.r as int, rhs as int);
            lemma_product_fits(self.s as int, rhs as int);
        }
        CubeCoords {
            q: narrow(self.q as i128 * rhs as i128),
            r: narrow(self.r as i128 * rhs as i128),
            s: narrow(self.s as i128 * rhs as i128),
        }
    }
}

impl MulSpecImpl<isize> for CubeCoords {
    open spec fn obeys_mul_spec() -> bool {
        true
    }

    open spec fn mul_req(self, rhs: isize) -> bool {
        cube_fits(self@.times(rhs as int))
    }

    open spec fn mul_spec(self, rhs: isize) -> CubeCoords {
        CubeCoords {
            q: (self.q * rhs) as isize,
            r: (self.r * rhs) as isize,
            s: (self.s * rhs) as isize,
        }
    }
}

impl Mul<usize> for CubeCoords {
    type Output = CubeCoords;

    fn mul(self, rhs: usize) -> (out: CubeCoords) {
        proof {
            lemma_product_fits(self.q as int, rhs as int);
            lemma_product_fits(self.r as int, rhs as int);
            lemma_product_fits(self.s as int, rhs as int);
        }
        CubeCoords {
            q: narrow(self.q as i128 * rhs as i128),
            r: narrow(self.r as i128 * rhs as i128),
            s: narrow(self.s as i128 * rhs as i128),
        }
    }
}

impl MulSpecImpl<usize> for CubeCoords {
    open spec fn obeys_mul_spec() -> bool {
        true
    }

    open spec fn mul_req(self, rhs: usize) -> bool {
        cube_fits(self@.times(rhs as int))
    }

    open spec fn mul_spec(self, rhs: usize) -> CubeCoords {
        CubeCoords {
            q: (self.q * rhs) as isize,
            r: (self.r * rhs) as isize,
            s: (self.s * rhs) as isize,
        }
    }
}

impl From<AxialCoords> for CubeCoords {
    /// The cube coordinate of an axial one. Where the third component does
    /// not fit the machine word it is left at zero, and the result is not
    /// valid.
    fn from(value: AxialCoords) -> (out: CubeCoords) {
        let s: i128 = -(value.q as i128) - value.r as i128;
        if fits(s) {
            CubeCoords { q: value.q, r: value.r, s: narrow(s) }
        } else {
            CubeCoords { q: value.q, r: value.r, s: 0 }
        }
    }
}

impl FromSpecImpl<AxialCoords> for CubeCoords {
    open spec fn obeys_from_spec() -> bool {
        true
    }

    open spec fn from_spec(value: AxialCoords) -> CubeCoords {
        CubeCoords { q: value.q, r: value.r, s: third_axis(value.q, value.r) }
    }
}

/// From axial to cube coordinates and back is the identity, and the cube
/// coordinate on the way is valid wherever its third component fits the
/// machine word.
pub proof fn lemma_axial_round_trip(a: AxialCoords)
    ensures
        <AxialCoords as FromSpec<CubeCoords>>::from_spec(
            <CubeCoords as FromSpec<AxialCoords>>::from_spec(a),
        ) == a,
        fits_word(a@.s()) ==> <CubeCoords as FromSpec<AxialCoords>>::from_spec(a)@ == a@.to_cube(),
{
}

} // verus!
