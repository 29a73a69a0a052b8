//! Facts about the shapes on the lattice.

use vstd::prelude::*;
use crate::lattice::{
    adjacent,
    area,
    area_len,
    direction,
    magnitude,
    neighbor,
    ring,
    ring_offset,
    ring_point,
    Cube,
    Hex,
};

verus! {

/// A smaller area has no more points than a larger one, and a ring of a
/// radius has fewer points than the area of that radius.
pub proof fn lemma_area_len_grows(inner: nat, outer: nat)
    requires
        inner <= outer,
    ensures
        area_len(inner) <= area_len(outer),
        6 * inner <= area_len(inner),
{
    assert(3 * inner * inner + 3 * inner <= 3 * outer * outer + 3 * outer) by (nonlinear_arith)
        requires
            inner <= outer,
    ;
    assert(6 * inner <= 3 * inner * inner + 3 * inner + 1) by (nonlinear_arith);
}


/// An edge of a ring starts at a corner, which is a direction scaled by the
/// radius, and walks along the direction two places further round.
pub proof fn lemma_ring_offset_is_walk(radius: int, step: int, edge: int)
    requires
        0 <= edge < 6,
    ensures
        ring_offset(radius, step, edge) == direction(edge + 2).times(radius).plus(
            direction(edge + 4).times(step),
        ),
{
    let corner = direction(edge + 2);
    let along = direction(edge + 4);
    lemma_unit_times(corner.q, radius);
    lemma_unit_times(corner.r, radius);
    lemma_unit_times(along.q, step);
    lemma_unit_times(along.r, step);
}

/// Multiplying by a component of a unit vector keeps, drops or negates.
proof fn lemma_unit_times(u: int, x: int)
    requires
        -1 <= u <= 1,
    ensures
        u * x == if u == 1 {
            x
        } else if u == 0 {
            0
        } else {
            -x
        },
{
    assert(1 * x == x && 0 * x == 0 && (-1) * x == -x) by (nonlinear_arith);
}

/// Every point of a ring lies exactly `radius` steps from the center.
pub proof fn lemma_ring_point_distance(center: Hex, radius: int, n: int)
    requires
        radius > 0,
        0 <= n < 6 * radius,
    ensures
        center.distance(ring_point(center, radius, n)) == radius,
{
}

/// Every neighbour lies one step away.
pub proof fn lemma_neighbor_distance(center: Hex, k: int)
    ensures
        center.distance(neighbor(center, k)) == 1,
{
}


/// Distance does not depend on the direction of travel, and only a point
/// itself is at distance zero from it.
pub proof fn lemma_distance_symmetric(a: Hex, b: Hex)
    ensures
        a.distance(b) == b.distance(a),
        a.distance(b) >= 0,
        a.distance(b) == 0 <==> a == b,
        a.distance(a) == 0,
{
}

/// The distance is the largest of the three differences along the cube axes.
pub proof fn lemma_distance_is_largest_difference(a: Hex, b: Hex)
    ensures
        ({
            let dq = magnitude(a.q - b.q);
            let dr = magnitude(a.r - b.r);
            let ds = magnitude(a.s() - b.s());
            &&& a.distance(b) >= dq
            &&& a.distance(b) >= dr
            &&& a.distance(b) >= ds
            &&& a.distance(b) == dq || a.distance(b) == dr || a.distance(b) == ds
        }),
{
}

/// Going by way of a third point is never shorter.
pub proof fn lemma_distance_triangle(a: Hex, b: Hex, c: Hex)
    ensures
        a.distance(c) <= a.distance(b) + b.distance(c),
{
    lemma_distance_is_largest_difference(a, b);
    lemma_distance_is_largest_difference(b, c);
    lemma_distance_is_largest_difference(a, c);
}

/// The points one step from a point are its six neighbours and no others.
pub proof fn lemma_adjacent_is_neighbor(a: Hex, b: Hex)
    ensures
        adjacent(a, b) <==> exists|k: int| 0 <= k < 6 && b == #[trigger] neighbor(a, k),
        adjacent(a, b) <==> adjacent(b, a),
{
    if adjacent(a, b) {
        let d = b.minus(a);
        let k: int = if d.q == 0 && d.r == -1 {
            0
        } else if d.q == 1 && d.r == -1 {
            1
        } else if d.q == 1 && d.r == 0 {
            2
        } else if d.q == 0 && d.r == 1 {
            3
        } else if d.q == -1 && d.r == 1 {
            4
        } else {
            5
        };
        assert(b == neighbor(a, k));
    }
    if exists|k: int| 0 <= k < 6 && b == #[trigger] neighbor(a, k) {
        let k = choose|k: int| 0 <= k < 6 && b == #[trigger] neighbor(a, k);
        lemma_neighbor_distance(a, k);
    }
}

/// Where in the ring of the given radius around the origin the vector `d`
/// stands, if it is `radius` long.
pub open spec fn ring_index(radius: int, d: Hex) -> int {
    if d.s() == -radius && 0 <= d.r < radius {
        6 * d.r
    } else if d.r == radius && -radius < d.q <= 0 {
        6 * (-d.q) + 1
    } else if d.q == -radius && 0 < d.r <= radius {
        6 * (radius - d.r) + 2
    } else if d.s() == radius && -radius < d.r <= 0 {
        6 * (-d.r) + 3
    } else if d.r == -radius && 0 <= d.q < radius {
        6 * d.q + 4
    } else {
        6 * (d.r + radius) + 5
    }
}

/// A point of a ring stands where [`ring_index`] says.
pub proof fn lemma_ring_index_of_point(center: Hex, radius: int, n: int)
    requires
        radius > 0,
        0 <= n < 6 * radius,
    ensures
        ring_index(radius, ring_point(center, radius, n).minus(center)) == n,
{
}

/// A point at distance `radius` from the center is the point of the ring that
/// [`ring_index`] names.
pub proof fn lemma_ring_point_of_index(center: Hex, radius: int, h: Hex)
    requires
        radius > 0,
        center.distance(h) == radius,
    ensures
        0 <= ring_index(radius, h.minus(center)) < 6 * radius,
        ring_point(center, radius, ring_index(radius, h.minus(center))) == h,
{
}

/// The ring of radius zero is the center alone. A ring of a larger radius has
/// six points for each step of the radius, all of them different, none of them
/// the center, and each `radius` steps from the center.
pub proof fn lemma_ring(center: Hex, radius: nat)
    ensures
        radius == 0 ==> ring(center, radius) == seq![center],
        radius > 0 ==> ring(center, radius).len() == 6 * radius,
        radius > 0 ==> !ring(center, radius).contains(center),
        ring(center, radius).no_duplicates(),
        forall|i: int|
            0 <= i < ring(center, radius).len() ==> center.distance(
                #[trigger] ring(center, radius)[i],
            ) == radius,
{
    let points = ring(center, radius);
    if radius > 0 {
        assert forall|i: int| 0 <= i < points.len() implies center.distance(#[trigger] points[i])
            == radius by {
            lemma_ring_point_distance(center, radius as int, i);
        }
        assert forall|i: int, j: int| 0 <= i < points.len() && 0 <= j < points.len() && i != j
            implies points[i] != points[j] by {
            lemma_ring_index_of_point(center, radius as int, i);
            lemma_ring_index_of_point(center, radius as int, j);
        }
        if points.contains(center) {
            let i = choose|i: int| 0 <= i < points.len() && points[i] == center;
            lemma_ring_point_distance(center, radius as int, i);
        }
    }
}

/// A ring holds exactly the points at its radius from the center.
pub proof fn lemma_ring_contains(center: Hex, radius: nat, h: Hex)
    ensures
        ring(center, radius).contains(h) <==> center.distance(h) == radius,
{
    let points = ring(center, radius);
    lemma_ring(center, radius);
    if center.distance(h) == radius {
        if radius > 0 {
            lemma_ring_point_of_index(center, radius as int, h);
            assert(points[ring_index(radius as int, h.minus(center))] == h);
        } else {
            assert(points[0] == h);
        }
    }
}

/// An area holds exactly the points within its radius of the center, each of
/// them once: `3 * radius * radius + 3 * radius + 1` points in all.
pub proof fn lemma_area(center: Hex, radius: nat)
    ensures
        area(center, radius).len() == area_len(radius),
        area(center, radius).no_duplicates(),
        forall|h: Hex| #[trigger]
            area(center, radius).contains(h) <==> 0 <= center.distance(h) <= radius,
    decreases radius,
{
    let points = area(center, radius);
    let outer = ring(center, radius);
    lemma_ring(center, radius);
    if radius == 0 {
        assert forall|h: Hex| #[trigger] points.contains(h) <==> 0 <= center.distance(h) <= radius by {
            lemma_ring_contains(center, 0, h);
        }
    } else {
        let inner = area(center, (radius - 1) as nat);
        lemma_area(center, (radius - 1) as nat);
        assert(area_len(radius) == area_len((radius - 1) as nat) + 6 * radius) by (nonlinear_arith)
            requires
                radius > 0,
        ;
        assert forall|i: int, j: int| 0 <= i < inner.len() && 0 <= j < outer.len() implies inner[i]
            != outer[j] by {
            assert(inner.contains(inner[i]));
        }
        vstd::seq_lib::lemma_no_dup_in_concat(inner, outer);
        assert forall|h: Hex| #[trigger] points.contains(h) <==> 0 <= center.distance(h) <= radius by {
            lemma_ring_contains(center, radius, h);
            if points.contains(h) {
                let i = choose|i: int| 0 <= i < points.len() && points[i] == h;
                if i < inner.len() {
                    assert(inner[i] == h);
                    assert(inner.contains(h));
                } else {
                    assert(outer[i - inner.len()] == h);
                    assert(outer.contains(h));
                }
            }
            if inner.contains(h) {
                let i = choose|i: int| 0 <= i < inner.len() && inner[i] == h;
                assert(points[i] == h);
            }
            if outer.contains(h) {
                let j = choose|j: int| 0 <= j < outer.len() && outer[j] == h;
                assert(points[inner.len() + j] == h);
            }
        }
    }
}

/// An area is the union of the rings up to its radius.
pub proof fn lemma_area_is_union_of_rings(center: Hex, radius: nat, h: Hex)
    ensures
        area(center, radius).contains(h) <==> exists|i: nat|
            i <= radius && #[trigger] ring(center, i).contains(h),
{
    lemma_area(center, radius);
    lemma_distance_symmetric(center, h);
    if area(center, radius).contains(h) {
        let i = center.distance(h) as nat;
        lemma_ring_contains(center, i, h);
    }
    if exists|i: nat| i <= radius && #[trigger] ring(center, i).contains(h) {
        let i = choose|i: nat| i <= radius && #[trigger] ring(center, i).contains(h);
        lemma_ring_contains(center, i, h);
    }
}

/// Going from axial to cube axes and back changes nothing, and a point on the
/// plane comes back from the axial axes as it was.
pub proof fn lemma_axial_cube_round_trip(h: Hex, c: Cube)
    ensures
        h.to_cube().on_plane(),
        h.to_cube().to_hex() == h,
        c.on_plane() ==> c.to_hex().to_cube() == c,
{
}

} // verus!
