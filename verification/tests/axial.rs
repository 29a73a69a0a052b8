use hexmap::{AxialCoords, CubeCoords, HexCoords};

fn axial(q: isize, r: isize) -> AxialCoords {
    AxialCoords::new(q, r)
}

fn cube(q: isize, r: isize, s: isize) -> CubeCoords {
    CubeCoords::new(q, r, s).unwrap()
}

#[test]
fn axial_add() {
    assert_eq!(axial(0, 0), axial(0, 0) + axial(0, 0));
    assert_eq!(axial(-1, 0), axial(1, -1) + axial(-2, 1));
    assert_eq!(axial(2, -3), axial(1, -1) + axial(1, -2));
    assert_eq!(axial(0, 0), axial(0, 0) + axial(0, 0));
}

#[test]
fn axial_distance() {
    assert_eq!(0, AxialCoords::distance(axial(0, 0), axial(0, 0)));
    assert_eq!(1, AxialCoords::distance(axial(1, -1), axial(0, 0)));
    assert_eq!(1, AxialCoords::distance(axial(1, 0), axial(0, 0)));
    assert_eq!(2, AxialCoords::distance(axial(1, 1), axial(0, 0)));
    assert_eq!(2, AxialCoords::distance(axial(-1, -1), axial(0, 0)));
    assert_eq!(1, AxialCoords::distance(axial(-1, 0), axial(0, 0)));
    assert_eq!(1, AxialCoords::distance(axial(-1, 1), axial(0, 0)));
}

#[test]
fn axial_from_cube() {
    assert_eq!(axial(0, 0), AxialCoords::from(cube(0, 0, 0)));

    assert_eq!(axial(1, 0), AxialCoords::from(cube(1, 0, -1)));
    assert_eq!(axial(0, 1), AxialCoords::from(cube(0, 1, -1)));
    assert_eq!(axial(-1, 1), AxialCoords::from(cube(-1, 1, 0)));
    assert_eq!(axial(-1, 0), AxialCoords::from(cube(-1, 0, 1)));
    assert_eq!(axial(0, -1), AxialCoords::from(cube(0, -1, 1)));
    assert_eq!(axial(1, -1), AxialCoords::from(cube(1, -1, 0)));
}

#[test]
fn axial_ring() {
    let ring = AxialCoords::ring(AxialCoords::zero(), 0);
    assert_eq!(1, ring.len());
    assert!(ring.contains(&AxialCoords::zero()));

    let ring = AxialCoords::ring(AxialCoords::zero(), 1);
    assert_eq!(6, ring.len());
    assert!(!ring.contains(&AxialCoords::zero()));
    assert!(ring.contains(&axial(1, 0)));
    assert!(ring.contains(&axial(0, 1)));
    assert!(ring.contains(&axial(-1, 1)));
    assert!(ring.contains(&axial(-1, 0)));
    assert!(ring.contains(&axial(0, -1)));
    assert!(ring.contains(&axial(1, -1)));

    let ring = AxialCoords::ring(AxialCoords::zero(), 2);
    assert_eq!(12, ring.len());
    assert!(!ring.contains(&AxialCoords::zero()));
    assert!(!ring.contains(&axial(1, 0)));
    assert!(!ring.contains(&axial(0, 1)));
    assert!(!ring.contains(&axial(-1, 1)));
    assert!(!ring.contains(&axial(-1, 0)));
    assert!(!ring.contains(&axial(0, -1)));
    assert!(!ring.contains(&axial(1, -1)));
    assert!(ring.contains(&axial(2, -2)));
    assert!(ring.contains(&axial(2, -1)));
    assert!(ring.contains(&axial(2, 0)));

    let ring = AxialCoords::ring(axial(1, -1), 0);
    assert_eq!(1, ring.len());
    assert!(ring.contains(&axial(1, -1)));

    let ring = AxialCoords::ring(axial(1, -1), 1);
    assert_eq!(6, ring.len());
    assert!(ring.contains(&axial(0, 0)));
    assert!(ring.contains(&axial(0, -1)));
    assert!(ring.contains(&axial(1, -2)));
    assert!(ring.contains(&axial(2, -2)));
    assert!(ring.contains(&axial(2, -1)));
    assert!(ring.contains(&axial(1, 0)));
}

#[test]
fn axial_coords_add() {
    assert_eq!(axial(0, 0), axial(0, 0) + axial(0, 0));
    assert_eq!(axial(-1, 0), axial(1, -1) + axial(-2, 1));
    assert_eq!(axial(2, -3), axial(1, -1) + axial(1, -2));
    assert_eq!(axial(0, 0), axial(0, 0) + axial(0, 0));
}

#[test]
fn axial_coords_distance() {
    assert_eq!(0, AxialCoords::distance(axial(0, 0), axial(0, 0)));
    assert_eq!(1, AxialCoords::distance(axial(1, -1), axial(0, 0)));
    assert_eq!(1, AxialCoords::distance(axial(1, 0), axial(0, 0)));
    assert_eq!(2, AxialCoords::distance(axial(1, 1), axial(0, 0)));
    assert_eq!(2, AxialCoords::distance(axial(-1, -1), axial(0, 0)));
    assert_eq!(1, AxialCoords::distance(axial(-1, 0), axial(0, 0)));
    assert_eq!(1, AxialCoords::distance(axial(-1, 1), axial(0, 0)));
}

#[test]
fn axial_coords_from_cube() {
    assert_eq!(axial(0, 0), AxialCoords::from(cube(0, 0, 0)));

    assert_eq!(axial(1, 0), AxialCoords::from(cube(1, 0, -1)));
    assert_eq!(axial(0, 1), AxialCoords::from(cube(0, 1, -1)));
    assert_eq!(axial(-1, 1), AxialCoords::from(cube(-1, 1, 0)));
    assert_eq!(axial(-1, 0), AxialCoords::from(cube(-1, 0, 1)));
    assert_eq!(axial(0, -1), AxialCoords::from(cube(0, -1, 1)));
    assert_eq!(axial(1, -1), AxialCoords::from(cube(1, -1, 0)));
}

#[test]
fn axial_from_cube_by_reference() {
    let c = cube(2, -5, 3);
    assert_eq!(axial(2, -5), AxialCoords::from(&c));
}

#[test]
fn axial_sub_and_mul() {
    assert_eq!(axial(3, -2), axial(1, -1) - axial(-2, 1));
    assert_eq!(axial(0, 0), axial(4, 7) - axial(4, 7));
    assert_eq!(axial(6, -9), axial(2, -3) * 3usize);
    assert_eq!(axial(0, 0), axial(2, -3) * 0usize);
}

#[test]
fn axial_units() {
    assert_eq!(axial(0, 0), AxialCoords::zero());
    assert_eq!(axial(1, 0), AxialCoords::unit_q());
    assert_eq!(axial(0, 1), AxialCoords::unit_r());
    assert_eq!(axial(-1, 1), AxialCoords::unit_s());
}

#[test]
fn axial_adjacent_in_angular_order() {
    let around = AxialCoords::adjacent(axial(3, -2));
    assert_eq!(
        vec![axial(3, -3), axial(4, -3), axial(4, -2), axial(3, -1), axial(2, -1), axial(2, -2)],
        around
    );
}

#[test]
fn axial_ring_in_order() {
    let ring = AxialCoords::ring(axial(0, 0), 2);
    assert_eq!(
        vec![
            axial(2, 0),
            axial(0, 2),
            axial(-2, 2),
            axial(-2, 0),
            axial(0, -2),
            axial(2, -2),
            axial(1, 1),
            axial(-1, 2),
            axial(-2, 1),
            axial(-1, -1),
            axial(1, -2),
            axial(2, -1),
        ],
        ring
    );
}

#[test]
fn axial_line_matches_cube_line() {
    let line = AxialCoords::line(axial(-1, 0), axial(2, -1));
    assert_eq!(vec![axial(-1, 0), axial(0, 0), axial(1, -1), axial(2, -1)], line);
    let single = AxialCoords::line(axial(4, 4), axial(4, 4));
    assert_eq!(vec![axial(4, 4)], single);
}

#[test]
fn axial_area_is_rings_in_order() {
    let area = AxialCoords::area(axial(1, 1), 2);
    assert_eq!(19, area.len());
    let mut rings = AxialCoords::ring(axial(1, 1), 0);
    rings.extend(AxialCoords::ring(axial(1, 1), 1));
    rings.extend(AxialCoords::ring(axial(1, 1), 2));
    assert_eq!(rings, area);
}

#[test]
fn axial_round_trip_through_cube() {
    for q in -6isize..=6 {
        for r in -6isize..=6 {
            let a = axial(q, r);
            let c = CubeCoords::from(a);
            assert!(c.is_valid());
            assert_eq!(a, AxialCoords::from(c));
            assert_eq!(a, c.to_axial());
            assert_eq!(c, CubeCoords::from_axial(a));
        }
    }
    let far = axial(isize::MAX, isize::MIN);
    assert_eq!(far, AxialCoords::from(CubeCoords::from(far)));
}

#[test]
fn axial_order_is_by_q_then_r() {
    assert!(axial(0, 5) < axial(1, -5));
    assert!(axial(1, -5) < axial(1, -4));
    assert!(axial(-3, 2) <= axial(-3, 2));
    assert!(axial(2, 0) > axial(1, 100));
    assert!(axial(2, 1) >= axial(2, 0));
    assert_eq!(Some(std::cmp::Ordering::Equal), axial(4, 4).partial_cmp(&axial(4, 4)));
    assert_eq!(std::cmp::Ordering::Less, axial(4, 4).cmp(&axial(4, 5)));
    let mut points = vec![axial(1, 0), axial(0, 1), axial(-1, 1), axial(0, -1), axial(1, -1)];
    points.sort();
    assert_eq!(vec![axial(-1, 1), axial(0, -1), axial(0, 1), axial(1, -1), axial(1, 0)], points);
}
