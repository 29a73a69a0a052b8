use hexmap::{AxialCoords, CubeCoords, HexCoords, HexMap};

fn axial(q: isize, r: isize) -> AxialCoords {
    AxialCoords::new(q, r)
}

fn cube(q: isize, r: isize, s: isize) -> CubeCoords {
    CubeCoords::new(q, r, s).unwrap()
}

fn samples() -> Vec<AxialCoords> {
    let mut out = Vec::new();
    for q in -4isize..=4 {
        for r in -4isize..=4 {
            out.push(axial(q, r));
        }
    }
    out.push(axial(17, -40));
    out.push(axial(-23, 9));
    out
}

#[test]
fn distance_is_symmetric_and_zero_on_itself() {
    let points = samples();
    for a in &points {
        assert_eq!(0, AxialCoords::distance(*a, *a));
        for b in &points {
            let there = AxialCoords::distance(*a, *b);
            assert_eq!(there, AxialCoords::distance(*b, *a));
            assert_eq!(there == 0, a == b);
            assert_eq!(there, CubeCoords::distance(CubeCoords::from(*a), CubeCoords::from(*b)));
        }
    }
}

#[test]
fn distance_is_half_the_sum_of_the_differences() {
    assert_eq!(5, AxialCoords::distance(axial(2, 3), axial(-1, 1)));
    assert_eq!(7, CubeCoords::distance(cube(4, -7, 3), cube(-1, 0, 1)));
    assert_eq!(isize::MAX, AxialCoords::distance(axial(0, 0), axial(isize::MAX, 0)));
}

#[test]
fn line_is_a_walk_from_end_to_end() {
    let points = samples();
    for a in &points {
        for b in &points {
            let line = AxialCoords::line(*a, *b);
            let steps = AxialCoords::distance(*a, *b) as usize;
            assert_eq!(steps + 1, line.len());
            assert_eq!(*a, line[0]);
            assert_eq!(*b, line[steps]);
            for i in 0..steps {
                assert_eq!(1, AxialCoords::distance(line[i], line[i + 1]), "{:?} to {:?}", a, b);
            }
        }
    }
}

#[test]
fn ring_has_six_points_for_each_step_of_the_radius() {
    for center in [axial(0, 0), axial(3, -5), axial(-7, 2)] {
        assert_eq!(vec![center], AxialCoords::ring(center, 0));
        for radius in 1usize..=6 {
            let ring = AxialCoords::ring(center, radius);
            assert_eq!(6 * radius, ring.len());
            assert!(!ring.contains(&center));
            for (i, point) in ring.iter().enumerate() {
                assert_eq!(radius as isize, AxialCoords::distance(center, *point));
                assert!(!ring[..i].contains(point));
            }
        }
    }
}

#[test]
fn ring_holds_every_point_at_its_radius() {
    let center = axial(1, -2);
    for radius in 0usize..=4 {
        let ring = AxialCoords::ring(center, radius);
        for q in -8isize..=8 {
            for r in -8isize..=8 {
                let here = axial(q, r);
                let on_ring = AxialCoords::distance(center, here) == radius as isize;
                assert_eq!(on_ring, ring.contains(&here));
            }
        }
    }
}

#[test]
fn area_is_the_union_of_its_rings() {
    for center in [cube(0, 0, 0), cube(2, -3, 1)] {
        for radius in 0usize..=5 {
            let area = CubeCoords::area(center, radius);
            assert_eq!(3 * radius * radius + 3 * radius + 1, area.len());
            let mut rings = Vec::new();
            for i in 0..=radius {
                rings.extend(CubeCoords::ring(center, i));
            }
            assert_eq!(rings, area);
            for (i, point) in area.iter().enumerate() {
                assert!(point.is_valid());
                assert!(CubeCoords::distance(center, *point) <= radius as isize);
                assert!(!area[..i].contains(point));
            }
        }
    }
}

#[test]
fn adjacent_are_the_points_one_step_away() {
    for center in samples() {
        let around = AxialCoords::adjacent(center);
        assert_eq!(6, around.len());
        assert_eq!(AxialCoords::ring(center, 1).len(), around.len());
        for (i, point) in around.iter().enumerate() {
            assert_eq!(1, AxialCoords::distance(center, *point));
            assert!(!around[..i].contains(point));
        }
    }
}

#[test]
fn overwriting_keeps_the_size_and_the_last_tile() {
    let mut map: HexMap<AxialCoords, u32> = HexMap::new();
    for (i, point) in samples().into_iter().enumerate() {
        map.insert(point, i as u32);
        let size = map.len();
        map.insert(point, 1000 + i as u32);
        assert_eq!(size, map.len());
        assert_eq!(Some(&(1000 + i as u32)), map.get(point));
    }
    assert_eq!(samples().len(), map.len());
    assert_eq!(samples().len(), map.iter().len());
}

#[test]
fn path_to_itself_is_empty() {
    let mut map: HexMap<AxialCoords, u32> = HexMap::new();
    for point in samples() {
        assert_eq!(Some(vec![]), map.find_path(point, point, |_, _, _| 1));
        map.insert(point, 0);
        assert_eq!(Some(vec![]), map.find_path(point, point, |_, _, _| 1));
    }
}

#[test]
fn path_over_even_ground_is_as_long_as_the_distance() {
    let mut map: HexMap<AxialCoords, ()> = HexMap::new();
    map.insert_area(axial(0, 0), 4, ());
    for a in AxialCoords::area(axial(0, 0), 2) {
        for b in AxialCoords::area(axial(0, 0), 4) {
            let path = map.find_path(a, b, |_, _, _| 1).unwrap();
            assert_eq!(AxialCoords::distance(a, b) as usize, path.len());
        }
    }
}
