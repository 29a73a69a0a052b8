use hexmap::{AxialCoords, CubeCoords, HexCoords, HexMap};

fn axial(q: isize, r: isize) -> AxialCoords {
    AxialCoords::new(q, r)
}

fn cube(q: isize, r: isize, s: isize) -> CubeCoords {
    CubeCoords::new(q, r, s).unwrap()
}

#[derive(Clone, Debug, PartialEq)]
enum PathTestTile {
    Cheap,
    Expensive,
}

/// A cheap tile costs one unit to enter and an expensive tile four.
fn cost_fn(_start: CubeCoords, end: CubeCoords, map: &HexMap<CubeCoords, PathTestTile>) -> u64 {
    match map.get(end).unwrap() {
        PathTestTile::Cheap => 1,
        PathTestTile::Expensive => 4,
    }
}

fn path_cost(start: CubeCoords, path: &[CubeCoords], map: &HexMap<CubeCoords, PathTestTile>) -> u64 {
    let mut total = 0;
    let mut from = start;
    for step in path {
        total += cost_fn(from, *step, map);
        from = *step;
    }
    total
}

/// Ensures that a map can be made with either coordinate type
#[test]
fn map_type_compatability() {
    let mut axial_map: HexMap<AxialCoords, ()> = HexMap::new();
    axial_map.insert(axial(1, 0), ());
    assert_eq!(Some(&()), axial_map.get(axial(1, 0)));
    assert_eq!(None, axial_map.get(axial(0, 0)));

    let mut cube_map: HexMap<CubeCoords, ()> = HexMap::new();
    cube_map.insert(cube(1, 0, -1), ());
    assert_eq!(Some(&()), cube_map.get(cube(1, 0, -1)));
    assert_eq!(None, cube_map.get(cube(0, 0, 0)))
}

/// Ensures that a map can be made with either coordinate type
#[test]
fn mod_type_compatability() {
    let mut axial_map: HexMap<AxialCoords, ()> = HexMap::new();
    axial_map.insert(axial(1, 0), ());
    assert_eq!(Some(&()), axial_map.get(axial(1, 0)));
    assert_eq!(None, axial_map.get(axial(0, 0)));

    let mut cube_map: HexMap<CubeCoords, ()> = HexMap::new();
    cube_map.insert(cube(1, 0, -1), ());
    assert_eq!(Some(&()), cube_map.get(cube(1, 0, -1)));
    assert_eq!(None, cube_map.get(cube(0, 0, 0)))
}

/// Ensures that when the start and end are the same tile, a path is
/// returned with no elements in it
#[test]
fn start_is_end() {
    let start: CubeCoords = CubeCoords::zero();
    let end: CubeCoords = CubeCoords::zero();
    let map: HexMap<CubeCoords, PathTestTile> = HexMap::new();
    let path = map.find_path(start, end, cost_fn).expect("Expected to return path, got None instead");
    assert_eq!(0, path.len());
}

/// Ensures that when the start and end are adjacent, a path is returned
/// with only the end coordinates in it
#[test]
fn start_adjacent_end() {
    let start: CubeCoords = cube(0, 0, 0);
    let end: CubeCoords = cube(0, 1, -1);
    let mut map: HexMap<CubeCoords, PathTestTile> = HexMap::new();
    map.insert_area(CubeCoords::zero(), 2, PathTestTile::Cheap);
    let path = map.find_path(start, end, cost_fn).expect("Expected to return path, got None instead");
    assert_eq!(1, path.len());
    assert!(path.contains(&end));
    assert!(!path.contains(&start));
}

/// Ensures that a straight path is drawn between tiles when there is no
/// pathfinding cost factor
#[test]
fn straight_path() {
    let mut map: HexMap<CubeCoords, PathTestTile> = HexMap::new();
    map.insert_area(CubeCoords::zero(), 3, PathTestTile::Cheap);

    let path = map.find_path(cube(0, 0, 0), cube(1, 0, -1), cost_fn).unwrap();
    assert_eq!(1, path.len());
    assert_eq!(cube(1, 0, -1), path[0]);

    let path = map.find_path(cube(-1, 0, 1), cube(1, 0, -1), cost_fn).unwrap();
    assert_eq!(2, path.len());
    assert_eq!(cube(0, 0, 0), path[0]);
    assert_eq!(cube(1, 0, -1), path[1]);

    let path = map.find_path(cube(-1, 0, 1), cube(2, 0, -2), cost_fn).unwrap();
    assert_eq!(3, path.len());
    assert_eq!(cube(0, 0, 0), path[0]);
    assert_eq!(cube(1, 0, -1), path[1]);
    assert_eq!(cube(2, 0, -2), path[2]);

    let path = map.find_path(cube(-2, 0, 2), cube(2, 0, -2), cost_fn).unwrap();
    assert_eq!(4, path.len());
    assert_eq!(cube(-1, 0, 1), path[0]);
    assert_eq!(cube(0, 0, 0), path[1]);
    assert_eq!(cube(1, 0, -1), path[2]);
    assert_eq!(cube(2, 0, -2), path[3]);
}

/// Ensures that the most cost efficient path is chosen between tiles,
/// even when it isn't the straight path
#[test]
fn cost_efficient_path() {
    let start: CubeCoords = cube(-2, 0, 2);
    let end: CubeCoords = cube(2, 0, -2);
    // initialize map filled with expensive tiles
    let mut map: HexMap<CubeCoords, PathTestTile> = HexMap::new();
    map.insert_area(CubeCoords::zero(), 2, PathTestTile::Expensive);
    // insert squiggly path of cheaper to move through tiles
    map.insert(cube(-2, 0, 2), PathTestTile::Cheap);
    map.insert(cube(-1, -1, 2), PathTestTile::Cheap);
    map.insert(cube(0, -1, 1), PathTestTile::Cheap);
    map.insert(cube(0, 0, 0), PathTestTile::Cheap);
    map.insert(cube(0, 1, -1), PathTestTile::Cheap);
    map.insert(cube(1, 1, -2), PathTestTile::Cheap);
    map.insert(cube(2, 0, -2), PathTestTile::Cheap);

    let path = map
        .find_path(start, end, cost_fn)
        .expect("Expected to find path between start and end, but `None` was returned");
    assert_eq!(6, path.len());
    assert_eq!(cube(-1, -1, 2), path[0]);
    assert_eq!(cube(0, -1, 1), path[1]);
    assert_eq!(cube(0, 0, 0), path[2]);
    assert_eq!(cube(0, 1, -1), path[3]);
    assert_eq!(cube(1, 1, -2), path[4]);
    assert_eq!(cube(2, 0, -2), path[5]);
    assert_eq!(6, path_cost(start, &path, &map));
}

/// Ensures that `None` is returned when no path can be found between
/// the start and end
#[test]
fn no_path() {
    let start: CubeCoords = cube(-1, 0, 1);
    let end: CubeCoords = cube(1, 0, -1);
    let mut map: HexMap<CubeCoords, PathTestTile> = HexMap::new();
    // insert tile at start and end, but with no connecting tile between
    map.insert(start, PathTestTile::Cheap);
    map.insert(end, PathTestTile::Cheap);
    // find path - should be `None`
    let path = map.find_path(start, end, cost_fn);
    assert_eq!(None, path);
}

#[test]
fn new_map_is_empty() {
    let map: HexMap<AxialCoords, u8> = HexMap::new();
    assert_eq!(0, map.len());
    assert!(map.iter().is_empty());
    assert_eq!(None, map.get(axial(0, 0)));
}

#[test]
fn insert_overwrites() {
    let mut map: HexMap<AxialCoords, &str> = HexMap::new();
    map.insert(axial(2, -1), "first");
    assert_eq!(1, map.len());
    assert_eq!(Some(&"first"), map.get(axial(2, -1)));
    map.insert(axial(2, -1), "second");
    assert_eq!(1, map.len());
    assert_eq!(Some(&"second"), map.get(axial(2, -1)));
    assert_eq!(vec![(axial(2, -1), &"second")], map.iter());
}

#[test]
fn get_mut_changes_the_tile_in_place() {
    let mut map: HexMap<CubeCoords, u32> = HexMap::new();
    map.insert(cube(1, -1, 0), 10);
    map.insert(cube(0, 0, 0), 20);
    assert!(map.get_mut(cube(5, -5, 0)).is_none());
    match map.get_mut(cube(1, -1, 0)) {
        Some(tile) => {
            assert_eq!(10, *tile);
            *tile += 5;
        },
        None => panic!("the tile was put there"),
    }
    assert_eq!(Some(&15), map.get(cube(1, -1, 0)));
    assert_eq!(Some(&20), map.get(cube(0, 0, 0)));
    assert_eq!(2, map.len());
}

#[test]
fn keys_tell_points_apart() {
    let mut map: HexMap<AxialCoords, isize> = HexMap::new();
    let corners = [
        axial(isize::MIN, isize::MIN),
        axial(isize::MIN, isize::MAX),
        axial(isize::MAX, isize::MIN),
        axial(isize::MAX, isize::MAX),
        axial(0, -1),
        axial(-1, 0),
        axial(-1, -1),
        axial(0, 0),
    ];
    for (i, corner) in corners.iter().enumerate() {
        map.insert(*corner, i as isize);
    }
    assert_eq!(corners.len(), map.len());
    for (i, corner) in corners.iter().enumerate() {
        assert_eq!(Some(&(i as isize)), map.get(*corner));
    }
}

#[test]
fn insert_area_fills_every_point_within_the_radius() {
    let mut map: HexMap<AxialCoords, PathTestTile> = HexMap::new();
    map.insert(axial(0, 0), PathTestTile::Expensive);
    map.insert(axial(5, 5), PathTestTile::Expensive);
    map.insert_area(axial(1, 0), 2, PathTestTile::Cheap);
    assert_eq!(20, map.len());
    for q in -4isize..=6 {
        for r in -4isize..=6 {
            let here = axial(q, r);
            let expected = if AxialCoords::distance(axial(1, 0), here) <= 2 {
                Some(&PathTestTile::Cheap)
            } else if here == axial(5, 5) {
                Some(&PathTestTile::Expensive)
            } else {
                None
            };
            assert_eq!(expected, map.get(here));
        }
    }
}

#[test]
fn iter_lists_every_tile_once() {
    let mut map: HexMap<CubeCoords, u8> = HexMap::new();
    map.insert(cube(0, 0, 0), 1);
    map.insert(cube(1, 0, -1), 2);
    map.insert(cube(-3, 1, 2), 3);
    let mut tiles: Vec<(CubeCoords, u8)> = map.iter().into_iter().map(|(c, t)| (c, *t)).collect();
    tiles.sort_by_key(|(_, t)| *t);
    assert_eq!(vec![(cube(0, 0, 0), 1), (cube(1, 0, -1), 2), (cube(-3, 1, 2), 3)], tiles);
    // a second walk gives the same tiles
    assert_eq!(3, map.iter().len());
}

#[test]
fn path_to_start_is_empty_whatever_the_map_holds() {
    let mut map: HexMap<CubeCoords, PathTestTile> = HexMap::new();
    assert_eq!(Some(vec![]), map.find_path(cube(3, -1, -2), cube(3, -1, -2), cost_fn));
    map.insert_area(cube(3, -1, -2), 1, PathTestTile::Expensive);
    assert_eq!(Some(vec![]), map.find_path(cube(3, -1, -2), cube(3, -1, -2), cost_fn));
    assert_eq!(Some(vec![]), map.find_path(cube(9, -9, 0), cube(9, -9, 0), cost_fn));
}

#[test]
fn path_with_an_unpopulated_destination_is_none() {
    let mut map: HexMap<CubeCoords, PathTestTile> = HexMap::new();
    map.insert_area(CubeCoords::zero(), 1, PathTestTile::Cheap);
    assert_eq!(None, map.find_path(cube(0, 0, 0), cube(2, 0, -2), cost_fn));
}

#[test]
fn path_may_start_off_the_map() {
    let mut map: HexMap<CubeCoords, PathTestTile> = HexMap::new();
    map.insert(cube(1, 0, -1), PathTestTile::Cheap);
    map.insert(cube(2, 0, -2), PathTestTile::Cheap);
    assert_eq!(
        Some(vec![cube(1, 0, -1), cube(2, 0, -2)]),
        map.find_path(cube(0, 0, 0), cube(2, 0, -2), cost_fn)
    );
}

#[test]
fn path_among_equals_takes_the_first_discovered() {
    // Two routes of two steps lead from the origin to (1, 1, -2): by way of
    // (0, 1, -1) and by way of (1, 0, -1). The neighbours of the origin are
    // discovered in angular order, which lists (1, 0, -1) first.
    let mut map: HexMap<CubeCoords, PathTestTile> = HexMap::new();
    map.insert_area(CubeCoords::zero(), 2, PathTestTile::Cheap);
    assert_eq!(
        Some(vec![cube(1, 0, -1), cube(1, 1, -2)]),
        map.find_path(cube(0, 0, 0), cube(1, 1, -2), cost_fn)
    );
}

#[test]
fn path_costs_no_more_than_any_other_route() {
    let mut map: HexMap<CubeCoords, PathTestTile> = HexMap::new();
    map.insert_area(CubeCoords::zero(), 3, PathTestTile::Expensive);
    for point in CubeCoords::ring(CubeCoords::zero(), 3) {
        map.insert(point, PathTestTile::Cheap);
    }
    let start = cube(3, 0, -3);
    let goal = cube(-3, 0, 3);
    let path = map.find_path(start, goal, cost_fn).unwrap();
    // Half way round the outer ring: nine cheap steps. Straight across: five
    // expensive steps and a cheap one.
    assert_eq!(9, path.len());
    assert_eq!(9, path_cost(start, &path, &map));
    let across = CubeCoords::line(start, goal);
    assert_eq!(21, path_cost(start, &across[1..], &map));
    let mut from = start;
    for step in &path {
        assert_eq!(1, CubeCoords::distance(from, *step));
        assert!(map.get(*step).is_some());
        from = *step;
    }
    assert_eq!(goal, from);
}

#[test]
fn path_in_axial_coordinates() {
    let mut map: HexMap<AxialCoords, u64> = HexMap::new();
    map.insert_area(axial(0, 0), 2, 3);
    let path = map.find_path(axial(-2, 0), axial(2, 0), |_, to, m| *m.get(to).unwrap());
    assert_eq!(Some(vec![axial(-1, 0), axial(0, 0), axial(1, 0), axial(2, 0)]), path);
}

#[test]
fn path_at_the_edge_of_the_word() {
    let mut map: HexMap<AxialCoords, ()> = HexMap::new();
    let corner = axial(isize::MAX, isize::MIN);
    let beside = axial(isize::MAX - 1, isize::MIN);
    map.insert(corner, ());
    map.insert(beside, ());
    assert_eq!(Some(vec![corner]), map.find_path(beside, corner, |_, _, _| 7));
    assert_eq!(Some(vec![beside]), map.find_path(corner, beside, |_, _, _| 7));
}
