use hexmap::{AxialCoords, HexMap, PathMap, PathNode};

fn axial(q: isize, r: isize) -> AxialCoords {
    AxialCoords::new(q, r)
}

#[test]
fn add_node() {
    let coords = axial(1, 0);
    let mut map = PathMap::default();
    assert_eq!(false, map.is_pending(coords));
    assert_eq!(false, map.is_searched(coords));
    assert_eq!(false, map.get_node(coords).is_some());

    let new_node = PathNode { total_cost: 1, prev_coords: Some(axial(0, 0)) };
    map.add_node(coords, new_node.clone());
    assert_eq!(true, map.is_pending(coords));
    assert_eq!(false, map.is_searched(coords));
    assert_eq!(true, map.get_node(coords).is_some());
    assert_eq!(&new_node, map.get_node(coords).unwrap());
}

#[test]
fn contains_node_at() {
    let mut map = PathMap::default();
    map.add_node(axial(0, 0), PathNode { total_cost: 0, prev_coords: None });
    assert!(map.get_node(axial(0, 0)).is_some());
    assert!(map.get_node(axial(1, 0)).is_none());
}

#[test]
fn eval_move() {
    let mut pathmap = PathMap::default();
    let source_coords = axial(1, 0);
    let dest_coords = axial(0, 1);
    pathmap.add_node(dest_coords, PathNode { total_cost: 2, prev_coords: Some(axial(0, 0)) });

    // expect the map to be unchanged, as the cost of this move was greater than the existing one
    pathmap.eval_move(source_coords, dest_coords, 3);
    let node = pathmap.get_node(dest_coords).unwrap();
    assert_eq!(2, node.total_cost);
    assert_eq!(Some(axial(0, 0)), node.prev_coords);

    // expect the map to be changed, as the cost of this move was less than than the existing one
    pathmap.eval_move(source_coords, dest_coords, 1);
    let node = pathmap.get_node(dest_coords).unwrap();
    assert_eq!(1, node.total_cost);
    assert_eq!(Some(source_coords), node.prev_coords);

    // expect that a new node is added if there isn't already one
    let new_coords = axial(-1, 0);
    assert!(pathmap.get_node(new_coords).is_none());
    pathmap.eval_move(source_coords, new_coords, 2);
    let node = pathmap.get_node(new_coords).unwrap();
    assert_eq!(2, node.total_cost);
    assert_eq!(Some(source_coords), node.prev_coords);
}

/// Costs are counted in halves: 1 stands for 0.5, 4 for 2.0 and 6 for 3.0.
#[test]
fn eval_coords() {
    let mut pathmap = PathMap::default();
    let mut map = HexMap::new();
    pathmap.insert_node(axial(0, 0), PathNode { total_cost: 0, prev_coords: None });
    map.insert(axial(0, 0), ());
    pathmap.insert_node(axial(1, 0), PathNode { total_cost: 1, prev_coords: None });
    map.insert(axial(1, 0), ());
    pathmap.insert_node(axial(0, 1), PathNode { total_cost: 6, prev_coords: Some(axial(0, 0)) });
    map.insert(axial(0, 1), ());

    pathmap.eval_coords(axial(0, 0), &map, |_, _, _| 4);
    assert_eq!(
        Some(&PathNode { total_cost: 1, prev_coords: None }),
        pathmap.get_node(axial(1, 0)),
    );
    assert_eq!(
        Some(&PathNode { total_cost: 4, prev_coords: Some(axial(0, 0)) }),
        pathmap.get_node(axial(0, 1)),
    );

    pathmap.eval_coords(axial(1, 0), &map, |_, _, _| 2);
    assert_eq!(
        Some(&PathNode { total_cost: 0, prev_coords: None }),
        pathmap.get_node(axial(0, 0)),
    );
    assert_eq!(
        Some(&PathNode { total_cost: 3, prev_coords: Some(axial(1, 0)) }),
        pathmap.get_node(axial(0, 1)),
    );
}

#[test]
fn get_next_node() {
    let mut map = PathMap::default();
    assert_eq!(None, map.get_next_node());

    let searched_coords = axial(1, -1);
    let searched_node = PathNode { total_cost: 2, prev_coords: Some(axial(0, 0)) };
    let unsearched_coords_cheap = axial(2, -2);
    let unsearched_node_cheap = PathNode { total_cost: 3, prev_coords: Some(searched_coords) };
    let unsearched_coords_expensive = axial(3, -2);
    let unsearched_node_expensive = PathNode { total_cost: 4, prev_coords: Some(searched_coords) };

    map.insert_node(searched_coords, searched_node);
    map.set_coords_searched(searched_coords);
    map.insert_node(unsearched_coords_cheap, unsearched_node_cheap);
    map.insert_node(unsearched_coords_expensive, unsearched_node_expensive);

    assert_eq!(Some(unsearched_coords_cheap), map.get_next_node());
    map.set_coords_searched(unsearched_coords_cheap);
    assert_eq!(Some(unsearched_coords_expensive), map.get_next_node());
    map.set_coords_searched(unsearched_coords_expensive);
    assert_eq!(None, map.get_next_node());
}

#[test]
fn insert_node() {
    let coords = axial(0, 0);
    let mut map = PathMap::default();
    assert_eq!(false, map.is_pending(coords));
    assert_eq!(false, map.is_searched(coords));
    assert_eq!(false, map.get_node(coords).is_some());

    // Test adding a node to an empty map
    let node = PathNode { total_cost: 2, prev_coords: None };
    map.insert_node(coords, node.clone());
    assert_eq!(true, map.is_pending(coords), "the pending points did not contain the added node");
    assert_eq!(false, map.is_searched(coords), "the searched points contain the added node when they should not");
    assert_eq!(true, map.get_node(coords).is_some(), "the nodes did not contain the added node");
    assert_eq!(&node, map.get_node(coords).unwrap(), "Node at coordinates did not match the node added");

    // New node has greater cost than the existing node, so it does NOT replace the existing node
    let new_node = PathNode { total_cost: 3, prev_coords: Some(axial(1, 0)) };
    map.insert_node(coords, new_node.clone());
    assert_eq!(true, map.is_pending(coords));
    assert_eq!(false, map.is_searched(coords), "the searched points contain the added node when they should not");
    assert_eq!(true, map.get_node(coords).is_some());
    assert_eq!(
        &node,
        map.get_node(coords).unwrap(),
        "Node was updated with new higher cost node when it should not have been"
    );

    // New node has less cost than the existing node, so it DOES replace the existing node
    let new_node = PathNode { total_cost: 1, prev_coords: Some(axial(1, 0)) };
    map.insert_node(coords, new_node.clone());
    assert_eq!(true, map.is_pending(coords));
    assert_eq!(false, map.is_searched(coords), "the searched points contain the added node when they should not");
    assert_eq!(true, map.get_node(coords).is_some());
    assert_eq!(
        &new_node,
        map.get_node(coords).unwrap(),
        "Existing node was not updated with the new lower cost node"
    );
}

#[test]
fn default_node_is_a_start() {
    let node: PathNode<AxialCoords> = PathNode::default();
    assert_eq!(PathNode { total_cost: 0, prev_coords: None }, node);
}

#[test]
fn starting_from_discovers_the_start() {
    let map = PathMap::default().starting_from(axial(4, -2));
    assert!(map.is_pending(axial(4, -2)));
    assert!(!map.is_searched(axial(4, -2)));
    assert_eq!(Some(&PathNode { total_cost: 0, prev_coords: None }), map.get_node(axial(4, -2)));
    assert_eq!(Some(axial(4, -2)), map.get_next_node());
}

#[test]
fn set_coords_searched_moves_the_point() {
    let mut map = PathMap::default().starting_from(axial(0, 0));
    map.eval_move(axial(0, 0), axial(1, 0), 5);
    map.set_coords_searched(axial(0, 0));
    assert!(!map.is_pending(axial(0, 0)));
    assert!(map.is_searched(axial(0, 0)));
    assert!(map.is_pending(axial(1, 0)));
    assert_eq!(Some(axial(1, 0)), map.get_next_node());
    // marking it again changes nothing
    map.set_coords_searched(axial(0, 0));
    assert!(map.is_searched(axial(0, 0)));
    assert_eq!(Some(axial(1, 0)), map.get_next_node());
}

#[test]
fn get_next_node_takes_the_first_of_the_cheapest() {
    let mut map = PathMap::default();
    map.add_node(axial(3, 0), PathNode { total_cost: 7, prev_coords: None });
    map.add_node(axial(1, 0), PathNode { total_cost: 5, prev_coords: None });
    map.add_node(axial(2, 0), PathNode { total_cost: 5, prev_coords: None });
    assert_eq!(Some(axial(1, 0)), map.get_next_node());
    map.set_coords_searched(axial(1, 0));
    assert_eq!(Some(axial(2, 0)), map.get_next_node());
    // a cheaper node for a point keeps the point's place in the order
    map.insert_node(axial(3, 0), PathNode { total_cost: 5, prev_coords: None });
    assert_eq!(Some(axial(3, 0)), map.get_next_node());
}

#[test]
fn eval_move_may_lower_a_searched_point() {
    let mut map = PathMap::default().starting_from(axial(0, 0));
    map.eval_move(axial(0, 0), axial(1, 0), 9);
    map.set_coords_searched(axial(1, 0));
    map.eval_move(axial(0, 1), axial(1, 0), 4);
    assert_eq!(
        Some(&PathNode { total_cost: 4, prev_coords: Some(axial(0, 1)) }),
        map.get_node(axial(1, 0))
    );
    assert!(map.is_searched(axial(1, 0)));
    assert!(!map.is_pending(axial(1, 0)));
}

#[test]
fn trace_path_follows_the_nodes_back() {
    let mut map = PathMap::default().starting_from(axial(0, 0));
    map.eval_move(axial(0, 0), axial(1, 0), 1);
    map.eval_move(axial(1, 0), axial(2, 0), 2);
    map.eval_move(axial(2, 0), axial(2, 1), 3);
    assert_eq!(vec![axial(1, 0), axial(2, 0), axial(2, 1)], map.trace_path(axial(2, 1)));
    assert_eq!(vec![axial(1, 0)], map.trace_path(axial(1, 0)));
    assert_eq!(Vec::<AxialCoords>::new(), map.trace_path(axial(0, 0)));
}

#[test]
fn eval_coords_skips_unpopulated_neighbours() {
    let mut map: HexMap<AxialCoords, u64> = HexMap::new();
    map.insert(axial(1, 0), 10);
    map.insert(axial(0, 1), 20);
    map.insert(axial(2, 0), 30);
    let mut search = PathMap::default();
    search.add_node(axial(0, 0), PathNode { total_cost: 100, prev_coords: None });
    search.eval_coords(axial(0, 0), &map, |_, to, m| *m.get(to).unwrap());
    assert_eq!(
        Some(&PathNode { total_cost: 110, prev_coords: Some(axial(0, 0)) }),
        search.get_node(axial(1, 0))
    );
    assert_eq!(
        Some(&PathNode { total_cost: 120, prev_coords: Some(axial(0, 0)) }),
        search.get_node(axial(0, 1))
    );
    assert_eq!(None, search.get_node(axial(2, 0)));
    assert_eq!(None, search.get_node(axial(-1, 0)));
    // the neighbours were discovered in angular order
    search.set_coords_searched(axial(0, 0));
    search.insert_node(axial(0, 1), PathNode { total_cost: 110, prev_coords: None });
    assert_eq!(Some(axial(1, 0)), search.get_next_node());
}
