//! The search for a cheapest route across a map.

use vstd::prelude::*;
use crate::coords::{hexes, lemma_named, HexCoords};
use crate::lattice::Hex;
use crate::map::keys::{in_key_range, key, key_of, lemma_key_round_trip};
use crate::map::pathfinding::{PathMap, SearchState};
use crate::map::search_laws::{
    lemma_exhausted,
    lemma_expanded,
    lemma_next_is_cheapest,
    lemma_round,
    lemma_search_begins,
    lemma_searched_count,
    lemma_trail_is_route,
    searching,
};
use crate::map::{prices, HexMap};

verus! {

impl<C: HexCoords, T> HexMap<C, T> {
    /// A cheapest route from `start` to `destination`, if there is a route at
    /// all.
    ///
    /// A route moves from neighbour to neighbour over populated points; the
    /// start need not be populated. The result lists the points of the route
    /// in order, the start left out and the destination last; it is empty
    /// when the destination is the start. `cost_fn(a, b, map)` is the cost of
    /// the move from `a` to its populated neighbour `b`.
    ///
    /// The search is Dijkstra's. Of several pending points of the same cost
    /// it takes the one it discovered first, and it discovers the neighbours
    /// of a point in their angular order, so the route returned among
    /// equally cheap ones is always the same.
    pub fn find_path<F>(&self, start: C, destination: C, cost_fn: F) -> (out: Option<Vec<C>>) where
        F: Fn(C, C, &HexMap<C, T>) -> u64,

        requires
            self.wf(),
            start.valid(),
            destination.valid(),
            prices(cost_fn, self, start.hex()),
        ensures
            start.hex() == destination.hex() ==> (out matches Some(path) && path@.len() == 0),
            start.hex() != destination.hex() ==> match out {
                Some(path) => {
                    let terrain = self.terrain(start.hex(), cost_fn);
                    &&& forall|i: int| 0 <= i < path@.len() ==> (#[trigger] path@[i]).valid()
                    &&& terrain.is_route(hexes(path@), destination.hex())
                    &&& forall|other: Seq<Hex>| #[trigger]
                        terrain.is_route(other, destination.hex()) ==> terrain.route_cost(
                            hexes(path@),
                        ) <= terrain.route_cost(other)
                },
                None => !self.terrain(start.hex(), cost_fn).reachable(destination.hex()),
            },
            start.hex() != destination.hex() ==> SearchState::<C>::begin(start.hex()).found(
                self@.dom(),
                self.charges(cost_fn),
                destination.hex(),
                self@.dom().len() + 1,
            ) == match out {
                Some(path) => Some(hexes(path@)),
                None => None,
            },
    {
        proof {
            C::lemma_naming(start, destination, start.hex());
            C::lemma_naming(destination, start, destination.hex());
        }
        let start_key = key(start.to_axial());
        let goal_key = key(destination.to_axial());
        proof {
            lemma_key_round_trip(start.hex(), start_key);
            lemma_key_round_trip(destination.hex(), goal_key);
        }
        if start_key == goal_key {
            return Some(Vec::new());
        }
        let ghost terrain = self.terrain(start.hex(), cost_fn);
        let ghost goal = destination.hex();
        let mut pathfinder = PathMap::default().starting_from(start);
        let ghost mut rank = Map::<Hex, nat>::empty();
        proof {
            self.lemma_view();
            lemma_search_begins(pathfinder@, terrain);
        }
        let ghost size = self@.dom().len();
        let ghost begin = SearchState::<C>::begin(start.hex());
        let ghost whole = begin.found(terrain.populated, terrain.weights, goal, size + 1);
        assert(pathfinder@.pending =~= begin.pending);
        assert(pathfinder@ == begin);
        loop
            invariant
                whole == pathfinder@.found(
                    terrain.populated,
                    terrain.weights,
                    goal,
                    (size + 1 - pathfinder@.searched.len()) as nat,
                ),
                whole == SearchState::<C>::begin(start.hex()).found(
                    self@.dom(),
                    self.charges(cost_fn),
                    destination.hex(),
                    self@.dom().len() + 1,
                ),
                self.wf(),
                start.valid(),
                destination.valid(),
                prices(cost_fn, self, start.hex()),
                terrain == self.terrain(start.hex(), cost_fn),
                goal == destination.hex(),
                goal != start.hex(),
                goal_key == key_of(goal),
                in_key_range(goal),
                terrain.populated.finite(),
                terrain.populated.len() == size,
                size <= usize::MAX,
                terrain.weights_within(u64::MAX as int),
                pathfinder.wf(),
                searching(pathfinder@, terrain, rank),
                !pathfinder@.searched.contains(goal),
            decreases terrain.populated.len() + 1 - pathfinder@.searched.len(),
        {
            let ghost before = pathfinder@;
            match pathfinder.get_next_node() {
                None => {
                    proof {
                        lemma_exhausted(before, terrain, rank, goal);
                    }
                    return None;
                },
                Some(next_coords) => {
                    proof {
                        C::lemma_naming(next_coords, next_coords, next_coords.hex());
                        before.lemma_next_unique(next_coords.hex());
                        lemma_named(next_coords);
                        assert(before.pending.contains(next_coords.hex()));
                        lemma_searched_count(before, terrain, rank, next_coords.hex());
                        pathfinder.lemma_consistent();
                    }
                    let next_key = key(next_coords.to_axial());
                    if next_key == goal_key {
                        proof {
                            lemma_key_round_trip(next_coords.hex(), next_key);
                            assert(next_coords.hex() == goal);
                            lemma_trail_is_route(before, terrain, rank, goal);
                            assert forall|other: Seq<Hex>| #[trigger]
                                terrain.is_route(other, goal) implies before.cost(goal)
                                <= terrain.route_cost(other) by {
                                lemma_next_is_cheapest(before, terrain, rank, goal, other);
                            }
                        }
                        let path = pathfinder.trace_path(destination);
                        assert(hexes(path@) =~= before.trail(goal));
                        return Some(path);
                    }
                    proof {
                        lemma_key_round_trip(next_coords.hex(), next_key);
                        lemma_key_round_trip(goal, goal_key);
                    }
                    pathfinder.expand(next_coords, self, &cost_fn);
                    proof {
                        lemma_expanded(before, next_coords, terrain, 6);
                    }
                    pathfinder.set_coords_searched(next_coords);
                    proof {
                        pathfinder.lemma_consistent();
                        lemma_round(before, terrain, rank, next_coords, pathfinder@);
                        rank = rank.insert(next_coords.hex(), before.searched.len());
                    }
                },
            }
        }
    }
}

} // verus!
