//! Routes across the populated points of a map, and what they cost.

use vstd::prelude::*;
use crate::lattice::{adjacent, Hex};

verus! {

/// What a search moves across: the populated points, what each move between
/// neighbours costs, and where the search starts.
pub struct Terrain {
    /// The points that hold a tile.
    pub populated: Set<Hex>,
    /// Cost of the move from the first point to the second.
    pub weights: spec_fn(Hex, Hex) -> int,
    /// Where every route begins.
    pub start: Hex,
}

impl Terrain {
    /// The point from which the step at index `i` of `route` is taken.
    pub open spec fn origin_of(self, route: Seq<Hex>, i: int) -> Hex {
        if i == 0 {
            self.start
        } else {
            route[i - 1]
        }
    }

    /// Whether `route` leads from the start to `dest`: every step goes to a
    /// populated neighbour of the point before it, the first from the start,
    /// and the last step arrives at `dest`. The start itself is not part of
    /// the route.
    pub open spec fn is_route(self, route: Seq<Hex>, dest: Hex) -> bool {
        &&& route.len() > 0
        &&& route.last() == dest
        &&& forall|i: int|
            0 <= i < route.len() ==> self.populated.contains(#[trigger] route[i]) && adjacent(
                self.origin_of(route, i),
                route[i],
            )
    }

    /// Whether some route leads from the start to `dest`.
    pub open spec fn reachable(self, dest: Hex) -> bool {
        exists|route: Seq<Hex>| self.is_route(route, dest)
    }

    /// Cost of the first `steps` steps of `route`.
    pub open spec fn cost_of_steps(self, route: Seq<Hex>, steps: nat) -> int
        decreases steps,
    {
        if steps == 0 {
            0
        } else {
            self.cost_of_steps(route, (steps - 1) as nat) + (self.weights)(
                self.origin_of(route, steps - 1),
                route[steps - 1],
            )
        }
    }

    /// Cost of `route`: the sum of the costs of its steps.
    pub open spec fn route_cost(self, route: Seq<Hex>) -> int {
        self.cost_of_steps(route, route.len())
    }

    /// Whether no move costs less than nothing or more than `limit`.
    pub open spec fn weights_within(self, limit: int) -> bool {
        forall|a: Hex, b: Hex| 0 <= #[trigger] (self.weights)(a, b) <= limit
    }

    /// More steps of a route cost no less.
    pub proof fn lemma_cost_grows(self, route: Seq<Hex>, fewer: nat, more: nat)
        requires
            self.weights_within(u64::MAX as int),
            fewer <= more,
        ensures
            0 <= self.cost_of_steps(route, fewer) <= self.cost_of_steps(route, more),
        decreases more,
    {
        if more > fewer {
            self.lemma_cost_grows(route, fewer, (more - 1) as nat);
        } else if fewer > 0 {
            self.lemma_cost_grows(route, (fewer - 1) as nat, (fewer - 1) as nat);
        }
    }

    /// The steps of a route cost the same when more steps follow them.
    pub proof fn lemma_cost_of_prefix(self, route: Seq<Hex>, longer: Seq<Hex>, steps: nat)
        requires
            steps <= route.len() <= longer.len(),
            forall|i: int| 0 <= i < route.len() ==> route[i] == longer[i],
        ensures
            self.cost_of_steps(route, steps) == self.cost_of_steps(longer, steps),
        decreases steps,
    {
        if steps > 0 {
            self.lemma_cost_of_prefix(route, longer, (steps - 1) as nat);
        }
    }
}

} // verus!
