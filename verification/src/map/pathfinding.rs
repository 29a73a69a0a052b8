//! The state of a search for a least-cost path: which points have been
//! discovered, what it costs to reach each, and from where.

use vstd::prelude::*;
use std::collections::{HashMap, HashSet};
use crate::coords::axial::neighbor_at;
use crate::coords::{lemma_named, named, HexCoords};
use crate::lattice::{neighbor, Hex};
use crate::lattice_laws::lemma_neighbor_distance;
use crate::map::keys::{in_key_range, key, key_of, lemma_key_round_trip};
use crate::map::{prices_from, HexMap};

verus! {

/// What a search knows about one point.
#[derive(Clone, Debug, PartialEq)]
pub struct PathNode<C> {
    /// Cost of the cheapest way found so far from the start to the point.
    pub total_cost: u128,
    /// The point before this one on that way; none at the start.
    pub prev_coords: Option<C>,
}

impl<C> Default for PathNode<C> {
    /// The node of a start: no cost, nothing before it.
    fn default() -> (out: Self)
        ensures
            out.total_cost == 0,
            out.prev_coords is None,
    {
        PathNode { total_cost: 0, prev_coords: None }
    }
}

/// Where `h` stands in a sequence that holds it.
pub open spec fn position(points: Seq<Hex>, h: Hex) -> int {
    choose|i: int| 0 <= i < points.len() && points[i] == h
}

/// The sequence without `h`, the rest in the order it had.
pub open spec fn without(points: Seq<Hex>, h: Hex) -> Seq<Hex> {
    if points.contains(h) {
        points.remove(position(points, h))
    } else {
        points
    }
}

/// The state of a search, as mathematics.
///
/// A point is undiscovered while it has no node. A discovered point is
/// pending until it is marked as searched.
pub struct SearchState<C> {
    /// The points still to be searched, in the order of their discovery.
    pub pending: Seq<Hex>,
    /// The points that have been searched.
    pub searched: Set<Hex>,
    /// The node of every discovered point.
    pub nodes: Map<Hex, PathNode<C>>,
}

impl<C: HexCoords> SearchState<C> {
    /// What the state must satisfy at all times: the pending points are the
    /// discovered points that are not searched, each listed once; a searched
    /// point has been discovered; and where a node names a point before it,
    /// that coordinate is valid.
    pub open spec fn consistent(self) -> bool {
        &&& self.pending.no_duplicates()
        &&& forall|h: Hex|
            self.pending.contains(h) <==> self.nodes.contains_key(h) && !self.searched.contains(h)
        &&& forall|h: Hex| self.searched.contains(h) ==> self.nodes.contains_key(h)
        &&& forall|h: Hex| #[trigger]
            self.nodes.contains_key(h) ==> (self.nodes[h].prev_coords matches Some(p) ==> p.valid())
    }

    /// Cost recorded for `h`.
    pub open spec fn cost(self, h: Hex) -> int {
        self.nodes[h].total_cost as int
    }

    /// The state after `node` is recorded for `h`, which becomes pending if it
    /// was undiscovered.
    pub open spec fn with_node(self, h: Hex, node: PathNode<C>) -> Self {
        SearchState {
            pending: if self.nodes.contains_key(h) {
                self.pending
            } else {
                self.pending.push(h)
            },
            searched: self.searched,
            nodes: self.nodes.insert(h, node),
        }
    }

    /// The state after `node` is offered for `h`: it is recorded if `h` was
    /// undiscovered or if it is strictly cheaper than the node that `h` has.
    pub open spec fn with_cheaper(self, h: Hex, node: PathNode<C>) -> Self {
        if !self.nodes.contains_key(h) {
            self.with_node(h, node)
        } else if node.total_cost < self.nodes[h].total_cost {
            SearchState { nodes: self.nodes.insert(h, node), ..self }
        } else {
            self
        }
    }

    /// The state after a move from `source` to `dest` at the given total cost
    /// has been considered.
    pub open spec fn relaxed(self, source: C, dest: Hex, cost: u128) -> Self {
        self.with_cheaper(dest, PathNode { total_cost: cost, prev_coords: Some(source) })
    }

    /// The state after `h` has been marked as searched.
    pub open spec fn with_searched(self, h: Hex) -> Self {
        SearchState {
            pending: without(self.pending, h),
            searched: self.searched.insert(h),
            nodes: self.nodes,
        }
    }

    /// The state after the first `count` neighbours of `source` have been
    /// considered, in angular order: a move to each that is populated is
    /// considered at the cost recorded for `source` plus the cost of the
    /// move.
    pub open spec fn expanded(
        self,
        source: C,
        populated: Set<Hex>,
        weights: spec_fn(Hex, Hex) -> int,
        count: nat,
    ) -> Self
        decreases count,
    {
        if count == 0 {
            self
        } else {
            let before = self.expanded(source, populated, weights, (count - 1) as nat);
            let next = neighbor(source.hex(), count - 1);
            if populated.contains(next) {
                before.relaxed(
                    source,
                    next,
                    (self.cost(source.hex()) + weights(source.hex(), next)) as u128,
                )
            } else {
                before
            }
        }
    }

    /// Whether the pending point at index `i` is the one to search next: none
    /// is cheaper, and none before it is as cheap.
    pub open spec fn is_next_at(self, i: int) -> bool {
        &&& 0 <= i < self.pending.len()
        &&& forall|j: int|
            0 <= j < self.pending.len() ==> self.cost(self.pending[i]) <= self.cost(
                #[trigger] self.pending[j],
            )
        &&& forall|j: int|
            0 <= j < i ==> self.cost(self.pending[i]) < self.cost(#[trigger] self.pending[j])
    }

    /// Whether `h` is the pending point to search next.
    pub open spec fn is_next(self, h: Hex) -> bool {
        exists|i: int| self.is_next_at(i) && self.pending[i] == h
    }

    /// The pending point to search next.
    pub open spec fn next(self) -> Hex {
        self.pending[choose|i: int| self.is_next_at(i)]
    }

    /// Only one pending point is the one to search next.
    pub proof fn lemma_next_unique(self, h: Hex)
        requires
            self.is_next(h),
        ensures
            self.next() == h,
    {
        let i = choose|i: int| self.is_next_at(i) && self.pending[i] == h;
        let j = choose|j: int| self.is_next_at(j);
        if i < j {
            assert(self.cost(self.pending[j]) < self.cost(self.pending[i]));
        } else if j < i {
            assert(self.cost(self.pending[i]) < self.cost(self.pending[j]));
        }
    }

    /// The state of a search that has discovered its start and nothing else.
    pub open spec fn begin(start: Hex) -> Self {
        SearchState {
            pending: seq![start],
            searched: Set::empty(),
            nodes: Map::empty().insert(start, PathNode { total_cost: 0, prev_coords: None }),
        }
    }

    /// What a search that goes on from this state for at most `rounds` more
    /// rounds finds: nothing if no point is pending; the way to `goal` that
    /// the nodes record if `goal` is the point to search next; else what it
    /// finds once that point has been expanded and marked as searched.
    pub open spec fn found(
        self,
        populated: Set<Hex>,
        weights: spec_fn(Hex, Hex) -> int,
        goal: Hex,
        rounds: nat,
    ) -> Option<Seq<Hex>>
        decreases rounds,
    {
        if self.pending.len() == 0 {
            None
        } else if self.next() == goal {
            Some(self.trail(goal))
        } else if rounds == 0 {
            None
        } else {
            self.expanded(named::<C>(self.next()), populated, weights, 6).with_searched(
                self.next(),
            ).found(populated, weights, goal, (rounds - 1) as nat)
        }
    }

    /// The way from the start to `h` that the nodes record, the start left
    /// out, if following the nodes back from `h` ends within `fuel` steps.
    pub open spec fn trail_within(self, h: Hex, fuel: nat) -> Option<Seq<Hex>>
        decreases fuel,
    {
        if !self.nodes.contains_key(h) {
            None
        } else {
            match self.nodes[h].prev_coords {
                None => Some(Seq::empty()),
                Some(p) => {
                    if fuel == 0 {
                        None
                    } else {
                        match self.trail_within(p.hex(), (fuel - 1) as nat) {
                            Some(way) => Some(way.push(h)),
                            None => None,
                        }
                    }
                },
            }
        }
    }

    /// Whether following the nodes back from `h` ends at a node with nothing
    /// before it.
    pub open spec fn traceable(self, h: Hex) -> bool {
        exists|fuel: nat| self.trail_within(h, fuel) is Some
    }

    /// The way from the start to `h` that the nodes record, the start left
    /// out.
    pub open spec fn trail(self, h: Hex) -> Seq<Hex> {
        let fuel = choose|fuel: nat| self.trail_within(h, fuel) is Some;
        self.trail_within(h, fuel)->Some_0
    }

    /// More fuel does not change a trail.
    pub proof fn lemma_trail_fuel(self, h: Hex, less: nat, more: nat)
        requires
            less <= more,
            self.trail_within(h, less) is Some,
        ensures
            self.trail_within(h, more) == self.trail_within(h, less),
            self.traceable(h),
            self.trail(h) == self.trail_within(h, less)->Some_0,
    {
        self.lemma_more_fuel(h, less, more);
        let fuel = choose|fuel: nat| self.trail_within(h, fuel) is Some;
        if fuel <= less {
            self.lemma_more_fuel(h, fuel, less);
        } else {
            self.lemma_more_fuel(h, less, fuel);
        }
    }

    /// A trail that ends within some fuel is the same with more.
    proof fn lemma_more_fuel(self, h: Hex, less: nat, more: nat)
        requires
            less <= more,
            self.trail_within(h, less) is Some,
        ensures
            self.trail_within(h, more) == self.trail_within(h, less),
        decreases less,
    {
        match self.nodes[h].prev_coords {
            None => {},
            Some(p) => {
                self.lemma_more_fuel(p.hex(), (less - 1) as nat, (more - 1) as nat);
            },
        }
    }
}

/// Book-keeping of a search: the nodes of the discovered points, which of
/// them are still to be searched, and which have been.
#[derive(Debug)]
pub struct PathMap<C: HexCoords> {
    /// The points still to be searched, in the order of their discovery.
    coords_to_search: Vec<C>,
    /// Keys of the points that have been searched.
    searched_coords: HashSet<u128>,
    /// The node of every discovered point, under the point's key.
    nodes: HashMap<u128, PathNode<C>>,
}

impl<C: HexCoords> PathMap<C> {
    /// The state that this value holds.
    pub closed spec fn view(&self) -> SearchState<C> {
        SearchState {
            pending: Seq::new(
                self.coords_to_search@.len(),
                |i: int| self.coords_to_search@[i].hex(),
            ),
            searched: Set::new(
                |h: Hex| in_key_range(h) && self.searched_coords@.contains(key_of(h)),
            ),
            nodes: Map::new(
                |h: Hex| in_key_range(h) && self.nodes@.contains_key(key_of(h)),
                |h: Hex| self.nodes@[key_of(h)],
            ),
        }
    }

    /// The pending coordinates are valid and the state is consistent.
    pub closed spec fn wf(&self) -> bool {
        &&& forall|i: int|
            0 <= i < self.coords_to_search@.len() ==> (#[trigger] self.coords_to_search@[i]).valid()
        &&& self@.consistent()
    }

    /// A well-formed value holds a consistent state.
    pub proof fn lemma_consistent(&self)
        requires
            self.wf(),
        ensures
            self@.consistent(),
    {
    }
}

impl<C: HexCoords> Default for PathMap<C> {
    /// A search that has discovered nothing.
    fn default() -> (out: Self)
        ensures
            out.wf(),
            out@.pending == Seq::<Hex>::empty(),
            out@.searched == Set::<Hex>::empty(),
            out@.nodes == Map::<Hex, PathNode<C>>::empty(),
    {
        let out = PathMap {
            coords_to_search: Vec::new(),
            searched_coords: HashSet::new(),
            nodes: HashMap::new(),
        };
        assert(out@.pending =~= Seq::<Hex>::empty());
        assert(out@.searched =~= Set::<Hex>::empty());
        assert(out@.nodes =~= Map::<Hex, PathNode<C>>::empty());
        out
    }
}


/// The elements of a vector in the opposite order.
fn reversed<C: Copy>(items: &Vec<C>) -> (out: Vec<C>)
    ensures
        out@ == items@.reverse(),
{
    let mut out: Vec<C> = Vec::new();
    let mut left: usize = items.len();
    while left > 0
        invariant
            0 <= left <= items@.len(),
            out@.len() == items@.len() - left,
            forall|i: int| 0 <= i < out@.len() ==> out@[i] == items@[items@.len() - 1 - i],
        decreases left,
    {
        left -= 1;
        out.push(items[left]);
    }
    assert(out@ =~= items@.reverse());
    out
}

impl<C: HexCoords> PathMap<C> {
    /// Different points in the range of the keys have different keys.
    proof fn lemma_other_keys(h: Hex)
        requires
            in_key_range(h),
        ensures
            forall|other: Hex| in_key_range(other) && other != h ==> key_of(other) != key_of(h),
    {
        assert forall|other: Hex| in_key_range(other) && other != h implies key_of(other)
            != key_of(h) by {
            lemma_key_round_trip(other, key_of(h));
            lemma_key_round_trip(h, key_of(h));
        }
    }

    /// Begins the search at `start_coords`.
    pub fn starting_from(self, start_coords: C) -> (out: Self)
        requires
            self.wf(),
            start_coords.valid(),
            !self@.searched.contains(start_coords.hex()),
        ensures
            out.wf(),
            out@ == self@.with_node(
                start_coords.hex(),
                PathNode { total_cost: 0, prev_coords: None },
            ),
    {
        let mut out = self;
        out.add_node(start_coords, PathNode::default());
        out
    }

    /// Records `node` for `coords`, in place of the node that was there, and
    /// lists the point as pending if it was undiscovered.
    ///
    /// The point must not have been searched: it would be pending and
    /// searched at once.
    pub fn add_node(&mut self, coords: C, node: PathNode<C>)
        requires
            old(self).wf(),
            coords.valid(),
            node.prev_coords matches Some(p) ==> p.valid(),
            !old(self)@.searched.contains(coords.hex()),
        ensures
            final(self).wf(),
            final(self)@ == old(self)@.with_node(coords.hex(), node),
    {
        proof {
            C::lemma_naming(coords, coords, coords.hex());
        }
        let k = key(coords.to_axial());
        proof {
            Self::lemma_other_keys(coords.hex());
        }
        let ghost before = self@;
        if !self.nodes.contains_key(&k) {
            self.coords_to_search.push(coords);
        }
        self.nodes.insert(k, node);
        proof {
            let after = before.with_node(coords.hex(), node);
            assert(self@.pending =~= after.pending);
            assert(self@.searched =~= after.searched);
            assert(self@.nodes =~= after.nodes);
            if !before.nodes.contains_key(coords.hex()) {
                assert forall|h: Hex| after.pending.contains(h) <==> before.pending.contains(h) || h
                    == coords.hex() by {
                    if before.pending.contains(h) {
                        let i = choose|i: int| 0 <= i < before.pending.len() && before.pending[i] == h;
                        assert(after.pending[i] == h);
                    }
                    if h == coords.hex() {
                        assert(after.pending[before.pending.len() as int] == h);
                    }
                }
            }
            assert(after.consistent());
        }
    }

    /// Offers `new_node` for `coords`: it is recorded if the point was
    /// undiscovered or if it is strictly cheaper than the node that is there.
    pub fn insert_node(&mut self, coords: C, new_node: PathNode<C>)
        requires
            old(self).wf(),
            coords.valid(),
            new_node.prev_coords matches Some(p) ==> p.valid(),
        ensures
            final(self).wf(),
            final(self)@ == old(self)@.with_cheaper(coords.hex(), new_node),
    {
        proof {
            C::lemma_naming(coords, coords, coords.hex());
        }
        let k = key(coords.to_axial());
        proof {
            Self::lemma_other_keys(coords.hex());
        }
        let ghost before = self@;
        let known: Option<u128> = match self.nodes.get(&k) {
            Some(node) => Some(node.total_cost),
            None => None,
        };
        match known {
            Some(cost) => {
                if new_node.total_cost < cost {
                    self.nodes.insert(k, new_node);
                    proof {
                        let after = before.with_cheaper(coords.hex(), new_node);
                        assert(self@.pending =~= after.pending);
                        assert(self@.searched =~= after.searched);
                        assert(self@.nodes =~= after.nodes);
                    }
                }
            },
            None => {
                self.add_node(coords, new_node);
            },
        }
    }

    /// The node of `coords`, if the point has been discovered.
    pub fn get_node(&self, coords: C) -> (out: Option<&PathNode<C>>)
        requires
            self.wf(),
            coords.valid(),
        ensures
            match out {
                Some(node) => self@.nodes.contains_key(coords.hex()) && *node
                    == self@.nodes[coords.hex()],
                None => !self@.nodes.contains_key(coords.hex()),
            },
    {
        proof {
            C::lemma_naming(coords, coords, coords.hex());
        }
        let k = key(coords.to_axial());
        self.nodes.get(&k)
    }

    /// Whether `coords` is still to be searched.
    pub fn is_pending(&self, coords: C) -> (out: bool)
        requires
            self.wf(),
            coords.valid(),
        ensures
            out == self@.pending.contains(coords.hex()),
    {
        proof {
            C::lemma_naming(coords, coords, coords.hex());
        }
        let k = key(coords.to_axial());
        self.nodes.contains_key(&k) && !self.searched_coords.contains(&k)
    }

    /// Whether `coords` has been searched.
    pub fn is_searched(&self, coords: C) -> (out: bool)
        requires
            self.wf(),
            coords.valid(),
        ensures
            out == self@.searched.contains(coords.hex()),
    {
        proof {
            C::lemma_naming(coords, coords, coords.hex());
        }
        let k = key(coords.to_axial());
        self.searched_coords.contains(&k)
    }

    /// Considers a move from `source` to `dest` that brings the total cost to
    /// `cost`: it is recorded if `dest` was undiscovered or if it is strictly
    /// cheaper than the way to `dest` that is known.
    pub fn eval_move(&mut self, source: C, dest: C, cost: u128)
        requires
            old(self).wf(),
            source.valid(),
            dest.valid(),
        ensures
            final(self).wf(),
            final(self)@ == old(self)@.relaxed(source, dest.hex(), cost),
    {
        self.insert_node(dest, PathNode { total_cost: cost, prev_coords: Some(source) });
    }

    /// The pending point to search next: the cheapest, and of several that are
    /// equally cheap the one discovered first.
    pub fn get_next_node(&self) -> (out: Option<C>)
        requires
            self.wf(),
        ensures
            match out {
                Some(coords) => coords.valid() && self@.is_next(coords.hex()),
                None => self@.pending.len() == 0,
            },
    {
        if self.coords_to_search.len() == 0 {
            return None;
        }
        let mut best: usize = 0;
        assert(self@.pending[0] == self.coords_to_search@[0].hex());
        let mut lowest_cost: u128 = self.cost_of(self.coords_to_search[0]);
        let mut i: usize = 1;
        while i < self.coords_to_search.len()
            invariant
                self.wf(),
                0 <= best < i <= self.coords_to_search@.len(),
                lowest_cost == self@.cost(self@.pending[best as int]),
                forall|j: int| 0 <= j < i ==> lowest_cost <= self@.cost(#[trigger] self@.pending[j]),
                forall|j: int| 0 <= j < best ==> lowest_cost < self@.cost(#[trigger] self@.pending[j]),
            decreases self.coords_to_search@.len() - i,
        {
            assert(self@.pending[i as int] == self.coords_to_search@[i as int].hex());
            let cost = self.cost_of(self.coords_to_search[i]);
            if cost < lowest_cost {
                best = i;
                lowest_cost = cost;
            }
            i += 1;
        }
        assert(self@.is_next_at(best as int));
        Some(self.coords_to_search[best])
    }

    /// Cost recorded for a pending point.
    fn cost_of(&self, coords: C) -> (out: u128)
        requires
            self.wf(),
            coords.valid(),
            self@.pending.contains(coords.hex()),
        ensures
            out == self@.cost(coords.hex()),
    {
        match self.get_node(coords) {
            Some(node) => node.total_cost,
            None => 0,
        }
    }

    /// Marks a discovered point as searched; it is pending no longer.
    pub fn set_coords_searched(&mut self, searched_coords: C)
        requires
            old(self).wf(),
            searched_coords.valid(),
            old(self)@.nodes.contains_key(searched_coords.hex()),
        ensures
            final(self).wf(),
            final(self)@ == old(self)@.with_searched(searched_coords.hex()),
    {
        proof {
            C::lemma_naming(searched_coords, searched_coords, searched_coords.hex());
        }
        let here = searched_coords.to_axial();
        let k = key(here);
        proof {
            Self::lemma_other_keys(searched_coords.hex());
        }
        let ghost before = self@;
        let ghost h = searched_coords.hex();
        let mut i: usize = 0;
        let mut found: Option<usize> = None;
        while i < self.coords_to_search.len() && found.is_none()
            invariant
                self.wf(),
                self@ == before,
                0 <= i <= self.coords_to_search@.len(),
                h == searched_coords.hex(),
                k == key_of(h),
                in_key_range(h),
                forall|other: Hex| in_key_range(other) && other != h ==> key_of(other) != key_of(h),
                match found {
                    Some(at) => at < self.coords_to_search@.len() && before.pending[at as int] == h,
                    None => forall|j: int| 0 <= j < i ==> before.pending[j] != h,
                },
            decreases self.coords_to_search@.len() - i + if found is None { 1int } else { 0int },
        {
            let c = self.coords_to_search[i];
            proof {
                C::lemma_naming(c, c, c.hex());
            }
            if key(c.to_axial()) == k {
                found = Some(i);
            } else {
                i += 1;
            }
        }
        match found {
            Some(at) => {
                self.coords_to_search.remove(at);
                proof {
                    assert(before.pending.contains(h));
                    assert(position(before.pending, h) == at);
                    assert(self@.pending =~= before.pending.remove(at as int));
                }
            },
            None => {
                assert(!before.pending.contains(h));
            },
        }
        self.searched_coords.insert(k);
        proof {
            let after = before.with_searched(h);
            assert(self@.pending =~= after.pending);
            assert(self@.searched =~= after.searched);
            assert(self@.nodes =~= after.nodes);
            assert forall|x: Hex| after.pending.contains(x) <==> before.pending.contains(x) && x
                != h by {
                if before.pending.contains(h) {
                    let at = position(before.pending, h);
                    if after.pending.contains(x) {
                        let j = choose|j: int| 0 <= j < after.pending.len() && after.pending[j] == x;
                        if j < at {
                            assert(before.pending[j] == x);
                        } else {
                            assert(before.pending[j + 1] == x);
                        }
                    }
                    if before.pending.contains(x) && x != h {
                        let j = choose|j: int| 0 <= j < before.pending.len() && before.pending[j] == x;
                        if j < at {
                            assert(after.pending[j] == x);
                        } else {
                            assert(after.pending[j - 1] == x);
                        }
                    }
                }
            }
            assert(after.pending.no_duplicates());
            assert(after.consistent());
        }
    }

    /// The way from the start to `dest` that the nodes record, the start left
    /// out and `dest` last.
    pub fn trace_path(&self, dest: C) -> (out: Vec<C>)
        requires
            self.wf(),
            dest.valid(),
            self@.traceable(dest.hex()),
        ensures
            out@.len() == self@.trail(dest.hex()).len(),
            forall|i: int|
                0 <= i < out@.len() ==> (#[trigger] out@[i]).valid() && out@[i].hex()
                    == self@.trail(dest.hex())[i],
    {
        let ghost state = self@;
        let ghost fuel = choose|fuel: nat| state.trail_within(dest.hex(), fuel) is Some;
        let ghost whole = state.trail_within(dest.hex(), fuel)->Some_0;
        proof {
            state.lemma_trail_fuel(dest.hex(), fuel, fuel);
        }
        let mut path: Vec<C> = Vec::new();
        let mut next_coords: Option<C> = Some(dest);
        let ghost mut left: nat = fuel;
        while next_coords.is_some()
            invariant
                self.wf(),
                state == self@,
                forall|i: int| 0 <= i < path@.len() ==> (#[trigger] path@[i]).valid(),
                match next_coords {
                    Some(c) => c.valid() && state.trail_within(c.hex(), left) is Some
                        && whole.len() == state.trail_within(c.hex(), left)->Some_0.len()
                        + path@.len() && (forall|i: int|
                        0 <= i < whole.len() ==> #[trigger] whole[i] == if i < whole.len()
                            - path@.len() {
                            state.trail_within(c.hex(), left)->Some_0[i]
                        } else {
                            path@[whole.len() - 1 - i].hex()
                        }),
                    None => whole.len() == path@.len() && (forall|i: int|
                        0 <= i < whole.len() ==> #[trigger] whole[i] == path@[whole.len() - 1
                            - i].hex()),
                },
            decreases left + if next_coords is Some { 1int } else { 0int },
        {
            let c = next_coords.unwrap();
            match self.get_node(c) {
                Some(node) => {
                    if node.prev_coords.is_some() {
                        path.push(c);
                    }
                    next_coords = node.prev_coords;
                    proof {
                        if node.prev_coords is Some {
                            self.lemma_consistent();
                            assert(state.nodes.contains_key(c.hex()));
                            left = (left - 1) as nat;
                        }
                    }
                },
                None => {
                    assert(false);
                    next_coords = None;
                },
            }
        }
        reversed(&path)
    }
}


impl<C: HexCoords> PathMap<C> {
    /// Considers a move from `source` to each of its populated neighbours,
    /// in angular order, at the cost recorded for `source` plus what
    /// `cost_fn` charges for the move.
    pub fn eval_coords<F, T>(&mut self, source: C, map: &HexMap<C, T>, cost_fn: F) where
        F: Fn(C, C, &HexMap<C, T>) -> u64,

        requires
            old(self).wf(),
            map.wf(),
            source.valid(),
            old(self)@.nodes.contains_key(source.hex()),
            old(self)@.cost(source.hex()) + u64::MAX <= u128::MAX,
            prices_from(cost_fn, map, source),
        ensures
            final(self).wf(),
            final(self)@ == old(self)@.expanded(source, map@.dom(), map.charges(cost_fn), 6),
    {
        self.expand(source, map, &cost_fn);
    }

    /// [`PathMap::eval_coords`] with a borrowed cost function.
    pub(crate) fn expand<F, T>(&mut self, source: C, map: &HexMap<C, T>, cost_fn: &F) where
        F: Fn(C, C, &HexMap<C, T>) -> u64,

        requires
            old(self).wf(),
            map.wf(),
            source.valid(),
            old(self)@.nodes.contains_key(source.hex()),
            old(self)@.cost(source.hex()) + u64::MAX <= u128::MAX,
            prices_from(*cost_fn, map, source),
        ensures
            final(self).wf(),
            final(self)@ == old(self)@.expanded(source, map@.dom(), map.charges(*cost_fn), 6),
    {
        let base: u128 = match self.get_node(source) {
            Some(node) => node.total_cost,
            None => 0,
        };
        let here = source.to_axial();
        let ghost populated = map@.dom();
        let ghost weights = map.charges(*cost_fn);
        let ghost begin = self@;
        let mut k: usize = 0;
        while k < 6
            invariant
                0 <= k <= 6,
                self.wf(),
                map.wf(),
                source.valid(),
                here@ == source.hex(),
                begin.nodes.contains_key(source.hex()),
                base == begin.cost(source.hex()),
                base + u64::MAX <= u128::MAX,
                populated == map@.dom(),
                weights == map.charges(*cost_fn),
                prices_from(*cost_fn, map, source),
                self@ == begin.expanded(source, populated, weights, k as nat),
            decreases 6 - k,
        {
            let ghost next = neighbor(source.hex(), k as int);
            proof {
                map.lemma_view();
                C::lemma_naming(source, source, next);
            }
            match neighbor_at(here, k) {
                Some(a) => {
                    match map.coords_of(a) {
                        Some(dest) => {
                            proof {
                                lemma_neighbor_distance(source.hex(), k as int);
                                lemma_named(source);
                                lemma_named(dest);
                            }
                            let cost = cost_fn(source, dest, map);
                            assert(cost == weights(source.hex(), next));
                            self.eval_move(source, dest, base + cost as u128);
                        },
                        None => {},
                    }
                },
                None => {},
            }
            k += 1;
        }
    }
}

} // verus!
