//! Why the search finds a cheapest route.
//!
//! Between two rounds the nodes form a tree rooted at the start, no searched
//! point costs more than a pending one, and every populated neighbour of a
//! searched point has been discovered at no more than the cost of going there
//! from that point. From these it follows that the pending point picked next
//! cannot be reached for less than its recorded cost.

use vstd::prelude::*;
use crate::coords::HexCoords;
use crate::lattice::{adjacent, neighbor, Hex};
use crate::lattice_laws::{lemma_adjacent_is_neighbor, lemma_neighbor_distance};
use crate::map::pathfinding::{position, without, PathNode, SearchState};
use crate::map::routes::Terrain;

verus! {

/// The start has been discovered at no cost, with nothing before it.
pub open spec fn rooted<C: HexCoords>(s: SearchState<C>, t: Terrain) -> bool {
    &&& s.nodes.contains_key(t.start)
    &&& s.nodes[t.start].prev_coords is None
    &&& s.nodes[t.start].total_cost == 0
}

/// Every other discovered point is populated and was reached by one move
/// from a searched neighbour, at that neighbour's cost plus the move's.
pub open spec fn linked<C: HexCoords>(s: SearchState<C>, t: Terrain) -> bool {
    forall|h: Hex| #[trigger]
        s.nodes.contains_key(h) && h != t.start ==> {
            &&& s.nodes[h].prev_coords matches Some(p)
            &&& p.valid()
            &&& s.searched.contains(p.hex())
            &&& adjacent(p.hex(), h)
            &&& t.populated.contains(h)
            &&& s.cost(h) == s.cost(p.hex()) + (t.weights)(p.hex(), h)
        }
}

/// Every searched point has a rank below the number of searched points, and
/// the point before it has a lower rank.
pub open spec fn ranked<C: HexCoords>(s: SearchState<C>, t: Terrain, rank: Map<Hex, nat>) -> bool {
    forall|h: Hex| #[trigger]
        s.searched.contains(h) ==> {
            &&& rank.contains_key(h)
            &&& rank[h] < s.searched.len()
            &&& h != t.start ==> (s.nodes[h].prev_coords matches Some(p) && rank.contains_key(
                p.hex(),
            ) && rank[p.hex()] < rank[h])
        }
}

/// No searched point costs more than a point that is not searched.
pub open spec fn settled<C: HexCoords>(s: SearchState<C>) -> bool {
    forall|a: Hex, b: Hex|
        #![trigger s.searched.contains(a), s.nodes.contains_key(b)]
        s.searched.contains(a) && s.nodes.contains_key(b) && !s.searched.contains(b) ==> s.cost(a)
            <= s.cost(b)
}

/// Every populated neighbour of a searched point has been discovered, at no
/// more than the point's cost plus the cost of the move.
pub open spec fn closed<C: HexCoords>(s: SearchState<C>, t: Terrain) -> bool {
    forall|u: Hex, v: Hex|
        #![trigger s.searched.contains(u), t.populated.contains(v)]
        s.searched.contains(u) && t.populated.contains(v) && adjacent(u, v) ==> s.nodes.contains_key(
            v,
        ) && s.cost(v) <= s.cost(u) + (t.weights)(u, v)
}

/// Either the start has been searched, or nothing has been searched and
/// nothing but the start discovered.
pub open spec fn seeded<C: HexCoords>(s: SearchState<C>, t: Terrain) -> bool {
    s.searched.contains(t.start) || (s.searched == Set::<Hex>::empty() && forall|h: Hex| #[trigger]
        s.nodes.contains_key(h) ==> h == t.start)
}

/// No recorded cost exceeds the largest cost of a move times the number of
/// searched points.
pub open spec fn bounded<C: HexCoords>(s: SearchState<C>) -> bool {
    forall|h: Hex| #[trigger] s.nodes.contains_key(h) ==> s.cost(h) <= s.searched.len() * u64::MAX
}

/// What holds of the state of a search between two rounds.
#[verifier::opaque]
pub open spec fn searching<C: HexCoords>(s: SearchState<C>, t: Terrain, rank: Map<Hex, nat>) -> bool {
    &&& s.consistent()
    &&& s.searched.finite()
    &&& t.weights_within(u64::MAX as int)
    &&& rooted(s, t)
    &&& linked(s, t)
    &&& ranked(s, t, rank)
    &&& settled(s)
    &&& closed(s, t)
    &&& seeded(s, t)
    &&& bounded(s)
}

/// A search that has discovered its start and nothing else is in order.
pub proof fn lemma_search_begins<C: HexCoords>(s: SearchState<C>, t: Terrain)
    requires
        t.weights_within(u64::MAX as int),
        s.pending == seq![t.start],
        s.searched == Set::<Hex>::empty(),
        s.nodes == Map::<Hex, PathNode<C>>::empty().insert(
            t.start,
            PathNode { total_cost: 0, prev_coords: None },
        ),
    ensures
        searching(s, t, Map::<Hex, nat>::empty()),
{
    reveal(searching);
    assert(s.pending[0] == t.start);
    assert forall|h: Hex| s.pending.contains(h) <==> s.nodes.contains_key(h)
        && !s.searched.contains(h) by {
        if s.nodes.contains_key(h) {
            assert(s.pending[0] == h);
        }
    }
}

/// What considering the first `count` neighbours of `source` changes: the
/// searched points stay as they are; a node is new or changed only at a
/// populated neighbour, where it then records the move from `source`, which
/// is strictly cheaper than what was known; and
/// every populated neighbour ends up discovered at no more than the cost of
/// that move.
pub proof fn lemma_expanded<C: HexCoords>(s: SearchState<C>, source: C, t: Terrain, count: nat)
    requires
        count <= 6,
        t.weights_within(u64::MAX as int),
        s.nodes.contains_key(source.hex()),
        s.cost(source.hex()) + u64::MAX <= u128::MAX,
    ensures
        ({
            let e = s.expanded(source, t.populated, t.weights, count);
            let from = source.hex();
            &&& e.searched == s.searched
            &&& forall|h: Hex|
                s.nodes.contains_key(h) ==> #[trigger] e.nodes.contains_key(h) && e.cost(h) <= s.cost(
                    h,
                )
            &&& forall|h: Hex| #[trigger]
                e.nodes.contains_key(h) ==> (s.nodes.contains_key(h) && e.nodes[h] == s.nodes[h]) || (
                adjacent(from, h) && t.populated.contains(h) && e.nodes[h] == (PathNode {
                    total_cost: (s.cost(from) + (t.weights)(from, h)) as u128,
                    prev_coords: Some(source),
                }) && (s.nodes.contains_key(h) ==> e.cost(h) < s.cost(h)))
            &&& forall|k: int|
                0 <= k < count && t.populated.contains(#[trigger] neighbor(from, k))
                    ==> e.nodes.contains_key(neighbor(from, k)) && e.cost(neighbor(from, k))
                    <= s.cost(from) + (t.weights)(from, neighbor(from, k))
        }),
    decreases count,
{
    if count > 0 {
        let from = source.hex();
        let before = s.expanded(source, t.populated, t.weights, (count - 1) as nat);
        let e = s.expanded(source, t.populated, t.weights, count);
        let next = neighbor(from, count - 1);
        lemma_expanded(s, source, t, (count - 1) as nat);
        lemma_neighbor_distance(from, count - 1);
        assert(0 <= (t.weights)(from, next) <= u64::MAX);
        assert forall|k: int|
            0 <= k < count && t.populated.contains(#[trigger] neighbor(from, k))
                implies e.nodes.contains_key(neighbor(from, k)) && e.cost(neighbor(from, k))
            <= s.cost(from) + (t.weights)(from, neighbor(from, k)) by {
            if k < count - 1 {
                assert(before.nodes.contains_key(neighbor(from, k)));
            }
        }
    }
}


/// Along a route, either some point up to step `steps` is pending and costs
/// no more than the route up to it, or the point that step `steps` starts
/// from is searched and costs no more than the route up to it.
pub proof fn lemma_route_leaves_searched<C: HexCoords>(
    s: SearchState<C>,
    t: Terrain,
    rank: Map<Hex, nat>,
    route: Seq<Hex>,
    dest: Hex,
    steps: nat,
)
    requires
        searching(s, t, rank),
        s.searched.contains(t.start),
        t.is_route(route, dest),
        steps <= route.len(),
    ensures
        (exists|i: int|
            0 <= i < steps && s.pending.contains(#[trigger] route[i]) && s.cost(route[i])
                <= t.cost_of_steps(route, (i + 1) as nat)) || (s.searched.contains(
            t.origin_of(route, steps as int),
        ) && s.cost(t.origin_of(route, steps as int)) <= t.cost_of_steps(route, steps)),
    decreases steps,
{
    reveal(searching);
    if steps > 0 {
        let fewer = (steps - 1) as nat;
        lemma_route_leaves_searched(s, t, rank, route, dest, fewer);
        let found = exists|i: int|
            0 <= i < fewer && s.pending.contains(#[trigger] route[i]) && s.cost(route[i])
                <= t.cost_of_steps(route, (i + 1) as nat);
        if found {
            let i = choose|i: int|
                0 <= i < fewer && s.pending.contains(#[trigger] route[i]) && s.cost(route[i])
                    <= t.cost_of_steps(route, (i + 1) as nat);
            assert(0 <= i < steps && s.pending.contains(route[i]) && s.cost(route[i])
                <= t.cost_of_steps(route, (i + 1) as nat));
        } else {
            let u = t.origin_of(route, fewer as int);
            let v = route[fewer as int];
            assert(t.populated.contains(v) && adjacent(u, v));
            assert(s.searched.contains(u));
            assert(s.nodes.contains_key(v) && s.cost(v) <= s.cost(u) + (t.weights)(u, v));
            if !s.searched.contains(v) {
                assert(s.pending.contains(v));
                assert(0 <= fewer < steps && s.pending.contains(route[fewer as int]) && s.cost(
                    route[fewer as int],
                ) <= t.cost_of_steps(route, (fewer + 1) as nat));
            }
        }
    }
}

/// The pending point picked next cannot be reached for less than its
/// recorded cost.
pub proof fn lemma_next_is_cheapest<C: HexCoords>(
    s: SearchState<C>,
    t: Terrain,
    rank: Map<Hex, nat>,
    h: Hex,
    route: Seq<Hex>,
)
    requires
        searching(s, t, rank),
        s.is_next(h),
        t.is_route(route, h),
    ensures
        s.cost(h) <= t.route_cost(route),
{
    reveal(searching);
    let at = choose|i: int| s.is_next_at(i) && s.pending[i] == h;
    assert(s.pending.contains(h));
    t.lemma_cost_grows(route, 0, route.len());
    if s.searched.contains(t.start) {
        lemma_route_leaves_searched(s, t, rank, route, h, route.len());
        assert(t.origin_of(route, route.len() as int) == h);
        let i = choose|i: int|
            0 <= i < route.len() && s.pending.contains(#[trigger] route[i]) && s.cost(route[i])
                <= t.cost_of_steps(route, (i + 1) as nat);
        let j = choose|j: int| 0 <= j < s.pending.len() && s.pending[j] == route[i];
        assert(s.cost(s.pending[at]) <= s.cost(s.pending[j]));
        t.lemma_cost_grows(route, (i + 1) as nat, route.len());
    } else {
        assert(h == t.start);
    }
}

/// When nothing is pending, a point that has not been searched cannot be
/// reached.
pub proof fn lemma_exhausted<C: HexCoords>(
    s: SearchState<C>,
    t: Terrain,
    rank: Map<Hex, nat>,
    dest: Hex,
)
    requires
        searching(s, t, rank),
        s.pending.len() == 0,
        !s.searched.contains(dest),
    ensures
        !t.reachable(dest),
{
    reveal(searching);
    assert(!s.pending.contains(t.start));
    if t.reachable(dest) {
        let route = choose|route: Seq<Hex>| t.is_route(route, dest);
        lemma_route_leaves_searched(s, t, rank, route, dest, route.len());
        assert(t.origin_of(route, route.len() as int) == dest);
    }
}

/// The nodes form a tree: the start is its root, and every other searched
/// point hangs from a searched point of lower rank.
#[verifier::opaque]
pub open spec fn tree<C: HexCoords>(s: SearchState<C>, t: Terrain, rank: Map<Hex, nat>) -> bool {
    &&& s.consistent()
    &&& rooted(s, t)
    &&& linked(s, t)
    &&& ranked(s, t, rank)
}

/// What the tree says of one searched point.
proof fn lemma_branch<C: HexCoords>(s: SearchState<C>, t: Terrain, rank: Map<Hex, nat>, h: Hex)
    requires
        tree(s, t, rank),
        s.searched.contains(h),
    ensures
        s.nodes.contains_key(h),
        h == t.start ==> s.nodes[h].prev_coords is None && s.cost(h) == 0,
        h != t.start ==> {
            &&& s.nodes[h].prev_coords matches Some(p)
            &&& s.searched.contains(p.hex())
            &&& rank[p.hex()] < rank[h]
            &&& adjacent(p.hex(), h)
            &&& t.populated.contains(h)
            &&& s.cost(h) == s.cost(p.hex()) + (t.weights)(p.hex(), h)
        },
{
    reveal(tree);
}

/// Following the nodes back from a searched point ends at the start; the way
/// so found is a route to the point and costs what the point's node records.
pub proof fn lemma_trail_of_searched<C: HexCoords>(
    s: SearchState<C>,
    t: Terrain,
    rank: Map<Hex, nat>,
    h: Hex,
)
    requires
        tree(s, t, rank),
        s.searched.contains(h),
    ensures
        s.trail_within(h, rank[h]) is Some,
        h == t.start ==> s.trail_within(h, rank[h])->Some_0.len() == 0,
        h != t.start ==> t.is_route(s.trail_within(h, rank[h])->Some_0, h),
        t.route_cost(s.trail_within(h, rank[h])->Some_0) == s.cost(h),
    decreases rank[h],
{
    lemma_branch(s, t, rank, h);
    if h != t.start {
        let p = s.nodes[h].prev_coords->Some_0;
        lemma_trail_of_searched(s, t, rank, p.hex());
        s.lemma_trail_fuel(p.hex(), rank[p.hex()], (rank[h] - 1) as nat);
        lemma_trail_grows(s, t, h, (rank[h] - 1) as nat);
    } else {
        assert(s.trail_within(h, rank[h]) == Some(Seq::<Hex>::empty()));
    }
}

/// The way to a point is the way to the point before it and one step more.
pub proof fn lemma_trail_grows<C: HexCoords>(s: SearchState<C>, t: Terrain, h: Hex, fuel: nat)
    requires
        s.nodes.contains_key(h),
        s.nodes[h].prev_coords is Some,
        adjacent(s.nodes[h].prev_coords->Some_0.hex(), h),
        t.populated.contains(h),
        s.cost(h) == s.cost(s.nodes[h].prev_coords->Some_0.hex()) + (t.weights)(
            s.nodes[h].prev_coords->Some_0.hex(),
            h,
        ),
        ({
            let p = s.nodes[h].prev_coords->Some_0.hex();
            let way = s.trail_within(p, fuel);
            &&& way is Some
            &&& p == t.start ==> way->Some_0.len() == 0
            &&& p != t.start ==> t.is_route(way->Some_0, p)
            &&& t.route_cost(way->Some_0) == s.cost(p)
        }),
    ensures
        s.trail_within(h, fuel + 1) is Some,
        t.is_route(s.trail_within(h, fuel + 1)->Some_0, h),
        t.route_cost(s.trail_within(h, fuel + 1)->Some_0) == s.cost(h),
{
    let p = s.nodes[h].prev_coords->Some_0.hex();
    let way = s.trail_within(p, fuel)->Some_0;
    let longer = way.push(h);
    assert(s.trail_within(h, fuel + 1) == Some(longer));
    assert forall|i: int| 0 <= i < longer.len() implies t.populated.contains(#[trigger] longer[i])
        && adjacent(t.origin_of(longer, i), longer[i]) by {
        if i < way.len() {
            assert(longer[i] == way[i]);
            assert(t.origin_of(longer, i) == t.origin_of(way, i));
        } else if p != t.start {
            assert(way.last() == p);
        }
    }
    t.lemma_cost_of_prefix(way, longer, way.len());
    assert(t.origin_of(longer, way.len() as int) == p) by {
        if p != t.start {
            assert(way.last() == p);
        }
    }
}

/// Following the nodes back from any discovered point but the start ends at
/// the start; the way so found is a route to the point and costs what the
/// point's node records.
pub proof fn lemma_trail_is_route<C: HexCoords>(
    s: SearchState<C>,
    t: Terrain,
    rank: Map<Hex, nat>,
    h: Hex,
)
    requires
        searching(s, t, rank),
        s.nodes.contains_key(h),
        h != t.start,
    ensures
        s.traceable(h),
        t.is_route(s.trail(h), h),
        t.route_cost(s.trail(h)) == s.cost(h),
{
    reveal(searching);
    reveal(tree);
    let p = s.nodes[h].prev_coords->Some_0.hex();
    lemma_trail_of_searched(s, t, rank, p);
    lemma_trail_grows(s, t, h, rank[p]);
    s.lemma_trail_fuel(h, rank[p] + 1, rank[p] + 1);
}


/// One round of the search keeps it in order: the pending point picked next
/// is expanded and then marked as searched, and takes the next rank. No cost
/// rises in a round, and the node of a searched point, the one just picked
/// included, stays as it was.
pub proof fn lemma_round<C: HexCoords>(
    s: SearchState<C>,
    t: Terrain,
    rank: Map<Hex, nat>,
    source: C,
    after: SearchState<C>,
)
    requires
        searching(s, t, rank),
        source.valid(),
        s.is_next(source.hex()),
        s.cost(source.hex()) + u64::MAX <= u128::MAX,
        after == s.expanded(source, t.populated, t.weights, 6).with_searched(source.hex()),
        after.consistent(),
    ensures
        !s.searched.contains(source.hex()),
        after.searched == s.searched.insert(source.hex()),
        after.searched.len() == s.searched.len() + 1,
        forall|h: Hex| #[trigger]
            s.nodes.contains_key(h) ==> after.nodes.contains_key(h) && after.cost(h) <= s.cost(h),
        forall|h: Hex| #[trigger] after.searched.contains(h) ==> after.nodes[h] == s.nodes[h],
        searching(after, t, rank.insert(source.hex(), s.searched.len())),
{
    reveal(searching);
    let from = source.hex();
    let base = s.cost(from);
    let e = s.expanded(source, t.populated, t.weights, 6);
    let count = s.searched.len();
    let ranks = rank.insert(from, count);
    lemma_expanded(s, source, t, 6);
    let at = choose|i: int| s.is_next_at(i) && s.pending[i] == from;
    assert(s.pending.contains(from));
    assert(s.nodes.contains_key(from) && !s.searched.contains(from));
    assert(after.nodes == e.nodes);
    crate::lattice_laws::lemma_distance_symmetric(from, from);
    // Nothing searched, and not the point itself, is changed by the expansion.
    assert(e.nodes[from] == s.nodes[from]);
    assert forall|a: Hex| s.searched.contains(a) implies #[trigger] e.nodes[a] == s.nodes[a] by {
        assert(s.nodes.contains_key(a));
        assert(e.nodes.contains_key(a));
        assert(s.cost(a) <= base);
        assert(0 <= (t.weights)(from, a));
    }
    // No pending point was cheaper than the one picked.
    assert forall|b: Hex| s.nodes.contains_key(b) && !s.searched.contains(b) implies base <= s.cost(
        b,
    ) by {
        assert(s.pending.contains(b));
        let j = choose|j: int| 0 <= j < s.pending.len() && s.pending[j] == b;
        assert(s.cost(s.pending[at]) <= s.cost(s.pending[j]));
    }
    assert(rooted(after, t)) by {
        if !s.searched.contains(t.start) {
            assert(from == t.start);
        }
    }
    assert(linked(after, t)) by {
        assert forall|h: Hex| #[trigger] after.nodes.contains_key(h) && h != t.start implies {
            &&& after.nodes[h].prev_coords matches Some(p)
            &&& p.valid()
            &&& after.searched.contains(p.hex())
            &&& adjacent(p.hex(), h)
            &&& t.populated.contains(h)
            &&& after.cost(h) == after.cost(p.hex()) + (t.weights)(p.hex(), h)
        } by {
            assert(e.nodes.contains_key(h));
            if s.nodes.contains_key(h) && e.nodes[h] == s.nodes[h] {
                let p = s.nodes[h].prev_coords->Some_0;
                assert(s.searched.contains(p.hex()));
                assert(e.nodes[p.hex()] == s.nodes[p.hex()]);
            } else {
                assert(0 <= (t.weights)(from, h) <= u64::MAX);
            }
        }
    }
    assert(ranked(after, t, ranks)) by {
        assert forall|h: Hex| #[trigger] after.searched.contains(h) implies {
            &&& ranks.contains_key(h)
            &&& ranks[h] < after.searched.len()
            &&& h != t.start ==> (after.nodes[h].prev_coords matches Some(p) && ranks.contains_key(
                p.hex(),
            ) && ranks[p.hex()] < ranks[h])
        } by {
            if h == from {
                if h != t.start {
                    let p = s.nodes[h].prev_coords->Some_0;
                    assert(s.searched.contains(p.hex()));
                }
            } else {
                assert(s.searched.contains(h));
                assert(e.nodes[h] == s.nodes[h]);
                if h != t.start {
                    let p = s.nodes[h].prev_coords->Some_0;
                    assert(rank.contains_key(p.hex()));
                    assert(s.nodes.contains_key(h));
                    assert(s.searched.contains(p.hex()));
                }
            }
        }
    }
    assert(settled(after)) by {
        assert forall|a: Hex, b: Hex|
            #![trigger after.searched.contains(a), after.nodes.contains_key(b)]
            after.searched.contains(a) && after.nodes.contains_key(b) && !after.searched.contains(
                b,
            ) implies after.cost(a) <= after.cost(b) by {
            assert(after.cost(a) <= base) by {
                if a != from {
                    assert(s.searched.contains(a));
                    assert(e.nodes[a] == s.nodes[a]);
                    assert(s.nodes.contains_key(from));
                }
            }
            assert(e.nodes.contains_key(b));
            assert(base <= after.cost(b)) by {
                if s.nodes.contains_key(b) && e.nodes[b] == s.nodes[b] {
                } else {
                    assert(0 <= (t.weights)(from, b) <= u64::MAX);
                }
            }
        }
    }
    assert(closed(after, t)) by {
        assert forall|u: Hex, v: Hex|
            #![trigger after.searched.contains(u), t.populated.contains(v)]
            after.searched.contains(u) && t.populated.contains(v) && adjacent(u, v)
                implies after.nodes.contains_key(v) && after.cost(v) <= after.cost(u) + (
            t.weights)(u, v) by {
            if u == from {
                lemma_adjacent_is_neighbor(from, v);
                let k = choose|k: int| 0 <= k < 6 && v == #[trigger] neighbor(from, k);
                assert(t.populated.contains(neighbor(from, k)));
            } else {
                assert(s.searched.contains(u));
                assert(s.nodes.contains_key(v));
                assert(e.nodes.contains_key(v));
                assert(e.nodes[u] == s.nodes[u]);
            }
        }
    }
    assert(seeded(after, t)) by {
        if !s.searched.contains(t.start) {
            assert(from == t.start);
        }
    }
    assert(bounded(after)) by {
        assert forall|h: Hex| #[trigger] after.nodes.contains_key(h) implies after.cost(h)
            <= after.searched.len() * u64::MAX by {
            assert(e.nodes.contains_key(h));
            assert(s.nodes.contains_key(from));
            if s.nodes.contains_key(h) && e.nodes[h] == s.nodes[h] {
            } else {
                assert(0 <= (t.weights)(from, h) <= u64::MAX);
            }
        }
    }
}

/// While a point is pending, fewer points have been searched than the
/// terrain has populated points and a start; the pending point's cost leaves
/// room for one more move; and the point is the start or populated.
pub proof fn lemma_searched_count<C: HexCoords>(
    s: SearchState<C>,
    t: Terrain,
    rank: Map<Hex, nat>,
    h: Hex,
)
    requires
        searching(s, t, rank),
        t.populated.finite(),
        t.populated.len() <= usize::MAX,
        s.pending.contains(h),
    ensures
        s.searched.len() <= t.populated.len(),
        s.cost(h) + u64::MAX <= u128::MAX,
        h == t.start || t.populated.contains(h),
{
    reveal(searching);
    let all = t.populated.insert(t.start);
    let others = all.remove(h);
    assert(s.nodes.contains_key(h) && !s.searched.contains(h));
    assert(all.contains(h));
    assert forall|x: Hex| s.searched.contains(x) implies others.contains(x) by {
        assert(s.nodes.contains_key(x));
    }
    vstd::set_lib::lemma_len_subset(s.searched, others);
    let n = s.searched.len();
    assert(n * u64::MAX + u64::MAX <= u128::MAX) by (nonlinear_arith)
        requires
            0 <= n <= 0xffff_ffff_ffff_ffff,
            u64::MAX == 0xffff_ffff_ffff_ffff,
            u128::MAX == 0xffff_ffff_ffff_ffff_ffff_ffff_ffff_ffff,
    ;
}

} // verus!
