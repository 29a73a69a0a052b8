//! A sparse map from lattice points to tiles.

mod keys;
pub mod pathfinding;
pub mod routes;
pub mod search;
pub mod search_laws;

use vstd::prelude::*;
use std::collections::HashMap;
use vstd::pervasive::cloned;
use vstd::std_specs::iter::IteratorSpec;
use crate::coords::axial::AxialCoords;
use crate::coords::{named, HexCoords};
use crate::lattice::{adjacent, area, area_len, Hex};
use crate::lattice_laws::lemma_area;
use crate::map::keys::{in_key_range, key, key_of, lemma_key_round_trip, point_of};
use crate::map::routes::Terrain;

verus! {

/// Tiles of type `T` at lattice points that are written as `C`.
///
/// The map is read through its view, a mathematical map from lattice points
/// to tiles. A point without a tile is not in the view's domain.
pub struct HexMap<C: HexCoords, T> {
    /// The tile of each populated point, under the point's key, together
    /// with the coordinate that was given when the tile was put there.
    tiles: HashMap<u128, (C, T)>,
}

/// The tile under `key`, for changing in place.
///
/// Trusted: this is `HashMap::get_mut` of the standard library, followed by
/// picking the tile out of the entry. It gives the tile that the map holds
/// under the key, or nothing if the map holds none; what the caller writes
/// into the tile is what the map holds afterwards, and nothing else changes.
#[verifier::external_body]
fn slot_mut<'a, C, T>(tiles: &'a mut HashMap<u128, (C, T)>, key: u128) -> (out: Option<&'a mut T>)
    ensures
        match out {
            Some(tile) => old(tiles)@.contains_key(key) && *tile == old(tiles)@[key].1
                && final(tiles)@ == old(tiles)@.insert(key, (old(tiles)@[key].0, *final(tile))),
            None => !old(tiles)@.contains_key(key) && final(tiles)@ == old(tiles)@,
        },
{
    match tiles.get_mut(&key) {
        Some(entry) => Some(&mut entry.1),
        None => None,
    }
}

impl<C: HexCoords, T> HexMap<C, T> {
    /// Every entry stands under the key of its coordinate, and that
    /// coordinate is valid.
    pub closed spec fn wf(&self) -> bool {
        forall|k: u128| #[trigger]
            self.tiles@.contains_key(k) ==> self.tiles@[k].0.valid() && key_of(
                self.tiles@[k].0.hex(),
            ) == k
    }

    /// The tiles by lattice point.
    pub closed spec fn view(&self) -> Map<Hex, T> {
        Map::new(
            |h: Hex| in_key_range(h) && self.tiles@.contains_key(key_of(h)),
            |h: Hex| self.tiles@[key_of(h)].1,
        )
    }

    /// The coordinate that was given for the tile at `h`.
    pub closed spec fn coords_at(&self, h: Hex) -> C {
        self.tiles@[key_of(h)].0
    }

    /// A map holds finitely many tiles, no more than the machine can count,
    /// and the coordinate kept with each names the point it stands at.
    pub proof fn lemma_view(&self)
        requires
            self.wf(),
        ensures
            self@.dom().finite(),
            self@.dom().len() <= usize::MAX,
            forall|h: Hex| #[trigger]
                self@.contains_key(h) ==> self.coords_at(h).valid() && self.coords_at(h).hex()
                    == h && C::representable(h),
    {
        self.lemma_dom();
        assert(self.tiles@.dom().len() == vstd::std_specs::hash::spec_hash_map_len(&self.tiles));
        assert forall|h: Hex| #[trigger] self@.contains_key(h) implies self.coords_at(h).valid()
            && self.coords_at(h).hex() == h && C::representable(h) by {
            let c = self.coords_at(h);
            C::lemma_naming(c, c, c.hex());
            lemma_key_round_trip(h, key_of(h));
            lemma_key_round_trip(c.hex(), key_of(h));
        }
    }

    /// The populated points are the points of the keys, one for one.
    proof fn lemma_dom(&self)
        requires
            self.wf(),
        ensures
            self@.dom() == self.tiles@.dom().map(|k: u128| point_of(k)),
            self@.dom().finite(),
            self@.dom().len() == self.tiles@.dom().len(),
    {
        let f = |k: u128| point_of(k);
        let image = self.tiles@.dom().map(f);
        assert forall|h: Hex| self@.dom().contains(h) <==> image.contains(h) by {
            if self@.dom().contains(h) {
                lemma_key_round_trip(h, key_of(h));
                assert(self.tiles@.dom().contains(key_of(h)) && f(key_of(h)) == h);
            }
            if image.contains(h) {
                let k = choose|k: u128| self.tiles@.dom().contains(k) && f(k) == h;
                lemma_key_round_trip(h, k);
            }
        }
        assert(self@.dom() =~= image);
        assert(vstd::relations::injective_on(f, self.tiles@.dom())) by {
            assert forall|a: u128, b: u128|
                self.tiles@.dom().contains(a) && self.tiles@.dom().contains(b) && #[trigger] f(a)
                    == #[trigger] f(b) implies a == b by {
                lemma_key_round_trip(point_of(a), a);
                lemma_key_round_trip(point_of(b), b);
            }
        }
        vstd::set_lib::lemma_map_size(self.tiles@.dom(), image, f);
    }

    /// A map without tiles.
    pub fn new() -> (out: Self)
        ensures
            out.wf(),
            out@ == Map::<Hex, T>::empty(),
    {
        let out = HexMap { tiles: HashMap::new() };
        assert(out@ =~= Map::<Hex, T>::empty());
        out
    }

    /// Number of tiles.
    pub fn len(&self) -> (out: usize)
        requires
            self.wf(),
        ensures
            out == self@.dom().len(),
    {
        proof {
            self.lemma_dom();
        }
        self.tiles.len()
    }

    /// The tile at `coords`, if there is one.
    pub fn get(&self, coords: C) -> (out: Option<&T>)
        requires
            self.wf(),
            coords.valid(),
        ensures
            match out {
                Some(tile) => self@.contains_key(coords.hex()) && *tile == self@[coords.hex()],
                None => !self@.contains_key(coords.hex()),
            },
    {
        proof {
            C::lemma_naming(coords, coords, coords.hex());
        }
        let k = key(coords.to_axial());
        match self.tiles.get(&k) {
            Some(entry) => Some(&entry.1),
            None => None,
        }
    }

    /// The tile at `coords`, if there is one, for changing in place.
    pub fn get_mut(&mut self, coords: C) -> (out: Option<&mut T>)
        requires
            old(self).wf(),
            coords.valid(),
        ensures
            final(self).wf(),
            match out {
                Some(tile) => old(self)@.contains_key(coords.hex()) && *tile == old(self)@[coords.hex()]
                    && final(self)@ == old(self)@.insert(coords.hex(), *final(tile)),
                None => !old(self)@.contains_key(coords.hex()) && final(self)@ == old(self)@,
            },
    {
        proof {
            C::lemma_naming(coords, coords, coords.hex());
        }
        let k = key(coords.to_axial());
        proof {
            let before = *self;
            assert forall|after: Self, tile: T|
                before.tiles@.contains_key(k) && after.tiles@ == before.tiles@.insert(
                    k,
                    (before.tiles@[k].0, tile),
                ) implies #[trigger] after.wf() && #[trigger] before@.insert(coords.hex(), tile)
                == after@ by {
                assert forall|h: Hex| in_key_range(h) && h != coords.hex() implies key_of(h)
                    != k by {
                    lemma_key_round_trip(h, k);
                    lemma_key_round_trip(coords.hex(), k);
                }
                assert(after@ =~= before@.insert(coords.hex(), tile));
            }
        }
        slot_mut(&mut self.tiles, k)
    }

    /// Puts `tile` at `coords`, in place of the tile that was there, if any.
    pub fn insert(&mut self, coords: C, tile: T)
        requires
            old(self).wf(),
            coords.valid(),
        ensures
            final(self).wf(),
            final(self)@ == old(self)@.insert(coords.hex(), tile),
    {
        proof {
            C::lemma_naming(coords, coords, coords.hex());
        }
        let k = key(coords.to_axial());
        self.tiles.insert(k, (coords, tile));
        proof {
            assert forall|h: Hex| in_key_range(h) && h != coords.hex() implies key_of(h) != k by {
                lemma_key_round_trip(h, k);
                lemma_key_round_trip(coords.hex(), k);
            }
            assert(self@ =~= old(self)@.insert(coords.hex(), tile));
        }
    }
}


impl<C: HexCoords, T> HexMap<C, T> {
    /// Puts a clone of `tile` at every point within `radius` steps of
    /// `center`, in place of the tiles that were there.
    pub fn insert_area(&mut self, center: C, radius: usize, tile: T) where T: Clone
        requires
            old(self).wf(),
            center.valid(),
            forall|h: Hex| center.hex().distance(h) <= radius ==> #[trigger] C::representable(h),
            area_len(radius as nat) <= usize::MAX,
        ensures
            final(self).wf(),
            forall|h: Hex| #[trigger]
                final(self)@.contains_key(h) <==> old(self)@.contains_key(h) || 0
                    <= center.hex().distance(h) <= radius,
            forall|h: Hex|
                0 <= center.hex().distance(h) <= radius ==> cloned(tile, #[trigger] final(self)@[h]),
            forall|h: Hex|
                old(self)@.contains_key(h) && center.hex().distance(h) > radius
                    ==> #[trigger] final(self)@[h] == old(self)@[h],
    {
        let points = C::area(center, radius);
        let ghost targets = area(center.hex(), radius as nat);
        proof {
            lemma_area(center.hex(), radius as nat);
        }
        let mut i: usize = 0;
        while i < points.len()
            invariant
                0 <= i <= points@.len(),
                self.wf(),
                points@.len() == targets.len(),
                forall|j: int|
                    0 <= j < points@.len() ==> (#[trigger] points@[j]).valid() && points@[j].hex()
                        == targets[j],
                forall|h: Hex| #[trigger]
                    self@.contains_key(h) <==> old(self)@.contains_key(h) || targets.take(
                        i as int,
                    ).contains(h),
                forall|h: Hex|
                    targets.take(i as int).contains(h) ==> cloned(tile, #[trigger] self@[h]),
                forall|h: Hex|
                    old(self)@.contains_key(h) && !targets.take(i as int).contains(h)
                        ==> #[trigger] self@[h] == old(self)@[h],
            decreases points@.len() - i,
        {
            let ghost before = self@;
            let ghost done = targets.take(i as int);
            let ghost next = targets.take(i + 1);
            let copy = tile.clone();
            self.insert(points[i], copy);
            proof {
                let here = targets[i as int];
                assert(next =~= done.push(here));
                assert forall|h: Hex| next.contains(h) <==> done.contains(h) || h == here by {
                    if done.contains(h) {
                        let j = choose|j: int| 0 <= j < done.len() && done[j] == h;
                        assert(next[j] == h);
                    }
                    if h == here {
                        assert(next[i as int] == h);
                    }
                }
            }
            i += 1;
        }
        proof {
            assert(targets.take(i as int) =~= targets);
        }
    }

    /// Every tile with the coordinate it was given, each once, in no
    /// particular order.
    pub fn iter(&self) -> (out: Vec<(C, &T)>)
        requires
            self.wf(),
        ensures
            out@.len() == self@.dom().len(),
            forall|i: int|
                0 <= i < out@.len() ==> (#[trigger] out@[i]).0.valid() && self@.contains_key(
                    out@[i].0.hex(),
                ) && *out@[i].1 == self@[out@[i].0.hex()],
            forall|i: int, j: int|
                0 <= i < j < out@.len() ==> (#[trigger] out@[i]).0.hex() != (#[trigger] out@[j]).0.hex(),
            forall|h: Hex|
                self@.contains_key(h) ==> exists|i: int|
                    0 <= i < out@.len() && (#[trigger] out@[i]).0.hex() == h,
    {
        let mut out: Vec<(C, &T)> = Vec::new();
        proof {
            self.lemma_dom();
        }
        let ghost entries = self.tiles.iter().remaining();
        for entry in it: self.tiles.iter()
            invariant
                self.wf(),
                it.seq() == entries,
                entries.len() == self.tiles@.dom().len(),
                entries.no_duplicates(),
                out@.len() == it.index(),
                forall|i: int|
                    0 <= i < out@.len() ==> (#[trigger] out@[i]).0 == (*entries[i].1).0 && *out@[i].1
                        == (*entries[i].1).1,
        {
            let (_, value) = entry;
            out.push((value.0, &value.1));
        }
        proof {
            assert forall|i: int| 0 <= i < out@.len() implies (#[trigger] out@[i]).0.valid()
                && self@.contains_key(out@[i].0.hex()) && *out@[i].1 == self@[out@[i].0.hex()] by {
                let k = *entries[i].0;
                assert(self.tiles@.contains_key(k));
                lemma_key_round_trip(out@[i].0.hex(), k);
                C::lemma_naming(out@[i].0, out@[i].0, out@[i].0.hex());
            }
            assert forall|i: int, j: int| 0 <= i < j < out@.len() implies (#[trigger] out@[i]).0.hex()
                != (#[trigger] out@[j]).0.hex() by {
                let a = *entries[i].0;
                let b = *entries[j].0;
                assert(self.tiles@.contains_key(a));
                assert(self.tiles@.contains_key(b));
                if a == b {
                    assert(entries[i] == entries[j]);
                }
            }
            assert forall|h: Hex| self@.contains_key(h) implies exists|i: int|
                0 <= i < out@.len() && (#[trigger] out@[i]).0.hex() == h by {
                let k = key_of(h);
                let v = self.tiles@[k];
                assert(entries.contains((&k, &v)));
                let i = choose|i: int| 0 <= i < entries.len() && entries[i] == (&k, &v);
                assert(out@[i].0.hex() == h) by {
                    lemma_key_round_trip(h, k);
                }
            }
        }
        out
    }
}


/// Putting a tile where one already is replaces it: of two tiles put at the
/// same point the second stays, and the map is as large as it was after the
/// first.
pub proof fn lemma_insert_overwrites<T>(tiles: Map<Hex, T>, h: Hex, first: T, second: T)
    ensures
        tiles.insert(h, first).insert(h, second) == tiles.insert(h, second),
        tiles.insert(h, first).insert(h, second).dom() == tiles.insert(h, first).dom(),
        tiles.insert(h, first).insert(h, second).len() == tiles.insert(h, first).len(),
        tiles.insert(h, first).insert(h, second)[h] == second,
{
    assert(tiles.insert(h, first).insert(h, second) =~= tiles.insert(h, second));
    assert(tiles.insert(h, first).insert(h, second).dom() =~= tiles.insert(h, first).dom());
}

/// What `cost_fn` charges for the move from `a` to `b` across `map`.
pub open spec fn charge<C: HexCoords, T, F: Fn(C, C, &HexMap<C, T>) -> u64>(
    cost_fn: F,
    map: &HexMap<C, T>,
    a: Hex,
    b: Hex,
) -> int {
    (choose|cost: u64| call_ensures(cost_fn, (named::<C>(a), named::<C>(b), map), cost)) as int
}

/// Whether `cost_fn` can be asked for the cost of every move from `source` to
/// a populated neighbour, and answers each question in one way only.
pub open spec fn prices_from<C: HexCoords, T, F: Fn(C, C, &HexMap<C, T>) -> u64>(
    cost_fn: F,
    map: &HexMap<C, T>,
    source: C,
) -> bool {
    &&& forall|dest: C|
        dest.valid() && map@.contains_key(dest.hex()) && adjacent(source.hex(), dest.hex())
            ==> call_requires(cost_fn, (source, dest, map))
    &&& forall|dest: C, x: u64, y: u64|
        dest.valid() && map@.contains_key(dest.hex()) && adjacent(source.hex(), dest.hex())
            && call_ensures(cost_fn, (source, dest, map), x) && call_ensures(
            cost_fn,
            (source, dest, map),
            y,
        ) ==> x == y
}

/// Whether `cost_fn` prices the moves from `start` and from every populated
/// point.
pub open spec fn prices<C: HexCoords, T, F: Fn(C, C, &HexMap<C, T>) -> u64>(
    cost_fn: F,
    map: &HexMap<C, T>,
    start: Hex,
) -> bool {
    forall|source: C|
        source.valid() && (source.hex() == start || map@.contains_key(source.hex()))
            ==> prices_from(cost_fn, map, source)
}

impl<C: HexCoords, T> HexMap<C, T> {
    /// What `cost_fn` charges for each move across this map.
    pub open spec fn charges<F: Fn(C, C, &HexMap<C, T>) -> u64>(&self, cost_fn: F) -> spec_fn(
        Hex,
        Hex,
    ) -> int {
        |a: Hex, b: Hex| charge(cost_fn, self, a, b)
    }

    /// This map as the terrain of a search from `start` at the costs that
    /// `cost_fn` charges.
    pub open spec fn terrain<F: Fn(C, C, &HexMap<C, T>) -> u64>(
        &self,
        start: Hex,
        cost_fn: F,
    ) -> Terrain {
        Terrain { populated: self@.dom(), weights: self.charges(cost_fn), start }
    }

    /// The coordinate kept with the tile at the point of `a`, if there is a
    /// tile.
    pub(crate) fn coords_of(&self, a: AxialCoords) -> (out: Option<C>)
        requires
            self.wf(),
        ensures
            match out {
                Some(c) => self@.contains_key(a@) && c.valid() && c.hex() == a@,
                None => !self@.contains_key(a@),
            },
    {
        let k = key(a);
        proof {
            lemma_key_round_trip(a@, k);
        }
        match self.tiles.get(&k) {
            Some(entry) => {
                proof {
                    lemma_key_round_trip(entry.0.hex(), k);
                    C::lemma_naming(entry.0, entry.0, entry.0.hex());
                }
                Some(entry.0)
            },
            None => None,
        }
    }
}

} // verus!
