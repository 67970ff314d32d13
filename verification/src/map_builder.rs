//! Map generation: a cellular-automaton cave builder, a drunkard's-walk builder, and prefabricated
//! vaults stamped onto a generated map.
pub mod automata;
pub mod drunkards_walk;
pub mod prefab;

use vstd::prelude::*;
use bracket_lib::prelude::RandomNumberGenerator;
use crate::geometry::{
    lemma_index_point_roundtrip, spec_distance_sq, spec_idx, spec_in_bounds, spec_point_of, Point,
    NUM_TILES,
};
use crate::map::{GameMap, TileType};
use crate::rng::range_usize;

verus! {

/// A map under construction, with where monsters, the player and the amulet will be placed.
pub struct MapBuilder {
    pub map: GameMap,
    pub monster_spawns: Vec<Point>,
    pub player_start: Point,
    pub amulet_start: Point,
}

/// The most monsters a level gets.
pub const NUM_MONSTERS: usize = 50;

/// Whether tile `idx` can hold a monster: it is floor and more than ten tiles from `start`
/// (a squared distance above 100).
pub open spec fn is_spawnable(tiles: Seq<TileType>, start: Point, idx: int) -> bool {
    tiles[idx] == TileType::Floor && spec_distance_sq(start, spec_point_of(idx)) > 100
}

/// The number of tiles among the first `n` that can hold a monster.
pub open spec fn spawnable_count(tiles: Seq<TileType>, start: Point, n: int) -> nat
    decreases n,
{
    if n <= 0 {
        0
    } else {
        spawnable_count(tiles, start, n - 1) + if is_spawnable(tiles, start, n - 1) {
            1nat
        } else {
            0nat
        }
    }
}

/// Whether no two points of `s` are equal.
pub open spec fn all_distinct(s: Seq<Point>) -> bool {
    forall|a: int, b: int| 0 <= a < b < s.len() ==> #[trigger] s[a] != #[trigger] s[b]
}

/// Whether tile `idx` is reachable and the farthest of all, the last in map order among
/// equals.
pub open spec fn is_most_distant(distances: Seq<Option<u32>>, idx: int) -> bool {
    &&& 0 <= idx < NUM_TILES
    &&& distances[idx] is Some
    &&& forall|i: int|
        0 <= i < NUM_TILES ==> (#[trigger] distances[i] matches Some(e) ==> e <= distances[idx]->0)
    &&& forall|i: int|
        idx < i < NUM_TILES ==> (#[trigger] distances[i] matches Some(e) ==> e < distances[idx]->0)
}

/// The squared distance between two points of the map.
fn map_distance_sq(a: Point, b: Point) -> (d: i32)
    requires
        spec_in_bounds(a),
        spec_in_bounds(b),
    ensures
        d == spec_distance_sq(a, b),
{
    let dx = a.x - b.x;
    let dy = a.y - b.y;
    assert(0 <= dx * dx <= 6400 && 0 <= dy * dy <= 2500) by (nonlinear_arith)
        requires
            -80 < dx < 80,
            -50 < dy < 50,
    ;
    dx * dx + dy * dy
}

impl MapBuilder {
    /// Sets every tile of the map to `tile`.
    pub fn fill(&mut self, tile: TileType)
        requires
            old(self).map.wf(),
        ensures
            final(self).map.wf(),
            final(self).map.revealed_tiles == old(self).map.revealed_tiles,
            forall|i: int| 0 <= i < NUM_TILES ==> final(self).map.tiles@[i] == tile,
            final(self).monster_spawns == old(self).monster_spawns,
            final(self).player_start == old(self).player_start,
            final(self).amulet_start == old(self).amulet_start,
    {
        self.map.fill(tile);
    }

    /// Up to `NUM_MONSTERS` distinct places for monsters, drawn at random among the floor
    /// tiles more than ten tiles from `start`; all of them when there are fewer.
    pub fn spawn_monsters(&self, start: &Point, rng: &mut RandomNumberGenerator) -> (r: Vec<Point>)
        requires
            self.map.wf(),
            spec_in_bounds(*start),
        ensures
            r@.len() == if spawnable_count(self.map.tiles@, *start, NUM_TILES as int) < NUM_MONSTERS {
                spawnable_count(self.map.tiles@, *start, NUM_TILES as int)
            } else {
                NUM_MONSTERS as nat
            },
            all_distinct(r@),
            forall|k: int|
                0 <= k < r@.len() ==> spec_in_bounds(#[trigger] r@[k]) && is_spawnable(
                    self.map.tiles@,
                    *start,
                    spec_idx(r@[k]),
                ),
    {
        let ghost tiles = self.map.tiles@;
        let mut spawnable: Vec<Point> = Vec::new();
        let mut idx: usize = 0;
        while idx < NUM_TILES
            invariant
                self.map.wf(),
                tiles == self.map.tiles@,
                spec_in_bounds(*start),
                idx <= NUM_TILES,
                spawnable@.len() == spawnable_count(tiles, *start, idx as int),
                forall|k: int|
                    0 <= k < spawnable@.len() ==> spec_in_bounds(#[trigger] spawnable@[k]) && is_spawnable(
                        tiles,
                        *start,
                        spec_idx(spawnable@[k]),
                    ) && spec_idx(spawnable@[k]) < idx,
                forall|a: int, b: int|
                    0 <= a < b < spawnable@.len() ==> spec_idx(#[trigger] spawnable@[a]) < spec_idx(
                        #[trigger] spawnable@[b],
                    ),
            decreases NUM_TILES - idx,
        {
            let p = self.map.index_to_point2d(idx);
            proof {
                lemma_index_point_roundtrip(idx as int, p);
            }
            if self.map.tiles[idx] == TileType::Floor && map_distance_sq(*start, p) > 100 {
                spawnable.push(p);
            }
            idx += 1;
        }
        let ghost n = spawnable@.len();
        let mut spawns: Vec<Point> = Vec::new();
        while spawns.len() < NUM_MONSTERS && spawnable.len() > 0
            invariant
                spawns@.len() + spawnable@.len() == n,
                spawns@.len() <= NUM_MONSTERS,
                all_distinct(spawns@),
                all_distinct(spawnable@),
                forall|a: int, b: int|
                    0 <= a < spawns@.len() && 0 <= b < spawnable@.len() ==> #[trigger] spawns@[a]
                        != #[trigger] spawnable@[b],
                forall|k: int|
                    0 <= k < spawns@.len() ==> spec_in_bounds(#[trigger] spawns@[k]) && is_spawnable(
                        tiles,
                        *start,
                        spec_idx(spawns@[k]),
                    ),
                forall|k: int|
                    0 <= k < spawnable@.len() ==> spec_in_bounds(#[trigger] spawnable@[k]) && is_spawnable(
                        tiles,
                        *start,
                        spec_idx(spawnable@[k]),
                    ),
            decreases spawnable@.len(),
        {
            let t = range_usize(rng, 0, spawnable.len());
            let ghost before = spawnable@;
            let ghost spawns_before = spawns@;
            let p = spawnable.remove(t);
            spawns.push(p);
            proof {
                assert forall|k: int| 0 <= k < spawnable@.len() implies #[trigger] spawnable@[k] == before[if k < t { k } else { k + 1 }] by {}
                assert forall|a: int, b: int| 0 <= a < b < spawnable@.len() implies #[trigger] spawnable@[a] != #[trigger] spawnable@[b] by {
                    let a2 = if a < t { a } else { a + 1 };
                    let b2 = if b < t { b } else { b + 1 };
                    assert(spawnable@[a] == before[a2] && spawnable@[b] == before[b2]);
                }
                assert forall|a: int, b: int| 0 <= a < spawns@.len() && 0 <= b < spawnable@.len() implies #[trigger] spawns@[a] != #[trigger] spawnable@[b] by {
                    let b2 = if b < t { b } else { b + 1 };
                    assert(spawnable@[b] == before[b2]);
                    if a < spawns_before.len() {
                        assert(spawns@[a] == spawns_before[a]);
                    } else {
                        assert(spawns@[a] == before[t as int]);
                    }
                }
                assert forall|a: int, b: int| 0 <= a < b < spawns@.len() implies #[trigger] spawns@[a] != #[trigger] spawns@[b] by {
                    assert(spawns@[a] == spawns_before[a]);
                    if b < spawns_before.len() {
                        assert(spawns@[b] == spawns_before[b]);
                    } else {
                        assert(spawns@[b] == before[t as int]);
                    }
                }
                assert forall|k: int| 0 <= k < spawns@.len() implies spec_in_bounds(#[trigger] spawns@[k]) && is_spawnable(
                        tiles,
                        *start,
                        spec_idx(spawns@[k]),
                    ) by {
                    if k < spawns_before.len() {
                        assert(spawns@[k] == spawns_before[k]);
                    }
                }
            }
        }
        spawns
    }

    /// The reachable tile farthest from the player, the last in map order among equals, by
    /// `distances`, the pathing distances from the player's start, one per tile, `None` where
    /// unreachable; `None` when no tile is reachable.
    pub fn find_most_distant(&self, distances: &Vec<Option<u32>>) -> (r: Option<Point>)
        requires
            distances@.len() == NUM_TILES,
        ensures
            r is None <==> forall|i: int| 0 <= i < NUM_TILES ==> #[trigger] distances@[i] is None,
            r matches Some(p) ==> spec_in_bounds(p) && is_most_distant(distances@, spec_idx(p)),
    {
        let mut best: Option<(usize, u32)> = None;
        let mut i: usize = 0;
        while i < NUM_TILES
            invariant
                distances@.len() == NUM_TILES,
                i <= NUM_TILES,
                match best {
                    None => forall|j: int| 0 <= j < i ==> #[trigger] distances@[j] is None,
                    Some((b, d)) => {
                        &&& b < i
                        &&& distances@[b as int] == Some(d)
                        &&& forall|j: int| 0 <= j < i ==> (#[trigger] distances@[j] matches Some(e) ==> e <= d)
                        &&& forall|j: int| b < j < i ==> (#[trigger] distances@[j] matches Some(e) ==> e < d)
                    },
                },
            decreases NUM_TILES - i,
        {
            if let Some(d) = distances[i] {
                match best {
                    None => {
                        best = Some((i, d));
                    },
                    Some((_, bd)) => {
                        if d >= bd {
                            best = Some((i, d));
                        }
                    },
                }
            }
            i += 1;
        }
        match best {
            None => None,
            Some((b, _)) => {
                let p = self.map.index_to_point2d(b);
                Some(p)
            },
        }
    }
}

} // verus!
