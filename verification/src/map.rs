//! The dungeon map: a grid of tiles and which of them the player has seen.
use vstd::prelude::*;
use crate::geometry::{
    lemma_index_point_roundtrip, map_idx, spec_idx, spec_in_bounds, spec_point_of, Point, NUM_TILES,
    SCREEN_HEIGHT, SCREEN_WIDTH,
};

verus! {

#[derive(Clone, Copy, Debug, PartialEq, Eq, Structural)]
pub enum TileType {
    Wall,
    Floor,
    Exit,
}

/// The tiles of the map, row by row, and for each whether the player has revealed it.
pub struct GameMap {
    pub tiles: Vec<TileType>,
    pub revealed_tiles: Vec<bool>,
}

/// Whether a tile can be walked on.
pub open spec fn spec_walkable(t: TileType) -> bool {
    t == TileType::Floor || t == TileType::Exit
}

/// The number of floor tiles among the first `n` of `tiles`.
pub open spec fn floor_count(tiles: Seq<TileType>, n: int) -> nat
    decreases n,
{
    if n <= 0 {
        0
    } else {
        floor_count(tiles, n - 1) + if tiles[n - 1] == TileType::Floor {
            1nat
        } else {
            0nat
        }
    }
}

pub proof fn lemma_floor_count_bound(tiles: Seq<TileType>, n: int)
    requires
        0 <= n,
    ensures
        floor_count(tiles, n) <= n,
    decreases n,
{
    if n > 0 {
        lemma_floor_count_bound(tiles, n - 1);
    }
}

/// Some tile among the first `n` is floor when the count of floor tiles there is positive.
pub proof fn lemma_floor_count_positive(tiles: Seq<TileType>, n: int)
    requires
        floor_count(tiles, n) > 0,
    ensures
        exists|i: int| 0 <= i < n && tiles[i] == TileType::Floor,
    decreases n,
{
    if n > 0 && tiles[n - 1] != TileType::Floor {
        lemma_floor_count_positive(tiles, n - 1);
    }
}

/// Turning tiles into floor never lowers the number of floor tiles: where every tile of `b`
/// is the tile of `a` or floor, `b` has at least as many floor tiles as `a`.
pub proof fn lemma_floor_count_monotone(a: Seq<TileType>, b: Seq<TileType>, n: int)
    requires
        forall|i: int| 0 <= i < n ==> b[i] == a[i] || b[i] == TileType::Floor,
    ensures
        floor_count(a, n) <= floor_count(b, n),
    decreases n,
{
    if n > 0 {
        lemma_floor_count_monotone(a, b, n - 1);
    }
}

impl GameMap {
    /// Both grids hold one entry per tile of the map.
    pub open spec fn wf(&self) -> bool {
        &&& self.tiles@.len() == NUM_TILES
        &&& self.revealed_tiles@.len() == NUM_TILES
    }

    /// The tile at a point of the map.
    pub open spec fn tile_at(&self, p: Point) -> TileType {
        self.tiles@[spec_idx(p)]
    }

    /// A map of floor tiles, none of them revealed.
    pub fn new() -> (m: GameMap)
        ensures
            m.wf(),
            forall|i: int| 0 <= i < NUM_TILES ==> m.tiles@[i] == TileType::Floor,
            forall|i: int| 0 <= i < NUM_TILES ==> !m.revealed_tiles@[i],
    {
        GameMap { tiles: vec![TileType::Floor; NUM_TILES], revealed_tiles: vec![false; NUM_TILES] }
    }

    pub fn in_bounds(&self, point: Point) -> (r: bool)
        ensures
            r == spec_in_bounds(point),
    {
        point.x >= 0 && point.x < SCREEN_WIDTH && point.y >= 0 && point.y < SCREEN_HEIGHT
    }

    /// Whether an entity may step onto `point`: it is on the map and its tile is walkable.
    pub fn can_enter_tile(&self, point: Point) -> (r: bool)
        requires
            self.wf(),
        ensures
            r == (spec_in_bounds(point) && spec_walkable(self.tile_at(point))),
    {
        if self.in_bounds(point) {
            proof {
                lemma_index_point_roundtrip(0, point);
            }
            let t = self.tiles[map_idx(point.x, point.y)];
            t == TileType::Floor || t == TileType::Exit
        } else {
            false
        }
    }

    /// The point of the map at index `idx`.
    pub fn index_to_point2d(&self, idx: usize) -> (r: Point)
        requires
            idx < NUM_TILES,
        ensures
            r == spec_point_of(idx as int),
            spec_in_bounds(r),
            spec_idx(r) == idx,
    {
        proof {
            lemma_index_point_roundtrip(idx as int, Point { x: 0, y: 0 });
        }
        let w = SCREEN_WIDTH as usize;
        Point { x: (idx % w) as i32, y: (idx / w) as i32 }
    }

    /// The index of a point of the map.
    pub fn point2d_to_index(&self, pt: Point) -> (r: usize)
        requires
            spec_in_bounds(pt),
        ensures
            r == spec_idx(pt),
            r < NUM_TILES,
            spec_point_of(r as int) == pt,
    {
        proof {
            lemma_index_point_roundtrip(0, pt);
        }
        map_idx(pt.x, pt.y)
    }

    /// Sets every tile to `tile`.
    pub fn fill(&mut self, tile: TileType)
        requires
            old(self).wf(),
        ensures
            final(self).wf(),
            final(self).revealed_tiles == old(self).revealed_tiles,
            forall|i: int| 0 <= i < NUM_TILES ==> final(self).tiles@[i] == tile,
    {
        let mut i: usize = 0;
        while i < self.tiles.len()
            invariant
                self.wf(),
                self.revealed_tiles == old(self).revealed_tiles,
                i <= NUM_TILES,
                forall|j: int| 0 <= j < i ==> self.tiles@[j] == tile,
            decreases NUM_TILES - i,
        {
            self.tiles.set(i, tile);
            i += 1;
        }
    }

    /// The number of floor tiles.
    pub fn count_floor(&self) -> (r: usize)
        requires
            self.wf(),
        ensures
            r == floor_count(self.tiles@, NUM_TILES as int),
    {
        let mut n: usize = 0;
        let mut i: usize = 0;
        while i < self.tiles.len()
            invariant
                self.wf(),
                i <= NUM_TILES,
                n == floor_count(self.tiles@, i as int),
            decreases NUM_TILES - i,
        {
            proof {
                lemma_floor_count_bound(self.tiles@, i as int);
            }
            if self.tiles[i] == TileType::Floor {
                n += 1;
            }
            i += 1;
        }
        n
    }
}

} // verus!
