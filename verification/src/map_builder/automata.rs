//! Caves grown by a cellular automaton from random noise.
use vstd::prelude::*;
use bracket_lib::prelude::RandomNumberGenerator;
use crate::geometry::{
    lemma_index_point_roundtrip, map_idx, spec_distance_sq, spec_idx, spec_in_bounds,
    spec_point_of, Point, NUM_TILES, SCREEN_HEIGHT, SCREEN_WIDTH,
};
use crate::map::{floor_count, lemma_floor_count_positive, GameMap, TileType};
use crate::rng::range_i32;

verus! {

/// Builds caves: random noise smoothed by a cellular automaton.
pub struct AutomataArchitect {}

/// The tile that a noise roll from 0 to 99 gives: floor above 55, wall otherwise.
pub open spec fn spec_noise_tile(roll: int) -> TileType {
    if roll > 55 {
        TileType::Floor
    } else {
        TileType::Wall
    }
}

/// The map index of the `k`-th cell (row by row, `k` from 0 to 8) of the 3x3 block centred on
/// `(x, y)`.
pub open spec fn block_idx(x: int, y: int, k: int) -> int {
    (y + k / 3 - 1) * SCREEN_WIDTH + (x + k % 3 - 1)
}

/// The number of walls among the first `k` cells of the 3x3 block centred on `(x, y)`, the
/// centre (cell 4) left out.
pub open spec fn walls_in_block(tiles: Seq<TileType>, x: int, y: int, k: int) -> int
    decreases k,
{
    if k <= 0 {
        0
    } else {
        walls_in_block(tiles, x, y, k - 1) + if k - 1 != 4 && tiles[block_idx(x, y, k - 1)]
            == TileType::Wall {
            1int
        } else {
            0int
        }
    }
}

/// At most one wall per cell counted.
pub proof fn lemma_walls_in_block_bound(tiles: Seq<TileType>, x: int, y: int, k: int)
    requires
        0 <= k <= 9,
    ensures
        0 <= walls_in_block(tiles, x, y, k) <= if k > 4 {
            k - 1
        } else {
            k
        },
    decreases k,
{
    if k > 0 {
        lemma_walls_in_block_bound(tiles, x, y, k - 1);
    }
}

/// The number of walls among the eight neighbours of `(x, y)`.
pub open spec fn spec_count_neighbours(tiles: Seq<TileType>, x: int, y: int) -> int {
    walls_in_block(tiles, x, y, 9)
}

/// Whether `(x, y)` and its eight neighbours are addressed by indices of the map, with no
/// overflow on the way.
pub open spec fn neighbours_on_map(x: i32, y: i32) -> bool {
    &&& i32::MIN < x < i32::MAX
    &&& i32::MIN < y < i32::MAX
    &&& i32::MIN <= (y - 1) * SCREEN_WIDTH
    &&& (y + 1) * SCREEN_WIDTH <= i32::MAX
    &&& 0 <= (y - 1) * SCREEN_WIDTH + (x - 1)
    &&& (y + 1) * SCREEN_WIDTH + (x + 1) < NUM_TILES
}

/// Whether the tile at index `i` lies off the map's outer border.
pub open spec fn is_interior(i: int) -> bool {
    let p = spec_point_of(i);
    1 <= p.x < SCREEN_WIDTH - 1 && 1 <= p.y < SCREEN_HEIGHT - 1
}

/// One step of the automaton: an interior tile becomes a wall when it has no wall
/// neighbour or more than four, and floor otherwise; the border stays as it is.
pub open spec fn spec_iterated(tiles: Seq<TileType>, i: int) -> TileType {
    let p = spec_point_of(i);
    if is_interior(i) {
        let n = spec_count_neighbours(tiles, p.x as int, p.y as int);
        if n == 0 || n > 4 {
            TileType::Wall
        } else {
            TileType::Floor
        }
    } else {
        tiles[i]
    }
}

/// A step of the automaton never changes the tiles of the map's outer border, and every
/// interior tile it leaves is a wall or floor.
pub proof fn lemma_iteration_keeps_border(tiles: Seq<TileType>, i: int)
    ensures
        !is_interior(i) ==> spec_iterated(tiles, i) == tiles[i],
        is_interior(i) ==> spec_iterated(tiles, i) == TileType::Wall || spec_iterated(tiles, i)
            == TileType::Floor,
{
}

/// The map after one step of the automaton.
pub open spec fn iterated_map(tiles: Seq<TileType>) -> Seq<TileType> {
    Seq::new(NUM_TILES as nat, |i: int| spec_iterated(tiles, i))
}

/// The map after `k` steps of the automaton.
pub open spec fn iterate_times(tiles: Seq<TileType>, k: nat) -> Seq<TileType>
    decreases k,
{
    if k == 0 {
        tiles
    } else {
        iterated_map(iterate_times(tiles, (k - 1) as nat))
    }
}

/// Whether `rolls` are noise rolls for the map: one per tile, each from 0 to 99.
pub open spec fn valid_noise_rolls(rolls: Seq<int>) -> bool {
    &&& rolls.len() == NUM_TILES
    &&& forall|i: int| 0 <= i < NUM_TILES ==> 0 <= #[trigger] rolls[i] < 100
}

/// The map that noise rolls give.
pub open spec fn noise_map(rolls: Seq<int>) -> Seq<TileType> {
    Seq::new(NUM_TILES as nat, |i: int| spec_noise_tile(rolls[i]))
}

/// 1 when the tile at `(x, y)` is a wall, 0 otherwise.
pub open spec fn wall_at(tiles: Seq<TileType>, x: int, y: int) -> int {
    if tiles[y * SCREEN_WIDTH + x] == TileType::Wall {
        1
    } else {
        0
    }
}

/// The walls among the eight tiles around `(x, y)`: the three above, the two beside and the
/// three below.
pub open spec fn walls_around(tiles: Seq<TileType>, x: int, y: int) -> int {
    wall_at(tiles, x - 1, y - 1) + wall_at(tiles, x, y - 1) + wall_at(tiles, x + 1, y - 1)
        + wall_at(tiles, x - 1, y) + wall_at(tiles, x + 1, y)
        + wall_at(tiles, x - 1, y + 1) + wall_at(tiles, x, y + 1) + wall_at(tiles, x + 1, y + 1)
}

/// The rule of the automaton: one step makes every interior tile a wall when none of its
/// eight neighbours is a wall or more than four are, and floor when one to four are; a tile
/// of the border keeps what it was.
pub proof fn lemma_automaton_rule(tiles: Seq<TileType>)
    ensures
        forall|i: int|
            0 <= i < NUM_TILES ==> #[trigger] iterated_map(tiles)[i] == if is_interior(i) {
                let p = spec_point_of(i);
                let n = walls_around(tiles, p.x as int, p.y as int);
                if n == 0 || n > 4 {
                    TileType::Wall
                } else {
                    TileType::Floor
                }
            } else {
                tiles[i]
            },
{
    assert forall|i: int| 0 <= i < NUM_TILES implies #[trigger] iterated_map(tiles)[i] == if is_interior(i) {
        let p = spec_point_of(i);
        let n = walls_around(tiles, p.x as int, p.y as int);
        if n == 0 || n > 4 {
            TileType::Wall
        } else {
            TileType::Floor
        }
    } else {
        tiles[i]
    } by {
        let p = spec_point_of(i);
        lemma_block_is_neighbours(tiles, p.x as int, p.y as int);
    }
}

/// The walls counted in the 3x3 block, its centre left out, are the walls around the tile.
proof fn lemma_block_is_neighbours(tiles: Seq<TileType>, x: int, y: int)
    ensures
        spec_count_neighbours(tiles, x, y) == walls_around(tiles, x, y),
{
    reveal_with_fuel(walls_in_block, 10);
    assert(block_idx(x, y, 0) == (y - 1) * SCREEN_WIDTH + (x - 1));
    assert(block_idx(x, y, 1) == (y - 1) * SCREEN_WIDTH + x);
    assert(block_idx(x, y, 2) == (y - 1) * SCREEN_WIDTH + (x + 1));
    assert(block_idx(x, y, 3) == y * SCREEN_WIDTH + (x - 1));
    assert(block_idx(x, y, 5) == y * SCREEN_WIDTH + (x + 1));
    assert(block_idx(x, y, 6) == (y + 1) * SCREEN_WIDTH + (x - 1));
    assert(block_idx(x, y, 7) == (y + 1) * SCREEN_WIDTH + x);
    assert(block_idx(x, y, 8) == (y + 1) * SCREEN_WIDTH + (x + 1));
}

/// The centre of the map: half its width, half its height.
pub open spec fn map_centre() -> Point {
    Point { x: 40, y: 25 }
}

/// Whether `idx` is the first floor tile, in map order, of least distance to the centre.
pub open spec fn is_closest_floor(tiles: Seq<TileType>, idx: int) -> bool {
    &&& 0 <= idx < NUM_TILES
    &&& tiles[idx] == TileType::Floor
    &&& forall|i: int|
        0 <= i < NUM_TILES && tiles[i] == TileType::Floor ==> spec_distance_sq(
            map_centre(),
            spec_point_of(idx),
        ) <= spec_distance_sq(map_centre(), #[trigger] spec_point_of(i))
    &&& forall|i: int|
        0 <= i < idx && tiles[i] == TileType::Floor ==> spec_distance_sq(
            map_centre(),
            spec_point_of(idx),
        ) < spec_distance_sq(map_centre(), #[trigger] spec_point_of(i))
}

/// The tile that a noise roll gives.
pub fn noise_tile(roll: i32) -> (t: TileType)
    ensures
        t == spec_noise_tile(roll as int),
{
    if roll > 55 {
        TileType::Floor
    } else {
        TileType::Wall
    }
}

/// The square of the distance from the centre of the map to a point of the map.
fn distance_sq_from_centre(p: Point) -> (d: i32)
    requires
        spec_in_bounds(p),
    ensures
        d == spec_distance_sq(map_centre(), p),
{
    let dx = SCREEN_WIDTH / 2 - p.x;
    let dy = SCREEN_HEIGHT / 2 - p.y;
    assert(0 <= dx * dx <= 1600 && 0 <= dy * dy <= 625) by (nonlinear_arith)
        requires
            -40 < dx <= 40,
            -25 < dy <= 25,
    ;
    dx * dx + dy * dy
}

impl AutomataArchitect {
    /// Rolls a number from 0 to 99 for each tile and makes it floor above 55, wall otherwise.
    pub fn random_noise_map(&mut self, rng: &mut RandomNumberGenerator, map: &mut GameMap)
        requires
            old(map).wf(),
        ensures
            final(map).wf(),
            final(map).revealed_tiles == old(map).revealed_tiles,
            exists|rolls: Seq<int>|
                valid_noise_rolls(rolls) && final(map).tiles@ == noise_map(rolls),
    {
        let ghost mut rolls: Seq<int> = Seq::empty();
        let mut i: usize = 0;
        while i < map.tiles.len()
            invariant
                map.wf(),
                map.revealed_tiles == old(map).revealed_tiles,
                i <= NUM_TILES,
                rolls.len() == i,
                forall|j: int| 0 <= j < i ==> 0 <= #[trigger] rolls[j] < 100,
                forall|j: int| 0 <= j < i ==> map.tiles@[j] == spec_noise_tile(#[trigger] rolls[j]),
            decreases NUM_TILES - i,
        {
            let roll = range_i32(rng, 0, 100);
            let t = noise_tile(roll);
            map.tiles.set(i, t);
            proof {
                rolls = rolls.push(roll as int);
            }
            i += 1;
        }
        assert(map.tiles@ =~= noise_map(rolls));
    }

    /// The number of walls among the eight neighbours of `(x, y)`.
    pub fn count_neighbours(&self, x: i32, y: i32, map: &GameMap) -> (n: usize)
        requires
            map.wf(),
            neighbours_on_map(x, y),
        ensures
            n == spec_count_neighbours(map.tiles@, x as int, y as int),
            n <= 8,
    {
        let mut neighbours: usize = 0;
        let mut iy: i32 = -1;
        while iy <= 1
            invariant
                map.wf(),
                neighbours_on_map(x, y),
                -1 <= iy <= 2,
                neighbours == walls_in_block(map.tiles@, x as int, y as int, (iy + 1) * 3),
            decreases 2 - iy,
        {
            let mut ix: i32 = -1;
            while ix <= 1
                invariant
                    map.wf(),
                    neighbours_on_map(x, y),
                    -1 <= iy <= 1,
                    -1 <= ix <= 2,
                    neighbours == walls_in_block(
                        map.tiles@,
                        x as int,
                        y as int,
                        (iy + 1) * 3 + ix + 1,
                    ),
                decreases 2 - ix,
            {
                let ghost k: int = (iy + 1) * 3 + ix + 1;
                proof {
                    lemma_walls_in_block_bound(map.tiles@, x as int, y as int, k + 1);
                }
                assert(k / 3 - 1 == iy && k % 3 - 1 == ix);
                assert(block_idx(x as int, y as int, k) == (y + iy) * SCREEN_WIDTH + (x + ix));
                assert(0 <= (y + iy) * SCREEN_WIDTH + (x + ix) < NUM_TILES) by (nonlinear_arith)
                    requires
                        -1 <= iy <= 1,
                        -1 <= ix <= 1,
                        0 <= (y - 1) * 80 + (x - 1),
                        (y + 1) * 80 + (x + 1) < 4000,
                ;
                assert(i32::MIN <= (y + iy) * SCREEN_WIDTH <= i32::MAX) by (nonlinear_arith)
                    requires
                        -1 <= iy <= 1,
                        i32::MIN <= (y - 1) * 80,
                        (y + 1) * 80 <= i32::MAX,
                ;
                if !(ix == 0 && iy == 0) && map.tiles[map_idx(x + ix, y + iy)] == TileType::Wall {
                    neighbours += 1;
                }
                ix += 1;
            }
            iy += 1;
        }
        proof {
            lemma_walls_in_block_bound(map.tiles@, x as int, y as int, 9);
        }
        neighbours
    }

    /// One step of the automaton over the whole map; the border is left as it is.
    pub fn iteration(&mut self, map: &mut GameMap)
        requires
            old(map).wf(),
        ensures
            final(map).wf(),
            final(map).revealed_tiles == old(map).revealed_tiles,
            forall|i: int|
                0 <= i < NUM_TILES ==> final(map).tiles@[i] == spec_iterated(old(map).tiles@, i),
            final(map).tiles@ == iterated_map(old(map).tiles@),
    {
        let mut new_tiles = map.tiles.clone();
        assert(new_tiles@ == map.tiles@);
        let mut y: i32 = 1;
        while y < SCREEN_HEIGHT - 1
            invariant
                map.wf(),
                *map == *old(map),
                new_tiles@.len() == NUM_TILES,
                1 <= y <= SCREEN_HEIGHT - 1,
                forall|i: int|
                    0 <= i < NUM_TILES ==> #[trigger] new_tiles@[i] == if spec_point_of(i).y < y {
                        spec_iterated(map.tiles@, i)
                    } else {
                        map.tiles@[i]
                    },
            decreases SCREEN_HEIGHT - y,
        {
            let mut x: i32 = 1;
            while x < SCREEN_WIDTH - 1
                invariant
                    map.wf(),
                    *map == *old(map),
                    new_tiles@.len() == NUM_TILES,
                    1 <= y < SCREEN_HEIGHT - 1,
                    1 <= x <= SCREEN_WIDTH - 1,
                    forall|i: int|
                        0 <= i < NUM_TILES ==> #[trigger] new_tiles@[i] == if spec_point_of(i).y
                            < y || (spec_point_of(i).y == y && 1 <= spec_point_of(i).x < x) {
                            spec_iterated(map.tiles@, i)
                        } else {
                            map.tiles@[i]
                        },
                decreases SCREEN_WIDTH - x,
            {
                let neighbours = self.count_neighbours(x, y, map);
                let idx = map_idx(x, y);
                proof {
                    let p = Point { x, y };
                    lemma_index_point_roundtrip(idx as int, p);
                    assert(spec_point_of(idx as int) == p);
                    assert(is_interior(idx as int));
                }
                if neighbours == 0 || neighbours > 4 {
                    new_tiles.set(idx, TileType::Wall);
                } else {
                    new_tiles.set(idx, TileType::Floor);
                }
                proof {
                    assert forall|i: int| 0 <= i < NUM_TILES implies #[trigger] new_tiles@[i] == if spec_point_of(i).y
                            < y || (spec_point_of(i).y == y && 1 <= spec_point_of(i).x < x + 1) {
                            spec_iterated(map.tiles@, i)
                        } else {
                            map.tiles@[i]
                        } by {
                        lemma_index_point_roundtrip(i, Point { x, y });
                        if i != idx {
                            let q = spec_point_of(i);
                            assert(!(q.y == y && q.x == x));
                        }
                    }
                }
                x += 1;
            }
            proof {
                assert forall|i: int| 0 <= i < NUM_TILES implies #[trigger] new_tiles@[i] == if spec_point_of(i).y < y + 1 {
                        spec_iterated(map.tiles@, i)
                    } else {
                        map.tiles@[i]
                    } by {
                    lemma_index_point_roundtrip(i, Point { x, y });
                    let q = spec_point_of(i);
                    if q.y == y && !(1 <= q.x < SCREEN_WIDTH - 1) {
                        assert(!is_interior(i));
                    }
                }
            }
            y += 1;
        }
        proof {
            assert forall|i: int| 0 <= i < NUM_TILES implies #[trigger] new_tiles@[i] == spec_iterated(old(map).tiles@, i) by {
                lemma_index_point_roundtrip(i, Point { x: 0, y: 0 });
                let q = spec_point_of(i);
                if q.y >= SCREEN_HEIGHT - 1 {
                    assert(!is_interior(i));
                }
            }
        }
        map.tiles = new_tiles;
        assert(map.tiles@ =~= iterated_map(old(map).tiles@));
    }

    /// The floor tile closest to the centre of the map, the first in map order among equals.
    /// Distances are compared by their squares, which order points as the Pythagorean
    /// distances do.
    pub fn find_start(&self, map: &GameMap) -> (p: Point)
        requires
            map.wf(),
            exists|i: int| 0 <= i < NUM_TILES && map.tiles@[i] == TileType::Floor,
        ensures
            spec_in_bounds(p),
            is_closest_floor(map.tiles@, spec_idx(p)),
    {
        let mut best: Option<(usize, i32)> = None;
        let mut i: usize = 0;
        while i < map.tiles.len()
            invariant
                map.wf(),
                i <= NUM_TILES,
                match best {
                    None => forall|j: int| 0 <= j < i ==> map.tiles@[j] != TileType::Floor,
                    Some((b, d)) => {
                        &&& b < i
                        &&& map.tiles@[b as int] == TileType::Floor
                        &&& d == spec_distance_sq(map_centre(), spec_point_of(b as int))
                        &&& forall|j: int|
                            0 <= j < i && map.tiles@[j] == TileType::Floor ==> d
                                <= spec_distance_sq(map_centre(), #[trigger] spec_point_of(j))
                        &&& forall|j: int|
                            0 <= j < b && map.tiles@[j] == TileType::Floor ==> d
                                < spec_distance_sq(map_centre(), #[trigger] spec_point_of(j))
                    },
                },
            decreases NUM_TILES - i,
        {
            if map.tiles[i] == TileType::Floor {
                let p = map.index_to_point2d(i);
                let d = distance_sq_from_centre(p);
                match best {
                    None => {
                        best = Some((i, d));
                    },
                    Some((_, bd)) => {
                        if d < bd {
                            best = Some((i, d));
                        }
                    },
                }
            }
            i += 1;
        }
        match best {
            None => {
                proof {
                    let j = choose|j: int| 0 <= j < NUM_TILES && map.tiles@[j] == TileType::Floor;
                    assert(map.tiles@[j] != TileType::Floor);
                }
                Point::zero()
            },
            Some((b, _)) => {
                let p = map.index_to_point2d(b);
                p
            },
        }
    }

    /// The cave part of building a map: noise, fifty steps of the automaton, and the player's
    /// start, the floor tile closest to the centre; `None` when no floor is left.
    pub fn build(&mut self, rng: &mut RandomNumberGenerator) -> (r: Option<(GameMap, Point)>)
        ensures
            exists|rolls: Seq<int>|
                {
                    let t = iterate_times(noise_map(rolls), 50);
                    &&& #[trigger] valid_noise_rolls(rolls)
                    &&& match r {
                        None => floor_count(t, NUM_TILES as int) == 0,
                        Some((m, p)) => {
                            &&& m.wf()
                            &&& m.tiles@ == t
                            &&& forall|i: int| 0 <= i < NUM_TILES ==> !#[trigger] m.revealed_tiles@[i]
                            &&& spec_in_bounds(p)
                            &&& is_closest_floor(t, spec_idx(p))
                        },
                    }
                },
    {
        let mut map = GameMap::new();
        self.random_noise_map(rng, &mut map);
        let ghost rolls = choose|rolls: Seq<int>| valid_noise_rolls(rolls) && map.tiles@ == noise_map(rolls);
        let mut k: usize = 0;
        while k < 50
            invariant
                map.wf(),
                k <= 50,
                map.tiles@ == iterate_times(noise_map(rolls), k as nat),
                forall|i: int| 0 <= i < NUM_TILES ==> !#[trigger] map.revealed_tiles@[i],
            decreases 50 - k,
        {
            self.iteration(&mut map);
            k += 1;
        }
        if map.count_floor() == 0 {
            return None;
        }
        proof {
            lemma_floor_count_positive(map.tiles@, NUM_TILES as int);
        }
        let p = self.find_start(&map);
        Some((map, p))
    }
}

} // verus!
