//! Maps dug by random walks from the centre until a third of the map is floor.
use vstd::prelude::*;
use bracket_lib::prelude::RandomNumberGenerator;
use crate::geometry::{
    lemma_index_point_roundtrip, map_idx, spec_distance_sq, spec_idx, spec_in_bounds, Point, NUM_TILES,
    SCREEN_WIDTH,
};
use crate::map::{floor_count, GameMap, TileType};
use crate::rng::{range_i8, range_usize};

verus! {

/// A map is built once this many tiles are floor: a third of the map.
pub const MIN_TILES: usize = 1333;

/// The longest walk, in steps.
pub const MAX_TURNS: i32 = 200;

/// Builds maps by letting drunkards wander.
pub struct DrunkardsWalkArchitect {}

/// The step that a roll from 0 to 3 gives: east, south, west, or north.
pub open spec fn spec_step(roll: int) -> Point {
    if roll == 0 {
        Point { x: 1, y: 0 }
    } else if roll == 1 {
        Point { x: 0, y: 1 }
    } else if roll == 2 {
        Point { x: -1i32, y: 0 }
    } else {
        Point { x: 0, y: -1i32 }
    }
}

/// Every step moves by one tile, along a row or a column.
pub proof fn lemma_step_is_unit(roll: int)
    ensures
        spec_distance_sq(Point { x: 0, y: 0 }, spec_step(roll)) == 1,
{
    let d = spec_step(roll);
    assert((0 - d.x) * (0 - d.x) + (0 - d.y) * (0 - d.y) == 1) by (nonlinear_arith)
        requires
            (d.x == 0 && (d.y == 1 || d.y == -1)) || (d.y == 0 && (d.x == 1 || d.x == -1)),
    ;
}

/// The `j`-th point of a walk from `start` that takes the steps that `rolls` give.
pub open spec fn walk_point(start: Point, rolls: Seq<int>, j: int) -> Point
    decreases j,
{
    if j <= 0 {
        start
    } else {
        let p = walk_point(start, rolls, j - 1);
        let d = spec_step(rolls[j - 1]);
        Point { x: (p.x + d.x) as i32, y: (p.y + d.y) as i32 }
    }
}

/// `tiles` with the first `n` points of the walk made floor.
pub open spec fn carve_tiles(tiles: Seq<TileType>, start: Point, rolls: Seq<int>, n: int) -> Seq<
    TileType,
>
    decreases n,
{
    if n <= 0 {
        tiles
    } else {
        carve_tiles(tiles, start, rolls, n - 1).update(
            spec_idx(walk_point(start, rolls, n - 1)),
            TileType::Floor,
        )
    }
}

/// Whether a walk of `rolls.len()` steps is what a walk from `start` does: every roll is
/// from 0 to 3, the walk stays on the map after its first point, and it ends after
/// `MAX_TURNS` steps or on its first step off the map.
pub open spec fn is_walk(start: Point, rolls: Seq<int>) -> bool {
    let n = rolls.len() as int;
    &&& 1 <= n <= MAX_TURNS
    &&& forall|j: int| 0 <= j < n ==> 0 <= #[trigger] rolls[j] < 4
    &&& forall|j: int| 1 <= j < n ==> spec_in_bounds(#[trigger] walk_point(start, rolls, j))
    &&& n < MAX_TURNS ==> !spec_in_bounds(walk_point(start, rolls, n))
}

/// Whether the walk can start at `p`: its index is on the map and a first step stays in
/// `i32`.
pub open spec fn can_start_walk(p: Point) -> bool {
    &&& i32::MIN < p.x < i32::MAX
    &&& i32::MIN < p.y < i32::MAX
    &&& i32::MIN <= p.y * SCREEN_WIDTH <= i32::MAX
    &&& i32::MIN <= p.y * SCREEN_WIDTH + p.x <= i32::MAX
    &&& 0 <= spec_idx(p) < NUM_TILES
}

/// The step that a roll gives.
pub fn step(roll: i8) -> (d: Point)
    ensures
        d == spec_step(roll as int),
{
    match roll {
        0 => Point::new(1, 0),
        1 => Point::new(0, 1),
        2 => Point::new(-1, 0),
        _ => Point::new(0, -1),
    }
}

proof fn lemma_carve_prefix(tiles: Seq<TileType>, start: Point, rolls: Seq<int>, more: Seq<int>, n: int)
    requires
        0 <= n <= rolls.len(),
    ensures
        carve_tiles(tiles, start, rolls, n) == carve_tiles(tiles, start, rolls + more, n),
        walk_point(start, rolls, n) == walk_point(start, rolls + more, n),
    decreases n,
{
    if n > 0 {
        lemma_carve_prefix(tiles, start, rolls, more, n - 1);
        assert((rolls + more)[n - 1] == rolls[n - 1]);
    }
}

impl DrunkardsWalkArchitect {
    /// Walks at random from `start_point`, making each tile it stands on floor, for at most
    /// `MAX_TURNS` steps and until it steps off the map.
    pub fn carve_region(
        &mut self,
        start_point: &Point,
        rng: &mut RandomNumberGenerator,
        map: &mut GameMap,
    )
        requires
            old(map).wf(),
            can_start_walk(*start_point),
        ensures
            final(map).wf(),
            final(map).revealed_tiles == old(map).revealed_tiles,
            exists|rolls: Seq<int>|
                is_walk(*start_point, rolls) && final(map).tiles@ == carve_tiles(
                    old(map).tiles@,
                    *start_point,
                    rolls,
                    rolls.len() as int,
                ),
            forall|i: int|
                0 <= i < NUM_TILES ==> final(map).tiles@[i] == old(map).tiles@[i]
                    || final(map).tiles@[i] == TileType::Floor,
    {
        let mut current_point = *start_point;
        let ghost start = *start_point;
        let ghost mut rolls: Seq<int> = Seq::empty();
        let mut turn: i32 = 0;
        while turn < MAX_TURNS
            invariant_except_break
                can_start_walk(current_point),
                turn >= 1 ==> spec_in_bounds(current_point),
            invariant
                rolls.len() == turn,
                current_point == walk_point(start, rolls, rolls.len() as int),
                map.wf(),
                map.revealed_tiles == old(map).revealed_tiles,
                0 <= turn <= MAX_TURNS,
                forall|j: int| 0 <= j < rolls.len() ==> 0 <= #[trigger] rolls[j] < 4,
                forall|j: int| 1 <= j < rolls.len() ==> spec_in_bounds(#[trigger] walk_point(start, rolls, j)),
                map.tiles@ == carve_tiles(old(map).tiles@, start, rolls, rolls.len() as int),
                forall|i: int|
                    0 <= i < NUM_TILES ==> map.tiles@[i] == old(map).tiles@[i] || map.tiles@[i]
                        == TileType::Floor,
            ensures
                is_walk(start, rolls),
            decreases MAX_TURNS - turn,
        {
            let idx = map_idx(current_point.x, current_point.y);
            map.tiles.set(idx, TileType::Floor);
            let roll = range_i8(rng, 0, 4);
            let d = step(roll);
            proof {
                let ghost prev = rolls;
                lemma_carve_prefix(old(map).tiles@, start, rolls, seq![roll as int], rolls.len() as int);
                assert(rolls.push(roll as int) == rolls + seq![roll as int]);
                assert forall|j: int| 0 <= j <= prev.len() implies walk_point(start, prev, j)
                    == #[trigger] walk_point(start, prev.push(roll as int), j) by {
                    lemma_carve_prefix(old(map).tiles@, start, prev, seq![roll as int], j);
                }
                rolls = rolls.push(roll as int);
                assert(rolls[prev.len() as int] == roll as int);
                assert(carve_tiles(old(map).tiles@, start, rolls, rolls.len() as int) == carve_tiles(
                    old(map).tiles@, start, rolls, prev.len() as int).update(spec_idx(current_point), TileType::Floor));
            }
            current_point = current_point.offset_by(d);
            turn += 1;
            if !map.in_bounds(current_point) {
                break;
            }
            proof {
                lemma_index_point_roundtrip(0, current_point);
            }
        }
    }

    /// Makes a wall of every tile that `distances` marks unreachable (`None`): the pathing
    /// distances from the centre, one per tile.
    pub fn wall_off_unreachable(&mut self, map: &mut GameMap, distances: &Vec<Option<u32>>)
        requires
            old(map).wf(),
            distances@.len() == NUM_TILES,
        ensures
            final(map).wf(),
            final(map).revealed_tiles == old(map).revealed_tiles,
            forall|i: int|
                0 <= i < NUM_TILES ==> final(map).tiles@[i] == if distances@[i] is None {
                    TileType::Wall
                } else {
                    old(map).tiles@[i]
                },
    {
        let mut i: usize = 0;
        while i < distances.len()
            invariant
                map.wf(),
                map.revealed_tiles == old(map).revealed_tiles,
                distances@.len() == NUM_TILES,
                i <= NUM_TILES,
                forall|j: int|
                    0 <= j < NUM_TILES ==> map.tiles@[j] == if j < i && distances@[j] is None {
                        TileType::Wall
                    } else {
                        old(map).tiles@[j]
                    },
            decreases NUM_TILES - i,
        {
            if distances[i].is_none() {
                map.tiles.set(i, TileType::Wall);
            }
            i += 1;
        }
    }

    /// Whether fewer than `MIN_TILES` tiles are floor, so that another walk is due.
    pub fn needs_more_floor(&self, map: &GameMap) -> (r: bool)
        requires
            map.wf(),
        ensures
            r == (floor_count(map.tiles@, NUM_TILES as int) < MIN_TILES),
    {
        map.count_floor() < MIN_TILES
    }

    /// Where the next walk starts: a tile of the map drawn at random.
    pub fn next_start(&self, rng: &mut RandomNumberGenerator, map: &GameMap) -> (p: Point)
        ensures
            spec_in_bounds(p),
            can_start_walk(p),
    {
        let idx = range_usize(rng, 0, NUM_TILES);
        let p = map.index_to_point2d(idx);
        proof {
            lemma_index_point_roundtrip(idx as int, p);
        }
        p
    }

    /// The centre of the map, where the first walk starts and the player will stand.
    pub fn centre(&self) -> (p: Point)
        ensures
            p == (Point { x: 40, y: 25 }),
            can_start_walk(p),
    {
        Point::new(SCREEN_WIDTH / 2, 25)
    }
}

} // verus!
