//! Prefabricated vaults: fixed layouts stamped onto a generated map, far from the player.
use vstd::prelude::*;
use bracket_lib::prelude::RandomNumberGenerator;
use crate::geometry::{
    lemma_index_point_roundtrip, map_idx, spec_point_of, Point, NUM_TILES,
    SCREEN_HEIGHT, SCREEN_WIDTH,
};
use crate::map::TileType;
use crate::map_builder::MapBuilder;
use crate::rng::{range_i32, range_i8};
use vstd::string::StrSliceExecFns;
use vstd::arithmetic::div_mod::{lemma_fundamental_div_mod, lemma_fundamental_div_mod_converse, lemma_mod_pos_bound};

verus! {

/// A vault: its layout, row by row, in `-` (floor), `#` (wall) and `M` (floor where a
/// monster spawns), and its size. Line breaks and spaces in the layout are ignored.
pub struct Prefab<'a> {
    pub structure_str: &'a str,
    pub width: i32,
    pub height: i32,
}

/// Whether a character of a layout is a cell, as opposed to a line break or a space.
pub open spec fn is_cell(c: char) -> bool {
    c != '\n' && c != '\r' && c != ' '
}

/// The cells of a layout, in order: its characters without line breaks and spaces.
pub open spec fn prefab_cells(s: Seq<char>) -> Seq<char>
    decreases s.len(),
{
    if s.len() == 0 {
        Seq::empty()
    } else {
        let rest = prefab_cells(s.drop_last());
        if is_cell(s.last()) {
            rest.push(s.last())
        } else {
            rest
        }
    }
}

/// Whether a prefab's size fits on the map.
pub open spec fn prefab_fits(p: Prefab) -> bool {
    &&& 0 < p.width < SCREEN_WIDTH
    &&& 0 < p.height < SCREEN_HEIGHT
}

/// The layout of the fortress vault.
pub const FORTRESS_LAYOUT: &'static str = "
    ------------
    ---######---
    ---#----#---
    ---#----#---
    ---#----#---
    -###----###-
    -#--------#-
    -#--------#-
    -M--------M-
    -#--------#-
    -#--------#-
    -###----###-
    ---#----#---
    ---#----#---
    ---#----#---
    ---######---
    ------------";

/// The layout of the chess vault.
pub const CHESS_LAYOUT: &'static str = "
    #-#-#-#-#-#
    -#-#-#-#-#-
    #-#-#-#-#-#
    -#-#-#-#-#-
    #-#-#-#-#-#
    ";

/// The fortress vault.
pub open spec fn spec_fortress() -> Prefab<'static> {
    Prefab { structure_str: FORTRESS_LAYOUT, width: 12, height: 16 }
}

/// A fortress with a monster on each side.
pub fn fortress() -> (p: Prefab<'static>)
    ensures
        p == spec_fortress(),
        p.width == 12,
        p.height == 16,
        prefab_fits(p),
{
    Prefab { structure_str: FORTRESS_LAYOUT, width: 12, height: 16 }
}

/// The chess vault.
pub open spec fn spec_chess() -> Prefab<'static> {
    Prefab { structure_str: CHESS_LAYOUT, width: 11, height: 5 }
}

/// A chequered block of walls.
pub fn chess() -> (p: Prefab<'static>)
    ensures
        p == spec_chess(),
        p.width == 11,
        p.height == 5,
        prefab_fits(p),
{
    Prefab { structure_str: CHESS_LAYOUT, width: 11, height: 5 }
}

/// The cells of two pieces of a layout, one after the other, are the cells of both.
proof fn lemma_cells_concat(a: Seq<char>, b: Seq<char>)
    ensures
        prefab_cells(a + b) == prefab_cells(a) + prefab_cells(b),
    decreases b.len(),
{
    if b.len() == 0 {
        assert(a + b =~= a);
        assert(prefab_cells(a) + prefab_cells(b) =~= prefab_cells(a));
    } else {
        assert((a + b).drop_last() =~= a + b.drop_last());
        assert((a + b).last() == b.last());
        lemma_cells_concat(a, b.drop_last());
        if is_cell(b.last()) {
            assert(prefab_cells(a) + prefab_cells(b.drop_last()).push(b.last()) =~= (prefab_cells(a)
                + prefab_cells(b.drop_last())).push(b.last()));
        }
    }
}

/// A piece made only of cells is its own cells; one without any has none.
proof fn lemma_cells_of_row(r: Seq<char>)
    ensures
        (forall|i: int| 0 <= i < r.len() ==> is_cell(#[trigger] r[i])) ==> prefab_cells(r) == r,
        (forall|i: int| 0 <= i < r.len() ==> !is_cell(#[trigger] r[i])) ==> prefab_cells(r).len() == 0,
    decreases r.len(),
{
    if r.len() > 0 {
        lemma_cells_of_row(r.drop_last());
        assert(r.drop_last().push(r.last()) =~= r);
    }
}

/// Appending a gap of line break and spaces, then a row of cells, appends the row's cells.
proof fn lemma_cells_append_row(p: Seq<char>, g: Seq<char>, r: Seq<char>)
    requires
        forall|i: int| 0 <= i < g.len() ==> !is_cell(#[trigger] g[i]),
        forall|i: int| 0 <= i < r.len() ==> is_cell(#[trigger] r[i]),
    ensures
        prefab_cells(p + g + r) == prefab_cells(p) + r,
{
    lemma_cells_of_row(g);
    lemma_cells_of_row(r);
    lemma_cells_concat(p, g);
    lemma_cells_concat(p + g, r);
    assert(prefab_cells(p) + prefab_cells(g) =~= prefab_cells(p));
}

/// The chess layout has a cell for each of its tiles.
pub proof fn lemma_chess_complete()
    ensures
        prefab_cells(spec_chess().structure_str@).len() == 55,
{
    reveal_strlit("\n    ");
    reveal_strlit("#-#-#-#-#-#");
    reveal_strlit("-#-#-#-#-#-");
    reveal_strlit("\n    #-#-#-#-#-#\n    -#-#-#-#-#-\n    #-#-#-#-#-#\n    -#-#-#-#-#-\n    #-#-#-#-#-#\n    ");
    let g = "\n    "@;
    let o = "#-#-#-#-#-#"@;
    let e = "-#-#-#-#-#-"@;
    let empty = Seq::<char>::empty();
    assert(CHESS_LAYOUT@ =~= empty + g + o + g + e + g + o + g + e + g + o + g);
    lemma_cells_append_row(empty, g, o);
    lemma_cells_append_row(empty + g + o, g, e);
    lemma_cells_append_row(empty + g + o + g + e, g, o);
    lemma_cells_append_row(empty + g + o + g + e + g + o, g, e);
    lemma_cells_append_row(empty + g + o + g + e + g + o + g + e, g, o);
    let all = empty + g + o + g + e + g + o + g + e + g + o;
    lemma_cells_of_row(g);
    lemma_cells_concat(all, g);
    assert(prefab_cells(empty) =~= empty);
}

/// The fortress layout has a cell for each of its rows' tiles, one row more than the
/// vault is high.
pub proof fn lemma_fortress_complete()
    ensures
        prefab_cells(spec_fortress().structure_str@).len() == 204,
{
    reveal_strlit("\n    ");
    reveal_strlit("------------");
    reveal_strlit("---######---");
    reveal_strlit("---#----#---");
    reveal_strlit("-###----###-");
    reveal_strlit("-#--------#-");
    reveal_strlit("-M--------M-");
    reveal_strlit("\n    ------------\n    ---######---\n    ---#----#---\n    ---#----#---\n    ---#----#---\n    -###----###-\n    -#--------#-\n    -#--------#-\n    -M--------M-\n    -#--------#-\n    -#--------#-\n    -###----###-\n    ---#----#---\n    ---#----#---\n    ---#----#---\n    ---######---\n    ------------");
    let g = "\n    "@;
    let r0 = "------------"@;
    let r1 = "---######---"@;
    let r2 = "---#----#---"@;
    let r5 = "-###----###-"@;
    let r6 = "-#--------#-"@;
    let r8 = "-M--------M-"@;
    let p1 = Seq::<char>::empty() + g + r0;
    let p2 = p1 + g + r1;
    let p3 = p2 + g + r2;
    let p4 = p3 + g + r2;
    let p5 = p4 + g + r2;
    let p6 = p5 + g + r5;
    let p7 = p6 + g + r6;
    let p8 = p7 + g + r6;
    let p9 = p8 + g + r8;
    let p10 = p9 + g + r6;
    let p11 = p10 + g + r6;
    let p12 = p11 + g + r5;
    let p13 = p12 + g + r2;
    let p14 = p13 + g + r2;
    let p15 = p14 + g + r2;
    let p16 = p15 + g + r1;
    let p17 = p16 + g + r0;
    assert(FORTRESS_LAYOUT@ =~= p17);
    lemma_cells_append_row(Seq::<char>::empty(), g, r0);
    lemma_cells_append_row(p1, g, r1);
    lemma_cells_append_row(p2, g, r2);
    lemma_cells_append_row(p3, g, r2);
    lemma_cells_append_row(p4, g, r2);
    lemma_cells_append_row(p5, g, r5);
    lemma_cells_append_row(p6, g, r6);
    lemma_cells_append_row(p7, g, r6);
    lemma_cells_append_row(p8, g, r8);
    lemma_cells_append_row(p9, g, r6);
    lemma_cells_append_row(p10, g, r6);
    lemma_cells_append_row(p11, g, r5);
    lemma_cells_append_row(p12, g, r2);
    lemma_cells_append_row(p13, g, r2);
    lemma_cells_append_row(p14, g, r2);
    lemma_cells_append_row(p15, g, r1);
    lemma_cells_append_row(p16, g, r0);
    assert(prefab_cells(Seq::<char>::empty()) =~= Seq::<char>::empty());
}

/// The vault that a roll gives: the chess vault on 1, the fortress otherwise.
pub open spec fn spec_chosen_prefab(roll: int) -> Prefab<'static> {
    if roll == 1 {
        spec_chess()
    } else {
        spec_fortress()
    }
}

/// The tile that a layout cell puts on the map; an unknown cell leaves the tile as it is.
pub open spec fn stamp_tile(t: TileType, c: char) -> TileType {
    if c == '-' || c == 'M' {
        TileType::Floor
    } else if c == '#' {
        TileType::Wall
    } else {
        t
    }
}

/// Whether `p` lies in the `w` by `h` rectangle whose top-left corner is `(x, y)`.
pub open spec fn in_rect(p: Point, x: int, y: int, w: int, h: int) -> bool {
    x <= p.x < x + w && y <= p.y < y + h
}

/// `tiles` with the vault whose cells are `cells` stamped with its top-left corner at
/// `(x, y)`: the tile at row `r` and column `c` of the vault takes cell `r * w + c`.
pub open spec fn stamped_tiles(
    tiles: Seq<TileType>,
    cells: Seq<char>,
    x: int,
    y: int,
    w: int,
    h: int,
) -> Seq<TileType> {
    Seq::new(
        tiles.len(),
        |i: int|
            {
                let p = spec_point_of(i);
                if in_rect(p, x, y, w, h) {
                    stamp_tile(tiles[i], cells[(p.y - y) * w + (p.x - x)])
                } else {
                    tiles[i]
                }
            },
    )
}

/// The points, in layout order, of the monster cells among the first `k` cells of a vault
/// `w` wide placed at `(x, y)`.
pub open spec fn monster_cells(cells: Seq<char>, x: int, y: int, w: int, k: int) -> Seq<Point>
    decreases k,
{
    if k <= 0 {
        Seq::empty()
    } else {
        let rest = monster_cells(cells, x, y, w, k - 1);
        if cells[k - 1] == 'M' {
            rest.push(Point { x: (x + (k - 1) % w) as i32, y: (y + (k - 1) / w) as i32 })
        } else {
            rest
        }
    }
}

proof fn lemma_monster_cells_inside(cells: Seq<char>, x: int, y: int, w: int, h: int, n: int)
    requires
        0 <= x,
        0 <= y,
        0 < w,
        0 < h,
        x + w <= SCREEN_WIDTH,
        y + h <= SCREEN_HEIGHT,
        0 <= n <= w * h,
    ensures
        forall|k: int|
            0 <= k < monster_cells(cells, x, y, w, n).len() ==> in_rect(
                #[trigger] monster_cells(cells, x, y, w, n)[k],
                x,
                y,
                w,
                h,
            ),
    decreases n,
{
    if n > 0 {
        lemma_monster_cells_inside(cells, x, y, w, h, n - 1);
        let j = n - 1;
        lemma_fundamental_div_mod(j, w);
        lemma_mod_pos_bound(j, w);
        let q = j / w;
        let r = j % w;
        assert(0 <= q < h) by (nonlinear_arith)
            requires
                j == w * q + r,
                0 <= r < w,
                0 <= j < w * h,
                0 < w,
        ;
        let rest = monster_cells(cells, x, y, w, n - 1);
        let all = monster_cells(cells, x, y, w, n);
        assert forall|k: int| 0 <= k < all.len() implies in_rect(#[trigger] all[k], x, y, w, h) by {
            if k < rest.len() {
                assert(all[k] == rest[k]);
            }
        }
    }
}

/// Stamping a vault changes no tile outside its rectangle, and every monster spawn it adds
/// lies inside the rectangle.
pub proof fn lemma_stamp_stays_inside(tiles: Seq<TileType>, cells: Seq<char>, x: int, y: int, w: int, h: int)
    requires
        0 <= x,
        0 <= y,
        0 < w,
        0 < h,
        x + w <= SCREEN_WIDTH,
        y + h <= SCREEN_HEIGHT,
    ensures
        stamped_tiles(tiles, cells, x, y, w, h).len() == tiles.len(),
        forall|i: int|
            0 <= i < tiles.len() && !in_rect(spec_point_of(i), x, y, w, h) ==> #[trigger] stamped_tiles(
                tiles,
                cells,
                x,
                y,
                w,
                h,
            )[i] == tiles[i],
        forall|k: int|
            0 <= k < monster_cells(cells, x, y, w, w * h).len() ==> in_rect(
                #[trigger] monster_cells(cells, x, y, w, w * h)[k],
                x,
                y,
                w,
                h,
            ),
{
    assert(0 <= w * h) by (nonlinear_arith)
        requires
            0 < w,
            0 < h,
    ;
    lemma_monster_cells_inside(cells, x, y, w, h, w * h);
}

/// Whether the vault can go at `(x, y)`: some tile it covers is reachable more than twenty
/// steps from the player and is not where the amulet lies.
pub open spec fn spec_can_place(
    distances: Seq<Option<u32>>,
    amulet: Point,
    x: int,
    y: int,
    w: int,
    h: int,
) -> bool {
    exists|i: int|
        0 <= i < NUM_TILES && in_rect(spec_point_of(i), x, y, w, h) && (#[trigger] distances[i]
            matches Some(d) && d > 20) && spec_point_of(i) != amulet
}

/// The cells of a layout.
pub fn layout_cells(s: &str) -> (r: Vec<char>)
    ensures
        r@ == prefab_cells(s@),
{
    let n = s.unicode_len();
    let mut cells: Vec<char> = Vec::new();
    let mut i: usize = 0;
    while i < n
        invariant
            n == s@.len(),
            i <= n,
            cells@ == prefab_cells(s@.take(i as int)),
        decreases n - i,
    {
        let c = s.get_char(i);
        proof {
            assert(s@.take(i + 1).drop_last() == s@.take(i as int));
            assert(s@.take(i + 1).last() == c);
        }
        if c != '\n' && c != '\r' && c != ' ' {
            cells.push(c);
        }
        i += 1;
    }
    proof {
        assert(s@.take(n as int) == s@);
    }
    cells
}

/// The vault that a roll gives.
pub fn choose_prefab(roll: i8) -> (p: Prefab<'static>)
    ensures
        p == spec_chosen_prefab(roll as int),
        prefab_fits(p),
{
    match roll {
        0 => fortress(),
        1 => chess(),
        _ => fortress(),
    }
}

/// Whether the vault can go with its top-left corner at `(x, y)`.
pub fn can_place(distances: &Vec<Option<u32>>, amulet: Point, x: i32, y: i32, w: i32, h: i32) -> (r:
    bool)
    requires
        distances@.len() == NUM_TILES,
        0 <= x,
        0 <= y,
        0 < w,
        0 < h,
        x + w <= SCREEN_WIDTH,
        y + h <= SCREEN_HEIGHT,
    ensures
        r == spec_can_place(distances@, amulet, x as int, y as int, w as int, h as int),
{
    let mut found = false;
    let mut py = y;
    while py < y + h
        invariant
            distances@.len() == NUM_TILES,
            0 <= x,
            0 <= y,
            0 < w,
            0 < h,
            x + w <= SCREEN_WIDTH,
            y + h <= SCREEN_HEIGHT,
            y <= py <= y + h,
            found == exists|i: int|
                0 <= i < NUM_TILES && in_rect(spec_point_of(i), x as int, y as int, w as int, (py - y) as int) && (
                #[trigger] distances@[i] matches Some(d) && d > 20) && spec_point_of(i) != amulet,
        decreases y + h - py,
    {
        let mut px = x;
        while px < x + w
            invariant
                distances@.len() == NUM_TILES,
                0 <= x,
                0 <= y,
                0 < w,
                0 < h,
                x + w <= SCREEN_WIDTH,
                y + h <= SCREEN_HEIGHT,
                y <= py < y + h,
                x <= px <= x + w,
                found == exists|i: int|
                    0 <= i < NUM_TILES && (in_rect(spec_point_of(i), x as int, y as int, w as int, (py - y) as int)
                        || (spec_point_of(i).y == py && x <= spec_point_of(i).x < px)) && (
                    #[trigger] distances@[i] matches Some(d) && d > 20) && spec_point_of(i) != amulet,
            decreases x + w - px,
        {
            let pt = Point::new(px, py);
            let idx = map_idx(px, py);
            proof {
                lemma_index_point_roundtrip(idx as int, pt);
            }
            let here = match distances[idx] {
                Some(d) => d > 20 && pt != amulet,
                None => false,
            };
            proof {
                assert forall|i: int| 0 <= i < NUM_TILES && spec_point_of(i) == pt implies i == idx by {
                    lemma_index_point_roundtrip(i, pt);
                }
            }
            if here {
                found = true;
            }
            px += 1;
        }
        py += 1;
    }
    found
}

/// Stamps a vault with its top-left corner at `(x, y)`: each covered tile takes its cell,
/// and each monster cell adds a monster spawn, in layout order.
pub fn stamp_prefab(mb: &mut MapBuilder, cells: &Vec<char>, x: i32, y: i32, w: i32, h: i32)
    requires
        old(mb).map.wf(),
        0 <= x,
        0 <= y,
        0 < w,
        0 < h,
        x + w <= SCREEN_WIDTH,
        y + h <= SCREEN_HEIGHT,
        cells@.len() >= w * h,
    ensures
        final(mb).map.wf(),
        final(mb).map.revealed_tiles == old(mb).map.revealed_tiles,
        final(mb).player_start == old(mb).player_start,
        final(mb).amulet_start == old(mb).amulet_start,
        final(mb).map.tiles@ == stamped_tiles(old(mb).map.tiles@, cells@, x as int, y as int, w as int, h as int),
        final(mb).monster_spawns@ == old(mb).monster_spawns@ + monster_cells(cells@, x as int, y as int, w as int, w * h),
{
    let ghost old_tiles = mb.map.tiles@;
    let ghost old_spawns = mb.monster_spawns@;
    let mut current_char_idx: usize = 0;
    let mut py = y;
    while py < y + h
        invariant
            mb.map.wf(),
            mb.map.revealed_tiles == old(mb).map.revealed_tiles,
            mb.player_start == old(mb).player_start,
            mb.amulet_start == old(mb).amulet_start,
            old_tiles == old(mb).map.tiles@,
            old_tiles.len() == NUM_TILES,
            old_spawns == old(mb).monster_spawns@,
            0 <= x,
            0 <= y,
            0 < w,
            0 < h,
            x + w <= SCREEN_WIDTH,
            y + h <= SCREEN_HEIGHT,
            cells@.len() >= w * h,
            y <= py <= y + h,
            current_char_idx == (py - y) * w,
            forall|i: int|
                0 <= i < NUM_TILES ==> #[trigger] mb.map.tiles@[i] == if in_rect(spec_point_of(i), x as int, y as int, w as int, (py - y) as int) {
                    stamped_tiles(old_tiles, cells@, x as int, y as int, w as int, h as int)[i]
                } else {
                    old_tiles[i]
                },
            mb.monster_spawns@ == old_spawns + monster_cells(cells@, x as int, y as int, w as int, current_char_idx as int),
        decreases y + h - py,
    {
        let mut px = x;
        while px < x + w
            invariant
                mb.map.wf(),
                mb.map.revealed_tiles == old(mb).map.revealed_tiles,
                mb.player_start == old(mb).player_start,
                mb.amulet_start == old(mb).amulet_start,
                old_tiles == old(mb).map.tiles@,
                old_tiles.len() == NUM_TILES,
                old_spawns == old(mb).monster_spawns@,
                0 <= x,
                0 <= y,
                0 < w,
                0 < h,
                x + w <= SCREEN_WIDTH,
                y + h <= SCREEN_HEIGHT,
                cells@.len() >= w * h,
                y <= py < y + h,
                x <= px <= x + w,
                current_char_idx == (py - y) * w + (px - x),
                forall|i: int|
                    0 <= i < NUM_TILES ==> #[trigger] mb.map.tiles@[i] == if in_rect(spec_point_of(i), x as int, y as int, w as int, (py - y) as int)
                        || (spec_point_of(i).y == py && x <= spec_point_of(i).x < px) {
                        stamped_tiles(old_tiles, cells@, x as int, y as int, w as int, h as int)[i]
                    } else {
                        old_tiles[i]
                    },
                mb.monster_spawns@ == old_spawns + monster_cells(cells@, x as int, y as int, w as int, current_char_idx as int),
            decreases x + w - px,
        {
            let idx = map_idx(px, py);
            let ghost k = current_char_idx as int;
            proof {
                lemma_index_point_roundtrip(idx as int, Point { x: px, y: py });
                assert(k < w * h) by (nonlinear_arith)
                    requires
                        k == (py - y) * w + (px - x),
                        y <= py < y + h,
                        x <= px < x + w,
                ;
                lemma_fundamental_div_mod_converse(k, w as int, (py - y) as int, (px - x) as int);
                assert(w * h <= 4000) by (nonlinear_arith)
                    requires
                        0 < w <= 80,
                        0 < h <= 50,
                ;
                let q = spec_point_of(idx as int);
                assert(q == Point { x: px, y: py });
                assert(!(in_rect(q, x as int, y as int, w as int, (py - y) as int)
                        || (q.y == py && x <= q.x < px)));
                assert(mb.map.tiles@[idx as int] == old_tiles[idx as int]);
                assert(stamped_tiles(old_tiles, cells@, x as int, y as int, w as int, h as int)[idx as int]
                    == stamp_tile(old_tiles[idx as int], cells@[k]));
            }
            let c = cells[current_char_idx];
            match c {
                '-' => {
                    mb.map.tiles.set(idx, TileType::Floor);
                },
                '#' => {
                    mb.map.tiles.set(idx, TileType::Wall);
                },
                'M' => {
                    mb.map.tiles.set(idx, TileType::Floor);
                    mb.monster_spawns.push(Point::new(px, py));
                },
                _ => {},
            }
            proof {
                assert forall|i: int| 0 <= i < NUM_TILES implies #[trigger] mb.map.tiles@[i] == if in_rect(spec_point_of(i), x as int, y as int, w as int, (py - y) as int)
                        || (spec_point_of(i).y == py && x <= spec_point_of(i).x < px + 1) {
                        stamped_tiles(old_tiles, cells@, x as int, y as int, w as int, h as int)[i]
                    } else {
                        old_tiles[i]
                    } by {
                    lemma_index_point_roundtrip(i, Point { x: px, y: py });
                    if i == idx {
                        assert(spec_point_of(i) == Point { x: px, y: py });
                    } else {
                        let q = spec_point_of(i);
                        assert(!(q.y == py && q.x == px));
                    }
                }
                assert(monster_cells(cells@, x as int, y as int, w as int, k + 1) == if cells@[k] == 'M' {
                    monster_cells(cells@, x as int, y as int, w as int, k).push(Point { x: px, y: py })
                } else {
                    monster_cells(cells@, x as int, y as int, w as int, k)
                });
            }
            current_char_idx += 1;
            px += 1;
        }
        proof {
            assert forall|i: int| 0 <= i < NUM_TILES implies #[trigger] mb.map.tiles@[i] == if in_rect(spec_point_of(i), x as int, y as int, w as int, (py + 1 - y) as int) {
                    stamped_tiles(old_tiles, cells@, x as int, y as int, w as int, h as int)[i]
                } else {
                    old_tiles[i]
                } by {
                lemma_index_point_roundtrip(i, Point { x: 0, y: 0 });
            }
            assert((py - y) * w + w == (py + 1 - y) * w) by (nonlinear_arith);
        }
        py += 1;
    }
    proof {
        assert forall|i: int| 0 <= i < NUM_TILES implies #[trigger] mb.map.tiles@[i] == stamped_tiles(old_tiles, cells@, x as int, y as int, w as int, h as int)[i] by {
            lemma_index_point_roundtrip(i, Point { x: 0, y: 0 });
        }
        assert(mb.map.tiles@ == stamped_tiles(old_tiles, cells@, x as int, y as int, w as int, h as int));
        assert((py - y) * w == w * h) by (nonlinear_arith) requires py == y + h;
    }
}

/// Whether `mb2` is `mb` with the vault that `roll` gives stamped at `(x, y)`, a place where
/// it can go.
pub open spec fn is_prefab_placement(
    mb: &MapBuilder,
    mb2: &MapBuilder,
    distances: Seq<Option<u32>>,
    roll: int,
    x: int,
    y: int,
) -> bool {
    let p = spec_chosen_prefab(roll);
    let w = p.width as int;
    let h = p.height as int;
    let cells = prefab_cells(p.structure_str@);
    &&& 0 <= x < SCREEN_WIDTH - w
    &&& 0 <= y < SCREEN_HEIGHT - h
    &&& spec_can_place(distances, mb.amulet_start, x, y, w, h)
    &&& cells.len() >= w * h
    &&& mb2.map.tiles@ == stamped_tiles(mb.map.tiles@, cells, x, y, w, h)
    &&& mb2.monster_spawns@ == mb.monster_spawns@ + monster_cells(cells, x, y, w, w * h)
}

/// Whether `mb2` is what placing a vault gives on these draws: the vault that `roll` gives, and
/// the corners `xs[k]`, `ys[k]` drawn in turn, each in range, the vault unable to go at every
/// one but the last. When it can go at the last corner it is stamped there; otherwise ten
/// corners were drawn and the map is left as it was.
pub open spec fn is_prefab_outcome(
    mb: &MapBuilder,
    mb2: &MapBuilder,
    distances: Seq<Option<u32>>,
    roll: int,
    xs: Seq<int>,
    ys: Seq<int>,
) -> bool {
    let p = spec_chosen_prefab(roll);
    let w = p.width as int;
    let h = p.height as int;
    let n = xs.len() as int;
    &&& 0 <= roll < 2
    &&& ys.len() == n
    &&& 1 <= n <= 10
    &&& forall|k: int|
        0 <= k < n ==> 0 <= #[trigger] xs[k] < SCREEN_WIDTH - w && 0 <= ys[k] < SCREEN_HEIGHT - h
    &&& forall|k: int|
        0 <= k < n - 1 ==> !spec_can_place(distances, mb.amulet_start, #[trigger] xs[k], ys[k], w, h)
    &&& if spec_can_place(distances, mb.amulet_start, xs[n - 1], ys[n - 1], w, h) {
        is_prefab_placement(mb, mb2, distances, roll, xs[n - 1], ys[n - 1])
    } else {
        &&& n == 10
        &&& mb2.map.tiles@ == mb.map.tiles@
        &&& mb2.monster_spawns@ == mb.monster_spawns@
    }
}

/// Stamps one of the two vaults, drawn at random, onto the map, at the first of at most ten
/// places drawn at random where it can go: some tile it covers is reachable more than twenty
/// steps from the player (`distances` are the pathing distances from the player's start, one
/// per tile, `None` where unreachable) and is not the amulet's place. After ten places that
/// do not do, the map is left as it is.
pub fn apply_prefab(mb: &mut MapBuilder, rng: &mut RandomNumberGenerator, distances: &Vec<Option<u32>>)
    requires
        old(mb).map.wf(),
        distances@.len() == NUM_TILES,
    ensures
        final(mb).map.wf(),
        final(mb).map.revealed_tiles == old(mb).map.revealed_tiles,
        final(mb).player_start == old(mb).player_start,
        final(mb).amulet_start == old(mb).amulet_start,
        exists|roll: int, xs: Seq<int>, ys: Seq<int>|
            #[trigger] is_prefab_outcome(old(mb), final(mb), distances@, roll, xs, ys),
{
    let roll = range_i8(rng, 0, 2);
    let prefab = choose_prefab(roll);
    let mut placement: Option<Point> = None;
    let mut attempts: i32 = 0;
    let ghost mut xs: Seq<int> = Seq::empty();
    let ghost mut ys: Seq<int> = Seq::empty();
    let ghost w = prefab.width as int;
    let ghost h = prefab.height as int;
    while placement.is_none() && attempts < 10
        invariant
            prefab == spec_chosen_prefab(roll as int),
            prefab_fits(prefab),
            w == prefab.width,
            h == prefab.height,
            *mb == *old(mb),
            distances@.len() == NUM_TILES,
            0 <= attempts <= 10,
            xs.len() == attempts,
            ys.len() == attempts,
            forall|k: int|
                0 <= k < attempts ==> 0 <= #[trigger] xs[k] < SCREEN_WIDTH - w && 0 <= ys[k]
                    < SCREEN_HEIGHT - h,
            forall|k: int|
                0 <= k < attempts - (if placement is Some { 1int } else { 0 }) ==> !spec_can_place(
                    distances@,
                    mb.amulet_start,
                    #[trigger] xs[k],
                    ys[k],
                    w,
                    h,
                ),
            placement matches Some(pt) ==> attempts >= 1 && pt.x == xs[attempts - 1] && pt.y
                == ys[attempts - 1] && spec_can_place(
                distances@,
                mb.amulet_start,
                pt.x as int,
                pt.y as int,
                w,
                h,
            ),
        decreases 10 - attempts,
    {
        let x = range_i32(rng, 0, SCREEN_WIDTH - prefab.width);
        let y = range_i32(rng, 0, SCREEN_HEIGHT - prefab.height);
        let place = can_place(distances, mb.amulet_start, x, y, prefab.width, prefab.height);
        proof {
            xs = xs.push(x as int);
            ys = ys.push(y as int);
        }
        attempts += 1;
        if place {
            placement = Some(Point::new(x, y));
        }
    }
    if let Some(pt) = placement {
        let cells = layout_cells(prefab.structure_str);
        proof {
            lemma_chess_complete();
            lemma_fortress_complete();
            if roll == 1 {
                assert(prefab == spec_chess());
                assert(prefab.width * prefab.height == 55);
            } else {
                assert(prefab == spec_fortress());
                assert(prefab.width * prefab.height == 192);
            }
        }
        stamp_prefab(mb, &cells, pt.x, pt.y, prefab.width, prefab.height);
        assert(is_prefab_placement(old(mb), mb, distances@, roll as int, pt.x as int, pt.y as int));
        assert(is_prefab_outcome(old(mb), mb, distances@, roll as int, xs, ys));
    } else {
        assert(is_prefab_outcome(old(mb), mb, distances@, roll as int, xs, ys));
    }
}

} // verus!
