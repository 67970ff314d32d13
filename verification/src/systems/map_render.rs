//! What the map looks like on screen.
use vstd::prelude::*;
use crate::components::{to_cp437, Color, ColorPair};
use crate::geometry::{lemma_index_point_roundtrip, map_idx, spec_idx, spec_in_bounds, Camera, Point};
use crate::map::{GameMap, TileType};
use crate::world::{first_answer, lemma_first_answer, Query, World};

verus! {

/// A glyph to draw, where on the screen and in which colours.
#[derive(Clone, Copy, Debug, PartialEq, Eq, Structural)]
pub struct Cell {
    pub pos: Point,
    pub color: ColorPair,
    pub glyph: u16,
}

/// The glyph of a tile: `.` for floor, `#` for wall, `>` for the exit.
pub open spec fn tile_glyph(t: TileType) -> u16 {
    match t {
        TileType::Floor => 46,
        TileType::Wall => 35,
        TileType::Exit => 62,
    }
}

/// The cell of the map point `(x, y)` seen through `camera`, if it is drawn: a point of the
/// map that is in view (white) or revealed (dark grey), at its place on screen.
pub open spec fn map_cell(map: &GameMap, visible: Seq<Point>, camera: Camera, x: int, y: int) -> Option<Cell> {
    let pt = Point { x: x as i32, y: y as i32 };
    if spec_in_bounds(pt) && (visible.contains(pt) || map.revealed_tiles@[spec_idx(pt)]) {
        Some(Cell {
            pos: Point { x: (x - camera.left_x) as i32, y: (y - camera.top_y) as i32 },
            color: ColorPair {
                fg: if visible.contains(pt) { Color::White } else { Color::DarkGray },
                bg: Color::Black,
            },
            glyph: tile_glyph(map.tile_at(pt)),
        })
    } else {
        None
    }
}

/// The drawn cells of row `y`, from the camera's left edge up to `xend`.
pub open spec fn row_cells(map: &GameMap, visible: Seq<Point>, camera: Camera, y: int, xend: int) -> Seq<Cell>
    decreases xend - camera.left_x,
{
    if xend <= camera.left_x {
        Seq::empty()
    } else {
        let rest = row_cells(map, visible, camera, y, xend - 1);
        match map_cell(map, visible, camera, xend - 1, y) {
            Some(c) => rest.push(c),
            None => rest,
        }
    }
}

/// The drawn cells of the rows from the camera's top edge up to `yend`, row by row.
pub open spec fn view_cells(map: &GameMap, visible: Seq<Point>, camera: Camera, yend: int) -> Seq<Cell>
    decreases yend - camera.top_y,
{
    if yend <= camera.top_y {
        Seq::empty()
    } else {
        view_cells(map, visible, camera, yend - 1) + row_cells(map, visible, camera, yend - 1, camera.right_x as int)
    }
}

/// Whether every cell that is drawn, a point of the map in the camera's view that is seen or
/// revealed, has its place on screen within `i32`.
pub open spec fn drawn_cells_placeable(map: &GameMap, visible: Seq<Point>, camera: Camera) -> bool {
    forall|x: int, y: int|
        camera.left_x <= x < camera.right_x && camera.top_y <= y < camera.bottom_y && (
        #[trigger] map_cell(map, visible, camera, x, y)) is Some ==> i32::MIN <= x - camera.left_x
            <= i32::MAX && i32::MIN <= y - camera.top_y <= i32::MAX
}

/// The map as the player (the first with a view) sees it through the camera, row by row:
/// each point of the map in the view that the player sees or has revealed.
pub fn map_render(map: &GameMap, camera: &Camera, ecs: &World) -> (cells: Vec<Cell>)
    requires
        map.wf(),
        first_answer(ecs.records@, Query::PlayerWithView) >= 0,
        drawn_cells_placeable(
            map,
            ecs.records@[first_answer(ecs.records@, Query::PlayerWithView)].components.field_of_view->0.visible_tiles@,
            *camera,
        ),
    ensures
        cells@ == view_cells(
            map,
            ecs.records@[first_answer(ecs.records@, Query::PlayerWithView)].components.field_of_view->0.visible_tiles@,
            *camera,
            camera.bottom_y as int,
        ),
{
    proof {
        lemma_first_answer(ecs.records@, Query::PlayerWithView);
    }
    let pi = ecs.first(Query::PlayerWithView).unwrap();
    let fov = ecs.records[pi].components.field_of_view.as_ref().unwrap();
    let ghost vis = fov.visible_tiles@;
    assert(vis == ecs.records@[pi as int].components.field_of_view->0.visible_tiles@);
    let mut cells: Vec<Cell> = Vec::new();
    let mut y = camera.top_y;
    while y < camera.bottom_y
        invariant
            map.wf(),
            drawn_cells_placeable(map, vis, *camera),
            vis == fov.visible_tiles@,
            camera.top_y <= y <= if camera.bottom_y < camera.top_y {
                camera.top_y
            } else {
                camera.bottom_y
            },
            cells@ == view_cells(map, vis, *camera, y as int),
        decreases camera.bottom_y - y,
    {
        let mut x = camera.left_x;
        let ghost before = cells@;
        while x < camera.right_x
            invariant
                map.wf(),
                drawn_cells_placeable(map, vis, *camera),
                vis == fov.visible_tiles@,
                camera.top_y <= y < camera.bottom_y,
                camera.left_x <= x <= if camera.right_x < camera.left_x {
                    camera.left_x
                } else {
                    camera.right_x
                },
                cells@ == before + row_cells(map, vis, *camera, y as int, x as int),
                before == view_cells(map, vis, *camera, y as int),
            decreases camera.right_x - x,
        {
            let pt = Point::new(x, y);
            if map.in_bounds(pt) {
                proof {
                    lemma_index_point_roundtrip(0, pt);
                }
                let idx = map_idx(x, y);
                let visible = fov.is_visible(pt);
                if visible || map.revealed_tiles[idx] {
                    assert(map_cell(map, vis, *camera, x as int, y as int) is Some);
                    let glyph = match map.tiles[idx] {
                        TileType::Floor => to_cp437('.'),
                        TileType::Wall => to_cp437('#'),
                        TileType::Exit => to_cp437('>'),
                    };
                    let fg = if visible {
                        Color::White
                    } else {
                        Color::DarkGray
                    };
                    cells.push(Cell { pos: Point::new(x - camera.left_x, y - camera.top_y), color: ColorPair::new(fg, Color::Black), glyph });
                }
            }
            proof {
                assert(cells@ =~= before + row_cells(map, vis, *camera, y as int, x + 1));
            }
            x += 1;
        }
        proof {
            assert(row_cells(map, vis, *camera, y as int, x as int) == row_cells(map, vis, *camera, y as int, camera.right_x as int));
            assert(cells@ =~= view_cells(map, vis, *camera, y + 1));
        }
        y += 1;
    }
    proof {
        assert(view_cells(map, vis, *camera, y as int) == view_cells(map, vis, *camera, camera.bottom_y as int));
    }
    cells
}

} // verus!
