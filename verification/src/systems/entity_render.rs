//! What the entities look like on screen.
use vstd::prelude::*;
use crate::geometry::{Camera, Point};
use crate::systems::map_render::Cell;
use crate::world::{first_answer, lemma_first_answer, EntityRecord, Query, World};

verus! {

/// The cells of the entities, among the first `n` records, that have a position and a look
/// and stand where the player sees: each entity's glyph and colours at its place on screen.
pub open spec fn entity_cells(recs: Seq<EntityRecord>, visible: Seq<Point>, camera: Camera, n: int) -> Seq<Cell>
    decreases n,
{
    if n <= 0 {
        Seq::empty()
    } else {
        let rest = entity_cells(recs, visible, camera, n - 1);
        let c = recs[n - 1].components;
        if c.position is Some && c.render is Some && visible.contains(c.position->0) {
            let p = c.position->0;
            let r = c.render->0;
            rest.push(Cell { pos: Point { x: (p.x - camera.left_x) as i32, y: (p.y - camera.top_y) as i32 }, color: r.color, glyph: r.glyph })
        } else {
            rest
        }
    }
}

/// Whether every entity that is drawn, one with a position and a look that stands where the
/// player sees, can be placed on screen within `i32`.
pub open spec fn entities_placeable(recs: Seq<EntityRecord>, visible: Seq<Point>, camera: Camera) -> bool {
    forall|i: int|
        0 <= i < recs.len() && (#[trigger] recs[i]).components.position is Some
            && recs[i].components.render is Some && visible.contains(recs[i].components.position->0) ==> {
            let p = recs[i].components.position->0;
            i32::MIN <= p.x - camera.left_x <= i32::MAX && i32::MIN <= p.y - camera.top_y <= i32::MAX
        }
}

/// The entities that the player (the first with a view) sees, in order, drawn through the
/// camera.
pub fn entity_render(ecs: &World, camera: &Camera) -> (cells: Vec<Cell>)
    requires
        first_answer(ecs.records@, Query::PlayerWithView) >= 0,
        entities_placeable(
            ecs.records@,
            ecs.records@[first_answer(ecs.records@, Query::PlayerWithView)].components.field_of_view->0.visible_tiles@,
            *camera,
        ),
    ensures
        cells@ == entity_cells(
            ecs.records@,
            ecs.records@[first_answer(ecs.records@, Query::PlayerWithView)].components.field_of_view->0.visible_tiles@,
            *camera,
            ecs.records@.len() as int,
        ),
{
    proof {
        lemma_first_answer(ecs.records@, Query::PlayerWithView);
    }
    let pi = ecs.first(Query::PlayerWithView).unwrap();
    let fov = ecs.records[pi].components.field_of_view.as_ref().unwrap();
    let ghost vis = fov.visible_tiles@;
    assert(vis == ecs.records@[pi as int].components.field_of_view->0.visible_tiles@);
    let offset = camera.offset();
    let mut cells: Vec<Cell> = Vec::new();
    let mut i: usize = 0;
    while i < ecs.records.len()
        invariant
            i <= ecs.records@.len(),
            vis == fov.visible_tiles@,
            offset == (Point { x: camera.left_x, y: camera.top_y }),
            entities_placeable(ecs.records@, vis, *camera),
            cells@ == entity_cells(ecs.records@, vis, *camera, i as int),
        decreases ecs.records@.len() - i,
    {
        let c = &ecs.records[i].components;
        if let Some(pos) = c.position {
            if let Some(render) = c.render {
                if fov.is_visible(pos) {
                    assert(i32::MIN <= pos.x - camera.left_x <= i32::MAX);
                    cells.push(Cell { pos: Point::new(pos.x - offset.x, pos.y - offset.y), color: render.color, glyph: render.glyph });
                }
            }
        }
        i += 1;
    }
    cells
}

} // verus!
