//! Carrying out the moves that entities want to make.
use vstd::prelude::*;
use crate::components::{Entity, WantsToMove};
use crate::geometry::{indexable, map_idx, spec_camera_at, spec_idx, spec_in_bounds, Camera, Point};
use crate::map::{spec_walkable, GameMap};
use crate::world::{
    components_of, has_entity, lemma_find_entity, Command, CommandBuffer, Component,
    World,
};

verus! {

/// Whether the move to `dest` is allowed: onto a walkable tile of the map.
pub open spec fn can_enter(map: &GameMap, dest: Point) -> bool {
    spec_in_bounds(dest) && spec_walkable(map.tile_at(dest))
}

/// Whether a command gives `e` an empty view of radius `radius`, due to be computed.
pub open spec fn is_fresh_view_for(cmd: Command, e: Entity, radius: i32) -> bool {
    cmd matches Command::AddComponent(e2, Component::FieldOfView(f)) && e2 == e
        && f.visible_tiles@.len() == 0 && f.radius == radius && f.is_dirty
}

/// Whether `movement` can run: the moving entity exists when the move is allowed, and when
/// it is the player with a view, every tile it sees indexes the map.
pub open spec fn movement_ready(want_move: WantsToMove, map: &GameMap, ecs: &World) -> bool {
    let e = want_move.entity;
    can_enter(map, want_move.destination) ==> {
        &&& has_entity(ecs.records@, e)
        &&& (components_of(ecs.records@, e).player is Some && components_of(ecs.records@, e).field_of_view is Some)
            ==> forall|k: int| 0 <= k < components_of(ecs.records@, e).field_of_view->0.visible_tiles@.len()
                ==> indexable(#[trigger] components_of(ecs.records@, e).field_of_view->0.visible_tiles@[k])
    }
}

/// Moves the entity of message `entity`, when the destination can be entered: queues its new
/// position and, if it has a view, a fresh view of the same radius; when it is the player,
/// the tiles it saw become revealed and the camera follows it. The message is removed
/// either way.
pub fn movement(
    entity: &Entity,
    want_move: &WantsToMove,
    map: &mut GameMap,
    camera: &mut Camera,
    ecs: &World,
    commands: &mut CommandBuffer,
)
    requires
        old(map).wf(),
        movement_ready(*want_move, old(map), ecs),
    ensures
        ({
            let e = want_move.entity;
            let dest = want_move.destination;
            let old_cmds = old(commands).commands@;
            let cmds = final(commands).commands@;
            let n = old_cmds.len();
            let c = components_of(ecs.records@, e);
            let moved = can_enter(old(map), dest);
            let is_player = moved && c.player is Some;
            let sees = moved && c.field_of_view is Some;
            &&& final(map).wf()
            &&& final(map).tiles == old(map).tiles
            &&& cmds.take(n as int) == old_cmds
            &&& cmds.len() == n + 1 + (if moved { 1int } else { 0 }) + (if sees { 1int } else { 0 })
            &&& moved ==> cmds[n as int] == Command::AddComponent(e, Component::Position(dest))
            &&& sees ==> is_fresh_view_for(cmds[n + 1int], e, c.field_of_view->0.radius)
            &&& cmds.last() == Command::Remove(*entity)
            &&& *final(camera) == if is_player {
                spec_camera_at(dest)
            } else {
                *old(camera)
            }
            &&& forall|i: int|
                0 <= i < final(map).revealed_tiles@.len() ==> #[trigger] final(map).revealed_tiles@[i]
                    == (old(map).revealed_tiles@[i] || (is_player && sees && exists|k: int|
                    0 <= k < c.field_of_view->0.visible_tiles@.len() && spec_idx(
                        c.field_of_view->0.visible_tiles@[k],
                    ) == i))
        }),
{
    let ghost old_cmds = commands.commands@;
    let dest = want_move.destination;
    if map.can_enter_tile(dest) {
        let e = want_move.entity;
        commands.add_component(e, Component::Position(dest));
        proof {
            lemma_find_entity(ecs.records@, e);
        }
        let i = ecs.find(e).unwrap();
        let c = &ecs.records[i].components;
        let is_player = c.player.is_some();
        if let Some(fov) = &c.field_of_view {
            commands.add_component(e, Component::FieldOfView(fov.clone_dirty()));
            if is_player {
                let ghost before = map.revealed_tiles@;
                let mut k: usize = 0;
                while k < fov.visible_tiles.len()
                    invariant
                        map.wf(),
                        map.tiles == old(map).tiles,
                        before == old(map).revealed_tiles@,
                        c.field_of_view == Some(*fov),
                        k <= fov.visible_tiles@.len(),
                        forall|j: int| 0 <= j < fov.visible_tiles@.len() ==> indexable(#[trigger] fov.visible_tiles@[j]),
                        forall|x: int|
                            0 <= x < map.revealed_tiles@.len() ==> #[trigger] map.revealed_tiles@[x] == (before[x]
                                || exists|j: int| 0 <= j < k && spec_idx(fov.visible_tiles@[j]) == x),
                    decreases fov.visible_tiles@.len() - k,
                {
                    let p = fov.visible_tiles[k];
                    assert(indexable(fov.visible_tiles@[k as int]));
                    let idx = map_idx(p.x, p.y);
                    map.revealed_tiles.set(idx, true);
                    proof {
                        assert forall|x: int|
                            0 <= x < map.revealed_tiles@.len() implies #[trigger] map.revealed_tiles@[x] == (before[x]
                                || exists|j: int| 0 <= j < k + 1 && spec_idx(fov.visible_tiles@[j]) == x) by {
                            if x == idx {
                                assert(spec_idx(fov.visible_tiles@[k as int]) == x);
                            }
                        }
                    }
                    k += 1;
                }
            }
        }
        if is_player {
            camera.on_player_move(dest);
        }
    }
    commands.remove(*entity);
    proof {
        assert(commands.commands@.take(old_cmds.len() as int) =~= old_cmds);
    }
}

} // verus!
