//! The end of a turn: whose turn is next, and whether the game is won or lost.
use vstd::prelude::*;
use crate::geometry::{indexable, map_idx, spec_idx, Point};
use crate::map::{GameMap, TileType};
use crate::turn_state::TurnState;
use crate::world::{first_answer, lemma_first_answer, Query, World};

verus! {

/// The turn after `t` when nothing ends the game: the enemies after the player, then input
/// again; a new level awaits input; an ended game stays ended.
pub open spec fn next_turn(t: TurnState) -> TurnState {
    match t {
        TurnState::PlayerTurn => TurnState::EnemyTurn,
        TurnState::EnemyTurn => TurnState::AwaitingInput,
        TurnState::NextLevel => TurnState::AwaitingInput,
        _ => t,
    }
}

/// The position of the amulet, or `(-1, -1)` when there is none.
pub open spec fn amulet_position(ecs: &World) -> Point {
    let j = first_answer(ecs.records@, Query::AmuletAt);
    if j >= 0 {
        ecs.records@[j].components.position->0
    } else {
        Point { x: -1i32, y: -1i32 }
    }
}

/// Whether `end_turn` can look up the player's tile: the player it finds, if any, stands at
/// a point that indexes the map.
pub open spec fn player_tile_indexable(ecs: &World) -> bool {
    let i = first_answer(ecs.records@, Query::PlayerWithHealth);
    i >= 0 ==> indexable(ecs.records@[i].components.position->0)
}

/// The state after the turn. Awaiting input stays so. Otherwise the turn moves on, unless
/// the player (the first with health and a position) has no health left (game over), stands
/// on the amulet (victory) or stands on the exit (next level), the later check winning.
pub open spec fn spec_end_turn(ecs: &World, t: TurnState, map: &GameMap) -> TurnState {
    if t == TurnState::AwaitingInput {
        t
    } else {
        let i = first_answer(ecs.records@, Query::PlayerWithHealth);
        if i < 0 {
            next_turn(t)
        } else {
            let c = ecs.records@[i].components;
            let pos = c.position->0;
            if map.tiles@[spec_idx(pos)] == TileType::Exit {
                TurnState::NextLevel
            } else if amulet_position(ecs) == pos {
                TurnState::Victory
            } else if c.health->0.current < 1 {
                TurnState::GameOver
            } else {
                next_turn(t)
            }
        }
    }
}

/// Ends the turn.
pub fn end_turn(ecs: &World, turn_state: &mut TurnState, map: &GameMap)
    requires
        map.wf(),
        *old(turn_state) != TurnState::AwaitingInput ==> player_tile_indexable(ecs),
    ensures
        *final(turn_state) == spec_end_turn(ecs, *old(turn_state), map),
{
    proof {
        lemma_first_answer(ecs.records@, Query::PlayerWithHealth);
        lemma_first_answer(ecs.records@, Query::AmuletAt);
    }
    let current_state = *turn_state;
    let mut new_state = match current_state {
        TurnState::AwaitingInput => {
            return ;
        },
        TurnState::PlayerTurn => TurnState::EnemyTurn,
        TurnState::EnemyTurn => TurnState::AwaitingInput,
        TurnState::NextLevel => TurnState::AwaitingInput,
        _ => current_state,
    };
    if let Some(i) = ecs.first(Query::PlayerWithHealth) {
        let c = &ecs.records[i].components;
        let player_health = c.health.unwrap();
        let player_pos = c.position.unwrap();
        if player_health.current < 1 {
            new_state = TurnState::GameOver;
        }
        let amulet_default = Point::new(-1, -1);
        let amulet_pos = match ecs.first(Query::AmuletAt) {
            Some(j) => ecs.records[j].components.position.unwrap(),
            None => amulet_default,
        };
        if amulet_pos == player_pos {
            new_state = TurnState::Victory;
        }
        let player_idx = map_idx(player_pos.x, player_pos.y);
        if map.tiles[player_idx] == TileType::Exit {
            new_state = TurnState::NextLevel;
        }
    }
    *turn_state = new_state;
}

} // verus!
