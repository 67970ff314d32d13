//! Turning the player's key presses into moves, attacks, pick-ups and item use.
use vstd::prelude::*;
use crate::components::Entity;
use crate::geometry::{can_offset, indexable, map_idx, Point};
use crate::inventory::{carried_groups, group_carried, group_map_get_index};
use crate::map::{GameMap, TileType};
use crate::turn_state::TurnState;
use crate::world::{
    activate_message, attack_message, first_answer, lemma_first_answer, move_message, Command,
    CommandBuffer, Component, ComponentKind, Components, EntityRecord, Query, World,
};

verus! {

/// The keys the game reads.
#[derive(Clone, Copy, Debug, PartialEq, Eq, Structural)]
pub enum Key {
    W,
    A,
    S,
    D,
    G,
    Key1,
    Key2,
    Key3,
    Key4,
    Key5,
    Key6,
    Key7,
    Key8,
    Key9,
    Return,
    Other,
}

/// The step a key asks of the player: W up, A left, S down, D right, none otherwise.
pub open spec fn key_delta(k: Key) -> Point {
    match k {
        Key::W => Point { x: 0, y: -1i32 },
        Key::A => Point { x: -1i32, y: 0 },
        Key::S => Point { x: 0, y: 1 },
        Key::D => Point { x: 1, y: 0 },
        _ => Point { x: 0, y: 0 },
    }
}

/// The inventory slot a number key uses: 0 for key 1 up to 8 for key 9.
pub open spec fn key_slot(k: Key) -> Option<usize> {
    match k {
        Key::Key1 => Some(0usize),
        Key::Key2 => Some(1usize),
        Key::Key3 => Some(2usize),
        Key::Key4 => Some(3usize),
        Key::Key5 => Some(4usize),
        Key::Key6 => Some(5usize),
        Key::Key7 => Some(6usize),
        Key::Key8 => Some(7usize),
        Key::Key9 => Some(8usize),
        _ => None,
    }
}

/// The commands that pick up, for `player` standing at `pos`, the items among the first `n`
/// records that lie there: each loses its position and is carried by the player.
pub open spec fn pickup_commands(recs: Seq<EntityRecord>, player: Entity, pos: Point, n: int) -> Seq<Command>
    decreases n,
{
    if n <= 0 {
        Seq::empty()
    } else {
        let rest = pickup_commands(recs, player, pos, n - 1);
        let c = recs[n - 1].components;
        if c.item && c.position == Some(pos) {
            rest.push(Command::RemoveComponent(recs[n - 1].entity, ComponentKind::Position)).push(
                Command::AddComponent(recs[n - 1].entity, Component::Carried(player)),
            )
        } else {
            rest
        }
    }
}

/// The command, if any, by which `player` uses the item in `slot`: the last item of the
/// group of that rank, among the carried items grouped by name.
pub open spec fn use_item_commands(recs: Seq<EntityRecord>, player: Entity, slot: usize) -> Seq<Command> {
    let g = carried_groups(recs, player);
    if slot < g.len() {
        seq![Command::Spawn(activate_message(g[slot as int].1.last(), player))]
    } else {
        Seq::empty()
    }
}

/// The attacks by `player` on the enemies, among the first `n` records, that stand at `dest`.
pub open spec fn player_attacks_upto(recs: Seq<EntityRecord>, player: Entity, dest: Point, n: int) -> Seq<Command>
    decreases n,
{
    if n <= 0 {
        Seq::empty()
    } else {
        let rest = player_attacks_upto(recs, player, dest, n - 1);
        let c = recs[n - 1].components;
        if c.enemy && c.position == Some(dest) {
            rest.push(Command::Spawn(attack_message(player, recs[n - 1].entity)))
        } else {
            rest
        }
    }
}

/// The messages of the first `n` records that are players with a position, each stepping
/// by `delta`: an attack on each enemy in the way, or else a move.
pub open spec fn player_steps(recs: Seq<EntityRecord>, delta: Point, n: int) -> Seq<Command>
    decreases n,
{
    if n <= 0 {
        Seq::empty()
    } else {
        let rest = player_steps(recs, delta, n - 1);
        let c = recs[n - 1].components;
        if c.player is Some && c.position is Some {
            let p = c.position->0;
            let dest = Point { x: (p.x + delta.x) as i32, y: (p.y + delta.y) as i32 };
            let e = recs[n - 1].entity;
            let attacks = player_attacks_upto(recs, e, dest, recs.len() as int);
            rest + attacks + if attacks.len() == 0 {
                seq![Command::Spawn(move_message(e, dest))]
            } else {
                Seq::empty()
            }
        } else {
            rest
        }
    }
}

/// The commands of a key press before the players step: a pick-up or the use of an item.
pub open spec fn key_action_commands(recs: Seq<EntityRecord>, k: Key) -> Seq<Command> {
    if k == Key::G {
        let pi = first_answer(recs, Query::PlayerAt);
        pickup_commands(recs, recs[pi].entity, recs[pi].components.position->0, recs.len() as int)
    } else if key_slot(k) is Some {
        let pi = first_answer(recs, Query::Player);
        use_item_commands(recs, recs[pi].entity, key_slot(k)->0)
    } else {
        Seq::empty()
    }
}

/// The commands that a key press gives.
pub open spec fn input_commands(recs: Seq<EntityRecord>, k: Key) -> Seq<Command> {
    key_action_commands(recs, k) + player_steps(recs, key_delta(k), recs.len() as int)
}

/// Whether `player_input` can handle key `k`: a pick-up or the exit key needs a player with
/// a position (for the exit key, one that indexes the map), a number key needs a player,
/// and every player can take its step without leaving `i32`.
pub open spec fn input_ready(recs: Seq<EntityRecord>, k: Key) -> bool {
    &&& (k == Key::G || k == Key::Return) ==> first_answer(recs, Query::PlayerAt) >= 0
    &&& k == Key::Return ==> indexable(recs[first_answer(recs, Query::PlayerAt)].components.position->0)
    &&& key_slot(k) is Some ==> first_answer(recs, Query::Player) >= 0
    &&& forall|i: int|
        0 <= i < recs.len() && (#[trigger] recs[i]).components.player is Some
            && recs[i].components.position is Some ==> can_offset(recs[i].components.position->0, key_delta(k))
}

/// The player (the first entity that is the player) uses the item in slot `index`: the last
/// of the items of the group of that rank, when the carried items are grouped by name.
/// Nothing happens when there is no such group. Returns no step.
pub fn use_item(index: usize, ecs: &World, commands: &mut CommandBuffer) -> (r: Point)
    requires
        first_answer(ecs.records@, Query::Player) >= 0,
    ensures
        r == (Point { x: 0, y: 0 }),
        final(commands).commands@ == old(commands).commands@ + use_item_commands(
            ecs.records@,
            ecs.records@[first_answer(ecs.records@, Query::Player)].entity,
            index,
        ),
{
    proof {
        lemma_first_answer(ecs.records@, Query::Player);
    }
    let pi = ecs.first(Query::Player).unwrap();
    let player_entity = ecs.records[pi].entity;
    let item_map = group_carried(&ecs.records, player_entity);
    let ghost old_cmds = commands.commands@;
    if let Some((_name, items)) = group_map_get_index(&item_map, index) {
        assert(items@.len() > 0);
        let item = items[items.len() - 1];
        commands.push(Components::activate_message(item, player_entity));
        proof {
            assert(commands.commands@ =~= old_cmds + use_item_commands(ecs.records@, player_entity, index));
        }
    } else {
        proof {
            assert(commands.commands@ =~= old_cmds + use_item_commands(ecs.records@, player_entity, index));
        }
    }
    Point::zero()
}

/// Handles a key press, if there is one: a pick-up takes every item where the player stands;
/// a number key uses an item; the exit key is read (it ends as the player's turn too); then
/// every player steps by the key's direction (none for other keys), attacking the enemies
/// in the way or else moving, and it is the player's turn.
pub fn player_input(
    ecs: &World,
    key: &Option<Key>,
    turn_state: &mut TurnState,
    map: &GameMap,
    commands: &mut CommandBuffer,
)
    requires
        map.wf(),
        *key matches Some(k) ==> input_ready(ecs.records@, k),
    ensures
        match *key {
            None => {
                &&& *final(turn_state) == *old(turn_state)
                &&& final(commands).commands@ == old(commands).commands@
            },
            Some(k) => {
                &&& *final(turn_state) == TurnState::PlayerTurn
                &&& final(commands).commands@ == old(commands).commands@ + input_commands(ecs.records@, k)
            },
        },
{
    let ghost recs = ecs.records@;
    let ghost old_cmds = commands.commands@;
    if let Some(key) = key {
        proof {
            lemma_first_answer(recs, Query::PlayerAt);
            lemma_first_answer(recs, Query::Player);
        }
        let delta = match key {
            Key::W => Point::new(0, -1),
            Key::A => Point::new(-1, 0),
            Key::S => Point::new(0, 1),
            Key::D => Point::new(1, 0),
            Key::G => {
                let pi = ecs.first(Query::PlayerAt).unwrap();
                let player_entity = ecs.records[pi].entity;
                let player_pos = ecs.records[pi].components.position.unwrap();
                let mut i: usize = 0;
                while i < ecs.records.len()
                    invariant
                        recs == ecs.records@,
                        i <= recs.len(),
                        commands.commands@ == old_cmds + pickup_commands(recs, player_entity, player_pos, i as int),
                    decreases recs.len() - i,
                {
                    let c = &ecs.records[i].components;
                    if c.item && c.position == Some(player_pos) {
                        let item_entity = ecs.records[i].entity;
                        commands.remove_component(item_entity, ComponentKind::Position);
                        commands.add_component(item_entity, Component::Carried(player_entity));
                    }
                    proof {
                        assert(commands.commands@ =~= old_cmds + pickup_commands(recs, player_entity, player_pos, i + 1));
                    }
                    i += 1;
                }
                Point::zero()
            },
            Key::Key1 => use_item(0, ecs, commands),
            Key::Key2 => use_item(1, ecs, commands),
            Key::Key3 => use_item(2, ecs, commands),
            Key::Key4 => use_item(3, ecs, commands),
            Key::Key5 => use_item(4, ecs, commands),
            Key::Key6 => use_item(5, ecs, commands),
            Key::Key7 => use_item(6, ecs, commands),
            Key::Key8 => use_item(7, ecs, commands),
            Key::Key9 => use_item(8, ecs, commands),
            Key::Return => {
                let pi = ecs.first(Query::PlayerAt).unwrap();
                let player_pos = ecs.records[pi].components.position.unwrap();
                let player_idx = map_idx(player_pos.x, player_pos.y);
                if map.tiles[player_idx] == TileType::Exit {
                    *turn_state = TurnState::NextLevel;
                    Point::zero()
                } else {
                    Point::zero()
                }
            },
            _ => Point::zero(),
        };
        let ghost mid = commands.commands@;
        assert(mid == old_cmds + key_action_commands(recs, *key));
        assert(delta == key_delta(*key));
        let mut i: usize = 0;
        while i < ecs.records.len()
            invariant
                recs == ecs.records@,
                input_ready(recs, *key),
                delta == key_delta(*key),
                i <= recs.len(),
                commands.commands@ == mid + player_steps(recs, delta, i as int),
            decreases recs.len() - i,
        {
            let c = &ecs.records[i].components;
            if c.player.is_some() && c.position.is_some() {
                let pos = c.position.unwrap();
                let player_entity = ecs.records[i].entity;
                assert(can_offset(pos, key_delta(*key)));
                let destination = pos.offset_by(delta);
                let ghost before = commands.commands@;
                let mut attack_initiated = false;
                let mut j: usize = 0;
                while j < ecs.records.len()
                    invariant
                        recs == ecs.records@,
                        j <= recs.len(),
                        commands.commands@ == before + player_attacks_upto(recs, player_entity, destination, j as int),
                        attack_initiated == (player_attacks_upto(recs, player_entity, destination, j as int).len() > 0),
                    decreases recs.len() - j,
                {
                    let d = &ecs.records[j].components;
                    if d.enemy && d.position == Some(destination) {
                        attack_initiated = true;
                        commands.push(Components::attack_message(player_entity, ecs.records[j].entity));
                    }
                    proof {
                        assert(commands.commands@ =~= before + player_attacks_upto(recs, player_entity, destination, j + 1));
                    }
                    j += 1;
                }
                if !attack_initiated {
                    commands.push(Components::move_message(player_entity, destination));
                }
                proof {
                    assert(commands.commands@ =~= mid + player_steps(recs, delta, i + 1));
                }
            } else {
                proof {
                    assert(commands.commands@ =~= mid + player_steps(recs, delta, i + 1));
                }
            }
            i += 1;
        }
        proof {
            assert(commands.commands@ =~= old_cmds + input_commands(recs, *key));
        }
        *turn_state = TurnState::PlayerTurn;
    }
}

} // verus!
