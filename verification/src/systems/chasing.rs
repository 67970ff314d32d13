//! Monsters that chase the player when they see it, and wander otherwise.
use vstd::prelude::*;
use crate::components::Entity;
use crate::geometry::{indexable, map_idx, spec_distance_sq, spec_idx, spec_point_of, Point, NUM_TILES};
use crate::map::GameMap;
use crate::map_builder::drunkards_walk::spec_step;
use crate::rng::{new_rng, range_i32};
use crate::world::{
    attack_message, first_answer, lemma_first_answer, move_message, Command, CommandBuffer,
    Components, EntityRecord, Query, World,
};

verus! {

/// The indices of the first `n` records that chase the player: with a position and a view.
pub open spec fn chasers_upto(recs: Seq<EntityRecord>, n: int) -> Seq<int>
    decreases n,
{
    if n <= 0 {
        Seq::empty()
    } else {
        let rest = chasers_upto(recs, n - 1);
        let c = recs[n - 1].components;
        if c.position is Some && c.chasing_player && c.field_of_view is Some {
            rest.push(n - 1)
        } else {
            rest
        }
    }
}

/// The indices of the records that chase the player.
pub open spec fn chasers(recs: Seq<EntityRecord>) -> Seq<int> {
    chasers_upto(recs, recs.len() as int)
}

/// The message of the chaser at record `i`, the player being `player` at `target`. One that
/// does not see the player steps at random on `roll`. One that sees it takes the exit that
/// `exits` gives for its tile (the neighbour closest to the player, if any): a move there
/// when the player is not orthogonally next to it (a distance of 1.2 or more, that is a
/// squared distance of 2 or more), an attack on the player otherwise.
pub open spec fn chase_command(
    recs: Seq<EntityRecord>,
    exits: Seq<Option<usize>>,
    i: int,
    player: Entity,
    target: Point,
    roll: int,
) -> Option<Command> {
    let c = recs[i].components;
    let e = recs[i].entity;
    let pos = c.position->0;
    if !c.field_of_view->0.visible_tiles@.contains(target) {
        let d = spec_step(roll);
        Some(Command::Spawn(move_message(e, Point { x: (pos.x + d.x) as i32, y: (pos.y + d.y) as i32 })))
    } else {
        match exits[spec_idx(pos)] {
            None => None,
            Some(dest) => if spec_distance_sq(pos, target) >= 2 {
                Some(Command::Spawn(move_message(e, spec_point_of(dest as int))))
            } else {
                Some(Command::Spawn(attack_message(e, player)))
            },
        }
    }
}

/// The messages of the first `n` chasers, on the given rolls.
pub open spec fn chase_all(
    recs: Seq<EntityRecord>,
    exits: Seq<Option<usize>>,
    cs: Seq<int>,
    player: Entity,
    target: Point,
    rolls: Seq<int>,
    n: int,
) -> Seq<Command>
    decreases n,
{
    if n <= 0 {
        Seq::empty()
    } else {
        let rest = chase_all(recs, exits, cs, player, target, rolls, n - 1);
        match chase_command(recs, exits, cs[n - 1], player, target, rolls[n - 1]) {
            Some(cmd) => rest.push(cmd),
            None => rest,
        }
    }
}

/// Whether `chasing` can run: a player with a position exists; every exit is a tile; and
/// every chaser that does not see the player can step without leaving `i32`, and every one
/// that sees it stands on a point that indexes the map, no farther from the player than an
/// `i32` spans.
pub open spec fn chasing_ready(recs: Seq<EntityRecord>, exits: Seq<Option<usize>>) -> bool {
    let pi = first_answer(recs, Query::PlayerAt);
    let target = recs[pi].components.position->0;
    &&& pi >= 0
    &&& exits.len() == NUM_TILES
    &&& forall|k: int| 0 <= k < NUM_TILES ==> (#[trigger] exits[k] matches Some(d) ==> d < NUM_TILES)
    &&& forall|k: int|
        0 <= k < chasers(recs).len() ==> {
            let c = recs[#[trigger] chasers(recs)[k]].components;
            let p = c.position->0;
            &&& !c.field_of_view->0.visible_tiles@.contains(target) ==> {
                &&& i32::MIN < p.x < i32::MAX
                &&& i32::MIN < p.y < i32::MAX
            }
            &&& c.field_of_view->0.visible_tiles@.contains(target) ==> {
                &&& indexable(p)
                &&& i32::MIN <= p.x - target.x <= i32::MAX
                &&& i32::MIN <= p.y - target.y <= i32::MAX
            }
        }
}

/// The squared distance between two points no farther apart than an `i32` spans.
fn distance_sq(a: Point, b: Point) -> (d: i128)
    requires
        i32::MIN <= a.x - b.x <= i32::MAX,
        i32::MIN <= a.y - b.y <= i32::MAX,
    ensures
        d == spec_distance_sq(a, b),
{
    let dx = a.x as i128 - b.x as i128;
    let dy = a.y as i128 - b.y as i128;
    assert(0 <= dx * dx <= 0x4000_0000_0000_0000 && 0 <= dy * dy <= 0x4000_0000_0000_0000) by (nonlinear_arith)
        requires
            -0x8000_0000 <= dx <= 0x7fff_ffff,
            -0x8000_0000 <= dy <= 0x7fff_ffff,
    ;
    dx * dx + dy * dy
}

/// The monsters chase the player (the first entity with a position that is the player), in
/// order; `exits` gives, for each tile, the neighbouring tile that leads closest to the
/// player, if any, as pathfinding towards the player's tile finds it. Those that do not see
/// the player step at random instead.
pub fn chasing(ecs: &World, commands: &mut CommandBuffer, map: &GameMap, exits: &Vec<Option<usize>>)
    requires
        chasing_ready(ecs.records@, exits@),
    ensures
        ({
            let recs = ecs.records@;
            let pi = first_answer(recs, Query::PlayerAt);
            let cs = chasers(recs);
            exists|rolls: Seq<int>|
                {
                    &&& rolls.len() == cs.len()
                    &&& forall|k: int| 0 <= k < rolls.len() ==> 0 <= #[trigger] rolls[k] < 4
                    &&& final(commands).commands@ == old(commands).commands@ + chase_all(
                        recs,
                        exits@,
                        cs,
                        recs[pi].entity,
                        recs[pi].components.position->0,
                        rolls,
                        rolls.len() as int,
                    )
                }
        }),
{
    let ghost recs = ecs.records@;
    let ghost cs = chasers(recs);
    let ghost old_cmds = commands.commands@;
    proof {
        lemma_first_answer(recs, Query::PlayerAt);
    }
    let pi = ecs.first(Query::PlayerAt).unwrap();
    let player_entity = ecs.records[pi].entity;
    let player_pos = ecs.records[pi].components.position.unwrap();
    let mut rng = new_rng();
    let ghost mut rolls: Seq<int> = Seq::empty();
    let mut i: usize = 0;
    while i < ecs.records.len()
        invariant
            recs == ecs.records@,
            cs == chasers(recs),
            chasing_ready(recs, exits@),
            pi == first_answer(recs, Query::PlayerAt),
            player_entity == recs[pi as int].entity,
            player_pos == recs[pi as int].components.position->0,
            i <= recs.len(),
            rolls.len() == chasers_upto(recs, i as int).len(),
            chasers_upto(recs, i as int) == cs.take(rolls.len() as int),
            rolls.len() <= cs.len(),
            forall|k: int| 0 <= k < rolls.len() ==> 0 <= #[trigger] rolls[k] < 4,
            commands.commands@ == old_cmds + chase_all(recs, exits@, cs, player_entity, player_pos, rolls, rolls.len() as int),
        decreases recs.len() - i,
    {
        let c = &ecs.records[i].components;
        proof {
            lemma_chasers_prefix(recs, i + 1, recs.len() as int);
        }
        if c.chasing_player && c.position.is_some() && c.field_of_view.is_some() {
            let enemy_entity = ecs.records[i].entity;
            let enemy_pos = c.position.unwrap();
            let ghost n = rolls.len() as int;
            proof {
                let u = chasers_upto(recs, i + 1);
                assert(u == chasers_upto(recs, i as int).push(i as int));
                assert(cs.take(u.len() as int) == u);
                assert(cs.take(u.len() as int)[n] == cs[n]);
                assert(cs[n] == i);
            }
            let fov = c.field_of_view.as_ref().unwrap();
            let mut roll_used: i32 = 0;
            if !fov.is_visible(player_pos) {
                let roll = range_i32(&mut rng, 0, 4);
                roll_used = roll;
                let d = match roll {
                    0 => Point::new(1, 0),
                    1 => Point::new(0, 1),
                    2 => Point::new(-1, 0),
                    _ => Point::new(0, -1),
                };
                let destination = enemy_pos.offset_by(d);
                commands.push(Components::move_message(enemy_entity, destination));
            } else {
                let enemy_idx = map_idx(enemy_pos.x, enemy_pos.y);
                if let Some(destination) = exits[enemy_idx] {
                    let distance = distance_sq(enemy_pos, player_pos);
                    if distance >= 2 {
                        commands.push(Components::move_message(enemy_entity, map.index_to_point2d(destination)));
                    } else {
                        commands.push(Components::attack_message(enemy_entity, player_entity));
                    }
                }
            }
            proof {
                let r2 = rolls.push(roll_used as int);
                lemma_chase_all_prefix(recs, exits@, cs, player_entity, player_pos, rolls, r2, n);
                rolls = r2;
                assert(cs.take(n + 1) =~= cs.take(n).push(cs[n]));
                assert(commands.commands@ =~= old_cmds + chase_all(recs, exits@, cs, player_entity, player_pos, rolls, n + 1));
            }
        }
        i += 1;
    }
    proof {
        assert(cs.take(rolls.len() as int) =~= cs);
    }
}

proof fn lemma_chase_all_prefix(
    recs: Seq<EntityRecord>,
    exits: Seq<Option<usize>>,
    cs: Seq<int>,
    player: Entity,
    target: Point,
    a: Seq<int>,
    b: Seq<int>,
    n: int,
)
    requires
        0 <= n <= a.len(),
        n <= b.len(),
        forall|k: int| 0 <= k < n ==> a[k] == b[k],
    ensures
        chase_all(recs, exits, cs, player, target, a, n) == chase_all(recs, exits, cs, player, target, b, n),
    decreases n,
{
    if n > 0 {
        lemma_chase_all_prefix(recs, exits, cs, player, target, a, b, n - 1);
    }
}

proof fn lemma_chasers_prefix(recs: Seq<EntityRecord>, i: int, j: int)
    requires
        0 <= i <= j <= recs.len(),
    ensures
        chasers_upto(recs, i).len() <= chasers_upto(recs, j).len(),
        chasers_upto(recs, j).take(chasers_upto(recs, i).len() as int) == chasers_upto(recs, i),
    decreases j - i,
{
    if i < j {
        lemma_chasers_prefix(recs, i, j - 1);
        let a = chasers_upto(recs, i);
        let b = chasers_upto(recs, j - 1);
        let c = chasers_upto(recs, j);
        assert(c.take(b.len() as int) =~= b);
        assert(c.take(a.len() as int) =~= b.take(a.len() as int));
    } else {
        assert(chasers_upto(recs, i).take(chasers_upto(recs, i).len() as int) =~= chasers_upto(recs, i));
    }
}

} // verus!
