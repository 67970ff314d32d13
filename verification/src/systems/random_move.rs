//! Monsters that wander at random, attacking the player when they bump into it.
use vstd::prelude::*;
use crate::components::Entity;
use crate::geometry::Point;
use crate::map_builder::drunkards_walk::{spec_step, step};
use crate::rng::{new_rng, range_i8};
use crate::world::{attack_message, move_message, Command, CommandBuffer, Components, EntityRecord, World};

verus! {

/// The indices of the first `n` records that wander at random and have a position.
pub open spec fn wanderers_upto(recs: Seq<EntityRecord>, n: int) -> Seq<int>
    decreases n,
{
    if n <= 0 {
        Seq::empty()
    } else {
        let rest = wanderers_upto(recs, n - 1);
        let c = recs[n - 1].components;
        if c.position is Some && c.moving_randomly {
            rest.push(n - 1)
        } else {
            rest
        }
    }
}

/// The indices of the records that wander at random.
pub open spec fn wanderers(recs: Seq<EntityRecord>) -> Seq<int> {
    wanderers_upto(recs, recs.len() as int)
}

/// The attacks by `attacker` on the players, among the first `n` records, that stand at `p`
/// with health.
pub open spec fn bump_attacks_upto(recs: Seq<EntityRecord>, attacker: Entity, p: Point, n: int) -> Seq<Command>
    decreases n,
{
    if n <= 0 {
        Seq::empty()
    } else {
        let rest = bump_attacks_upto(recs, attacker, p, n - 1);
        let c = recs[n - 1].components;
        if c.position == Some(p) && c.health is Some && c.player is Some {
            rest.push(Command::Spawn(attack_message(attacker, recs[n - 1].entity)))
        } else {
            rest
        }
    }
}

/// Whether some of the first `n` records stands at `p` with health.
pub open spec fn occupied_upto(recs: Seq<EntityRecord>, p: Point, n: int) -> bool
    decreases n,
{
    if n <= 0 {
        false
    } else {
        occupied_upto(recs, p, n - 1) || (recs[n - 1].components.position == Some(p)
            && recs[n - 1].components.health is Some)
    }
}

/// The messages of a wanderer `e` stepping to `p`: an attack on each player with health
/// there; and, when nothing with health stands there, a move.
pub open spec fn wander_commands(recs: Seq<EntityRecord>, e: Entity, p: Point) -> Seq<Command> {
    let n = recs.len() as int;
    bump_attacks_upto(recs, e, p, n) + if occupied_upto(recs, p, n) {
        Seq::empty()
    } else {
        seq![Command::Spawn(move_message(e, p))]
    }
}

/// Whether a command asks for a move.
pub open spec fn is_move(cmd: Command) -> bool {
    cmd matches Command::Spawn(c) && c.wants_to_move is Some
}

/// Whether some record stands at `p` with health.
pub open spec fn holds_creature(recs: Seq<EntityRecord>, p: Point) -> bool {
    exists|j: int|
        0 <= j < recs.len() && (#[trigger] recs[j]).components.position == Some(p)
            && recs[j].components.health is Some
}

proof fn lemma_occupied(recs: Seq<EntityRecord>, p: Point, n: int)
    requires
        0 <= n <= recs.len(),
    ensures
        occupied_upto(recs, p, n) <==> exists|j: int|
            0 <= j < n && (#[trigger] recs[j]).components.position == Some(p)
                && recs[j].components.health is Some,
    decreases n,
{
    if n > 0 {
        lemma_occupied(recs, p, n - 1);
        if occupied_upto(recs, p, n - 1) {
            let j = choose|j: int|
                0 <= j < n - 1 && (#[trigger] recs[j]).components.position == Some(p)
                    && recs[j].components.health is Some;
            assert(0 <= j < n);
        }
    }
}

proof fn lemma_bump_attacks(recs: Seq<EntityRecord>, e: Entity, p: Point, n: int)
    requires
        0 <= n <= recs.len(),
    ensures
        forall|k: int|
            0 <= k < bump_attacks_upto(recs, e, p, n).len() ==> !is_move(
                #[trigger] bump_attacks_upto(recs, e, p, n)[k],
            ),
        !occupied_upto(recs, p, n) ==> bump_attacks_upto(recs, e, p, n).len() == 0,
    decreases n,
{
    if n > 0 {
        lemma_bump_attacks(recs, e, p, n - 1);
        let rest = bump_attacks_upto(recs, e, p, n - 1);
        let all = bump_attacks_upto(recs, e, p, n);
        assert forall|k: int| 0 <= k < all.len() implies !is_move(#[trigger] all[k]) by {
            if k < rest.len() {
                assert(all[k] == rest[k]);
            }
        }
    }
}

/// A wandering step onto a tile where anything with health stands, the player or not, moves
/// nothing; onto a tile where nothing with health stands, it is exactly one move there.
pub proof fn lemma_wander_blocked(recs: Seq<EntityRecord>, e: Entity, p: Point)
    ensures
        holds_creature(recs, p) ==> forall|k: int|
            0 <= k < wander_commands(recs, e, p).len() ==> !is_move(#[trigger] wander_commands(recs, e, p)[k]),
        !holds_creature(recs, p) ==> wander_commands(recs, e, p) == seq![Command::Spawn(move_message(e, p))],
{
    let n = recs.len() as int;
    lemma_occupied(recs, p, n);
    lemma_bump_attacks(recs, e, p, n);
    let b = bump_attacks_upto(recs, e, p, n);
    let w = wander_commands(recs, e, p);
    if holds_creature(recs, p) {
        assert(w =~= b);
    } else {
        assert(w =~= seq![Command::Spawn(move_message(e, p))]);
    }
}

/// Where the wanderer at record `i` steps on a roll.
pub open spec fn wander_target(recs: Seq<EntityRecord>, i: int, roll: int) -> Point {
    let p = recs[i].components.position->0;
    let d = spec_step(roll);
    Point { x: (d.x + p.x) as i32, y: (d.y + p.y) as i32 }
}

/// The messages of the first `n` wanderers, on the given rolls.
pub open spec fn wander_all(recs: Seq<EntityRecord>, ws: Seq<int>, rolls: Seq<int>, n: int) -> Seq<Command>
    decreases n,
{
    if n <= 0 {
        Seq::empty()
    } else {
        wander_all(recs, ws, rolls, n - 1) + wander_commands(
            recs,
            recs[ws[n - 1]].entity,
            wander_target(recs, ws[n - 1], rolls[n - 1]),
        )
    }
}

/// Whether every wanderer can take a step without leaving `i32`.
pub open spec fn wanderers_can_step(recs: Seq<EntityRecord>) -> bool {
    forall|k: int|
        0 <= k < wanderers(recs).len() ==> {
            let p = recs[#[trigger] wanderers(recs)[k]].components.position->0;
            i32::MIN < p.x < i32::MAX && i32::MIN < p.y < i32::MAX
        }
}

/// The messages of the wanderer `entity` at `pos` when it steps on `roll`.
pub fn wander_step(ecs: &World, commands: &mut CommandBuffer, entity: Entity, pos: Point, roll: i8)
    requires
        i32::MIN < pos.x < i32::MAX,
        i32::MIN < pos.y < i32::MAX,
    ensures
        final(commands).commands@ == old(commands).commands@ + wander_commands(
            ecs.records@,
            entity,
            Point { x: (spec_step(roll as int).x + pos.x) as i32, y: (spec_step(roll as int).y + pos.y) as i32 },
        ),
{
    let ghost old_cmds = commands.commands@;
    let d = step(roll);
    let new_pos = d.offset_by(pos);
    let mut attacked = false;
    let mut i: usize = 0;
    while i < ecs.records.len()
        invariant
            i <= ecs.records@.len(),
            attacked == occupied_upto(ecs.records@, new_pos, i as int),
            commands.commands@ == old_cmds + bump_attacks_upto(ecs.records@, entity, new_pos, i as int),
        decreases ecs.records@.len() - i,
    {
        let c = &ecs.records[i].components;
        if c.position == Some(new_pos) && c.health.is_some() {
            if c.player.is_some() {
                commands.push(Components::attack_message(entity, ecs.records[i].entity));
            }
            attacked = true;
        }
        proof {
            assert(commands.commands@ =~= old_cmds + bump_attacks_upto(ecs.records@, entity, new_pos, i + 1));
        }
        i += 1;
    }
    if !attacked {
        commands.push(Components::move_message(entity, new_pos));
    }
    proof {
        assert(commands.commands@ =~= old_cmds + wander_commands(ecs.records@, entity, new_pos));
    }
}

/// Each wanderer, in order, steps in a direction drawn at random: it attacks the players with
/// health it bumps into, or moves when nothing with health is there.
pub fn random_move(ecs: &World, commands: &mut CommandBuffer)
    requires
        wanderers_can_step(ecs.records@),
    ensures
        exists|rolls: Seq<int>|
            {
                &&& rolls.len() == wanderers(ecs.records@).len()
                &&& forall|k: int| 0 <= k < rolls.len() ==> 0 <= #[trigger] rolls[k] < 4
                &&& final(commands).commands@ == old(commands).commands@ + wander_all(
                    ecs.records@,
                    wanderers(ecs.records@),
                    rolls,
                    rolls.len() as int,
                )
            },
{
    let ghost recs = ecs.records@;
    let ghost ws = wanderers(recs);
    let ghost old_cmds = commands.commands@;
    let ghost mut rolls: Seq<int> = Seq::empty();
    let mut i: usize = 0;
    while i < ecs.records.len()
        invariant
            recs == ecs.records@,
            ws == wanderers(recs),
            wanderers_can_step(recs),
            i <= recs.len(),
            rolls.len() == wanderers_upto(recs, i as int).len(),
            wanderers_upto(recs, i as int) == ws.take(rolls.len() as int),
            rolls.len() <= ws.len(),
            forall|k: int| 0 <= k < rolls.len() ==> 0 <= #[trigger] rolls[k] < 4,
            commands.commands@ == old_cmds + wander_all(recs, ws, rolls, rolls.len() as int),
        decreases recs.len() - i,
    {
        let c = &ecs.records[i].components;
        proof {
            lemma_wanderers_prefix(recs, i + 1, recs.len() as int);
        }
        if c.moving_randomly {
            if let Some(pos) = c.position {
                let entity = ecs.records[i].entity;
                let ghost n = rolls.len() as int;
                proof {
                    let u = wanderers_upto(recs, i + 1);
                    assert(u == wanderers_upto(recs, i as int).push(i as int));
                    assert(ws.take(u.len() as int) == u);
                    assert(ws.take(u.len() as int)[n] == ws[n]);
                    assert(ws[n] == i);
                }
                let mut rng = new_rng();
                let roll = range_i8(&mut rng, 0, 4);
                wander_step(ecs, commands, entity, pos, roll);
                proof {
                    let r2 = rolls.push(roll as int);
                    assert(wander_all(recs, ws, r2, n) == wander_all(recs, ws, rolls, n)) by {
                        lemma_wander_all_prefix(recs, ws, rolls, r2, n);
                    }
                    rolls = r2;
                    assert(ws.take(n + 1) =~= ws.take(n).push(ws[n]));
                }
            }
        }
        i += 1;
    }
    proof {
        assert(ws.take(rolls.len() as int) =~= ws);
    }
}

proof fn lemma_wander_all_prefix(recs: Seq<EntityRecord>, ws: Seq<int>, a: Seq<int>, b: Seq<int>, n: int)
    requires
        0 <= n <= a.len(),
        n <= b.len(),
        forall|k: int| 0 <= k < n ==> a[k] == b[k],
    ensures
        wander_all(recs, ws, a, n) == wander_all(recs, ws, b, n),
    decreases n,
{
    if n > 0 {
        lemma_wander_all_prefix(recs, ws, a, b, n - 1);
    }
}

proof fn lemma_wanderers_prefix(recs: Seq<EntityRecord>, i: int, j: int)
    requires
        0 <= i <= j <= recs.len(),
    ensures
        wanderers_upto(recs, i).len() <= wanderers_upto(recs, j).len(),
        wanderers_upto(recs, j).take(wanderers_upto(recs, i).len() as int) == wanderers_upto(recs, i),
    decreases j - i,
{
    if i < j {
        lemma_wanderers_prefix(recs, i, j - 1);
        let a = wanderers_upto(recs, i);
        let b = wanderers_upto(recs, j - 1);
        let c = wanderers_upto(recs, j);
        assert(c.take(b.len() as int) =~= b);
        assert(c.take(a.len() as int) =~= b.take(a.len() as int));
    } else {
        assert(wanderers_upto(recs, i).take(wanderers_upto(recs, i).len() as int) =~= wanderers_upto(recs, i));
    }
}

} // verus!
