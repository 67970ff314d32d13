//! Placing the player, monsters and items in the world.
pub mod template;

use vstd::prelude::*;
use bracket_lib::prelude::RandomNumberGenerator;
use crate::components::{
    to_cp437, Color, ColorPair, FieldOfView, Health, Player, ProvidesHealing, Render,
};
use crate::geometry::Point;
use crate::rng::{range_i32, roll_dice};
use crate::world::{Components, EntityRecord, World};

verus! {

/// White on black, the colours of everything that is spawned.
pub open spec fn white_on_black() -> ColorPair {
    ColorPair { fg: Color::White, bg: Color::Black }
}

/// Whether `f` is a fresh view of the given radius.
pub open spec fn is_fresh_view(f: Option<FieldOfView>, radius: i32) -> bool {
    f matches Some(v) && v.visible_tiles@.len() == 0 && v.radius == radius && v.is_dirty
}

/// The player at `pos`: on level 0, drawn as `@`, with 10 of 10 health and a view of radius 8.
pub open spec fn is_player_bundle(c: Components, pos: Point) -> bool {
    &&& c.player == Some(Player { map_level: 0 })
    &&& c.position == Some(pos)
    &&& c.render == Some(Render { color: white_on_black(), glyph: 64 })
    &&& c.health == Some(Health { current: 10, max: 10 })
    &&& is_fresh_view(c.field_of_view, 8)
    &&& !c.enemy && !c.item && !c.amulet_of_yala && !c.chasing_player && !c.moving_randomly
    &&& !c.reveals_map && !c.weapon
    &&& c.name is None && c.provides_healing is None && c.carried is None && c.damage is None
    &&& c.wants_to_move is None && c.wants_to_attack is None && c.activate_item is None
}

/// A monster at `pos` with `hp` health, named `name` and drawn as `glyph`: an enemy that
/// chases the player and sees six tiles far.
pub open spec fn is_monster_bundle(c: Components, pos: Point, hp: i32, name: Seq<char>, glyph: u16) -> bool {
    &&& c.enemy
    &&& c.position == Some(pos)
    &&& c.render == Some(Render { color: white_on_black(), glyph })
    &&& c.name matches Some(n) && n@ == name
    &&& c.health == Some(Health { current: hp, max: hp })
    &&& c.chasing_player
    &&& is_fresh_view(c.field_of_view, 6)
    &&& c.player is None && !c.item && !c.amulet_of_yala && !c.moving_randomly
    &&& !c.reveals_map && !c.weapon
    &&& c.provides_healing is None && c.carried is None && c.damage is None
    &&& c.wants_to_move is None && c.wants_to_attack is None && c.activate_item is None
}

/// A goblin (1 health, `g`) or an orc (2 health, `o`) at `pos`.
pub open spec fn is_goblin_or_orc(c: Components, pos: Point) -> bool {
    is_monster_bundle(c, pos, 1, "Goblin"@, 103) || is_monster_bundle(c, pos, 2, "Orc"@, 111)
}

/// The Amulet of Yala, an item drawn as `|`, at `pos`.
pub open spec fn is_amulet_bundle(c: Components, pos: Point) -> bool {
    &&& c.item && c.amulet_of_yala
    &&& c.name matches Some(n) && n@ == "Amulet of Yala"@
    &&& c.position == Some(pos)
    &&& c.render == Some(Render { color: white_on_black(), glyph: 124 })
    &&& c.player is None && !c.enemy && !c.chasing_player && !c.moving_randomly
    &&& !c.reveals_map && !c.weapon
    &&& c.health is None && c.field_of_view is None
    &&& c.provides_healing is None && c.carried is None && c.damage is None
    &&& c.wants_to_move is None && c.wants_to_attack is None && c.activate_item is None
}

/// A healing potion, an item that restores 2 health, drawn as `!`, at `pos`.
pub open spec fn is_potion_bundle(c: Components, pos: Point) -> bool {
    &&& c.item
    &&& c.name matches Some(n) && n@ == "Healing Potion"@
    &&& c.provides_healing == Some(ProvidesHealing { amount: 2 })
    &&& c.render == Some(Render { color: white_on_black(), glyph: 33 })
    &&& c.position == Some(pos)
    &&& c.player is None && !c.enemy && !c.amulet_of_yala && !c.chasing_player
    &&& !c.moving_randomly && !c.reveals_map && !c.weapon
    &&& c.health is None && c.field_of_view is None && c.carried is None && c.damage is None
    &&& c.wants_to_move is None && c.wants_to_attack is None && c.activate_item is None
}

/// A magic map, an item that reveals the map, drawn as `{`, at `pos`.
pub open spec fn is_map_bundle(c: Components, pos: Point) -> bool {
    &&& c.item
    &&& c.name matches Some(n) && n@ == "Map"@
    &&& c.reveals_map
    &&& c.render == Some(Render { color: white_on_black(), glyph: 123 })
    &&& c.position == Some(pos)
    &&& c.player is None && !c.enemy && !c.amulet_of_yala && !c.chasing_player
    &&& !c.moving_randomly && !c.weapon
    &&& c.health is None && c.field_of_view is None && c.provides_healing is None
    &&& c.carried is None && c.damage is None
    &&& c.wants_to_move is None && c.wants_to_attack is None && c.activate_item is None
}

/// Whether `w2` is `w` with one more entity, the next identifier, holding `p`'s components.
pub open spec fn spawned_one(w: &World, w2: &World, p: spec_fn(Components) -> bool) -> bool {
    &&& w2.wf()
    &&& w2.next_entity == w.next_entity + 1
    &&& w2.records@.len() == w.records@.len() + 1
    &&& w2.records@.take(w.records@.len() as int) == w.records@
    &&& w2.records@.last().entity == w.next_entity
    &&& p(w2.records@.last().components)
}

proof fn lemma_push_spawned(w: &World, w2: &World, c: Components)
    requires
        w2.records@ == w.records@.push(EntityRecord { entity: w.next_entity, components: c }),
    ensures
        w2.records@.take(w.records@.len() as int) == w.records@,
        w2.records@.last().components == c,
        w2.records@.last().entity == w.next_entity,
{
    assert(w2.records@.take(w.records@.len() as int) =~= w.records@);
}

/// Adds the player at `pos`.
pub fn spawn_player(ecs: &mut World, pos: Point)
    requires
        old(ecs).wf(),
        old(ecs).next_entity < u64::MAX,
    ensures
        spawned_one(old(ecs), final(ecs), |c: Components| is_player_bundle(c, pos)),
{
    let mut c = Components::empty();
    c.player = Some(Player { map_level: 0 });
    c.position = Some(pos);
    c.render = Some(Render { color: ColorPair::new(Color::White, Color::Black), glyph: to_cp437('@') });
    c.health = Some(Health { current: 10, max: 10 });
    c.field_of_view = Some(FieldOfView::new(8));
    let ghost w = *ecs;
    ecs.push(c);
    proof {
        lemma_push_spawned(&w, ecs, c);
    }
}

/// A goblin: 1 health, drawn as `g`.
pub fn goblin() -> (r: (i32, String, u16))
    ensures
        r.0 == 1 && r.1@ == "Goblin"@ && r.2 == 103,
{
    (1, "Goblin".to_string(), to_cp437('g'))
}

/// An orc: 2 health, drawn as `o`.
pub fn orc() -> (r: (i32, String, u16))
    ensures
        r.0 == 2 && r.1@ == "Orc"@ && r.2 == 111,
{
    (2, "Orc".to_string(), to_cp437('o'))
}

/// The monster that a roll from 1 to 9 gives: a goblin on 1 to 7, an orc otherwise.
pub fn monster_for_roll(roll: i32) -> (r: (i32, String, u16))
    requires
        1 <= roll < 10,
    ensures
        1 <= roll <= 7 ==> r.0 == 1 && r.1@ == "Goblin"@ && r.2 == 103,
        roll > 7 ==> r.0 == 2 && r.1@ == "Orc"@ && r.2 == 111,
{
    match roll {
        1..=7 => goblin(),
        _ => orc(),
    }
}

/// Adds a monster at `pos`: a goblin on a roll from 1 to 7 of 1 to 9, an orc otherwise.
pub fn spawn_monster(ecs: &mut World, rng: &mut RandomNumberGenerator, pos: Point)
    requires
        old(ecs).wf(),
        old(ecs).next_entity < u64::MAX,
    ensures
        spawned_one(old(ecs), final(ecs), |c: Components| is_goblin_or_orc(c, pos)),
{
    let roll = range_i32(rng, 1, 10);
    let (hp, name, glyph) = monster_for_roll(roll);
    let mut c = Components::empty();
    c.enemy = true;
    c.position = Some(pos);
    c.render = Some(Render { color: ColorPair::new(Color::White, Color::Black), glyph });
    c.name = Some(name);
    c.health = Some(Health { current: hp, max: hp });
    c.chasing_player = true;
    c.field_of_view = Some(FieldOfView::new(6));
    let ghost w = *ecs;
    ecs.push(c);
    proof {
        lemma_push_spawned(&w, ecs, c);
    }
}

/// Adds the Amulet of Yala at `pos`.
pub fn spawn_amulet_of_yala(ecs: &mut World, pos: Point)
    requires
        old(ecs).wf(),
        old(ecs).next_entity < u64::MAX,
    ensures
        spawned_one(old(ecs), final(ecs), |c: Components| is_amulet_bundle(c, pos)),
{
    let mut c = Components::empty();
    c.item = true;
    c.amulet_of_yala = true;
    c.name = Some("Amulet of Yala".to_string());
    c.position = Some(pos);
    c.render = Some(Render { color: ColorPair::new(Color::White, Color::Black), glyph: to_cp437('|') });
    let ghost w = *ecs;
    ecs.push(c);
    proof {
        lemma_push_spawned(&w, ecs, c);
    }
}

/// Adds a healing potion at `pos`.
pub fn spawn_healing_potion(ecs: &mut World, pos: Point)
    requires
        old(ecs).wf(),
        old(ecs).next_entity < u64::MAX,
    ensures
        spawned_one(old(ecs), final(ecs), |c: Components| is_potion_bundle(c, pos)),
{
    let mut c = Components::empty();
    c.item = true;
    c.name = Some("Healing Potion".to_string());
    c.provides_healing = Some(ProvidesHealing { amount: 2 });
    c.render = Some(Render { color: ColorPair::new(Color::White, Color::Black), glyph: to_cp437('!') });
    c.position = Some(pos);
    let ghost w = *ecs;
    ecs.push(c);
    proof {
        lemma_push_spawned(&w, ecs, c);
    }
}

/// Adds a magic map at `pos`.
pub fn spawn_map(ecs: &mut World, pos: Point)
    requires
        old(ecs).wf(),
        old(ecs).next_entity < u64::MAX,
    ensures
        spawned_one(old(ecs), final(ecs), |c: Components| is_map_bundle(c, pos)),
{
    let mut c = Components::empty();
    c.item = true;
    c.name = Some("Map".to_string());
    c.reveals_map = true;
    c.render = Some(Render { color: ColorPair::new(Color::White, Color::Black), glyph: to_cp437('{') });
    c.position = Some(pos);
    let ghost w = *ecs;
    ecs.push(c);
    proof {
        lemma_push_spawned(&w, ecs, c);
    }
}

/// Adds what a roll of a six-sided die gives at `pos`: a healing potion on 1, a magic map on
/// 2, a monster otherwise.
pub fn spawn_for_roll(ecs: &mut World, rng: &mut RandomNumberGenerator, pos: Point, roll: i32)
    requires
        old(ecs).wf(),
        old(ecs).next_entity < u64::MAX,
        1 <= roll <= 6,
    ensures
        spawned_one(
            old(ecs),
            final(ecs),
            |c: Components|
                {
                    &&& roll == 1 ==> is_potion_bundle(c, pos)
                    &&& roll == 2 ==> is_map_bundle(c, pos)
                    &&& roll > 2 ==> is_goblin_or_orc(c, pos)
                },
        ),
{
    match roll {
        1 => spawn_healing_potion(ecs, pos),
        2 => spawn_map(ecs, pos),
        _ => spawn_monster(ecs, rng, pos),
    }
}

/// Adds something at `pos`, by a roll of one six-sided die: a healing potion on 1, a magic
/// map on 2, a monster otherwise.
pub fn spawn_entity(ecs: &mut World, rng: &mut RandomNumberGenerator, pos: Point)
    requires
        old(ecs).wf(),
        old(ecs).next_entity < u64::MAX,
    ensures
        spawned_one(
            old(ecs),
            final(ecs),
            |c: Components|
                is_potion_bundle(c, pos) || is_map_bundle(c, pos) || is_goblin_or_orc(c, pos),
        ),
{
    let roll = roll_dice(rng, 1, 6);
    spawn_for_roll(ecs, rng, pos, roll);
}

/// Whether `w2` is `w` with a level's entities added, in order and numbered on: the player at
/// `player_start`, the amulet at `amulet_start`, then one potion, magic map, goblin or orc at
/// each spawn point.
pub open spec fn level_spawned(w: &World, w2: &World, player_start: Point, amulet_start: Point, spawns: Seq<Point>) -> bool {
    let n = w.records@.len() as int;
    &&& w2.wf()
    &&& w2.next_entity == w.next_entity + spawns.len() + 2
    &&& w2.records@.len() == n + spawns.len() + 2
    &&& w2.records@.take(n) == w.records@
    &&& forall|k: int| 0 <= k < spawns.len() + 2 ==> #[trigger] w2.records@[n + k].entity == w.next_entity + k
    &&& is_player_bundle(w2.records@[n].components, player_start)
    &&& is_amulet_bundle(w2.records@[n + 1].components, amulet_start)
    &&& forall|k: int|
        0 <= k < spawns.len() ==> {
            let c = (#[trigger] w2.records@[n + 2 + k]).components;
            is_potion_bundle(c, spawns[k]) || is_map_bundle(c, spawns[k]) || is_goblin_or_orc(c, spawns[k])
        }
}

/// Populates a new level: the player at its start, the amulet, and something drawn at
/// random at each spawn point, in order.
pub fn spawn_level(
    ecs: &mut World,
    rng: &mut RandomNumberGenerator,
    player_start: Point,
    amulet_start: Point,
    spawns: &Vec<Point>,
)
    requires
        old(ecs).wf(),
        old(ecs).next_entity + spawns@.len() + 2 <= u64::MAX,
    ensures
        level_spawned(old(ecs), final(ecs), player_start, amulet_start, spawns@),
{
    let ghost w0 = *ecs;
    let ghost n = w0.records@.len() as int;
    spawn_player(ecs, player_start);
    let ghost w1 = *ecs;
    spawn_amulet_of_yala(ecs, amulet_start);
    let ghost w2 = *ecs;
    proof {
        assert(w2.records@.take(n) =~= w0.records@) by {
            assert forall|j: int| 0 <= j < n implies w2.records@[j] == w0.records@[j] by {
                assert(w2.records@.take(n + 1)[j] == w1.records@[j]);
                assert(w1.records@.take(n)[j] == w0.records@[j]);
            }
        }
        assert(w2.records@[n] == w1.records@[n]) by {
            assert(w2.records@.take(n + 1)[n] == w1.records@[n]);
        }
    }
    let mut i: usize = 0;
    while i < spawns.len()
        invariant
            i <= spawns@.len(),
            ecs.wf(),
            n == w0.records@.len(),
            w0.next_entity + spawns@.len() + 2 <= u64::MAX,
            ecs.next_entity == w0.next_entity + i + 2,
            ecs.records@.len() == n + i + 2,
            ecs.records@.take(n) == w0.records@,
            forall|k: int| 0 <= k < i + 2 ==> #[trigger] ecs.records@[n + k].entity == w0.next_entity + k,
            is_player_bundle(ecs.records@[n].components, player_start),
            is_amulet_bundle(ecs.records@[n + 1].components, amulet_start),
            forall|k: int|
                0 <= k < i ==> {
                    let c = (#[trigger] ecs.records@[n + 2 + k]).components;
                    is_potion_bundle(c, spawns@[k]) || is_map_bundle(c, spawns@[k]) || is_goblin_or_orc(c, spawns@[k])
                },
        decreases spawns@.len() - i,
    {
        let ghost before = *ecs;
        spawn_entity(ecs, rng, spawns[i]);
        proof {
            let m = before.records@.len() as int;
            assert forall|j: int| 0 <= j < m implies ecs.records@[j] == before.records@[j] by {
                assert(ecs.records@.take(m)[j] == before.records@[j]);
            }
            assert(ecs.records@.take(n) =~= w0.records@) by {
                assert forall|j: int| 0 <= j < n implies ecs.records@[j] == w0.records@[j] by {
                    assert(before.records@.take(n)[j] == w0.records@[j]);
                }
            }
            assert(ecs.records@[n + 2 + i] == ecs.records@.last());
            assert forall|k: int| 0 <= k < i + 3 implies #[trigger] ecs.records@[n + k].entity == w0.next_entity + k by {
                if k < i + 2 {
                    assert(ecs.records@[n + k] == before.records@[n + k]);
                }
            }
            assert forall|k: int| 0 <= k < i + 1 implies {
                let c = (#[trigger] ecs.records@[n + 2 + k]).components;
                is_potion_bundle(c, spawns@[k]) || is_map_bundle(c, spawns@[k]) || is_goblin_or_orc(c, spawns@[k])
            } by {
                if k < i {
                    assert(ecs.records@[n + 2 + k] == before.records@[n + 2 + k]);
                }
            }
            assert(ecs.records@[n] == before.records@[n]);
            assert(ecs.records@[n + 1] == before.records@[n + 1]);
        }
        i += 1;
    }
}

} // verus!
