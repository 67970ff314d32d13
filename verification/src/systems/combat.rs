//! Resolving attacks.
use vstd::prelude::*;
use crate::components::{Entity, Health};
use crate::world::{
    components_of, find_entity, has_entity, lemma_find_entity, Command, CommandBuffer,
    Components, EntityRecord, World,
};

verus! {

/// The attacks among the first `n` records, in order: the message entity, the victim and the
/// attacker.
pub open spec fn attacks_upto(recs: Seq<EntityRecord>, n: int) -> Seq<(Entity, Entity, Entity)>
    decreases n,
{
    if n <= 0 {
        Seq::empty()
    } else {
        let rest = attacks_upto(recs, n - 1);
        match recs[n - 1].components.wants_to_attack {
            Some(a) => rest.push((recs[n - 1].entity, a.victim, a.attacker)),
            None => rest,
        }
    }
}

/// The attacks of the world, in order.
pub open spec fn attacks(recs: Seq<EntityRecord>) -> Seq<(Entity, Entity, Entity)> {
    attacks_upto(recs, recs.len() as int)
}

/// The damage of the weapons, among the first `n` records, that `attacker` carries.
pub open spec fn weapon_damage_upto(recs: Seq<EntityRecord>, attacker: Entity, n: int) -> int
    decreases n,
{
    if n <= 0 {
        0
    } else {
        let c = recs[n - 1].components;
        weapon_damage_upto(recs, attacker, n - 1) + if c.weapon && c.carried == Some(attacker)
            && c.damage is Some {
            c.damage->0 as int
        } else {
            0int
        }
    }
}

/// Whether every partial sum of the weapon damage of `attacker` fits in an `i32`.
pub open spec fn weapon_sums_fit(recs: Seq<EntityRecord>, attacker: Entity, n: int) -> bool
    decreases n,
{
    if n <= 0 {
        true
    } else {
        weapon_sums_fit(recs, attacker, n - 1) && i32::MIN <= weapon_damage_upto(recs, attacker, n) <= i32::MAX
    }
}

/// The damage `attacker` deals: its own damage plus that of the weapons it carries.
pub open spec fn total_damage(recs: Seq<EntityRecord>, attacker: Entity) -> int {
    components_of(recs, attacker).damage->0 + weapon_damage_upto(recs, attacker, recs.len() as int)
}

/// `c` with its health lowered by `damage`; unchanged without health.
pub open spec fn hurt(c: Components, damage: int) -> Components {
    match c.health {
        Some(h) => Components { health: Some(Health { current: (h.current - damage) as i32, max: h.max }), ..c },
        None => c,
    }
}

/// The records after the first `n` attacks, each lowering its victim's health by the total
/// damage of its attacker (`orig` holds the damage and weapons).
pub open spec fn apply_hits(orig: Seq<EntityRecord>, atks: Seq<(Entity, Entity, Entity)>, n: int) -> Seq<EntityRecord>
    decreases n,
{
    if n <= 0 {
        orig
    } else {
        let r = apply_hits(orig, atks, n - 1);
        let i = find_entity(r, atks[n - 1].1);
        if i >= 0 {
            r.update(i, EntityRecord { entity: r[i].entity, components: hurt(r[i].components, total_damage(orig, atks[n - 1].2)) })
        } else {
            r
        }
    }
}

/// Whether the victim of attack `k` dies of it: it has health, is not the player, and has less
/// than 1 health left after the attack.
pub open spec fn kills(orig: Seq<EntityRecord>, atks: Seq<(Entity, Entity, Entity)>, k: int) -> bool {
    let after = components_of(apply_hits(orig, atks, k + 1), atks[k].1);
    after.health matches Some(h) && h.current < 1 && components_of(orig, atks[k].1).player is None
}

/// The commands for the first `n` attacks: the victim's removal when it dies, then the
/// message's.
pub open spec fn combat_commands(orig: Seq<EntityRecord>, atks: Seq<(Entity, Entity, Entity)>, n: int) -> Seq<Command>
    decreases n,
{
    if n <= 0 {
        Seq::empty()
    } else {
        let rest = combat_commands(orig, atks, n - 1);
        let with_victim = if kills(orig, atks, n - 1) {
            rest.push(Command::Remove(atks[n - 1].1))
        } else {
            rest
        };
        with_victim.push(Command::Remove(atks[n - 1].0))
    }
}

/// Whether `e` is the message of one of the first `n` attacks, or a victim of one of them that
/// is not the player.
pub open spec fn removable_by_combat(orig: Seq<EntityRecord>, atks: Seq<(Entity, Entity, Entity)>, n: int, e: Entity) -> bool {
    exists|k: int|
        0 <= k < n && (e == (#[trigger] atks[k]).0 || (e == atks[k].1 && components_of(orig, e).player is None))
}

/// Combat removes every attack message, and removes nothing else but victims that are not
/// the player: the player is never removed by an attack.
pub proof fn lemma_combat_removals(orig: Seq<EntityRecord>, atks: Seq<(Entity, Entity, Entity)>, n: int)
    requires
        0 <= n <= atks.len(),
    ensures
        forall|k: int| 0 <= k < n ==> combat_commands(orig, atks, n).contains(Command::Remove(#[trigger] atks[k].0)),
        forall|j: int|
            0 <= j < combat_commands(orig, atks, n).len() ==> (#[trigger] combat_commands(orig, atks, n)[j]) is Remove
                && removable_by_combat(orig, atks, n, combat_commands(orig, atks, n)[j]->Remove_0),
    decreases n,
{
    if n > 0 {
        lemma_combat_removals(orig, atks, n - 1);
        let rest = combat_commands(orig, atks, n - 1);
        let with_victim = if kills(orig, atks, n - 1) {
            rest.push(Command::Remove(atks[n - 1].1))
        } else {
            rest
        };
        let all = combat_commands(orig, atks, n);
        assert(all == with_victim.push(Command::Remove(atks[n - 1].0)));
        assert forall|k: int| 0 <= k < n implies all.contains(Command::Remove(#[trigger] atks[k].0)) by {
            if k == n - 1 {
                assert(all[all.len() - 1] == Command::Remove(atks[k].0));
            } else {
                let j = choose|j: int| 0 <= j < rest.len() && rest[j] == Command::Remove(atks[k].0);
                assert(all[j] == rest[j]);
            }
        }
        assert forall|j: int| 0 <= j < all.len() implies (#[trigger] all[j]) is Remove
            && removable_by_combat(orig, atks, n, all[j]->Remove_0) by {
            if j < rest.len() {
                assert(all[j] == rest[j]);
                assert(removable_by_combat(orig, atks, n - 1, rest[j]->Remove_0));
                let k = choose|k: int|
                    0 <= k < n - 1 && (rest[j]->Remove_0 == (#[trigger] atks[k]).0 || (rest[j]->Remove_0 == atks[k].1
                        && components_of(orig, rest[j]->Remove_0).player is None));
                assert(0 <= k < n);
            } else if j == all.len() - 1 {
                assert(all[j] == Command::Remove(atks[n - 1].0));
                assert(atks[n - 1].0 == all[j]->Remove_0);
            } else {
                assert(kills(orig, atks, n - 1));
                assert(all[j] == Command::Remove(atks[n - 1].1));
                lemma_apply_hits_entities(orig, atks, n);
                assert(atks[n - 1].1 == all[j]->Remove_0);
            }
        }
    }
}

/// Combat removes every victim that is not the player and has less than 1 health left after
/// the attack on it.
pub proof fn lemma_combat_kills(orig: Seq<EntityRecord>, atks: Seq<(Entity, Entity, Entity)>, n: int)
    requires
        0 <= n <= atks.len(),
    ensures
        forall|k: int|
            0 <= k < n && components_of(orig, (#[trigger] atks[k]).1).player is None
                && components_of(apply_hits(orig, atks, k + 1), atks[k].1).health is Some
                && components_of(apply_hits(orig, atks, k + 1), atks[k].1).health->0.current < 1 ==> combat_commands(orig, atks, n).contains(Command::Remove(atks[k].1)),
    decreases n,
{
    if n > 0 {
        lemma_combat_kills(orig, atks, n - 1);
        let rest = combat_commands(orig, atks, n - 1);
        let with_victim = if kills(orig, atks, n - 1) {
            rest.push(Command::Remove(atks[n - 1].1))
        } else {
            rest
        };
        let all = combat_commands(orig, atks, n);
        assert(all == with_victim.push(Command::Remove(atks[n - 1].0)));
        assert forall|k: int|
            0 <= k < n && components_of(orig, (#[trigger] atks[k]).1).player is None
                && components_of(apply_hits(orig, atks, k + 1), atks[k].1).health is Some
                && components_of(apply_hits(orig, atks, k + 1), atks[k].1).health->0.current < 1 implies all.contains(Command::Remove(atks[k].1)) by {
            if k == n - 1 {
                assert(kills(orig, atks, k));
                assert(all[rest.len() as int] == Command::Remove(atks[k].1));
            } else {
                let j = choose|j: int| 0 <= j < rest.len() && rest[j] == Command::Remove(atks[k].1);
                assert(all[j] == rest[j]);
            }
        }
    }
}

/// Whether the first `n` attacks can be resolved: victims and attackers exist, attackers
/// have damage, and every sum stays in an `i32`.
pub open spec fn hits_fit(orig: Seq<EntityRecord>, atks: Seq<(Entity, Entity, Entity)>, n: int) -> bool
    decreases n,
{
    if n <= 0 {
        true
    } else {
        let r = apply_hits(orig, atks, n - 1);
        let (m, victim, attacker) = atks[n - 1];
        let d = total_damage(orig, attacker);
        let i = find_entity(r, victim);
        &&& hits_fit(orig, atks, n - 1)
        &&& has_entity(orig, victim)
        &&& has_entity(orig, attacker)
        &&& components_of(orig, attacker).damage is Some
        &&& weapon_sums_fit(orig, attacker, orig.len() as int)
        &&& i32::MIN <= d <= i32::MAX
        &&& (r[i].components.health matches Some(h) ==> i32::MIN <= h.current - d <= i32::MAX)
    }
}

/// Whether `combat` can run on these records.
pub open spec fn combat_ready(recs: Seq<EntityRecord>) -> bool {
    hits_fit(recs, attacks(recs), attacks(recs).len() as int)
}

proof fn lemma_apply_hits_entities(orig: Seq<EntityRecord>, atks: Seq<(Entity, Entity, Entity)>, n: int)
    requires
        0 <= n,
    ensures
        apply_hits(orig, atks, n).len() == orig.len(),
        forall|i: int| 0 <= i < orig.len() ==> #[trigger] apply_hits(orig, atks, n)[i].entity == orig[i].entity,
        forall|i: int| 0 <= i < orig.len() ==> (#[trigger] apply_hits(orig, atks, n)[i]).components.player == orig[i].components.player,
        forall|e: Entity| #[trigger] find_entity(apply_hits(orig, atks, n), e) == find_entity(orig, e),
    decreases n,
{
    if n > 0 {
        lemma_apply_hits_entities(orig, atks, n - 1);
        let r = apply_hits(orig, atks, n - 1);
        lemma_find_entity(r, atks[n - 1].1);
        let r2 = apply_hits(orig, atks, n);
        assert forall|e: Entity| #[trigger] find_entity(r2, e) == find_entity(orig, e) by {
            lemma_same_entities_find(r2, orig, e, 0);
        }
    }
}

/// Records with the same entities, in order, find an entity at the same index.
proof fn lemma_same_entities_find(a: Seq<EntityRecord>, b: Seq<EntityRecord>, e: Entity, i: int)
    requires
        a.len() == b.len(),
        forall|j: int| 0 <= j < a.len() ==> #[trigger] a[j].entity == b[j].entity,
    ensures
        crate::world::find_from(a, e, i) == crate::world::find_from(b, e, i),
    decreases a.len() - i,
{
    if 0 <= i < a.len() && a[i].entity != e {
        lemma_same_entities_find(a, b, e, i + 1);
    }
}

proof fn lemma_hits_fit_prefix(orig: Seq<EntityRecord>, atks: Seq<(Entity, Entity, Entity)>, k: int, n: int)
    requires
        0 <= k <= n,
        hits_fit(orig, atks, n),
    ensures
        hits_fit(orig, atks, k),
    decreases n - k,
{
    if k < n {
        lemma_hits_fit_prefix(orig, atks, k, n - 1);
    }
}

proof fn lemma_attacks_prefix(recs: Seq<EntityRecord>, i: int, j: int)
    requires
        0 <= i <= j <= recs.len(),
    ensures
        attacks_upto(recs, i).len() <= attacks_upto(recs, j).len(),
        attacks_upto(recs, j).take(attacks_upto(recs, i).len() as int) == attacks_upto(recs, i),
    decreases j - i,
{
    if i < j {
        lemma_attacks_prefix(recs, i, j - 1);
        let a = attacks_upto(recs, i);
        let b = attacks_upto(recs, j - 1);
        let c = attacks_upto(recs, j);
        assert(c.take(b.len() as int) =~= b);
        assert(c.take(a.len() as int) =~= b.take(a.len() as int));
    } else {
        assert(attacks_upto(recs, i).take(attacks_upto(recs, i).len() as int) =~= attacks_upto(recs, i));
    }
}

/// The attack messages, in order.
fn collect_attacks(ecs: &World) -> (r: Vec<(Entity, Entity, Entity)>)
    ensures
        r@ == attacks(ecs.records@),
{
    let mut victims: Vec<(Entity, Entity, Entity)> = Vec::new();
    let mut i: usize = 0;
    while i < ecs.records.len()
        invariant
            i <= ecs.records@.len(),
            victims@ == attacks_upto(ecs.records@, i as int),
        decreases ecs.records@.len() - i,
    {
        if let Some(a) = ecs.records[i].components.wants_to_attack {
            victims.push((ecs.records[i].entity, a.victim, a.attacker));
        }
        i += 1;
    }
    victims
}

/// The damage of the weapons that `attacker` carries.
fn weapon_damage(ecs: &World, attacker: Entity) -> (d: i32)
    requires
        weapon_sums_fit(ecs.records@, attacker, ecs.records@.len() as int),
    ensures
        d == weapon_damage_upto(ecs.records@, attacker, ecs.records@.len() as int),
{
    let mut sum: i32 = 0;
    let mut i: usize = 0;
    while i < ecs.records.len()
        invariant
            i <= ecs.records@.len(),
            sum == weapon_damage_upto(ecs.records@, attacker, i as int),
            weapon_sums_fit(ecs.records@, attacker, ecs.records@.len() as int),
        decreases ecs.records@.len() - i,
    {
        proof {
            lemma_weapon_sums_fit_prefix(ecs.records@, attacker, i + 1, ecs.records@.len() as int);
        }
        let c = &ecs.records[i].components;
        if c.weapon && c.carried == Some(attacker) {
            if let Some(d) = c.damage {
                sum = sum + d;
            }
        }
        i += 1;
    }
    sum
}

proof fn lemma_weapon_sums_fit_prefix(recs: Seq<EntityRecord>, attacker: Entity, k: int, n: int)
    requires
        0 <= k <= n,
        weapon_sums_fit(recs, attacker, n),
    ensures
        weapon_sums_fit(recs, attacker, k),
        k > 0 ==> i32::MIN <= weapon_damage_upto(recs, attacker, k) <= i32::MAX,
    decreases n - k,
{
    if k < n {
        lemma_weapon_sums_fit_prefix(recs, attacker, k, n - 1);
    }
}

/// Resolves every attack, in order: the victim loses the attacker's damage plus that of the
/// weapons the attacker carries; a victim other than the player with less than 1 health
/// left is removed; the message is removed.
pub fn combat(ecs: &mut World, commands: &mut CommandBuffer)
    requires
        old(ecs).wf(),
        combat_ready(old(ecs).records@),
    ensures
        ({
            let recs = old(ecs).records@;
            let atks = attacks(recs);
            &&& final(ecs).wf()
            &&& final(ecs).next_entity == old(ecs).next_entity
            &&& final(ecs).records@ == apply_hits(recs, atks, atks.len() as int)
            &&& final(commands).commands@ == old(commands).commands@ + combat_commands(recs, atks, atks.len() as int)
        }),
{
    let ghost recs = ecs.records@;
    let ghost old_cmds = commands.commands@;
    let victims = collect_attacks(ecs);
    let ghost atks = victims@;
    let mut k: usize = 0;
    while k < victims.len()
        invariant
            victims@ == atks,
            atks == attacks(recs),
            recs == old(ecs).records@,
            old(ecs).wf(),
            ecs.next_entity == old(ecs).next_entity,
            k <= atks.len(),
            hits_fit(recs, atks, atks.len() as int),
            ecs.records@ == apply_hits(recs, atks, k as int),
            commands.commands@ == old_cmds + combat_commands(recs, atks, k as int),
        decreases atks.len() - k,
    {
        let (message, victim, attacker) = victims[k];
        proof {
            lemma_hits_fit_prefix(recs, atks, k + 1, atks.len() as int);
            lemma_apply_hits_entities(recs, atks, k as int);
            lemma_find_entity(recs, victim);
            lemma_find_entity(recs, attacker);
        }
        let vi = ecs.find(victim).unwrap();
        let is_player = ecs.records[vi].components.player.is_some();
        let ai = ecs.find(attacker).unwrap();
        proof {
            assert(ecs.records@[ai as int].components.damage == recs[ai as int].components.damage) by {
                lemma_damage_kept(recs, atks, k as int, ai as int);
            }
        }
        let base_damage = ecs.records[ai].components.damage.unwrap();
        proof {
            assert(weapon_damage_upto(ecs.records@, attacker, ecs.records@.len() as int) == weapon_damage_upto(recs, attacker, recs.len() as int)) by {
                lemma_weapons_kept(recs, atks, k as int, recs.len() as int, attacker);
            }
            assert(weapon_sums_fit(ecs.records@, attacker, ecs.records@.len() as int)) by {
                lemma_weapon_sums_kept(recs, atks, k as int, recs.len() as int, attacker);
            }
        }
        let weapon = weapon_damage(ecs, attacker);
        let total_damage = base_damage + weapon;
        if let Some(health) = ecs.records[vi].components.health {
            let current = health.current - total_damage;
            ecs.records[vi].components.health = Some(Health { current, max: health.max });
            if current < 1 && !is_player {
                commands.remove(victim);
            }
        }
        commands.remove(message);
        proof {
            assert(ecs.records@ =~= apply_hits(recs, atks, k + 1));
            assert(commands.commands@ =~= old_cmds + combat_commands(recs, atks, k + 1)) by {
                lemma_apply_hits_entities(recs, atks, k + 1);
            }
        }
        k += 1;
    }
    proof {
        lemma_apply_hits_entities(recs, atks, atks.len() as int);
        let f = ecs.records@;
        assert forall|a: int, b: int| 0 <= a < b < f.len() implies #[trigger] f[a].entity != #[trigger] f[b].entity by {
            assert(f[a].entity == recs[a].entity && f[b].entity == recs[b].entity);
        }
        assert forall|a: int| 0 <= a < f.len() implies #[trigger] f[a].entity < ecs.next_entity by {
            assert(f[a].entity == recs[a].entity);
        }
    }
}

/// Combat changes nothing but health: every record keeps its entity, its place and every
/// other component.
pub proof fn lemma_hits_change_only_health(orig: Seq<EntityRecord>, atks: Seq<(Entity, Entity, Entity)>, n: int)
    requires
        0 <= n,
    ensures
        apply_hits(orig, atks, n).len() == orig.len(),
        forall|i: int|
            0 <= i < orig.len() ==> (#[trigger] apply_hits(orig, atks, n)[i]).entity == orig[i].entity
                && (Components { health: orig[i].components.health, ..apply_hits(orig, atks, n)[i].components })
                == orig[i].components,
    decreases n,
{
    lemma_apply_hits_entities(orig, atks, n);
    if n > 0 {
        lemma_hits_change_only_health(orig, atks, n - 1);
        let r = apply_hits(orig, atks, n - 1);
        lemma_find_entity(r, atks[n - 1].1);
        let r2 = apply_hits(orig, atks, n);
        assert forall|i: int| 0 <= i < orig.len() implies (#[trigger] r2[i]).entity == orig[i].entity
            && (Components { health: orig[i].components.health, ..r2[i].components }) == orig[i].components by {
            if i != find_entity(r, atks[n - 1].1) {
                assert(r2[i] == r[i]);
            }
        }
    }
}

/// Attacks change only health: damage stays.
proof fn lemma_damage_kept(orig: Seq<EntityRecord>, atks: Seq<(Entity, Entity, Entity)>, n: int, i: int)
    requires
        0 <= n,
        0 <= i < orig.len(),
    ensures
        apply_hits(orig, atks, n)[i].components.damage == orig[i].components.damage,
        apply_hits(orig, atks, n)[i].components.weapon == orig[i].components.weapon,
        apply_hits(orig, atks, n)[i].components.carried == orig[i].components.carried,
    decreases n,
{
    if n > 0 {
        lemma_damage_kept(orig, atks, n - 1, i);
        lemma_apply_hits_entities(orig, atks, n - 1);
        lemma_find_entity(apply_hits(orig, atks, n - 1), atks[n - 1].1);
    }
}

proof fn lemma_weapons_kept(orig: Seq<EntityRecord>, atks: Seq<(Entity, Entity, Entity)>, n: int, m: int, attacker: Entity)
    requires
        0 <= n,
        0 <= m <= orig.len(),
    ensures
        weapon_damage_upto(apply_hits(orig, atks, n), attacker, m) == weapon_damage_upto(orig, attacker, m),
    decreases m,
{
    if m > 0 {
        lemma_weapons_kept(orig, atks, n, m - 1, attacker);
        lemma_damage_kept(orig, atks, n, m - 1);
    }
}

proof fn lemma_weapon_sums_kept(orig: Seq<EntityRecord>, atks: Seq<(Entity, Entity, Entity)>, n: int, m: int, attacker: Entity)
    requires
        0 <= n,
        0 <= m <= orig.len(),
        weapon_sums_fit(orig, attacker, m),
    ensures
        weapon_sums_fit(apply_hits(orig, atks, n), attacker, m),
    decreases m,
{
    if m > 0 {
        lemma_weapon_sums_kept(orig, atks, n, m - 1, attacker);
        lemma_weapons_kept(orig, atks, n, m, attacker);
    }
}

} // verus!
