//! Using items: healing potions and magic maps.
use vstd::prelude::*;
use crate::components::{ActivateItem, Entity, Health, ProvidesHealing};
use crate::map::GameMap;
use crate::world::{
    components_of, find_entity, has_entity, lemma_find_entity, Command, CommandBuffer,
    Components, EntityRecord, World,
};

verus! {

/// The item activations among the first `n` records, in order: the message entity and the
/// activation it carries.
pub open spec fn activations_upto(recs: Seq<EntityRecord>, n: int) -> Seq<(Entity, ActivateItem)>
    decreases n,
{
    if n <= 0 {
        Seq::empty()
    } else {
        let rest = activations_upto(recs, n - 1);
        match recs[n - 1].components.activate_item {
            Some(a) => rest.push((recs[n - 1].entity, a)),
            None => rest,
        }
    }
}

/// The item activations of the world, in order.
pub open spec fn activations(recs: Seq<EntityRecord>) -> Seq<(Entity, ActivateItem)> {
    activations_upto(recs, recs.len() as int)
}

/// The healing to apply for the first `n` activations: who applied a healing item, and
/// its effect, in order.
pub open spec fn heal_queue(recs: Seq<EntityRecord>, acts: Seq<(Entity, ActivateItem)>, n: int) -> Seq<(Entity, ProvidesHealing)>
    decreases n,
{
    if n <= 0 {
        Seq::empty()
    } else {
        let rest = heal_queue(recs, acts, n - 1);
        let a = acts[n - 1].1;
        match components_of(recs, a.item).provides_healing {
            Some(p) => rest.push((a.applied_by, p)),
            None => rest,
        }
    }
}

/// Whether some item among the first `n` activations reveals the map.
pub open spec fn reveals_upto(recs: Seq<EntityRecord>, acts: Seq<(Entity, ActivateItem)>, n: int) -> bool
    decreases n,
{
    if n <= 0 {
        false
    } else {
        reveals_upto(recs, acts, n - 1) || components_of(recs, acts[n - 1].1.item).reveals_map
    }
}

/// The removals for the first `n` activations: each message, then its item.
pub open spec fn activation_removals(acts: Seq<(Entity, ActivateItem)>, n: int) -> Seq<Command>
    decreases n,
{
    if n <= 0 {
        Seq::empty()
    } else {
        activation_removals(acts, n - 1).push(Command::Remove(acts[n - 1].0)).push(
            Command::Remove(acts[n - 1].1.item),
        )
    }
}

/// `c` healed by `amount`, up to its maximum; unchanged without health.
pub open spec fn healed(c: Components, amount: i32) -> Components {
    match c.health {
        Some(h) => Components {
            health: Some(
                Health {
                    current: if h.max < h.current + amount {
                        h.max
                    } else {
                        (h.current + amount) as i32
                    },
                    max: h.max,
                },
            ),
            ..c
        },
        None => c,
    }
}

/// Healing never raises health above its maximum, keeps the maximum, and, by a nonnegative
/// amount, never lowers health that is within its maximum.
pub proof fn lemma_healed_capped(c: Components, amount: i32)
    requires
        c.health is Some,
        i32::MIN <= c.health->0.current + amount,
    ensures
        healed(c, amount).health is Some,
        healed(c, amount).health->0.current <= c.health->0.max,
        healed(c, amount).health->0.max == c.health->0.max,
        amount >= 0 && c.health->0.current <= c.health->0.max ==> healed(c, amount).health->0.current
            >= c.health->0.current,
{
}

/// Whether every entity with health has no more than its maximum.
pub open spec fn health_within_max(recs: Seq<EntityRecord>) -> bool {
    forall|i: int|
        0 <= i < recs.len() ==> ((#[trigger] recs[i]).components.health matches Some(h) ==> h.current
            <= h.max)
}

/// The records after the first `n` heals, in order.
pub open spec fn apply_heals(recs: Seq<EntityRecord>, q: Seq<(Entity, ProvidesHealing)>, n: int) -> Seq<EntityRecord>
    decreases n,
{
    if n <= 0 {
        recs
    } else {
        let r = apply_heals(recs, q, n - 1);
        let i = find_entity(r, q[n - 1].0);
        if i >= 0 {
            r.update(i, EntityRecord { entity: r[i].entity, components: healed(r[i].components, q[n - 1].1.amount) })
        } else {
            r
        }
    }
}

/// Whether the first `n` heals can be applied: each healed entity exists, and its health
/// plus the healing fits in an `i32`.
pub open spec fn heals_fit(recs: Seq<EntityRecord>, q: Seq<(Entity, ProvidesHealing)>, n: int) -> bool
    decreases n,
{
    if n <= 0 {
        true
    } else {
        let r = apply_heals(recs, q, n - 1);
        let i = find_entity(r, q[n - 1].0);
        &&& heals_fit(recs, q, n - 1)
        &&& i >= 0
        &&& (r[i].components.health matches Some(h) ==> i32::MIN <= h.current + q[n - 1].1.amount <= i32::MAX)
    }
}

/// Whether `use_items` can run: every activated item exists, and the heals fit.
pub open spec fn use_items_ready(recs: Seq<EntityRecord>) -> bool {
    let acts = activations(recs);
    let q = heal_queue(recs, acts, acts.len() as int);
    &&& forall|k: int| 0 <= k < acts.len() ==> has_entity(recs, #[trigger] acts[k].1.item)
    &&& heals_fit(recs, q, q.len() as int)
}

proof fn lemma_apply_heals_len(recs: Seq<EntityRecord>, q: Seq<(Entity, ProvidesHealing)>, n: int)
    requires
        0 <= n,
    ensures
        apply_heals(recs, q, n).len() == recs.len(),
        forall|i: int| 0 <= i < recs.len() ==> #[trigger] apply_heals(recs, q, n)[i].entity == recs[i].entity,
    decreases n,
{
    if n > 0 {
        lemma_apply_heals_len(recs, q, n - 1);
        let r = apply_heals(recs, q, n - 1);
        lemma_find_entity(r, q[n - 1].0);
    }
}

/// Healing changes nothing but health: every record keeps its entity, its place and every
/// other component.
pub proof fn lemma_heals_change_only_health(recs: Seq<EntityRecord>, q: Seq<(Entity, ProvidesHealing)>, n: int)
    requires
        0 <= n,
    ensures
        apply_heals(recs, q, n).len() == recs.len(),
        forall|i: int|
            0 <= i < recs.len() ==> (#[trigger] apply_heals(recs, q, n)[i]).entity == recs[i].entity
                && (Components { health: recs[i].components.health, ..apply_heals(recs, q, n)[i].components })
                == recs[i].components,
    decreases n,
{
    lemma_apply_heals_len(recs, q, n);
    if n > 0 {
        lemma_heals_change_only_health(recs, q, n - 1);
        let r = apply_heals(recs, q, n - 1);
        lemma_find_entity(r, q[n - 1].0);
        let r2 = apply_heals(recs, q, n);
        assert forall|i: int| 0 <= i < recs.len() implies (#[trigger] r2[i]).entity == recs[i].entity
            && (Components { health: recs[i].components.health, ..r2[i].components }) == recs[i].components by {
            if i != find_entity(r, q[n - 1].0) {
                assert(r2[i] == r[i]);
            }
        }
    }
}

/// Applying heals that fit keeps every entity's health within its maximum.
pub proof fn lemma_heals_keep_max(recs: Seq<EntityRecord>, q: Seq<(Entity, ProvidesHealing)>, n: int)
    requires
        0 <= n,
        heals_fit(recs, q, n),
        health_within_max(recs),
    ensures
        health_within_max(apply_heals(recs, q, n)),
    decreases n,
{
    if n > 0 {
        lemma_heals_keep_max(recs, q, n - 1);
        let r = apply_heals(recs, q, n - 1);
        let i = find_entity(r, q[n - 1].0);
        lemma_find_entity(r, q[n - 1].0);
        let r2 = apply_heals(recs, q, n);
        assert forall|j: int| 0 <= j < r2.len() implies ((#[trigger] r2[j]).components.health matches Some(h)
            ==> h.current <= h.max) by {
            if j == i {
                if r[i].components.health is Some {
                    lemma_healed_capped(r[i].components, q[n - 1].1.amount);
                }
            } else {
                assert(r2[j] == r[j]);
            }
        }
    }
}

/// Uses the activated items, in order: each healing item queues its healing for whoever
/// used it, each magic map reveals the whole map, and each message and its item are
/// removed. Then the queued healing is applied in order, each raising health by its amount
/// up to the maximum.
pub fn use_items(map: &mut GameMap, ecs: &mut World, commands: &mut CommandBuffer)
    requires
        old(map).wf(),
        old(ecs).wf(),
        use_items_ready(old(ecs).records@),
    ensures
        ({
            let recs = old(ecs).records@;
            let acts = activations(recs);
            let q = heal_queue(recs, acts, acts.len() as int);
            &&& final(ecs).wf()
            &&& final(ecs).next_entity == old(ecs).next_entity
            &&& final(ecs).records@ == apply_heals(recs, q, q.len() as int)
            &&& final(commands).commands@ == old(commands).commands@ + activation_removals(acts, acts.len() as int)
            &&& final(map).wf()
            &&& final(map).tiles == old(map).tiles
            &&& forall|i: int| 0 <= i < final(map).revealed_tiles@.len() ==> #[trigger] final(map).revealed_tiles@[i]
                == (old(map).revealed_tiles@[i] || reveals_upto(recs, acts, acts.len() as int))
        }),
{
    let ghost recs = ecs.records@;
    let ghost acts = activations(recs);
    let ghost old_cmds = commands.commands@;
    let mut healing_queue: Vec<(Entity, ProvidesHealing)> = Vec::new();
    let ghost mut n_acts: int = 0;
    let mut i: usize = 0;
    while i < ecs.records.len()
        invariant
            ecs.records@ == recs,
            acts == activations(recs),
            forall|k: int| 0 <= k < acts.len() ==> has_entity(recs, #[trigger] acts[k].1.item),
            i <= recs.len(),
            map.wf(),
            map.tiles == old(map).tiles,
            n_acts == activations_upto(recs, i as int).len(),
            activations_upto(recs, i as int) == acts.take(n_acts),
            n_acts <= acts.len(),
            healing_queue@ == heal_queue(recs, acts, n_acts),
            commands.commands@ == old_cmds + activation_removals(acts, n_acts),
            forall|x: int| 0 <= x < map.revealed_tiles@.len() ==> #[trigger] map.revealed_tiles@[x]
                == (old(map).revealed_tiles@[x] || reveals_upto(recs, acts, n_acts)),
        decreases recs.len() - i,
    {
        let c = &ecs.records[i].components;
        proof {
            lemma_activations_step(recs, i as int);
            lemma_activations_prefix(recs, i + 1, recs.len() as int);
        }
        if let Some(activation) = c.activate_item {
            let intent = ecs.records[i].entity;
            proof {
                let u = activations_upto(recs, i + 1);
                assert(u == activations_upto(recs, i as int).push((intent, activation)));
                assert(u.len() == n_acts + 1);
                assert(acts.take(u.len() as int) == u);
                assert(acts.take(u.len() as int)[n_acts] == acts[n_acts]);
                assert(acts[n_acts] == (intent, activation));
                assert(has_entity(recs, acts[n_acts].1.item));
                lemma_find_entity(recs, activation.item);
            }
            let j = ecs.find(activation.item).unwrap();
            let item = &ecs.records[j].components;
            assert(*item == components_of(recs, activation.item));
            if let Some(potion) = item.provides_healing {
                healing_queue.push((activation.applied_by, potion));
            }
            if item.reveals_map {
                let mut t: usize = 0;
                while t < map.revealed_tiles.len()
                    invariant
                        map.wf(),
                        map.tiles == old(map).tiles,
                        t <= map.revealed_tiles@.len(),
                        forall|x: int| 0 <= x < t ==> #[trigger] map.revealed_tiles@[x],
                        forall|x: int| t <= x < map.revealed_tiles@.len() ==> #[trigger] map.revealed_tiles@[x]
                            == (old(map).revealed_tiles@[x] || reveals_upto(recs, acts, n_acts)),
                    decreases map.revealed_tiles@.len() - t,
                {
                    map.revealed_tiles.set(t, true);
                    t += 1;
                }
            }
            commands.remove(intent);
            commands.remove(activation.item);
            proof {
                assert(acts.take(n_acts + 1) =~= acts.take(n_acts).push(acts[n_acts]));
                n_acts = n_acts + 1;
                assert(commands.commands@ =~= old_cmds + activation_removals(acts, n_acts));
            }
        }
        i += 1;
    }
    proof {
        assert(acts.take(n_acts) =~= acts);
    }
    let ghost q = heal_queue(recs, acts, acts.len() as int);
    let mut k: usize = 0;
    while k < healing_queue.len()
        invariant
            healing_queue@ == q,
            k <= q.len(),
            heals_fit(recs, q, q.len() as int),
            ecs.records@ == apply_heals(recs, q, k as int),
            ecs.next_entity == old(ecs).next_entity,
            recs == old(ecs).records@,
            old(ecs).wf(),
        decreases q.len() - k,
    {
        let (applied_by, potion) = healing_queue[k];
        proof {
            lemma_heals_fit_prefix(recs, q, k + 1, q.len() as int);
            lemma_find_entity(ecs.records@, applied_by);
        }
        let j = ecs.find(applied_by).unwrap();
        if let Some(health) = ecs.records[j].components.health {
            let total = health.current + potion.amount;
            let current = if health.max < total {
                health.max
            } else {
                total
            };
            ecs.records[j].components.health = Some(Health { current, max: health.max });
        }
        proof {
            assert(ecs.records@ =~= apply_heals(recs, q, k + 1));
        }
        k += 1;
    }
    proof {
        lemma_apply_heals_len(recs, q, q.len() as int);
        assert forall|a: int, b: int| 0 <= a < b < ecs.records@.len() implies #[trigger] ecs.records@[a].entity != #[trigger] ecs.records@[b].entity by {
            assert(ecs.records@[a].entity == recs[a].entity);
            assert(ecs.records@[b].entity == recs[b].entity);
        }
        assert forall|a: int| 0 <= a < ecs.records@.len() implies #[trigger] ecs.records@[a].entity < ecs.next_entity by {
            assert(ecs.records@[a].entity == recs[a].entity);
        }
    }
}

/// One more record adds its activation, if it carries one.
proof fn lemma_activations_step(recs: Seq<EntityRecord>, i: int)
    requires
        0 <= i < recs.len(),
    ensures
        activations_upto(recs, i + 1) == match recs[i].components.activate_item {
            Some(a) => activations_upto(recs, i).push((recs[i].entity, a)),
            None => activations_upto(recs, i),
        },
{
}

/// The activations of a prefix of the records are a prefix of theirs.
proof fn lemma_activations_prefix(recs: Seq<EntityRecord>, i: int, j: int)
    requires
        0 <= i <= j <= recs.len(),
    ensures
        activations_upto(recs, i).len() <= activations_upto(recs, j).len(),
        activations_upto(recs, j).take(activations_upto(recs, i).len() as int) == activations_upto(recs, i),
    decreases j - i,
{
    if i < j {
        lemma_activations_prefix(recs, i, j - 1);
        let a = activations_upto(recs, i);
        let b = activations_upto(recs, j - 1);
        let c = activations_upto(recs, j);
        assert(c.take(b.len() as int) =~= b);
        assert(c.take(a.len() as int) =~= b.take(a.len() as int));
    } else {
        assert(activations_upto(recs, i).take(activations_upto(recs, i).len() as int) =~= activations_upto(recs, i));
    }
}

/// Heals that fit keep fitting on a prefix.
proof fn lemma_heals_fit_prefix(recs: Seq<EntityRecord>, q: Seq<(Entity, ProvidesHealing)>, k: int, n: int)
    requires
        0 <= k <= n,
        heals_fit(recs, q, n),
    ensures
        heals_fit(recs, q, k),
    decreases n - k,
{
    if k < n {
        lemma_heals_fit_prefix(recs, q, k, n - 1);
    }
}

} // verus!
