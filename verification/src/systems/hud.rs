//! The heads-up display: the player's health and what it carries.
use vstd::prelude::*;
use crate::components::Health;
use crate::inventory::{carried_groups, group_carried, group_map_get_index, group_map_len};
use crate::world::{first_answer, lemma_first_answer, Query, World};

verus! {

/// The player's health (the first player with health) and, for each group of the items it
/// carries grouped by name, in order, the name and how many there are.
pub fn hud(ecs: &World) -> (r: (Health, Vec<(String, usize)>))
    requires
        first_answer(ecs.records@, Query::PlayerHealth) >= 0,
    ensures
        ({
            let pi = first_answer(ecs.records@, Query::PlayerHealth);
            let g = carried_groups(ecs.records@, ecs.records@[pi].entity);
            &&& r.0 == ecs.records@[pi].components.health->0
            &&& r.1@.len() == g.len()
            &&& forall|k: int| 0 <= k < g.len() ==> (#[trigger] r.1@[k]).0@ == g[k].0 && r.1@[k].1 == g[k].1.len()
        }),
{
    proof {
        lemma_first_answer(ecs.records@, Query::PlayerHealth);
    }
    let pi = ecs.first(Query::PlayerHealth).unwrap();
    let player_entity = ecs.records[pi].entity;
    let player_health = ecs.records[pi].components.health.unwrap();
    let item_map = group_carried(&ecs.records, player_entity);
    let ghost g = carried_groups(ecs.records@, player_entity);
    let n = group_map_len(&item_map);
    let mut items: Vec<(String, usize)> = Vec::new();
    let mut k: usize = 0;
    while k < n
        invariant
            n == g.len(),
            crate::inventory::name_groups(item_map) == g,
            k <= n,
            items@.len() == k,
            forall|j: int| 0 <= j < k ==> (#[trigger] items@[j]).0@ == g[j].0 && items@[j].1 == g[j].1.len(),
        decreases n - k,
    {
        let (name, entities) = group_map_get_index(&item_map, k).unwrap();
        items.push((name.clone(), entities.len()));
        k += 1;
    }
    (player_health, items)
}

} // verus!
