//! What the player carries, grouped by name in an `IndexMap`, in the order that the map's
//! removals and insertions leave.
use vstd::prelude::*;
use indexmap::IndexMap;
use crate::components::Entity;
use crate::world::EntityRecord;

verus! {

#[verifier::external_type_specification]
#[verifier::external_body]
#[verifier::reject_recursive_types(K)]
#[verifier::reject_recursive_types(V)]
#[verifier::reject_recursive_types(S)]
pub struct ExIndexMap<K, V, S>(IndexMap<K, V, S>);

/// What a map from names to entities holds: its entries in order, each a name and its
/// entities.
pub uninterp spec fn name_groups(m: IndexMap<String, Vec<Entity>>) -> Seq<(Seq<char>, Seq<Entity>)>;

/// The index of the entry with key `k`, or -1.
pub open spec fn key_index(g: Seq<(Seq<char>, Seq<Entity>)>, k: Seq<char>) -> int
    decreases g.len(),
{
    if g.len() == 0 {
        -1
    } else if g.last().0 == k {
        g.len() - 1
    } else {
        key_index(g.drop_last(), k)
    }
}

/// No two entries share a key.
pub open spec fn keys_distinct(g: Seq<(Seq<char>, Seq<Entity>)>) -> bool {
    forall|i: int, j: int| 0 <= i < j < g.len() ==> #[trigger] g[i].0 != #[trigger] g[j].0
}

/// The entries after removing entry `i` the way `swap_remove` does: the last entry takes
/// its place.
pub open spec fn swap_removed(g: Seq<(Seq<char>, Seq<Entity>)>, i: int) -> Seq<(Seq<char>, Seq<Entity>)> {
    g.update(i, g.last()).drop_last()
}

/// Calls `IndexMap::new`: an empty map.
#[verifier::external_body]
fn group_map_new() -> (m: IndexMap<String, Vec<Entity>>)
    ensures
        name_groups(m) == Seq::<(Seq<char>, Seq<Entity>)>::empty(),
{
    IndexMap::new()
}

/// Calls `IndexMap::swap_remove` (what the deprecated `remove` does): the entry with the
/// key, if any, is removed and its value returned, the last entry taking its place.
#[verifier::external_body]
fn group_map_swap_remove(m: &mut IndexMap<String, Vec<Entity>>, key: &String) -> (r: Option<Vec<Entity>>)
    ensures
        ({
            let g = name_groups(*old(m));
            let i = key_index(g, key@);
            if i >= 0 {
                &&& r matches Some(v) && v@ == g[i].1
                &&& name_groups(*final(m)) == swap_removed(g, i)
            } else {
                &&& r is None
                &&& name_groups(*final(m)) == g
            }
        }),
{
    m.swap_remove(key)
}

/// Calls `IndexMap::insert`: the value replaces that of the entry with the key, which keeps
/// its place; without one, the entry goes last.
#[verifier::external_body]
fn group_map_insert(m: &mut IndexMap<String, Vec<Entity>>, key: String, value: Vec<Entity>) -> (r: Option<Vec<Entity>>)
    ensures
        ({
            let g = name_groups(*old(m));
            let i = key_index(g, key@);
            if i >= 0 {
                &&& r matches Some(v) && v@ == g[i].1
                &&& name_groups(*final(m)) == g.update(i, (g[i].0, value@))
            } else {
                &&& r is None
                &&& name_groups(*final(m)) == g.push((key@, value@))
            }
        }),
{
    m.insert(key, value)
}

/// Calls `IndexMap::len`: the number of entries.
#[verifier::external_body]
pub(crate) fn group_map_len(m: &IndexMap<String, Vec<Entity>>) -> (r: usize)
    ensures
        r == name_groups(*m).len(),
{
    m.len()
}

/// Calls `IndexMap::get_index`: the entry at `index`, if there is one.
#[verifier::external_body]
pub(crate) fn group_map_get_index(m: &IndexMap<String, Vec<Entity>>, index: usize) -> (r: Option<(&String, &Vec<Entity>)>)
    ensures
        r is Some <==> index < name_groups(*m).len(),
        r matches Some(kv) ==> kv.0@ == name_groups(*m)[index as int].0,
        r matches Some(kv) ==> kv.1@ == name_groups(*m)[index as int].1,
{
    m.get_index(index)
}

/// The items among the first `n` records that `player` carries and that have a name, in
/// order: each entity and its name.
pub open spec fn carried_upto(recs: Seq<EntityRecord>, player: Entity, n: int) -> Seq<(Entity, Seq<char>)>
    decreases n,
{
    if n <= 0 {
        Seq::empty()
    } else {
        let rest = carried_upto(recs, player, n - 1);
        let c = recs[n - 1].components;
        if c.item && c.carried == Some(player) && c.name is Some {
            rest.push((recs[n - 1].entity, c.name->0@))
        } else {
            rest
        }
    }
}

/// The named items that `player` carries, in order.
pub open spec fn carried_by(recs: Seq<EntityRecord>, player: Entity) -> Seq<(Entity, Seq<char>)> {
    carried_upto(recs, player, recs.len() as int)
}

/// The groups after adding entity `e` named `name`: an existing group of that name is
/// taken out (its place going to the last group) and put back last with `e` added; a new
/// name starts a group of its own, last.
pub open spec fn regroup(g: Seq<(Seq<char>, Seq<Entity>)>, e: Entity, name: Seq<char>) -> Seq<(Seq<char>, Seq<Entity>)> {
    let i = key_index(g, name);
    if i >= 0 {
        swap_removed(g, i).push((name, g[i].1.push(e)))
    } else {
        g.push((name, seq![e]))
    }
}

/// The groups of the first `n` items.
pub open spec fn groups_upto(items: Seq<(Entity, Seq<char>)>, n: int) -> Seq<(Seq<char>, Seq<Entity>)>
    decreases n,
{
    if n <= 0 {
        Seq::empty()
    } else {
        regroup(groups_upto(items, n - 1), items[n - 1].0, items[n - 1].1)
    }
}

/// The groups, by name, of the items that `player` carries.
pub open spec fn carried_groups(recs: Seq<EntityRecord>, player: Entity) -> Seq<(Seq<char>, Seq<Entity>)> {
    let items = carried_by(recs, player);
    groups_upto(items, items.len() as int)
}

/// No group is empty.
pub open spec fn groups_nonempty(g: Seq<(Seq<char>, Seq<Entity>)>) -> bool {
    forall|i: int| 0 <= i < g.len() ==> (#[trigger] g[i]).1.len() > 0
}

/// The number of entities in all the groups.
pub open spec fn total_members(g: Seq<(Seq<char>, Seq<Entity>)>) -> nat
    decreases g.len(),
{
    if g.len() == 0 {
        0
    } else {
        total_members(g.drop_last()) + g.last().1.len()
    }
}

proof fn lemma_total_update(g: Seq<(Seq<char>, Seq<Entity>)>, i: int, v: (Seq<char>, Seq<Entity>))
    requires
        0 <= i < g.len(),
    ensures
        total_members(g.update(i, v)) == total_members(g) - g[i].1.len() + v.1.len(),
    decreases g.len(),
{
    if i == g.len() - 1 {
        assert(g.update(i, v).drop_last() =~= g.drop_last());
    } else {
        lemma_total_update(g.drop_last(), i, v);
        assert(g.update(i, v).drop_last() =~= g.drop_last().update(i, v));
    }
}

/// Grouping one more item adds one member.
proof fn lemma_regroup_total(g: Seq<(Seq<char>, Seq<Entity>)>, e: Entity, name: Seq<char>)
    ensures
        total_members(regroup(g, e, name)) == total_members(g) + 1,
{
    lemma_key_index(g, name);
    let i = key_index(g, name);
    if i >= 0 {
        let u = g.update(i, g.last());
        lemma_total_update(g, i, g.last());
        assert(u.last() == g.last());
        let s = swap_removed(g, i);
        assert(s == u.drop_last());
        let r = regroup(g, e, name);
        assert(r.drop_last() =~= s);
    } else {
        let r = regroup(g, e, name);
        assert(r.drop_last() =~= g);
    }
}

/// Grouping by name loses and adds no item: the groups of the first `n` items hold `n`
/// entities in all.
pub proof fn lemma_groups_total(items: Seq<(Entity, Seq<char>)>, n: int)
    requires
        0 <= n,
    ensures
        total_members(groups_upto(items, n)) == n,
    decreases n,
{
    if n > 0 {
        lemma_groups_total(items, n - 1);
        lemma_regroup_total(groups_upto(items, n - 1), items[n - 1].0, items[n - 1].1);
    }
}

/// The groups of what a player carries hold as many entities as it carries named items.
pub proof fn lemma_carried_groups_total(recs: Seq<EntityRecord>, player: Entity)
    ensures
        total_members(carried_groups(recs, player)) == carried_by(recs, player).len(),
{
    lemma_groups_total(carried_by(recs, player), carried_by(recs, player).len() as int);
}

proof fn lemma_key_index(g: Seq<(Seq<char>, Seq<Entity>)>, k: Seq<char>)
    ensures
        -1 <= key_index(g, k) < g.len(),
        key_index(g, k) >= 0 ==> g[key_index(g, k)].0 == k,
        key_index(g, k) == -1 ==> forall|i: int| 0 <= i < g.len() ==> (#[trigger] g[i]).0 != k,
    decreases g.len(),
{
    if g.len() > 0 && g.last().0 != k {
        lemma_key_index(g.drop_last(), k);
        assert forall|i: int| 0 <= i < g.len() - 1 implies g.drop_last()[i] == #[trigger] g[i] by {}
    }
}

proof fn lemma_regroup_nonempty(g: Seq<(Seq<char>, Seq<Entity>)>, e: Entity, name: Seq<char>)
    requires
        groups_nonempty(g),
        keys_distinct(g),
    ensures
        groups_nonempty(regroup(g, e, name)),
        keys_distinct(regroup(g, e, name)),
        key_index(g, name) >= 0 ==> forall|j: int| 0 <= j < swap_removed(g, key_index(g, name)).len()
            ==> (#[trigger] swap_removed(g, key_index(g, name))[j]).0 != name,
{
    lemma_key_index(g, name);
    let i = key_index(g, name);
    if i >= 0 {
        let s = swap_removed(g, i);
        assert forall|j: int| 0 <= j < s.len() implies (#[trigger] s[j]).1.len() > 0 by {
            if j == i {
                assert(s[j] == g.last());
                assert(g[g.len() - 1].1.len() > 0);
            } else {
                assert(s[j] == g[j]);
            }
        }
        assert forall|j: int| 0 <= j < s.len() implies (#[trigger] s[j]).0 != name by {
            if j == i {
                assert(s[j] == g[g.len() - 1]);
                if g.len() - 1 != i {
                    assert(g[i].0 != g[g.len() - 1].0);
                }
            } else {
                assert(s[j] == g[j]);
                if j < i {
                    assert(g[j].0 != g[i].0);
                } else {
                    assert(g[i].0 != g[j].0);
                }
            }
        }
        let r = regroup(g, e, name);
        assert forall|j: int| 0 <= j < r.len() implies (#[trigger] r[j]).1.len() > 0 by {
            if j < s.len() {
                assert(r[j] == s[j]);
            }
        }
        assert forall|a: int, b: int| 0 <= a < b < r.len() implies #[trigger] r[a].0 != #[trigger] r[b].0 by {
            let sa = if a == i { g.len() - 1 } else { a };
            let sb = if b == i { g.len() - 1 } else { b };
            if b < s.len() {
                assert(r[a] == g[sa] && r[b] == g[sb]);
                if sa < sb {
                    assert(g[sa].0 != g[sb].0);
                } else {
                    assert(g[sb].0 != g[sa].0);
                }
            } else {
                assert(r[a] == s[a]);
            }
        }
    } else {
        let r = regroup(g, e, name);
        assert forall|j: int| 0 <= j < r.len() implies (#[trigger] r[j]).1.len() > 0 by {
            if j < g.len() {
                assert(r[j] == g[j]);
            }
        }
        assert forall|a: int, b: int| 0 <= a < b < r.len() implies #[trigger] r[a].0 != #[trigger] r[b].0 by {
            if b < g.len() {
                assert(r[a] == g[a] && r[b] == g[b]);
            } else {
                assert(r[a] == g[a]);
            }
        }
    }
}

/// The items that `player` carries, grouped by name in an `IndexMap`: for each item, in
/// order, its group is taken out of the map (if there is one) and put back with the item
/// added, or a new group is started.
pub fn group_carried(recs: &Vec<EntityRecord>, player: Entity) -> (m: IndexMap<String, Vec<Entity>>)
    ensures
        name_groups(m) == carried_groups(recs@, player),
        groups_nonempty(name_groups(m)),
        keys_distinct(name_groups(m)),
{
    let mut item_map = group_map_new();
    let ghost items = carried_by(recs@, player);
    let ghost mut n: int = 0;
    let mut i: usize = 0;
    while i < recs.len()
        invariant
            i <= recs@.len(),
            items == carried_by(recs@, player),
            n == carried_upto(recs@, player, i as int).len(),
            carried_upto(recs@, player, i as int) == items.take(n),
            n <= items.len(),
            name_groups(item_map) == groups_upto(items, n),
            groups_nonempty(name_groups(item_map)),
            keys_distinct(name_groups(item_map)),
        decreases recs@.len() - i,
    {
        proof {
            lemma_carried_prefix(recs@, player, i + 1, recs@.len() as int);
        }
        let c = &recs[i].components;
        if c.item && c.carried == Some(player) {
            if let Some(name) = &c.name {
                let item_entity = recs[i].entity;
                proof {
                    let u = carried_upto(recs@, player, i + 1);
                    assert(u == carried_upto(recs@, player, i as int).push((item_entity, name@)));
                    assert(items.take(u.len() as int) == u);
                    assert(items.take(u.len() as int)[n] == items[n]);
                    assert(items[n] == (item_entity, name@));
                    lemma_key_index(name_groups(item_map), name@);
                    lemma_regroup_nonempty(name_groups(item_map), item_entity, name@);
                }
                let ghost g = name_groups(item_map);
                if let Some(items_added) = group_map_swap_remove(&mut item_map, name) {
                    let mut new_items = items_added;
                    new_items.push(item_entity);
                    proof {
                        let s = swap_removed(g, key_index(g, name@));
                        lemma_key_index(s, name@);
                    }
                    group_map_insert(&mut item_map, name.clone(), new_items);
                } else {
                    let mut v: Vec<Entity> = Vec::new();
                    v.push(item_entity);
                    group_map_insert(&mut item_map, name.clone(), v);
                }
                proof {
                    assert(name_groups(item_map) =~= regroup(g, item_entity, name@));
                    n = n + 1;
                    assert(items.take(n) =~= items.take(n - 1).push(items[n - 1]));
                }
            }
        }
        i += 1;
    }
    proof {
        assert(items.take(n) =~= items);
    }
    item_map
}

proof fn lemma_carried_prefix(recs: Seq<EntityRecord>, player: Entity, i: int, j: int)
    requires
        0 <= i <= j <= recs.len(),
    ensures
        carried_upto(recs, player, i).len() <= carried_upto(recs, player, j).len(),
        carried_upto(recs, player, j).take(carried_upto(recs, player, i).len() as int) == carried_upto(recs, player, i),
    decreases j - i,
{
    if i < j {
        lemma_carried_prefix(recs, player, i, j - 1);
        let a = carried_upto(recs, player, i);
        let b = carried_upto(recs, player, j - 1);
        let c = carried_upto(recs, player, j);
        assert(c.take(b.len() as int) =~= b);
        assert(c.take(a.len() as int) =~= b.take(a.len() as int));
    } else {
        assert(carried_upto(recs, player, i).take(carried_upto(recs, player, i).len() as int) =~= carried_upto(recs, player, i));
    }
}

} // verus!
