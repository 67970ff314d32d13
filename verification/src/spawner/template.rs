//! Entities described by data: templates of monsters and items, and spawning them by level.
use vstd::prelude::*;
use std::collections::HashSet;
use bracket_lib::prelude::RandomNumberGenerator;
use crate::components::{cp437, to_cp437, Color, ColorPair, FieldOfView, Health, ProvidesHealing, Render};
use crate::geometry::Point;
use crate::rng::random_slice_entry;
use crate::spawner::{is_fresh_view, white_on_black};
use crate::world::{lemma_apply_spawns, CommandBuffer, Components, EntityRecord, World};

verus! {

broadcast use vstd::std_specs::hash::group_hash_axioms;

#[derive(Clone, Copy, Debug, PartialEq, Eq, Structural)]
pub enum EntityType {
    Enemy,
    Item,
}

/// The description of a kind of monster or item: on which levels it spawns and how often,
/// how it looks, the effects it provides, and for a monster its health and damage.
pub struct Template {
    pub entity_type: EntityType,
    pub levels: HashSet<usize>,
    pub frequency: i32,
    pub name: String,
    pub glyph: char,
    pub provides: Option<Vec<(String, i32)>>,
    pub hp: Option<i32>,
    pub base_damage: Option<i32>,
}

/// All the templates of the game.
pub struct Templates {
    pub entities: Vec<Template>,
}

/// The indices of the first `n` templates that spawn on `level`, each repeated as often as
/// its frequency says.
pub open spec fn available_from(ts: Seq<Template>, level: usize, n: int) -> Seq<usize>
    decreases n,
{
    if n <= 0 {
        Seq::empty()
    } else {
        let rest = available_from(ts, level, n - 1);
        let t = ts[n - 1];
        if t.levels@.contains(level) && t.frequency > 0 {
            rest + Seq::new(t.frequency as nat, |k: int| (n - 1) as usize)
        } else {
            rest
        }
    }
}

/// The indices of the templates that spawn on `level`, each repeated as often as its
/// frequency says.
pub open spec fn available(ts: Seq<Template>, level: usize) -> Seq<usize> {
    available_from(ts, level, ts.len() as int)
}

/// How often `v` occurs among the first `n` entries of `s`.
pub open spec fn occurrences(s: Seq<usize>, v: usize, n: int) -> nat
    decreases n,
{
    if n <= 0 {
        0
    } else {
        occurrences(s, v, n - 1) + if s[n - 1] == v {
            1nat
        } else {
            0nat
        }
    }
}

/// How many entries a template has in the available list of `level`: its frequency when it
/// spawns there, none otherwise.
pub open spec fn weight(t: Template, level: usize) -> nat {
    if t.levels@.contains(level) && t.frequency > 0 {
        t.frequency as nat
    } else {
        0
    }
}

proof fn lemma_occurrences_prefix(a: Seq<usize>, b: Seq<usize>, v: usize, k: int)
    requires
        k <= a.len(),
    ensures
        occurrences(a + b, v, k) == occurrences(a, v, k),
    decreases k,
{
    if k > 0 {
        lemma_occurrences_prefix(a, b, v, k - 1);
    }
}

proof fn lemma_occurrences_concat(a: Seq<usize>, b: Seq<usize>, v: usize, m: int)
    requires
        0 <= m <= b.len(),
    ensures
        occurrences(a + b, v, a.len() + m) == occurrences(a, v, a.len() as int) + occurrences(b, v, m),
    decreases m,
{
    if m > 0 {
        lemma_occurrences_concat(a, b, v, m - 1);
        assert((a + b)[a.len() + m - 1] == b[m - 1]);
    } else {
        lemma_occurrences_prefix(a, b, v, a.len() as int);
    }
}

proof fn lemma_occurrences_const(c: usize, f: nat, v: usize, m: int)
    requires
        0 <= m <= f,
    ensures
        occurrences(Seq::new(f, |k: int| c), v, m) == if c == v {
            m as nat
        } else {
            0nat
        },
    decreases m,
{
    if m > 0 {
        lemma_occurrences_const(c, f, v, m - 1);
    }
}

proof fn lemma_available_from_weights(ts: Seq<Template>, level: usize, t: int, n: int)
    requires
        0 <= t < ts.len() <= usize::MAX,
        0 <= n <= ts.len(),
    ensures
        occurrences(available_from(ts, level, n), t as usize, available_from(ts, level, n).len() as int)
            == if t < n {
            weight(ts[t], level)
        } else {
            0
        },
    decreases n,
{
    if n > 0 {
        lemma_available_from_weights(ts, level, t, n - 1);
        let rest = available_from(ts, level, n - 1);
        let tn = ts[n - 1];
        if tn.levels@.contains(level) && tn.frequency > 0 {
            let extra = Seq::new(tn.frequency as nat, |k: int| (n - 1) as usize);
            lemma_occurrences_concat(rest, extra, t as usize, extra.len() as int);
            lemma_occurrences_const((n - 1) as usize, tn.frequency as nat, t as usize, extra.len() as int);
        }
    }
}

/// Each template is drawn as often as its frequency says: template `t` has exactly its
/// weight in entries of the available list of `level`.
pub proof fn lemma_available_weights(ts: Seq<Template>, level: usize, t: int)
    requires
        0 <= t < ts.len() <= usize::MAX,
    ensures
        occurrences(available(ts, level), t as usize, available(ts, level).len() as int) == weight(
            ts[t],
            level,
        ),
{
    lemma_available_from_weights(ts, level, t, ts.len() as int);
}

/// The amount of the last `Healing` effect among the first `n` effects, if any.
pub open spec fn healing_effect(effects: Seq<(String, i32)>, n: int) -> Option<ProvidesHealing>
    decreases n,
{
    if n <= 0 {
        None
    } else if effects[n - 1].0@ == "Healing"@ {
        Some(ProvidesHealing { amount: effects[n - 1].1 })
    } else {
        healing_effect(effects, n - 1)
    }
}

/// Whether a `MagicMap` effect is among the first `n` effects.
pub open spec fn magic_map_effect(effects: Seq<(String, i32)>, n: int) -> bool
    decreases n,
{
    if n <= 0 {
        false
    } else {
        effects[n - 1].0@ == "MagicMap"@ || magic_map_effect(effects, n - 1)
    }
}

/// The effects a template provides.
pub open spec fn effects_of(t: Template) -> Seq<(String, i32)> {
    match t.provides {
        Some(v) => v@,
        None => Seq::empty(),
    }
}

/// Whether a template can be spawned: an enemy has health and damage.
pub open spec fn spawnable(t: Template) -> bool {
    t.entity_type == EntityType::Enemy ==> t.hp is Some && t.base_damage is Some
}

/// The entity that template `t` spawns at `pt`: its name, its glyph in white on black, its
/// position; for an item the item marker, for an enemy its health, chasing, a view of
/// radius 6 and its damage; and its effects, healing from the last `Healing` effect and
/// map revealing if any effect is `MagicMap`. Unknown effects add nothing.
pub open spec fn is_template_bundle(t: Template, pt: Point, c: Components) -> bool {
    let effects = effects_of(t);
    &&& c.name matches Some(n) && n@ == t.name@
    &&& c.render == Some(Render { color: white_on_black(), glyph: cp437(t.glyph) })
    &&& c.position == Some(pt)
    &&& c.provides_healing == healing_effect(effects, effects.len() as int)
    &&& c.reveals_map == magic_map_effect(effects, effects.len() as int)
    &&& match t.entity_type {
        EntityType::Item => {
            &&& c.item && !c.enemy && !c.chasing_player
            &&& c.health is None && c.field_of_view is None && c.damage is None
        },
        EntityType::Enemy => {
            &&& c.enemy && !c.item && c.chasing_player
            &&& c.health == Some(Health { current: t.hp->0, max: t.hp->0 })
            &&& is_fresh_view(c.field_of_view, 6)
            &&& c.damage == t.base_damage
        },
    }
    &&& c.player is None && !c.amulet_of_yala && !c.moving_randomly && !c.weapon
    &&& c.carried is None
    &&& c.wants_to_move is None && c.wants_to_attack is None && c.activate_item is None
}

/// Whether `w2` is `w` with one new entity per point of `pts`, in order, each spawned from a
/// template whose index is in `avail`.
pub open spec fn spawned_from_templates(w: &World, w2: &World, ts: Seq<Template>, avail: Seq<usize>, pts: Seq<Point>) -> bool {
    let n = w.records@.len();
    &&& w2.wf()
    &&& w2.records@.len() == n + pts.len()
    &&& w2.next_entity == w.next_entity + pts.len()
    &&& w2.records@.take(n as int) == w.records@
    &&& forall|k: int|
        0 <= k < pts.len() ==> #[trigger] w2.records@[n + k].entity == w.next_entity + k && exists|t: usize|
            avail.contains(t) && is_template_bundle(ts[t as int], pts[k], w2.records@[n + k].components)
}

/// Whether two strings are equal.
fn same_text(s: &String, t: &str) -> (r: bool)
    ensures
        r == (s@ == t@),
{
    *s == t.to_string()
}

impl Templates {
    /// The indices of the templates that spawn on `level`, each as often as its frequency.
    pub fn available_entities(&self, level: usize) -> (r: Vec<usize>)
        requires
            available(self.entities@, level).len() <= usize::MAX,
        ensures
            r@ == available(self.entities@, level),
    {
        let mut avail: Vec<usize> = Vec::new();
        let mut i: usize = 0;
        while i < self.entities.len()
            invariant
                i <= self.entities@.len(),
                avail@ == available_from(self.entities@, level, i as int),
                available(self.entities@, level).len() <= usize::MAX,
            decreases self.entities@.len() - i,
        {
            let e = &self.entities[i];
            let present = e.levels.contains(&level);
            assert(present == e.levels@.contains(level));
            if present {
                let ghost before = avail@;
                let mut k: i32 = 0;
                while k < e.frequency
                    invariant
                        0 <= k,
                        k <= if e.frequency > 0 {
                            e.frequency
                        } else {
                            0
                        },
                        avail@ == before + Seq::new(k as nat, |j: int| i),
                    decreases e.frequency - k,
                {
                    avail.push(i);
                    proof {
                        assert(avail@ =~= before + Seq::new((k + 1) as nat, |j: int| i));
                    }
                    k += 1;
                }
                assert(e == self.entities@[i as int]);
                if e.frequency > 0 {
                    assert(k == e.frequency);
                    assert(avail@ =~= available_from(self.entities@, level, i as int) + Seq::new(
                        e.frequency as nat, |j: int| ((i + 1) - 1) as usize));
                } else {
                    assert(avail@ =~= before);
                }
                assert(avail@ =~= available_from(self.entities@, level, i + 1));
            } else {
                assert(avail@ =~= available_from(self.entities@, level, i + 1));
            }
            i += 1;
        }
        avail
    }

    /// Spawns, at each point, an entity from a template drawn at random among those of
    /// `level`, weighted by frequency; nothing when no template is of that level.
    pub fn spawn_entities(
        &self,
        ecs: &mut World,
        rng: &mut RandomNumberGenerator,
        level: usize,
        spawn_points: &[Point],
    )
        requires
            old(ecs).wf(),
            old(ecs).next_entity + spawn_points@.len() <= u64::MAX,
            available(self.entities@, level).len() < i32::MAX,
            forall|k: int|
                0 <= k < available(self.entities@, level).len() ==> spawnable(
                    #[trigger] self.entities@[available(self.entities@, level)[k] as int],
                ),
        ensures
            available(self.entities@, level).len() == 0 ==> final(ecs).records@ == old(ecs).records@
                && final(ecs).next_entity == old(ecs).next_entity,
            available(self.entities@, level).len() > 0 ==> spawned_from_templates(
                old(ecs),
                final(ecs),
                self.entities@,
                available(self.entities@, level),
                spawn_points@,
            ),
    {
        proof {
            lemma_available_indices(self.entities@, level, self.entities@.len() as int);
        }
        let available_entities = self.available_entities(level);
        let mut commands = CommandBuffer::new();
        let mut i: usize = 0;
        while i < spawn_points.len()
            invariant
                i <= spawn_points@.len(),
                available_entities@ == available(self.entities@, level),
                available(self.entities@, level).len() < i32::MAX,
                forall|k: int|
                    0 <= k < available(self.entities@, level).len() ==> spawnable(
                        #[trigger] self.entities@[available(self.entities@, level)[k] as int],
                    ),
                forall|k: int|
                    0 <= k < available(self.entities@, level).len() ==> #[trigger] available(self.entities@, level)[k] < self.entities@.len(),
                available_entities@.len() == 0 ==> commands.commands@.len() == 0,
                available_entities@.len() > 0 ==> commands.commands@.len() == i,
                forall|k: int|
                    0 <= k < commands.commands@.len() ==> #[trigger] commands.commands@[k] is Spawn
                        && exists|t: usize| available_entities@.contains(t) && is_template_bundle(
                            self.entities@[t as int],
                            spawn_points@[k],
                            commands.commands@[k]->Spawn_0,
                        ),
            decreases spawn_points@.len() - i,
        {
            if let Some(idx) = random_slice_entry(rng, available_entities.as_slice()) {
                let ghost before = commands.commands@;
                let t = *idx;
                proof {
                    let j = choose|j: int| 0 <= j < available_entities@.len() && available_entities@[j] == t;
                    assert(available(self.entities@, level)[j] == t);
                }
                self.spawn_entity(&spawn_points[i], &self.entities[t], &mut commands);
                proof {
                    assert(available_entities@.contains(t));
                    assert(commands.commands@[i as int] == commands.commands@.last());
                    assert forall|k: int| 0 <= k < commands.commands@.len() implies #[trigger] commands.commands@[k] is Spawn
                        && exists|t2: usize| available_entities@.contains(t2) && is_template_bundle(
                            self.entities@[t2 as int],
                            spawn_points@[k],
                            commands.commands@[k]->Spawn_0,
                        ) by {
                        if k < i {
                            assert(commands.commands@[k] == before[k]);
                        }
                    }
                }
            }
            i += 1;
        }
        let ghost w = *ecs;
        let ghost cmds = commands.commands@;
        commands.flush(ecs);
        proof {
            lemma_apply_spawns(w.records@, w.next_entity as int, cmds);
            let n = w.records@.len();
            if available(self.entities@, level).len() > 0 {
                assert(cmds.len() == spawn_points@.len());
                assert forall|k: int| 0 <= k < spawn_points@.len() implies #[trigger] ecs.records@[n + k].entity == w.next_entity + k && exists|t: usize|
                    available(self.entities@, level).contains(t) && is_template_bundle(self.entities@[t as int], spawn_points@[k], ecs.records@[n + k].components) by {
                    assert(cmds[k] is Spawn);
                    assert(ecs.records@[n + k] == (EntityRecord { entity: (w.next_entity + k) as u64, components: cmds[k]->Spawn_0 }));
                }
            } else {
                assert(ecs.records@ =~= w.records@);
            }
        }
    }

    /// Queues the entity that `template` describes, at `pt`.
    pub fn spawn_entity(&self, pt: &Point, template: &Template, commands: &mut CommandBuffer)
        requires
            spawnable(*template),
        ensures
            final(commands).commands@.len() == old(commands).commands@.len() + 1,
            final(commands).commands@.take(old(commands).commands@.len() as int) == old(commands).commands@,
            final(commands).commands@.last() is Spawn,
            is_template_bundle(*template, *pt, final(commands).commands@.last()->Spawn_0),
    {
        let mut c = Components::empty();
        c.name = Some(template.name.clone());
        c.render = Some(Render { color: ColorPair::new(Color::White, Color::Black), glyph: to_cp437(template.glyph) });
        c.position = Some(*pt);
        match template.entity_type {
            EntityType::Item => {
                c.item = true;
            },
            EntityType::Enemy => {
                c.enemy = true;
                c.health = Some(Health { current: template.hp.unwrap(), max: template.hp.unwrap() });
                c.chasing_player = true;
                c.field_of_view = Some(FieldOfView::new(6));
                c.damage = Some(template.base_damage.unwrap());
            },
        }
        if let Some(effects) = &template.provides {
            let mut i: usize = 0;
            while i < effects.len()
                invariant
                    i <= effects@.len(),
                    template.provides == Some(*effects),
                    c.provides_healing == healing_effect(effects@, i as int),
                    c.reveals_map == magic_map_effect(effects@, i as int),
                    c.name matches Some(n) && n@ == template.name@,
                    c.render == Some(Render { color: white_on_black(), glyph: cp437(template.glyph) }),
                    c.position == Some(*pt),
                    match template.entity_type {
                        EntityType::Item => {
                            &&& c.item && !c.enemy && !c.chasing_player
                            &&& c.health is None && c.field_of_view is None && c.damage is None
                        },
                        EntityType::Enemy => {
                            &&& c.enemy && !c.item && c.chasing_player
                            &&& c.health == Some(Health { current: template.hp->0, max: template.hp->0 })
                            &&& is_fresh_view(c.field_of_view, 6)
                            &&& c.damage == template.base_damage
                        },
                    },
                    c.player is None && !c.amulet_of_yala && !c.moving_randomly && !c.weapon,
                    c.carried is None,
                    c.wants_to_move is None && c.wants_to_attack is None && c.activate_item is None,
                decreases effects@.len() - i,
            {
                let (name, value) = &effects[i];
                proof {
                    reveal_strlit("Healing");
                    reveal_strlit("MagicMap");
                    assert("Healing"@[0] != "MagicMap"@[0]);
                    assert(*name == effects@[i as int].0);
                }
                if same_text(name, "Healing") {
                    c.provides_healing = Some(ProvidesHealing { amount: *value });
                } else if same_text(name, "MagicMap") {
                    c.reveals_map = true;
                }
                i += 1;
            }
        }
        let ghost before = commands.commands@;
        commands.push(c);
        proof {
            assert(commands.commands@.take(before.len() as int) =~= before);
        }
    }
}

/// Every index in the available list is the index of a template.
proof fn lemma_available_indices(ts: Seq<Template>, level: usize, n: int)
    requires
        n <= ts.len(),
    ensures
        forall|k: int| 0 <= k < available_from(ts, level, n).len() ==> #[trigger] available_from(ts, level, n)[k] < ts.len(),
    decreases n,
{
    if n > 0 {
        lemma_available_indices(ts, level, n - 1);
        let rest = available_from(ts, level, n - 1);
        let t = ts[n - 1];
        if t.levels@.contains(level) && t.frequency > 0 {
            let extra = Seq::new(t.frequency as nat, |k: int| (n - 1) as usize);
            assert forall|k: int| 0 <= k < available_from(ts, level, n).len() implies #[trigger] available_from(ts, level, n)[k] < ts.len() by {
                if k < rest.len() {
                    assert(available_from(ts, level, n)[k] == rest[k]);
                } else {
                    assert(available_from(ts, level, n)[k] == extra[k - rest.len()]);
                }
            }
        }
    }
}

} // verus!
