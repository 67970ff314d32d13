//! The entities of the game and their components, and the buffer of deferred changes that
//! the systems fill and that is applied between them.
use vstd::prelude::*;
use crate::components::{
    ActivateItem, Entity, FieldOfView, Health, Player, ProvidesHealing, Render, WantsToAttack,
    WantsToMove,
};
use crate::geometry::Point;

verus! {

/// The components of an entity; an absent component is `None` or `false`.
pub struct Components {
    pub player: Option<Player>,
    pub enemy: bool,
    pub item: bool,
    pub amulet_of_yala: bool,
    pub chasing_player: bool,
    pub moving_randomly: bool,
    pub reveals_map: bool,
    pub weapon: bool,
    pub position: Option<Point>,
    pub render: Option<Render>,
    pub name: Option<String>,
    pub health: Option<Health>,
    pub field_of_view: Option<FieldOfView>,
    pub provides_healing: Option<ProvidesHealing>,
    pub carried: Option<Entity>,
    pub damage: Option<i32>,
    pub wants_to_move: Option<WantsToMove>,
    pub wants_to_attack: Option<WantsToAttack>,
    pub activate_item: Option<ActivateItem>,
}

/// An entity with no component.
pub open spec fn spec_no_components() -> Components {
    Components {
        player: None,
        enemy: false,
        item: false,
        amulet_of_yala: false,
        chasing_player: false,
        moving_randomly: false,
        reveals_map: false,
        weapon: false,
        position: None,
        render: None,
        name: None,
        health: None,
        field_of_view: None,
        provides_healing: None,
        carried: None,
        damage: None,
        wants_to_move: None,
        wants_to_attack: None,
        activate_item: None,
    }
}

/// A message entity asking that `entity` step to `destination`.
pub open spec fn move_message(entity: Entity, destination: Point) -> Components {
    Components {
        wants_to_move: Some(WantsToMove { entity, destination }),
        ..spec_no_components()
    }
}

/// A message entity announcing that `attacker` attacks `victim`.
pub open spec fn attack_message(attacker: Entity, victim: Entity) -> Components {
    Components {
        wants_to_attack: Some(WantsToAttack { attacker, victim }),
        ..spec_no_components()
    }
}

/// A message entity announcing that `applied_by` uses `item`.
pub open spec fn activate_message(item: Entity, applied_by: Entity) -> Components {
    Components {
        activate_item: Some(ActivateItem { item, applied_by }),
        ..spec_no_components()
    }
}

impl Components {
    /// No component at all.
    pub fn empty() -> (c: Components)
        ensures
            c == spec_no_components(),
    {
        Components {
            player: None,
            enemy: false,
            item: false,
            amulet_of_yala: false,
            chasing_player: false,
            moving_randomly: false,
            reveals_map: false,
            weapon: false,
            position: None,
            render: None,
            name: None,
            health: None,
            field_of_view: None,
            provides_healing: None,
            carried: None,
            damage: None,
            wants_to_move: None,
            wants_to_attack: None,
            activate_item: None,
        }
    }

    pub fn move_message(entity: Entity, destination: Point) -> (c: Components)
        ensures
            c == move_message(entity, destination),
    {
        let mut c = Components::empty();
        c.wants_to_move = Some(WantsToMove { entity, destination });
        c
    }

    pub fn attack_message(attacker: Entity, victim: Entity) -> (c: Components)
        ensures
            c == attack_message(attacker, victim),
    {
        let mut c = Components::empty();
        c.wants_to_attack = Some(WantsToAttack { attacker, victim });
        c
    }

    pub fn activate_message(item: Entity, applied_by: Entity) -> (c: Components)
        ensures
            c == activate_message(item, applied_by),
    {
        let mut c = Components::empty();
        c.activate_item = Some(ActivateItem { item, applied_by });
        c
    }
}

/// The entities that a system looks up, by the components they have.
#[derive(Clone, Copy, Debug, PartialEq, Eq, Structural)]
pub enum Query {
    /// The player, with its position.
    PlayerAt,
    /// The player, with its health and position.
    PlayerWithHealth,
    /// The player, with its view.
    PlayerWithView,
    /// The player, with its health.
    PlayerHealth,
    /// The player.
    Player,
    /// The Amulet of Yala, with its position.
    AmuletAt,
}

/// Whether an entity with components `c` answers query `q`.
pub open spec fn answers(c: Components, q: Query) -> bool {
    match q {
        Query::PlayerAt => c.player is Some && c.position is Some,
        Query::PlayerWithHealth => c.player is Some && c.health is Some && c.position is Some,
        Query::PlayerWithView => c.player is Some && c.field_of_view is Some,
        Query::PlayerHealth => c.player is Some && c.health is Some,
        Query::Player => c.player is Some,
        Query::AmuletAt => c.amulet_of_yala && c.position is Some,
    }
}

/// The index of the first record at or after `i` that answers `q`, or -1.
pub open spec fn first_from(recs: Seq<EntityRecord>, q: Query, i: int) -> int
    decreases recs.len() - i,
{
    if i < 0 || i >= recs.len() {
        -1
    } else if answers(recs[i].components, q) {
        i
    } else {
        first_from(recs, q, i + 1)
    }
}

/// The index of the first record that answers `q`, or -1.
pub open spec fn first_answer(recs: Seq<EntityRecord>, q: Query) -> int {
    first_from(recs, q, 0)
}

proof fn lemma_first_from(recs: Seq<EntityRecord>, q: Query, i: int)
    requires
        0 <= i,
    ensures
        -1 <= first_from(recs, q, i) < recs.len(),
        first_from(recs, q, i) >= 0 ==> i <= first_from(recs, q, i) && answers(recs[first_from(recs, q, i)].components, q),
        forall|j: int| i <= j < recs.len() && (first_from(recs, q, i) == -1 || j < first_from(recs, q, i)) ==> !answers(#[trigger] recs[j].components, q),
    decreases recs.len() - i,
{
    if i < recs.len() && !answers(recs[i].components, q) {
        lemma_first_from(recs, q, i + 1);
    }
}

/// What `first_answer` gives: the first record that answers, or -1 when none does.
pub proof fn lemma_first_answer(recs: Seq<EntityRecord>, q: Query)
    ensures
        -1 <= first_answer(recs, q) < recs.len(),
        first_answer(recs, q) >= 0 ==> answers(recs[first_answer(recs, q)].components, q),
        forall|j: int| 0 <= j < recs.len() && (first_answer(recs, q) == -1 || j < first_answer(recs, q)) ==> !answers(#[trigger] recs[j].components, q),
{
    lemma_first_from(recs, q, 0);
}

/// An entity and its components.
pub struct EntityRecord {
    pub entity: Entity,
    pub components: Components,
}

/// The index of the first record of `e` at or after `i`, or -1.
pub open spec fn find_from(recs: Seq<EntityRecord>, e: Entity, i: int) -> int
    decreases recs.len() - i,
{
    if i < 0 || i >= recs.len() {
        -1
    } else if recs[i].entity == e {
        i
    } else {
        find_from(recs, e, i + 1)
    }
}

/// The index of the record of `e`, or -1 when there is none.
pub open spec fn find_entity(recs: Seq<EntityRecord>, e: Entity) -> int {
    find_from(recs, e, 0)
}

/// What `find_entity` gives: the first record of `e`, or -1 when none is of `e`.
pub proof fn lemma_find_entity(recs: Seq<EntityRecord>, e: Entity)
    ensures
        -1 <= find_entity(recs, e) < recs.len(),
        find_entity(recs, e) >= 0 ==> recs[find_entity(recs, e)].entity == e,
        forall|j: int| 0 <= j < find_entity(recs, e) ==> #[trigger] recs[j].entity != e,
        find_entity(recs, e) == -1 ==> forall|j: int| 0 <= j < recs.len() ==> #[trigger] recs[j].entity != e,
{
    lemma_find_from(recs, e, 0);
}

proof fn lemma_find_from(recs: Seq<EntityRecord>, e: Entity, i: int)
    requires
        0 <= i,
    ensures
        -1 <= find_from(recs, e, i) < recs.len(),
        find_from(recs, e, i) >= 0 ==> i <= find_from(recs, e, i) && recs[find_from(recs, e, i)].entity == e,
        forall|j: int| i <= j < find_from(recs, e, i) ==> #[trigger] recs[j].entity != e,
        find_from(recs, e, i) == -1 ==> forall|j: int| i <= j < recs.len() ==> #[trigger] recs[j].entity != e,
    decreases recs.len() - i,
{
    if i < recs.len() && recs[i].entity != e {
        lemma_find_from(recs, e, i + 1);
    }
}

/// Whether `e` has a record.
pub open spec fn has_entity(recs: Seq<EntityRecord>, e: Entity) -> bool {
    find_entity(recs, e) >= 0
}

/// The components of `e`; meaningful when `e` has a record.
pub open spec fn components_of(recs: Seq<EntityRecord>, e: Entity) -> Components {
    recs[find_entity(recs, e)].components
}

/// All entities of the game, in the order in which queries visit them, and the identifier
/// that the next new entity gets.
pub struct World {
    pub records: Vec<EntityRecord>,
    pub next_entity: Entity,
}

/// No two records are of one entity, and every identifier is below `next`.
pub open spec fn records_wf(recs: Seq<EntityRecord>, next: int) -> bool {
    &&& forall|i: int| 0 <= i < recs.len() ==> #[trigger] recs[i].entity < next
    &&& forall|i: int, j: int|
        0 <= i < j < recs.len() ==> #[trigger] recs[i].entity != #[trigger] recs[j].entity
}

impl World {
    /// No two records are of one entity, and every identifier was handed out.
    pub open spec fn wf(&self) -> bool {
        records_wf(self.records@, self.next_entity as int)
    }

    /// A world with no entity.
    pub fn new() -> (w: World)
        ensures
            w.wf(),
            w.records@ == Seq::<EntityRecord>::empty(),
            w.next_entity == 0,
    {
        World { records: Vec::new(), next_entity: 0 }
    }

    /// The index of the record of `e`.
    pub fn find(&self, e: Entity) -> (r: Option<usize>)
        ensures
            r is None <==> find_entity(self.records@, e) < 0,
            r matches Some(i) ==> i == find_entity(self.records@, e) && i < self.records@.len()
                && self.records@[i as int].entity == e,
    {
        proof {
            lemma_find_entity(self.records@, e);
        }
        let mut i: usize = 0;
        while i < self.records.len()
            invariant
                i <= self.records@.len(),
                forall|j: int| 0 <= j < i ==> #[trigger] self.records@[j].entity != e,
                -1 <= find_entity(self.records@, e) < self.records@.len(),
                find_entity(self.records@, e) >= 0 ==> self.records@[find_entity(self.records@, e)].entity == e,
                forall|j: int| 0 <= j < find_entity(self.records@, e) ==> #[trigger] self.records@[j].entity != e,
                find_entity(self.records@, e) == -1 ==> forall|j: int| 0 <= j < self.records@.len() ==> #[trigger] self.records@[j].entity != e,
            decreases self.records@.len() - i,
        {
            if self.records[i].entity == e {
                return Some(i);
            }
            i += 1;
        }
        None
    }

    /// The index of the first record that answers `q`.
    pub fn first(&self, q: Query) -> (r: Option<usize>)
        ensures
            r is None <==> first_answer(self.records@, q) < 0,
            r matches Some(i) ==> i == first_answer(self.records@, q) && i < self.records@.len(),
    {
        proof {
            lemma_first_answer(self.records@, q);
        }
        let mut i: usize = 0;
        while i < self.records.len()
            invariant
                i <= self.records@.len(),
                forall|j: int| 0 <= j < i ==> !answers(#[trigger] self.records@[j].components, q),
                -1 <= first_answer(self.records@, q) < self.records@.len(),
                first_answer(self.records@, q) >= 0 ==> answers(self.records@[first_answer(self.records@, q)].components, q),
                forall|j: int| 0 <= j < self.records@.len() && (first_answer(self.records@, q) == -1 || j < first_answer(self.records@, q)) ==> !answers(#[trigger] self.records@[j].components, q),
            decreases self.records@.len() - i,
        {
            let c = &self.records[i].components;
            let hit = match q {
                Query::PlayerAt => c.player.is_some() && c.position.is_some(),
                Query::PlayerWithHealth => c.player.is_some() && c.health.is_some() && c.position.is_some(),
                Query::PlayerWithView => c.player.is_some() && c.field_of_view.is_some(),
                Query::PlayerHealth => c.player.is_some() && c.health.is_some(),
                Query::Player => c.player.is_some(),
                Query::AmuletAt => c.amulet_of_yala && c.position.is_some(),
            };
            if hit {
                return Some(i);
            }
            i += 1;
        }
        None
    }

    /// Adds a component to `e`, replacing one of its kind; nothing when `e` has no record.
    pub fn add_component(&mut self, e: Entity, comp: Component)
        ensures
            (final(self).records@, final(self).next_entity as int) == apply_command(
                old(self).records@,
                old(self).next_entity as int,
                Command::AddComponent(e, comp),
            ),
    {
        proof {
            lemma_find_entity(self.records@, e);
        }
        let ghost before = self.records@;
        if let Some(i) = self.find(e) {
            assert(before[i as int].entity == e);
            match comp {
                Component::Position(p) => {
                    self.records[i].components.position = Some(p);
                },
                Component::FieldOfView(f) => {
                    self.records[i].components.field_of_view = Some(f);
                },
                Component::Carried(c) => {
                    self.records[i].components.carried = Some(c);
                },
            }
            assert(self.records@ =~= before.update(
                i as int,
                EntityRecord { entity: e, components: with_component(before[i as int].components, comp) },
            ));
        }
    }

    /// Removes a component from `e`; nothing when `e` has no record.
    pub fn remove_component(&mut self, e: Entity, kind: ComponentKind)
        ensures
            (final(self).records@, final(self).next_entity as int) == apply_command(
                old(self).records@,
                old(self).next_entity as int,
                Command::RemoveComponent(e, kind),
            ),
    {
        proof {
            lemma_find_entity(self.records@, e);
        }
        let ghost before = self.records@;
        if let Some(i) = self.find(e) {
            match kind {
                ComponentKind::Position => {
                    self.records[i].components.position = None;
                },
            }
            assert(self.records@ =~= before.update(
                i as int,
                EntityRecord { entity: e, components: without_component(before[i as int].components, kind) },
            ));
        }
    }

    /// Adds an entity with the given components and returns it.
    pub fn push(&mut self, components: Components) -> (e: Entity)
        requires
            old(self).wf(),
            old(self).next_entity < u64::MAX,
        ensures
            final(self).wf(),
            e == old(self).next_entity,
            final(self).next_entity == old(self).next_entity + 1,
            final(self).records@ == old(self).records@.push(EntityRecord { entity: e, components }),
    {
        let e = self.next_entity;
        self.records.push(EntityRecord { entity: e, components });
        self.next_entity = e + 1;
        e
    }
}

/// A component that a command adds to an entity.
pub enum Component {
    Position(Point),
    FieldOfView(FieldOfView),
    Carried(Entity),
}

/// A kind of component that a command removes from an entity.
#[derive(Clone, Copy, Debug, PartialEq, Eq, Structural)]
pub enum ComponentKind {
    Position,
}

/// A change to the world, deferred until the buffer is flushed.
pub enum Command {
    /// Adds an entity with these components.
    Spawn(Components),
    /// Removes an entity.
    Remove(Entity),
    /// Adds a component to an entity, replacing one of its kind.
    AddComponent(Entity, Component),
    /// Removes a component from an entity.
    RemoveComponent(Entity, ComponentKind),
}

/// `c` with `comp` added.
pub open spec fn with_component(c: Components, comp: Component) -> Components {
    match comp {
        Component::Position(p) => Components { position: Some(p), ..c },
        Component::FieldOfView(f) => Components { field_of_view: Some(f), ..c },
        Component::Carried(e) => Components { carried: Some(e), ..c },
    }
}

/// `c` without a component of kind `kind`.
pub open spec fn without_component(c: Components, kind: ComponentKind) -> Components {
    match kind {
        ComponentKind::Position => Components { position: None, ..c },
    }
}

/// The records and the next identifier after one command; a command about an entity that has
/// no record does nothing.
pub open spec fn apply_command(recs: Seq<EntityRecord>, next: int, cmd: Command) -> (Seq<EntityRecord>, int) {
    match cmd {
        Command::Spawn(c) => (recs.push(EntityRecord { entity: next as u64, components: c }), next + 1),
        Command::Remove(e) => {
            let i = find_entity(recs, e);
            if i >= 0 {
                (recs.remove(i), next)
            } else {
                (recs, next)
            }
        },
        Command::AddComponent(e, comp) => {
            let i = find_entity(recs, e);
            if i >= 0 {
                (recs.update(i, EntityRecord { entity: e, components: with_component(recs[i].components, comp) }), next)
            } else {
                (recs, next)
            }
        },
        Command::RemoveComponent(e, kind) => {
            let i = find_entity(recs, e);
            if i >= 0 {
                (recs.update(i, EntityRecord { entity: e, components: without_component(recs[i].components, kind) }), next)
            } else {
                (recs, next)
            }
        },
    }
}

/// The records and the next identifier after the commands, in order.
pub open spec fn apply_commands(recs: Seq<EntityRecord>, next: int, cmds: Seq<Command>) -> (Seq<EntityRecord>, int)
    decreases cmds.len(),
{
    if cmds.len() == 0 {
        (recs, next)
    } else {
        let r = apply_command(recs, next, cmds[0]);
        apply_commands(r.0, r.1, cmds.drop_first())
    }
}

/// A command keeps the records well formed.
pub proof fn lemma_apply_command_wf(recs: Seq<EntityRecord>, next: int, cmd: Command)
    requires
        records_wf(recs, next),
        0 <= next <= u64::MAX,
    ensures
        records_wf(apply_command(recs, next, cmd).0, apply_command(recs, next, cmd).1),
        apply_command(recs, next, cmd).1 <= next + 1,
        next <= apply_command(recs, next, cmd).1,
{
    let r = apply_command(recs, next, cmd);
    match cmd {
        Command::Spawn(c) => {
            assert forall|i: int, j: int| 0 <= i < j < r.0.len() implies #[trigger] r.0[i].entity != #[trigger] r.0[j].entity by {
                if j == recs.len() {
                    assert(r.0[i] == recs[i]);
                    assert(recs[i].entity < next);
                } else {
                    assert(r.0[i] == recs[i] && r.0[j] == recs[j]);
                }
            }
        },
        Command::Remove(e) => {
            let k = find_entity(recs, e);
            if k >= 0 {
                lemma_find_entity(recs, e);
                assert forall|i: int, j: int| 0 <= i < j < r.0.len() implies #[trigger] r.0[i].entity != #[trigger] r.0[j].entity by {
                    let i2 = if i < k { i } else { i + 1 };
                    let j2 = if j < k { j } else { j + 1 };
                    assert(r.0[i] == recs[i2] && r.0[j] == recs[j2]);
                }
                assert forall|i: int| 0 <= i < r.0.len() implies #[trigger] r.0[i].entity < r.1 by {
                    let i2 = if i < k { i } else { i + 1 };
                    assert(r.0[i] == recs[i2]);
                }
            }
        },
        Command::AddComponent(e, comp) => {
            lemma_find_entity(recs, e);
        },
        Command::RemoveComponent(e, kind) => {
            lemma_find_entity(recs, e);
        },
    }
}

/// Flushing only spawns keeps every record and appends one record per spawn, in order,
/// numbered on from the next identifier.
pub proof fn lemma_apply_spawns(recs: Seq<EntityRecord>, next: int, cmds: Seq<Command>)
    requires
        forall|k: int| 0 <= k < cmds.len() ==> #[trigger] cmds[k] is Spawn,
    ensures
        apply_commands(recs, next, cmds).0.len() == recs.len() + cmds.len(),
        apply_commands(recs, next, cmds).1 == next + cmds.len(),
        apply_commands(recs, next, cmds).0.take(recs.len() as int) == recs,
        forall|k: int|
            0 <= k < cmds.len() ==> #[trigger] apply_commands(recs, next, cmds).0[recs.len() + k] == (EntityRecord {
                entity: (next + k) as u64,
                components: cmds[k]->Spawn_0,
            }),
    decreases cmds.len(),
{
    if cmds.len() > 0 {
        let r = recs.push(EntityRecord { entity: next as u64, components: cmds[0]->Spawn_0 });
        let rest = cmds.drop_first();
        assert forall|k: int| 0 <= k < rest.len() implies #[trigger] rest[k] is Spawn by {
            assert(rest[k] == cmds[k + 1]);
        }
        lemma_apply_spawns(r, next + 1, rest);
        let f = apply_commands(r, next + 1, rest).0;
        assert(f.take(r.len() as int) == r);
        assert(f.take(recs.len() as int) =~= recs) by {
            assert forall|i: int| 0 <= i < recs.len() implies f[i] == recs[i] by {
                assert(f.take(r.len() as int)[i] == r[i]);
            }
        }
        assert forall|k: int| 0 <= k < cmds.len() implies #[trigger] apply_commands(recs, next, cmds).0[recs.len() + k] == (EntityRecord {
            entity: (next + k) as u64,
            components: cmds[k]->Spawn_0,
        }) by {
            if k == 0 {
                assert(f.take(r.len() as int)[recs.len() as int] == r[recs.len() as int]);
            } else {
                assert(f[r.len() + (k - 1)] == (EntityRecord { entity: (next + 1 + (k - 1)) as u64, components: rest[k - 1]->Spawn_0 }));
                assert(rest[k - 1] == cmds[k]);
            }
        }
    }
}

/// Removing an entity leaves no record of it.
pub proof fn lemma_remove_forgets(recs: Seq<EntityRecord>, next: int, e: Entity)
    requires
        records_wf(recs, next),
    ensures
        !has_entity(apply_command(recs, next, Command::Remove(e)).0, e),
{
    lemma_find_entity(recs, e);
    let k = find_entity(recs, e);
    let r = apply_command(recs, next, Command::Remove(e)).0;
    lemma_find_entity(r, e);
    if k >= 0 {
        let j = find_entity(r, e);
        if j >= 0 {
            let j2 = if j < k { j } else { j + 1 };
            assert(r[j] == recs[j2]);
            if j2 < k {
                assert(recs[j2].entity != recs[k].entity);
            } else {
                assert(recs[k].entity != recs[j2].entity);
            }
        }
    }
}

/// Removing the entity that a spawn has just added gives back the records as they were; only
/// the identifier has moved on.
pub proof fn lemma_spawn_then_remove(recs: Seq<EntityRecord>, next: int, c: Components)
    requires
        records_wf(recs, next),
        0 <= next <= u64::MAX,
    ensures
        apply_commands(recs, next, seq![Command::Spawn(c), Command::Remove(next as u64)]) == (recs, next + 1),
{
    let cmds = seq![Command::Spawn(c), Command::Remove(next as u64)];
    let s = apply_command(recs, next, Command::Spawn(c));
    let pushed = recs.push(EntityRecord { entity: next as u64, components: c });
    assert(s == (pushed, next + 1));
    lemma_find_entity(pushed, next as u64);
    assert(pushed[recs.len() as int].entity == next as u64);
    if find_entity(pushed, next as u64) < recs.len() {
        assert(pushed[find_entity(pushed, next as u64)] == recs[find_entity(pushed, next as u64)]);
    }
    assert(find_entity(pushed, next as u64) == recs.len());
    assert(pushed.remove(recs.len() as int) =~= recs);
    let rest = cmds.drop_first();
    assert(rest =~= seq![Command::Remove(next as u64)]);
    assert(rest.drop_first() =~= Seq::<Command>::empty());
    assert(apply_commands(recs, next, cmds) == apply_commands(pushed, next + 1, rest));
    assert(apply_command(pushed, next + 1, Command::Remove(next as u64)) == (recs, next + 1));
    assert(apply_commands(pushed, next + 1, rest) == apply_commands(recs, next + 1, rest.drop_first()));
}

/// Commands that have not been applied yet.
pub struct CommandBuffer {
    pub commands: Vec<Command>,
}

impl CommandBuffer {
    pub fn new() -> (cb: CommandBuffer)
        ensures
            cb.commands@ == Seq::<Command>::empty(),
    {
        CommandBuffer { commands: Vec::new() }
    }

    /// Queues a new entity with the given components.
    pub fn push(&mut self, components: Components)
        ensures
            final(self).commands@ == old(self).commands@.push(Command::Spawn(components)),
    {
        self.commands.push(Command::Spawn(components));
    }

    /// Queues the removal of an entity.
    pub fn remove(&mut self, e: Entity)
        ensures
            final(self).commands@ == old(self).commands@.push(Command::Remove(e)),
    {
        self.commands.push(Command::Remove(e));
    }

    /// Queues adding a component to an entity.
    pub fn add_component(&mut self, e: Entity, component: Component)
        ensures
            final(self).commands@ == old(self).commands@.push(Command::AddComponent(e, component)),
    {
        self.commands.push(Command::AddComponent(e, component));
    }

    /// Queues removing a component from an entity.
    pub fn remove_component(&mut self, e: Entity, kind: ComponentKind)
        ensures
            final(self).commands@ == old(self).commands@.push(Command::RemoveComponent(e, kind)),
    {
        self.commands.push(Command::RemoveComponent(e, kind));
    }

    /// Applies the queued commands to the world, in order, and empties the buffer.
    pub fn flush(&mut self, world: &mut World)
        requires
            old(world).wf(),
            old(world).next_entity + old(self).commands@.len() <= u64::MAX,
        ensures
            final(world).wf(),
            (final(world).records@, final(world).next_entity as int) == apply_commands(
                old(world).records@,
                old(world).next_entity as int,
                old(self).commands@,
            ),
            final(self).commands@ == Seq::<Command>::empty(),
    {
        let ghost target = apply_commands(old(world).records@, old(world).next_entity as int, old(self).commands@);
        while self.commands.len() > 0
            invariant
                world.wf(),
                world.next_entity + self.commands@.len() <= u64::MAX,
                apply_commands(world.records@, world.next_entity as int, self.commands@) == target,
            decreases self.commands@.len(),
        {
            let ghost before = (world.records@, world.next_entity as int);
            let ghost rest = self.commands@;
            let cmd = self.commands.remove(0);
            proof {
                assert(rest.drop_first() == self.commands@);
                lemma_apply_command_wf(before.0, before.1, cmd);
            }
            match cmd {
                Command::Spawn(c) => {
                    world.push(c);
                },
                Command::Remove(e) => {
                    proof {
                        lemma_find_entity(world.records@, e);
                    }
                    if let Some(i) = world.find(e) {
                        world.records.remove(i);
                        assert(world.records@ =~= before.0.remove(i as int));
                    }
                },
                Command::AddComponent(e, comp) => {
                    world.add_component(e, comp);
                },
                Command::RemoveComponent(e, kind) => {
                    world.remove_component(e, kind);
                },
            }
            proof {
                assert((world.records@, world.next_entity as int) == apply_command(before.0, before.1, cmd));
            }
        }
    }
}

} // verus!
