use rusty_crawler::components::{FieldOfView, Player};
use rusty_crawler::geometry::Point;
use rusty_crawler::world::{Command, CommandBuffer, Component, ComponentKind, Components, Query, World};

fn at(p: Point) -> Components {
    let mut c = Components::empty();
    c.position = Some(p);
    c
}

#[test]
fn pushing_hands_out_fresh_identifiers() {
    let mut w = World::new();
    assert!(w.records.is_empty());
    assert_eq!(w.push(Components::empty()), 0);
    assert_eq!(w.push(Components::empty()), 1);
    assert_eq!(w.next_entity, 2);
    assert_eq!(w.find(1), Some(1));
    assert_eq!(w.find(7), None);
}

#[test]
fn queries_find_the_first_match() {
    let mut w = World::new();
    w.push(at(Point::new(1, 1)));
    let mut p = at(Point::new(2, 2));
    p.player = Some(Player { map_level: 0 });
    w.push(p);
    let mut q = Components::empty();
    q.player = Some(Player { map_level: 1 });
    q.field_of_view = Some(FieldOfView::new(3));
    w.push(q);
    assert_eq!(w.first(Query::PlayerAt), Some(1));
    assert_eq!(w.first(Query::Player), Some(1));
    assert_eq!(w.first(Query::PlayerWithView), Some(2));
    assert_eq!(w.first(Query::PlayerHealth), None);
    assert_eq!(w.first(Query::AmuletAt), None);
}

#[test]
fn flushing_applies_commands_in_order() {
    let mut w = World::new();
    w.push(at(Point::new(0, 0)));
    w.push(at(Point::new(1, 1)));
    let mut cb = CommandBuffer::new();
    cb.push(at(Point::new(5, 5)));
    cb.add_component(0, Component::Position(Point::new(9, 9)));
    cb.remove_component(1, ComponentKind::Position);
    cb.add_component(1, Component::Carried(0));
    cb.remove(0);
    cb.remove(42);
    cb.flush(&mut w);
    assert!(cb.commands.is_empty());
    assert_eq!(w.next_entity, 3);
    assert_eq!(w.records.len(), 2);
    assert_eq!(w.records[0].entity, 1);
    assert_eq!(w.records[0].components.position, None);
    assert_eq!(w.records[0].components.carried, Some(0));
    assert_eq!(w.records[1].entity, 2);
    assert_eq!(w.records[1].components.position, Some(Point::new(5, 5)));
}

#[test]
fn commands_on_missing_entities_do_nothing() {
    let mut w = World::new();
    w.push(at(Point::new(0, 0)));
    w.add_component(5, Component::Position(Point::new(3, 3)));
    w.remove_component(5, ComponentKind::Position);
    assert_eq!(w.records.len(), 1);
    assert_eq!(w.records[0].components.position, Some(Point::new(0, 0)));
}

#[test]
fn removing_a_just_spawned_entity_restores_the_world() {
    let mut w = World::new();
    w.push(at(Point::new(0, 0)));
    let next = w.next_entity;
    let mut cb = CommandBuffer::new();
    cb.push(at(Point::new(4, 4)));
    cb.remove(next);
    cb.flush(&mut w);
    assert_eq!(w.records.len(), 1);
    assert_eq!(w.records[0].entity, 0);
    assert_eq!(w.next_entity, next + 1);
}

#[test]
fn buffers_queue_what_they_are_given() {
    let mut cb = CommandBuffer::new();
    cb.remove(3);
    cb.push(Components::move_message(1, Point::new(2, 3)));
    assert_eq!(cb.commands.len(), 2);
    assert!(matches!(cb.commands[0], Command::Remove(3)));
    match &cb.commands[1] {
        Command::Spawn(c) => {
            let m = c.wants_to_move.unwrap();
            assert_eq!((m.entity, m.destination), (1, Point::new(2, 3)));
        }
        _ => panic!("expected a spawn"),
    }
}
