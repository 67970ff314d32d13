use bracket_lib::prelude::RandomNumberGenerator;
use std::collections::HashSet;
use rusty_crawler::components::{Color, ColorPair, ProvidesHealing, Render};
use rusty_crawler::geometry::Point;
use rusty_crawler::spawner::template::{EntityType, Template, Templates};
use rusty_crawler::spawner::{
    goblin, monster_for_roll, orc, spawn_for_roll, spawn_amulet_of_yala, spawn_entity, spawn_healing_potion, spawn_level, spawn_map,
    spawn_monster, spawn_player,
};
use rusty_crawler::world::{CommandBuffer, World};

fn white(glyph: u16) -> Option<Render> {
    Some(Render { color: ColorPair { fg: Color::White, bg: Color::Black }, glyph })
}

#[test]
fn the_player_is_an_at_sign_with_ten_health() {
    let mut w = World::new();
    spawn_player(&mut w, Point::new(3, 4));
    assert_eq!(w.records.len(), 1);
    assert_eq!(w.next_entity, 1);
    let c = &w.records[0].components;
    assert_eq!(w.records[0].entity, 0);
    assert_eq!(c.player.unwrap().map_level, 0);
    assert_eq!(c.position, Some(Point::new(3, 4)));
    assert_eq!(c.render, white(64));
    let h = c.health.unwrap();
    assert_eq!((h.current, h.max), (10, 10));
    let fov = c.field_of_view.as_ref().unwrap();
    assert_eq!(fov.radius, 8);
    assert!(fov.is_dirty);
    assert!(fov.visible_tiles.is_empty());
    assert!(!c.enemy && !c.item);
}

#[test]
fn goblins_and_orcs() {
    let g = goblin();
    assert_eq!((g.0, g.1.as_str(), g.2), (1, "Goblin", 103));
    let o = orc();
    assert_eq!((o.0, o.1.as_str(), o.2), (2, "Orc", 111));
}

#[test]
fn monsters_chase_and_see_six_tiles() {
    let mut w = World::new();
    let mut rng = RandomNumberGenerator::seeded(1);
    for i in 0..20 {
        spawn_monster(&mut w, &mut rng, Point::new(i, 0));
    }
    let mut goblins = 0;
    let mut orcs = 0;
    for r in &w.records {
        let c = &r.components;
        assert!(c.enemy && c.chasing_player);
        assert_eq!(c.field_of_view.as_ref().unwrap().radius, 6);
        match c.name.as_deref() {
            Some("Goblin") => {
                goblins += 1;
                assert_eq!(c.render, white(103));
                assert_eq!(c.health.unwrap().max, 1);
            }
            Some("Orc") => {
                orcs += 1;
                assert_eq!(c.render, white(111));
                assert_eq!(c.health.unwrap().current, 2);
            }
            _ => panic!("unexpected monster"),
        }
    }
    assert_eq!(goblins + orcs, 20);
    assert!(goblins > 0);
}

#[test]
fn the_amulet_is_a_bar() {
    let mut w = World::new();
    spawn_amulet_of_yala(&mut w, Point::new(7, 7));
    let c = &w.records[0].components;
    assert!(c.item && c.amulet_of_yala);
    assert_eq!(c.name.as_deref(), Some("Amulet of Yala"));
    assert_eq!(c.render, white(124));
    assert_eq!(c.position, Some(Point::new(7, 7)));
}

#[test]
fn potions_heal_two_and_maps_reveal() {
    let mut w = World::new();
    spawn_healing_potion(&mut w, Point::new(1, 1));
    spawn_map(&mut w, Point::new(2, 2));
    let p = &w.records[0].components;
    assert_eq!(p.provides_healing, Some(ProvidesHealing { amount: 2 }));
    assert_eq!(p.render, white(33));
    assert_eq!(p.name.as_deref(), Some("Healing Potion"));
    let m = &w.records[1].components;
    assert!(m.reveals_map && m.item);
    assert_eq!(m.render, white(123));
    assert_eq!(m.name.as_deref(), Some("Map"));
    assert_eq!(w.records[1].entity, 1);
}

#[test]
fn spawn_entity_adds_one_thing() {
    let mut w = World::new();
    let mut rng = RandomNumberGenerator::seeded(4);
    for i in 0..30 {
        spawn_entity(&mut w, &mut rng, Point::new(i, 1));
        assert_eq!(w.records.len(), (i + 1) as usize);
        let c = &w.records[i as usize].components;
        assert_eq!(c.position, Some(Point::new(i, 1)));
        assert!(c.item || c.enemy);
    }
    assert!(w.records.iter().any(|r| r.components.enemy));
    assert!(w.records.iter().any(|r| r.components.item));
}

#[test]
fn a_level_has_the_player_the_amulet_and_a_thing_per_spawn() {
    let mut w = World::new();
    let mut rng = RandomNumberGenerator::seeded(6);
    let spawns = vec![Point::new(1, 1), Point::new(2, 2), Point::new(3, 3)];
    spawn_level(&mut w, &mut rng, Point::new(40, 25), Point::new(70, 40), &spawns);
    assert_eq!(w.records.len(), 5);
    assert_eq!(w.next_entity, 5);
    assert!(w.records[0].components.player.is_some());
    assert!(w.records[1].components.amulet_of_yala);
    for k in 0..3 {
        assert_eq!(w.records[2 + k].components.position, Some(spawns[k]));
        assert_eq!(w.records[2 + k].entity, (2 + k) as u64);
    }
}

fn template(name: &str, entity_type: EntityType, levels: &[usize], frequency: i32, glyph: char) -> Template {
    Template {
        entity_type,
        levels: levels.iter().copied().collect::<HashSet<usize>>(),
        frequency,
        name: name.to_string(),
        glyph,
        provides: None,
        hp: Some(3),
        base_damage: Some(1),
    }
}

#[test]
fn templates_are_available_as_often_as_their_frequency() {
    let ts = Templates {
        entities: vec![
            template("Goblin", EntityType::Enemy, &[0, 1], 2, 'g'),
            template("Ogre", EntityType::Enemy, &[2], 5, 'O'),
            template("Potion", EntityType::Item, &[0], 3, '!'),
            template("Rare", EntityType::Item, &[0], 0, 'r'),
        ],
    };
    assert_eq!(ts.available_entities(0), vec![0, 0, 2, 2, 2]);
    assert_eq!(ts.available_entities(1), vec![0, 0]);
    assert_eq!(ts.available_entities(2), vec![1, 1, 1, 1, 1]);
    assert!(ts.available_entities(3).is_empty());
}

#[test]
fn template_enemies_get_health_damage_and_a_view() {
    let ts = Templates { entities: vec![] };
    let t = template("Ogre", EntityType::Enemy, &[0], 1, 'O');
    let mut cb = CommandBuffer::new();
    ts.spawn_entity(&Point::new(4, 5), &t, &mut cb);
    let mut w = World::new();
    cb.flush(&mut w);
    let c = &w.records[0].components;
    assert!(c.enemy && c.chasing_player && !c.item);
    assert_eq!(c.health.unwrap().current, 3);
    assert_eq!(c.damage, Some(1));
    assert_eq!(c.field_of_view.as_ref().unwrap().radius, 6);
    assert_eq!(c.render, white(79));
    assert_eq!(c.name.as_deref(), Some("Ogre"));
    assert_eq!(c.position, Some(Point::new(4, 5)));
}

#[test]
fn template_effects_heal_and_reveal() {
    let ts = Templates { entities: vec![] };
    let mut t = template("Elixir", EntityType::Item, &[0], 1, '!');
    t.provides = Some(vec![
        ("Healing".to_string(), 4),
        ("Unknown".to_string(), 9),
        ("MagicMap".to_string(), 0),
        ("Healing".to_string(), 6),
    ]);
    let mut cb = CommandBuffer::new();
    ts.spawn_entity(&Point::new(0, 0), &t, &mut cb);
    let mut w = World::new();
    cb.flush(&mut w);
    let c = &w.records[0].components;
    assert!(c.item && !c.enemy);
    assert!(c.health.is_none());
    assert_eq!(c.provides_healing, Some(ProvidesHealing { amount: 6 }));
    assert!(c.reveals_map);
}

#[test]
fn glyphs_come_from_code_page_437() {
    let ts = Templates { entities: vec![] };
    let t = template("Smiley", EntityType::Item, &[0], 1, '☺');
    let mut cb = CommandBuffer::new();
    ts.spawn_entity(&Point::new(0, 0), &t, &mut cb);
    let mut w = World::new();
    cb.flush(&mut w);
    assert_eq!(w.records[0].components.render, white(1));
}

#[test]
fn spawn_entities_fills_each_point_from_the_level() {
    let ts = Templates {
        entities: vec![
            template("Goblin", EntityType::Enemy, &[0], 2, 'g'),
            template("Potion", EntityType::Item, &[0], 1, '!'),
            template("Ogre", EntityType::Enemy, &[5], 1, 'O'),
        ],
    };
    let mut w = World::new();
    let mut rng = RandomNumberGenerator::seeded(8);
    let points = vec![Point::new(1, 1), Point::new(2, 2), Point::new(3, 3), Point::new(4, 4)];
    ts.spawn_entities(&mut w, &mut rng, 0, &points);
    assert_eq!(w.records.len(), 4);
    for (k, r) in w.records.iter().enumerate() {
        assert_eq!(r.entity, k as u64);
        assert_eq!(r.components.position, Some(points[k]));
        let name = r.components.name.as_deref().unwrap();
        assert!(name == "Goblin" || name == "Potion");
    }
    let more: Vec<Point> = (0..30).map(|i| Point::new(i, 7)).collect();
    ts.spawn_entities(&mut w, &mut rng, 0, &more);
    let names: Vec<&str> = w.records.iter().map(|r| r.components.name.as_deref().unwrap()).collect();
    assert!(names.contains(&"Goblin"));
    assert!(names.contains(&"Potion"));
}

#[test]
fn spawn_entities_on_an_empty_level_spawns_nothing() {
    let ts = Templates { entities: vec![template("Goblin", EntityType::Enemy, &[0], 2, 'g')] };
    let mut w = World::new();
    let mut rng = RandomNumberGenerator::seeded(8);
    ts.spawn_entities(&mut w, &mut rng, 3, &[Point::new(1, 1)]);
    assert!(w.records.is_empty());
    assert_eq!(w.next_entity, 0);
}

#[test]
fn rolls_one_to_seven_give_goblins() {
    for r in 1..=7 {
        let m = monster_for_roll(r);
        assert_eq!((m.0, m.1.as_str(), m.2), (1, "Goblin", 103));
    }
    for r in 8..=9 {
        let m = monster_for_roll(r);
        assert_eq!((m.0, m.1.as_str(), m.2), (2, "Orc", 111));
    }
}

#[test]
fn the_die_decides_what_spawns() {
    let mut w = World::new();
    let mut rng = RandomNumberGenerator::seeded(3);
    for roll in 1..=6 {
        spawn_for_roll(&mut w, &mut rng, Point::new(roll, 2), roll);
    }
    assert_eq!(w.records.len(), 6);
    assert_eq!(w.records[0].components.name.as_deref(), Some("Healing Potion"));
    assert_eq!(w.records[1].components.name.as_deref(), Some("Map"));
    for k in 2..6 {
        let c = &w.records[k].components;
        assert!(c.enemy);
        assert_eq!(c.position, Some(Point::new(k as i32 + 1, 2)));
    }
}
