use rusty_crawler::components::{ActivateItem, Color, ColorPair, FieldOfView, Health, Player, ProvidesHealing, Render, WantsToAttack, WantsToMove};
use rusty_crawler::geometry::{map_idx, Camera, Point, NUM_TILES};
use rusty_crawler::map::{GameMap, TileType};
use rusty_crawler::systems::chasing::chasing;
use rusty_crawler::systems::combat::combat;
use rusty_crawler::systems::end_turn::end_turn;
use rusty_crawler::systems::entity_render::entity_render;
use rusty_crawler::systems::hud::hud;
use rusty_crawler::systems::map_render::map_render;
use rusty_crawler::systems::movement::movement;
use rusty_crawler::systems::player_input::{player_input, Key};
use rusty_crawler::systems::random_move::random_move;
use rusty_crawler::systems::tooltips::{health_text, tooltips};
use rusty_crawler::systems::use_items::use_items;
use rusty_crawler::turn_state::TurnState;
use rusty_crawler::world::{Command, CommandBuffer, Component, ComponentKind, Components, EntityRecord, World};

fn world(cs: Vec<Components>) -> World {
    let mut w = World::new();
    for c in cs {
        w.push(c);
    }
    w
}

fn player_at(p: Point, current: i32) -> Components {
    let mut c = Components::empty();
    c.player = Some(Player { map_level: 0 });
    c.position = Some(p);
    c.health = Some(Health { current, max: 10 });
    c
}

fn view(tiles: &[Point], radius: i32) -> FieldOfView {
    let mut f = FieldOfView::new(radius);
    f.visible_tiles = tiles.to_vec();
    f.is_dirty = false;
    f
}

fn spawned(cmd: &Command) -> &Components {
    match cmd {
        Command::Spawn(c) => c,
        _ => panic!("expected a spawn"),
    }
}

fn moved(cmd: &Command) -> WantsToMove {
    spawned(cmd).wants_to_move.expect("expected a move")
}

fn attack(cmd: &Command) -> WantsToAttack {
    spawned(cmd).wants_to_attack.expect("expected an attack")
}

fn removed(cmd: &Command) -> u64 {
    match cmd {
        Command::Remove(e) => *e,
        _ => panic!("expected a removal"),
    }
}

fn after(w: &World, t: TurnState, map: &GameMap) -> TurnState {
    let mut s = t;
    end_turn(w, &mut s, map);
    s
}

#[test]
fn turns_move_on() {
    let mut amulet = Components::empty();
    amulet.amulet_of_yala = true;
    amulet.position = Some(Point::new(9, 9));
    let w = world(vec![player_at(Point::new(5, 5), 10), amulet]);
    let map = GameMap::new();
    assert_eq!(after(&w, TurnState::AwaitingInput, &map), TurnState::AwaitingInput);
    assert_eq!(after(&w, TurnState::PlayerTurn, &map), TurnState::EnemyTurn);
    assert_eq!(after(&w, TurnState::EnemyTurn, &map), TurnState::AwaitingInput);
    assert_eq!(after(&w, TurnState::NextLevel, &map), TurnState::AwaitingInput);
    assert_eq!(after(&w, TurnState::GameOver, &map), TurnState::GameOver);
}

#[test]
fn the_game_ends_on_death_victory_or_exit() {
    let map = GameMap::new();
    let dead = world(vec![player_at(Point::new(5, 5), 0)]);
    assert_eq!(after(&dead, TurnState::PlayerTurn, &map), TurnState::GameOver);
    let mut amulet = Components::empty();
    amulet.amulet_of_yala = true;
    amulet.position = Some(Point::new(5, 5));
    let won = world(vec![player_at(Point::new(5, 5), 0), amulet]);
    assert_eq!(after(&won, TurnState::EnemyTurn, &map), TurnState::Victory);
    let mut exit_map = GameMap::new();
    exit_map.tiles[map_idx(5, 5)] = TileType::Exit;
    assert_eq!(after(&won, TurnState::EnemyTurn, &exit_map), TurnState::NextLevel);
    let nobody = world(vec![]);
    assert_eq!(after(&nobody, TurnState::PlayerTurn, &map), TurnState::EnemyTurn);
}

#[test]
fn the_player_moves_reveals_and_the_camera_follows() {
    let mut p = player_at(Point::new(5, 5), 10);
    p.field_of_view = Some(view(&[Point::new(1, 1), Point::new(2, 2)], 8));
    let mut msg = Components::empty();
    msg.wants_to_move = Some(WantsToMove { entity: 0, destination: Point::new(5, 4) });
    let w = world(vec![p, msg]);
    let mut map = GameMap::new();
    let mut camera = Camera::new(Point::new(5, 5));
    let mut cb = CommandBuffer::new();
    let want = w.records[1].components.wants_to_move.unwrap();
    movement(&1, &want, &mut map, &mut camera, &w, &mut cb);
    assert_eq!(cb.commands.len(), 3);
    assert!(matches!(cb.commands[0], Command::AddComponent(0, Component::Position(pt)) if pt == Point::new(5, 4)));
    match &cb.commands[1] {
        Command::AddComponent(0, Component::FieldOfView(f)) => {
            assert_eq!(f.radius, 8);
            assert!(f.is_dirty && f.visible_tiles.is_empty());
        }
        _ => panic!("expected a fresh view"),
    }
    assert_eq!(removed(&cb.commands[2]), 1);
    assert!(map.revealed_tiles[map_idx(1, 1)]);
    assert!(map.revealed_tiles[map_idx(2, 2)]);
    assert_eq!(map.revealed_tiles.iter().filter(|r| **r).count(), 2);
    assert_eq!(camera, Camera::new(Point::new(5, 4)));
}

#[test]
fn blocked_moves_only_remove_the_message() {
    let mut monster = Components::empty();
    monster.enemy = true;
    monster.position = Some(Point::new(5, 5));
    let w = world(vec![monster]);
    let mut map = GameMap::new();
    map.tiles[map_idx(6, 5)] = TileType::Wall;
    let mut camera = Camera::new(Point::new(40, 25));
    let mut cb = CommandBuffer::new();
    let want = WantsToMove { entity: 0, destination: Point::new(6, 5) };
    movement(&7, &want, &mut map, &mut camera, &w, &mut cb);
    assert_eq!(cb.commands.len(), 1);
    assert_eq!(removed(&cb.commands[0]), 7);
    assert_eq!(camera, Camera::new(Point::new(40, 25)));
    let off = WantsToMove { entity: 0, destination: Point::new(-1, 5) };
    movement(&8, &off, &mut map, &mut camera, &w, &mut cb);
    assert_eq!(cb.commands.len(), 2);
}

fn activation(item: u64, by: u64) -> Components {
    let mut c = Components::empty();
    c.activate_item = Some(ActivateItem { item, applied_by: by });
    c
}

#[test]
fn potions_heal_and_maps_reveal_everything() {
    let mut potion = Components::empty();
    potion.item = true;
    potion.provides_healing = Some(ProvidesHealing { amount: 2 });
    let mut scroll = Components::empty();
    scroll.item = true;
    scroll.reveals_map = true;
    let mut w = world(vec![player_at(Point::new(1, 1), 5), potion, scroll, activation(1, 0), activation(2, 0)]);
    let mut map = GameMap::new();
    let mut cb = CommandBuffer::new();
    use_items(&mut map, &mut w, &mut cb);
    assert_eq!(w.records[0].components.health, Some(Health { current: 7, max: 10 }));
    assert!(map.revealed_tiles.iter().all(|r| *r));
    let gone: Vec<u64> = cb.commands.iter().map(removed).collect();
    assert_eq!(gone, vec![3, 1, 4, 2]);
}

#[test]
fn healing_stops_at_the_maximum() {
    let mut potion = Components::empty();
    potion.item = true;
    potion.provides_healing = Some(ProvidesHealing { amount: 2 });
    let mut w = world(vec![player_at(Point::new(1, 1), 9), potion, activation(1, 0)]);
    let mut map = GameMap::new();
    let mut cb = CommandBuffer::new();
    use_items(&mut map, &mut w, &mut cb);
    assert_eq!(w.records[0].components.health, Some(Health { current: 10, max: 10 }));
    assert!(map.revealed_tiles.iter().all(|r| !*r));
    assert_eq!(map.revealed_tiles.len(), NUM_TILES);
}

fn attack_message(attacker: u64, victim: u64) -> Components {
    let mut c = Components::empty();
    c.wants_to_attack = Some(WantsToAttack { attacker, victim });
    c
}

#[test]
fn attacks_deal_damage_and_kill_monsters() {
    let mut orc = Components::empty();
    orc.enemy = true;
    orc.damage = Some(2);
    let mut p = player_at(Point::new(1, 1), 10);
    p.damage = Some(1);
    let mut goblin = Components::empty();
    goblin.enemy = true;
    goblin.health = Some(Health { current: 1, max: 1 });
    let mut sword = Components::empty();
    sword.item = true;
    sword.weapon = true;
    sword.carried = Some(1);
    sword.damage = Some(3);
    let mut w = world(vec![orc, p, goblin, sword, attack_message(0, 1), attack_message(1, 2)]);
    let mut cb = CommandBuffer::new();
    combat(&mut w, &mut cb);
    assert_eq!(w.records[1].components.health, Some(Health { current: 8, max: 10 }));
    assert_eq!(w.records[2].components.health, Some(Health { current: -3, max: 1 }));
    let gone: Vec<u64> = cb.commands.iter().map(removed).collect();
    assert_eq!(gone, vec![4, 2, 5]);
}

#[test]
fn combat_never_removes_the_player() {
    let mut ogre = Components::empty();
    ogre.enemy = true;
    ogre.damage = Some(20);
    let mut w = world(vec![ogre, player_at(Point::new(1, 1), 10), attack_message(0, 1)]);
    let mut cb = CommandBuffer::new();
    combat(&mut w, &mut cb);
    assert_eq!(w.records[1].components.health.unwrap().current, -10);
    let gone: Vec<u64> = cb.commands.iter().map(removed).collect();
    assert_eq!(gone, vec![2]);
}

fn is_neighbour(a: Point, b: Point) -> bool {
    (a.x - b.x).abs() + (a.y - b.y).abs() == 1
}

#[test]
fn wanderers_step_to_a_neighbour() {
    let mut bat = Components::empty();
    bat.moving_randomly = true;
    bat.position = Some(Point::new(5, 5));
    let w = world(vec![bat]);
    let mut cb = CommandBuffer::new();
    random_move(&w, &mut cb);
    assert_eq!(cb.commands.len(), 1);
    let m = moved(&cb.commands[0]);
    assert_eq!(m.entity, 0);
    assert!(is_neighbour(m.destination, Point::new(5, 5)));
}

#[test]
fn wanderers_attack_players_they_bump_into() {
    let mut bat = Components::empty();
    bat.moving_randomly = true;
    bat.position = Some(Point::new(5, 5));
    let w = world(vec![
        bat,
        player_at(Point::new(6, 5), 10),
        player_at(Point::new(4, 5), 10),
        player_at(Point::new(5, 6), 10),
        player_at(Point::new(5, 4), 10),
    ]);
    let mut cb = CommandBuffer::new();
    random_move(&w, &mut cb);
    assert_eq!(cb.commands.len(), 1);
    let a = attack(&cb.commands[0]);
    assert_eq!(a.attacker, 0);
    assert!((1..=4).contains(&a.victim));
}

fn chaser(p: Point, sees: &[Point]) -> Components {
    let mut c = Components::empty();
    c.enemy = true;
    c.chasing_player = true;
    c.position = Some(p);
    c.field_of_view = Some(view(sees, 6));
    c
}

#[test]
fn chasers_follow_the_exit_or_attack_when_next_to_the_player() {
    let target = Point::new(10, 10);
    let w = world(vec![
        player_at(target, 10),
        chaser(Point::new(13, 10), &[target]),
        chaser(Point::new(11, 10), &[target]),
        chaser(Point::new(11, 11), &[target]),
    ]);
    let mut exits: Vec<Option<usize>> = vec![None; NUM_TILES];
    exits[map_idx(13, 10)] = Some(map_idx(12, 10));
    exits[map_idx(11, 10)] = Some(map_idx(10, 10));
    exits[map_idx(11, 11)] = Some(map_idx(11, 10));
    let map = GameMap::new();
    let mut cb = CommandBuffer::new();
    chasing(&w, &mut cb, &map, &exits);
    assert_eq!(cb.commands.len(), 3);
    let m = moved(&cb.commands[0]);
    assert_eq!((m.entity, m.destination), (1, Point::new(12, 10)));
    let a = attack(&cb.commands[1]);
    assert_eq!((a.attacker, a.victim), (2, 0));
    let d = moved(&cb.commands[2]);
    assert_eq!((d.entity, d.destination), (3, Point::new(11, 10)));
}

#[test]
fn chasers_that_do_not_see_wander_and_those_without_exit_wait() {
    let target = Point::new(10, 10);
    let w = world(vec![
        player_at(target, 10),
        chaser(Point::new(20, 20), &[]),
        chaser(Point::new(13, 10), &[target]),
    ]);
    let exits: Vec<Option<usize>> = vec![None; NUM_TILES];
    let map = GameMap::new();
    let mut cb = CommandBuffer::new();
    chasing(&w, &mut cb, &map, &exits);
    assert_eq!(cb.commands.len(), 1);
    let m = moved(&cb.commands[0]);
    assert_eq!(m.entity, 1);
    assert!(is_neighbour(m.destination, Point::new(20, 20)));
}

fn press(w: &World, key: Option<Key>, map: &GameMap) -> (TurnState, CommandBuffer) {
    let mut state = TurnState::AwaitingInput;
    let mut cb = CommandBuffer::new();
    player_input(w, &key, &mut state, map, &mut cb);
    (state, cb)
}

#[test]
fn direction_keys_move_the_player() {
    let w = world(vec![player_at(Point::new(5, 5), 10)]);
    let map = GameMap::new();
    for (key, dest) in [
        (Key::W, Point::new(5, 4)),
        (Key::A, Point::new(4, 5)),
        (Key::S, Point::new(5, 6)),
        (Key::D, Point::new(6, 5)),
        (Key::Other, Point::new(5, 5)),
    ] {
        let (state, cb) = press(&w, Some(key), &map);
        assert_eq!(state, TurnState::PlayerTurn);
        assert_eq!(cb.commands.len(), 1);
        let m = moved(&cb.commands[0]);
        assert_eq!((m.entity, m.destination), (0, dest));
    }
}

#[test]
fn no_key_does_nothing() {
    let w = world(vec![player_at(Point::new(5, 5), 10)]);
    let map = GameMap::new();
    let (state, cb) = press(&w, None, &map);
    assert_eq!(state, TurnState::AwaitingInput);
    assert!(cb.commands.is_empty());
}

#[test]
fn moving_into_an_enemy_attacks_it() {
    let mut orc = Components::empty();
    orc.enemy = true;
    orc.position = Some(Point::new(6, 5));
    let w = world(vec![player_at(Point::new(5, 5), 10), orc]);
    let map = GameMap::new();
    let (_, cb) = press(&w, Some(Key::D), &map);
    assert_eq!(cb.commands.len(), 1);
    let a = attack(&cb.commands[0]);
    assert_eq!((a.attacker, a.victim), (0, 1));
}

#[test]
fn g_picks_up_what_lies_under_the_player() {
    let mut potion = Components::empty();
    potion.item = true;
    potion.position = Some(Point::new(5, 5));
    let mut far = Components::empty();
    far.item = true;
    far.position = Some(Point::new(9, 9));
    let w = world(vec![player_at(Point::new(5, 5), 10), potion, far]);
    let map = GameMap::new();
    let (_, cb) = press(&w, Some(Key::G), &map);
    assert_eq!(cb.commands.len(), 3);
    assert!(matches!(cb.commands[0], Command::RemoveComponent(1, ComponentKind::Position)));
    assert!(matches!(cb.commands[1], Command::AddComponent(1, Component::Carried(0))));
    assert_eq!(moved(&cb.commands[2]).destination, Point::new(5, 5));
}

fn carried(name: &str, by: u64) -> Components {
    let mut c = Components::empty();
    c.item = true;
    c.name = Some(name.to_string());
    c.carried = Some(by);
    c
}

#[test]
fn number_keys_use_the_last_item_of_a_group() {
    let w = world(vec![
        player_at(Point::new(5, 5), 10),
        carried("Potion", 0),
        carried("Map", 0),
        carried("Potion", 0),
    ]);
    let map = GameMap::new();
    let (_, cb) = press(&w, Some(Key::Key2), &map);
    assert_eq!(cb.commands.len(), 2);
    let a = spawned(&cb.commands[0]).activate_item.unwrap();
    assert_eq!((a.item, a.applied_by), (3, 0));
    let (_, none) = press(&w, Some(Key::Key3), &map);
    assert_eq!(none.commands.len(), 1);
    assert!(spawned(&none.commands[0]).wants_to_move.is_some());
}

#[test]
fn the_exit_key_still_ends_as_the_players_turn() {
    let w = world(vec![player_at(Point::new(5, 5), 10)]);
    let mut map = GameMap::new();
    map.tiles[map_idx(5, 5)] = TileType::Exit;
    let (state, cb) = press(&w, Some(Key::Return), &map);
    assert_eq!(state, TurnState::PlayerTurn);
    assert_eq!(cb.commands.len(), 1);
}

fn seer(tiles: &[Point]) -> Components {
    let mut p = player_at(Point::new(0, 0), 10);
    p.field_of_view = Some(view(tiles, 8));
    p
}

#[test]
fn the_map_shows_what_is_seen_and_remembered() {
    let w = world(vec![seer(&[Point::new(0, 0), Point::new(1, 0), Point::new(2, 0)])]);
    let mut map = GameMap::new();
    map.tiles[map_idx(1, 0)] = TileType::Wall;
    map.tiles[map_idx(2, 0)] = TileType::Exit;
    map.revealed_tiles[map_idx(3, 0)] = true;
    let camera = Camera { left_x: -1, right_x: 5, top_y: -1, bottom_y: 1 };
    let cells = map_render(&map, &camera, &w);
    let white = ColorPair { fg: Color::White, bg: Color::Black };
    let grey = ColorPair { fg: Color::DarkGray, bg: Color::Black };
    let got: Vec<(Point, ColorPair, u16)> = cells.iter().map(|c| (c.pos, c.color, c.glyph)).collect();
    assert_eq!(
        got,
        vec![
            (Point::new(1, 1), white, 46),
            (Point::new(2, 1), white, 35),
            (Point::new(3, 1), white, 62),
            (Point::new(4, 1), grey, 46),
        ]
    );
}

#[test]
fn only_seen_entities_are_drawn() {
    let mut orc = Components::empty();
    orc.position = Some(Point::new(1, 1));
    orc.render = Some(Render { color: ColorPair { fg: Color::Red, bg: Color::Black }, glyph: 111 });
    let mut hidden = Components::empty();
    hidden.position = Some(Point::new(2, 2));
    hidden.render = Some(Render { color: ColorPair { fg: Color::Red, bg: Color::Black }, glyph: 103 });
    let w = world(vec![seer(&[Point::new(1, 1)]), orc, hidden]);
    let camera = Camera { left_x: -1, right_x: 10, top_y: -1, bottom_y: 10 };
    let cells = entity_render(&w, &camera);
    assert_eq!(cells.len(), 1);
    assert_eq!(cells[0].pos, Point::new(2, 2));
    assert_eq!(cells[0].glyph, 111);
}

#[test]
fn the_hud_groups_carried_items_by_name() {
    let mut p = player_at(Point::new(0, 0), 7);
    p.health = Some(Health { current: 7, max: 10 });
    let w = world(vec![p, carried("A", 0), carried("B", 0), carried("A", 0), carried("C", 9)]);
    let (health, items) = hud(&w);
    assert_eq!(health, Health { current: 7, max: 10 });
    let got: Vec<(&str, usize)> = items.iter().map(|(n, k)| (n.as_str(), *k)).collect();
    assert_eq!(got, vec![("B", 1), ("A", 2)]);
}

fn named(name: &str, p: Point, hp: Option<i32>) -> Components {
    let mut c = Components::empty();
    c.name = Some(name.to_string());
    c.position = Some(p);
    c.health = hp.map(|h| Health { current: h, max: 5 });
    c
}

#[test]
fn tooltips_name_what_the_mouse_points_at() {
    let w = world(vec![
        seer(&[Point::new(5, 5)]),
        named("Orc", Point::new(5, 5), Some(2)),
        named("Amulet", Point::new(5, 5), None),
        named("Ghost", Point::new(5, 5), Some(-1)),
        named("Elsewhere", Point::new(6, 6), Some(3)),
    ]);
    let camera = Camera { left_x: 0, right_x: 26, top_y: 0, bottom_y: 16 };
    let tips = tooltips(&w, &Point::new(5, 5), &camera);
    let got: Vec<(Point, &str)> = tips.iter().map(|t| (t.pos, t.text.as_str())).collect();
    assert_eq!(
        got,
        vec![
            (Point::new(10, 9), "Orc: 2hp"),
            (Point::new(10, 9), "Amulet"),
            (Point::new(10, 9), "Ghost: -1hp"),
        ]
    );
}

#[test]
fn tooltips_stay_on_the_display() {
    let w = world(vec![seer(&[Point::new(5, 5)]), named("Orc", Point::new(5, 5), Some(2))]);
    let camera = Camera { left_x: -20, right_x: 6, top_y: 0, bottom_y: 16 };
    let tips = tooltips(&w, &Point::new(25, 5), &camera);
    assert_eq!(tips.len(), 1);
    assert_eq!(tips[0].pos, Point::new(44, 9));
    let unseen = tooltips(&w, &Point::new(26, 5), &camera);
    assert!(unseen.is_empty());
}

#[test]
fn records_are_entities_with_components() {
    let r = EntityRecord { entity: 4, components: Components::empty() };
    assert_eq!(r.entity, 4);
    assert!(r.components.position.is_none());
}

#[test]
fn health_labels_write_the_health_in_decimal() {
    assert_eq!(health_text(&"Orc".to_string(), 2), "Orc: 2hp");
    assert_eq!(health_text(&"Bat".to_string(), -15), "Bat: -15hp");
    assert_eq!(health_text(&"".to_string(), 0), ": 0hp");
    assert_eq!(health_text(&"X".to_string(), i32::MIN), "X: -2147483648hp");
}

#[test]
fn awaiting_input_ignores_the_player() {
    let map = GameMap::new();
    let off = world(vec![player_at(Point::new(-5, -5), 0)]);
    assert_eq!(after(&off, TurnState::AwaitingInput, &map), TurnState::AwaitingInput);
}

