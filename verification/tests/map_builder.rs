use bracket_lib::prelude::RandomNumberGenerator;
use rusty_crawler::geometry::{map_idx, Point, NUM_TILES};
use rusty_crawler::map::{GameMap, TileType};
use rusty_crawler::map_builder::automata::{noise_tile, AutomataArchitect};
use rusty_crawler::map_builder::drunkards_walk::{step, DrunkardsWalkArchitect, MIN_TILES};
use rusty_crawler::map_builder::prefab::{
    apply_prefab, can_place, chess, choose_prefab, fortress, layout_cells, stamp_prefab,
    CHESS_LAYOUT, FORTRESS_LAYOUT,
};
use rusty_crawler::map_builder::MapBuilder;

fn wall_map() -> GameMap {
    let mut map = GameMap::new();
    map.fill(TileType::Wall);
    map
}

fn builder(map: GameMap) -> MapBuilder {
    MapBuilder {
        map,
        monster_spawns: Vec::new(),
        player_start: Point::new(40, 25),
        amulet_start: Point::new(-5, -5),
    }
}

#[test]
fn noise_above_55_is_floor() {
    assert_eq!(noise_tile(0), TileType::Wall);
    assert_eq!(noise_tile(55), TileType::Wall);
    assert_eq!(noise_tile(56), TileType::Floor);
    assert_eq!(noise_tile(99), TileType::Floor);
}

#[test]
fn random_noise_map_mixes_walls_and_floor() {
    let mut arch = AutomataArchitect {};
    let mut rng = RandomNumberGenerator::seeded(7);
    let mut map = GameMap::new();
    arch.random_noise_map(&mut rng, &mut map);
    let floors = map.count_floor();
    assert!(floors > 0);
    assert!(floors < NUM_TILES);
    assert!(map.tiles.iter().all(|t| *t == TileType::Wall || *t == TileType::Floor));
}

#[test]
fn count_neighbours_counts_the_eight_around() {
    let arch = AutomataArchitect {};
    let walls = wall_map();
    assert_eq!(arch.count_neighbours(40, 25, &walls), 8);
    let floors = GameMap::new();
    assert_eq!(arch.count_neighbours(40, 25, &floors), 0);
    let mut some = GameMap::new();
    some.tiles[map_idx(40, 25)] = TileType::Wall;
    some.tiles[map_idx(39, 24)] = TileType::Wall;
    some.tiles[map_idx(41, 26)] = TileType::Wall;
    assert_eq!(arch.count_neighbours(40, 25, &some), 2);
}

#[test]
fn iteration_walls_lonely_and_crowded_tiles_and_keeps_border() {
    let mut arch = AutomataArchitect {};
    let mut map = GameMap::new();
    map.tiles[map_idx(10, 10)] = TileType::Wall;
    map.tiles[map_idx(11, 10)] = TileType::Wall;
    arch.iteration(&mut map);
    assert_eq!(map.tiles[map_idx(10, 11)], TileType::Floor);
    assert_eq!(map.tiles[map_idx(10, 10)], TileType::Floor);
    assert_eq!(map.tiles[map_idx(20, 20)], TileType::Wall);
    assert_eq!(map.tiles[map_idx(0, 0)], TileType::Floor);
    assert_eq!(map.tiles[map_idx(79, 30)], TileType::Floor);
    assert_eq!(map.tiles[map_idx(30, 49)], TileType::Floor);
    let mut walls = wall_map();
    arch.iteration(&mut walls);
    assert_eq!(walls.count_floor(), 0);
}

#[test]
fn find_start_takes_the_closest_floor_first_in_map_order() {
    let arch = AutomataArchitect {};
    let mut map = wall_map();
    map.tiles[map_idx(5, 5)] = TileType::Floor;
    assert_eq!(arch.find_start(&map), Point::new(5, 5));
    map.tiles[map_idx(41, 25)] = TileType::Floor;
    map.tiles[map_idx(40, 24)] = TileType::Floor;
    assert_eq!(arch.find_start(&map), Point::new(40, 24));
    map.tiles[map_idx(40, 25)] = TileType::Floor;
    assert_eq!(arch.find_start(&map), Point::new(40, 25));
}

#[test]
fn automata_build_starts_on_floor() {
    let mut arch = AutomataArchitect {};
    let mut rng = RandomNumberGenerator::seeded(3);
    if let Some((map, start)) = arch.build(&mut rng) {
        assert_eq!(map.tiles[map_idx(start.x, start.y)], TileType::Floor);
    }
}

#[test]
fn steps_go_east_south_west_north() {
    assert_eq!(step(0), Point::new(1, 0));
    assert_eq!(step(1), Point::new(0, 1));
    assert_eq!(step(2), Point::new(-1, 0));
    assert_eq!(step(3), Point::new(0, -1));
}

#[test]
fn carve_region_digs_floor_from_the_start() {
    let mut arch = DrunkardsWalkArchitect {};
    let mut rng = RandomNumberGenerator::seeded(11);
    let mut map = wall_map();
    let centre = arch.centre();
    assert_eq!(centre, Point::new(40, 25));
    arch.carve_region(&centre, &mut rng, &mut map);
    assert_eq!(map.tiles[map_idx(40, 25)], TileType::Floor);
    let floors = map.count_floor();
    assert!(floors >= 1);
    assert!(floors <= 200);
    assert!(map.tiles.iter().all(|t| *t == TileType::Wall || *t == TileType::Floor));
    let off_row = (0..NUM_TILES).any(|i| map.tiles[i] == TileType::Floor && map.index_to_point2d(i).y != 25);
    assert!(off_row);
}

#[test]
fn carving_never_loses_floor() {
    let mut arch = DrunkardsWalkArchitect {};
    let mut rng = RandomNumberGenerator::seeded(5);
    let mut map = wall_map();
    let centre = arch.centre();
    arch.carve_region(&centre, &mut rng, &mut map);
    let before = map.count_floor();
    let start = Point::new(10, 10);
    arch.carve_region(&start, &mut rng, &mut map);
    assert!(map.count_floor() >= before);
}

#[test]
fn unreachable_tiles_become_walls() {
    let mut arch = DrunkardsWalkArchitect {};
    let mut map = GameMap::new();
    let mut distances: Vec<Option<u32>> = vec![None; NUM_TILES];
    distances[0] = Some(0);
    distances[1] = Some(1);
    arch.wall_off_unreachable(&mut map, &distances);
    assert_eq!(map.count_floor(), 2);
    assert_eq!(map.tiles[0], TileType::Floor);
    assert_eq!(map.tiles[2], TileType::Wall);
}

#[test]
fn more_floor_is_needed_below_a_third_of_the_map() {
    let arch = DrunkardsWalkArchitect {};
    let mut map = wall_map();
    assert!(arch.needs_more_floor(&map));
    for i in 0..MIN_TILES - 1 {
        map.tiles[i] = TileType::Floor;
    }
    assert!(arch.needs_more_floor(&map));
    map.tiles[MIN_TILES - 1] = TileType::Floor;
    assert!(!arch.needs_more_floor(&map));
    assert!(!arch.needs_more_floor(&GameMap::new()));
}

#[test]
fn next_start_is_on_the_map() {
    let arch = DrunkardsWalkArchitect {};
    let mut rng = RandomNumberGenerator::seeded(2);
    let map = GameMap::new();
    let mut seen_other = false;
    for _ in 0..20 {
        let p = arch.next_start(&mut rng, &map);
        assert!(map.in_bounds(p));
        if p != Point::new(0, 0) {
            seen_other = true;
        }
    }
    assert!(seen_other);
}

#[test]
fn layouts_have_enough_cells() {
    let f = fortress();
    assert_eq!((f.width, f.height), (12, 16));
    let c = chess();
    assert_eq!((c.width, c.height), (11, 5));
    assert_eq!(layout_cells(FORTRESS_LAYOUT).len(), 204);
    assert_eq!(layout_cells(CHESS_LAYOUT).len(), 55);
    assert_eq!(layout_cells(" a\n b\r c ").iter().collect::<String>(), "abc");
}

#[test]
fn rolls_choose_chess_on_one() {
    assert_eq!(choose_prefab(1).width, 11);
    assert_eq!(choose_prefab(0).width, 12);
}

#[test]
fn stamping_chess_draws_a_chequer() {
    let mut mb = builder(GameMap::new());
    let cells = layout_cells(CHESS_LAYOUT);
    stamp_prefab(&mut mb, &cells, 0, 0, 11, 5);
    assert_eq!(mb.map.tiles[map_idx(0, 0)], TileType::Wall);
    assert_eq!(mb.map.tiles[map_idx(1, 0)], TileType::Floor);
    assert_eq!(mb.map.tiles[map_idx(1, 1)], TileType::Wall);
    assert_eq!(mb.map.tiles[map_idx(11, 0)], TileType::Floor);
    assert_eq!(mb.map.tiles[map_idx(0, 5)], TileType::Floor);
    assert!(mb.monster_spawns.is_empty());
    assert_eq!(mb.map.count_floor(), NUM_TILES - 28);
}

#[test]
fn stamping_the_fortress_spawns_its_two_monsters() {
    let mut mb = builder(wall_map());
    let cells = layout_cells(FORTRESS_LAYOUT);
    stamp_prefab(&mut mb, &cells, 10, 10, 12, 16);
    assert_eq!(mb.monster_spawns, vec![Point::new(11, 18), Point::new(20, 18)]);
    assert_eq!(mb.map.tiles[map_idx(11, 18)], TileType::Floor);
    assert_eq!(mb.map.tiles[map_idx(13, 11)], TileType::Wall);
    assert_eq!(mb.map.tiles[map_idx(10, 10)], TileType::Floor);
    assert_eq!(mb.map.tiles[map_idx(9, 10)], TileType::Wall);
    assert_eq!(mb.map.tiles[map_idx(22, 10)], TileType::Wall);
}

#[test]
fn placing_needs_a_far_reachable_tile() {
    let far: Vec<Option<u32>> = vec![Some(21); NUM_TILES];
    let near: Vec<Option<u32>> = vec![Some(20); NUM_TILES];
    let none: Vec<Option<u32>> = vec![None; NUM_TILES];
    let amulet = Point::new(-5, -5);
    assert!(can_place(&far, amulet, 0, 0, 2, 2));
    assert!(!can_place(&near, amulet, 0, 0, 2, 2));
    assert!(!can_place(&none, amulet, 0, 0, 2, 2));
    let mut one: Vec<Option<u32>> = vec![None; NUM_TILES];
    one[map_idx(1, 1)] = Some(30);
    assert!(can_place(&one, amulet, 0, 0, 2, 2));
    assert!(!can_place(&one, Point::new(1, 1), 0, 0, 2, 2));
}

#[test]
fn apply_prefab_stamps_a_vault_where_it_can_go() {
    let mut mb = builder(GameMap::new());
    let mut rng = RandomNumberGenerator::seeded(9);
    let far: Vec<Option<u32>> = vec![Some(30); NUM_TILES];
    apply_prefab(&mut mb, &mut rng, &far);
    assert!(mb.map.count_floor() < NUM_TILES);
    assert_eq!(mb.player_start, Point::new(40, 25));
}

#[test]
fn apply_prefab_leaves_the_map_when_nothing_is_far() {
    let mut mb = builder(GameMap::new());
    let mut rng = RandomNumberGenerator::seeded(9);
    let none: Vec<Option<u32>> = vec![None; NUM_TILES];
    apply_prefab(&mut mb, &mut rng, &none);
    assert_eq!(mb.map.count_floor(), NUM_TILES);
    assert!(mb.monster_spawns.is_empty());
}

#[test]
fn monsters_spawn_on_distinct_far_floor_tiles() {
    let mut map = wall_map();
    for x in 0..80 {
        map.tiles[map_idx(x, 25)] = TileType::Floor;
    }
    let mb = builder(map);
    let mut rng = RandomNumberGenerator::seeded(12);
    let spawns = mb.spawn_monsters(&Point::new(40, 25), &mut rng);
    assert_eq!(spawns.len(), 50);
    for (k, p) in spawns.iter().enumerate() {
        assert_eq!(p.y, 25);
        assert!((p.x - 40).abs() > 10);
        assert!(!spawns[..k].contains(p));
    }
}

#[test]
fn fewer_far_tiles_give_fewer_monsters() {
    let mut map = wall_map();
    map.tiles[map_idx(40, 25)] = TileType::Floor;
    map.tiles[map_idx(45, 25)] = TileType::Floor;
    map.tiles[map_idx(60, 25)] = TileType::Floor;
    map.tiles[map_idx(40, 40)] = TileType::Floor;
    let mb = builder(map);
    let mut rng = RandomNumberGenerator::seeded(12);
    let mut spawns = mb.spawn_monsters(&Point::new(40, 25), &mut rng);
    spawns.sort_by_key(|p| (p.y, p.x));
    assert_eq!(spawns, vec![Point::new(60, 25), Point::new(40, 40)]);
}

#[test]
fn the_amulet_goes_to_the_farthest_reachable_tile() {
    let mb = builder(GameMap::new());
    let mut distances: Vec<Option<u32>> = vec![None; NUM_TILES];
    assert_eq!(mb.find_most_distant(&distances), None);
    distances[map_idx(3, 3)] = Some(7);
    distances[map_idx(9, 9)] = Some(12);
    distances[map_idx(2, 2)] = Some(12);
    distances[map_idx(1, 1)] = Some(4);
    assert_eq!(mb.find_most_distant(&distances), Some(Point::new(9, 9)));
}

#[test]
fn builders_fill_their_map() {
    let mut mb = builder(GameMap::new());
    mb.fill(TileType::Wall);
    assert_eq!(mb.map.count_floor(), 0);
    assert_eq!(mb.player_start, Point::new(40, 25));
}
