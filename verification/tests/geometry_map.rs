use rusty_crawler::geometry::{map_idx, Camera, Point, DISPLAY_HEIGHT, DISPLAY_WIDTH, NUM_TILES};
use rusty_crawler::map::{GameMap, TileType};

#[test]
fn map_idx_is_row_by_row() {
    assert_eq!(map_idx(0, 0), 0);
    assert_eq!(map_idx(3, 2), 163);
    assert_eq!(map_idx(79, 49), 3999);
}

#[test]
fn map_idx_wraps_off_map_points_onto_the_next_row() {
    assert_eq!(map_idx(-1, 1), 79);
    assert_eq!(map_idx(80, 0), 80);
}

#[test]
fn index_and_point_round_trip() {
    let map = GameMap::new();
    for idx in [0usize, 1, 79, 80, 163, 2000, 3999] {
        let p = map.index_to_point2d(idx);
        assert!(map.in_bounds(p));
        assert_eq!(map.point2d_to_index(p), idx);
    }
    assert_eq!(map.index_to_point2d(163), Point::new(3, 2));
    assert_eq!(map.point2d_to_index(Point::new(79, 49)), NUM_TILES - 1);
}

#[test]
fn in_bounds_edges() {
    let map = GameMap::new();
    assert!(map.in_bounds(Point::new(0, 0)));
    assert!(map.in_bounds(Point::new(79, 49)));
    assert!(!map.in_bounds(Point::new(80, 0)));
    assert!(!map.in_bounds(Point::new(0, 50)));
    assert!(!map.in_bounds(Point::new(-1, 3)));
    assert!(!map.in_bounds(Point::new(3, -1)));
}

#[test]
fn new_map_is_floor_and_unrevealed() {
    let map = GameMap::new();
    assert_eq!(map.tiles.len(), NUM_TILES);
    assert!(map.tiles.iter().all(|t| *t == TileType::Floor));
    assert!(map.revealed_tiles.iter().all(|r| !*r));
    assert_eq!(map.count_floor(), NUM_TILES);
}

#[test]
fn can_enter_floor_and_exit_only() {
    let mut map = GameMap::new();
    map.tiles[map_idx(5, 5)] = TileType::Wall;
    map.tiles[map_idx(6, 5)] = TileType::Exit;
    assert!(map.can_enter_tile(Point::new(4, 5)));
    assert!(!map.can_enter_tile(Point::new(5, 5)));
    assert!(map.can_enter_tile(Point::new(6, 5)));
    assert!(!map.can_enter_tile(Point::new(-1, 5)));
    assert!(!map.can_enter_tile(Point::new(80, 5)));
}

#[test]
fn fill_sets_every_tile_and_count_floor_counts() {
    let mut map = GameMap::new();
    map.fill(TileType::Wall);
    assert_eq!(map.count_floor(), 0);
    map.tiles[10] = TileType::Floor;
    map.tiles[20] = TileType::Exit;
    assert_eq!(map.count_floor(), 1);
}

#[test]
fn camera_centres_on_the_player() {
    let cam = Camera::new(Point::new(40, 25));
    assert_eq!(cam.left_x, 27);
    assert_eq!(cam.right_x, 53);
    assert_eq!(cam.top_y, 17);
    assert_eq!(cam.bottom_y, 33);
    assert_eq!(cam.right_x - cam.left_x, DISPLAY_WIDTH);
    assert_eq!(cam.bottom_y - cam.top_y, DISPLAY_HEIGHT);
    assert_eq!(cam.offset(), Point::new(27, 17));
    let on_screen = Point::new(40 - cam.offset().x, 25 - cam.offset().y);
    assert_eq!(on_screen, Point::new(DISPLAY_WIDTH / 2, DISPLAY_HEIGHT / 2));
}

#[test]
fn camera_follows_the_player() {
    let mut cam = Camera::new(Point::new(40, 25));
    cam.on_player_move(Point::new(0, 0));
    assert_eq!(cam, Camera { left_x: -13, right_x: 13, top_y: -8, bottom_y: 8 });
}

#[test]
fn point_offsets_add_coordinates() {
    assert_eq!(Point::new(3, 4).offset_by(Point::new(-1, 2)), Point::new(2, 6));
    assert_eq!(Point::zero(), Point::new(0, 0));
}
