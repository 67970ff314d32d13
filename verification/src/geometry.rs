//! Points on the map grid, the map's dimensions, and the camera that follows the player.
use vstd::prelude::*;

verus! {

/// Width of the map, in tiles.
pub const SCREEN_WIDTH: i32 = 80;

/// Height of the map, in tiles.
pub const SCREEN_HEIGHT: i32 = 50;

/// Width of the visible part of the map, in tiles: a third of the map's.
pub const DISPLAY_WIDTH: i32 = 26;

/// Height of the visible part of the map, in tiles: a third of the map's.
pub const DISPLAY_HEIGHT: i32 = 16;

/// Number of tiles of the map.
pub const NUM_TILES: usize = 4000;

/// A position on the grid.
#[derive(Clone, Copy, Debug, PartialEq, Eq, Structural)]
pub struct Point {
    pub x: i32,
    pub y: i32,
}

/// Whether a point lies on the map.
pub open spec fn spec_in_bounds(p: Point) -> bool {
    0 <= p.x < SCREEN_WIDTH && 0 <= p.y < SCREEN_HEIGHT
}

/// The index of a tile of the map, row by row.
pub open spec fn spec_idx(p: Point) -> int {
    p.y * SCREEN_WIDTH + p.x
}

/// The point of the map whose index is `idx`.
pub open spec fn spec_point_of(idx: int) -> Point {
    Point { x: (idx % SCREEN_WIDTH as int) as i32, y: (idx / SCREEN_WIDTH as int) as i32 }
}

/// The square of the Pythagorean distance between two points.
pub open spec fn spec_distance_sq(a: Point, b: Point) -> int {
    (a.x - b.x) * (a.x - b.x) + (a.y - b.y) * (a.y - b.y)
}

/// Whether `map_idx` takes `p` to an index of the map: a point on the map, or one whose
/// row-by-row arithmetic wraps onto it.
pub open spec fn indexable(p: Point) -> bool {
    &&& i32::MIN <= p.y * SCREEN_WIDTH <= i32::MAX
    &&& 0 <= p.y * SCREEN_WIDTH + p.x < NUM_TILES
}

/// Whether adding `d` to `p` stays within `i32`.
pub open spec fn can_offset(p: Point, d: Point) -> bool {
    i32::MIN <= p.x + d.x <= i32::MAX && i32::MIN <= p.y + d.y <= i32::MAX
}

impl Point {
    pub fn new(x: i32, y: i32) -> (r: Point)
        ensures
            r == (Point { x, y }),
    {
        Point { x, y }
    }

    pub fn zero() -> (r: Point)
        ensures
            r == (Point { x: 0, y: 0 }),
    {
        Point { x: 0, y: 0 }
    }

    /// The sum of two points, coordinate by coordinate.
    pub fn offset_by(self, d: Point) -> (r: Point)
        requires
            can_offset(self, d),
        ensures
            r == (Point { x: (self.x + d.x) as i32, y: (self.y + d.y) as i32 }),
    {
        Point { x: self.x + d.x, y: self.y + d.y }
    }
}

/// Index of the tile at `(x, y)` in a map stored row by row; a point off the map gives the
/// same arithmetic, cast to `usize`.
pub fn map_idx(x: i32, y: i32) -> (r: usize)
    requires
        i32::MIN <= y * SCREEN_WIDTH <= i32::MAX,
        i32::MIN <= y * SCREEN_WIDTH + x <= i32::MAX,
    ensures
        r == #[verifier::truncate] ((y * SCREEN_WIDTH + x) as usize),
        0 <= y * SCREEN_WIDTH + x ==> r as int == y * SCREEN_WIDTH + x,
{
    #[verifier::truncate]
    ((y * SCREEN_WIDTH + x) as usize)
}

/// Map indices and points on the map correspond one to one: the point of an index has that
/// index, and the index of a point on the map is an index of the map.
pub proof fn lemma_index_point_roundtrip(idx: int, p: Point)
    ensures
        0 <= idx < NUM_TILES ==> spec_in_bounds(spec_point_of(idx)) && spec_idx(spec_point_of(idx))
            == idx,
        spec_in_bounds(p) ==> 0 <= spec_idx(p) < NUM_TILES && spec_point_of(spec_idx(p)) == p,
{
    if 0 <= idx < NUM_TILES {
        assert(0 <= idx / 80 < 50) by (nonlinear_arith)
            requires
                0 <= idx < 4000,
        ;
        assert(idx == (idx / 80) * 80 + idx % 80) by (nonlinear_arith);
    }
    if spec_in_bounds(p) {
        let i = p.y * 80 + p.x;
        assert(0 <= i < 4000) by (nonlinear_arith)
            requires
                0 <= p.x < 80,
                0 <= p.y < 50,
                i == p.y * 80 + p.x,
        ;
        assert(i / 80 == p.y && i % 80 == p.x) by (nonlinear_arith)
            requires
                0 <= p.x < 80,
                0 <= p.y < 50,
                i == p.y * 80 + p.x,
        ;
    }
}

/// The part of the map shown on screen, centred on the player.
#[derive(Clone, Copy, Debug, PartialEq, Eq, Structural)]
pub struct Camera {
    pub left_x: i32,
    pub right_x: i32,
    pub top_y: i32,
    pub bottom_y: i32,
}

/// The camera centred on `p`.
pub open spec fn spec_camera_at(p: Point) -> Camera {
    Camera {
        left_x: (p.x - DISPLAY_WIDTH / 2) as i32,
        right_x: (p.x + DISPLAY_WIDTH / 2) as i32,
        top_y: (p.y - DISPLAY_HEIGHT / 2) as i32,
        bottom_y: (p.y + DISPLAY_HEIGHT / 2) as i32,
    }
}

/// Whether the camera can be centred on `p` without leaving `i32`.
pub open spec fn camera_fits(p: Point) -> bool {
    i32::MIN + DISPLAY_WIDTH / 2 <= p.x <= i32::MAX - DISPLAY_WIDTH / 2 && i32::MIN + DISPLAY_HEIGHT
        / 2 <= p.y <= i32::MAX - DISPLAY_HEIGHT / 2
}

/// The camera centred on a point shows a view as wide and as high as the display that holds
/// the point, and places the point at the middle of the screen.
pub proof fn lemma_camera_centres(p: Point)
    requires
        camera_fits(p),
    ensures
        spec_camera_at(p).right_x - spec_camera_at(p).left_x == DISPLAY_WIDTH,
        spec_camera_at(p).bottom_y - spec_camera_at(p).top_y == DISPLAY_HEIGHT,
        spec_camera_at(p).left_x <= p.x < spec_camera_at(p).right_x,
        spec_camera_at(p).top_y <= p.y < spec_camera_at(p).bottom_y,
        p.x - spec_camera_at(p).left_x == DISPLAY_WIDTH / 2,
        p.y - spec_camera_at(p).top_y == DISPLAY_HEIGHT / 2,
{
}

impl Camera {
    pub fn new(player_position: Point) -> (r: Camera)
        requires
            camera_fits(player_position),
        ensures
            r == spec_camera_at(player_position),
    {
        Camera {
            left_x: player_position.x - DISPLAY_WIDTH / 2,
            right_x: player_position.x + DISPLAY_WIDTH / 2,
            top_y: player_position.y - DISPLAY_HEIGHT / 2,
            bottom_y: player_position.y + DISPLAY_HEIGHT / 2,
        }
    }

    pub fn on_player_move(&mut self, player_position: Point)
        requires
            camera_fits(player_position),
        ensures
            *final(self) == spec_camera_at(player_position),
    {
        self.left_x = player_position.x - DISPLAY_WIDTH / 2;
        self.right_x = player_position.x + DISPLAY_WIDTH / 2;
        self.top_y = player_position.y - DISPLAY_HEIGHT / 2;
        self.bottom_y = player_position.y + DISPLAY_HEIGHT / 2;
    }

    /// The top-left corner of the view, subtracted from a map point to place it on screen.
    pub fn offset(&self) -> (r: Point)
        ensures
            r == (Point { x: self.left_x, y: self.top_y }),
    {
        Point { x: self.left_x, y: self.top_y }
    }
}

} // verus!
