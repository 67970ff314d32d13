//! The components that entities are made of, and how they are drawn.
use vstd::prelude::*;
use bracket_lib::prelude::to_cp437 as bracket_to_cp437;
use crate::geometry::Point;

verus! {

/// Identifies an entity of the world.
pub type Entity = u64;

/// The colours that the game draws with.
#[derive(Clone, Copy, Debug, PartialEq, Eq, Structural)]
pub enum Color {
    White,
    Black,
    Red,
    Yellow,
    DarkGray,
}

/// A foreground and a background colour.
#[derive(Clone, Copy, Debug, PartialEq, Eq, Structural)]
pub struct ColorPair {
    pub fg: Color,
    pub bg: Color,
}

impl ColorPair {
    pub fn new(fg: Color, bg: Color) -> (r: ColorPair)
        ensures
            r == (ColorPair { fg, bg }),
    {
        ColorPair { fg, bg }
    }
}

/// How an entity is drawn: a glyph of code page 437 in a colour pair.
#[derive(Clone, Copy, Debug, PartialEq, Eq, Structural)]
pub struct Render {
    pub color: ColorPair,
    pub glyph: u16,
}

/// Marks the player, with the dungeon level it is on.
#[derive(Clone, Copy, Debug, PartialEq, Eq, Structural)]
pub struct Player {
    pub map_level: u32,
}

#[derive(Clone, Copy, Debug, PartialEq, Eq, Structural)]
pub struct Health {
    pub current: i32,
    pub max: i32,
}

/// An item that restores this much health.
#[derive(Clone, Copy, Debug, PartialEq, Eq, Structural)]
pub struct ProvidesHealing {
    pub amount: i32,
}

/// A message: `entity` wants to step to `destination`.
#[derive(Clone, Copy, Debug, PartialEq, Eq, Structural)]
pub struct WantsToMove {
    pub entity: Entity,
    pub destination: Point,
}

/// A message: `attacker` attacks `victim`.
#[derive(Clone, Copy, Debug, PartialEq, Eq, Structural)]
pub struct WantsToAttack {
    pub attacker: Entity,
    pub victim: Entity,
}

/// A message: `applied_by` uses `item`.
#[derive(Clone, Copy, Debug, PartialEq, Eq, Structural)]
pub struct ActivateItem {
    pub item: Entity,
    pub applied_by: Entity,
}

/// What an entity sees: the tiles in view, how far it sees, and whether the view must be
/// computed again.
pub struct FieldOfView {
    pub visible_tiles: Vec<Point>,
    pub radius: i32,
    pub is_dirty: bool,
}

impl FieldOfView {
    /// An empty view of the given radius, due to be computed.
    pub fn new(radius: i32) -> (r: FieldOfView)
        ensures
            r.visible_tiles@ == Seq::<Point>::empty(),
            r.radius == radius,
            r.is_dirty,
    {
        FieldOfView { visible_tiles: Vec::new(), radius, is_dirty: true }
    }

    /// An empty view of the same radius, due to be computed.
    pub fn clone_dirty(&self) -> (r: FieldOfView)
        ensures
            r.visible_tiles@ == Seq::<Point>::empty(),
            r.radius == self.radius,
            r.is_dirty,
    {
        FieldOfView::new(self.radius)
    }

    /// Whether `p` is in view.
    pub fn is_visible(&self, p: Point) -> (r: bool)
        ensures
            r == self.visible_tiles@.contains(p),
    {
        let mut i: usize = 0;
        while i < self.visible_tiles.len()
            invariant
                i <= self.visible_tiles@.len(),
                forall|j: int| 0 <= j < i ==> self.visible_tiles@[j] != p,
            decreases self.visible_tiles@.len() - i,
        {
            if self.visible_tiles[i] == p {
                return true;
            }
            i += 1;
        }
        false
    }
}

/// The code-page-437 glyph of a character, as `bracket-lib`'s table gives it.
pub uninterp spec fn cp437(c: char) -> u16;

/// Calls `bracket-lib`'s `to_cp437`, a fixed table from characters to code-page-437 glyphs
/// (0 for characters it lacks). Its source maps each character from space to `~` to its own
/// code; the rest of the table is only named here.
#[verifier::external_body]
pub(crate) fn to_cp437(c: char) -> (r: u16)
    ensures
        r == cp437(c),
        32 <= c as u32 <= 126 ==> r == c as u16,
{
    bracket_to_cp437(c)
}

} // verus!
