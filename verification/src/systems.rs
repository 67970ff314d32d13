//! The systems that run each turn: input, movement, combat, items, monsters, and the end of
//! the turn.
pub mod end_turn;
pub mod movement;
pub mod use_items;
pub mod combat;
pub mod random_move;
pub mod chasing;
pub mod player_input;
pub mod map_render;
pub mod entity_render;
pub mod hud;
pub mod tooltips;
