//! A dungeon crawler's game logic: map generation, spawning, and the turn-by-turn systems.
pub mod geometry;
pub mod map;
pub mod rng;
pub mod map_builder;
pub mod components;
pub mod world;
pub mod spawner;
pub mod turn_state;
pub mod systems;
pub mod inventory;
