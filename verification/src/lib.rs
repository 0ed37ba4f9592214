//! Simulation engine of a turn-based, single-player dungeon crawler: the
//! dungeon grid, the entity roster, visibility and exploration, movement,
//! combat, pickups, monster turns, floor transitions, scoring and a bounded
//! message log, with contracts stated over a mathematical model of the state.

pub mod arena;
pub mod entity;
pub mod fov;
pub mod game;
pub mod laws;
pub mod mapgen;
mod rng;
pub mod text;
pub mod turn;

pub use entity::{Entity, EntityType, TileType};
pub use game::Game;
