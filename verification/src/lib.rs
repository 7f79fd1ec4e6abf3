//! Turn-based dungeon simulation: map generation, combat and status effects,
//! monster decisions and the player's turn, each with a verified contract.

pub mod settings;
pub mod help;
mod random;
pub mod dungeon;
pub mod map;
pub mod fov;
pub mod object;
pub mod ai;
pub mod game;
pub mod engine;
pub mod menu;
pub mod limits;
pub mod laws;
