//! Constants shared by the whole simulation.

use vstd::prelude::*;

verus! {

/// Index of the player in the entity store, for the lifetime of a run.
pub const PLAYER: usize = 0;

/// Experience needed to leave level zero.
pub const LEVEL_UP_BASE: i32 = 200;

/// Additional experience needed per level already reached.
pub const LEVEL_UP_FACTOR: i32 = 150;

/// Number of items the player can carry.
pub const INVENTORY_SIZE: usize = 26;

/// Width of a generated dungeon level, in tiles.
pub const MAP_WIDTH: i32 = 80;

/// Height of a generated dungeon level, in tiles.
pub const MAP_HEIGHT: i32 = 43;

/// Radius of the player's field of view.
pub const TORCH_RADIUS: i32 = 10;

/// Whether walls at the edge of the field of view are lit.
pub const FOV_LIGHT_WALLS: bool = true;

} // verus!
