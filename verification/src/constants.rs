//! The numbers that shape the game.

use vstd::prelude::*;

verus! {

/// Index of the player in the world's entity collection.
pub const PLAYER: usize = 0;

/// Width of the console, in cells.
pub const SCREEN_WIDTH: i32 = 80;

/// Height of the console, in cells.
pub const SCREEN_HEIGHT: i32 = 50;

/// Width of every dungeon level, in tiles.
pub const MAP_WIDTH: i32 = 80;

/// Height of every dungeon level, in tiles.
pub const MAP_HEIGHT: i32 = 43;

/// Largest side of a room.
pub const ROOM_MAX_SIZE: i32 = 10;

/// Smallest side of a room.
pub const ROOM_MIN_SIZE: i32 = 6;

/// Number of candidate rooms tried for one level.
pub const MAX_ROOMS: i32 = 30;

/// Radius of the player's field of view.
pub const TORCH_RADIUS: i32 = 10;

/// Whether walls at the edge of the field of view are lit.
pub const FOV_LIGHT_WALLS: bool = true;

/// Number of items the player can carry.
pub const INVENTORY_CAPACITY: usize = 26;

/// Hit points restored by a healing potion.
pub const HEAL_AMOUNT: i32 = 40;

/// Damage dealt by a lightning bolt.
pub const LIGHTNING_DAMAGE: i32 = 40;

/// Reach of a lightning bolt, in tiles.
pub const LIGHTNING_RANGE: i32 = 5;

/// Reach of a confusion scroll, in tiles.
pub const CONFUSE_RANGE: i32 = 8;

/// Number of turns a confused monster stumbles around.
pub const CONFUSE_NUM_TURNS: i32 = 10;

/// Radius of a fireball's blast, in tiles.
pub const FIREBALL_RADIUS: i32 = 3;

/// Damage dealt by a fireball.
pub const FIREBALL_DAMAGE: i32 = 25;

/// Experience needed for the first level-up, before the per-level increment.
pub const LEVEL_UP_BASE: i32 = 200;

/// Additional experience needed per level already reached.
pub const LEVEL_UP_FACTOR: i32 = 150;

/// Width of the level-up menu, in cells.
pub const LEVEL_SCREEN_WIDTH: i32 = 40;

/// Maximum hit points gained by the first level-up choice.
pub const LEVEL_UP_HP_GAIN: i32 = 20;

/// Width of the status bars, in cells.
pub const BAR_WIDTH: i32 = 20;

/// Height of the status panel, in cells.
pub const PANEL_HEIGHT: i32 = 7;

/// Row of the console at which the status panel starts.
pub const PANEL_Y: i32 = SCREEN_HEIGHT - PANEL_HEIGHT;

/// Column of the panel at which the message log starts.
pub const MSG_X: i32 = BAR_WIDTH + 2;

/// Width of the message log, in cells.
pub const MSG_WIDTH: i32 = SCREEN_WIDTH - BAR_WIDTH - 2;

/// Height of the message log, in rows.
pub const MSG_HEIGHT: usize = 6;

} // verus!
