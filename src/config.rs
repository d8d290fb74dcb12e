//! The constants of the game.

use vstd::prelude::*;

verus! {

/// Length units per display pixel.
pub const UNITS_PER_PIXEL: i64 = 2;

/// Radius of the player ship.
pub const PLAYER_RADIUS: i64 = 70 * UNITS_PER_PIXEL;

/// Padding kept between the ship's hull and the arena edge.
pub const EDGE_PADDING: i64 = 10 * UNITS_PER_PIXEL;

/// Distance that the player's centre keeps from every arena edge.
pub const PLAYER_MARGIN: i64 = PLAYER_RADIUS + EDGE_PADDING;

/// Step of the player ship per tick and axis.
pub const PLAYER_SPEED: i64 = 10 * UNITS_PER_PIXEL;

/// Rightward step of a player projectile per tick.
pub const PLAYER_SHOT_SPEED: i64 = 10 * UNITS_PER_PIXEL;

/// Leftward step of a rocket projectile per tick.
pub const ROCKET_SHOT_SPEED: i64 = 5 * UNITS_PER_PIXEL;

/// Leftward step of a rocket per tick (three and a half pixels).
pub const ROCKET_SPEED: i64 = 7;

/// How far right of the arena's right edge a rocket appears.
pub const ROCKET_SPAWN_OFFSET: i64 = 100 * UNITS_PER_PIXEL;

/// A projectile hits a ship, or another projectile, closer than this.
pub const SHOT_HIT_RADIUS: i64 = 35 * UNITS_PER_PIXEL;

/// A rocket rams the player closer than this.
pub const CONTACT_RADIUS: i64 = 100 * UNITS_PER_PIXEL;

/// Hit points of the player ship.
pub const PLAYER_MAX_HP: u32 = 8;

/// Hit points of a rocket.
pub const ROCKET_MAX_HP: u32 = 3;

/// The health bar's full horizontal scale is `HP_BAR_SCALE_NUM / HP_BAR_SCALE_DEN`.
pub const HP_BAR_SCALE_NUM: u64 = 15;

/// See `HP_BAR_SCALE_NUM`.
pub const HP_BAR_SCALE_DEN: u64 = 100;

/// Milliseconds between two rocket spawns.
pub const ROCKET_SPAWN_MS: u64 = 2000;

/// Milliseconds between two chances for the player to fire.
pub const PLAYER_FIRE_MS: u64 = 350;

/// Milliseconds between two volleys of the armed rockets.
pub const ROCKET_FIRE_MS: u64 = 3500;

/// A new rocket is armed when a die with this many faces ...
pub const ARMED_DIE_FACES: i64 = 5;

/// ... shows this face.
pub const ARMED_DIE_FACE: i64 = 3;

/// Largest half-extent of the arena on either axis.
pub const MAX_HALF_EXTENT: i64 = 0x1000_0000;

/// Largest time step of one tick, in milliseconds.
pub const MAX_TICK_MS: u64 = 0x1_0000_0000;

} // verus!
