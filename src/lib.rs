//! Simulation core of a two-dimensional arcade shooter: a player ship, drifting
//! rockets that take damage, projectiles of both sides, and the per-tick
//! movement, spawning and collision rules that tie them together.
//!
//! All geometry is integral: lengths are counted in half-pixels, so that every
//! speed of the game is a whole number of units per tick.

pub mod config;
pub mod geometry;
pub mod arena;
pub mod entity;
pub mod movement;
pub mod combat;
pub mod spawn;
pub mod world;
mod random;
