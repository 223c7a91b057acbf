//! Core of a small arcade shooter: bullets fired upward collide with ships
//! that enter from the screen edges; a destroyed ship makes its bullet burst
//! into a ring of child bullets, and the game ends once no ammunition and no
//! bullets remain.
//!
//! All geometry is fixed-point: positions are held in "milli-units"
//! (1000 per world unit) and velocities in milli-units per millisecond,
//! which equals world units per second. With these units a movement step is
//! exact integer arithmetic and the collision test compares squared
//! distances, so every rule of the game is stated and proved exactly.

use vstd::prelude::*;

pub mod vec2;
pub mod components;
pub mod world;
pub mod systems;
pub mod game;

verus! {

/// Largest coordinate magnitude (in milli-units) that survives a frame:
/// the viewport must lie within this box, and every entity is back inside
/// it once off-screen entities have been removed.
pub const POS_LIMIT: i64 = 0x4_0000_0000_0000;

/// Largest velocity magnitude, in milli-units per millisecond.
pub const VEL_LIMIT: i64 = 0x10_0000;

/// Largest frame delta accepted by the movement system, in milliseconds.
pub const DT_LIMIT: i64 = 0x10_0000;

/// Coordinate bound that holds even between a movement step and the
/// off-screen sweep that follows it.
pub const POS_ROAM: i64 = POS_LIMIT + VEL_LIMIT * DT_LIMIT;

} // verus!
