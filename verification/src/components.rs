//! The components an entity can carry, and the game's named constants.

use vstd::prelude::*;
use crate::vec2::{Vec2, Rect, rect_wf};

verus! {

/// Speed of every bullet, in milli-units per millisecond (world units per
/// second).
pub const BULLET_SPEED: i64 = 400;

/// Horizontal speed of a ship, in milli-units per millisecond.
pub const SHIP_SPEED: i64 = 300;

/// A ship's radius is the viewport height divided by this constant, the
/// single canonical ship-size formula.
pub const SHIP_SIZE_DIVISOR: i64 = 35;

/// Largest bullet generation; children of a generation-9 bullet stay at 9.
pub const GEN_CAP: u32 = 9;

/// A world position, in milli-units.
#[derive(Clone, Copy, PartialEq, Eq, Structural, Debug)]
pub struct Pos(pub Vec2);

/// A velocity, in milli-units per millisecond; set at spawn time and never
/// changed afterwards.
#[derive(Clone, Copy, PartialEq, Eq, Structural, Debug)]
pub struct Vel(pub Vec2);

/// The bullet tag; the field is the bullet's generation.
#[derive(Clone, Copy, PartialEq, Eq, Structural, Debug)]
pub struct Bullet(pub u32);

/// A bullet's radius in milli-units: its generation in world units, capped
/// at 10.
pub open spec fn bullet_size_spec(g: u32) -> int {
    if g < 10 {
        1000 * (g as int)
    } else {
        10000
    }
}

impl Bullet {
    /// Visual radius of the bullet, in milli-units.
    pub fn size(&self) -> (s: i64)
        ensures
            s == bullet_size_spec(self.0),
    {
        if self.0 < 10 {
            1000 * (self.0 as i64)
        } else {
            10000
        }
    }
}

/// The ship tag; a ship carries no payload of its own.
#[derive(Clone, Copy, PartialEq, Eq, Structural, Debug)]
pub struct Ship;

/// A ship's radius in milli-units, derived from the viewport height.
pub open spec fn ship_size_spec(h: int) -> int {
    h / (SHIP_SIZE_DIVISOR as int)
}

impl Ship {
    /// Visual radius of a ship, in milli-units, for the given viewport.
    pub fn size(r: Rect) -> (s: i64)
        requires
            rect_wf(r),
        ensures
            s == ship_size_spec(r.h as int),
            0 <= s <= crate::POS_LIMIT,
    {
        r.h / SHIP_SIZE_DIVISOR
    }
}

} // verus!
