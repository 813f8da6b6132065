//! World constants and the rectangle type, in fixed-point world units.
//!
//! One world unit (one pixel of the rendering surface) is divided into
//! [`UNIT`] equal steps. Every coordinate on the screen, counted in steps,
//! is below 2^24, so it converts to a 32-bit float without rounding.

use vstd::prelude::*;

verus! {

/// Steps per world unit.
pub const UNIT: i64 = 1024;

/// Width of the screen: 800 world units.
pub const SCREEN_WIDTH: i64 = 800 * UNIT;

/// Height of the screen: 600 world units.
pub const SCREEN_HEIGHT: i64 = 600 * UNIT;

/// The y coordinate at which the player stands: 300 world units.
pub const GROUND_Y: i64 = 300 * UNIT;

/// Downward acceleration: half a world unit per tick, each tick.
pub const GRAVITY: i64 = 512;

/// Velocity that a jump gives the player: 10 world units per tick, upward.
pub const JUMP_VELOCITY: i64 = -10 * UNIT;

/// Distance that an obstacle travels left per tick: 5 world units.
pub const OBSTACLE_SPEED: i64 = 5 * UNIT;

/// Width of every obstacle: 30 world units.
pub const OBSTACLE_WIDTH: i64 = 30 * UNIT;

/// Least height of an obstacle: 30 world units.
pub const MIN_OBSTACLE_HEIGHT: i64 = 30 * UNIT;

/// Bound above every obstacle's height, itself excluded: 100 world units.
pub const MAX_OBSTACLE_HEIGHT: i64 = 100 * UNIT;

/// An obstacle enters whenever the score is a multiple of this.
pub const SPAWN_INTERVAL: u32 = 100;

/// Left edge of the player: 50 world units.
pub const PLAYER_X: i64 = 50 * UNIT;

/// Width of the player: 50 world units.
pub const PLAYER_WIDTH: i64 = 50 * UNIT;

/// Height of the player: 50 world units.
pub const PLAYER_HEIGHT: i64 = 50 * UNIT;

/// An axis-aligned rectangle: top-left corner, width and height, in steps.
#[derive(Clone, Copy, Debug, PartialEq, Eq)]
pub struct Rect {
    pub x: i64,
    pub y: i64,
    pub w: i64,
    pub h: i64,
}

/// A rectangle over the mathematical integers.
pub struct RectView {
    pub x: int,
    pub y: int,
    pub w: int,
    pub h: int,
}

impl View for Rect {
    type V = RectView;

    open spec fn view(&self) -> RectView {
        RectView { x: self.x as int, y: self.y as int, w: self.w as int, h: self.h as int }
    }
}

} // verus!
