//! Units of measurement and the game's fixed parameters.

use vstd::prelude::*;

verus! {

/// Length units per pixel. Every coordinate, radius and distance is a whole
/// number of these units.
pub const UNITS_PER_PIXEL: i32 = 1_000;

/// Radius of the ship's body: ten pixels.
pub const SHIP_SIZE: i32 = 10_000;

/// Radius of the destination marker: five pixels.
pub const DST_SIZE: i32 = 5_000;

/// Distance the ship moves per frame along each axis whose key is held: one
/// pixel.
pub const SHIP_SPEED: i32 = 1_000;

/// Tolerance of the proximity test that decides whether the ship has struck
/// an asteroid edge: ten square pixels. The test compares the tolerance
/// against products of two lengths, so it is measured in square units.
pub const SHIP_TOLERANCE: u64 = 10_000_000;

/// Tolerance of the proximity test that decides whether a radar sample lies
/// on an asteroid edge: three tenths of a square pixel.
pub const CLOSENESS_TOLERANCE: u64 = 300_000;

/// Asteroids on the field before the level number is added.
pub const NUM_ASTEROIDS: usize = 10;

/// Growth of the scan radius per frame: seven pixels.
pub const SCAN_SPEED: u32 = 7_000;

/// How fast the blacked-out sector behind a blocked ray widens as the scan
/// circle grows.
pub const ARC_GROWTH_RATE: u32 = 1;

/// Radar samples per degree.
pub const ANGLE_PRECISION: u32 = 100;

/// Angle steps in a full turn.
pub const FULL_TURN: u32 = 36_000;

/// Largest width or height of a screen, and so the largest coordinate the
/// ship can reach.
pub const MAX_EXTENT: i32 = 1_000_000_000;

} // verus!
