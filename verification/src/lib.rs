//! Verified simulation core of an arcade-style asteroids game.
//!
//! The library owns a dynamic set of game entities (player ship, asteroids,
//! missiles, smoke particles), advances their physical state every frame,
//! enforces world boundaries, and manages entity creation and destruction
//! under resource caps.
//!
//! All continuous quantities (positions, rotations, speeds) are held in
//! fixed-point milli-units: one world unit is 1000, one degree is 1000.
//! Rotations are kept in `[0, 360000)` milli-degrees; the world is
//! `800000 x 600000` milli-units.

use vstd::prelude::*;

pub mod components;
pub mod fixed;
pub mod game;
pub mod input;
pub mod missile;
mod rng;
pub mod smoke;
pub mod store;

verus! {

/// World width in milli-units (800 world units).
pub const GAME_WIDTH_MILLI: i64 = 800_000;

/// World height in milli-units (600 world units).
pub const GAME_HEIGHT_MILLI: i64 = 600_000;

/// How far the ship may turn in one frame, in milli-degrees (2.5 degrees).
pub const ROTATION_SPEED_MILLI: i64 = 2_500;

/// The thrust one frame of holding the key adds, in milli-units (4 units).
pub const MOVEMENT_SPEED_MILLI: i64 = 4_000;

/// The cap on the ship's speed, in milli-units per frame (4.5 units).
pub const MAX_SPEED_MILLI: i64 = 4_500;

/// Friction numerator: the speed is scaled by 95/100 every frame.
pub const FRICTION_NUM: u64 = 95;

/// Friction denominator.
pub const FRICTION_DEN: u64 = 100;

/// The population cap on missiles.
pub const MAX_MISSILES: usize = 10_000;

/// The population cap on smoke particles.
pub const MAX_PARTICLES: usize = 64;

/// The speed of a fired missile, in milli-units per frame (6 units).
pub const MISSILE_SPEED_MILLI: i64 = 6_000;

} // verus!
