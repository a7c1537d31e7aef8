//! Attribute schemas: passive data records associated with entities.
//!
//! Continuous quantities are fixed-point: positions and speeds in
//! milli-units, rotations in milli-degrees.

use vstd::prelude::*;
use crate::fixed::iabs;

verus! {

/// A two-dimensional vector in milli-units.
#[derive(Clone, Copy, Debug, PartialEq, Eq, Structural)]
pub struct Vec2 {
    pub x: i64,
    pub y: i64,
}

/// The squared magnitude of a vector, in squared milli-units.
pub open spec fn norm_sq(v: Vec2) -> int {
    v.x * v.x + v.y * v.y
}

/// Where an entity stands and which way it faces. `x` and `y` are world
/// coordinates in milli-units; `rot` is in milli-degrees and is kept in
/// `[0, 360000)` by the pass that owns the entity.
#[derive(Clone, Copy, Debug, PartialEq, Eq, Structural)]
pub struct Position {
    pub x: i64,
    pub y: i64,
    pub rot: i64,
}

impl Position {
    /// The rotation is a normalized angle.
    pub open spec fn rot_wf(self) -> bool {
        0 <= self.rot < 360000
    }

    /// The coordinates lie inside the world.
    pub open spec fn in_world(self) -> bool {
        &&& 0 <= self.x < crate::GAME_WIDTH_MILLI
        &&& 0 <= self.y < crate::GAME_HEIGHT_MILLI
    }
}

/// The texture key of a renderable entity. The simulation never interprets
/// it; rendering resolves it to an image.
#[derive(Clone, Copy, Debug, PartialEq, Eq, Structural)]
pub enum TexName {
    Ship,
    Rock,
    MissileShot,
    SmokePuff,
}

/// What rendering needs to draw an entity: a texture key, the source and
/// destination sizes, the animation frame, and a rotation in milli-degrees.
#[derive(Clone, Copy, Debug, PartialEq, Eq, Structural)]
pub struct Renderable {
    pub tex_name: TexName,
    pub i_w: u32,
    pub i_h: u32,
    pub o_w: u32,
    pub o_h: u32,
    pub frame: u32,
    pub total_frames: u32,
    pub rot: i64,
}

/// The player ship: `impulse` accumulates thrust requests within a frame and
/// is cleared by motion integration; `cur_speed` persists across frames and
/// decays by friction.
#[derive(Clone, Copy, Debug, PartialEq, Eq, Structural)]
pub struct Player {
    pub impulse: Vec2,
    pub cur_speed: Vec2,
}

impl Player {
    /// The standing bounds of a player record: the current speed respects
    /// the clamp of motion integration, and the pending impulse holds at
    /// most the thrust requests of one frame, with headroom.
    pub open spec fn wf(self) -> bool {
        &&& norm_sq(self.cur_speed) <= (crate::MAX_SPEED_MILLI + 1) * (crate::MAX_SPEED_MILLI + 1)
        &&& iabs(self.impulse.x as int) <= 16000
        &&& iabs(self.impulse.y as int) <= 16000
    }
}

/// Static multipliers for the external asteroid mover pass.
#[derive(Clone, Copy, Debug, PartialEq, Eq, Structural)]
pub struct Asteroid {
    pub speed: i64,
    pub rot_speed: i64,
}

/// A fired missile: it advances by `speed` milli-units along its heading
/// every frame.
#[derive(Clone, Copy, Debug, PartialEq, Eq, Structural)]
pub struct Missile {
    pub speed: i64,
}

impl Missile {
    /// The speed is nonnegative and small enough that one step moves the
    /// missile at most a few world units.
    pub open spec fn wf(self) -> bool {
        0 <= self.speed <= 10000
    }
}

/// A smoke particle: it drifts opposite to its heading, slows by drag, and
/// shrinks on a timer until it is destroyed.
#[derive(Clone, Copy, Debug, PartialEq, Eq, Structural)]
pub struct Smoke {
    pub speed: i64,
    pub slack: i64,
    pub shrink_time: i64,
    pub shrink_speed: i64,
    pub shrink_factor: u32,
}

impl Smoke {
    /// The standing bounds of a smoke record: drag genuinely slows the
    /// particle (`slack > 1000`), the shrink timer stays in `(0, 1000]`,
    /// and the shrink parameters are within their spawn ranges.
    pub open spec fn wf(self) -> bool {
        &&& 0 <= self.speed <= 5000
        &&& 1005 <= self.slack <= 1100
        &&& 0 < self.shrink_time <= 1000
        &&& 0 <= self.shrink_speed <= 1000
        &&& 1 <= self.shrink_factor <= 100
    }
}

} // verus!
