//! The frame-local input snapshot handed into the player control pass.
//!
//! The snapshot is read-only within a pass except for the fire key, which is
//! edge-triggered: the pass clears it as it consumes it, so holding the key
//! does not repeat the action every frame.

use vstd::prelude::*;

verus! {

/// Which control keys are down this frame.
#[derive(Clone, Copy, Debug, PartialEq, Eq, Structural)]
pub struct KeyState {
    /// Turn clockwise.
    pub key_d: bool,
    /// Turn counter-clockwise.
    pub key_a: bool,
    /// Thrust.
    pub key_w: bool,
    /// Fire a missile; cleared by the pass that consumes it.
    pub key_fire: bool,
}

/// The snapshot after the player control pass has consumed the fire key.
pub open spec fn consumed(k: KeyState) -> KeyState {
    KeyState { key_fire: false, ..k }
}

impl KeyState {
    /// No key pressed.
    pub fn none() -> (r: KeyState)
        ensures
            r == (KeyState { key_d: false, key_a: false, key_w: false, key_fire: false }),
    {
        KeyState { key_d: false, key_a: false, key_w: false, key_fire: false }
    }
}

/// A consumed snapshot no longer requests fire: a second pass over the same
/// handle spawns no missile, so one press yields exactly one spawn request.
pub proof fn lemma_fire_edge_triggered(k: KeyState)
    ensures
        !consumed(k).key_fire,
        consumed(consumed(k)) == consumed(k),
{
}

} // verus!
