//! Per-tick event records. Producers append to a buffer, one consumer phase
//! drains it, and the buffer is cleared within the same tick, so no event
//! outlives the tick that produced it.

use vstd::prelude::*;
use crate::arena::Handle;
use crate::vec2::Vec2i;

verus! {

/// A damage event: `damage` hit points to be taken from the entity `target`.
#[derive(Clone, Copy, PartialEq, Eq, Structural, Debug)]
pub struct TransmitDamage {
    pub target: Handle,
    pub damage: i64,
}

/// An enemy died at this position; an experience pickup should spawn there.
#[derive(Clone, Copy, PartialEq, Eq, Structural, Debug)]
pub struct ExperienceSpawnEvent(pub Vec2i);

/// A collected pickup delivers this scalar reward to player progression.
#[derive(Clone, Copy, PartialEq, Eq, Structural, Debug)]
pub struct SendExperienceEvent(pub u64);

/// The player reached this level; consumed by the host's UI layer.
#[derive(Clone, Copy, PartialEq, Eq, Structural, Debug)]
pub struct PlayerLevelUpEvent(pub u32);

} // verus!
