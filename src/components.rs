//! Data attached to entities, and the handles that tie them to bodies and
//! colliders of the physics world.
use crate::geometry::Vec3;
use vstd::prelude::*;

verus! {

/// Identifier of an entity in the entity registry.
pub type EntityId = u64;

/// Marks the entity driven by the person playing.
#[derive(Clone, Copy, Debug, PartialEq, Eq, Structural)]
pub struct Player {}

/// Handle of a rigid body: a slot index and the generation of that slot.
#[derive(Clone, Copy, Debug, PartialEq, Eq, Structural)]
pub struct BodyHandle {
    pub index: u32,
    pub generation: u32,
}

/// Handle of a collider: a slot index and the generation of that slot.
#[derive(Clone, Copy, Debug, PartialEq, Eq, Structural)]
pub struct ColliderKey {
    pub index: u32,
    pub generation: u32,
}

/// The two behaviours of a witch.
#[derive(Clone, Copy, Debug, PartialEq, Eq, Structural)]
pub enum WitchState {
    Patrolling,
    Chasing,
}

/// The decision state of one witch: what it is doing, where it patrols
/// to, and its own collider (left out of its line-of-sight test).
#[derive(Clone, Copy, Debug, PartialEq, Eq, Structural)]
pub struct Witch {
    pub collider_handle: ColliderKey,
    pub state: WitchState,
    pub target: Vec3,
}

} // verus!
