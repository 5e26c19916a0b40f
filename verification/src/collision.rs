//! # Collision logics
//!
//! Collision logics offer an illusion of physical space through the fact that some game
//! objects occlude the movement of others. They detect overlaps between subsets of entities
//! and/or regions of space, and automatically trigger reactions when such overlaps occur.

use vstd::prelude::*;

verus! {

/// Metadata of each collision entity.
#[derive(Default, Clone, Copy)]
pub struct CollisionData<ID: Copy + Eq> {
    /// True if the entity is solid, i.e. can stop other entities.
    ///
    /// For example, a wall or player character might be solid, while a section of the ground
    /// that applies an affect on the player character when they walk over it (colliding with
    /// it) might not be.
    pub solid: bool,
    /// True if the entity is fixed, i.e. does _not_ participate in restitution.
    ///
    /// Pushable entities are _not_ fixed, while entities that shouldn't be pushable, such as
    /// walls or moving platforms, are.
    pub fixed: bool,
    pub id: ID,
}

} // verus!
