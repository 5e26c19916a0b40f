//! # Omnipaddles
//!
//! Game data of omnipaddles: collisions between kinds of entities, and the reactions that
//! games attach to them.

use vstd::prelude::*;

verus! {

/// Information that a game attaches to a reaction.
pub trait ReactionMetadata {}

/// A collision between an entity of the first kind and one of the second.
#[derive(Ord, PartialOrd, Eq, PartialEq)]
pub struct CollisionEvent<ID>(pub ID, pub ID);

impl<ID> CollisionEvent<ID> {
    pub fn new(id1: ID, id2: ID) -> (res: Self)
        ensures
            res == CollisionEvent(id1, id2),
    {
        Self(id1, id2)
    }
}

/// The reaction of a ball, by its index, bouncing off a wall.
pub struct BounceWall(pub usize);

impl BounceWall {
    pub fn new(ball_idx: usize) -> (res: Self)
        ensures
            res.0 == ball_idx,
    {
        Self(ball_idx)
    }
}

} // verus!
