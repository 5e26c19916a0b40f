//! # Asterism
//!
//! Operational logics (graphs, entity states, links, resources, controls, tile-map
//! collision) that a game loop configures and calls out to, each with a verified contract.

use vstd::prelude::*;

pub mod animation;
pub mod bitsy;
pub mod boxsy;
pub mod collision;
pub mod control;
pub mod data;
pub mod entity_state;
pub mod framebuffer;
pub mod graph;
pub mod jumper;
pub mod linking;
pub mod maze;
pub mod omnipaddles;
pub mod paddles;
pub mod physics;
pub mod resources;
pub mod tables;

verus! {

/// An event that a logic can report.
pub trait Event: Clone {}

/// A reaction that a logic can process.
pub trait Reaction {}

/// An operational logic.
pub trait Logic {
    /// the reactions that this logic can act on
    type Reaction: Reaction;

    /// The logic, in its current state, can process `reaction`; a logic that can process
    /// every reaction need not say so.
    open spec fn can_handle(&self, reaction: &Self::Reaction) -> bool {
        true
    }

    /// processes the reaction if a predicate condition is met
    fn handle_predicate(&mut self, reaction: &Self::Reaction)
        requires
            old(self).can_handle(reaction),
    ;
}

} // verus!
