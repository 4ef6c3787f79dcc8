//! What a piece can carry besides its position.

use vstd::prelude::*;
use crate::actions::Action;

verus! {

/// The kind of a piece, by name.
pub struct Piece {
    pub kind: String,
}

/// The scored candidate actions that an entity has been given for its turn,
/// in the order in which they were proposed. An entity needs this to take a
/// turn at all.
pub struct Actor(pub Vec<(Action, i32)>);

/// How much damage an entity can still take.
#[derive(Clone, Copy, Debug, PartialEq, Eq, Structural)]
pub struct Health {
    pub value: u32,
}

/// How hard an entity hits.
#[derive(Clone, Copy, Debug, PartialEq, Eq, Structural)]
pub struct Fighter {
    pub strength: u32,
}

/// Marks an entity that blocks the cell on which it stands.
#[derive(Clone, Copy, Debug, PartialEq, Eq, Structural)]
pub struct TileOccupier;

/// Marks an entity that moves on its own.
#[derive(Clone, Copy, Debug, PartialEq, Eq, Structural)]
pub struct Walker;

impl Default for Actor {
    /// An actor without candidates.
    fn default() -> (a: Actor)
        ensures
            a.0@ == Seq::<(Action, i32)>::empty(),
    {
        Actor(Vec::new())
    }
}

} // verus!
