//! The entity that the human controls.

use vstd::prelude::*;

verus! {

/// Marks the entity that takes its actions from the human's input.
#[derive(Clone, Copy, Debug, PartialEq, Eq, Structural)]
pub struct Player;

} // verus!
