//! The phases of the program and of the game.

use vstd::prelude::*;

verus! {

/// The phase of the program as a whole.
#[derive(Clone, Copy, Debug, Default, Hash, PartialEq, Eq, Structural)]
pub enum MainState {
    #[default]
    LoadAssets,
    Game,
}

/// The phase of the game: waiting for the human's input, or carrying the
/// turns out. `Inactive` outside the game.
#[derive(Clone, Copy, Debug, Default, Hash, PartialEq, Eq, Structural)]
pub enum GameState {
    #[default]
    Inactive,
    PlayerInput,
    TurnUpdate,
}

} // verus!
