//! The flow of the game: when the human is asked for input, and when the
//! scheduler is asked for a step.

use vstd::prelude::*;
use crate::actions::{ActionsCompleteEvent, InvalidPlayerActionEvent, TickEvent};
use crate::input::PlayerInputReadyEvent;
use crate::state::GameState;

verus! {

/// What the flow reacts to.
#[derive(Clone, Copy, Debug, PartialEq, Eq, Structural)]
pub enum ManagerSignal {
    /// The game has been entered.
    GameStart,
    /// The game has been left.
    GameEnd,
    /// The human's input has been accepted.
    PlayerInputReady(PlayerInputReadyEvent),
    /// The scheduler found the queue empty.
    ActionsComplete(ActionsCompleteEvent),
    /// The scheduler could execute none of the human's candidates.
    InvalidPlayerAction(InvalidPlayerActionEvent),
    /// One round of the driver has passed, in which `waits` requests to
    /// wait for an animation were raised.
    Frame { waits: usize },
}

/// The phase after a signal, and whether the scheduler is asked for a step.
pub open spec fn spec_transition(state: GameState, signal: ManagerSignal) -> (
    GameState,
    Option<TickEvent>,
) {
    match signal {
        ManagerSignal::GameStart => (GameState::PlayerInput, None),
        ManagerSignal::GameEnd => (GameState::Inactive, None),
        ManagerSignal::PlayerInputReady(_) => (GameState::TurnUpdate, Some(TickEvent)),
        ManagerSignal::ActionsComplete(_) => (GameState::PlayerInput, None),
        ManagerSignal::InvalidPlayerAction(_) => (GameState::PlayerInput, None),
        ManagerSignal::Frame { waits } => (
            state,
            if state == GameState::TurnUpdate && waits == 0 {
                Some(TickEvent)
            } else {
                None
            },
        ),
    }
}

/// Entering the game asks the human for input.
pub fn game_start() -> (next: GameState)
    ensures
        next == GameState::PlayerInput,
{
    GameState::PlayerInput
}

/// Leaving the game ends the flow.
pub fn game_end() -> (next: GameState)
    ensures
        next == GameState::Inactive,
{
    GameState::Inactive
}

/// Accepted input starts the turns and asks for the first step.
pub fn turn_update_start() -> (next: (GameState, TickEvent))
    ensures
        next.0 == GameState::TurnUpdate,
{
    (GameState::TurnUpdate, TickEvent)
}

/// When every queued entity has had its turn, the human is asked again.
pub fn turn_update_end() -> (next: GameState)
    ensures
        next == GameState::PlayerInput,
{
    GameState::PlayerInput
}

/// When the human's action was invalid, the human is asked again.
pub fn turn_update_cancel() -> (next: GameState)
    ensures
        next == GameState::PlayerInput,
{
    GameState::PlayerInput
}

/// While the turns are carried out, each round of the driver asks for a
/// step, unless an animation asked to wait.
pub fn tick(waits: usize) -> (step: Option<TickEvent>)
    ensures
        step is Some <==> waits == 0,
{
    if waits == 0 {
        Some(TickEvent)
    } else {
        None
    }
}

/// The reaction of the flow to one signal.
pub fn transition(state: GameState, signal: ManagerSignal) -> (next: (GameState, Option<TickEvent>))
    ensures
        next == spec_transition(state, signal),
{
    match signal {
        ManagerSignal::GameStart => (game_start(), None),
        ManagerSignal::GameEnd => (game_end(), None),
        ManagerSignal::PlayerInputReady(_) => {
            let started = turn_update_start();
            (started.0, Some(started.1))
        },
        ManagerSignal::ActionsComplete(_) => (turn_update_end(), None),
        ManagerSignal::InvalidPlayerAction(_) => (turn_update_cancel(), None),
        ManagerSignal::Frame { waits } => {
            if state == GameState::TurnUpdate {
                (state, tick(waits))
            } else {
                (state, None)
            }
        },
    }
}

} // verus!
