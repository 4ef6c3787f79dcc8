use turnsim::actions::{ActionsCompleteEvent, InvalidPlayerActionEvent, TickEvent};
use turnsim::input::PlayerInputReadyEvent;
use turnsim::manager::{
    game_end, game_start, tick, transition, turn_update_cancel, turn_update_end,
    turn_update_start, ManagerSignal,
};
use turnsim::state::{GameState, MainState};

#[test]
fn states_start_inactive() {
    assert_eq!(GameState::default(), GameState::Inactive);
    assert_eq!(MainState::default(), MainState::LoadAssets);
}

#[test]
fn single_transitions() {
    assert_eq!(game_start(), GameState::PlayerInput);
    assert_eq!(game_end(), GameState::Inactive);
    assert_eq!(turn_update_start(), (GameState::TurnUpdate, TickEvent));
    assert_eq!(turn_update_end(), GameState::PlayerInput);
    assert_eq!(turn_update_cancel(), GameState::PlayerInput);
    assert_eq!(tick(0), Some(TickEvent));
    assert_eq!(tick(1), None);
    assert_eq!(tick(7), None);
}

#[test]
fn flow_of_a_turn() {
    let mut state = GameState::default();
    let (next, step) = transition(state, ManagerSignal::GameStart);
    assert_eq!((next, step), (GameState::PlayerInput, None));
    state = next;
    // While the human is asked, no step is requested.
    assert_eq!(
        transition(state, ManagerSignal::Frame { waits: 0 }),
        (GameState::PlayerInput, None)
    );
    let (next, step) = transition(state, ManagerSignal::PlayerInputReady(PlayerInputReadyEvent));
    assert_eq!((next, step), (GameState::TurnUpdate, Some(TickEvent)));
    state = next;
    assert_eq!(
        transition(state, ManagerSignal::Frame { waits: 0 }),
        (GameState::TurnUpdate, Some(TickEvent))
    );
    assert_eq!(
        transition(state, ManagerSignal::Frame { waits: 2 }),
        (GameState::TurnUpdate, None)
    );
    let (next, step) = transition(state, ManagerSignal::ActionsComplete(ActionsCompleteEvent));
    assert_eq!((next, step), (GameState::PlayerInput, None));
    let (next, step) =
        transition(GameState::TurnUpdate, ManagerSignal::InvalidPlayerAction(InvalidPlayerActionEvent));
    assert_eq!((next, step), (GameState::PlayerInput, None));
    assert_eq!(
        transition(GameState::TurnUpdate, ManagerSignal::GameEnd),
        (GameState::Inactive, None)
    );
    assert_eq!(
        transition(GameState::Inactive, ManagerSignal::Frame { waits: 0 }),
        (GameState::Inactive, None)
    );
}
