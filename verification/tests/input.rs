use std::collections::VecDeque;

use turnsim::actions::models::MoveToAction;
use turnsim::actions::{Action, ActorQueue};
use turnsim::board::components::Position;
use turnsim::input::{can_handle_movement_keys, handle_movement_keys};
use turnsim::pieces::components::Actor;
use turnsim::player::Player;
use turnsim::point::Point;
use turnsim::world::{EntityEntry, World};

fn human(id: u64, x: i32, y: i32) -> EntityEntry {
    let mut entry = EntityEntry::new(id);
    entry.position = Some(Position { p: Point::new(x, y) });
    entry.actor = Some(Actor(vec![(
        Action::Move(MoveToAction::new(id, Point::new(9, 9))),
        77,
    )]));
    entry.player = Some(Player);
    entry
}

#[test]
fn last_direction_becomes_the_only_candidate() {
    let mut world = World::new();
    assert!(world.spawn(EntityEntry::new(3)));
    assert!(world.spawn(human(1, 4, 4)));
    world.queue = ActorQueue(VecDeque::from([3, 8]));
    let accepted = handle_movement_keys(&mut world, &vec![Point::north(), Point::south_west()]);
    assert_eq!(accepted, 2);
    let i = world.find(1).unwrap();
    assert_eq!(
        world.entities[i].actor.as_ref().unwrap().0,
        vec![(Action::Move(MoveToAction::new(1, Point::new(3, 3))), 0)]
    );
    assert_eq!(world.queue.0, VecDeque::from([1]));
    assert_eq!(world.position(1), Some(Point::new(4, 4)));
}

#[test]
fn no_direction_changes_nothing() {
    let mut world = World::new();
    assert!(world.spawn(human(1, 4, 4)));
    world.queue = ActorQueue(VecDeque::from([3]));
    assert_eq!(handle_movement_keys(&mut world, &Vec::new()), 0);
    assert_eq!(world.queue.0, VecDeque::from([3]));
    let i = world.find(1).unwrap();
    assert_eq!(world.entities[i].actor.as_ref().unwrap().0.len(), 1);
}

#[test]
fn input_needs_exactly_one_player() {
    let mut world = World::new();
    assert_eq!(handle_movement_keys(&mut world, &vec![Point::north()]), 0);
    assert!(world.spawn(human(1, 4, 4)));
    assert!(world.spawn(human(2, 5, 5)));
    assert_eq!(handle_movement_keys(&mut world, &vec![Point::north()]), 0);
    assert!(world.queue.0.is_empty());
    assert!(world.despawn(2));
    let mut unplaced = human(3, 0, 0);
    unplaced.position = None;
    assert!(world.spawn(unplaced));
    assert_eq!(handle_movement_keys(&mut world, &vec![Point::north()]), 1);
    assert_eq!(world.queue.0, VecDeque::from([1]));
}

#[test]
fn input_at_the_edge_of_the_coordinates_is_told() {
    let mut world = World::new();
    assert!(can_handle_movement_keys(&world, &vec![Point::north()]));
    assert!(world.spawn(human(1, i32::MAX, 0)));
    assert!(can_handle_movement_keys(&world, &vec![Point::north(), Point::west()]));
    assert!(!can_handle_movement_keys(&world, &vec![Point::north(), Point::east()]));
    assert!(can_handle_movement_keys(&world, &Vec::new()));
}
