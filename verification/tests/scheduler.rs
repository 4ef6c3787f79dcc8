use std::collections::VecDeque;

use turnsim::actions::models::{DamageAction, MeleeAttackAction, MoveToAction};
use turnsim::actions::systems::{
    can_plan_melee, can_plan_walk, plan_melee, plan_walk, populate_actor_queue,
    process_action_queue, process_pending_actions, resolve_turn, trial_order, MOVE_SCORE,
    PATH_BONUS, PLAYER_ATTACK_SCORE,
};
use turnsim::actions::{
    Action, ActionsCompleteEvent, ActorQueue, InvalidPlayerActionEvent, NextActorEvent,
    PendingActions, SchedulerSignal,
};
use turnsim::board::components::Position;
use turnsim::board::Board;
use turnsim::pieces::components::{Actor, Fighter, Health, TileOccupier, Walker};
use turnsim::player::Player;
use turnsim::point::Point;
use turnsim::world::{EntityEntry, World};

fn world_with_board(width: u32, height: u32) -> World {
    let mut world = World::new();
    world.board = Some(Board::new(0, width, height));
    world
}

fn piece(id: u64, x: i32, y: i32) -> EntityEntry {
    let mut entry = EntityEntry::new(id);
    entry.position = Some(Position { p: Point::new(x, y) });
    entry.actor = Some(Actor(Vec::new()));
    entry.occupier = Some(TileOccupier);
    entry
}

fn player(id: u64, x: i32, y: i32) -> EntityEntry {
    let mut entry = piece(id, x, y);
    entry.player = Some(Player);
    entry.health = Some(Health { value: 10 });
    entry.fighter = Some(Fighter { strength: 5 });
    entry
}

fn npc(id: u64, x: i32, y: i32, strength: u32) -> EntityEntry {
    let mut entry = piece(id, x, y);
    entry.walker = Some(Walker);
    entry.fighter = Some(Fighter { strength });
    entry
}

fn candidates(world: &World, id: u64) -> Vec<(Action, i32)> {
    let i = world.find(id).unwrap();
    world.entities[i].actor.as_ref().unwrap().0.clone()
}

fn set_candidates(world: &mut World, id: u64, list: Vec<(Action, i32)>) {
    let i = world.find(id).unwrap();
    world.entities[i].actor = Some(Actor(list));
}

fn move_to(id: u64, x: i32, y: i32) -> Action {
    Action::Move(MoveToAction::new(id, Point::new(x, y)))
}

#[test]
fn move_outside_the_board_fails_and_changes_nothing() {
    let mut world = world_with_board(4, 4);
    assert!(world.spawn(piece(1, 3, 3)));
    for (x, y) in [(4, 3), (3, 4), (-1, 0), (0, -1), (100, 100)] {
        let result = MoveToAction::new(1, Point::new(x, y)).execute(&mut world);
        assert_eq!(result, Err(()));
        assert_eq!(world.position(1), Some(Point::new(3, 3)));
    }
}

#[test]
fn move_without_a_board_fails() {
    let mut world = World::new();
    assert!(world.spawn(piece(1, 0, 0)));
    assert_eq!(MoveToAction::new(1, Point::new(1, 0)).execute(&mut world), Err(()));
    assert_eq!(world.position(1), Some(Point::new(0, 0)));
}

#[test]
fn move_onto_an_occupied_cell_fails_and_changes_nothing() {
    let mut world = world_with_board(4, 4);
    assert!(world.spawn(piece(1, 0, 0)));
    assert!(world.spawn(piece(2, 1, 0)));
    assert_eq!(MoveToAction::new(1, Point::new(1, 0)).execute(&mut world), Err(()));
    assert_eq!(world.position(1), Some(Point::new(0, 0)));
    assert_eq!(world.position(2), Some(Point::new(1, 0)));
    // The mover itself blocks its own cell.
    assert_eq!(MoveToAction::new(1, Point::new(0, 0)).execute(&mut world), Err(()));
}

#[test]
fn move_onto_a_cell_with_a_piece_that_does_not_block_succeeds() {
    let mut world = world_with_board(4, 4);
    assert!(world.spawn(piece(1, 0, 0)));
    let mut ghost = piece(2, 1, 1);
    ghost.occupier = None;
    assert!(world.spawn(ghost));
    assert_eq!(MoveToAction::new(1, Point::new(1, 1)).execute(&mut world), Ok(Vec::new()));
    assert_eq!(world.position(1), Some(Point::new(1, 1)));
}

#[test]
fn valid_move_sets_the_position() {
    let mut world = world_with_board(4, 4);
    assert!(world.spawn(piece(1, 0, 0)));
    assert_eq!(MoveToAction::new(1, Point::new(3, 3)).execute(&mut world), Ok(Vec::new()));
    assert_eq!(world.position(1), Some(Point::new(3, 3)));
}

#[test]
fn move_of_an_entity_without_position_fails() {
    let mut world = world_with_board(4, 4);
    assert!(world.spawn(EntityEntry::new(1)));
    assert_eq!(MoveToAction::new(1, Point::new(1, 1)).execute(&mut world), Err(()));
    assert_eq!(MoveToAction::new(9, Point::new(1, 1)).execute(&mut world), Err(()));
}

#[test]
fn melee_out_of_reach_fails() {
    let mut world = world_with_board(8, 8);
    assert!(world.spawn(npc(1, 0, 0, 2)));
    assert!(world.spawn(player(2, 2, 0)));
    let attack = MeleeAttackAction { attacker: 1, target_pos: Point::new(2, 0), damage: 2 };
    assert_eq!(attack.execute(&mut world), Err(()));
    assert_eq!(world.health(2), Some(10));
}

#[test]
fn melee_without_targets_fails() {
    let mut world = world_with_board(8, 8);
    assert!(world.spawn(npc(1, 0, 0, 2)));
    let attack = MeleeAttackAction { attacker: 1, target_pos: Point::new(1, 1), damage: 2 };
    assert_eq!(attack.execute(&mut world), Err(()));
    let absent = MeleeAttackAction { attacker: 7, target_pos: Point::new(1, 1), damage: 2 };
    assert_eq!(absent.execute(&mut world), Err(()));
}

#[test]
fn melee_gives_one_damage_action_for_each_target() {
    let mut world = world_with_board(8, 8);
    assert!(world.spawn(npc(1, 0, 0, 2)));
    assert!(world.spawn(player(2, 1, 1)));
    let mut second = EntityEntry::new(3);
    second.position = Some(Position { p: Point::new(1, 1) });
    second.health = Some(Health { value: 4 });
    assert!(world.spawn(second));
    let mut bystander = EntityEntry::new(4);
    bystander.position = Some(Position { p: Point::new(1, 1) });
    assert!(world.spawn(bystander));
    let attack = MeleeAttackAction { attacker: 1, target_pos: Point::new(1, 1), damage: 2 };
    let follow_ups = attack.execute(&mut world).unwrap();
    assert_eq!(
        follow_ups,
        vec![
            Action::Damage(DamageAction::new(2, 2)),
            Action::Damage(DamageAction::new(3, 2)),
        ]
    );
    assert_eq!(world.health(2), Some(10));
    assert_eq!(world.health(3), Some(4));
}

#[test]
fn damage_takes_health_and_removes_at_zero() {
    let mut world = world_with_board(8, 8);
    assert!(world.spawn(player(2, 1, 1)));
    assert_eq!(DamageAction::new(2, 3).execute(&mut world), Ok(Vec::new()));
    assert_eq!(world.health(2), Some(7));
    assert_eq!(world.position(2), Some(Point::new(1, 1)));
    assert!(world.is_player(2));
    assert_eq!(DamageAction::new(2, 0).execute(&mut world), Ok(Vec::new()));
    assert_eq!(world.health(2), Some(7));
    assert_eq!(DamageAction::new(2, 7).execute(&mut world), Ok(Vec::new()));
    assert!(!world.contains(2));
    assert_eq!(DamageAction::new(2, 1).execute(&mut world), Err(()));
}

#[test]
fn damage_beyond_the_health_floors_at_zero() {
    let mut world = World::new();
    assert!(world.spawn(player(2, 1, 1)));
    assert_eq!(DamageAction::new(2, u32::MAX).execute(&mut world), Ok(Vec::new()));
    assert!(!world.contains(2));
}

#[test]
fn damage_without_health_fails() {
    let mut world = World::new();
    assert!(world.spawn(piece(1, 0, 0)));
    assert_eq!(DamageAction::new(1, 1).execute(&mut world), Err(()));
    assert!(world.contains(1));
}

#[test]
fn candidates_are_tried_by_score_then_by_proposal() {
    let list = vec![
        (move_to(1, 0, 0), 30),
        (move_to(1, 1, 0), 90),
        (move_to(1, 2, 0), 90),
        (move_to(1, 3, 0), 10),
    ];
    assert_eq!(trial_order(&list), vec![1, 2, 0, 3]);
    assert_eq!(trial_order(&Vec::new()), Vec::<usize>::new());
}

#[test]
fn resolver_stops_at_the_first_candidate_that_succeeds() {
    // Scores [30, 90, 90, 10]: the candidate 1 is blocked, so 2 is executed.
    let mut world = world_with_board(8, 8);
    assert!(world.spawn(piece(1, 4, 4)));
    assert!(world.spawn(piece(5, 1, 0)));
    set_candidates(
        &mut world,
        1,
        vec![
            (move_to(1, 0, 0), 30),
            (move_to(1, 1, 0), 90),
            (move_to(1, 2, 0), 90),
            (move_to(1, 3, 0), 10),
        ],
    );
    world.queue = ActorQueue(VecDeque::from([1]));
    assert_eq!(
        process_action_queue(&mut world),
        Some(SchedulerSignal::NextActor(NextActorEvent))
    );
    assert_eq!(world.position(1), Some(Point::new(2, 0)));
    assert!(candidates(&world, 1).is_empty());
    assert!(world.queue.0.is_empty());

    // With 1 and 2 blocked, 0 is executed; with 0 blocked too, 3.
    let mut world = world_with_board(8, 8);
    assert!(world.spawn(piece(1, 4, 4)));
    assert!(world.spawn(piece(5, 1, 0)));
    assert!(world.spawn(piece(6, 2, 0)));
    let list = vec![
        (move_to(1, 0, 0), 30),
        (move_to(1, 1, 0), 90),
        (move_to(1, 2, 0), 90),
        (move_to(1, 3, 0), 10),
    ];
    set_candidates(&mut world, 1, list.clone());
    world.queue = ActorQueue(VecDeque::from([1]));
    process_action_queue(&mut world);
    assert_eq!(world.position(1), Some(Point::new(0, 0)));

    let mut world = world_with_board(8, 8);
    assert!(world.spawn(piece(1, 4, 4)));
    assert!(world.spawn(piece(5, 1, 0)));
    assert!(world.spawn(piece(6, 2, 0)));
    assert!(world.spawn(piece(7, 0, 0)));
    set_candidates(&mut world, 1, list);
    world.queue = ActorQueue(VecDeque::from([1]));
    process_action_queue(&mut world);
    assert_eq!(world.position(1), Some(Point::new(3, 0)));
}

#[test]
fn empty_queue_ends_the_cycle() {
    let mut world = world_with_board(4, 4);
    assert_eq!(
        process_action_queue(&mut world),
        Some(SchedulerSignal::ActionsComplete(ActionsCompleteEvent))
    );
}

#[test]
fn queued_entity_without_actor_is_skipped() {
    let mut world = world_with_board(4, 4);
    let mut entry = EntityEntry::new(1);
    entry.position = Some(Position { p: Point::new(0, 0) });
    assert!(world.spawn(entry));
    world.queue = ActorQueue(VecDeque::from([1, 9]));
    assert_eq!(process_action_queue(&mut world), None);
    assert_eq!(world.queue.0, VecDeque::from([9]));
    assert_eq!(process_action_queue(&mut world), None);
    assert!(world.queue.0.is_empty());
}

#[test]
fn entity_without_valid_candidates_passes() {
    let mut world = world_with_board(4, 4);
    assert!(world.spawn(npc(1, 0, 0, 1)));
    set_candidates(&mut world, 1, vec![(move_to(1, -1, 0), 50)]);
    world.queue = ActorQueue(VecDeque::from([1]));
    assert_eq!(
        process_action_queue(&mut world),
        Some(SchedulerSignal::NextActor(NextActorEvent))
    );
    assert_eq!(world.position(1), Some(Point::new(0, 0)));
    assert!(candidates(&world, 1).is_empty());
}

#[test]
fn invalid_player_move_is_reported_and_input_can_be_given_again() {
    // The only candidate leads off the board, beyond the surrounding wall.
    let mut world = world_with_board(4, 4);
    assert!(world.spawn(player(1, 0, 0)));
    assert_eq!(turnsim::input::handle_movement_keys(&mut world, &vec![Point::west()]), 1);
    assert_eq!(candidates(&world, 1), vec![(move_to(1, -1, 0), 0)]);
    assert_eq!(world.queue.0, VecDeque::from([1]));
    assert_eq!(
        process_action_queue(&mut world),
        Some(SchedulerSignal::InvalidPlayerAction(InvalidPlayerActionEvent))
    );
    assert_eq!(world.position(1), Some(Point::new(0, 0)));
    assert!(world.queue.0.is_empty());
    assert!(candidates(&world, 1).is_empty());
    assert!(world.pending.0.is_empty());
    // New input is taken at once.
    assert_eq!(turnsim::input::handle_movement_keys(&mut world, &vec![Point::east()]), 1);
    assert_eq!(
        process_action_queue(&mut world),
        Some(SchedulerSignal::NextActor(NextActorEvent))
    );
    assert_eq!(world.position(1), Some(Point::new(1, 0)));
}

#[test]
fn invalid_player_move_onto_a_held_cell_is_reported() {
    // The cell to the east is held by something that blocks.
    let mut world = world_with_board(4, 4);
    assert!(world.spawn(player(1, 1, 1)));
    let mut block = EntityEntry::new(2);
    block.position = Some(Position { p: Point::new(2, 1) });
    block.occupier = Some(TileOccupier);
    assert!(world.spawn(block));
    assert_eq!(turnsim::input::handle_movement_keys(&mut world, &vec![Point::east()]), 1);
    assert_eq!(candidates(&world, 1), vec![(move_to(1, 2, 1), 0)]);
    assert_eq!(
        process_action_queue(&mut world),
        Some(SchedulerSignal::InvalidPlayerAction(InvalidPlayerActionEvent))
    );
    assert_eq!(world.position(1), Some(Point::new(1, 1)));
    assert_eq!(world.position(2), Some(Point::new(2, 1)));
    assert!(world.queue.0.is_empty());
    assert!(candidates(&world, 1).is_empty());
    assert!(world.pending.0.is_empty());
    assert_eq!(turnsim::input::handle_movement_keys(&mut world, &vec![Point::north()]), 1);
    assert_eq!(
        process_action_queue(&mut world),
        Some(SchedulerSignal::NextActor(NextActorEvent))
    );
    assert_ne!(world.position(1), Some(Point::new(1, 1)));
}

#[test]
fn cascade_is_drained_before_the_queue_advances() {
    let mut world = world_with_board(8, 8);
    assert!(world.spawn(npc(1, 0, 0, 3)));
    assert!(world.spawn(player(2, 1, 1)));
    let mut second = EntityEntry::new(3);
    second.position = Some(Position { p: Point::new(1, 1) });
    second.health = Some(Health { value: 2 });
    assert!(world.spawn(second));
    assert!(world.spawn(npc(4, 5, 5, 1)));
    set_candidates(
        &mut world,
        1,
        vec![(
            Action::MeleeAttack(MeleeAttackAction {
                attacker: 1,
                target_pos: Point::new(1, 1),
                damage: 3,
            }),
            103,
        )],
    );
    world.queue = ActorQueue(VecDeque::from([1, 4]));
    // The attack is executed and leaves two damage actions.
    assert_eq!(
        process_action_queue(&mut world),
        Some(SchedulerSignal::NextActor(NextActorEvent))
    );
    assert_eq!(world.pending.0.len(), 2);
    assert_eq!(world.queue.0, VecDeque::from([4]));
    // The next step only drains: both are executed, the queue is not touched.
    assert_eq!(process_action_queue(&mut world), None);
    assert_eq!(world.queue.0, VecDeque::from([4]));
    assert!(world.pending.0.is_empty());
    assert_eq!(world.health(2), Some(7));
    assert!(!world.contains(3));
    // Nothing is pending now, so the queue advances.
    assert_eq!(
        process_action_queue(&mut world),
        Some(SchedulerSignal::NextActor(NextActorEvent))
    );
    assert!(world.queue.0.is_empty());
}

#[test]
fn drain_pass_reports_whether_anything_was_executed() {
    let mut world = world_with_board(8, 8);
    assert!(world.spawn(player(2, 1, 1)));
    assert!(!process_pending_actions(&mut world));
    world.pending = PendingActions(vec![Action::Damage(DamageAction::new(9, 1))]);
    assert!(!process_pending_actions(&mut world));
    assert!(world.pending.0.is_empty());
    world.pending = PendingActions(vec![
        Action::Damage(DamageAction::new(9, 1)),
        Action::Damage(DamageAction::new(2, 1)),
        Action::MeleeAttack(MeleeAttackAction {
            attacker: 2,
            target_pos: Point::new(1, 1),
            damage: 4,
        }),
    ]);
    assert!(process_pending_actions(&mut world));
    assert_eq!(world.health(2), Some(9));
    assert_eq!(world.pending.0, vec![Action::Damage(DamageAction::new(2, 4))]);
}

#[test]
fn walker_without_path_moves_towards_the_target() {
    // The walker stands outside the board: no path leads from it to the target.
    let mut world = world_with_board(8, 8);
    assert!(world.spawn(npc(1, 12, 3, 2)));
    assert!(world.spawn(player(2, 3, 3)));
    world.queue = ActorQueue(VecDeque::from([1]));
    plan_walk(&mut world);
    let list = candidates(&world, 1);
    assert_eq!(list.len(), 8);
    let expected: Vec<(Action, i32)> = Point::octant()
        .iter()
        .map(|d| {
            let cell = Point::new(12 + d.x, 3 + d.y);
            (move_to(1, cell.x, cell.y), MOVE_SCORE - Point::new(3, 3).dist_chebyshev(cell))
        })
        .collect();
    assert_eq!(list, expected);
    // Every move leads off the board, so the walker passes.
    assert_eq!(
        process_action_queue(&mut world),
        Some(SchedulerSignal::NextActor(NextActorEvent))
    );
    assert_eq!(world.position(1), Some(Point::new(12, 3)));
}

#[test]
fn walled_in_walker_takes_the_nearest_free_cell() {
    // The target is enclosed by blocking pieces, so there is no path; the walker
    // takes the first of the cells that end nearest to the target.
    let mut world = world_with_board(12, 12);
    assert!(world.spawn(npc(1, 8, 3, 2)));
    assert!(world.spawn(player(2, 3, 3)));
    let mut id = 10;
    for x in 1..=5 {
        for y in 1..=5 {
            let border = x == 1 || x == 5 || y == 1 || y == 5;
            if border {
                let mut wall = EntityEntry::new(id);
                wall.position = Some(Position { p: Point::new(x, y) });
                wall.occupier = Some(TileOccupier);
                assert!(world.spawn(wall));
                id += 1;
            }
        }
    }
    world.queue = ActorQueue(VecDeque::from([1]));
    plan_walk(&mut world);
    let list = candidates(&world, 1);
    assert_eq!(list.len(), 8);
    for (action, score) in &list {
        match action {
            Action::Move(m) => {
                assert_eq!(*score, MOVE_SCORE - Point::new(3, 3).dist_chebyshev(m.destination));
            }
            _ => panic!("a walker proposes moves only"),
        }
    }
    assert_eq!(
        process_action_queue(&mut world),
        Some(SchedulerSignal::NextActor(NextActorEvent))
    );
    // West, north-west and south-west all end at distance 4; west was proposed first.
    assert_eq!(world.position(1), Some(Point::new(7, 3)));
}

#[test]
fn walker_prefers_the_path() {
    let mut world = world_with_board(8, 8);
    assert!(world.spawn(npc(1, 5, 3, 2)));
    assert!(world.spawn(player(2, 2, 3)));
    world.queue = ActorQueue(VecDeque::from([1]));
    plan_walk(&mut world);
    let list = candidates(&world, 1);
    // The path runs (4, 4), (3, 4), (2, 3): at each cell the greatest neighbour
    // nearer to the start precedes.
    let on_path = Point::new(4, 4);
    for (action, score) in &list {
        match action {
            Action::Move(m) => {
                let base = MOVE_SCORE - Point::new(2, 3).dist_chebyshev(m.destination);
                if m.destination == on_path {
                    assert_eq!(*score, base + 5);
                } else {
                    assert_eq!(*score, base);
                }
            }
            _ => panic!("a walker proposes moves only"),
        }
    }
    process_action_queue(&mut world);
    assert_eq!(world.position(1), Some(on_path));
}

#[test]
fn fighter_next_to_the_target_attacks() {
    let mut world = world_with_board(8, 8);
    assert!(world.spawn(npc(1, 3, 3, 2)));
    assert!(world.spawn(player(2, 4, 4)));
    world.queue = ActorQueue(VecDeque::from([1]));
    plan_walk(&mut world);
    plan_melee(&mut world);
    let list = candidates(&world, 1);
    assert_eq!(list.len(), 9);
    assert_eq!(
        list[8],
        (
            Action::MeleeAttack(MeleeAttackAction {
                attacker: 1,
                target_pos: Point::new(4, 4),
                damage: 2
            }),
            PLAYER_ATTACK_SCORE + 2
        )
    );
    assert!(list[..8].iter().all(|c| c.1 < list[8].1));
    assert_eq!(
        process_action_queue(&mut world),
        Some(SchedulerSignal::NextActor(NextActorEvent))
    );
    assert_eq!(world.position(1), Some(Point::new(3, 3)));
    assert_eq!(world.pending.0, vec![Action::Damage(DamageAction::new(2, 2))]);
    assert_eq!(process_action_queue(&mut world), None);
    assert_eq!(world.health(2), Some(8));
}

#[test]
fn planners_skip_entities_they_do_not_apply_to() {
    let mut world = world_with_board(8, 8);
    assert!(world.spawn(piece(1, 3, 3)));
    assert!(world.spawn(player(2, 4, 4)));
    plan_walk(&mut world);
    plan_melee(&mut world);
    world.queue = ActorQueue(VecDeque::from([1]));
    plan_walk(&mut world);
    plan_melee(&mut world);
    assert!(candidates(&world, 1).is_empty());
    // Two players: no single target.
    assert!(world.spawn(npc(3, 0, 0, 1)));
    assert!(world.spawn(player(4, 6, 6)));
    world.queue = ActorQueue(VecDeque::from([3]));
    plan_walk(&mut world);
    plan_melee(&mut world);
    assert!(candidates(&world, 3).is_empty());
}

#[test]
fn queue_is_filled_with_the_actors_that_are_not_the_player() {
    let mut world = world_with_board(8, 8);
    assert!(world.spawn(player(1, 0, 0)));
    assert!(world.spawn(npc(2, 1, 1, 1)));
    assert!(world.spawn(EntityEntry::new(3)));
    assert!(world.spawn(npc(4, 2, 2, 1)));
    world.queue = ActorQueue(VecDeque::from([1]));
    populate_actor_queue(&mut world);
    assert_eq!(world.queue.0, VecDeque::from([1, 2, 4]));
    assert_eq!(world.queue.pop_front(), Some(1));
    assert_eq!(world.queue.0, VecDeque::from([2, 4]));
}

#[test]
fn spawn_refuses_a_used_identifier() {
    let mut world = World::new();
    assert!(world.spawn(piece(1, 0, 0)));
    assert!(!world.spawn(piece(1, 5, 5)));
    assert_eq!(world.position(1), Some(Point::new(0, 0)));
    assert!(world.despawn(1));
    assert!(!world.despawn(1));
    assert!(!world.contains(1));
}

#[test]
fn planners_tell_when_scores_do_not_fit() {
    let mut world = world_with_board(8, 8);
    assert!(can_plan_walk(&world) && can_plan_melee(&world));
    assert!(world.spawn(npc(1, 3, 3, 2)));
    assert!(world.spawn(player(2, 4, 4)));
    world.queue = ActorQueue(VecDeque::from([1]));
    assert!(can_plan_walk(&world) && can_plan_melee(&world));

    let mut far = world_with_board(8, 8);
    assert!(far.spawn(npc(1, i32::MAX, 0, 2)));
    assert!(far.spawn(player(2, 4, 4)));
    far.queue = ActorQueue(VecDeque::from([1]));
    assert!(!can_plan_walk(&far));
    // Only the entity at the front of the queue counts.
    far.queue = ActorQueue(VecDeque::from([2, 1]));
    assert!(can_plan_walk(&far));

    let mut apart = world_with_board(8, 8);
    assert!(apart.spawn(npc(1, i32::MIN + 1, 0, 2)));
    assert!(apart.spawn(player(2, i32::MAX - 1, 0)));
    apart.queue = ActorQueue(VecDeque::from([1]));
    assert!(!can_plan_walk(&apart));

    let mut strong = world_with_board(8, 8);
    assert!(strong.spawn(npc(1, 0, 0, i32::MAX as u32 - 99)));
    assert!(strong.spawn(player(2, 4, 4)));
    strong.queue = ActorQueue(VecDeque::from([1]));
    assert!(!can_plan_melee(&strong));
    let mut limit = world_with_board(8, 8);
    assert!(limit.spawn(npc(1, 0, 0, i32::MAX as u32 - 100)));
    assert!(limit.spawn(player(2, 4, 4)));
    limit.queue = ActorQueue(VecDeque::from([1]));
    assert!(can_plan_melee(&limit));
    plan_melee(&mut limit);
    assert_eq!(candidates(&limit, 1)[0].1, i32::MAX);

    let mut flat = World::new();
    flat.board = Some(Board::default());
    assert!(can_plan_walk(&flat));
    let mut broken = Board::default();
    broken.width = 1;
    flat.board = Some(broken);
    assert!(!can_plan_walk(&flat));
}

#[test]
fn turn_of_a_single_entity() {
    let mut world = world_with_board(8, 8);
    assert!(world.spawn(npc(1, 3, 3, 2)));
    set_candidates(&mut world, 1, vec![(move_to(1, 9, 9), 5), (move_to(1, 4, 3), 1)]);
    assert_eq!(resolve_turn(&mut world, 7), None);
    assert_eq!(
        resolve_turn(&mut world, 1),
        Some(SchedulerSignal::NextActor(NextActorEvent))
    );
    assert_eq!(world.position(1), Some(Point::new(4, 3)));
    assert!(candidates(&world, 1).is_empty());
    assert_eq!(PATH_BONUS, 5);
}
