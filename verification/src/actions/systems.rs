//! The scheduler's step and the planners.

use vstd::prelude::*;
use std::collections::VecDeque;
use crate::actions::models::{MeleeAttackAction, MoveToAction};
use crate::actions::{
    Action, ActionsCompleteEvent, InvalidPlayerActionEvent, NextActorEvent, SchedulerSignal,
};
use crate::pathfind::{path_astar, Maze};
use crate::point::{spec_chebyshev, spec_octant, spec_offset, spec_offset_fits, Point};
use crate::world::{lemma_find_same_ids, Entity, EntityView, World, WorldView};

verus! {

/// The base score of a move.
pub const MOVE_SCORE: i32 = 50;

/// The base score of an attack.
pub const PLAYER_ATTACK_SCORE: i32 = 100;

/// What a move gains by leading along the shortest path to the target.
pub const PATH_BONUS: i32 = 5;

/// The scores of the candidates, in the order of proposal.
pub open spec fn scores_of(candidates: Seq<(Action, i32)>) -> Seq<i32> {
    candidates.map_values(|c: (Action, i32)| c.1)
}

/// `order` with the candidate `i` put behind every candidate whose score is
/// at least as high as its own.
pub open spec fn insert_by_score(order: Seq<int>, scores: Seq<i32>, i: int) -> Seq<int>
    decreases order.len(),
{
    if order.len() == 0 {
        seq![i]
    } else if scores[order.last()] >= scores[i] {
        order.push(i)
    } else {
        insert_by_score(order.drop_last(), scores, i).push(order.last())
    }
}

/// The order in which the first `n` candidates are tried.
pub open spec fn trial_order_upto(scores: Seq<i32>, n: int) -> Seq<int>
    decreases n,
{
    if n <= 0 {
        Seq::empty()
    } else {
        insert_by_score(trial_order_upto(scores, n - 1), scores, n - 1)
    }
}

/// The order in which candidates with these scores are tried, as places in
/// the list of proposals: highest score first, and among equal scores the
/// earlier proposal first.
pub open spec fn spec_trial_order(scores: Seq<i32>) -> Seq<int> {
    trial_order_upto(scores, scores.len() as int)
}

/// The first candidate from place `k` of `order` on that is valid in `w`, as a
/// place in the list of proposals.
pub open spec fn first_valid(
    w: WorldView,
    candidates: Seq<(Action, i32)>,
    order: Seq<int>,
    k: int,
) -> Option<int>
    decreases order.len() - k,
{
    if k < 0 || k >= order.len() {
        None
    } else if candidates[order[k]].0.valid(w) {
        Some(order[k])
    } else {
        first_valid(w, candidates, order, k + 1)
    }
}

/// The candidate that is executed in `w`: the first valid one in trial
/// order.
pub open spec fn chosen(w: WorldView, candidates: Seq<(Action, i32)>) -> Option<int> {
    first_valid(w, candidates, spec_trial_order(scores_of(candidates)), 0)
}

/// The state after the first `n` of `actions` have been tried in order on
/// `w`: the world, the follow-ups collected from those that succeeded, and
/// whether any succeeded.
pub open spec fn drained_upto(w: WorldView, actions: Seq<Action>, n: int) -> (
    WorldView,
    Seq<Action>,
    bool,
)
    decreases n,
{
    if n <= 0 {
        (w, Seq::empty(), false)
    } else {
        let before = drained_upto(w, actions, n - 1);
        let action = actions[n - 1];
        if action.valid(before.0) {
            (action.apply(before.0), before.1 + action.follow_ups(before.0), true)
        } else {
            before
        }
    }
}

/// One pass over the cascade worklist: every pending action is tried once,
/// in order, and the worklist is replaced by the follow-ups of those that
/// succeeded. The flag tells whether any succeeded.
pub open spec fn spec_drain(w: WorldView) -> (WorldView, bool) {
    let d = drained_upto(
        WorldView { pending: Seq::empty(), ..w },
        w.pending,
        w.pending.len() as int,
    );
    (WorldView { pending: d.1, ..d.0 }, d.2)
}

/// The turn of the entity `e` in `w`: its candidates are taken from it, and
/// the first valid one in trial order is executed. Where none is valid the
/// human is told so, and any other entity simply passes.
pub open spec fn spec_resolve(w: WorldView, e: Entity) -> (WorldView, Option<SchedulerSignal>) {
    match w.actor_of(e) {
        None => (w, None),
        Some(candidates) => {
            let cleared = w.with_actor(e, Seq::empty());
            match chosen(cleared, candidates) {
                Some(k) => (
                    WorldView {
                        pending: candidates[k].0.follow_ups(cleared),
                        ..candidates[k].0.apply(cleared)
                    },
                    Some(SchedulerSignal::NextActor(NextActorEvent)),
                ),
                None => (
                    cleared,
                    Some(
                        if cleared.is_player(e) {
                            SchedulerSignal::InvalidPlayerAction(InvalidPlayerActionEvent)
                        } else {
                            SchedulerSignal::NextActor(NextActorEvent)
                        },
                    ),
                ),
            }
        },
    }
}

/// One step of the scheduler. A step in which a pending action succeeds does
/// nothing else. Otherwise the front of the queue is taken and has its
/// turn; an empty queue ends the tick cycle.
pub open spec fn spec_process(w: WorldView) -> (WorldView, Option<SchedulerSignal>) {
    let d = spec_drain(w);
    if d.1 {
        (d.0, None)
    } else if d.0.queue.len() == 0 {
        (d.0, Some(SchedulerSignal::ActionsComplete(ActionsCompleteEvent)))
    } else {
        spec_resolve(WorldView { queue: d.0.queue.drop_first(), ..d.0 }, d.0.queue[0])
    }
}

/// The order in which the candidates are tried: by score, highest first, and
/// among equal scores in the order of proposal.
pub fn trial_order(candidates: &Vec<(Action, i32)>) -> (order: Vec<usize>)
    ensures
        order@.len() == candidates@.len(),
        order@.map_values(|i: usize| i as int) == spec_trial_order(scores_of(candidates@)),
        forall|k: int| 0 <= k < order@.len() ==> 0 <= #[trigger] order@[k] < candidates@.len(),
{
    let ghost scores = scores_of(candidates@);
    let mut order: Vec<usize> = Vec::new();
    let mut i: usize = 0;
    while i < candidates.len()
        invariant
            i <= candidates.len(),
            scores == scores_of(candidates@),
            order@.len() == i,
            order@.map_values(|i: usize| i as int) == trial_order_upto(scores, i as int),
            forall|k: int| 0 <= k < order@.len() ==> 0 <= #[trigger] order@[k] < i,
        decreases candidates.len() - i,
    {
        let score = candidates[i].1;
        let ghost before = order@.map_values(|i: usize| i as int);
        let mut pos: usize = order.len();
        proof {
            assert(before.subrange(0, pos as int) =~= before);
            assert(before + before.subrange(pos as int, before.len() as int) =~= before);
            assert(insert_by_score(before, scores, i as int) + before.subrange(
                pos as int,
                before.len() as int,
            ) =~= insert_by_score(before, scores, i as int));
        }
        while pos > 0 && candidates[order[pos - 1]].1 < score
            invariant
                pos <= order.len(),
                i < candidates.len(),
                scores == scores_of(candidates@),
                score == scores[i as int],
                before == order@.map_values(|i: usize| i as int),
                forall|k: int| 0 <= k < order@.len() ==> 0 <= #[trigger] order@[k] < i,
                insert_by_score(before, scores, i as int) == insert_by_score(
                    before.subrange(0, pos as int),
                    scores,
                    i as int,
                ) + before.subrange(pos as int, before.len() as int),
            decreases pos,
        {
            proof {
                let head = before.subrange(0, pos as int);
                assert(head.last() == before[pos - 1]);
                assert(head.drop_last() =~= before.subrange(0, pos - 1));
                assert(scores[head.last()] == candidates@[order@[pos - 1] as int].1);
                assert(insert_by_score(head, scores, i as int) == insert_by_score(
                    before.subrange(0, pos - 1),
                    scores,
                    i as int,
                ).push(before[pos - 1]));
                assert(insert_by_score(before.subrange(0, pos - 1), scores, i as int).push(
                    before[pos - 1],
                ) + before.subrange(pos as int, before.len() as int) =~= insert_by_score(
                    before.subrange(0, pos - 1),
                    scores,
                    i as int,
                ) + before.subrange(pos - 1, before.len() as int));
            }
            pos = pos - 1;
        }
        proof {
            let head = before.subrange(0, pos as int);
            if pos > 0 {
                assert(head.last() == before[pos - 1]);
                assert(scores[head.last()] == candidates@[order@[pos - 1] as int].1);
            }
            assert(insert_by_score(head, scores, i as int) == head.push(i as int));
            assert(head.push(i as int) + before.subrange(pos as int, before.len() as int)
                =~= before.insert(pos as int, i as int));
        }
        order.insert(pos, i);
        proof {
            assert(order@.map_values(|i: usize| i as int) =~= before.insert(pos as int, i as int));
        }
        i = i + 1;
    }
    order
}

/// Tries every pending action once, in order, and replaces the worklist by
/// the follow-ups of those that succeeded. Tells whether any succeeded.
pub fn process_pending_actions(world: &mut World) -> (executed: bool)
    ensures
        final(world)@ == spec_drain(old(world)@).0,
        executed == spec_drain(old(world)@).1,
        old(world)@.wf() ==> final(world)@.wf(),
{
    let mut pending: Vec<Action> = Vec::new();
    std::mem::swap(&mut world.pending.0, &mut pending);
    let ghost start = world@;
    assert(start == (WorldView { pending: Seq::empty(), ..old(world)@ }));
    let mut next: Vec<Action> = Vec::new();
    let mut success = false;
    let mut i: usize = 0;
    while i < pending.len()
        invariant
            i <= pending.len(),
            drained_upto(start, pending@, i as int) == (world@, next@, success),
            start.wf() ==> world@.wf(),
        decreases pending.len() - i,
    {
        match pending[i].execute(world) {
            Ok(mut result) => {
                next.append(&mut result);
                success = true;
            },
            Err(_) => {},
        }
        i = i + 1;
    }
    let ghost drained = world@;
    world.pending.0 = next;
    proof {
        assert(world@ == (WorldView { pending: next@, ..drained }));
    }
    success
}

/// The turn of the entity `e`: takes its candidates and executes the first
/// valid one in trial order.
pub fn resolve_turn(world: &mut World, e: Entity) -> (signal: Option<SchedulerSignal>)
    ensures
        final(world)@ == spec_resolve(old(world)@, e).0,
        signal == spec_resolve(old(world)@, e).1,
        old(world)@.wf() ==> final(world)@.wf(),
{
    let i = match world.find(e) {
        Some(i) => i,
        None => {
            return None;
        },
    };
    if world.entities[i].actor.is_none() {
        return None;
    }
    let mut candidates: Vec<(Action, i32)> = Vec::new();
    match &mut world.entities[i].actor {
        Some(actor) => {
            std::mem::swap(&mut actor.0, &mut candidates);
        },
        None => {},
    }
    let ghost cleared = world@;
    proof {
        let before = old(world)@;
        assert(cleared.entities =~= before.entities.update(
            i as int,
            EntityView { actor: Some(Seq::empty()), ..before.entities[i as int] },
        ));
        assert(cleared == before.with_actor(e, Seq::empty()));
        assert(candidates@ == before.actor_of(e)->0);
        lemma_find_same_ids(before, cleared, e);
        if before.wf() {
            assert(cleared.wf());
        }
    }
    let order = trial_order(&candidates);
    let ghost spec_order = spec_trial_order(scores_of(candidates@));
    let mut k: usize = 0;
    while k < order.len()
        invariant
            k <= order.len(),
            world@ == cleared,
            cleared == old(world)@.with_actor(e, Seq::empty()),
            old(world)@.actor_of(e) == Some(candidates@),
            old(world)@.wf() ==> cleared.wf(),
            spec_order == spec_trial_order(scores_of(candidates@)),
            order@.len() == candidates@.len(),
            order@.map_values(|i: usize| i as int) == spec_order,
            forall|j: int| 0 <= j < order@.len() ==> 0 <= #[trigger] order@[j] < candidates@.len(),
            first_valid(cleared, candidates@, spec_order, 0) == first_valid(
                cleared,
                candidates@,
                spec_order,
                k as int,
            ),
        decreases order.len() - k,
    {
        let place = order[k];
        assert(spec_order[k as int] == place as int);
        match candidates[place].0.execute(world) {
            Ok(result) => {
                let ghost applied = world@;
                world.pending.0 = result;
                proof {
                    assert(world@ == (WorldView { pending: result@, ..applied }));
                    assert(first_valid(cleared, candidates@, spec_order, k as int) == Some(
                        place as int,
                    ));
                    assert(chosen(cleared, candidates@) == Some(place as int));
                }
                return Some(SchedulerSignal::NextActor(NextActorEvent));
            },
            Err(_) => {
                assert(first_valid(cleared, candidates@, spec_order, k as int) == first_valid(
                    cleared,
                    candidates@,
                    spec_order,
                    k + 1,
                ));
            },
        }
        k = k + 1;
    }
    proof {
        assert(first_valid(cleared, candidates@, spec_order, k as int) is None);
        assert(chosen(cleared, candidates@) is None);
    }
    if world.is_player(e) {
        Some(SchedulerSignal::InvalidPlayerAction(InvalidPlayerActionEvent))
    } else {
        Some(SchedulerSignal::NextActor(NextActorEvent))
    }
}

/// One step of the scheduler. Pending actions come first: if any of them
/// succeeds, the step ends there and the queue is not touched. Otherwise the
/// entity at the front of the queue has its turn.
pub fn process_action_queue(world: &mut World) -> (signal: Option<SchedulerSignal>)
    ensures
        final(world)@ == spec_process(old(world)@).0,
        signal == spec_process(old(world)@).1,
        old(world)@.wf() ==> final(world)@.wf(),
{
    if process_pending_actions(world) {
        return None;
    }
    let ghost drained = world@;
    let entity = match world.queue.pop_front() {
        Some(entity) => entity,
        None => {
            return Some(SchedulerSignal::ActionsComplete(ActionsCompleteEvent));
        },
    };
    proof {
        assert(world@ == (WorldView { queue: drained.queue.drop_first(), ..drained }));
    }
    resolve_turn(world, entity)
}

/// The entities among the first `n` entries that take turns on their own:
/// the actors that are not the human's.
pub open spec fn actors_upto(entities: Seq<EntityView>, n: int) -> Seq<Entity>
    decreases n,
{
    if n <= 0 {
        Seq::empty()
    } else {
        let before = actors_upto(entities, n - 1);
        if entities[n - 1].actor is Some && !entities[n - 1].player {
            before.push(entities[n - 1].id)
        } else {
            before
        }
    }
}

/// Puts every actor that is not the human's at the back of the queue, in
/// the order of the world's entries.
pub fn populate_actor_queue(world: &mut World)
    ensures
        final(world)@ == (WorldView {
            queue: old(world)@.queue + actors_upto(
                old(world)@.entities,
                old(world)@.entities.len() as int,
            ),
            ..old(world)@
        }),
{
    let mut i: usize = 0;
    while i < world.entities.len()
        invariant
            i <= world.entities.len(),
            world@ == (WorldView {
                queue: old(world)@.queue + actors_upto(old(world)@.entities, i as int),
                ..old(world)@
            }),
        decreases world.entities.len() - i,
    {
        let ghost before = world@;
        assert(world@.entities[i as int] == world.entities[i as int]@);
        if world.entities[i].actor.is_some() && world.entities[i].player.is_none() {
            let id = world.entities[i].id;
            world.queue.0.push_back(id);
            proof {
                assert(world@.queue =~= old(world)@.queue + actors_upto(
                    old(world)@.entities,
                    i + 1,
                ));
            }
        }
        i = i + 1;
    }
}

/// Who plans a walk, from where, and towards which cell: the entity at the
/// front of the queue, if it is a walker with a position that can hold
/// candidates, and the cell of the human's entity, if there is exactly one.
pub open spec fn walk_subject(w: WorldView) -> Option<(Entity, Point, Point)> {
    if w.queue.len() > 0 && w.find(w.queue[0]) is Some {
        let entry = w.entities[w.find(w.queue[0])->0];
        if entry.position is Some && entry.actor is Some && entry.walker
            && w.single_player_position() is Some {
            Some((w.queue[0], entry.position->0, w.single_player_position()->0))
        } else {
            None
        }
    } else {
        None
    }
}

/// What the walker's search runs on: every cell of the board, whatever its
/// tile, and the cells that entities block.
pub open spec fn walk_maze(w: WorldView, pos: Point, target: Point) -> Maze {
    Maze {
        start: pos,
        end: target,
        tiles: match w.board {
            Some(board) => board.points().to_set(),
            None => Set::empty(),
        },
        blockers: w.blockers().to_set(),
    }
}

/// The score of a move to `cell`: the base score, less the Chebyshev
/// distance from `cell` to the target, plus the bonus where `cell` lies on
/// the path.
pub open spec fn walk_score(path: Option<Seq<Point>>, target: Point, cell: Point) -> int {
    MOVE_SCORE - spec_chebyshev(target, cell) + (if path matches Some(cells) && cells.contains(cell) {
        PATH_BONUS as int
    } else {
        0
    })
}

/// The walker's candidate for the direction `k`.
pub open spec fn walk_candidate(w: WorldView, e: Entity, pos: Point, target: Point, k: int) -> (
    Action,
    i32,
) {
    let cell = spec_offset(pos, spec_octant()[k]);
    (
        Action::Move(MoveToAction { entity: e, destination: cell }),
        walk_score(walk_maze(w, pos, target).path(), target, cell) as i32,
    )
}

/// The walker's eight candidates, one for each direction.
pub open spec fn walk_candidates(w: WorldView, e: Entity, pos: Point, target: Point) -> Seq<
    (Action, i32),
> {
    Seq::new(8, |k: int| walk_candidate(w, e, pos, target, k))
}

/// Whether the walker's neighbours and their distances to the target can be
/// told in 32 bits.
pub open spec fn walk_fits(pos: Point, target: Point) -> bool {
    forall|k: int|
        0 <= k < 8 ==> spec_offset_fits(pos, #[trigger] spec_octant()[k]) && spec_chebyshev(
            target,
            spec_offset(pos, spec_octant()[k]),
        ) <= i32::MAX
}

/// Whether the walker can plan: a board that exists is well formed, and the
/// scores of the walker's moves can be told in 32 bits.
pub open spec fn plan_walk_ready(w: WorldView) -> bool {
    &&& w.board matches Some(board) ==> board.wf()
    &&& walk_subject(w) matches Some((e, pos, target)) ==> walk_fits(pos, target)
}

/// The world after the walker at the front of the queue has planned.
pub open spec fn spec_plan_walk(w: WorldView) -> WorldView {
    match walk_subject(w) {
        Some((e, pos, target)) => w.with_actor(
            e,
            w.actor_of(e)->0 + walk_candidates(w, e, pos, target),
        ),
        None => w,
    }
}

fn deque_contains(cells: &VecDeque<Point>, p: Point) -> (b: bool)
    ensures
        b == cells@.contains(p),
{
    let mut i: usize = 0;
    while i < cells.len()
        invariant
            i <= cells.len(),
            forall|t: int| 0 <= t < i ==> cells@[t] != p,
        decreases cells.len() - i,
    {
        if cells[i] == p {
            return true;
        }
        i = i + 1;
    }
    false
}

/// Who plans a walk, with its place among the entries.
fn find_walk_subject(world: &World) -> (subject: Option<(usize, Entity, Point, Point)>)
    ensures
        match subject {
            Some((i, e, pos, target)) => walk_subject(world@) == Some((e, pos, target))
                && world@.find(e) == Some(i as int) && i < world.entities.len(),
            None => walk_subject(world@) is None,
        },
{
    if world.queue.0.len() == 0 {
        return None;
    }
    let e = world.queue.0[0];
    let i = match world.find(e) {
        Some(i) => i,
        None => {
            return None;
        },
    };
    let pos = match &world.entities[i].position {
        Some(position) => position.p,
        None => {
            return None;
        },
    };
    if world.entities[i].actor.is_none() || world.entities[i].walker.is_none() {
        return None;
    }
    match world.single_player_position() {
        Some(target) => Some((i, e, pos, target)),
        None => None,
    }
}

/// Whether the walker can plan. Where this holds, [`plan_walk`] may be
/// called.
pub fn can_plan_walk(world: &World) -> (ready: bool)
    ensures
        ready == plan_walk_ready(world@),
{
    let board_ok = match &world.board {
        Some(board) => board.is_wf(),
        None => true,
    };
    if !board_ok {
        return false;
    }
    match find_walk_subject(world) {
        None => true,
        Some((_, _, pos, target)) => {
            let dirs = Point::octant();
            let mut fits = true;
            let mut k: usize = 0;
            while k < 8
                invariant
                    k <= 8,
                    dirs@ == spec_octant(),
                    fits <==> forall|t: int|
                        0 <= t < k ==> spec_offset_fits(pos, #[trigger] spec_octant()[t])
                            && spec_chebyshev(target, spec_offset(pos, spec_octant()[t]))
                            <= i32::MAX,
                decreases 8 - k,
            {
                match pos.checked_offset(dirs[k]) {
                    Some(cell) => {
                        if !target.within_chebyshev(cell, i32::MAX as u32) {
                            fits = false;
                        }
                    },
                    None => {
                        fits = false;
                    },
                }
                k = k + 1;
            }
            fits
        },
    }
}

/// Proposes a move to each of the eight neighbouring cells for the walker at
/// the front of the queue. A move scores the less the farther it ends from
/// the human's entity, and gains the bonus where it follows the shortest
/// path to that entity; where there is no path, no move gains it.
pub fn plan_walk(world: &mut World)
    requires
        plan_walk_ready(old(world)@),
    ensures
        final(world)@ == spec_plan_walk(old(world)@),
        old(world)@.wf() ==> final(world)@.wf(),
{
    let (i, e, pos, target) = match find_walk_subject(world) {
        Some(subject) => subject,
        None => {
            return ;
        },
    };
    let ghost w = world@;
    assert(walk_subject(w) == Some((e, pos, target)));
    let tiles = match &world.board {
        Some(board) => board.iter_points(),
        None => Vec::new(),
    };
    let blockers = world.blockers();
    let path = path_astar(pos, target, &tiles, &blockers);
    let ghost spec_path = walk_maze(w, pos, target).path();
    proof {
        if w.board is None {
            assert(tiles@.to_set() =~= Set::<Point>::empty());
        }
        assert(crate::pathfind::spec_maze(pos, target, tiles@, blockers@) == walk_maze(
            w,
            pos,
            target,
        ));
    }
    let dirs = Point::octant();
    let mut actions: Vec<(Action, i32)> = Vec::new();
    let mut k: usize = 0;
    while k < 8
        invariant
            k <= 8,
            dirs@ == spec_octant(),
            walk_fits(pos, target),
            spec_path == walk_maze(w, pos, target).path(),
            match path {
                Some(cells) => spec_path == Some(cells@),
                None => spec_path is None,
            },
            actions@.len() == k,
            forall|t: int| 0 <= t < k ==> actions@[t] == walk_candidate(w, e, pos, target, t),
        decreases 8 - k,
    {
        assert(spec_offset_fits(pos, spec_octant()[k as int]));
        let cell = Point::new(pos.x + dirs[k].x, pos.y + dirs[k].y);
        let dist = target.dist_chebyshev(cell);
        let on_path = match &path {
            Some(cells) => deque_contains(cells, cell),
            None => false,
        };
        let score = if on_path {
            MOVE_SCORE - dist + PATH_BONUS
        } else {
            MOVE_SCORE - dist
        };
        actions.push((Action::Move(MoveToAction::new(e, cell)), score));
        k = k + 1;
    }
    proof {
        assert(actions@ =~= walk_candidates(w, e, pos, target));
    }
    let ghost added = actions@;
    match &mut world.entities[i].actor {
        Some(actor) => {
            actor.0.append(&mut actions);
        },
        None => {},
    }
    proof {
        assert(world@.entities =~= w.entities.update(
            i as int,
            EntityView { actor: Some(w.actor_of(e)->0 + added), ..w.entities[i as int] },
        ));
    }
}

/// Who plans an attack, how hard it hits, and which cell it strikes: the
/// entity at the front of the queue, if it is a fighter that can hold
/// candidates, and the cell of the human's entity, if there is exactly one.
pub open spec fn melee_subject(w: WorldView) -> Option<(Entity, u32, Point)> {
    if w.queue.len() > 0 && w.find(w.queue[0]) is Some {
        let entry = w.entities[w.find(w.queue[0])->0];
        if entry.actor is Some && entry.strength is Some && w.single_player_position() is Some {
            Some((w.queue[0], entry.strength->0, w.single_player_position()->0))
        } else {
            None
        }
    } else {
        None
    }
}

/// Whether the fighter can plan: the score of its attack can be told in 32
/// bits.
pub open spec fn plan_melee_ready(w: WorldView) -> bool {
    melee_subject(w) matches Some((e, strength, target)) ==> PLAYER_ATTACK_SCORE + strength
        <= i32::MAX
}

/// The world after the fighter at the front of the queue has planned: it has
/// one more candidate, an attack on the human's cell that does as much
/// damage as the fighter is strong and scores the base score of an attack
/// plus that strength.
pub open spec fn spec_plan_melee(w: WorldView) -> WorldView {
    match melee_subject(w) {
        Some((e, strength, target)) => w.with_actor(
            e,
            w.actor_of(e)->0.push(
                (
                    Action::MeleeAttack(
                        MeleeAttackAction { attacker: e, target_pos: target, damage: strength },
                    ),
                    (PLAYER_ATTACK_SCORE + strength) as i32,
                ),
            ),
        ),
        None => w,
    }
}

/// Who plans an attack, with its place among the entries.
fn find_melee_subject(world: &World) -> (subject: Option<(usize, Entity, u32, Point)>)
    ensures
        match subject {
            Some((i, e, strength, target)) => melee_subject(world@) == Some((e, strength, target))
                && world@.find(e) == Some(i as int) && i < world.entities.len(),
            None => melee_subject(world@) is None,
        },
{
    if world.queue.0.len() == 0 {
        return None;
    }
    let e = world.queue.0[0];
    let i = match world.find(e) {
        Some(i) => i,
        None => {
            return None;
        },
    };
    let strength = match &world.entities[i].fighter {
        Some(fighter) => fighter.strength,
        None => {
            return None;
        },
    };
    if world.entities[i].actor.is_none() {
        return None;
    }
    match world.single_player_position() {
        Some(target) => Some((i, e, strength, target)),
        None => None,
    }
}

/// Whether the fighter can plan. Where this holds, [`plan_melee`] may be
/// called.
pub fn can_plan_melee(world: &World) -> (ready: bool)
    ensures
        ready == plan_melee_ready(world@),
{
    match find_melee_subject(world) {
        None => true,
        Some((_, _, strength, _)) => strength as u64 + PLAYER_ATTACK_SCORE as u64 <= i32::MAX as u64,
    }
}

/// Proposes one attack on the cell of the human's entity for the fighter at
/// the front of the queue.
pub fn plan_melee(world: &mut World)
    requires
        plan_melee_ready(old(world)@),
    ensures
        final(world)@ == spec_plan_melee(old(world)@),
        old(world)@.wf() ==> final(world)@.wf(),
{
    let (i, e, strength, target) = match find_melee_subject(world) {
        Some(subject) => subject,
        None => {
            return ;
        },
    };
    let ghost w = world@;
    assert(melee_subject(w) == Some((e, strength, target)));
    let action = Action::MeleeAttack(
        MeleeAttackAction { attacker: e, target_pos: target, damage: strength },
    );
    let score = PLAYER_ATTACK_SCORE + strength as i32;
    match &mut world.entities[i].actor {
        Some(actor) => {
            actor.0.push((action, score));
        },
        None => {},
    }
    proof {
        assert(world@.entities =~= w.entities.update(
            i as int,
            EntityView { actor: Some(w.actor_of(e)->0.push((action, score))), ..w.entities[i as int] },
        ));
    }
}

} // verus!
