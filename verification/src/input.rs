//! The human's input, as far as the turns are concerned: a direction becomes
//! one candidate move of the human's entity.

use vstd::prelude::*;
use std::collections::VecDeque;
use crate::actions::models::MoveToAction;
use crate::actions::Action;
use crate::point::{spec_offset, spec_offset_fits, Point};
use crate::world::{EntityView, World, WorldView};

verus! {

/// The human's input has been turned into a candidate.
#[derive(Clone, Copy, Debug, PartialEq, Eq, Structural)]
pub struct PlayerInputReadyEvent;

/// The world after the directions have been taken as input, one after the
/// other: the human's entity holds a single candidate, a move by the last
/// direction with the score 0, and is alone in the queue. Without directions,
/// or unless exactly one entity is the human's, stands somewhere and can hold
/// candidates, nothing changes.
pub open spec fn spec_handle_movement_keys(w: WorldView, pressed: Seq<Point>) -> WorldView {
    match w.single_player(true) {
        Some(i) => if pressed.len() > 0 {
            let entry = w.entities[i];
            let cell = spec_offset(entry.position->0, pressed.last());
            WorldView {
                entities: w.entities.update(
                    i,
                    EntityView {
                        actor: Some(
                            seq![
                                (
                                    Action::Move(
                                        MoveToAction { entity: entry.id, destination: cell },
                                    ),
                                    0i32,
                                ),
                            ],
                        ),
                        ..entry
                    },
                ),
                queue: seq![entry.id],
                ..w
            }
        } else {
            w
        },
        None => w,
    }
}

/// Whether the directions can be taken as input: each of them leads from the
/// cell of the human's entity to a cell whose coordinates can be told in 32
/// bits.
pub open spec fn movement_keys_ready(w: WorldView, pressed: Seq<Point>) -> bool {
    forall|i: int, k: int|
        w.single_player(true) == Some(i) && 0 <= i < w.entities.len() && 0 <= k < pressed.len()
            ==> spec_offset_fits((#[trigger] w.entities[i]).position->0, #[trigger] pressed[k])
}

/// Whether the directions can be taken as input. Where this holds,
/// [`handle_movement_keys`] may be called.
pub fn can_handle_movement_keys(world: &World, pressed: &Vec<Point>) -> (ready: bool)
    ensures
        ready == movement_keys_ready(world@, pressed@),
{
    let i = match world.single_player(true) {
        Some(i) => i,
        None => {
            return true;
        },
    };
    let pos = match &world.entities[i].position {
        Some(position) => position.p,
        None => {
            return true;
        },
    };
    let mut fits = true;
    let mut k: usize = 0;
    while k < pressed.len()
        invariant
            k <= pressed.len(),
            i < world.entities.len(),
            world@.single_player(true) == Some(i as int),
            world@.entities[i as int].position == Some(pos),
            fits <==> forall|t: int| 0 <= t < k ==> spec_offset_fits(pos, #[trigger] pressed@[t]),
        decreases pressed.len() - k,
    {
        if pos.checked_offset(pressed[k]).is_none() {
            fits = false;
        }
        k = k + 1;
    }
    proof {
        if fits {
            assert forall|j: int, t: int|
                world@.single_player(true) == Some(j) && 0 <= j < world@.entities.len() && 0 <= t
                    < pressed@.len() implies spec_offset_fits(
                (#[trigger] world@.entities[j]).position->0,
                #[trigger] pressed@[t],
            ) by {}
        } else {
            let t = choose|t: int| 0 <= t < k && !spec_offset_fits(pos, #[trigger] pressed@[t]);
            assert(!spec_offset_fits(world@.entities[i as int].position->0, pressed@[t]));
        }
    }
    fits
}

/// Takes the directions whose keys were pressed, in the order of the key
/// map, as the human's input, and tells how often input was accepted.
pub fn handle_movement_keys(world: &mut World, pressed: &Vec<Point>) -> (accepted: usize)
    requires
        movement_keys_ready(old(world)@, pressed@),
    ensures
        final(world)@ == spec_handle_movement_keys(old(world)@, pressed@),
        accepted == (if old(world)@.single_player(true) is Some {
            pressed@.len()
        } else {
            0
        }),
        old(world)@.wf() ==> final(world)@.wf(),
{
    let i = match world.single_player(true) {
        Some(i) => i,
        None => {
            return 0;
        },
    };
    let ghost w = world@;
    let entity = world.entities[i].id;
    let pos = match &world.entities[i].position {
        Some(position) => position.p,
        None => {
            return 0;
        },
    };
    let mut k: usize = 0;
    while k < pressed.len()
        invariant
            k <= pressed.len(),
            i < w.entities.len(),
            w.single_player(true) == Some(i as int),
            w.entities[i as int].id == entity,
            w.entities[i as int].position == Some(pos),
            w.entities[i as int].actor is Some,
            forall|t: int| 0 <= t < pressed@.len() ==> spec_offset_fits(pos, #[trigger] pressed@[t]),
            world@ == spec_handle_movement_keys(w, pressed@.subrange(0, k as int)),
            w.wf() ==> world@.wf(),
        decreases pressed.len() - k,
    {
        let dir = pressed[k];
        assert(spec_offset_fits(pos, pressed@[k as int]));
        let cell = Point::new(pos.x + dir.x, pos.y + dir.y);
        let mut candidates: Vec<(Action, i32)> = Vec::new();
        candidates.push((Action::Move(MoveToAction::new(entity, cell)), 0));
        let mut queue: VecDeque<u64> = VecDeque::new();
        queue.push_back(entity);
        let ghost before = world@;
        proof {
            let earlier = pressed@.subrange(0, k as int);
            assert(earlier.len() == k);
            if k == 0 {
                assert(before == w);
            }
            assert(before.entities.len() == w.entities.len());
            assert(before.entities[i as int].actor is Some);
            assert(before.entities[i as int] == (EntityView {
                actor: before.entities[i as int].actor,
                ..w.entities[i as int]
            }));
            assert forall|t: int| 0 <= t < w.entities.len() && t != i implies before.entities[t]
                == w.entities[t] by {}
        }
        match &mut world.entities[i].actor {
            Some(actor) => {
                actor.0 = candidates;
            },
            None => {},
        }
        world.queue.0 = queue;
        proof {
            let taken = pressed@.subrange(0, k + 1);
            assert(taken.last() == dir);
            let after = spec_handle_movement_keys(w, taken);
            assert(world@.queue =~= after.queue);
            assert(world@.entities.len() == after.entities.len());
            assert forall|t: int| 0 <= t < w.entities.len() implies world@.entities[t]
                == after.entities[t] by {
                if t == i {
                    assert(world@.entities[t].actor->0 =~= after.entities[t].actor->0);
                } else {
                    assert(world@.entities[t] == before.entities[t]);
                }
            }
            assert(world@.entities =~= after.entities);
        }
        k = k + 1;
    }
    proof {
        assert(pressed@.subrange(0, k as int) =~= pressed@);
    }
    pressed.len()
}

} // verus!
