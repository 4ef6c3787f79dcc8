//! Actions, the turn queue, the cascade worklist and the signals that the
//! scheduler gives.

use vstd::prelude::*;
use std::collections::VecDeque;
use crate::world::{Entity, World, WorldView};
use self::models::{DamageAction, MeleeAttackAction, MoveToAction};

pub mod laws;
pub mod models;
pub mod systems;

verus! {

/// A request to change the world, held as a value until it is executed. An
/// action keeps only its own parameters: whether it is valid is decided
/// against the world at the moment of execution.
#[derive(Clone, Copy, Debug, PartialEq, Eq, Structural)]
pub enum Action {
    Move(MoveToAction),
    MeleeAttack(MeleeAttackAction),
    Damage(DamageAction),
}

/// The entities that still wait for their turn in this tick, front first.
pub struct ActorQueue(pub VecDeque<Entity>);

/// The actions that the last executed actions left to be carried out.
pub struct PendingActions(pub Vec<Action>);

/// Asks the scheduler for one step.
#[derive(Clone, Copy, Debug, PartialEq, Eq, Structural)]
pub struct TickEvent;

/// The entity at the front of the queue has had its turn.
#[derive(Clone, Copy, Debug, PartialEq, Eq, Structural)]
pub struct NextActorEvent;

/// The queue was empty: the tick cycle is over.
#[derive(Clone, Copy, Debug, PartialEq, Eq, Structural)]
pub struct ActionsCompleteEvent;

/// None of the human's candidates could be executed.
#[derive(Clone, Copy, Debug, PartialEq, Eq, Structural)]
pub struct InvalidPlayerActionEvent;

/// What one step of the scheduler tells its driver.
#[derive(Clone, Copy, Debug, PartialEq, Eq, Structural)]
pub enum SchedulerSignal {
    NextActor(NextActorEvent),
    ActionsComplete(ActionsCompleteEvent),
    InvalidPlayerAction(InvalidPlayerActionEvent),
}

impl ActorQueue {
    /// Takes the entity at the front of the queue, if there is one.
    pub fn pop_front(&mut self) -> (front: Option<Entity>)
        ensures
            old(self).0@.len() == 0 ==> front is None && final(self).0@ == old(self).0@,
            old(self).0@.len() > 0 ==> front == Some(old(self).0@[0]) && final(self).0@
                == old(self).0@.drop_first(),
    {
        let front = self.0.pop_front();
        proof {
            if old(self).0@.len() > 0 {
                assert(self.0@ =~= old(self).0@.drop_first());
            }
        }
        front
    }
}

impl Action {
    /// Whether the action can be carried out in the world `w`.
    pub open spec fn valid(self, w: WorldView) -> bool {
        match self {
            Action::Move(a) => a.valid(w),
            Action::MeleeAttack(a) => a.valid(w),
            Action::Damage(a) => a.valid(w),
        }
    }

    /// The world after the action, where it is valid in `w`.
    pub open spec fn apply(self, w: WorldView) -> WorldView {
        match self {
            Action::Move(a) => a.apply(w),
            Action::MeleeAttack(a) => w,
            Action::Damage(a) => a.apply(w),
        }
    }

    /// The actions that the action leaves to be carried out, where it is valid
    /// in `w`.
    pub open spec fn follow_ups(self, w: WorldView) -> Seq<Action> {
        match self {
            Action::Move(a) => Seq::empty(),
            Action::MeleeAttack(a) => a.follow_ups(w),
            Action::Damage(a) => Seq::empty(),
        }
    }

    /// Carries the action out. It succeeds exactly where the action is valid;
    /// a failed action leaves the world untouched.
    pub fn execute(&self, world: &mut World) -> (r: Result<Vec<Action>, ()>)
        ensures
            r is Ok <==> self.valid(old(world)@),
            r matches Ok(f) ==> final(world)@ == self.apply(old(world)@) && f@ == self.follow_ups(
                old(world)@,
            ),
            r is Err ==> *final(world) == *old(world),
            old(world)@.wf() ==> final(world)@.wf(),
    {
        match self {
            Action::Move(a) => a.execute(world),
            Action::MeleeAttack(a) => a.execute(world),
            Action::Damage(a) => a.execute(world),
        }
    }
}

} // verus!
