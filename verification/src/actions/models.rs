//! The three kinds of action and their rules.

use vstd::prelude::*;
use crate::actions::Action;
use crate::board::components::Position;
use crate::pieces::components::Health;
use crate::point::{spec_chebyshev, Point};
use crate::world::{lemma_find_same_ids, Entity, EntityView, World, WorldView};

verus! {

/// Moves an entity to a cell.
#[derive(Clone, Copy, Debug, PartialEq, Eq, Structural)]
pub struct MoveToAction {
    pub entity: Entity,
    pub destination: Point,
}

/// Strikes whatever stands on a cell next to the attacker. The target is a
/// cell, not an entity: every entity with health that stands there is hit.
#[derive(Clone, Copy, Debug, PartialEq, Eq, Structural)]
pub struct MeleeAttackAction {
    pub attacker: Entity,
    pub target_pos: Point,
    pub damage: u32,
}

/// Takes health from an entity, and removes the entity when none is left.
#[derive(Clone, Copy, Debug, PartialEq, Eq, Structural)]
pub struct DamageAction {
    pub entity: Entity,
    pub value: u32,
}

/// `health - value`, floored at zero.
pub open spec fn spec_health_after(health: u32, value: u32) -> u32 {
    if health >= value {
        (health - value) as u32
    } else {
        0
    }
}

impl MoveToAction {
    pub fn new(entity: Entity, destination: Point) -> (a: MoveToAction)
        ensures
            a == (MoveToAction { entity, destination }),
    {
        MoveToAction { entity, destination }
    }

    /// A move is valid where a board exists, the destination is a cell of
    /// it, no entity blocks that cell, and the mover has a position.
    pub open spec fn valid(self, w: WorldView) -> bool {
        &&& w.board matches Some(board) && board.contains(self.destination)
        &&& !w.occupied(self.destination)
        &&& w.position_of(self.entity) is Some
    }

    /// After a valid move the mover stands on the destination.
    pub open spec fn apply(self, w: WorldView) -> WorldView {
        w.with_position(self.entity, self.destination)
    }

    /// Carries the move out. A valid move changes the mover's position and
    /// nothing else, and leaves nothing to follow; an invalid one fails and
    /// changes nothing.
    pub fn execute(&self, world: &mut World) -> (r: Result<Vec<Action>, ()>)
        ensures
            r is Ok <==> self.valid(old(world)@),
            r matches Ok(f) ==> final(world)@ == self.apply(old(world)@) && f@ == Seq::<
                Action,
            >::empty(),
            r is Err ==> *final(world) == *old(world),
            old(world)@.wf() ==> final(world)@.wf(),
    {
        match &world.board {
            None => {
                return Err(());
            },
            Some(board) => {
                if !board.in_bounds_xy(self.destination.x, self.destination.y) {
                    return Err(());
                }
            },
        }
        if world.occupied(self.destination) {
            return Err(());
        }
        match world.find(self.entity) {
            None => Err(()),
            Some(i) => {
                if world.entities[i].position.is_none() {
                    return Err(());
                }
                world.entities[i].position = Some(Position { p: self.destination });
                proof {
                    let before = old(world)@;
                    assert(world@.entities =~= before.entities.update(
                        i as int,
                        EntityView { position: Some(self.destination), ..before.entities[i as int] },
                    ));
                    assert(world@ == self.apply(before));
                }
                Ok(Vec::new())
            },
        }
    }
}

impl MeleeAttackAction {
    /// An attack is valid where the attacker has a position, the target cell
    /// is at Chebyshev distance at most 1 from it, and some entity with
    /// health stands on the target cell.
    pub open spec fn valid(self, w: WorldView) -> bool {
        &&& w.position_of(self.attacker) matches Some(p) && spec_chebyshev(p, self.target_pos) <= 1
        &&& w.targets_at(self.target_pos).len() > 0
    }

    /// One damage action for each entity struck, in the order of the world's
    /// entries.
    pub open spec fn follow_ups(self, w: WorldView) -> Seq<Action> {
        w.targets_at(self.target_pos).map_values(
            |e: Entity| Action::Damage(DamageAction { entity: e, value: self.damage }),
        )
    }

    /// Carries the attack out. The world is never changed: a valid attack
    /// hands back its damage actions, an invalid one fails.
    pub fn execute(&self, world: &mut World) -> (r: Result<Vec<Action>, ()>)
        ensures
            r is Ok <==> self.valid(old(world)@),
            r matches Ok(f) ==> f@ == self.follow_ups(old(world)@),
            *final(world) == *old(world),
    {
        let attacker_pos = match world.position(self.attacker) {
            Some(p) => p,
            None => {
                return Err(());
            },
        };
        if !attacker_pos.within_chebyshev(self.target_pos, 1) {
            return Err(());
        }
        let targets = world.targets_at(self.target_pos);
        if targets.len() == 0 {
            return Err(());
        }
        let mut result: Vec<Action> = Vec::new();
        let mut i: usize = 0;
        while i < targets.len()
            invariant
                i <= targets.len(),
                result@.len() == i,
                forall|k: int|
                    0 <= k < i ==> result@[k] == Action::Damage(
                        DamageAction { entity: targets@[k], value: self.damage },
                    ),
            decreases targets.len() - i,
        {
            result.push(Action::Damage(DamageAction::new(targets[i], self.damage)));
            i = i + 1;
        }
        assert(result@ =~= self.follow_ups(world@));
        Ok(result)
    }
}

impl DamageAction {
    pub fn new(entity: Entity, value: u32) -> (a: DamageAction)
        ensures
            a == (DamageAction { entity, value }),
    {
        DamageAction { entity, value }
    }

    /// Damage is valid where the entity exists and has health.
    pub open spec fn valid(self, w: WorldView) -> bool {
        w.health_of(self.entity) is Some
    }

    /// After valid damage the entity has `max(0, health - value)` health, and
    /// is removed from the world where that is zero.
    pub open spec fn apply(self, w: WorldView) -> WorldView {
        let after = spec_health_after(w.health_of(self.entity)->0, self.value);
        if after == 0 {
            w.despawned(self.entity)
        } else {
            w.with_health(self.entity, after)
        }
    }

    /// Carries the damage out. It leaves nothing to follow; where the entity
    /// has no health it fails and changes nothing.
    pub fn execute(&self, world: &mut World) -> (r: Result<Vec<Action>, ()>)
        ensures
            r is Ok <==> self.valid(old(world)@),
            r matches Ok(f) ==> final(world)@ == self.apply(old(world)@) && f@ == Seq::<
                Action,
            >::empty(),
            r is Err ==> *final(world) == *old(world),
            old(world)@.wf() ==> final(world)@.wf(),
    {
        match world.find(self.entity) {
            None => Err(()),
            Some(i) => {
                let health = match &world.entities[i].health {
                    Some(health) => health.value,
                    None => {
                        return Err(());
                    },
                };
                let after = health.saturating_sub(self.value);
                if after == 0 {
                    world.entities.remove(i);
                    proof {
                        assert(world@.entities =~= old(world)@.entities.remove(i as int));
                    }
                } else {
                    world.entities[i].health = Some(Health { value: after });
                    proof {
                        let before = old(world)@;
                        assert(world@.entities =~= before.entities.update(
                            i as int,
                            EntityView { health: Some(after), ..before.entities[i as int] },
                        ));
                    }
                }
                Ok(Vec::new())
            },
        }
    }
}

} // verus!
