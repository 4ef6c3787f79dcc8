//! The shared world state: the board, the entities with what they carry, the
//! turn queue and the cascade worklist.

use vstd::prelude::*;
use std::collections::VecDeque;
use crate::actions::{Action, ActorQueue, PendingActions};
use crate::board::components::Position;
use crate::board::{Board, BoardView};
use crate::pieces::components::{Actor, Fighter, Health, Piece, TileOccupier, Walker};
use crate::player::Player;
use crate::point::Point;

verus! {

/// The identifier of an entity.
pub type Entity = u64;

/// One entity with everything it carries. A part that the entity lacks is
/// `None`.
pub struct EntityEntry {
    pub id: Entity,
    pub piece: Option<Piece>,
    pub position: Option<Position>,
    pub actor: Option<Actor>,
    pub health: Option<Health>,
    pub fighter: Option<Fighter>,
    pub occupier: Option<TileOccupier>,
    pub walker: Option<Walker>,
    pub player: Option<Player>,
}

/// The mathematical content of an [`EntityEntry`].
pub struct EntityView {
    pub id: Entity,
    pub kind: Option<Seq<char>>,
    pub position: Option<Point>,
    pub actor: Option<Seq<(Action, i32)>>,
    pub health: Option<u32>,
    pub strength: Option<u32>,
    pub occupier: bool,
    pub walker: bool,
    pub player: bool,
}

impl View for EntityEntry {
    type V = EntityView;

    open spec fn view(&self) -> EntityView {
        EntityView {
            id: self.id,
            kind: match self.piece {
                Some(piece) => Some(piece.kind@),
                None => None,
            },
            position: match self.position {
                Some(position) => Some(position.p),
                None => None,
            },
            actor: match self.actor {
                Some(actor) => Some(actor.0@),
                None => None,
            },
            health: match self.health {
                Some(health) => Some(health.value),
                None => None,
            },
            strength: match self.fighter {
                Some(fighter) => Some(fighter.strength),
                None => None,
            },
            occupier: self.occupier is Some,
            walker: self.walker is Some,
            player: self.player is Some,
        }
    }
}

impl EntityEntry {
    /// An entity that carries nothing.
    pub fn new(id: Entity) -> (entry: EntityEntry)
        ensures
            entry@ == (EntityView {
                id,
                kind: None,
                position: None,
                actor: None,
                health: None,
                strength: None,
                occupier: false,
                walker: false,
                player: false,
            }),
    {
        EntityEntry {
            id,
            piece: None,
            position: None,
            actor: None,
            health: None,
            fighter: None,
            occupier: None,
            walker: None,
            player: None,
        }
    }
}

/// The world on which actions are executed.
pub struct World {
    pub board: Option<Board>,
    pub entities: Vec<EntityEntry>,
    pub queue: ActorQueue,
    pub pending: PendingActions,
}

/// The mathematical content of a [`World`]. The entities keep the order in
/// which they were spawned.
pub struct WorldView {
    pub board: Option<BoardView>,
    pub entities: Seq<EntityView>,
    pub queue: Seq<Entity>,
    pub pending: Seq<Action>,
}

impl View for World {
    type V = WorldView;

    open spec fn view(&self) -> WorldView {
        WorldView {
            board: match self.board {
                Some(board) => Some(board@),
                None => None,
            },
            entities: self.entities@.map_values(|entry: EntityEntry| entry@),
            queue: self.queue.0@,
            pending: self.pending.0@,
        }
    }
}

/// Whether `i` is the first place in `entities` that holds the entity `e`.
pub open spec fn is_first(entities: Seq<EntityView>, e: Entity, i: int) -> bool {
    &&& 0 <= i < entities.len()
    &&& entities[i].id == e
    &&& forall|j: int| 0 <= j < i ==> (#[trigger] entities[j]).id != e
}

/// Whether the entry stands on `p` and has health: such an entity can be
/// struck at `p`.
pub open spec fn is_target(entry: EntityView, p: Point) -> bool {
    entry.health is Some && entry.position == Some(p)
}

/// Whether the entry blocks the cell `p`.
pub open spec fn is_occupier_at(entry: EntityView, p: Point) -> bool {
    entry.occupier && entry.position == Some(p)
}

/// Whether the entry is the human's entity and stands somewhere; with
/// `acting`, whether it is also an actor.
pub open spec fn is_placed_player(entry: EntityView, acting: bool) -> bool {
    entry.player && entry.position is Some && (acting ==> entry.actor is Some)
}

/// The entities among the first `n` entries that can be struck at `p`, in
/// the order of the entries.
pub open spec fn targets_upto(entities: Seq<EntityView>, p: Point, n: int) -> Seq<Entity>
    decreases n,
{
    if n <= 0 {
        Seq::empty()
    } else {
        let before = targets_upto(entities, p, n - 1);
        if is_target(entities[n - 1], p) {
            before.push(entities[n - 1].id)
        } else {
            before
        }
    }
}

/// The cells blocked by the first `n` entries, in the order of the entries.
pub open spec fn blockers_upto(entities: Seq<EntityView>, n: int) -> Seq<Point>
    decreases n,
{
    if n <= 0 {
        Seq::empty()
    } else {
        let before = blockers_upto(entities, n - 1);
        if entities[n - 1].occupier && entities[n - 1].position is Some {
            before.push(entities[n - 1].position->0)
        } else {
            before
        }
    }
}

/// How many of the first `n` entries are a placed player.
pub open spec fn players_upto(entities: Seq<EntityView>, acting: bool, n: int) -> nat
    decreases n,
{
    if n <= 0 {
        0
    } else {
        let before = players_upto(entities, acting, n - 1);
        if is_placed_player(entities[n - 1], acting) {
            before + 1
        } else {
            before
        }
    }
}

/// The place of the last placed player among the first `n` entries.
pub open spec fn last_player_upto(entities: Seq<EntityView>, acting: bool, n: int) -> Option<int>
    decreases n,
{
    if n <= 0 {
        None
    } else if is_placed_player(entities[n - 1], acting) {
        Some(n - 1)
    } else {
        last_player_upto(entities, acting, n - 1)
    }
}

impl WorldView {
    /// No two entries hold the same entity, and a board that exists is well
    /// formed.
    pub open spec fn wf(self) -> bool {
        &&& forall|i: int, j: int|
            0 <= i < j < self.entities.len() ==> (#[trigger] self.entities[i]).id != (
            #[trigger] self.entities[j]).id
        &&& self.board matches Some(board) ==> board.wf()
    }

    /// The first place that holds the entity `e`, if any does.
    pub open spec fn find(self, e: Entity) -> Option<int> {
        if exists|i: int| is_first(self.entities, e, i) {
            Some(choose|i: int| is_first(self.entities, e, i))
        } else {
            None
        }
    }

    /// Whether the entity exists.
    pub open spec fn contains(self, e: Entity) -> bool {
        self.find(e) is Some
    }

    /// Where the entity stands, if it exists and has a position.
    pub open spec fn position_of(self, e: Entity) -> Option<Point> {
        match self.find(e) {
            Some(i) => self.entities[i].position,
            None => None,
        }
    }

    /// The health of the entity, if it exists and has health.
    pub open spec fn health_of(self, e: Entity) -> Option<u32> {
        match self.find(e) {
            Some(i) => self.entities[i].health,
            None => None,
        }
    }

    /// The candidates of the entity, if it exists and is an actor.
    pub open spec fn actor_of(self, e: Entity) -> Option<Seq<(Action, i32)>> {
        match self.find(e) {
            Some(i) => self.entities[i].actor,
            None => None,
        }
    }

    /// Whether the entity exists and is the human's.
    pub open spec fn is_player(self, e: Entity) -> bool {
        match self.find(e) {
            Some(i) => self.entities[i].player,
            None => false,
        }
    }

    /// Whether some entity blocks the cell `p`.
    pub open spec fn occupied(self, p: Point) -> bool {
        exists|i: int| 0 <= i < self.entities.len() && is_occupier_at(#[trigger] self.entities[i], p)
    }

    /// The entities that can be struck at `p`, in the order of the entries.
    pub open spec fn targets_at(self, p: Point) -> Seq<Entity> {
        targets_upto(self.entities, p, self.entities.len() as int)
    }

    /// The blocked cells, in the order of the entries.
    pub open spec fn blockers(self) -> Seq<Point> {
        blockers_upto(self.entities, self.entities.len() as int)
    }

    /// The place of the human's entity, if exactly one entry is the human's
    /// and has a position (and, with `acting`, is an actor).
    pub open spec fn single_player(self, acting: bool) -> Option<int> {
        if players_upto(self.entities, acting, self.entities.len() as int) == 1 {
            last_player_upto(self.entities, acting, self.entities.len() as int)
        } else {
            None
        }
    }

    /// Where the human's entity stands, if exactly one entity is the human's
    /// and has a position.
    pub open spec fn single_player_position(self) -> Option<Point> {
        match self.single_player(false) {
            Some(i) => self.entities[i].position,
            None => None,
        }
    }

    /// The world in which the entity `e` stands on `p`; unchanged where `e`
    /// does not exist.
    pub open spec fn with_position(self, e: Entity, p: Point) -> WorldView {
        match self.find(e) {
            Some(i) => WorldView {
                entities: self.entities.update(
                    i,
                    EntityView { position: Some(p), ..self.entities[i] },
                ),
                ..self
            },
            None => self,
        }
    }

    /// The world in which the entity `e` has the health `h`.
    pub open spec fn with_health(self, e: Entity, h: u32) -> WorldView {
        match self.find(e) {
            Some(i) => WorldView {
                entities: self.entities.update(i, EntityView { health: Some(h), ..self.entities[i] }),
                ..self
            },
            None => self,
        }
    }

    /// The world in which the entity `e` has the given candidates.
    pub open spec fn with_actor(self, e: Entity, candidates: Seq<(Action, i32)>) -> WorldView {
        match self.find(e) {
            Some(i) => WorldView {
                entities: self.entities.update(
                    i,
                    EntityView { actor: Some(candidates), ..self.entities[i] },
                ),
                ..self
            },
            None => self,
        }
    }

    /// The world without the entity `e`.
    pub open spec fn despawned(self, e: Entity) -> WorldView {
        match self.find(e) {
            Some(i) => WorldView { entities: self.entities.remove(i), ..self },
            None => self,
        }
    }
}

/// An entry that holds `e` and has no entry holding `e` before it is the one
/// that `find` gives.
pub proof fn lemma_find_first(w: WorldView, e: Entity, i: int)
    requires
        is_first(w.entities, e, i),
    ensures
        w.find(e) == Some(i),
{
    let c = choose|k: int| is_first(w.entities, e, k);
    assert(is_first(w.entities, e, c));
    if c < i {
        assert(w.entities[c].id != e);
    }
    if i < c {
        assert(w.entities[i].id != e);
    }
}

/// Where no entry holds `e`, `find` gives nothing.
pub proof fn lemma_find_none(w: WorldView, e: Entity)
    requires
        forall|j: int| 0 <= j < w.entities.len() ==> (#[trigger] w.entities[j]).id != e,
    ensures
        w.find(e) is None,
{
    if exists|i: int| is_first(w.entities, e, i) {
        let c = choose|k: int| is_first(w.entities, e, k);
        assert(w.entities[c].id == e);
    }
}

/// Replacing entries by entries with the same identifiers changes no
/// `find`.
pub proof fn lemma_find_same_ids(w: WorldView, v: WorldView, e: Entity)
    requires
        w.entities.len() == v.entities.len(),
        forall|j: int| 0 <= j < w.entities.len() ==> (#[trigger] w.entities[j]).id == v.entities[j].id,
    ensures
        w.find(e) == v.find(e),
{
    if w.find(e) is Some {
        let i = w.find(e)->0;
        assert(is_first(v.entities, e, i)) by {
            assert forall|j: int| 0 <= j < i implies (#[trigger] v.entities[j]).id != e by {
                assert(w.entities[j].id != e);
            }
            assert(w.entities[i].id == v.entities[i].id);
        }
        lemma_find_first(v, e, i);
    } else {
        if v.find(e) is Some {
            let i = v.find(e)->0;
            assert(is_first(w.entities, e, i)) by {
                assert forall|j: int| 0 <= j < i implies (#[trigger] w.entities[j]).id != e by {
                    assert(w.entities[j].id == v.entities[j].id);
                    assert(v.entities[j].id != e);
                }
                assert(w.entities[i].id == v.entities[i].id);
            }
            lemma_find_first(w, e, i);
        }
    }
}

impl World {
    /// A world without a board, without entities and with nothing queued.
    pub fn new() -> (world: World)
        ensures
            world@ == (WorldView {
                board: None,
                entities: Seq::empty(),
                queue: Seq::empty(),
                pending: Seq::empty(),
            }),
            world@.wf(),
    {
        let world = World {
            board: None,
            entities: Vec::new(),
            queue: ActorQueue(VecDeque::new()),
            pending: PendingActions(Vec::new()),
        };
        assert(world@.entities =~= Seq::empty());
        world
    }

    /// The place of the entity `e` among the entries.
    pub fn find(&self, e: Entity) -> (r: Option<usize>)
        ensures
            match r {
                Some(i) => self@.find(e) == Some(i as int) && i < self.entities.len(),
                None => self@.find(e) is None,
            },
    {
        let mut i: usize = 0;
        while i < self.entities.len()
            invariant
                i <= self.entities.len(),
                forall|j: int| 0 <= j < i ==> (#[trigger] self@.entities[j]).id != e,
            decreases self.entities.len() - i,
        {
            if self.entities[i].id == e {
                proof {
                    assert(self@.entities[i as int].id == e);
                    lemma_find_first(self@, e, i as int);
                }
                return Some(i);
            }
            assert(self@.entities[i as int].id != e);
            i = i + 1;
        }
        proof {
            lemma_find_none(self@, e);
        }
        None
    }

    /// Whether the entity exists.
    pub fn contains(&self, e: Entity) -> (b: bool)
        ensures
            b == self@.contains(e),
    {
        self.find(e).is_some()
    }

    /// Where the entity stands.
    pub fn position(&self, e: Entity) -> (p: Option<Point>)
        ensures
            p == self@.position_of(e),
    {
        match self.find(e) {
            Some(i) => match &self.entities[i].position {
                Some(position) => Some(position.p),
                None => None,
            },
            None => None,
        }
    }

    /// The health of the entity.
    pub fn health(&self, e: Entity) -> (h: Option<u32>)
        ensures
            h == self@.health_of(e),
    {
        match self.find(e) {
            Some(i) => match &self.entities[i].health {
                Some(health) => Some(health.value),
                None => None,
            },
            None => None,
        }
    }

    /// Whether the entity exists and is the human's.
    pub fn is_player(&self, e: Entity) -> (b: bool)
        ensures
            b == self@.is_player(e),
    {
        match self.find(e) {
            Some(i) => self.entities[i].player.is_some(),
            None => false,
        }
    }

    /// Adds an entity. An entity whose identifier is already in use is
    /// refused, and the world stays as it is.
    pub fn spawn(&mut self, entry: EntityEntry) -> (added: bool)
        ensures
            added == !old(self)@.contains(entry.id),
            added ==> final(self)@ == (WorldView {
                entities: old(self)@.entities.push(entry@),
                ..old(self)@
            }),
            !added ==> *final(self) == *old(self),
            old(self)@.wf() ==> final(self)@.wf(),
    {
        match self.find(entry.id) {
            Some(_) => false,
            None => {
                let ghost id = entry.id;
                let ghost view = entry@;
                self.entities.push(entry);
                proof {
                    assert(self@.entities =~= old(self)@.entities.push(view));
                    if old(self)@.wf() {
                        assert forall|i: int, j: int|
                            0 <= i < j < self@.entities.len() implies (#[trigger] self@.entities[i]).id
                            != (#[trigger] self@.entities[j]).id by {
                            if j == old(self)@.entities.len() {
                                if old(self)@.entities[i].id == id {
                                    lemma_exists_first(old(self)@, id, i);
                                }
                            }
                        }
                    }
                }
                true
            },
        }
    }

    /// Removes the entity with everything it carries.
    pub fn despawn(&mut self, e: Entity) -> (removed: bool)
        ensures
            removed == old(self)@.contains(e),
            final(self)@ == old(self)@.despawned(e),
            old(self)@.wf() ==> final(self)@.wf(),
    {
        match self.find(e) {
            Some(i) => {
                self.entities.remove(i);
                proof {
                    assert(self@.entities =~= old(self)@.entities.remove(i as int));
                }
                true
            },
            None => false,
        }
    }

    /// Whether some entity blocks the cell `p`.
    pub fn occupied(&self, p: Point) -> (b: bool)
        ensures
            b == self@.occupied(p),
    {
        let mut i: usize = 0;
        while i < self.entities.len()
            invariant
                i <= self.entities.len(),
                forall|j: int| 0 <= j < i ==> !is_occupier_at(#[trigger] self@.entities[j], p),
            decreases self.entities.len() - i,
        {
            let entry = &self.entities[i];
            let here = match &entry.position {
                Some(position) => position.p == p,
                None => false,
            };
            if entry.occupier.is_some() && here {
                assert(is_occupier_at(self@.entities[i as int], p));
                return true;
            }
            assert(!is_occupier_at(self@.entities[i as int], p));
            i = i + 1;
        }
        false
    }

    /// The entities that can be struck at `p`, in the order of the entries.
    pub fn targets_at(&self, p: Point) -> (targets: Vec<Entity>)
        ensures
            targets@ == self@.targets_at(p),
    {
        let mut targets: Vec<Entity> = Vec::new();
        let mut i: usize = 0;
        while i < self.entities.len()
            invariant
                i <= self.entities.len(),
                targets@ == targets_upto(self@.entities, p, i as int),
            decreases self.entities.len() - i,
        {
            let entry = &self.entities[i];
            let here = match &entry.position {
                Some(position) => position.p == p,
                None => false,
            };
            assert(self@.entities[i as int] == entry@);
            if entry.health.is_some() && here {
                targets.push(entry.id);
            }
            i = i + 1;
        }
        targets
    }

    /// The blocked cells, in the order of the entries.
    pub fn blockers(&self) -> (cells: Vec<Point>)
        ensures
            cells@ == self@.blockers(),
    {
        let mut cells: Vec<Point> = Vec::new();
        let mut i: usize = 0;
        while i < self.entities.len()
            invariant
                i <= self.entities.len(),
                cells@ == blockers_upto(self@.entities, i as int),
            decreases self.entities.len() - i,
        {
            let entry = &self.entities[i];
            assert(self@.entities[i as int] == entry@);
            if entry.occupier.is_some() {
                match &entry.position {
                    Some(position) => {
                        cells.push(position.p);
                    },
                    None => {},
                }
            }
            i = i + 1;
        }
        cells
    }

    /// The place of the human's entity, if exactly one entry is the human's
    /// and has a position (and, with `acting`, is an actor).
    pub fn single_player(&self, acting: bool) -> (place: Option<usize>)
        ensures
            match place {
                Some(i) => self@.single_player(acting) == Some(i as int) && i < self.entities.len()
                    && is_placed_player(self@.entities[i as int], acting),
                None => self@.single_player(acting) is None,
            },
    {
        let mut found: Option<usize> = None;
        let mut many: bool = false;
        let mut i: usize = 0;
        while i < self.entities.len()
            invariant
                i <= self.entities.len(),
                many <==> players_upto(self@.entities, acting, i as int) > 1,
                !many ==> found == match last_player_upto(self@.entities, acting, i as int) {
                    Some(k) => Some(k as usize),
                    None => None,
                },
                found is None <==> players_upto(self@.entities, acting, i as int) == 0,
                found matches Some(k) ==> k < i && is_placed_player(self@.entities[k as int], acting),
                last_player_upto(self@.entities, acting, i as int) matches Some(k) ==> 0 <= k < i,
            decreases self.entities.len() - i,
        {
            let entry = &self.entities[i];
            assert(self@.entities[i as int] == entry@);
            if entry.player.is_some() && entry.position.is_some() && (!acting
                || entry.actor.is_some()) {
                if found.is_some() {
                    many = true;
                }
                found = Some(i);
            }
            i = i + 1;
        }
        if many {
            None
        } else {
            found
        }
    }

    /// Where the human's entity stands, if exactly one entity is the human's
    /// and has a position.
    pub fn single_player_position(&self) -> (p: Option<Point>)
        ensures
            p == self@.single_player_position(),
    {
        match self.single_player(false) {
            Some(i) => match &self.entities[i].position {
                Some(position) => Some(position.p),
                None => None,
            },
            None => None,
        }
    }
}

/// Where some entry holds `e`, a first such entry exists.
pub proof fn lemma_exists_first(w: WorldView, e: Entity, i: int)
    requires
        0 <= i < w.entities.len(),
        w.entities[i].id == e,
    ensures
        w.find(e) is Some,
        w.find(e)->0 <= i,
    decreases i,
{
    if forall|j: int| 0 <= j < i ==> (#[trigger] w.entities[j]).id != e {
        lemma_find_first(w, e, i);
    } else {
        let j = choose|j: int| 0 <= j < i && (#[trigger] w.entities[j]).id == e;
        lemma_exists_first(w, e, j);
    }
}

} // verus!
