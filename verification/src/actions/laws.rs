//! What holds of the actions and of the scheduler, whatever the world.

use vstd::prelude::*;
use crate::actions::models::{spec_health_after, DamageAction, MeleeAttackAction, MoveToAction};
use crate::actions::systems::{
    chosen, drained_upto, first_valid, insert_by_score, scores_of, spec_drain, spec_process,
    spec_resolve, spec_trial_order, trial_order_upto,
};
use crate::actions::{Action, NextActorEvent, SchedulerSignal};
use crate::actions::systems::actors_upto;
use crate::point::{spec_chebyshev, Point};
use crate::world::{
    is_first, is_target, lemma_find_first, lemma_find_none, lemma_find_same_ids, targets_upto,
    Entity, EntityView, WorldView,
};

verus! {

/// Whether the candidate `a` is tried before the candidate `b`: it scores
/// higher, or it scores the same and was proposed earlier.
pub open spec fn tried_before(scores: Seq<i32>, a: int, b: int) -> bool {
    scores[a] > scores[b] || (scores[a] == scores[b] && a < b)
}

/// Whether every candidate listed in `order` is tried before those listed
/// behind it.
pub open spec fn ordered_by_score(scores: Seq<i32>, order: Seq<int>) -> bool {
    forall|k: int, l: int|
        0 <= k < l < order.len() ==> tried_before(scores, #[trigger] order[k], #[trigger] order[l])
}

/// Putting a later proposal into an order keeps it an order; the result
/// lists the new candidate besides those listed before.
proof fn lemma_insert_by_score(scores: Seq<i32>, order: Seq<int>, i: int)
    requires
        0 <= i < scores.len(),
        ordered_by_score(scores, order),
        forall|k: int| 0 <= k < order.len() ==> 0 <= #[trigger] order[k] < i,
    ensures
        insert_by_score(order, scores, i).len() == order.len() + 1,
        ordered_by_score(scores, insert_by_score(order, scores, i)),
        insert_by_score(order, scores, i).contains(i),
        forall|x: int| order.contains(x) ==> insert_by_score(order, scores, i).contains(x),
        forall|k: int|
            0 <= k < insert_by_score(order, scores, i).len() ==> {
                let x = #[trigger] insert_by_score(order, scores, i)[k];
                x == i || order.contains(x)
            },
    decreases order.len(),
{
    let result = insert_by_score(order, scores, i);
    if order.len() == 0 {
        assert(result[0] == i);
    } else if scores[order.last()] >= scores[i] {
        assert(result == order.push(i));
        assert(result[order.len() as int] == i);
        assert forall|k: int, l: int| 0 <= k < l < result.len() implies tried_before(
            scores,
            #[trigger] result[k],
            #[trigger] result[l],
        ) by {
            if l == order.len() {
                if k < order.len() - 1 {
                    assert(tried_before(scores, order[k], order[order.len() - 1]));
                }
                assert(result[k] == order[k]);
            } else {
                assert(result[k] == order[k] && result[l] == order[l]);
            }
        }
        assert forall|x: int| order.contains(x) implies result.contains(x) by {
            let k = choose|k: int| 0 <= k < order.len() && order[k] == x;
            assert(result[k] == x);
        }
        assert forall|k: int| 0 <= k < result.len() implies ({
            let x = #[trigger] result[k];
            x == i || order.contains(x)
        }) by {
            if k < order.len() {
                assert(result[k] == order[k]);
            }
        }
    } else {
        let head = order.drop_last();
        let last = order.last();
        assert forall|k: int, l: int| 0 <= k < l < head.len() implies tried_before(
            scores,
            #[trigger] head[k],
            #[trigger] head[l],
        ) by {
            assert(head[k] == order[k] && head[l] == order[l]);
        }
        assert forall|k: int| 0 <= k < head.len() implies 0 <= #[trigger] head[k] < i by {
            assert(head[k] == order[k]);
        }
        lemma_insert_by_score(scores, head, i);
        let rec = insert_by_score(head, scores, i);
        assert(result == rec.push(last));
        assert forall|k: int, l: int| 0 <= k < l < result.len() implies tried_before(
            scores,
            #[trigger] result[k],
            #[trigger] result[l],
        ) by {
            if l == rec.len() {
                assert(result[k] == rec[k]);
                let x = rec[k];
                if x != i {
                    let t = choose|t: int| 0 <= t < head.len() && head[t] == x;
                    assert(order[t] == x);
                    assert(tried_before(scores, order[t], order[order.len() - 1]));
                }
            } else {
                assert(result[k] == rec[k] && result[l] == rec[l]);
            }
        }
        let at = choose|k: int| 0 <= k < rec.len() && rec[k] == i;
        assert(result[at] == i);
        assert forall|x: int| order.contains(x) implies result.contains(x) by {
            let k = choose|k: int| 0 <= k < order.len() && order[k] == x;
            if k == order.len() - 1 {
                assert(result[rec.len() as int] == x);
            } else {
                assert(head[k] == x);
                assert(head.contains(x));
                assert(rec.contains(x));
                let t = choose|t: int| 0 <= t < rec.len() && rec[t] == x;
                assert(result[t] == x);
            }
        }
        assert forall|k: int| 0 <= k < result.len() implies ({
            let x = #[trigger] result[k];
            x == i || order.contains(x)
        }) by {
            if k < rec.len() {
                assert(result[k] == rec[k]);
                let x = rec[k];
                if x != i {
                    let t = choose|t: int| 0 <= t < head.len() && head[t] == x;
                    assert(order[t] == x);
                }
            } else {
                assert(order[order.len() - 1] == last);
            }
        }
    }
}

/// The order of the first `n` candidates lists each of them once, the one
/// that is tried earlier first.
proof fn lemma_trial_order_upto(scores: Seq<i32>, n: int)
    requires
        0 <= n <= scores.len(),
    ensures
        trial_order_upto(scores, n).len() == n,
        ordered_by_score(scores, trial_order_upto(scores, n)),
        forall|k: int| 0 <= k < n ==> 0 <= #[trigger] trial_order_upto(scores, n)[k] < n,
        forall|i: int| 0 <= i < n ==> trial_order_upto(scores, n).contains(i),
    decreases n,
{
    if n > 0 {
        lemma_trial_order_upto(scores, n - 1);
        let before = trial_order_upto(scores, n - 1);
        lemma_insert_by_score(scores, before, n - 1);
        let order = trial_order_upto(scores, n);
        assert forall|k: int| 0 <= k < n implies 0 <= #[trigger] order[k] < n by {
            let x = order[k];
            if x != n - 1 {
                let t = choose|t: int| 0 <= t < before.len() && before[t] == x;
            }
        }
        assert forall|i: int| 0 <= i < n implies order.contains(i) by {
            if i < n - 1 {
                assert(before.contains(i));
            }
        }
    }
}

/// The order of trial is the order by score, highest first, in which equal
/// scores keep the order of proposal: every candidate is listed exactly
/// once, and of any two the one listed first scores higher, or scores the
/// same and was proposed earlier.
pub proof fn lemma_trial_order(scores: Seq<i32>)
    ensures
        spec_trial_order(scores).len() == scores.len(),
        forall|k: int|
            0 <= k < scores.len() ==> 0 <= #[trigger] spec_trial_order(scores)[k] < scores.len(),
        forall|i: int| 0 <= i < scores.len() ==> spec_trial_order(scores).contains(i),
        forall|k: int, l: int|
            0 <= k < l < scores.len() ==> tried_before(
                scores,
                #[trigger] spec_trial_order(scores)[k],
                #[trigger] spec_trial_order(scores)[l],
            ),
{
    lemma_trial_order_upto(scores, scores.len() as int);
}

/// What the search from place `k` of `order` gives is listed at or behind
/// `k` and valid, and nothing listed between is valid; where it gives
/// nothing, nothing listed from `k` on is valid.
proof fn lemma_first_valid(w: WorldView, candidates: Seq<(Action, i32)>, order: Seq<int>, k: int)
    requires
        0 <= k <= order.len(),
    ensures
        match first_valid(w, candidates, order, k) {
            Some(x) => exists|t: int|
                k <= t < order.len() && #[trigger] order[t] == x && candidates[x].0.valid(w)
                    && forall|u: int| k <= u < t ==> !candidates[#[trigger] order[u]].0.valid(w),
            None => forall|u: int| k <= u < order.len() ==> !candidates[#[trigger] order[u]].0.valid(w),
        },
    decreases order.len() - k,
{
    if k < order.len() {
        if candidates[order[k]].0.valid(w) {
            assert(order[k] == first_valid(w, candidates, order, k)->0);
        } else {
            lemma_first_valid(w, candidates, order, k + 1);
            match first_valid(w, candidates, order, k + 1) {
                Some(x) => {
                    let t = choose|t: int|
                        k + 1 <= t < order.len() && #[trigger] order[t] == x && candidates[x].0.valid(
                            w,
                        ) && forall|u: int|
                            k + 1 <= u < t ==> !candidates[#[trigger] order[u]].0.valid(w);
                    assert(k <= t < order.len() && order[t] == x);
                },
                None => {},
            }
        }
    }
}

/// The candidate that is executed is valid, and every candidate that scores
/// higher, or scores the same and was proposed earlier, is invalid. Where
/// none is executed, none is valid.
pub proof fn lemma_chosen(w: WorldView, candidates: Seq<(Action, i32)>)
    ensures
        match chosen(w, candidates) {
            Some(k) => 0 <= k < candidates.len() && candidates[k].0.valid(w) && forall|j: int|
                0 <= j < candidates.len() && #[trigger] tried_before(scores_of(candidates), j, k)
                    ==> !candidates[j].0.valid(w),
            None => forall|j: int|
                0 <= j < candidates.len() ==> !(#[trigger] candidates[j]).0.valid(w),
        },
{
    let scores = scores_of(candidates);
    let order = spec_trial_order(scores);
    lemma_trial_order(scores);
    lemma_first_valid(w, candidates, order, 0);
    match chosen(w, candidates) {
        Some(k) => {
            let t = choose|t: int|
                0 <= t < order.len() && #[trigger] order[t] == k && candidates[k].0.valid(w)
                    && forall|u: int| 0 <= u < t ==> !candidates[#[trigger] order[u]].0.valid(w);
            assert forall|j: int|
                0 <= j < candidates.len() && #[trigger] tried_before(
                    scores,
                    j,
                    k,
                ) implies !candidates[j].0.valid(w) by {
                assert(order.contains(j));
                let a = choose|a: int| 0 <= a < order.len() && order[a] == j;
                if a > t {
                    assert(tried_before(scores, order[t], order[a]));
                }
            }
        },
        None => {
            assert forall|j: int| 0 <= j < candidates.len() implies !(
            #[trigger] candidates[j]).0.valid(w) by {
                assert(order.contains(j));
                let a = choose|a: int| 0 <= a < order.len() && order[a] == j;
                assert(!candidates[order[a]].0.valid(w));
            }
        },
    }
}

/// A move fails where no board exists, where the destination is no cell of
/// the board, and where an entity blocks the destination. Otherwise the mover,
/// where it has a position, stands on the destination afterwards, and
/// everything else is as before.
pub proof fn lemma_move(w: WorldView, a: MoveToAction)
    ensures
        w.board is None ==> !a.valid(w),
        w.board matches Some(board) && !board.contains(a.destination) ==> !a.valid(w),
        w.occupied(a.destination) ==> !a.valid(w),
        w.board matches Some(board) && board.contains(a.destination) && !w.occupied(a.destination)
            && w.position_of(a.entity) is Some ==> a.valid(w),
        a.valid(w) ==> {
            &&& a.apply(w).position_of(a.entity) == Some(a.destination)
            &&& a.apply(w).board == w.board
            &&& a.apply(w).queue == w.queue
            &&& a.apply(w).pending == w.pending
            &&& a.apply(w).entities.len() == w.entities.len()
            &&& forall|i: int|
                0 <= i < w.entities.len() && w.find(a.entity) != Some(i) ==> a.apply(w).entities[i]
                    == w.entities[i]
            &&& a.apply(w).entities[w.find(a.entity)->0] == (EntityView {
                position: Some(a.destination),
                ..w.entities[w.find(a.entity)->0]
            })
        },
{
    if a.valid(w) {
        lemma_find_same_ids(w, a.apply(w), a.entity);
    }
}

/// An attack fails where the attacker has no position, where the target cell
/// is farther than Chebyshev distance 1 from it, and where no entity with
/// health stands on the target cell. Otherwise it leaves exactly one damage
/// action for each entity with health on the target cell, with the damage
/// of the attack, and the world is as before.
pub proof fn lemma_melee(w: WorldView, a: MeleeAttackAction)
    ensures
        w.position_of(a.attacker) is None ==> !a.valid(w),
        w.position_of(a.attacker) matches Some(p) && spec_chebyshev(p, a.target_pos) > 1
            ==> !a.valid(w),
        w.targets_at(a.target_pos).len() == 0 ==> !a.valid(w),
        w.position_of(a.attacker) matches Some(p) && spec_chebyshev(p, a.target_pos) <= 1
            && w.targets_at(a.target_pos).len() > 0 ==> a.valid(w),
        a.follow_ups(w).len() == w.targets_at(a.target_pos).len(),
        forall|k: int|
            0 <= k < a.follow_ups(w).len() ==> #[trigger] a.follow_ups(w)[k] == Action::Damage(
                DamageAction { entity: w.targets_at(a.target_pos)[k], value: a.damage },
            ),
        Action::MeleeAttack(a).apply(w) == w,
{
}

/// The entities that can be struck at a cell are the entities with health
/// that stand on it: each entry of that kind is listed once, in the order of
/// the entries.
pub proof fn lemma_targets(entities: Seq<EntityView>, p: Point, n: int)
    requires
        0 <= n <= entities.len(),
    ensures
        targets_upto(entities, p, n).len() <= n,
        forall|k: int|
            0 <= k < targets_upto(entities, p, n).len() ==> exists|i: int|
                0 <= i < n && is_target(#[trigger] entities[i], p) && entities[i].id
                    == #[trigger] targets_upto(entities, p, n)[k],
        forall|i: int|
            0 <= i < n && is_target(#[trigger] entities[i], p) ==> targets_upto(
                entities,
                p,
                n,
            ).contains(entities[i].id),
        (forall|i: int| 0 <= i < n ==> !is_target(#[trigger] entities[i], p)) <==> targets_upto(
            entities,
            p,
            n,
        ).len() == 0,
    decreases n,
{
    if n > 0 {
        lemma_targets(entities, p, n - 1);
        let before = targets_upto(entities, p, n - 1);
        let all = targets_upto(entities, p, n);
        assert forall|k: int| 0 <= k < all.len() implies exists|i: int|
            0 <= i < n && is_target(#[trigger] entities[i], p) && entities[i].id == #[trigger] all[k] by {
            if k < before.len() {
                assert(all[k] == before[k]);
                let i = choose|i: int|
                    0 <= i < n - 1 && is_target(#[trigger] entities[i], p) && entities[i].id
                        == before[k];
                assert(0 <= i < n && is_target(entities[i], p) && entities[i].id == all[k]);
            } else {
                assert(is_target(entities[n - 1], p) && entities[n - 1].id == all[k]);
            }
        }
        assert forall|i: int| 0 <= i < n && is_target(#[trigger] entities[i], p) implies all.contains(
            entities[i].id,
        ) by {
            if i < n - 1 {
                assert(before.contains(entities[i].id));
                let k = choose|k: int| 0 <= k < before.len() && before[k] == entities[i].id;
                assert(all[k] == entities[i].id);
            } else {
                assert(all[before.len() as int] == entities[i].id);
            }
        }
        if all.len() == 0 {
            assert forall|i: int| 0 <= i < n implies !is_target(#[trigger] entities[i], p) by {
                if is_target(entities[i], p) {
                    assert(all.contains(entities[i].id));
                }
            }
        }
    }
}

/// Damage fails where the entity has no health. Otherwise the health
/// becomes `max(0, health - value)`: an entity whose health reaches 0 is
/// removed from the world, and any other is kept, changed in its health
/// alone. Nothing else changes.
pub proof fn lemma_damage(w: WorldView, a: DamageAction)
    requires
        w.wf(),
    ensures
        w.health_of(a.entity) is None ==> !a.valid(w),
        w.health_of(a.entity) is Some ==> a.valid(w),
        a.valid(w) ==> {
            let i = w.find(a.entity)->0;
            let health = w.health_of(a.entity)->0;
            let after: int = if health - a.value > 0 {
                health - a.value
            } else {
                0
            };
            &&& spec_health_after(health, a.value) == after
            &&& a.apply(w).board == w.board
            &&& a.apply(w).queue == w.queue
            &&& a.apply(w).pending == w.pending
            &&& after == 0 ==> !a.apply(w).contains(a.entity) && a.apply(w).entities
                == w.entities.remove(i)
            &&& after > 0 ==> a.apply(w).contains(a.entity) && a.apply(w).health_of(a.entity)
                == Some(after as u32) && a.apply(w).entities == w.entities.update(
                i,
                EntityView { health: Some(after as u32), ..w.entities[i] },
            )
        },
{
    if a.valid(w) {
        let i = w.find(a.entity)->0;
        let after = spec_health_after(w.health_of(a.entity)->0, a.value);
        if after == 0 {
            let v = a.apply(w);
            assert forall|j: int| 0 <= j < v.entities.len() implies (#[trigger] v.entities[j]).id
                != a.entity by {
                if j < i {
                    assert(v.entities[j] == w.entities[j]);
                    assert(w.entities[j].id != w.entities[i].id);
                } else {
                    assert(v.entities[j] == w.entities[j + 1]);
                    assert(w.entities[i].id != w.entities[j + 1].id);
                }
            }
            lemma_find_none(v, a.entity);
        } else {
            lemma_find_same_ids(w, a.apply(w), a.entity);
        }
    }
}

/// No action changes the queue or the board, and the worklist only through
/// the scheduler.
pub proof fn lemma_action_frame(w: WorldView, a: Action)
    ensures
        a.apply(w).queue == w.queue,
        a.apply(w).pending == w.pending,
        a.apply(w).board == w.board,
        w.wf() ==> a.apply(w).wf(),
{
    if w.wf() {
        match a {
            Action::Move(m) => {},
            Action::MeleeAttack(m) => {},
            Action::Damage(d) => {
                let v = a.apply(w);
                if w.find(d.entity) is Some {
                    let i = w.find(d.entity)->0;
                    if v.entities == w.entities.remove(i) {
                        assert forall|x: int, y: int| 0 <= x < y < v.entities.len() implies (
                        #[trigger] v.entities[x]).id != (#[trigger] v.entities[y]).id by {
                            let x0 = if x < i {
                                x
                            } else {
                                x + 1
                            };
                            let y0 = if y < i {
                                y
                            } else {
                                y + 1
                            };
                            assert(v.entities[x] == w.entities[x0]);
                            assert(v.entities[y] == w.entities[y0]);
                            assert(w.entities[x0].id != w.entities[y0].id);
                        }
                    }
                }
            },
        }
    }
}

/// Follow-ups are damage actions, and a damage action has no follow-ups.
pub proof fn lemma_follow_ups(w: WorldView, a: Action)
    ensures
        forall|k: int| 0 <= k < a.follow_ups(w).len() ==> #[trigger] a.follow_ups(w)[k] is Damage,
        a is Damage ==> a.follow_ups(w).len() == 0,
        a is Move ==> a.follow_ups(w).len() == 0,
{
}

/// A pass over the worklist leaves the queue and the board alone; what it
/// leaves pending are damage actions; and where only damage actions were
/// pending, it leaves nothing pending.
pub proof fn lemma_drained(w: WorldView, actions: Seq<Action>, n: int)
    requires
        0 <= n <= actions.len(),
    ensures
        drained_upto(w, actions, n).0.queue == w.queue,
        drained_upto(w, actions, n).0.board == w.board,
        drained_upto(w, actions, n).0.pending == w.pending,
        w.wf() ==> drained_upto(w, actions, n).0.wf(),
        forall|k: int|
            0 <= k < drained_upto(w, actions, n).1.len() ==> #[trigger] drained_upto(
                w,
                actions,
                n,
            ).1[k] is Damage,
        (forall|k: int| 0 <= k < n ==> #[trigger] actions[k] is Damage) ==> drained_upto(
            w,
            actions,
            n,
        ).1.len() == 0,
        !drained_upto(w, actions, n).2 ==> drained_upto(w, actions, n).0 == w && drained_upto(
            w,
            actions,
            n,
        ).1.len() == 0,
    decreases n,
{
    if n > 0 {
        lemma_drained(w, actions, n - 1);
        let before = drained_upto(w, actions, n - 1);
        let action = actions[n - 1];
        lemma_action_frame(before.0, action);
        lemma_follow_ups(before.0, action);
        if action.valid(before.0) {
            let all = drained_upto(w, actions, n).1;
            assert(all == before.1 + action.follow_ups(before.0));
            assert forall|k: int| 0 <= k < all.len() implies #[trigger] all[k] is Damage by {
                if k < before.1.len() {
                    assert(all[k] == before.1[k]);
                } else {
                    assert(all[k] == action.follow_ups(before.0)[k - before.1.len()]);
                }
            }
            if forall|k: int| 0 <= k < n ==> #[trigger] actions[k] is Damage {
                assert(actions[n - 1] is Damage);
            }
        } else {
            if forall|k: int| 0 <= k < n ==> #[trigger] actions[k] is Damage {
                assert forall|k: int| 0 <= k < n - 1 implies #[trigger] actions[k] is Damage by {}
            }
        }
    }
}

/// Cascades settle: a pass over the worklist leaves only damage actions
/// pending, so a second pass leaves nothing pending. No pass touches the
/// queue.
pub proof fn lemma_cascade_settles(w: WorldView)
    ensures
        spec_drain(w).0.queue == w.queue,
        forall|k: int|
            0 <= k < spec_drain(w).0.pending.len() ==> #[trigger] spec_drain(w).0.pending[k] is Damage,
        spec_drain(spec_drain(w).0).0.pending.len() == 0,
        !spec_drain(w).1 ==> spec_drain(w).0 == (WorldView { pending: Seq::empty(), ..w }),
{
    let start = WorldView { pending: Seq::empty(), ..w };
    lemma_drained(start, w.pending, w.pending.len() as int);
    if !spec_drain(w).1 {
        assert(drained_upto(start, w.pending, w.pending.len() as int).1 =~= Seq::empty());
    }
    let once = spec_drain(w).0;
    let again = WorldView { pending: Seq::empty(), ..once };
    lemma_drained(again, once.pending, once.pending.len() as int);
}

/// A step of the scheduler in which a pending action succeeds leaves the
/// queue as it was; any other step takes the front of the queue, if there
/// is one, and leaves the rest in its order.
pub proof fn lemma_queue_advances(w: WorldView)
    ensures
        spec_drain(w).1 ==> spec_process(w).0.queue == w.queue && spec_process(w).1 is None,
        !spec_drain(w).1 && w.queue.len() == 0 ==> spec_process(w).0.queue == w.queue,
        !spec_drain(w).1 && w.queue.len() > 0 ==> spec_process(w).0.queue == w.queue.drop_first(),
{
    lemma_cascade_settles(w);
    if !spec_drain(w).1 && w.queue.len() > 0 {
        let d = spec_drain(w).0;
        let popped = WorldView { queue: d.queue.drop_first(), ..d };
        let e = d.queue[0];
        match popped.actor_of(e) {
            None => {},
            Some(candidates) => {
                let cleared = popped.with_actor(e, Seq::empty());
                match chosen(cleared, candidates) {
                    Some(k) => {
                        lemma_action_frame(cleared, candidates[k].0);
                    },
                    None => {},
                }
            },
        }
    }
}

/// After its turn an entity holds no candidates: none is left over for a
/// later turn, whether or not one was executed.
pub proof fn lemma_turn_clears_candidates(w: WorldView, e: Entity)
    requires
        w.wf(),
        w.actor_of(e) is Some,
    ensures
        spec_resolve(w, e).0.actor_of(e) matches Some(left) ==> left.len() == 0,
        spec_resolve(w, e).1 is Some,
{
    let candidates = w.actor_of(e)->0;
    let cleared = w.with_actor(e, Seq::empty());
    lemma_find_same_ids(w, cleared, e);
    let i = w.find(e)->0;
    assert(cleared.actor_of(e) == Some(Seq::<(Action, i32)>::empty()));
    assert(cleared.wf());
    match chosen(cleared, candidates) {
        Some(k) => {
            let action = candidates[k].0;
            let v = action.apply(cleared);
            match action {
                Action::Move(m) => {
                    match cleared.find(m.entity) {
                        Some(j) => {
                            lemma_find_same_ids(cleared, v, e);
                        },
                        None => {},
                    }
                },
                Action::MeleeAttack(m) => {},
                Action::Damage(d) => {
                    match cleared.find(d.entity) {
                        Some(j) => {
                            if v.entities == cleared.entities.remove(j) {
                                lemma_removed_find(cleared, j, e);
                            } else {
                                lemma_find_same_ids(cleared, v, e);
                            }
                        },
                        None => {},
                    }
                },
            }
        },
        None => {},
    }
}

/// Removing an entry from a world without doubles removes its entity and
/// leaves the others findable, with what they carry.
proof fn lemma_removed_find(w: WorldView, j: int, e: Entity)
    requires
        w.wf(),
        0 <= j < w.entities.len(),
    ensures
        ({
            let v = WorldView { entities: w.entities.remove(j), ..w };
            match v.find(e) {
                Some(k) => w.find(e) is Some && v.entities[k] == w.entities[w.find(e)->0],
                None => true,
            }
        }),
{
    let v = WorldView { entities: w.entities.remove(j), ..w };
    if v.find(e) is Some {
        let k = v.find(e)->0;
        let k0 = if k < j {
            k
        } else {
            k + 1
        };
        assert(v.entities[k] == w.entities[k0]);
        assert(is_first(w.entities, e, k0)) by {
            assert forall|t: int| 0 <= t < k0 implies (#[trigger] w.entities[t]).id != e by {
                assert(w.entities[t].id != w.entities[k0].id);
            }
        }
        lemma_find_first(w, e, k0);
    }
}

/// Whether the entity stands in the queue.
pub open spec fn is_queued(queue: Seq<Entity>, e: Entity) -> bool {
    exists|k: int| 0 <= k < queue.len() && #[trigger] queue[k] == e
}

/// The actors listed for the queue are actors that are not the human's, each
/// listed once.
proof fn lemma_actors_upto(entities: Seq<EntityView>, n: int)
    requires
        0 <= n <= entities.len(),
        forall|i: int, j: int|
            0 <= i < j < entities.len() ==> (#[trigger] entities[i]).id != (#[trigger] entities[j]).id,
    ensures
        actors_upto(entities, n).no_duplicates(),
        forall|k: int|
            0 <= k < actors_upto(entities, n).len() ==> exists|i: int|
                0 <= i < n && (#[trigger] entities[i]).actor is Some && !entities[i].player
                    && entities[i].id == #[trigger] actors_upto(entities, n)[k],
    decreases n,
{
    if n > 0 {
        lemma_actors_upto(entities, n - 1);
        let before = actors_upto(entities, n - 1);
        let all = actors_upto(entities, n);
        assert forall|k: int| 0 <= k < all.len() implies exists|i: int|
            0 <= i < n && (#[trigger] entities[i]).actor is Some && !entities[i].player
                && entities[i].id == #[trigger] all[k] by {
            if k < before.len() {
                assert(all[k] == before[k]);
                let i = choose|i: int|
                    0 <= i < n - 1 && (#[trigger] entities[i]).actor is Some && !entities[i].player
                        && entities[i].id == before[k];
                assert(0 <= i < n && entities[i].id == all[k]);
            } else {
                assert(entities[n - 1].id == all[k]);
            }
        }
        assert forall|a: int, b: int| 0 <= a < all.len() && 0 <= b < all.len() && a != b implies all[a]
            != all[b] by {
            let lo = if a < b {
                a
            } else {
                b
            };
            let hi = if a < b {
                b
            } else {
                a
            };
            if hi < before.len() {
                assert(all[a] == before[a] && all[b] == before[b]);
            } else {
                assert(all[hi] == entities[n - 1].id);
                assert(all[lo] == before[lo]);
                let i = choose|i: int|
                    0 <= i < n - 1 && (#[trigger] entities[i]).actor is Some && !entities[i].player
                        && entities[i].id == before[lo];
                assert(entities[i].id != entities[n - 1].id);
            }
        }
    }
}

/// No entity stands in the queue twice: where the queue holds at most the
/// human's entity when it is filled, it holds each entity at most once
/// afterwards.
pub proof fn lemma_queue_holds_each_once(w: WorldView)
    requires
        w.wf(),
        w.queue.no_duplicates(),
        forall|i: int|
            0 <= i < w.entities.len() && (#[trigger] w.entities[i]).actor is Some
                && !w.entities[i].player ==> !is_queued(w.queue, w.entities[i].id),
    ensures
        (w.queue + actors_upto(w.entities, w.entities.len() as int)).no_duplicates(),
{
    let actors = actors_upto(w.entities, w.entities.len() as int);
    let all = w.queue + actors;
    lemma_actors_upto(w.entities, w.entities.len() as int);
    assert forall|a: int, b: int| 0 <= a < all.len() && 0 <= b < all.len() && a != b implies all[a]
        != all[b] by {
        let lo = if a < b {
            a
        } else {
            b
        };
        let hi = if a < b {
            b
        } else {
            a
        };
        if hi < w.queue.len() {
            assert(all[a] == w.queue[a] && all[b] == w.queue[b]);
        } else if lo >= w.queue.len() {
            assert(all[a] == actors[a - w.queue.len()] && all[b] == actors[b - w.queue.len()]);
        } else {
            assert(all[lo] == w.queue[lo]);
            assert(all[hi] == actors[hi - w.queue.len()]);
            let i = choose|i: int|
                0 <= i < w.entities.len() && (#[trigger] w.entities[i]).actor is Some
                    && !w.entities[i].player && w.entities[i].id == actors[hi - w.queue.len()];
            if all[lo] == all[hi] {
                assert(is_queued(w.queue, w.entities[i].id));
            }
        }
    }
}

} // verus!
