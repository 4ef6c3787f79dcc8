//! Shortest paths on the grid, with steps in all eight directions.

use vstd::prelude::*;
use std::collections::{HashSet, VecDeque};
use crate::point::{spec_adjacent, spec_offset, spec_offset_fits, Point};

verus! {

broadcast use vstd::std_specs::hash::group_hash_axioms;

/// What a search runs on: where it starts and ends, the cells that exist,
/// and the cells that are blocked. The end may be entered even where it is
/// blocked.
pub struct Maze {
    pub start: Point,
    pub end: Point,
    pub tiles: Set<Point>,
    pub blockers: Set<Point>,
}

/// The eight unit steps from the greatest to the least, in the order of
/// points (by `x`, then by `y`).
pub open spec fn spec_steps() -> Seq<Point> {
    seq![
        Point { x: 1, y: 1 },
        Point { x: 1, y: 0 },
        Point { x: 1, y: -1i32 },
        Point { x: 0, y: 1 },
        Point { x: 0, y: -1i32 },
        Point { x: -1i32, y: 1 },
        Point { x: -1i32, y: 0 },
        Point { x: -1i32, y: -1i32 },
    ]
}

/// The neighbour of `p` in the direction `j`, where the coordinates allow
/// it.
pub open spec fn spec_neighbor(p: Point, j: int) -> Option<Point> {
    if 0 <= j < 8 && spec_offset_fits(p, spec_steps()[j]) {
        Some(spec_offset(p, spec_steps()[j]))
    } else {
        None
    }
}

impl Maze {
    /// Whether a path may enter the cell `p`.
    pub open spec fn passable(self, p: Point) -> bool {
        self.tiles.contains(p) && (!self.blockers.contains(p) || p == self.end)
    }

    /// Whether `p` can be reached from the start within `k` steps, each
    /// step entering a passable cell.
    pub open spec fn reach(self, k: nat, p: Point) -> bool
        decreases k,
    {
        if k == 0 {
            p == self.start
        } else {
            self.reach((k - 1) as nat, p) || (self.passable(p) && exists|j: int|
                0 <= j < 8 && (#[trigger] spec_neighbor(p, j)) is Some && self.reach(
                    (k - 1) as nat,
                    spec_neighbor(p, j)->0,
                ))
        }
    }

    /// Whether `p` is the neighbour in direction `j` of a cell that can be
    /// reached within `k` steps.
    pub open spec fn has_step(self, k: nat, p: Point, j: int) -> bool {
        0 <= j < 8 && spec_neighbor(p, j) is Some && self.reach(k, spec_neighbor(p, j)->0)
    }

    /// Whether `p` is exactly `k` steps from the start.
    pub open spec fn at_dist(self, k: nat, p: Point) -> bool {
        self.reach(k, p) && (k > 0 ==> !self.reach((k - 1) as nat, p))
    }

    /// Whether `p` can be reached from the start at all.
    pub open spec fn reachable(self, p: Point) -> bool {
        exists|k: nat| self.reach(k, p)
    }

    /// The number of steps from the start to a reachable cell.
    pub open spec fn dist(self, p: Point) -> nat {
        choose|k: nat| self.at_dist(k, p)
    }

    /// The greatest neighbour of `p`, from direction `j` on, that is exactly
    /// `d - 1` steps from the start.
    pub open spec fn pred_from(self, p: Point, d: nat, j: int) -> Option<Point>
        decreases 8 - j,
    {
        if j < 0 || j >= 8 || d == 0 {
            None
        } else if spec_neighbor(p, j) matches Some(q) && self.at_dist((d - 1) as nat, q) {
            spec_neighbor(p, j)
        } else {
            self.pred_from(p, d, j + 1)
        }
    }

    /// The cell before `p` on the path to `p`: its greatest neighbour that
    /// is one step nearer to the start.
    pub open spec fn pred(self, p: Point, d: nat) -> Option<Point> {
        self.pred_from(p, d, 0)
    }

    /// The path to a cell `p` that is `d` steps from the start: the cells
    /// entered, the start left out and `p` last.
    pub open spec fn path_to(self, p: Point, d: nat) -> Seq<Point>
        decreases d,
    {
        if d == 0 {
            Seq::empty()
        } else {
            match self.pred(p, d) {
                Some(q) => self.path_to(q, (d - 1) as nat).push(p),
                None => seq![p],
            }
        }
    }

    /// The path that a search gives: a shortest path from the start to the
    /// end, where the end differs from the start and can be reached.
    pub open spec fn path(self) -> Option<Seq<Point>> {
        if self.start != self.end && self.reachable(self.end) {
            Some(self.path_to(self.end, self.dist(self.end)))
        } else {
            None
        }
    }
}

/// What can be reached within `k` steps can be reached within any larger
/// number of steps.
pub proof fn lemma_reach_monotone(m: Maze, k: nat, n: nat, p: Point)
    requires
        m.reach(k, p),
        k <= n,
    ensures
        m.reach(n, p),
    decreases n,
{
    if k < n {
        lemma_reach_monotone(m, k, (n - 1) as nat, p);
    }
}

/// A cell has at most one distance from the start.
pub proof fn lemma_dist_unique(m: Maze, k: nat, n: nat, p: Point)
    requires
        m.at_dist(k, p),
        m.at_dist(n, p),
    ensures
        k == n,
{
    if k < n {
        lemma_reach_monotone(m, k, (n - 1) as nat, p);
    }
    if n < k {
        lemma_reach_monotone(m, n, (k - 1) as nat, p);
    }
}

/// A cell that is exactly `k` steps away has the distance `k`.
pub proof fn lemma_dist_is(m: Maze, k: nat, p: Point)
    requires
        m.at_dist(k, p),
    ensures
        m.dist(p) == k,
        m.reachable(p),
{
    lemma_dist_unique(m, k, m.dist(p), p);
}

/// Where one more step reaches nothing new, no number of steps does.
pub proof fn lemma_reach_closed(m: Maze, level: nat, k: nat, p: Point)
    requires
        forall|q: Point| m.reach(level + 1, q) ==> m.reach(level, q),
        m.reach(k, p),
    ensures
        m.reach(level, p),
    decreases k,
{
    if k <= level {
        lemma_reach_monotone(m, k, level, p);
    } else {
        let before = (k - 1) as nat;
        if m.reach(before, p) {
            lemma_reach_closed(m, level, before, p);
        } else {
            assert(m.reach((before + 1) as nat, p));
            let j = choose|j: int|
                0 <= j < 8 && (#[trigger] spec_neighbor(p, j)) is Some && m.reach(
                    before,
                    spec_neighbor(p, j)->0,
                );
            let q = spec_neighbor(p, j)->0;
            assert(m.has_step(before, p, j));
            assert(m.reach(before, q));
            lemma_reach_closed(m, level, before, q);
            assert(m.has_step(level, p, j));
            assert(m.reach((level + 1) as nat, p));
        }
    }
}

/// Steps can be walked back: if `q` is the neighbour of `p` in direction
/// `j`, then `p` is the neighbour of `q` in the opposite direction.
pub proof fn lemma_neighbor_symmetric(p: Point, j: int)
    requires
        spec_neighbor(p, j) is Some,
    ensures
        spec_neighbor(spec_neighbor(p, j)->0, 7 - j) == Some(p),
{
}

/// The neighbours of a cell are the cells at Chebyshev distance 1 from it.
pub proof fn lemma_neighbor_adjacent(p: Point, q: Point)
    ensures
        spec_adjacent(p, q) <==> exists|j: int| 0 <= j < 8 && #[trigger] spec_neighbor(p, j) == Some(q),
{
    if spec_adjacent(p, q) {
        let dx = q.x - p.x;
        let dy = q.y - p.y;
        let j: int = if dx == 1 {
            if dy == 1 {
                0
            } else if dy == 0 {
                1
            } else {
                2
            }
        } else if dx == 0 {
            if dy == 1 {
                3
            } else {
                4
            }
        } else {
            if dy == 1 {
                5
            } else if dy == 0 {
                6
            } else {
                7
            }
        };
        assert(spec_neighbor(p, j) == Some(q));
    }
    if exists|j: int| 0 <= j < 8 && #[trigger] spec_neighbor(p, j) == Some(q) {
        let j = choose|j: int| 0 <= j < 8 && #[trigger] spec_neighbor(p, j) == Some(q);
        assert(spec_adjacent(p, q));
    }
}

/// A cell that is `d > 0` steps away has a neighbour that is `d - 1` steps
/// away, so its predecessor exists, is a neighbour of it, and is one step
/// nearer to the start.
pub proof fn lemma_pred_exists(m: Maze, p: Point, d: nat)
    requires
        d > 0,
        m.at_dist(d, p),
    ensures
        m.pred(p, d) is Some,
        m.at_dist((d - 1) as nat, m.pred(p, d)->0),
        exists|j: int| 0 <= j < 8 && #[trigger] spec_neighbor(p, j) == m.pred(p, d),
        m.passable(p),
{
    let before = (d - 1) as nat;
    assert(m.reach((before + 1) as nat, p));
    let j = choose|j: int|
        0 <= j < 8 && (#[trigger] spec_neighbor(p, j)) is Some && m.reach(
            before,
            spec_neighbor(p, j)->0,
        );
    let q = spec_neighbor(p, j)->0;
    assert(m.has_step(before, p, j));
    assert(m.reach(before, q));
    assert(m.at_dist(before, q)) by {
        if before > 0 && m.reach((before - 1) as nat, q) {
            let earlier = (before - 1) as nat;
            assert(m.has_step(earlier, p, j));
            assert(m.reach((earlier + 1) as nat, p));
        }
    }
    lemma_pred_from(m, p, d, 0, j);
}

/// The search for a predecessor from direction `from` on succeeds where
/// some direction `j >= from` leads one step nearer to the start.
proof fn lemma_pred_from(m: Maze, p: Point, d: nat, from: int, j: int)
    requires
        d > 0,
        0 <= from <= j < 8,
        spec_neighbor(p, j) is Some,
        m.at_dist((d - 1) as nat, spec_neighbor(p, j)->0),
    ensures
        m.pred_from(p, d, from) is Some,
        m.at_dist((d - 1) as nat, m.pred_from(p, d, from)->0),
        exists|i: int| 0 <= i < 8 && #[trigger] spec_neighbor(p, i) == m.pred_from(p, d, from),
    decreases 8 - from,
{
    if spec_neighbor(p, from) matches Some(q) && m.at_dist((d - 1) as nat, q) {
        assert(spec_neighbor(p, from) == m.pred_from(p, d, from));
    } else {
        lemma_pred_from(m, p, d, from + 1, j);
    }
}

/// The path to a cell that is `d` steps away has `d` cells and ends in that
/// cell; its cell number `i` is `i + 1` steps from the start, can be
/// entered, and is a neighbour of the cell before it (of the start, for the
/// first). No path is shorter, since no fewer steps reach the cell.
pub proof fn lemma_path_to(m: Maze, p: Point, d: nat)
    requires
        m.at_dist(d, p),
    ensures
        m.path_to(p, d).len() == d,
        d > 0 ==> m.path_to(p, d).last() == p,
        forall|i: int| 0 <= i < d ==> m.at_dist((i + 1) as nat, #[trigger] m.path_to(p, d)[i]),
        forall|i: int| 0 <= i < d ==> m.passable(#[trigger] m.path_to(p, d)[i]),
        forall|i: int|
            0 < i < d ==> spec_adjacent(m.path_to(p, d)[i - 1], #[trigger] m.path_to(p, d)[i]),
        d > 0 ==> spec_adjacent(m.start, m.path_to(p, d)[0]),
    decreases d,
{
    if d > 0 {
        lemma_pred_exists(m, p, d);
        let q = m.pred(p, d)->0;
        let before = (d - 1) as nat;
        lemma_path_to(m, q, before);
        let head = m.path_to(q, before);
        let path = m.path_to(p, d);
        assert(path == head.push(p));
        lemma_neighbor_adjacent(p, q);
        assert(spec_adjacent(q, p));
        if before == 0 {
            assert(q == m.start);
        }
        assert forall|i: int| 0 <= i < d implies m.at_dist((i + 1) as nat, #[trigger] path[i]) by {
            if i < before {
                assert(path[i] == head[i]);
            }
        }
        assert forall|i: int| 0 <= i < d implies m.passable(#[trigger] path[i]) by {
            if i < before {
                assert(path[i] == head[i]);
            }
        }
        assert forall|i: int| 0 < i < d implies spec_adjacent(path[i - 1], #[trigger] path[i]) by {
            if i < before {
                assert(path[i] == head[i]);
                assert(path[i - 1] == head[i - 1]);
            } else {
                assert(path[i - 1] == head[i - 1]);
                assert(head.last() == q);
            }
        }
        if before > 0 {
            assert(path[0] == head[0]);
        }
    }
}

/// Whether `walk` is a walk from the start: its first cell is a neighbour of
/// the start, each further cell a neighbour of the cell before it, and every
/// cell can be entered.
pub open spec fn is_walk(m: Maze, walk: Seq<Point>) -> bool {
    &&& walk.len() > 0 ==> spec_adjacent(m.start, walk[0])
    &&& forall|i: int| 0 <= i < walk.len() ==> m.passable(#[trigger] walk[i])
    &&& forall|i: int| 0 < i < walk.len() ==> spec_adjacent(walk[i - 1], #[trigger] walk[i])
}

/// A walk of `n` cells reaches its last cell within `n` steps.
pub proof fn lemma_walk_reaches(m: Maze, walk: Seq<Point>)
    requires
        is_walk(m, walk),
        walk.len() > 0,
    ensures
        m.reach(walk.len(), walk.last()),
    decreases walk.len(),
{
    let p = walk.last();
    let before = (walk.len() - 1) as nat;
    let q = if walk.len() == 1 {
        m.start
    } else {
        walk[walk.len() - 2]
    };
    if walk.len() > 1 {
        let head = walk.drop_last();
        assert forall|i: int| 0 <= i < head.len() implies m.passable(#[trigger] head[i]) by {
            assert(head[i] == walk[i]);
        }
        assert forall|i: int| 0 < i < head.len() implies spec_adjacent(
            head[i - 1],
            #[trigger] head[i],
        ) by {
            assert(head[i] == walk[i] && head[i - 1] == walk[i - 1]);
        }
        assert(head[0] == walk[0]);
        lemma_walk_reaches(m, head);
        assert(head.last() == q);
        assert(spec_adjacent(walk[walk.len() - 2], walk[walk.len() - 1]));
    }
    assert(m.reach(before, q));
    assert(spec_adjacent(q, p));
    assert(spec_adjacent(p, q));
    lemma_neighbor_adjacent(p, q);
    let j = choose|j: int| 0 <= j < 8 && #[trigger] spec_neighbor(p, j) == Some(q);
    assert(spec_neighbor(p, j) is Some && m.reach(before, spec_neighbor(p, j)->0));
    assert(m.passable(walk[walk.len() - 1]));
    assert(m.reach((before + 1) as nat, p));
}

/// A cell that can be reached within `n` steps has a distance, which is at
/// most `n`.
pub proof fn lemma_reach_has_dist(m: Maze, n: nat, p: Point)
    requires
        m.reach(n, p),
    ensures
        m.at_dist(m.dist(p), p),
        m.dist(p) <= n,
    decreases n,
{
    if n > 0 && m.reach((n - 1) as nat, p) {
        lemma_reach_has_dist(m, (n - 1) as nat, p);
    } else {
        assert(m.at_dist(n, p));
        lemma_dist_is(m, n, p);
    }
}

/// The path that a search gives is a walk from the start that ends in the
/// end, and no walk from the start to the end has fewer cells. A search gives
/// a path exactly where the end differs from the start and some walk leads
/// to it.
pub proof fn lemma_path(m: Maze)
    ensures
        m.path() matches Some(path) ==> path.len() > 0 && path.last() == m.end && is_walk(m, path),
        forall|walk: Seq<Point>|
            #![trigger is_walk(m, walk)]
            m.start != m.end && is_walk(m, walk) && walk.len() > 0 && walk.last() == m.end
                ==> m.path() is Some && m.path()->0.len() <= walk.len(),
{
    if m.path() is Some {
        let k = choose|k: nat| m.reach(k, m.end);
        lemma_reach_has_dist(m, k, m.end);
        let d = m.dist(m.end);
        lemma_path_to(m, m.end, d);
        assert(d > 0);
    }
    assert forall|walk: Seq<Point>|
        #![trigger is_walk(m, walk)]
        m.start != m.end && is_walk(m, walk) && walk.len() > 0 && walk.last()
            == m.end implies m.path() is Some && m.path()->0.len() <= walk.len() by {
        lemma_walk_reaches(m, walk);
        lemma_reach_has_dist(m, walk.len(), m.end);
        lemma_path_to(m, m.end, m.dist(m.end));
    }
}

/// A number that stands for a point: different points have different
/// numbers.
pub open spec fn spec_key(p: Point) -> u64 {
    ((p.x + 0x8000_0000) * 0x1_0000_0000 + (p.y + 0x8000_0000)) as u64
}

/// Whether the set of keys holds the key of `p`.
pub open spec fn seen(keys: Set<u64>, p: Point) -> bool {
    keys.contains(spec_key(p))
}

/// Different points have different keys.
pub proof fn lemma_key_injective(p: Point, q: Point)
    requires
        spec_key(p) == spec_key(q),
    ensures
        p == q,
{
}

/// The maze that a search with these arguments runs on.
pub open spec fn spec_maze(start: Point, end: Point, tiles: Seq<Point>, blockers: Seq<Point>) -> Maze {
    Maze { start, end, tiles: tiles.to_set(), blockers: blockers.to_set() }
}

/// Every cell listed for the level `l` is exactly `l` steps from the
/// start.
pub open spec fn levels_exact(m: Maze, levels: Seq<Vec<Point>>) -> bool {
    forall|l: int, i: int|
        0 <= l < levels.len() && 0 <= i < levels[l]@.len() ==> m.at_dist(
            l as nat,
            #[trigger] levels[l]@[i],
        )
}

/// Every cell that is exactly `l` steps from the start is listed for the
/// level `l`.
pub open spec fn levels_complete(m: Maze, levels: Seq<Vec<Point>>) -> bool {
    forall|l: int, p: Point|
        0 <= l < levels.len() && #[trigger] m.at_dist(l as nat, p) ==> levels[l]@.contains(p)
}

/// Whether the neighbour of `q` in direction `j` has been looked at: where
/// it can be entered, it has been seen.
pub open spec fn explored(m: Maze, keys: Set<u64>, q: Point, j: int) -> bool {
    spec_neighbor(q, j) matches Some(n) ==> (m.passable(n) ==> seen(keys, n))
}

fn key(p: Point) -> (k: u64)
    ensures
        k == spec_key(p),
{
    let x: u64 = (p.x as i64 + 0x8000_0000) as u64;
    let y: u64 = (p.y as i64 + 0x8000_0000) as u64;
    x * 0x1_0000_0000 + y
}

/// The eight unit steps from the greatest to the least.
fn steps() -> (s: [Point; 8])
    ensures
        s@ == spec_steps(),
{
    let s = [
        Point { x: 1, y: 1 },
        Point { x: 1, y: 0 },
        Point { x: 1, y: -1 },
        Point { x: 0, y: 1 },
        Point { x: 0, y: -1 },
        Point { x: -1, y: 1 },
        Point { x: -1, y: 0 },
        Point { x: -1, y: -1 },
    ];
    assert(s@ =~= spec_steps());
    s
}

fn neighbor(p: Point, j: usize) -> (n: Option<Point>)
    requires
        j < 8,
    ensures
        n == spec_neighbor(p, j as int),
{
    let s = steps();
    p.checked_offset(s[j])
}

fn contains_point(points: &Vec<Point>, p: Point) -> (b: bool)
    ensures
        b == points@.contains(p),
{
    let mut i: usize = 0;
    while i < points.len()
        invariant
            i <= points.len(),
            forall|t: int| 0 <= t < i ==> points@[t] != p,
        decreases points.len() - i,
    {
        if points[i] == p {
            return true;
        }
        i = i + 1;
    }
    false
}

/// The keys of the listed points.
fn key_set(points: &Vec<Point>) -> (keys: HashSet<u64>)
    ensures
        keys@.finite(),
        forall|p: Point| #[trigger] seen(keys@, p) <==> points@.contains(p),
{
    let mut keys: HashSet<u64> = HashSet::new();
    let mut i: usize = 0;
    while i < points.len()
        invariant
            i <= points.len(),
            keys@.finite(),
            forall|p: Point| #[trigger]
                seen(keys@, p) <==> exists|t: int| 0 <= t < i && points@[t] == p,
        decreases points.len() - i,
    {
        let ghost before = keys@;
        keys.insert(key(points[i]));
        proof {
            assert forall|p: Point| #[trigger]
                seen(keys@, p) <==> exists|t: int| 0 <= t < i + 1 && points@[t] == p by {
                if seen(keys@, p) {
                    if seen(before, p) {
                        let t = choose|t: int| 0 <= t < i && points@[t] == p;
                        assert(0 <= t < i + 1 && points@[t] == p);
                    } else {
                        lemma_key_injective(p, points@[i as int]);
                    }
                }
                if exists|t: int| 0 <= t < i + 1 && points@[t] == p {
                    let t = choose|t: int| 0 <= t < i + 1 && points@[t] == p;
                    if t < i {
                        assert(seen(before, p));
                    }
                }
            }
        }
        i = i + 1;
    }
    proof {
        assert forall|p: Point| #[trigger] seen(keys@, p) <==> points@.contains(p) by {
            if points@.contains(p) {
                let t = choose|t: int| 0 <= t < points@.len() && points@[t] == p;
                assert(0 <= t < i && points@[t] == p);
            }
        }
    }
    keys
}

/// The greatest neighbour of `cur` that is listed for the level before
/// `l`.
fn find_pred(levels: &Vec<Vec<Point>>, l: usize, cur: Point, Ghost(m): Ghost<Maze>) -> (q: Option<
    Point,
>)
    requires
        0 < l < levels@.len(),
        levels_exact(m, levels@),
        levels_complete(m, levels@),
    ensures
        q == m.pred(cur, l as nat),
{
    let mut j: usize = 0;
    while j < 8
        invariant
            j <= 8,
            0 < l < levels@.len(),
            levels_exact(m, levels@),
            levels_complete(m, levels@),
            m.pred(cur, l as nat) == m.pred_from(cur, l as nat, j as int),
        decreases 8 - j,
    {
        match neighbor(cur, j) {
            Some(q) => {
                if contains_point(&levels[l - 1], q) {
                    proof {
                        let row = levels@[l - 1]@;
                        let t = choose|t: int| 0 <= t < row.len() && row[t] == q;
                        assert(m.at_dist((l - 1) as nat, levels@[l - 1]@[t]));
                    }
                    return Some(q);
                }
                proof {
                    if m.at_dist((l - 1) as nat, q) {
                        assert(levels@[l - 1]@.contains(q));
                    }
                }
            },
            None => {},
        }
        j = j + 1;
    }
    None
}

/// One round of the search: looks at every neighbour of every cell of the
/// last level and lists the cells seen for the first time.
fn expand(
    levels: &Vec<Vec<Point>>,
    visited: &mut HashSet<u64>,
    tile_set: &HashSet<u64>,
    blocker_set: &HashSet<u64>,
    end: Point,
    Ghost(m): Ghost<Maze>,
    Ghost(universe): Ghost<Set<u64>>,
) -> (next: Vec<Point>)
    requires
        levels@.len() >= 1,
        m.end == end,
        forall|p: Point| #[trigger] seen(tile_set@, p) <==> m.tiles.contains(p),
        forall|p: Point| #[trigger] seen(blocker_set@, p) <==> m.blockers.contains(p),
        levels_exact(m, levels@),
        levels_complete(m, levels@),
        forall|p: Point| #[trigger] seen(old(visited)@, p) <==> m.reach((levels@.len() - 1) as nat, p),
        old(visited)@.finite(),
        universe.finite(),
        old(visited)@.subset_of(universe),
        tile_set@.subset_of(universe),
    ensures
        forall|p: Point| #[trigger] seen(final(visited)@, p) <==> m.reach(levels@.len() as nat, p),
        forall|t: int| 0 <= t < next@.len() ==> m.at_dist(levels@.len() as nat, #[trigger] next@[t]),
        forall|p: Point| #[trigger] m.at_dist(levels@.len() as nat, p) ==> next@.contains(p),
        final(visited)@.finite(),
        final(visited)@.subset_of(universe),
        final(visited)@.len() == old(visited)@.len() + next@.len(),
{
    let level = levels.len() - 1;
    let ghost before_keys = visited@;
    let ghost lv = level as nat;
    let ghost nx = (level + 1) as nat;
    let mut next: Vec<Point> = Vec::new();
    let mut i: usize = 0;
    while i < levels[level].len()
        invariant
            level == levels@.len() - 1,
            lv == level as nat,
            nx == lv + 1,
            m.end == end,
            i <= levels@[level as int]@.len(),
            forall|p: Point| #[trigger] seen(tile_set@, p) <==> m.tiles.contains(p),
            forall|p: Point| #[trigger] seen(blocker_set@, p) <==> m.blockers.contains(p),
            levels_exact(m, levels@),
            forall|p: Point| #[trigger] seen(visited@, p) ==> m.reach(nx, p),
            forall|p: Point| m.reach(lv, p) ==> #[trigger] seen(visited@, p),
            forall|t: int| 0 <= t < next@.len() ==> m.at_dist(nx, #[trigger] next@[t]),
            forall|p: Point| #[trigger] seen(visited@, p) && !m.reach(lv, p) ==> next@.contains(p),
            forall|a: int, b: int|
                0 <= a < i && 0 <= b < 8 ==> #[trigger] explored(
                    m,
                    visited@,
                    levels@[level as int]@[a],
                    b,
                ),
            visited@.finite(),
            universe.finite(),
            visited@.subset_of(universe),
            tile_set@.subset_of(universe),
            visited@.len() == before_keys.len() + next@.len(),
        decreases levels@[level as int]@.len() - i,
    {
        let p = levels[level][i];
        assert(m.at_dist(lv, levels@[level as int]@[i as int]));
        let mut j: usize = 0;
        while j < 8
            invariant
                level == levels@.len() - 1,
                lv == level as nat,
                nx == lv + 1,
                m.end == end,
                j <= 8,
                i < levels@[level as int]@.len(),
                p == levels@[level as int]@[i as int],
                m.reach(lv, p),
                forall|p: Point| #[trigger] seen(tile_set@, p) <==> m.tiles.contains(p),
                forall|p: Point| #[trigger] seen(blocker_set@, p) <==> m.blockers.contains(p),
                forall|p: Point| #[trigger] seen(visited@, p) ==> m.reach(nx, p),
                forall|p: Point| m.reach(lv, p) ==> #[trigger] seen(visited@, p),
                forall|t: int| 0 <= t < next@.len() ==> m.at_dist(nx, #[trigger] next@[t]),
                forall|p: Point|
                    #[trigger] seen(visited@, p) && !m.reach(lv, p) ==> next@.contains(p),
                forall|a: int, b: int|
                    0 <= a < i && 0 <= b < 8 ==> #[trigger] explored(
                        m,
                        visited@,
                        levels@[level as int]@[a],
                        b,
                    ),
                forall|b: int| 0 <= b < j ==> #[trigger] explored(m, visited@, p, b),
                visited@.finite(),
                universe.finite(),
                visited@.subset_of(universe),
                tile_set@.subset_of(universe),
                visited@.len() == before_keys.len() + next@.len(),
            decreases 8 - j,
        {
            match neighbor(p, j) {
                Some(n) => {
                    let kn = key(n);
                    let open = tile_set.contains(&kn) && (!blocker_set.contains(&kn) || n == end);
                    assert(seen(tile_set@, n) <==> tile_set@.contains(kn));
                    assert(seen(blocker_set@, n) <==> blocker_set@.contains(kn));
                    assert(open == m.passable(n));
                    if open && !visited.contains(&kn) {
                        let ghost keys = visited@;
                        let ghost listed = next@;
                        assert(!seen(keys, n));
                        visited.insert(kn);
                        next.push(n);
                        proof {
                            lemma_neighbor_symmetric(p, j as int);
                            assert(spec_neighbor(n, 7 - j) == Some(p));
                            assert(m.reach(nx, n));
                            assert(!m.reach(lv, n));
                            assert(m.at_dist(nx, n));
                            assert(next@[listed.len() as int] == n);
                            assert forall|q: Point| m.reach(lv, q) implies #[trigger] seen(
                                visited@,
                                q,
                            ) by {
                                assert(seen(keys, q));
                            }
                            assert forall|q: Point| #[trigger] seen(visited@, q) implies m.reach(
                                nx,
                                q,
                            ) by {
                                if !seen(keys, q) {
                                    lemma_key_injective(q, n);
                                }
                            }
                            assert forall|q: Point| #[trigger]
                                seen(visited@, q) && !m.reach(lv, q) implies next@.contains(q) by {
                                if seen(keys, q) {
                                    let t = choose|t: int| 0 <= t < listed.len() && listed[t] == q;
                                    assert(next@[t] == q);
                                } else {
                                    lemma_key_injective(q, n);
                                }
                            }
                            assert forall|t: int| 0 <= t < next@.len() implies m.at_dist(
                                nx,
                                #[trigger] next@[t],
                            ) by {
                                if t < listed.len() {
                                    assert(next@[t] == listed[t]);
                                }
                            }
                            assert forall|a: int, b: int| 0 <= a < i && 0 <= b < 8 implies #[trigger]
                                explored(m, visited@, levels@[level as int]@[a], b) by {
                                assert(explored(m, keys, levels@[level as int]@[a], b));
                            }
                            assert forall|b: int| 0 <= b < j implies #[trigger] explored(
                                m,
                                visited@,
                                p,
                                b,
                            ) by {
                                assert(explored(m, keys, p, b));
                            }
                        }
                    }
                    assert(explored(m, visited@, p, j as int));
                },
                None => {
                    assert(explored(m, visited@, p, j as int));
                },
            }
            j = j + 1;
        }
        i = i + 1;
    }
    proof {
        assert forall|p: Point| m.reach(nx, p) implies #[trigger] seen(visited@, p) by {
            if !m.reach(lv, p) {
                let j = choose|j: int|
                    0 <= j < 8 && (#[trigger] spec_neighbor(p, j)) is Some && m.reach(
                        lv,
                        spec_neighbor(p, j)->0,
                    );
                let q = spec_neighbor(p, j)->0;
                assert(m.at_dist(lv, q)) by {
                    if lv > 0 && m.reach((lv - 1) as nat, q) {
                        let earlier = (lv - 1) as nat;
                        assert(m.reach((earlier + 1) as nat, p));
                    }
                }
                assert(levels@[level as int]@.contains(q));
                let row = levels@[level as int]@;
                let a = choose|a: int| 0 <= a < row.len() && row[a] == q;
                lemma_neighbor_symmetric(p, j);
                assert(explored(m, visited@, levels@[level as int]@[a], 7 - j));
            }
        }
        assert forall|p: Point| #[trigger] m.at_dist(nx, p) implies next@.contains(p) by {
            assert(seen(visited@, p));
        }
    }
    next
}

/// Finds a shortest path from `start` to `end` over the cells in `tiles`,
/// stepping in all eight directions and around the cells in
/// `tile_blockers`. The path leaves the start out and ends in `end`, which
/// may be entered even where it is blocked. Among shortest paths the one is
/// given on which every cell is preceded by its greatest neighbour that is
/// one step nearer to the start. There is no path from a cell to itself.
pub fn path_astar(start: Point, end: Point, tiles: &Vec<Point>, tile_blockers: &Vec<Point>) -> (path:
    Option<VecDeque<Point>>)
    ensures
        match path {
            Some(cells) => spec_maze(start, end, tiles@, tile_blockers@).path() == Some(cells@),
            None => spec_maze(start, end, tiles@, tile_blockers@).path() is None,
        },
{
    let ghost m = spec_maze(start, end, tiles@, tile_blockers@);
    if start == end {
        return None;
    }
    let tile_set = key_set(tiles);
    let blocker_set = key_set(tile_blockers);
    let ghost universe = tile_set@.insert(spec_key(start));
    let mut visited: HashSet<u64> = HashSet::new();
    visited.insert(key(start));
    let mut levels: Vec<Vec<Point>> = Vec::new();
    let mut first: Vec<Point> = Vec::new();
    first.push(start);
    levels.push(first);
    proof {
        assert(levels@[0]@[0] == start);
        assert forall|p: Point| #[trigger] seen(visited@, p) <==> m.reach(0, p) by {
            if seen(visited@, p) {
                lemma_key_injective(p, start);
            }
        }
        assert forall|l: int, p: Point|
            0 <= l < levels@.len() && #[trigger] m.at_dist(l as nat, p) implies levels@[l]@.contains(
            p,
        ) by {
            assert(levels@[0]@[0] == p);
        }
        assert forall|p: Point| #[trigger] seen(tile_set@, p) <==> m.tiles.contains(p) by {}
        assert forall|p: Point| #[trigger] seen(blocker_set@, p) <==> m.blockers.contains(p) by {}
    }
    while !visited.contains(&key(end))
        invariant
            start != end,
            m == spec_maze(start, end, tiles@, tile_blockers@),
            levels@.len() >= 1,
            forall|p: Point| #[trigger] seen(tile_set@, p) <==> m.tiles.contains(p),
            forall|p: Point| #[trigger] seen(blocker_set@, p) <==> m.blockers.contains(p),
            levels_exact(m, levels@),
            levels_complete(m, levels@),
            forall|p: Point| #[trigger] seen(visited@, p) <==> m.reach((levels@.len() - 1) as nat, p),
            levels@.len() >= 2 ==> !m.reach((levels@.len() - 2) as nat, end),
            visited@.finite(),
            universe.finite(),
            visited@.subset_of(universe),
            tile_set@.subset_of(universe),
        decreases universe.len() - visited@.len(),
    {
        let ghost level = (levels@.len() - 1) as nat;
        let ghost old_levels = levels@;
        assert(!seen(visited@, end));
        assert(!m.reach(level, end));
        let next = expand(&levels, &mut visited, &tile_set, &blocker_set, end, Ghost(m), Ghost(universe));
        if next.len() == 0 {
            proof {
                assert forall|q: Point| m.reach(level + 1, q) implies m.reach(level, q) by {
                    if !m.reach(level, q) {
                        assert(m.at_dist(level + 1, q));
                        assert(next@.contains(q));
                    }
                }
                if m.reachable(end) {
                    let k = choose|k: nat| m.reach(k, end);
                    lemma_reach_closed(m, level, k, end);
                }
            }
            return None;
        }
        levels.push(next);
        proof {
            vstd::set_lib::lemma_len_subset(visited@, universe);
            assert forall|l: int, i: int|
                0 <= l < levels@.len() && 0 <= i < levels@[l]@.len() implies m.at_dist(
                l as nat,
                #[trigger] levels@[l]@[i],
            ) by {
                if l < old_levels.len() {
                    assert(levels@[l] == old_levels[l]);
                    assert(m.at_dist(l as nat, old_levels[l]@[i]));
                }
            }
            assert forall|l: int, p: Point|
                0 <= l < levels@.len() && #[trigger] m.at_dist(
                    l as nat,
                    p,
                ) implies levels@[l]@.contains(p) by {
                if l < old_levels.len() {
                    assert(levels@[l] == old_levels[l]);
                }
            }
        }
    }
    let last = levels.len() - 1;
    proof {
        assert(seen(visited@, end));
        assert(m.reach(last as nat, end));
        assert(m.at_dist(last as nat, end));
        lemma_dist_is(m, last as nat, end);
    }
    let mut path: VecDeque<Point> = VecDeque::new();
    let mut cur = end;
    let mut l: usize = last;
    proof {
        assert(m.path_to(cur, l as nat) + path@ =~= m.path_to(end, last as nat));
    }
    while l > 0
        invariant
            l <= last,
            last == levels@.len() - 1,
            levels_exact(m, levels@),
            levels_complete(m, levels@),
            m.at_dist(l as nat, cur),
            m.path_to(end, last as nat) == m.path_to(cur, l as nat) + path@,
        decreases l,
    {
        let ghost suffix = path@;
        proof {
            lemma_pred_exists(m, cur, l as nat);
        }
        let q = match find_pred(&levels, l, cur, Ghost(m)) {
            Some(q) => q,
            None => {
                return None;
            },
        };
        path.push_front(cur);
        proof {
            assert(m.path_to(cur, l as nat) == m.path_to(q, (l - 1) as nat).push(cur));
            assert(m.path_to(q, (l - 1) as nat).push(cur) + suffix =~= m.path_to(
                q,
                (l - 1) as nat,
            ) + path@);
        }
        cur = q;
        l = l - 1;
    }
    proof {
        assert(m.path_to(cur, 0) + path@ =~= path@);
    }
    Some(path)
}

} // verus!
