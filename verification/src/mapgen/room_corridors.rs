//! Corridors that join the rooms, the nearest room first.

use vstd::prelude::*;
use crate::board::components::Tile;
use crate::board::BoardView;
use crate::config;
use crate::mapgen::common;
use crate::mapgen::common::{corridor_len, corridor_listing, spec_dig, spec_places};
use crate::mapgen::{lemma_board_fits_i32, only_dug, rooms_on_board, BuildData};
use crate::point::spec_manhattan;
use crate::random::PRng;
use crate::rect::Rect;

verus! {

/// Joins every room to the first: again and again the room that is nearest
/// to a joined one, by the Manhattan distance of their middles, is joined
/// to it by a corridor.
pub struct RoomCorridors;

/// The Manhattan distance between the middles of two rooms.
pub open spec fn spec_room_distance(a: Rect, b: Rect) -> int {
    spec_manhattan(a.spec_center(), b.spec_center())
}

/// Whether the pair at the places `(ci, di)` is the nearest pair of a joined
/// room and a room still apart, and the first such pair in the order of the
/// lists.
pub open spec fn is_closest(
    rooms: Seq<Rect>,
    connected: Seq<usize>,
    disconnected: Seq<usize>,
    ci: int,
    di: int,
) -> bool {
    &&& 0 <= ci < connected.len()
    &&& 0 <= di < disconnected.len()
    &&& forall|a: int, b: int|
        0 <= a < connected.len() && 0 <= b < disconnected.len() ==> {
            let best = spec_room_distance(
                rooms[connected[ci] as int],
                rooms[disconnected[di] as int],
            );
            let other = spec_room_distance(
                rooms[#[trigger] connected[a] as int],
                rooms[#[trigger] disconnected[b] as int],
            );
            best <= other && ((a < ci || (a == ci && b < di)) ==> best < other)
        }
}

/// There is one nearest pair at most.
pub proof fn lemma_closest_unique(
    rooms: Seq<Rect>,
    connected: Seq<usize>,
    disconnected: Seq<usize>,
    ci: int,
    di: int,
    cj: int,
    dj: int,
)
    requires
        is_closest(rooms, connected, disconnected, ci, di),
        is_closest(rooms, connected, disconnected, cj, dj),
    ensures
        ci == cj,
        di == dj,
{
    let first = spec_room_distance(rooms[connected[ci] as int], rooms[disconnected[di] as int]);
    let second = spec_room_distance(rooms[connected[cj] as int], rooms[disconnected[dj] as int]);
    assert(first <= second);
    assert(second <= first);
}

/// The places of the nearest pair in the two lists.
pub open spec fn spec_closest(rooms: Seq<Rect>, connected: Seq<usize>, disconnected: Seq<usize>) -> (
    int,
    int,
) {
    choose|ci: int, di: int| is_closest(rooms, connected, disconnected, ci, di)
}

/// How far the joining has come: the board, the cells that each corridor
/// turned into floor, the rooms that are joined, in the order in which they
/// were, and the rooms that are still apart.
pub struct Joining {
    pub board: BoardView,
    pub corridors: Seq<Seq<int>>,
    pub connected: Seq<usize>,
    pub disconnected: Seq<usize>,
}

/// The joining after `k` corridors, the `i`-th of which runs along `y` first
/// where `shapes[i]` holds. At first only the first room is joined. Each
/// corridor runs from the middle of the joined room of the nearest pair to
/// the middle of the other, which then is joined too, behind the others.
pub open spec fn joined(start: BoardView, rooms: Seq<Rect>, shapes: Seq<bool>, k: int) -> Joining
    decreases k,
{
    if k <= 0 {
        Joining {
            board: start,
            corridors: Seq::empty(),
            connected: seq![0usize],
            disconnected: Seq::new(
                if rooms.len() > 0 {
                    (rooms.len() - 1) as nat
                } else {
                    0
                },
                |i: int| (i + 1) as usize,
            ),
        }
    } else {
        let so_far = joined(start, rooms, shapes, k - 1);
        let pair = spec_closest(rooms, so_far.connected, so_far.disconnected);
        let from = rooms[so_far.connected[pair.0] as int].spec_center();
        let to = rooms[so_far.disconnected[pair.1] as int].spec_center();
        Joining {
            board: spec_dig(so_far.board, shapes[k - 1], from, to),
            corridors: so_far.corridors.push(
                corridor_listing(so_far.board, shapes[k - 1], from, to, corridor_len(from, to)),
            ),
            connected: so_far.connected.push(so_far.disconnected[pair.1]),
            disconnected: so_far.disconnected.remove(pair.1),
        }
    }
}

/// The number of corridors that join the rooms.
pub open spec fn spec_joins(rooms: Seq<Rect>) -> int {
    if rooms.len() > 0 {
        rooms.len() - 1
    } else {
        0
    }
}

/// Whether `after` is what joining the rooms of `before` leaves, with
/// corridors of the given shapes: the board and the corridors are those of
/// the joining, and where recording is switched on the tiles were recorded
/// after each corridor.
pub open spec fn is_joined(before: BuildData, after: BuildData, shapes: Seq<bool>) -> bool {
    let rooms = before.rects->0@;
    let n = spec_joins(rooms);
    let recorded = before.history@.len() as int;
    &&& shapes.len() == n
    &&& after.board@ == joined(before.board@, rooms, shapes, n).board
    &&& after.rects == before.rects
    &&& after.starting_position == before.starting_position
    &&& after.corridors matches Some(corridors) && corridors@.len() == n && forall|i: int|
        0 <= i < n ==> spec_places((#[trigger] corridors@[i])@) == joined(
            before.board@,
            rooms,
            shapes,
            n,
        ).corridors[i]
    &&& after.history@.len() == recorded + (if config::SHOW_MAP_GEN {
        n
    } else {
        0
    })
    &&& forall|j: int| 0 <= j < recorded ==> after.history@[j] == before.history@[j]
    &&& forall|j: int|
        recorded <= j < after.history@.len() ==> (#[trigger] after.history@[j])@ == joined(
            before.board@,
            rooms,
            shapes,
            j - recorded + 1,
        ).board.tiles
}

/// The joining after `k` corridors depends on the first `k` shapes only.
pub proof fn lemma_joined_prefix(
    start: BoardView,
    rooms: Seq<Rect>,
    shapes: Seq<bool>,
    more: Seq<bool>,
    k: int,
)
    requires
        k <= shapes.len() <= more.len(),
        forall|i: int| 0 <= i < shapes.len() ==> more[i] == shapes[i],
    ensures
        joined(start, rooms, more, k) == joined(start, rooms, shapes, k),
    decreases k,
{
    if k > 0 {
        lemma_joined_prefix(start, rooms, shapes, more, k - 1);
    }
}

/// The nearest pair of a joined room and a room still apart.
fn closest_pair(rooms: &Vec<Rect>, connected: &Vec<usize>, disconnected: &Vec<usize>, Ghost(board): Ghost<
    BoardView,
>) -> (pair: (usize, usize))
    requires
        board.wf(),
        rooms_on_board(rooms@, board),
        connected@.len() > 0,
        disconnected@.len() > 0,
        forall|k: int| 0 <= k < connected@.len() ==> #[trigger] connected@[k] < rooms@.len(),
        forall|k: int| 0 <= k < disconnected@.len() ==> #[trigger] disconnected@[k] < rooms@.len(),
    ensures
        is_closest(rooms@, connected@, disconnected@, pair.0 as int, pair.1 as int),
{
    proof {
        lemma_board_fits_i32(board);
    }
    let mut best: (usize, usize) = (0, 0);
    let mut best_dist: i32 = rooms[connected[0]].center().dist_manhattan(
        rooms[disconnected[0]].center(),
    );
    let mut a: usize = 0;
    while a < connected.len()
        invariant
            board.wf(),
            board.width + board.height <= 0x8000_0001,
            rooms_on_board(rooms@, board),
            connected@.len() > 0,
            disconnected@.len() > 0,
            forall|k: int| 0 <= k < connected@.len() ==> #[trigger] connected@[k] < rooms@.len(),
            forall|k: int|
                0 <= k < disconnected@.len() ==> #[trigger] disconnected@[k] < rooms@.len(),
            a <= connected@.len(),
            best.0 < connected@.len(),
            best.1 < disconnected@.len(),
            a == 0 ==> best == (0usize, 0usize),
            best.0 < a || a == 0,
            best_dist == spec_room_distance(
                rooms@[connected@[best.0 as int] as int],
                rooms@[disconnected@[best.1 as int] as int],
            ),
            forall|p: int, q: int|
                0 <= p < a && 0 <= q < disconnected@.len() ==> {
                    let other = spec_room_distance(
                        rooms@[#[trigger] connected@[p] as int],
                        rooms@[#[trigger] disconnected@[q] as int],
                    );
                    best_dist <= other && ((p < best.0 || (p == best.0 && q < best.1))
                        ==> best_dist < other)
                },
        decreases connected.len() - a,
    {
        let from = rooms[connected[a]].center();
        let mut b: usize = 0;
        while b < disconnected.len()
            invariant
                board.wf(),
                board.width + board.height <= 0x8000_0001,
                rooms_on_board(rooms@, board),
                connected@.len() > 0,
                disconnected@.len() > 0,
                forall|k: int| 0 <= k < connected@.len() ==> #[trigger] connected@[k] < rooms@.len(),
                forall|k: int|
                    0 <= k < disconnected@.len() ==> #[trigger] disconnected@[k] < rooms@.len(),
                a < connected@.len(),
                b <= disconnected@.len(),
                from == rooms@[connected@[a as int] as int].spec_center(),
                best.0 <= a,
                best.0 < connected@.len(),
                best.1 < disconnected@.len(),
                a == 0 && b == 0 ==> best == (0usize, 0usize),
                best.0 < a || (best.0 == a && best.1 < b) || (a == 0 && b == 0),
                best_dist == spec_room_distance(
                    rooms@[connected@[best.0 as int] as int],
                    rooms@[disconnected@[best.1 as int] as int],
                ),
                forall|p: int, q: int|
                    (0 <= p < a && 0 <= q < disconnected@.len()) || (p == a && 0 <= q < b) ==> {
                        let other = spec_room_distance(
                            rooms@[#[trigger] connected@[p] as int],
                            rooms@[#[trigger] disconnected@[q] as int],
                        );
                        best_dist <= other && ((p < best.0 || (p == best.0 && q < best.1))
                            ==> best_dist < other)
                    },
            decreases disconnected.len() - b,
        {
            let to = rooms[disconnected[b]].center();
            let dist = from.dist_manhattan(to);
            if dist < best_dist {
                best = (a, b);
                best_dist = dist;
            }
            b = b + 1;
        }
        a = a + 1;
    }
    best
}

impl RoomCorridors {
    pub fn new() -> Box<RoomCorridors> {
        Box::new(RoomCorridors {  })
    }

    /// Joins the rooms by corridors, one for each room but the first, and
    /// records for each corridor the places of the cells that it turned into
    /// floor. Whether a corridor runs along `y` or along `x` first is drawn at
    /// random; all else is as `joined` says.
    pub fn build(&mut self, rng: &mut PRng, build_data: &mut BuildData)
        requires
            old(build_data).board@.filled(),
            old(build_data).rects matches Some(rooms) && rooms_on_board(
                rooms@,
                old(build_data).board@,
            ),
        ensures
            final(build_data).board@.filled(),
            only_dug(old(build_data).board@, final(build_data).board@),
            exists|shapes: Seq<bool>| is_joined(*old(build_data), *final(build_data), shapes),
    {
        let ghost start = build_data.board@;
        let ghost recorded = build_data.history@.len() as int;
        let rooms: Vec<Rect> = match &build_data.rects {
            Some(existing_rooms) => {
                let copy = existing_rooms.clone();
                assert(copy@ =~= existing_rooms@);
                copy
            },
            None => {
                return ;
            },
        };
        let mut connected: Vec<usize> = Vec::new();
        connected.push(0);
        let mut disconnected: Vec<usize> = Vec::new();
        let mut next: usize = 1;
        while next < rooms.len()
            invariant
                1 <= next,
                next <= rooms@.len() || (rooms@.len() == 0 && next == 1),
                disconnected@.len() == next - 1,
                forall|k: int| 0 <= k < disconnected@.len() ==> #[trigger] disconnected@[k] == k + 1,
            decreases rooms.len() - next,
        {
            disconnected.push(next);
            next = next + 1;
        }
        let mut corridors: Vec<Vec<usize>> = Vec::new();
        let ghost shapes: Seq<bool> = Seq::empty();
        let ghost k: int = 0;
        proof {
            let first = joined(start, rooms@, shapes, 0);
            assert(connected@ =~= first.connected);
            assert(disconnected@ =~= first.disconnected);
        }
        while disconnected.len() > 0
            invariant
                start == old(build_data).board@,
                recorded == old(build_data).history@.len(),
                old(build_data).rects is Some,
                rooms@ == old(build_data).rects->0@,
                start.filled(),
                build_data.board@.filled(),
                only_dug(start, build_data.board@),
                build_data.rects == old(build_data).rects,
                build_data.starting_position == old(build_data).starting_position,
                rooms_on_board(rooms@, start),
                connected@.len() > 0,
                forall|i: int|
                    0 <= i < connected@.len() ==> #[trigger] connected@[i] < rooms@.len() || rooms@.len()
                        == 0,
                forall|i: int| 0 <= i < disconnected@.len() ==> #[trigger] disconnected@[i] < rooms@.len(),
                0 <= k,
                shapes.len() == k,
                k + disconnected@.len() == spec_joins(rooms@),
                build_data.board@ == joined(start, rooms@, shapes, k).board,
                connected@ == joined(start, rooms@, shapes, k).connected,
                disconnected@ == joined(start, rooms@, shapes, k).disconnected,
                corridors@.len() == k,
                forall|i: int|
                    0 <= i < k ==> spec_places((#[trigger] corridors@[i])@) == joined(
                        start,
                        rooms@,
                        shapes,
                        k,
                    ).corridors[i],
                joined(start, rooms@, shapes, k).corridors.len() == k,
                build_data.history@.len() == recorded + (if config::SHOW_MAP_GEN {
                    k
                } else {
                    0
                }),
                forall|j: int|
                    0 <= j < recorded ==> build_data.history@[j] == old(build_data).history@[j],
                forall|j: int|
                    recorded <= j < build_data.history@.len() ==> (#[trigger] build_data.history@[j])@
                        == joined(start, rooms@, shapes, j - recorded + 1).board.tiles,
            decreases disconnected@.len(),
        {
            let (closest_connected, closest_disconnected) = closest_pair(
                &rooms,
                &connected,
                &disconnected,
                Ghost(start),
            );
            proof {
                lemma_board_fits_i32(start);
                let pair = spec_closest(rooms@, connected@, disconnected@);
                lemma_closest_unique(
                    rooms@,
                    connected@,
                    disconnected@,
                    closest_connected as int,
                    closest_disconnected as int,
                    pair.0,
                    pair.1,
                );
            }
            let closest_connected_center = rooms[connected[closest_connected]].center();
            let closest_disconnected_center = rooms[disconnected[closest_disconnected]].center();
            let ghost before = build_data.board@;
            let ghost so_far = joined(start, rooms@, shapes, k);
            let ghost listed = corridors@;
            let ghost history = build_data.history@;
            let h_then_v = rng.gen_bool();
            let dug = common::draw_corridor(
                &mut build_data.board,
                closest_connected_center,
                closest_disconnected_center,
                h_then_v,
            );
            corridors.push(dug);
            let joined_room = disconnected.remove(closest_disconnected);
            connected.push(joined_room);
            build_data.take_snapshot();
            proof {
                assert forall|x: int, y: int|
                    0 <= x < start.width && 0 <= y < start.height implies #[trigger] build_data.board@.tile_xy(
                    x,
                    y,
                ) == start.tile_xy(x, y) || build_data.board@.tile_xy(x, y) == Tile::Floor by {
                    assert(before.tile_xy(x, y) == start.tile_xy(x, y) || before.tile_xy(x, y)
                        == Tile::Floor);
                }
                let more = shapes.push(h_then_v);
                lemma_joined_prefix(start, rooms@, shapes, more, k);
                let now = joined(start, rooms@, more, k + 1);
                assert(joined(start, rooms@, more, k) == so_far);
                assert(now.board == build_data.board@);
                assert(now.connected == connected@);
                assert(now.disconnected == disconnected@);
                assert(now.corridors == so_far.corridors.push(spec_places(dug@)));
                assert forall|i: int| 0 <= i < k + 1 implies spec_places(
                    (#[trigger] corridors@[i])@,
                ) == now.corridors[i] by {
                    if i < k {
                        assert(corridors@[i] == listed[i]);
                    }
                }
                assert forall|j: int|
                    recorded <= j < build_data.history@.len() implies (#[trigger] build_data.history@[j])@
                    == joined(start, rooms@, more, j - recorded + 1).board.tiles by {
                    if j < history.len() {
                        assert(build_data.history@[j] == history[j]);
                        lemma_joined_prefix(start, rooms@, shapes, more, j - recorded + 1);
                    }
                }
                shapes = more;
                k = k + 1;
            }
        }
        build_data.corridors = Some(corridors);
        proof {
            assert(is_joined(*old(build_data), *build_data, shapes));
        }
    }
}

} // verus!
