//! What the map builders share: filling rectangles, drawing random
//! rectangles, and digging corridors.

use vstd::prelude::*;
use crate::board::components::Tile;
use crate::board::{lemma_row_cell, lemma_row_cells_differ, Board, BoardView};
use crate::point::Point;
use crate::random::PRng;
use crate::rect::Rect;

verus! {

/// Whether `m` lies between `a` and `b`, whichever of them is the greater.
pub open spec fn between(a: int, m: int, b: int) -> bool {
    (a <= m <= b) || (b <= m <= a)
}

/// Whether the cell `(x, y)` belongs to the corridor from `from` to `to`: an
/// L-shaped line that runs along `y` first if `y_first`, along `x` first
/// otherwise. The cell `from` itself does not belong to it.
pub open spec fn on_corridor(y_first: bool, from: Point, to: Point, x: int, y: int) -> bool {
    (x != from.x || y != from.y) && (if y_first {
        (x == from.x && between(from.y as int, y, to.y as int)) || (y == to.y && between(
            from.x as int,
            x,
            to.x as int,
        ))
    } else {
        (y == from.y && between(from.x as int, x, to.x as int)) || (x == to.x && between(
            from.y as int,
            y,
            to.y as int,
        ))
    })
}

/// Whether the board `after` is the board `before` with the corridor dug:
/// the cells of the corridor are floor, every other cell is as it was.
pub open spec fn corridor_dug(
    before: BoardView,
    after: BoardView,
    y_first: bool,
    from: Point,
    to: Point,
) -> bool {
    &&& after.width == before.width
    &&& after.height == before.height
    &&& after.seen == before.seen
    &&& after.tiles.len() == before.tiles.len()
    &&& forall|x: int, y: int|
        0 <= x < before.width && 0 <= y < before.height ==> #[trigger] after.tile_xy(x, y) == (
        if on_corridor(y_first, from, to, x, y) {
            Tile::Floor
        } else {
            before.tile_xy(x, y)
        })
}

/// The board with the corridor dug: the cells of the corridor are floor, every
/// other cell is as it was.
pub open spec fn spec_dig(board: BoardView, y_first: bool, from: Point, to: Point) -> BoardView {
    BoardView {
        width: board.width,
        height: board.height,
        tiles: Seq::new(
            board.tiles.len(),
            |i: int|
                if board.width > 0 && on_corridor(
                    y_first,
                    from,
                    to,
                    i % (board.width as int),
                    i / (board.width as int),
                ) {
                    Tile::Floor
                } else {
                    board.tiles[i]
                },
        ),
        seen: board.seen,
    }
}

/// A board on which the corridor was dug is the board that `spec_dig` gives.
pub proof fn lemma_dig(before: BoardView, after: BoardView, y_first: bool, from: Point, to: Point)
    requires
        before.filled(),
        corridor_dug(before, after, y_first, from, to),
    ensures
        after == spec_dig(before, y_first, from, to),
{
    let w = before.width as int;
    let h = before.height as int;
    let dug = spec_dig(before, y_first, from, to);
    assert forall|i: int| 0 <= i < after.tiles.len() implies after.tiles[i] == dug.tiles[i] by {
        let x = i % w;
        let y = i / w;
        vstd::arithmetic::div_mod::lemma_fundamental_div_mod(i, w);
        vstd::arithmetic::div_mod::lemma_mod_bound(i, w);
        vstd::arithmetic::div_mod::lemma_multiply_divide_lt(i, w, h);
        vstd::arithmetic::div_mod::lemma_div_pos_is_pos(i, w);
        assert(y * w == w * y) by (nonlinear_arith);
        assert(after.index(x, y) == i);
        assert(before.index(x, y) == i);
        assert(after.tile_xy(x, y) == after.tiles[i]);
        assert(before.tile_xy(x, y) == before.tiles[i]);
    }
    assert(after.tiles =~= dug.tiles);
}

/// The places as integers.
pub open spec fn spec_places(indices: Seq<usize>) -> Seq<int> {
    indices.map_values(|i: usize| i as int)
}

/// The number of steps from `from` to `to` along a corridor.
pub open spec fn corridor_len(from: Point, to: Point) -> int {
    (if to.x >= from.x {
        to.x - from.x
    } else {
        from.x - to.x
    }) + (if to.y >= from.y {
        to.y - from.y
    } else {
        from.y - to.y
    })
}

/// `a` moved by `k` steps towards `b`.
pub open spec fn towards(a: int, b: int, k: int) -> int {
    if b >= a {
        a + k
    } else {
        a - k
    }
}

/// The cell that the corridor from `from` to `to` reaches after `k` steps.
pub open spec fn corridor_pos(y_first: bool, from: Point, to: Point, k: int) -> (int, int) {
    let ax = if to.x >= from.x {
        to.x - from.x
    } else {
        from.x - to.x
    };
    let ay = if to.y >= from.y {
        to.y - from.y
    } else {
        from.y - to.y
    };
    if y_first {
        if k <= ay {
            (from.x as int, towards(from.y as int, to.y as int, k))
        } else {
            (towards(from.x as int, to.x as int, k - ay), to.y as int)
        }
    } else {
        if k <= ax {
            (towards(from.x as int, to.x as int, k), from.y as int)
        } else {
            (to.x as int, towards(from.y as int, to.y as int, k - ax))
        }
    }
}

/// The places, in the row-major list of tiles, of the cells among the first
/// `n` of the corridor that are no floor on the board `before`, in the order
/// in which the corridor reaches them.
pub open spec fn corridor_listing(
    before: BoardView,
    y_first: bool,
    from: Point,
    to: Point,
    n: int,
) -> Seq<int>
    decreases n,
{
    if n <= 0 {
        Seq::empty()
    } else {
        let rest = corridor_listing(before, y_first, from, to, n - 1);
        let cell = corridor_pos(y_first, from, to, n);
        if before.tile_xy(cell.0, cell.1) != Tile::Floor {
            rest.push(before.index(cell.0, cell.1))
        } else {
            rest
        }
    }
}

/// Whether `indices` lists the cells of the corridor that were no floor
/// before, in the order in which the corridor reaches them.
pub open spec fn corridor_listed(
    before: BoardView,
    indices: Seq<usize>,
    y_first: bool,
    from: Point,
    to: Point,
) -> bool {
    spec_places(indices) == corridor_listing(before, y_first, from, to, corridor_len(from, to))
}

/// The cells of a corridor are the cells that it reaches after one step or
/// more.
pub proof fn lemma_corridor_cells(y_first: bool, from: Point, to: Point, x: int, y: int)
    ensures
        on_corridor(y_first, from, to, x, y) <==> exists|k: int|
            1 <= k <= corridor_len(from, to) && #[trigger] corridor_pos(y_first, from, to, k) == (
                x,
                y,
            ),
{
    let ax = if to.x >= from.x {
        to.x - from.x
    } else {
        from.x - to.x
    };
    let ay = if to.y >= from.y {
        to.y - from.y
    } else {
        from.y - to.y
    };
    if on_corridor(y_first, from, to, x, y) {
        let dx = if x >= from.x {
            x - from.x
        } else {
            from.x - x
        };
        let dy = if y >= from.y {
            y - from.y
        } else {
            from.y - y
        };
        let k = if y_first {
            if x == from.x && between(from.y as int, y, to.y as int) {
                dy
            } else {
                ay + dx
            }
        } else {
            if y == from.y && between(from.x as int, x, to.x as int) {
                dx
            } else {
                ax + dy
            }
        };
        assert(corridor_pos(y_first, from, to, k) == (x, y));
    }
    if exists|k: int|
        1 <= k <= corridor_len(from, to) && #[trigger] corridor_pos(y_first, from, to, k) == (x, y) {
        let k = choose|k: int|
            1 <= k <= corridor_len(from, to) && #[trigger] corridor_pos(y_first, from, to, k) == (
                x,
                y,
            );
        assert(on_corridor(y_first, from, to, x, y));
    }
}

/// Sets every tile of the rectangle, which must lie on the board.
pub fn set_rect(board: &mut Board, rect: &Rect, tile: Tile)
    requires
        old(board)@.filled(),
        rect.x1 <= rect.x2 < old(board)@.width,
        rect.y1 <= rect.y2 < old(board)@.height,
    ensures
        final(board)@.width == old(board)@.width,
        final(board)@.height == old(board)@.height,
        final(board)@.seen == old(board)@.seen,
        final(board)@.filled(),
        forall|x: int, y: int|
            0 <= x < old(board)@.width && 0 <= y < old(board)@.height
                ==> #[trigger] final(board)@.tile_xy(x, y) == (if rect.x1 <= x <= rect.x2 && rect.y1
                <= y <= rect.y2 {
                tile
            } else {
                old(board)@.tile_xy(x, y)
            }),
{
    board.set_rect(rect, tile);
}

/// Some rectangle that is at least `min_width` and less than `max_width`
/// wide, at least `min_height` and less than `max_height` high, and lies
/// with its first corner at or behind `(x_min, y_min)` and with all its cells
/// before `(x_max - 1, y_max - 1)`.
pub fn random_rect(
    min_width: u32,
    max_width: u32,
    min_height: u32,
    max_height: u32,
    x_min: u32,
    x_max: u32,
    y_min: u32,
    y_max: u32,
    rng: &mut PRng,
) -> (r: Rect)
    requires
        0 < min_width < max_width,
        0 < min_height < max_height,
        x_min + max_width - 1 < x_max,
        y_min + max_height - 1 < y_max,
    ensures
        min_width <= r.spec_width() < max_width,
        min_height <= r.spec_height() < max_height,
        x_min <= r.x1 <= r.x2,
        r.x2 + 1 < x_max,
        y_min <= r.y1 <= r.y2,
        r.y2 + 1 < y_max,
{
    let w: u32 = rng.gen_range(min_width, max_width);
    let h: u32 = rng.gen_range(min_height, max_height);
    let x: u32 = rng.gen_range(x_min, x_max - w);
    let y: u32 = rng.gen_range(y_min, y_max - h);
    Rect::new(x, y, w, h)
}

/// Digs an L-shaped corridor from `source` to `destination`, both of which
/// must be cells of the board: every cell of the corridor becomes floor.
/// With `h_then_v` the corridor runs along `y` first, else along `x` first.
/// Gives the places, in the row-major list of tiles, of the cells that were
/// no floor before.
pub fn draw_corridor(board: &mut Board, source: Point, destination: Point, h_then_v: bool) -> (corridor:
    Vec<usize>)
    requires
        old(board)@.filled(),
        old(board)@.contains(source),
        old(board)@.contains(destination),
    ensures
        final(board)@.filled(),
        final(board)@ == spec_dig(old(board)@, h_then_v, source, destination),
        corridor_dug(old(board)@, final(board)@, h_then_v, source, destination),
        corridor_listed(old(board)@, corridor@, h_then_v, source, destination),
{
    let (from_x, from_y, to_x, to_y) = (source.x, source.y, destination.x, destination.y);
    let corridor = if h_then_v {
        draw_corridor_h_then_v(board, from_x, from_y, to_x, to_y)
    } else {
        draw_corridor_v_then_h(board, from_x, from_y, to_x, to_y)
    };
    proof {
        lemma_dig(old(board)@, board@, h_then_v, source, destination);
    }
    corridor
}

/// The corridor that runs along `x` first.
fn draw_corridor_v_then_h(board: &mut Board, from_x: i32, from_y: i32, to_x: i32, to_y: i32) -> (corridor:
    Vec<usize>)
    requires
        old(board)@.filled(),
        old(board)@.in_bounds_xy(from_x as int, from_y as int),
        old(board)@.in_bounds_xy(to_x as int, to_y as int),
    ensures
        final(board)@.filled(),
        corridor_dug(
            old(board)@,
            final(board)@,
            false,
            Point { x: from_x, y: from_y },
            Point { x: to_x, y: to_y },
        ),
        corridor_listed(
            old(board)@,
            corridor@,
            false,
            Point { x: from_x, y: from_y },
            Point { x: to_x, y: to_y },
        ),
{
    walk_corridor(board, from_x, from_y, to_x, to_y, false)
}

/// The corridor that runs along `y` first.
fn draw_corridor_h_then_v(board: &mut Board, from_x: i32, from_y: i32, to_x: i32, to_y: i32) -> (corridor:
    Vec<usize>)
    requires
        old(board)@.filled(),
        old(board)@.in_bounds_xy(from_x as int, from_y as int),
        old(board)@.in_bounds_xy(to_x as int, to_y as int),
    ensures
        final(board)@.filled(),
        corridor_dug(
            old(board)@,
            final(board)@,
            true,
            Point { x: from_x, y: from_y },
            Point { x: to_x, y: to_y },
        ),
        corridor_listed(
            old(board)@,
            corridor@,
            true,
            Point { x: from_x, y: from_y },
            Point { x: to_x, y: to_y },
        ),
{
    walk_corridor(board, from_x, from_y, to_x, to_y, true)
}

/// Walks from one cell to the other, one step at a time, and turns every
/// cell entered into floor.
fn walk_corridor(
    board: &mut Board,
    from_x: i32,
    from_y: i32,
    to_x: i32,
    to_y: i32,
    y_first: bool,
) -> (corridor: Vec<usize>)
    requires
        old(board)@.filled(),
        old(board)@.in_bounds_xy(from_x as int, from_y as int),
        old(board)@.in_bounds_xy(to_x as int, to_y as int),
    ensures
        final(board)@.filled(),
        corridor_dug(
            old(board)@,
            final(board)@,
            y_first,
            Point { x: from_x, y: from_y },
            Point { x: to_x, y: to_y },
        ),
        corridor_listed(
            old(board)@,
            corridor@,
            y_first,
            Point { x: from_x, y: from_y },
            Point { x: to_x, y: to_y },
        ),
{
    let ghost start = board@;
    let ghost from = Point { x: from_x, y: from_y };
    let ghost to = Point { x: to_x, y: to_y };
    let ghost n = corridor_len(from, to);
    let ghost k: int = 0;
    let mut x = from_x;
    let mut y = from_y;
    let mut corridor: Vec<usize> = Vec::new();
    proof {
        assert(spec_places(corridor@) =~= corridor_listing(
            start,
            y_first,
            from,
            to,
            0,
        ));
    }
    while x != to_x || y != to_y
        invariant
            start.filled(),
            board@.filled(),
            from == (Point { x: from_x, y: from_y }),
            to == (Point { x: to_x, y: to_y }),
            n == corridor_len(from, to),
            start.in_bounds_xy(from_x as int, from_y as int),
            start.in_bounds_xy(to_x as int, to_y as int),
            start.in_bounds_xy(x as int, y as int),
            0 <= k <= n,
            (x as int, y as int) == corridor_pos(y_first, from, to, k),
            (x == to_x && y == to_y) <==> k == n,
            corridor_dug(start, board@, y_first, from, Point { x, y }),
            spec_places(corridor@) == corridor_listing(start, y_first, from, to, k),
        decreases n - k,
    {
        let ghost cur = Point { x, y };
        let ghost before = board@;
        let ghost listed = corridor@;
        if y_first {
            if y < to_y {
                y = y + 1;
            } else if y > to_y {
                y = y - 1;
            } else if x < to_x {
                x = x + 1;
            } else if x > to_x {
                x = x - 1;
            }
        } else {
            if x < to_x {
                x = x + 1;
            } else if x > to_x {
                x = x - 1;
            } else if y < to_y {
                y = y + 1;
            } else if y > to_y {
                y = y - 1;
            }
        }
        let ghost next = Point { x, y };
        proof {
            k = k + 1;
            lemma_row_cell(x as int, y as int, start.width as int, start.height as int);
            assert((x as int, y as int) == corridor_pos(y_first, from, to, k));
            assert(!on_corridor(y_first, from, cur, x as int, y as int));
            assert(x != from_x || y != from_y);
            assert forall|cx: int, cy: int|
                0 <= cx < start.width && 0 <= cy < start.height implies on_corridor(
                y_first,
                from,
                next,
                cx,
                cy,
            ) == (on_corridor(y_first, from, cur, cx, cy) || (cx == x && cy == y)) by {}
        }
        let was = board.get_tile_xy(x as u32, y as u32);
        assert(was == start.tile_xy(x as int, y as int));
        if was != Tile::Floor {
            board.set_tile_xy(x as u32, y as u32, Tile::Floor);
            let i = board.xy_to_index(x as u32, y as u32);
            corridor.push(i);
            proof {
                assert(spec_places(corridor@) =~= spec_places(listed).push(i as int));
            }
        }
        proof {
            assert forall|cx: int, cy: int|
                0 <= cx < start.width && 0 <= cy < start.height implies #[trigger] board@.tile_xy(
                cx,
                cy,
            ) == (if on_corridor(y_first, from, next, cx, cy) {
                Tile::Floor
            } else {
                start.tile_xy(cx, cy)
            }) by {
                lemma_row_cell(cx, cy, start.width as int, start.height as int);
                lemma_row_cells_differ(cx, cy, x as int, y as int, start.width as int);
                assert(before.tile_xy(cx, cy) == (if on_corridor(y_first, from, cur, cx, cy) {
                    Tile::Floor
                } else {
                    start.tile_xy(cx, cy)
                }));
            }
        }
    }
    corridor
}

} // verus!
