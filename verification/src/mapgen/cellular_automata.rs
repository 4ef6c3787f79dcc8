//! Caves grown by a cellular automaton.

use vstd::prelude::*;
use crate::board::components::Tile;
use crate::board::{lemma_row_cell, lemma_row_cells_differ, BoardView};
use crate::config;
use crate::mapgen::BuildData;
use crate::mapgen::lemma_board_fits_i32;
use crate::point::{lemma_octant_unit, spec_octant, Point};
use crate::random::PRng;

verus! {

/// Of a hundred cells, about so many start as floor.
pub const PERCENT_FLOOR: u32 = 55;

/// How often the rule is applied after the board has been filled at
/// random.
pub const NUM_ITERATIONS: u32 = 15;

/// Fills the board off its border at random and lets the rule of the
/// automaton run over it.
pub struct CellularAutomataBuilder {}

/// Whether the neighbour of `(x, y)` in the direction `d` is a cell of the
/// board that holds a wall.
pub open spec fn is_wall_at(board: BoardView, x: int, y: int, d: Point) -> bool {
    board.in_bounds_xy(x + d.x, y + d.y) && board.tile_xy(x + d.x, y + d.y) == Tile::Wall
}

/// How many of the neighbours of `(x, y)` in the first `n` of the eight
/// directions hold a wall.
pub open spec fn wall_neighbors_upto(board: BoardView, x: int, y: int, n: int) -> int
    decreases n,
{
    if n <= 0 {
        0
    } else {
        wall_neighbors_upto(board, x, y, n - 1) + (if is_wall_at(
            board,
            x,
            y,
            spec_octant()[n - 1],
        ) {
            1int
        } else {
            0
        })
    }
}

/// The rule of the automaton: a cell becomes a wall where more than four of
/// its neighbours are walls, or none; else it becomes floor.
pub open spec fn spec_next_tile(board: BoardView, x: int, y: int) -> Tile {
    let neighbors = wall_neighbors_upto(board, x, y, 8);
    if neighbors > 4 || neighbors == 0 {
        Tile::Wall
    } else {
        Tile::Floor
    }
}

/// Whether `(x, y)` is a cell of the board off its border.
pub open spec fn is_inner(board: BoardView, x: int, y: int) -> bool {
    1 <= x < board.width - 1 && 1 <= y < board.height - 1
}

/// Whether `after` is `before` after one round of the automaton: every cell
/// off the border follows the rule, the border stays.
pub open spec fn is_next_generation(before: BoardView, after: BoardView) -> bool {
    &&& after.width == before.width
    &&& after.height == before.height
    &&& after.seen == before.seen
    &&& after.tiles.len() == before.tiles.len()
    &&& forall|x: int, y: int|
        0 <= x < before.width && 0 <= y < before.height ==> #[trigger] after.tile_xy(x, y) == (
        if is_inner(before, x, y) {
            spec_next_tile(before, x, y)
        } else {
            before.tile_xy(x, y)
        })
}

/// Whether the border of `after` is that of `before`, and the sizes agree.
pub open spec fn same_border(before: BoardView, after: BoardView) -> bool {
    &&& after.width == before.width
    &&& after.height == before.height
    &&& after.seen == before.seen
    &&& after.tiles.len() == before.tiles.len()
    &&& forall|x: int, y: int|
        0 <= x < before.width && 0 <= y < before.height && !is_inner(before, x, y)
            ==> #[trigger] after.tile_xy(x, y) == before.tile_xy(x, y)
}

/// The board after one round of the automaton: every cell off the border
/// follows the rule, the border stays.
pub open spec fn spec_generation(board: BoardView) -> BoardView {
    BoardView {
        width: board.width,
        height: board.height,
        tiles: Seq::new(
            board.tiles.len(),
            |i: int|
                if board.width > 0 && is_inner(
                    board,
                    i % (board.width as int),
                    i / (board.width as int),
                ) {
                    spec_next_tile(board, i % (board.width as int), i / (board.width as int))
                } else {
                    board.tiles[i]
                },
        ),
        seen: board.seen,
    }
}

/// The board after `n` rounds of the automaton.
pub open spec fn spec_generations(board: BoardView, n: int) -> BoardView
    decreases n,
{
    if n <= 0 {
        board
    } else {
        spec_generation(spec_generations(board, n - 1))
    }
}

/// A board that is the next generation of another is the board that
/// `spec_generation` gives.
pub proof fn lemma_generation(before: BoardView, after: BoardView)
    requires
        before.filled(),
        is_next_generation(before, after),
    ensures
        after == spec_generation(before),
{
    let w = before.width as int;
    let h = before.height as int;
    let next = spec_generation(before);
    assert forall|i: int| 0 <= i < after.tiles.len() implies after.tiles[i] == next.tiles[i] by {
        let x = i % w;
        let y = i / w;
        vstd::arithmetic::div_mod::lemma_fundamental_div_mod(i, w);
        vstd::arithmetic::div_mod::lemma_mod_bound(i, w);
        vstd::arithmetic::div_mod::lemma_multiply_divide_lt(i, w, h);
        vstd::arithmetic::div_mod::lemma_div_pos_is_pos(i, w);
        assert(y * w == w * y) by (nonlinear_arith);
        assert(after.index(x, y) == i);
        assert(before.index(x, y) == i);
        assert(after.tile_xy(x, y) == after.tiles[i]);
        assert(before.tile_xy(x, y) == before.tiles[i]);
    }
    assert(after.tiles =~= next.tiles);
}

/// Whether `noise` is `before` with some cells off the border made floor:
/// every cell is as it was, or lies off the border and is floor.
pub open spec fn is_seeded(before: BoardView, noise: BoardView) -> bool {
    &&& noise.width == before.width
    &&& noise.height == before.height
    &&& noise.seen == before.seen
    &&& noise.tiles.len() == before.tiles.len()
    &&& forall|x: int, y: int|
        0 <= x < before.width && 0 <= y < before.height ==> #[trigger] noise.tile_xy(x, y)
            == before.tile_xy(x, y) || (is_inner(before, x, y) && noise.tile_xy(x, y)
            == Tile::Floor)
}

/// Whether `after` is what the builder leaves of `before` where the board
/// filled at random was `noise`: the board is `noise` after the fixed number
/// of rounds, and where recording is switched on the tiles of `noise` and of
/// every generation after it were recorded, in that order.
pub open spec fn is_grown(before: BuildData, after: BuildData, noise: BoardView) -> bool {
    let recorded = before.history@.len() as int;
    &&& is_seeded(before.board@, noise)
    &&& after.board@ == spec_generations(noise, NUM_ITERATIONS as int)
    &&& after.starting_position == before.starting_position
    &&& after.rects == before.rects
    &&& after.corridors == before.corridors
    &&& after.history@.len() == recorded + (if config::SHOW_MAP_GEN {
        NUM_ITERATIONS + 1
    } else {
        0
    })
    &&& forall|k: int| 0 <= k < recorded ==> after.history@[k] == before.history@[k]
    &&& forall|j: int|
        recorded <= j < after.history@.len() ==> (#[trigger] after.history@[j])@
            == spec_generations(noise, j - recorded).tiles
}

impl CellularAutomataBuilder {
    pub fn new() -> Box<CellularAutomataBuilder> {
        Box::new(CellularAutomataBuilder {  })
    }

    /// One round of the automaton over the board. Where recording is
    /// switched on, the new tiles are recorded.
    pub fn iterate(build_data: &mut BuildData)
        requires
            old(build_data).board@.filled(),
        ensures
            final(build_data).board@.filled(),
            is_next_generation(old(build_data).board@, final(build_data).board@),
            final(build_data).starting_position == old(build_data).starting_position,
            final(build_data).rects == old(build_data).rects,
            final(build_data).corridors == old(build_data).corridors,
            final(build_data).history@.len() == old(build_data).history@.len() + (
            if config::SHOW_MAP_GEN {
                1int
            } else {
                0
            }),
            forall|k: int|
                0 <= k < old(build_data).history@.len() ==> final(build_data).history@[k]
                    == old(build_data).history@[k],
            config::SHOW_MAP_GEN ==> final(build_data).history@.last()@
                == final(build_data).board@.tiles,
    {
        let ghost start = build_data.board@;
        proof {
            lemma_board_fits_i32(start);
        }
        let mut new_tiles = build_data.board.get_tiles_cloned();
        let dirs = Point::octant();
        let width = build_data.board.width;
        let height = build_data.board.height;
        let mut y: u32 = 1;
        while y < height - 1
            invariant
                start.filled(),
                build_data.board@ == start,
                build_data.history == old(build_data).history,
                width == start.width,
                height == start.height,
                dirs@ == spec_octant(),
                start.width <= i32::MAX,
                start.height <= i32::MAX,
                1 <= y <= height - 1,
                new_tiles@.len() == start.tiles.len(),
                forall|cx: int, cy: int|
                    0 <= cx < start.width && 0 <= cy < start.height ==> #[trigger] (BoardView {
                        tiles: new_tiles@,
                        ..start
                    }).tile_xy(cx, cy) == (if is_inner(start, cx, cy) && cy < y {
                        spec_next_tile(start, cx, cy)
                    } else {
                        start.tile_xy(cx, cy)
                    }),
            decreases height - 1 - y,
        {
            let mut x: u32 = 1;
            while x < width - 1
                invariant
                    start.filled(),
                    build_data.board@ == start,
                    build_data.history == old(build_data).history,
                    width == start.width,
                    height == start.height,
                    dirs@ == spec_octant(),
                    start.width <= i32::MAX,
                    start.height <= i32::MAX,
                    1 <= y < height - 1,
                    1 <= x <= width - 1,
                    new_tiles@.len() == start.tiles.len(),
                    forall|cx: int, cy: int|
                        0 <= cx < start.width && 0 <= cy < start.height ==> #[trigger] (BoardView {
                            tiles: new_tiles@,
                            ..start
                        }).tile_xy(cx, cy) == (if is_inner(start, cx, cy) && (cy < y || (cy == y
                            && cx < x)) {
                            spec_next_tile(start, cx, cy)
                        } else {
                            start.tile_xy(cx, cy)
                        }),
                decreases width - 1 - x,
            {
                let mut neighbors: u32 = 0;
                let mut d: usize = 0;
                while d < 8
                    invariant
                        start.filled(),
                        build_data.board@ == start,
                        build_data.history == old(build_data).history,
                        width == start.width,
                        height == start.height,
                        dirs@ == spec_octant(),
                        start.width <= i32::MAX,
                        start.height <= i32::MAX,
                        1 <= y < height - 1,
                        1 <= x < width - 1,
                        d <= 8,
                        neighbors == wall_neighbors_upto(start, x as int, y as int, d as int),
                        neighbors <= d,
                    decreases 8 - d,
                {
                    let p = dirs[d];
                    proof {
                        assert(p == spec_octant()[d as int]);
                        lemma_octant_unit(d as int);
                    }
                    let nbr_x = x as i32 + p.x;
                    let nbr_y = y as i32 + p.y;
                    if build_data.board.in_bounds_xy(nbr_x, nbr_y) {
                        proof {
                            lemma_row_cell(
                                nbr_x as int,
                                nbr_y as int,
                                start.width as int,
                                start.height as int,
                            );
                        }
                        if build_data.board.get_tile_xy(nbr_x as u32, nbr_y as u32) == Tile::Wall {
                            neighbors = neighbors + 1;
                        }
                    }
                    assert(is_wall_at(start, x as int, y as int, p) == (start.in_bounds_xy(
                        nbr_x as int,
                        nbr_y as int,
                    ) && start.tile_xy(nbr_x as int, nbr_y as int) == Tile::Wall));
                    d = d + 1;
                }
                proof {
                    lemma_row_cell(x as int, y as int, start.width as int, start.height as int);
                }
                let i = build_data.board.xy_to_index(x, y);
                let ghost before = new_tiles@;
                if neighbors > 4 || neighbors == 0 {
                    new_tiles[i] = Tile::Wall;
                } else {
                    new_tiles[i] = Tile::Floor;
                }
                proof {
                    assert forall|cx: int, cy: int|
                        0 <= cx < start.width && 0 <= cy < start.height implies #[trigger] (BoardView {
                        tiles: new_tiles@,
                        ..start
                    }).tile_xy(cx, cy) == (if is_inner(start, cx, cy) && (cy < y || (cy == y && cx < x
                        + 1)) {
                        spec_next_tile(start, cx, cy)
                    } else {
                        start.tile_xy(cx, cy)
                    }) by {
                        lemma_row_cell(cx, cy, start.width as int, start.height as int);
                        lemma_row_cells_differ(cx, cy, x as int, y as int, start.width as int);
                        assert((BoardView { tiles: before, ..start }).tile_xy(cx, cy) == (if is_inner(
                            start,
                            cx,
                            cy,
                        ) && (cy < y || (cy == y && cx < x)) {
                            spec_next_tile(start, cx, cy)
                        } else {
                            start.tile_xy(cx, cy)
                        }));
                    }
                }
                x = x + 1;
            }
            y = y + 1;
        }
        build_data.board.set_all_tiles(new_tiles);
        build_data.take_snapshot();
    }

    /// Makes cells off the border floor at random, and lets the automaton
    /// run a fixed number of rounds over the board filled so. The border
    /// stays as it was. Which cells are made floor is drawn at random; all
    /// else is as `is_grown` says.
    pub fn build(&mut self, rng: &mut PRng, build_data: &mut BuildData)
        requires
            old(build_data).board@.filled(),
        ensures
            final(build_data).board@.filled(),
            same_border(old(build_data).board@, final(build_data).board@),
            exists|noise: BoardView| is_grown(*old(build_data), *final(build_data), noise),
    {
        let ghost start = build_data.board@;
        let ghost recorded = build_data.history@.len() as int;
        let width = build_data.board.width;
        let height = build_data.board.height;
        let mut y: u32 = 1;
        while y < height - 1
            invariant
                start.filled(),
                build_data.board@.filled(),
                is_seeded(start, build_data.board@),
                width == start.width,
                height == start.height,
                1 <= y <= height - 1,
                build_data.starting_position == old(build_data).starting_position,
                build_data.rects == old(build_data).rects,
                build_data.corridors == old(build_data).corridors,
                build_data.history == old(build_data).history,
            decreases height - 1 - y,
        {
            let mut x: u32 = 1;
            while x < width - 1
                invariant
                    start.filled(),
                    build_data.board@.filled(),
                    is_seeded(start, build_data.board@),
                    width == start.width,
                    height == start.height,
                    1 <= y < height - 1,
                    1 <= x <= width - 1,
                    build_data.starting_position == old(build_data).starting_position,
                    build_data.rects == old(build_data).rects,
                    build_data.corridors == old(build_data).corridors,
                    build_data.history == old(build_data).history,
                decreases width - 1 - x,
            {
                if rng.gen_ratio(PERCENT_FLOOR, 100) {
                    let ghost before = build_data.board@;
                    build_data.board.set_tile_xy(x, y, Tile::Floor);
                    proof {
                        assert forall|cx: int, cy: int|
                            0 <= cx < start.width && 0 <= cy < start.height implies #[trigger] build_data.board@.tile_xy(
                            cx,
                            cy,
                        ) == start.tile_xy(cx, cy) || (is_inner(start, cx, cy)
                            && build_data.board@.tile_xy(cx, cy) == Tile::Floor) by {
                            lemma_row_cell(cx, cy, start.width as int, start.height as int);
                            lemma_row_cell(
                                x as int,
                                y as int,
                                start.width as int,
                                start.height as int,
                            );
                            lemma_row_cells_differ(cx, cy, x as int, y as int, start.width as int);
                            assert(before.tile_xy(cx, cy) == start.tile_xy(cx, cy) || (is_inner(
                                start,
                                cx,
                                cy,
                            ) && before.tile_xy(cx, cy) == Tile::Floor));
                        }
                    }
                }
                x = x + 1;
            }
            y = y + 1;
        }
        let ghost noise = build_data.board@;
        build_data.take_snapshot();
        let mut round: u32 = 0;
        while round < NUM_ITERATIONS
            invariant
                round <= NUM_ITERATIONS,
                start.filled(),
                noise.filled(),
                recorded == old(build_data).history@.len(),
                is_seeded(start, noise),
                build_data.board@.filled(),
                same_border(noise, build_data.board@),
                build_data.board@ == spec_generations(noise, round as int),
                build_data.starting_position == old(build_data).starting_position,
                build_data.rects == old(build_data).rects,
                build_data.corridors == old(build_data).corridors,
                build_data.history@.len() == recorded + (if config::SHOW_MAP_GEN {
                    round + 1
                } else {
                    0
                }),
                forall|k: int|
                    0 <= k < recorded ==> build_data.history@[k] == old(build_data).history@[k],
                forall|j: int|
                    recorded <= j < build_data.history@.len() ==> (#[trigger] build_data.history@[j])@
                        == spec_generations(noise, j - recorded).tiles,
            decreases NUM_ITERATIONS - round,
        {
            let ghost before = build_data.board@;
            let ghost history = build_data.history@;
            Self::iterate(build_data);
            proof {
                lemma_generation(before, build_data.board@);
                assert forall|cx: int, cy: int|
                    0 <= cx < noise.width && 0 <= cy < noise.height && !is_inner(
                        noise,
                        cx,
                        cy,
                    ) implies #[trigger] build_data.board@.tile_xy(cx, cy) == noise.tile_xy(cx, cy) by {
                    assert(before.tile_xy(cx, cy) == noise.tile_xy(cx, cy));
                }
                assert forall|j: int|
                    recorded <= j < build_data.history@.len() implies (#[trigger] build_data.history@[j])@
                    == spec_generations(noise, j - recorded).tiles by {
                    if j < history.len() {
                        assert(build_data.history@[j] == history[j]);
                    }
                }
            }
            round = round + 1;
        }
        proof {
            assert forall|cx: int, cy: int|
                0 <= cx < start.width && 0 <= cy < start.height && !is_inner(
                    start,
                    cx,
                    cy,
                ) implies #[trigger] build_data.board@.tile_xy(cx, cy) == start.tile_xy(cx, cy) by {
                assert(noise.tile_xy(cx, cy) == start.tile_xy(cx, cy));
            }
            assert(is_grown(*old(build_data), *build_data, noise));
        }
    }

    /// As a later step of a chain: one round of the automaton.
    pub fn build_meta(&mut self, _rng: &mut PRng, build_data: &mut BuildData)
        requires
            old(build_data).board@.filled(),
        ensures
            final(build_data).board@.filled(),
            is_next_generation(old(build_data).board@, final(build_data).board@),
            final(build_data).starting_position == old(build_data).starting_position,
            final(build_data).rects == old(build_data).rects,
            final(build_data).corridors == old(build_data).corridors,
    {
        Self::iterate(build_data);
    }
}

} // verus!
