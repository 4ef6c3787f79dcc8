//! Rooms placed in the parts of a board that is halved again and again.

use vstd::prelude::*;
use crate::board::components::Tile;
use crate::board::{Board, BoardView};
use crate::mapgen::common;
use crate::mapgen::{in_room, only_dug, rooms_are_floor, rooms_on_board, BuildData};
use crate::point::Point;
use crate::random::PRng;
use crate::rect::Rect;

verus! {

pub const NUM_TRIES: u32 = 600;

pub const MAX_SUBRECT_WIDTH: u32 = 10;

pub const MAX_SUBRECT_HEIGHT: u32 = 10;

/// Keeps a list of parts of the board. A room is tried in a part drawn at
/// random; where it can be built, the part is split into four.
pub struct BspMapBuilder {
    pub rects: Vec<Rect>,
}

/// Whether a part is in order for a board of the given size: its first
/// corner lies before or at its second, it is no larger than the board, and
/// it ends within twice the size of the board.
pub open spec fn part_ok(part: Rect, width: nat, height: nat) -> bool {
    &&& part.x1 <= part.x2 <= 2 * width
    &&& part.y1 <= part.y2 <= 2 * height
    &&& part.x2 - part.x1 < width
    &&& part.y2 - part.y1 < height
}

/// Whether every part is in order.
pub open spec fn parts_ok(parts: Seq<Rect>, width: nat, height: nat) -> bool {
    forall|k: int| 0 <= k < parts.len() ==> part_ok(#[trigger] parts[k], width, height)
}

/// Whether `(x, y)` is a cell of the board off its border that holds a wall.
pub open spec fn is_inner_wall(board: BoardView, x: int, y: int) -> bool {
    1 <= x <= board.width - 2 && 1 <= y <= board.height - 2 && board.tile_xy(x, y) == Tile::Wall
}

/// Whether a room can be built on the rectangle: every cell of it, and
/// every cell up to two steps around it, is a wall off the border of the
/// board.
pub open spec fn spec_is_possible(rect: Rect, board: BoardView) -> bool {
    forall|x: int, y: int|
        rect.x1 - 2 <= x <= rect.x2 + 2 && rect.y1 - 2 <= y <= rect.y2 + 2 ==> #[trigger] is_inner_wall(
            board,
            x,
            y,
        )
}

/// Whether rooms are at least 4 cells wide and 6 cells high, as this
/// builder makes them.
pub open spec fn rooms_sized(rooms: Seq<Rect>) -> bool {
    forall|k: int|
        0 <= k < rooms.len() ==> (#[trigger] rooms[k]).x1 + 3 <= rooms[k].x2 && rooms[k].y1 + 5
            <= rooms[k].y2
}

/// Whether at least two cells lie between any two of the rooms, and
/// between each room and the border of the board.
pub open spec fn rooms_spaced(rooms: Seq<Rect>, board: BoardView) -> bool {
    &&& forall|i: int, j: int|
        0 <= i < j < rooms.len() ==> !(#[trigger] rooms[i]).spec_intersects(#[trigger] rooms[j], 2)
    &&& forall|k: int|
        0 <= k < rooms.len() ==> 3 <= (#[trigger] rooms[k]).x1 && rooms[k].x2 + 3 < board.width && 3
            <= rooms[k].y1 && rooms[k].y2 + 3 < board.height
}

impl BspMapBuilder {
    /// A builder that holds no parts yet.
    pub fn new() -> (builder: Box<BspMapBuilder>)
        ensures
            builder.rects@ == Seq::<Rect>::empty(),
    {
        Box::new(BspMapBuilder { rects: Vec::new() })
    }

    /// Whether a board of this size can be split into parts.
    pub open spec fn spec_fits(width: nat, height: nat) -> bool {
        4 < width <= 0x3fff_0000 && 4 < height <= 0x3fff_0000
    }

    /// Builds rooms where parts drawn at random leave space for them, and
    /// joins each room to the next by a corridor. The rooms are recorded: at
    /// least two cells lie between any two of them.
    pub fn build(&mut self, rng: &mut PRng, build_data: &mut BuildData)
        requires
            old(build_data).board@.filled(),
            Self::spec_fits(old(build_data).board@.width, old(build_data).board@.height),
        ensures
            final(build_data).board@.filled(),
            only_dug(old(build_data).board@, final(build_data).board@),
            final(build_data).starting_position == old(build_data).starting_position,
            final(build_data).corridors == old(build_data).corridors,
            final(build_data).rects matches Some(rooms) && rooms_on_board(
                rooms@,
                final(build_data).board@,
            ) && rooms_sized(rooms@) && rooms_spaced(rooms@, old(build_data).board@)
                && rooms_are_floor(rooms@, final(build_data).board@),
    {
        let ghost start = build_data.board@;
        let mut rects: Vec<Rect> = Vec::new();
        self.rects.clear();
        self.rects.push(
            Rect::new(2, 2, build_data.board.width - 4, build_data.board.height - 4),
        );
        let first_rect = self.rects[0];
        self.add_subrects(first_rect);
        proof {
            assert forall|k: int| 0 <= k < self.rects@.len() implies part_ok(
                #[trigger] self.rects@[k],
                start.width,
                start.height,
            ) by {
                lemma_quarters(first_rect);
            }
        }
        let mut n_rects: u32 = 0;
        while n_rects < NUM_TRIES
            invariant
                n_rects <= NUM_TRIES,
                start.filled(),
                Self::spec_fits(start.width, start.height),
                build_data.board@.filled(),
                only_dug(start, build_data.board@),
                build_data.starting_position == old(build_data).starting_position,
                build_data.corridors == old(build_data).corridors,
                self.rects@.len() > 0,
                parts_ok(self.rects@, start.width, start.height),
                rooms_on_board(rects@, start),
                rooms_sized(rects@),
                rooms_spaced(rects@, start),
                rooms_are_floor(rects@, build_data.board@),
            decreases NUM_TRIES - n_rects,
        {
            let rect = self.get_random_rect(rng);
            assert(part_ok(rect, start.width, start.height));
            let candidate = self.get_random_sub_rect(rect, rng);
            if self.is_possible(candidate, &build_data.board) {
                let ghost before = build_data.board@;
                let ghost kept = rects@;
                proof {
                    assert(is_inner_wall(before, candidate.x1 as int, candidate.y1 as int));
                    assert(is_inner_wall(before, candidate.x2 as int, candidate.y2 as int));
                }
                common::set_rect(&mut build_data.board, &candidate, Tile::Floor);
                rects.push(candidate);
                let ghost parts = self.rects@;
                self.add_subrects(rect);
                build_data.take_snapshot();
                proof {
                    assert forall|k: int| 0 <= k < self.rects@.len() implies part_ok(
                        #[trigger] self.rects@[k],
                        start.width,
                        start.height,
                    ) by {
                        lemma_quarters(rect);
                        if k < parts.len() {
                            assert(self.rects@[k] == parts[k]);
                        }
                    }
                    assert forall|k: int| 0 <= k < rects@.len() implies (#[trigger] rects@[k]).x1
                        <= rects@[k].x2 < start.width && rects@[k].y1 <= rects@[k].y2
                        < start.height by {
                        if k < kept.len() {
                            assert(rects@[k] == kept[k]);
                        }
                    }
                    assert forall|k: int| 0 <= k < rects@.len() implies (#[trigger] rects@[k]).x1 + 3
                        <= rects@[k].x2 && rects@[k].y1 + 5 <= rects@[k].y2 by {
                        if k < kept.len() {
                            assert(rects@[k] == kept[k]);
                        }
                    }
                    assert forall|i: int, j: int| 0 <= i < j < rects@.len() implies !(
                    #[trigger] rects@[i]).spec_intersects(#[trigger] rects@[j], 2) by {
                        if j < kept.len() {
                            assert(rects@[i] == kept[i] && rects@[j] == kept[j]);
                        } else if kept[i].spec_intersects(candidate, 2) {
                            let x = if candidate.x1 - 2 >= kept[i].x1 {
                                candidate.x1 - 2
                            } else {
                                kept[i].x1 as int
                            };
                            let y = if candidate.y1 - 2 >= kept[i].y1 {
                                candidate.y1 - 2
                            } else {
                                kept[i].y1 as int
                            };
                            assert(in_room(kept[i], x, y));
                            assert(is_inner_wall(before, x, y));
                        }
                    }
                    assert forall|k: int| 0 <= k < rects@.len() implies 3 <= (#[trigger] rects@[k]).x1
                        && rects@[k].x2 + 3 < start.width && 3 <= rects@[k].y1 && rects@[k].y2 + 3
                        < start.height by {
                        if k < kept.len() {
                            assert(rects@[k] == kept[k]);
                        } else {
                            assert(is_inner_wall(before, candidate.x1 - 2, candidate.y1 - 2));
                            assert(is_inner_wall(before, candidate.x2 + 2, candidate.y2 + 2));
                        }
                    }
                    assert forall|x: int, y: int|
                        0 <= x < start.width && 0 <= y < start.height implies #[trigger] build_data.board@.tile_xy(
                        x,
                        y,
                    ) == start.tile_xy(x, y) || build_data.board@.tile_xy(x, y) == Tile::Floor by {
                        assert(before.tile_xy(x, y) == start.tile_xy(x, y) || before.tile_xy(x, y)
                            == Tile::Floor);
                    }
                    assert forall|k: int, x: int, y: int|
                        0 <= k < rects@.len() && #[trigger] in_room(
                            rects@[k],
                            x,
                            y,
                        ) implies build_data.board@.tile_xy(x, y) == Tile::Floor by {
                        assert(0 <= x < start.width && 0 <= y < start.height);
                        if k < kept.len() {
                            assert(rects@[k] == kept[k]);
                            assert(in_room(kept[k], x, y));
                            assert(before.tile_xy(x, y) == Tile::Floor);
                        }
                        assert(build_data.board@.tile_xy(x, y) == (if candidate.x1 <= x
                            <= candidate.x2 && candidate.y1 <= y <= candidate.y2 {
                            Tile::Floor
                        } else {
                            before.tile_xy(x, y)
                        }));
                    }
                }
            }
            n_rects = n_rects + 1;
        }
        let mut i: usize = 0;
        while rects.len() > 0 && i < rects.len() - 1
            invariant
                start.filled(),
                build_data.board@.filled(),
                only_dug(start, build_data.board@),
                build_data.starting_position == old(build_data).starting_position,
                build_data.corridors == old(build_data).corridors,
                rooms_on_board(rects@, start),
                rooms_sized(rects@),
                rooms_spaced(rects@, start),
                rooms_are_floor(rects@, build_data.board@),
                Self::spec_fits(start.width, start.height),
            decreases rects.len() - i,
        {
            let r = rects[i];
            let next_r = rects[i + 1];
            let start_x = r.x1 + rng.gen_range(0, r.x2 - r.x1);
            let start_y = r.y1 + rng.gen_range(0, r.y2 - r.y1);
            let end_x = next_r.x1 + rng.gen_range(0, next_r.x2 - next_r.x1);
            let end_y = next_r.y1 + rng.gen_range(0, next_r.y2 - next_r.y1);
            let ghost before = build_data.board@;
            common::draw_corridor(
                &mut build_data.board,
                Point::new(start_x as i32, start_y as i32),
                Point::new(end_x as i32, end_y as i32),
                true,
            );
            build_data.take_snapshot();
            proof {
                assert forall|x: int, y: int|
                    0 <= x < start.width && 0 <= y < start.height implies #[trigger] build_data.board@.tile_xy(
                    x,
                    y,
                ) == start.tile_xy(x, y) || build_data.board@.tile_xy(x, y) == Tile::Floor by {
                    assert(before.tile_xy(x, y) == start.tile_xy(x, y) || before.tile_xy(x, y)
                        == Tile::Floor);
                }
                assert(only_dug(before, build_data.board@));
                crate::mapgen::lemma_dug_keeps_rooms(rects@, before, build_data.board@);
            }
            i = i + 1;
        }
        build_data.rects = Some(rects);
    }

    /// The halves by which a part is quartered.
    pub open spec fn spec_half(side: int) -> int {
        if side / 2 > 1 {
            side / 2
        } else {
            1
        }
    }

    /// One of the parts, drawn at random.
    fn get_random_rect(&self, rng: &mut PRng) -> (rect: Rect)
        requires
            self.rects@.len() > 0,
        ensures
            self.rects@.contains(rect),
    {
        if self.rects.len() == 1 {
            self.rects[0]
        } else {
            let i = rng.gen_range_usize(0, self.rects.len());
            self.rects[i]
        }
    }

    /// Adds the four quarters of a part to the list of parts. A side of a
    /// single cell is not halved: the quarters then overlap or lie beside the
    /// part.
    pub fn add_subrects(&mut self, rect: Rect)
        requires
            rect.x1 <= rect.x2,
            rect.y1 <= rect.y2,
            rect.x2 + 2 <= u32::MAX,
            rect.y2 + 2 <= u32::MAX,
        ensures
            final(self).rects@.len() == old(self).rects@.len() + 4,
            forall|k: int|
                0 <= k < old(self).rects@.len() ==> final(self).rects@[k] == old(self).rects@[k],
            ({
                let hw = Self::spec_half(rect.spec_width());
                let hh = Self::spec_half(rect.spec_height());
                let n = old(self).rects@.len() as int;
                &&& final(self).rects@[n] == (Rect {
                    x1: rect.x1,
                    y1: rect.y1,
                    x2: (rect.x1 + hw - 1) as u32,
                    y2: (rect.y1 + hh - 1) as u32,
                })
                &&& final(self).rects@[n + 1] == (Rect {
                    x1: rect.x1,
                    y1: (rect.y1 + hh) as u32,
                    x2: (rect.x1 + hw - 1) as u32,
                    y2: (rect.y1 + 2 * hh - 1) as u32,
                })
                &&& final(self).rects@[n + 2] == (Rect {
                    x1: (rect.x1 + hw) as u32,
                    y1: rect.y1,
                    x2: (rect.x1 + 2 * hw - 1) as u32,
                    y2: (rect.y1 + hh - 1) as u32,
                })
                &&& final(self).rects@[n + 3] == (Rect {
                    x1: (rect.x1 + hw) as u32,
                    y1: (rect.y1 + hh) as u32,
                    x2: (rect.x1 + 2 * hw - 1) as u32,
                    y2: (rect.y1 + 2 * hh - 1) as u32,
                })
            }),
    {
        let width = rect.width();
        let height = rect.height();
        let half_width = if width / 2 > 1 {
            width / 2
        } else {
            1
        };
        let half_height = if height / 2 > 1 {
            height / 2
        } else {
            1
        };
        self.rects.push(Rect::new(rect.x1, rect.y1, half_width, half_height));
        self.rects.push(Rect::new(rect.x1, rect.y1 + half_height, half_width, half_height));
        self.rects.push(Rect::new(rect.x1 + half_width, rect.y1, half_width, half_height));
        self.rects.push(
            Rect::new(rect.x1 + half_width, rect.y1 + half_height, half_width, half_height),
        );
    }

    /// A rectangle for a room in the part: its first corner up to 5 cells
    /// behind that of the part, 4 to 10 cells wide and 6 to 12 cells high.
    fn get_random_sub_rect(&self, rect: Rect, rng: &mut PRng) -> (result: Rect)
        requires
            rect.x1 <= rect.x2 <= 0x7fff_0000,
            rect.y1 <= rect.y2 <= 0x7fff_0000,
        ensures
            rect.x1 <= result.x1 <= rect.x1 + 5,
            rect.y1 <= result.y1 <= rect.y1 + 5,
            result.x1 + 3 <= result.x2 <= result.x1 + 9,
            result.y1 + 5 <= result.y2 <= result.y1 + 11,
    {
        let mut result = rect;
        let r_width = rect.width();
        let r_height = rect.height();
        let w_limit = if r_width < MAX_SUBRECT_WIDTH {
            r_width
        } else {
            MAX_SUBRECT_WIDTH
        };
        let h_limit = if r_height < MAX_SUBRECT_HEIGHT {
            r_height
        } else {
            MAX_SUBRECT_HEIGHT
        };
        let w_drawn = rng.gen_range(0, w_limit);
        let h_drawn = rng.gen_range(0, h_limit);
        let w = (if w_drawn > 3 {
            w_drawn
        } else {
            3
        }) + 1;
        let h = (if h_drawn > 3 {
            h_drawn
        } else {
            3
        }) + 1;
        result.x1 = result.x1 + rng.gen_range(0, 6);
        result.y1 = result.y1 + rng.gen_range(0, 6);
        result.x2 = result.x1 + w - 1;
        result.y2 = result.y1 + h + 1;
        result
    }

    /// Whether a room can be built on the rectangle: every cell of it, and
    /// every cell up to two steps around it, is a wall off the border of the
    /// board.
    fn is_possible(&self, rect: Rect, board: &Board) -> (can_build: bool)
        requires
            board@.filled(),
            rect.x1 <= rect.x2 <= i32::MAX - 2,
            rect.y1 <= rect.y2 <= i32::MAX - 2,
        ensures
            can_build == spec_is_possible(rect, board@),
    {
        let x1 = rect.x1 as i32 - 2;
        let y1 = rect.y1 as i32 - 2;
        let x2 = rect.x2 as i32 + 2;
        let y2 = rect.y2 as i32 + 2;
        let mut can_build = true;
        let mut y: i64 = y1 as i64;
        while y <= y2 as i64
            invariant
                board@.filled(),
                x1 == rect.x1 - 2,
                y1 == rect.y1 - 2,
                x2 == rect.x2 + 2,
                y2 == rect.y2 + 2,
                x1 <= x2,
                y1 <= y <= y2 + 1,
                can_build <==> forall|cx: int, cy: int|
                    x1 <= cx <= x2 && y1 <= cy < y ==> #[trigger] is_inner_wall(board@, cx, cy),
            decreases y2 + 1 - y,
        {
            let mut x: i64 = x1 as i64;
            while x <= x2 as i64
                invariant
                    board@.filled(),
                    x1 == rect.x1 - 2,
                    y1 == rect.y1 - 2,
                    x2 == rect.x2 + 2,
                    y2 == rect.y2 + 2,
                    y1 <= y <= y2,
                    x1 <= x <= x2 + 1,
                    can_build <==> forall|cx: int, cy: int|
                        (x1 <= cx <= x2 && y1 <= cy < y) || (cy == y && x1 <= cx < x)
                            ==> #[trigger] is_inner_wall(board@, cx, cy),
                decreases x2 + 1 - x,
            {
                let ghost so_far = can_build;
                if x > board.width as i64 - 2 || y > board.height as i64 - 2 || x < 1 || y < 1 {
                    can_build = false;
                    assert(!is_inner_wall(board@, x as int, y as int));
                } else {
                    proof {
                        crate::board::lemma_row_cell(
                            x as int,
                            y as int,
                            board@.width as int,
                            board@.height as int,
                        );
                    }
                    match board.get_tile_xy(x as u32, y as u32) {
                        Tile::Wall => {
                            assert(is_inner_wall(board@, x as int, y as int));
                        },
                        Tile::Floor => {
                            can_build = false;
                            assert(!is_inner_wall(board@, x as int, y as int));
                        },
                    }
                }
                x = x + 1;
            }
            y = y + 1;
        }
        can_build
    }
}

/// The quarters of a part are no larger than the part and end at most one
/// cell behind it.
proof fn lemma_quarters(rect: Rect)
    requires
        rect.x1 <= rect.x2,
        rect.y1 <= rect.y2,
    ensures
        ({
            let hw = BspMapBuilder::spec_half(rect.spec_width());
            let hh = BspMapBuilder::spec_half(rect.spec_height());
            &&& 1 <= hw <= rect.spec_width()
            &&& 1 <= hh <= rect.spec_height()
            &&& rect.x1 + 2 * hw - 1 <= rect.x2 + 1
            &&& rect.y1 + 2 * hh - 1 <= rect.y2 + 1
        }),
{
}

} // verus!
