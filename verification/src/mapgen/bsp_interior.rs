//! Rooms that fill the board: the board is split again and again, and
//! every part becomes a room.

use vstd::prelude::*;
use crate::board::components::Tile;
use crate::mapgen::common;
use crate::mapgen::{
    in_room, lemma_board_fits_i32, only_dug, rooms_are_floor, rooms_on_board, BuildData,
};
use crate::point::Point;
use crate::random::PRng;
use crate::rect::Rect;

verus! {

/// A part is split further only where its halves are larger than this.
pub const MIN_ROOM_SIZE: u32 = 8;

/// Splits the board off its border into parts, each split leaving a line of
/// cells between the parts, and makes every part a room.
pub struct BspInteriorBuilder {
    pub rects: Vec<Rect>,
}

/// Whether the rectangle `part` lies in the rectangle `whole`.
pub open spec fn part_in(part: Rect, whole: Rect) -> bool {
    &&& whole.x1 <= part.x1 <= part.x2 <= whole.x2
    &&& whole.y1 <= part.y1 <= part.y2 <= whole.y2
}

impl BspInteriorBuilder {
    /// A builder that holds no parts yet.
    pub fn new() -> (builder: Box<BspInteriorBuilder>)
        ensures
            builder.rects@ == Seq::<Rect>::empty(),
    {
        Box::new(BspInteriorBuilder { rects: Vec::new() })
    }

    /// Whether a board of this size can be split.
    pub open spec fn spec_fits(width: nat, height: nat) -> bool {
        width >= 6 && height >= 6
    }

    /// Splits the board off its border into rooms, makes them floor, and
    /// joins each room to the next by a corridor. The rooms are recorded.
    pub fn build(&mut self, rng: &mut PRng, build_data: &mut BuildData)
        requires
            old(build_data).board@.filled(),
            Self::spec_fits(old(build_data).board@.width, old(build_data).board@.height),
        ensures
            final(build_data).board@.filled(),
            only_dug(old(build_data).board@, final(build_data).board@),
            final(build_data).starting_position == old(build_data).starting_position,
            final(build_data).corridors == old(build_data).corridors,
            final(build_data).rects matches Some(rooms) && rooms@.len() >= 2 && rooms_on_board(
                rooms@,
                final(build_data).board@,
            ) && rooms_are_floor(rooms@, final(build_data).board@),
            forall|k: int|
                0 <= k < final(build_data).rects->0@.len() ==> {
                    let room = #[trigger] final(build_data).rects->0@[k];
                    1 <= room.x1 && room.x2 + 1 < old(build_data).board@.width && 1 <= room.y1
                        && room.y2 + 1 < old(build_data).board@.height
                },
    {
        let ghost start = build_data.board@;
        proof {
            lemma_board_fits_i32(start);
        }
        let mut rooms: Vec<Rect> = Vec::new();
        self.rects.clear();
        self.rects.push(
            Rect::new(1, 1, build_data.board.width - 2, build_data.board.height - 2),
        );
        let first_room = self.rects[0];
        self.add_subrects(first_room, rng);
        let mut k: usize = 0;
        while k < self.rects.len()
            invariant
                k <= self.rects@.len(),
                rooms@ == self.rects@.subrange(0, k as int),
                start.filled(),
                build_data.board@.filled(),
                only_dug(start, build_data.board@),
                build_data.starting_position == old(build_data).starting_position,
                build_data.corridors == old(build_data).corridors,
                first_room == (Rect {
                    x1: 1,
                    y1: 1,
                    x2: (start.width - 2) as u32,
                    y2: (start.height - 2) as u32,
                }),
                forall|t: int| 0 <= t < self.rects@.len() ==> part_in(#[trigger] self.rects@[t], first_room),
                rooms_are_floor(rooms@, build_data.board@),
            decreases self.rects.len() - k,
        {
            let rect = self.rects[k];
            let ghost before = build_data.board@;
            let ghost kept = rooms@;
            assert(part_in(self.rects@[k as int], first_room));
            rooms.push(rect);
            common::set_rect(&mut build_data.board, &rect, Tile::Floor);
            proof {
                assert(rooms@ =~= self.rects@.subrange(0, k + 1));
                assert forall|t: int, x: int, y: int|
                    0 <= t < rooms@.len() && #[trigger] in_room(
                        rooms@[t],
                        x,
                        y,
                    ) implies build_data.board@.tile_xy(x, y) == Tile::Floor by {
                    assert(part_in(self.rects@[t], first_room));
                    assert(0 <= x < start.width && 0 <= y < start.height);
                    if t < kept.len() {
                        assert(rooms@[t] == kept[t]);
                        assert(in_room(kept[t], x, y));
                        assert(before.tile_xy(x, y) == Tile::Floor);
                    }
                    assert(build_data.board@.tile_xy(x, y) == (if rect.x1 <= x <= rect.x2 && rect.y1
                        <= y <= rect.y2 {
                        Tile::Floor
                    } else {
                        before.tile_xy(x, y)
                    }));
                }
                assert forall|x: int, y: int|
                    0 <= x < start.width && 0 <= y < start.height implies #[trigger] build_data.board@.tile_xy(
                    x,
                    y,
                ) == start.tile_xy(x, y) || build_data.board@.tile_xy(x, y) == Tile::Floor by {
                    assert(before.tile_xy(x, y) == start.tile_xy(x, y) || before.tile_xy(x, y)
                        == Tile::Floor);
                }
            }
            k = k + 1;
        }
        proof {
            assert(rooms@ =~= self.rects@);
        }
        build_data.take_snapshot();
        let mut i: usize = 0;
        while rooms.len() > 0 && i < rooms.len() - 1
            invariant
                start.filled(),
                start.width + start.height <= 0x8000_0001,
                build_data.board@.filled(),
                only_dug(start, build_data.board@),
                build_data.starting_position == old(build_data).starting_position,
                build_data.corridors == old(build_data).corridors,
                first_room == (Rect {
                    x1: 1,
                    y1: 1,
                    x2: (start.width - 2) as u32,
                    y2: (start.height - 2) as u32,
                }),
                forall|t: int| 0 <= t < rooms@.len() ==> part_in(#[trigger] rooms@[t], first_room),
                rooms_are_floor(rooms@, build_data.board@),
            decreases rooms.len() - i,
        {
            let r = rooms[i];
            let next = rooms[i + 1];
            assert(part_in(rooms@[i as int], first_room));
            assert(part_in(rooms@[i + 1], first_room));
            let from_x = r.x1 + rng.gen_range(0, r.width());
            let from_y = r.y1 + rng.gen_range(0, r.height());
            let to_x = next.x1 + rng.gen_range(0, next.width());
            let to_y = next.y1 + rng.gen_range(0, next.height());
            let ghost before = build_data.board@;
            common::draw_corridor(
                &mut build_data.board,
                Point::new(from_x as i32, from_y as i32),
                Point::new(to_x as i32, to_y as i32),
                true,
            );
            build_data.take_snapshot();
            proof {
                assert forall|x: int, y: int|
                    0 <= x < start.width && 0 <= y < start.height implies #[trigger] build_data.board@.tile_xy(
                    x,
                    y,
                ) == start.tile_xy(x, y) || build_data.board@.tile_xy(x, y) == Tile::Floor by {
                    assert(before.tile_xy(x, y) == start.tile_xy(x, y) || before.tile_xy(x, y)
                        == Tile::Floor);
                }
                assert(only_dug(before, build_data.board@));
                assert forall|t: int| 0 <= t < rooms@.len() implies (#[trigger] rooms@[t]).x1
                    <= rooms@[t].x2 < before.width && rooms@[t].y1 <= rooms@[t].y2
                    < before.height by {
                    assert(part_in(rooms@[t], first_room));
                }
                crate::mapgen::lemma_dug_keeps_rooms(rooms@, before, build_data.board@);
            }
            i = i + 1;
        }
        proof {
            assert forall|t: int| 0 <= t < rooms@.len() implies (#[trigger] rooms@[t]).x1
                <= rooms@[t].x2 < start.width && rooms@[t].y1 <= rooms@[t].y2 < start.height by {
                assert(part_in(rooms@[t], first_room));
            }
            assert forall|t: int| 0 <= t < rooms@.len() implies ({
                let room = #[trigger] rooms@[t];
                1 <= room.x1 && room.x2 + 1 < start.width && 1 <= room.y1 && room.y2 + 1
                    < start.height
            }) by {
                assert(part_in(rooms@[t], first_room));
            }
        }
        build_data.rects = Some(rooms);
    }

    /// Replaces the last part of the list, which is `rect`, by parts of it:
    /// `rect` is split in two along a line of cells, across its width or
    /// across its height as drawn at random, and each of the two is split on
    /// where the halves are larger than the least size of a room.
    fn add_subrects(&mut self, rect: Rect, rng: &mut PRng)
        requires
            old(self).rects@.len() >= 1,
            rect.x1 <= rect.x2,
            rect.y1 <= rect.y2,
            rect.x2 - rect.x1 >= 3,
            rect.y2 - rect.y1 >= 3,
            rect.x2 < u32::MAX,
            rect.y2 < u32::MAX,
        ensures
            final(self).rects@.len() >= old(self).rects@.len() + 1,
            forall|k: int|
                0 <= k < old(self).rects@.len() - 1 ==> final(self).rects@[k] == old(self).rects@[k],
            forall|k: int|
                old(self).rects@.len() - 1 <= k < final(self).rects@.len() ==> part_in(
                    #[trigger] final(self).rects@[k],
                    rect,
                ),
        decreases rect.x2 - rect.x1 + rect.y2 - rect.y1,
    {
        let ghost kept = old(self).rects@.len() - 1;
        self.rects.pop();
        let width = rect.width();
        let height = rect.height();
        let half_width = width / 2;
        let half_height = height / 2;
        let split = rng.gen_ratio(1, 2);
        if split {
            let h1 = Rect::new(rect.x1, rect.y1, half_width - 1, height);
            self.rects.push(h1);
            if half_width > MIN_ROOM_SIZE {
                self.add_subrects(h1, rng);
            }
            let ghost first = self.rects@;
            proof {
                assert forall|k: int| kept <= k < first.len() implies part_in(
                    #[trigger] first[k],
                    rect,
                ) by {
                    assert(part_in(first[k], h1));
                }
            }
            let h2 = Rect::new(rect.x1 + half_width, rect.y1, half_width, height);
            self.rects.push(h2);
            if half_width > MIN_ROOM_SIZE {
                self.add_subrects(h2, rng);
            }
            proof {
                assert forall|k: int| kept <= k < self.rects@.len() implies part_in(
                    #[trigger] self.rects@[k],
                    rect,
                ) by {
                    if k < first.len() {
                        assert(self.rects@[k] == first[k]);
                    } else {
                        assert(part_in(self.rects@[k], h2));
                    }
                }
            }
        } else {
            let v1 = Rect::new(rect.x1, rect.y1, width, half_height - 1);
            self.rects.push(v1);
            if half_height > MIN_ROOM_SIZE {
                self.add_subrects(v1, rng);
            }
            let ghost first = self.rects@;
            proof {
                assert forall|k: int| kept <= k < first.len() implies part_in(
                    #[trigger] first[k],
                    rect,
                ) by {
                    assert(part_in(first[k], v1));
                }
            }
            let v2 = Rect::new(rect.x1, rect.y1 + half_height, width, half_height);
            self.rects.push(v2);
            if half_height > MIN_ROOM_SIZE {
                self.add_subrects(v2, rng);
            }
            proof {
                assert forall|k: int| kept <= k < self.rects@.len() implies part_in(
                    #[trigger] self.rects@[k],
                    rect,
                ) by {
                    if k < first.len() {
                        assert(self.rects@[k] == first[k]);
                    } else {
                        assert(part_in(self.rects@[k], v2));
                    }
                }
            }
        }
    }
}

} // verus!
