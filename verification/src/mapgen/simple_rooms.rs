//! Rooms placed at random, none touching another.

use vstd::prelude::*;
use crate::board::components::Tile;
use crate::config;
use crate::mapgen::common;
use crate::mapgen::{in_room, in_rooms, rooms_are_floor, rooms_on_board, BuildData};
use crate::random::PRng;
use crate::rect::Rect;

verus! {

pub const NUM_TRIES: i32 = config::map::ROOM_NUM_TRIES;

pub const MIN_WIDTH: u32 = config::map::ROOM_MIN_WIDTH;

pub const MIN_HEIGHT: u32 = config::map::ROOM_MIN_HEIGHT;

pub const MAX_WIDTH: u32 = config::map::ROOM_MAX_WIDTH;

pub const MAX_HEIGHT: u32 = config::map::ROOM_MAX_HEIGHT;

/// Places rooms of random size at random cells, and keeps each one that
/// stays clear of those kept before.
pub struct SimpleRoomBuilder;

/// No two of the rooms overlap, even when one of them is grown by a cell on
/// every side.
pub open spec fn rooms_apart(rooms: Seq<Rect>) -> bool {
    forall|i: int, j: int|
        0 <= i < j < rooms.len() ==> !(#[trigger] rooms[j]).spec_intersects(#[trigger] rooms[i], 1)
}

impl SimpleRoomBuilder {
    pub fn new() -> Box<SimpleRoomBuilder> {
        Box::new(SimpleRoomBuilder {  })
    }

    /// Whether a board of this size has space for the largest room.
    pub open spec fn spec_fits(width: nat, height: nat) -> bool {
        width > MAX_WIDTH + 1 && height > MAX_HEIGHT + 1
    }

    /// Tries a fixed number of times to place a room. The first room is
    /// always kept. The rooms kept are made floor and recorded; no two of
    /// them touch, and all lie inside the border of the board.
    pub fn build(&mut self, rng: &mut PRng, build_data: &mut BuildData)
        requires
            old(build_data).board@.filled(),
            Self::spec_fits(old(build_data).board@.width, old(build_data).board@.height),
        ensures
            final(build_data).board@.filled(),
            final(build_data).board@.width == old(build_data).board@.width,
            final(build_data).board@.height == old(build_data).board@.height,
            final(build_data).board@.seen == old(build_data).board@.seen,
            final(build_data).starting_position == old(build_data).starting_position,
            final(build_data).corridors == old(build_data).corridors,
            final(build_data).rects matches Some(rooms) && rooms@.len() >= 1 && rooms_apart(rooms@)
                && rooms_on_board(rooms@, final(build_data).board@) && rooms_are_floor(
                rooms@,
                final(build_data).board@,
            ),
            forall|k: int|
                0 <= k < final(build_data).rects->0@.len() ==> {
                    let room = #[trigger] final(build_data).rects->0@[k];
                    &&& MIN_WIDTH <= room.spec_width() < MAX_WIDTH
                    &&& MIN_HEIGHT <= room.spec_height() < MAX_HEIGHT
                    &&& 1 <= room.x1
                    &&& 1 <= room.y1
                    &&& room.x2 + 2 < old(build_data).board@.width
                    &&& room.y2 + 2 < old(build_data).board@.height
                },
            forall|x: int, y: int|
                0 <= x < old(build_data).board@.width && 0 <= y < old(build_data).board@.height
                    ==> #[trigger] final(build_data).board@.tile_xy(x, y) == (if in_rooms(
                    final(build_data).rects->0@,
                    x,
                    y,
                ) {
                    Tile::Floor
                } else {
                    old(build_data).board@.tile_xy(x, y)
                }),
    {
        let ghost start = build_data.board@;
        let mut rooms: Vec<Rect> = Vec::new();
        let mut tries: i32 = 0;
        while tries < NUM_TRIES
            invariant
                0 <= tries <= NUM_TRIES,
                tries > 0 ==> rooms@.len() >= 1,
                start.filled(),
                Self::spec_fits(start.width, start.height),
                build_data.board@.filled(),
                build_data.board@.width == start.width,
                build_data.board@.height == start.height,
                build_data.board@.seen == start.seen,
                build_data.starting_position == old(build_data).starting_position,
                build_data.corridors == old(build_data).corridors,
                rooms_apart(rooms@),
                rooms_on_board(rooms@, start),
                forall|k: int|
                    0 <= k < rooms@.len() ==> {
                        let room = #[trigger] rooms@[k];
                        &&& MIN_WIDTH <= room.spec_width() < MAX_WIDTH
                        &&& MIN_HEIGHT <= room.spec_height() < MAX_HEIGHT
                        &&& 1 <= room.x1
                        &&& 1 <= room.y1
                        &&& room.x2 + 2 < start.width
                        &&& room.y2 + 2 < start.height
                    },
                forall|x: int, y: int|
                    0 <= x < start.width && 0 <= y < start.height
                        ==> #[trigger] build_data.board@.tile_xy(x, y) == (if in_rooms(rooms@, x, y) {
                        Tile::Floor
                    } else {
                        start.tile_xy(x, y)
                    }),
            decreases NUM_TRIES - tries,
        {
            let new_room = common::random_rect(
                MIN_WIDTH,
                MAX_WIDTH,
                MIN_HEIGHT,
                MAX_HEIGHT,
                1,
                build_data.board.width - 1,
                1,
                build_data.board.height - 1,
                rng,
            );
            let mut clear = true;
            let mut i: usize = 0;
            while i < rooms.len()
                invariant
                    i <= rooms.len(),
                    clear <==> forall|k: int|
                        0 <= k < i ==> !new_room.spec_intersects(#[trigger] rooms@[k], 1),
                decreases rooms.len() - i,
            {
                if new_room.intersects(&rooms[i], 1) {
                    clear = false;
                }
                i = i + 1;
            }
            if clear {
                let ghost before = build_data.board@;
                let ghost kept = rooms@;
                build_data.board.set_rect(&new_room, Tile::Floor);
                rooms.push(new_room);
                build_data.take_snapshot();
                proof {
                    assert forall|a: int, b: int| 0 <= a < b < rooms@.len() implies !(
                    #[trigger] rooms@[b]).spec_intersects(#[trigger] rooms@[a], 1) by {
                        if b < kept.len() {
                            assert(rooms@[a] == kept[a] && rooms@[b] == kept[b]);
                        } else {
                            assert(rooms@[a] == kept[a]);
                        }
                    }
                    assert forall|x: int, y: int|
                        0 <= x < start.width && 0 <= y < start.height implies #[trigger] build_data.board@.tile_xy(
                        x,
                        y,
                    ) == (if in_rooms(rooms@, x, y) {
                        Tile::Floor
                    } else {
                        start.tile_xy(x, y)
                    }) by {
                        assert(before.tile_xy(x, y) == (if in_rooms(kept, x, y) {
                            Tile::Floor
                        } else {
                            start.tile_xy(x, y)
                        }));
                        if in_rooms(kept, x, y) {
                            let k = choose|k: int|
                                0 <= k < kept.len() && (#[trigger] kept[k]).x1 <= x <= kept[k].x2
                                    && kept[k].y1 <= y <= kept[k].y2;
                            assert(rooms@[k] == kept[k]);
                        }
                        if new_room.x1 <= x <= new_room.x2 && new_room.y1 <= y <= new_room.y2 {
                            assert(rooms@[kept.len() as int] == new_room);
                        }
                        if in_rooms(rooms@, x, y) {
                            let k = choose|k: int|
                                0 <= k < rooms@.len() && (#[trigger] rooms@[k]).x1 <= x
                                    <= rooms@[k].x2 && rooms@[k].y1 <= y <= rooms@[k].y2;
                            if k < kept.len() {
                                assert(rooms@[k] == kept[k]);
                            }
                        }
                    }
                }
            }
            tries = tries + 1;
        }
        proof {
            assert forall|k: int, x: int, y: int|
                0 <= k < rooms@.len() && #[trigger] in_room(
                    rooms@[k],
                    x,
                    y,
                ) implies build_data.board@.tile_xy(x, y) == Tile::Floor by {
                assert(in_rooms(rooms@, x, y));
                assert(build_data.board@.tile_xy(x, y) == (if in_rooms(rooms@, x, y) {
                    Tile::Floor
                } else {
                    start.tile_xy(x, y)
                }));
            }
        }
        build_data.rects = Some(rooms);
    }
}

} // verus!
