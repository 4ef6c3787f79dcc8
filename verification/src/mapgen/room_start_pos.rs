//! The starting cell, taken from the first room.

use vstd::prelude::*;
use crate::mapgen::{rooms_on_board, BuildData};
use crate::random::PRng;

verus! {

/// Lets the human's entity start in the middle of the first room.
pub struct RoomBasedStartingPosition {}

impl RoomBasedStartingPosition {
    pub fn new() -> Box<RoomBasedStartingPosition> {
        Box::new(RoomBasedStartingPosition {  })
    }

    /// Sets the starting cell to the middle of the first room, which must
    /// exist.
    pub fn build(&mut self, _rng: &mut PRng, build_data: &mut BuildData)
        requires
            old(build_data).board@.wf(),
            old(build_data).rects matches Some(rooms) && rooms@.len() >= 1 && rooms_on_board(
                rooms@,
                old(build_data).board@,
            ),
        ensures
            final(build_data).board == old(build_data).board,
            final(build_data).rects == old(build_data).rects,
            final(build_data).corridors == old(build_data).corridors,
            final(build_data).history == old(build_data).history,
            final(build_data).starting_position matches Some(p) && ({
                let room = old(build_data).rects->0@[0];
                p.x == (room.x1 + room.x2) / 2 && p.y == (room.y1 + room.y2) / 2
            }),
    {
        let center = match &build_data.rects {
            Some(rooms) => {
                proof {
                    crate::mapgen::lemma_board_fits_i32(build_data.board@);
                }
                rooms[0].center()
            },
            None => {
                return ;
            },
        };
        build_data.starting_position = Some(center);
    }
}

} // verus!
