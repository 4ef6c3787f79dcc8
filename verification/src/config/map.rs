//! The size of the map and of its rooms.

use vstd::prelude::*;

verus! {

pub const MAP_TILE_WIDTH: u32 = 80;

pub const MAP_TILE_HEIGHT: u32 = 50;

/// How often a room is tried to be placed.
pub const ROOM_NUM_TRIES: i32 = 30;

pub const ROOM_MIN_WIDTH: u32 = 5;

pub const ROOM_MAX_WIDTH: u32 = 11;

pub const ROOM_MIN_HEIGHT: u32 = 5;

pub const ROOM_MAX_HEIGHT: u32 = 11;

} // verus!
