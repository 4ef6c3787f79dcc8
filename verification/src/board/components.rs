//! What an entity or a cell of the board carries.

use vstd::prelude::*;
use crate::point::Point;

verus! {

/// The cell on which an entity stands.
#[derive(Clone, Copy, Debug, PartialEq, Eq, Structural)]
pub struct Position {
    pub p: Point,
}

/// The kind of a cell.
#[derive(Clone, Copy, Debug, PartialEq, Eq, Structural)]
pub enum Tile {
    Floor,
    Wall,
}

} // verus!
