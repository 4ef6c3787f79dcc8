//! The pieces that stand on the board.

pub mod components;
