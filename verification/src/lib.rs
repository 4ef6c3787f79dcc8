//! Turn-based simulation core of a grid-based tactical game.
//!
//! Each tick the scheduler decides which entity acts, which of its scored
//! candidate actions is carried out, and how the consequences of that action
//! cascade into further actions.

pub mod actions;
pub mod bitgrid;
pub mod board;
pub mod config;
pub mod input;
pub mod manager;
pub mod mapgen;
pub mod pathfind;
pub mod pieces;
pub mod player;
pub mod point;
pub mod random;
pub mod rect;
pub mod state;
pub mod world;
