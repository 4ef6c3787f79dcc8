//! Fixed settings of the game.

use vstd::prelude::*;

pub mod map;

verus! {

/// The seed under which melee attacks draw their numbers.
pub const MELEE_ATTACK_SEED: u64 = 0x6faf2f42b2ee28f0;

/// The seed under which maps are generated.
pub const MAP_GENERATION_SEED: u64 = 0x5e7d30cd44e8330d;

/// The seed under which entities plan.
pub const AI_SEED: u64 = 0x3c72906cc95045bb;

/// Whether the steps of the map generation are recorded.
pub const SHOW_MAP_GEN: bool = true;

} // verus!
