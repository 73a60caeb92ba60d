//! Game logic of a small top-down survival game: the inventory, the tiles of
//! the world and what interacting with them yields, the adjacency rules and the
//! wave-function-collapse world generator, chunk auto-tiling and bookkeeping,
//! and the menu state machine.
use vstd::prelude::*;

pub mod chunk;
pub mod chunk_manager;
pub mod environment;
pub mod grid_world;
pub mod inventory;
pub mod player;
pub mod rng;
pub mod sprite_ids;
pub mod state;
pub mod world_gen;

verus! {

/// Width and height, in tiles, of the generated world.
pub const WORLD_SIZE: usize = 41;

} // verus!
