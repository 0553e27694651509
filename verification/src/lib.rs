//! Rules engine for a turn-based dungeon crawler.
//!
//! The crate covers procedural dungeon generation, a visibility-driven
//! monster decision process, combat and experience resolution, an
//! inventory/equipment model, and the per-turn orchestration that sequences
//! all of the above.  Rendering, input polling and the field-of-view
//! computation are external collaborators: the engine consumes their results
//! as plain values and never performs I/O itself.

use vstd::prelude::*;

pub mod ai;
pub mod color;
pub mod combat;
pub mod constants;
pub mod game;
pub mod inventory;
pub mod items;
pub mod level;
pub mod log;
pub mod mapgen;
pub mod objects;
pub mod rng;
pub mod save;
pub mod text;
pub mod tile;
pub mod turn;
pub mod ui;
pub mod vision;

verus! {

} // verus!
