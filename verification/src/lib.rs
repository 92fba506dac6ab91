//! A verified Minesweeper game-state engine: board generation with mine
//! placement and adjacency counts, and the reveal/flag/chord state machine
//! with flood-fill of zero-count regions.

pub mod board;
pub mod cell;
pub mod count;
pub mod engine;
pub mod laws;
pub mod model;
mod rng;
