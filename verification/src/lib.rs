//! A minimal wave-function-collapse style grid generator.
//!
//! A rectangular grid of cells is generated one cell at a time: each step
//! picks an undetermined cell, narrows the set of tile types that are still
//! consistent with its already-determined neighbours, and commits to one of
//! the remaining options using a deterministic pseudo-random stream seeded
//! at construction.

pub mod cell;
pub mod engine;
pub mod grid;
pub mod laws;

pub use cell::Cell;
pub use cell::CellType;
pub use cell::StepOutcome;
pub use grid::WaveFunctionCollapse;
