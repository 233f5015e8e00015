//! A Boolean network cellular automaton on a two-dimensional grid.
//!
//! Every cell holds one bit and reads a fixed tuple of source cells; a rule
//! table maps the packed source bits to the cell's next bit, and all cells
//! advance together, one generation at a time.

pub mod error;
pub mod grid;
pub mod partition;
pub mod random;
pub mod engine;
pub mod rule;
pub mod topology;
