//! A verified engine for Conway's Game of Life on a toroidal grid.
//!
//! The grid wraps around at its edges, so opposite borders are adjacent.
//! State is kept sparsely as the set of live cell coordinates; every tick
//! counts live neighbors from a snapshot of the current generation and then
//! applies the B3/S23 rule (birth on exactly 3 live neighbors, survival on
//! 2 or 3) to produce the next generation as a fresh set.

pub mod cells;
pub mod game;
pub mod laws;
pub mod rules;
pub mod topology;
