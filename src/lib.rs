//! Conway's Game of Life on a toroidal grid, with verified rules and
//! pattern stamping.

pub mod cell;
pub mod grid;
pub mod laws;
pub mod pattern;
mod random;
pub mod universe;

pub use cell::Cell;
pub use grid::GridModel;
pub use universe::{GridError, Universe};
