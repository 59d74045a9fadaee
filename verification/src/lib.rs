//! Conway's Game of Life on a fixed-size toroidal grid.
//!
//! The universe stores its cells bit-packed, eight to a byte, and advances
//! one generation at a time under the classic rule: a live cell survives
//! with exactly two or three live neighbours, a dead cell is born with
//! exactly three, and every neighbourhood wraps around the grid edges.

pub mod cell;
pub mod render;
pub mod step;
pub mod universe;

pub use cell::Cell;
pub use universe::Universe;
