//! Conway's Game of Life on a fixed-size toroidal grid whose cells are kept
//! in a densely packed bit array.
//!
//! [`bitmask::Bitmask`] is the packed array, [`universe::Universe`] the grid
//! and its step from one generation to the next, and [`grid`] states the
//! rules of the game on plain sequences of cells.

pub mod bitmask;
pub mod entity;
pub mod grid;
pub mod kernel_set;
pub mod pattern;
pub mod universe;
pub mod utils;

pub use crate::universe::Universe;
