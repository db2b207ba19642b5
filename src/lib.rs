//! Conway's Game of Life on a fixed-size toroidal grid, with each
//! operation's behaviour stated as a contract and proved.

mod bitset;
pub mod rules;
pub mod laws;
pub mod universe;

pub use universe::{Universe, UniverseError};
