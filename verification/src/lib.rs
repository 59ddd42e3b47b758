//! Conway's Game of Life on a toroidal grid, one bit per cell.
//!
//! [`Universe`] owns the dimensions and the bit set of cells. Its contracts
//! speak of [`grid::Grid`], the mathematical grid it stands for, and of
//! [`rule::survives`], the birth and survival rule.

pub mod bitset;
pub mod grid;
pub mod patterns;
pub mod rule;
pub mod seed;
pub mod universe;

pub use seed::Seed;
pub use universe::Universe;
