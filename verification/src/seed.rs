//! How the cells of a new universe are chosen.

use vstd::prelude::*;

verus! {

/// Draws below this bound make a live cell. A draw is a sample from the
/// whole range of `u32`, so the bound is the middle of the range: a draw
/// read as the fraction `draw / 2^32` is alive when it is below one half.
pub const ALIVE_BELOW: u32 = 0x8000_0000;

/// Whether a cell with this draw is alive.
pub open spec fn drawn_alive(draw: u32) -> bool {
    draw < ALIVE_BELOW
}

/// Whether the cell at position `i` is alive under the arithmetic seed:
/// every second cell and every seventh.
pub open spec fn arithmetic_alive(i: int) -> bool {
    i % 2 == 0 || i % 7 == 0
}

/// The policy that assigns the cells of a new universe.
pub enum Seed {
    /// Every cell dead.
    Dead,
    /// A fixed pattern for reproducible fixtures, see [`arithmetic_alive`].
    Arithmetic,
    /// One draw from a uniform source for each cell, in row-major order,
    /// see [`drawn_alive`].
    Draws(Vec<u32>),
}

impl Seed {
    /// Whether the seed can assign `total` cells: draws come one to a cell.
    pub open spec fn covers(self, total: nat) -> bool {
        self matches Seed::Draws(draws) ==> draws@.len() == total
    }

    /// The state that the seed gives the cell at position `i`.
    pub open spec fn cell(self, i: int) -> bool {
        match self {
            Seed::Dead => false,
            Seed::Arithmetic => arithmetic_alive(i),
            Seed::Draws(draws) => drawn_alive(draws@[i]),
        }
    }

    /// The cells of a grid of `total` positions under this seed.
    pub open spec fn cells(self, total: nat) -> Seq<bool> {
        Seq::new(total, |i: int| self.cell(i))
    }

    /// The state that the seed gives the cell at position `i`.
    pub fn alive_at(&self, i: usize) -> (alive: bool)
        requires
            self matches Seed::Draws(draws) ==> i < draws@.len(),
        ensures
            alive == self.cell(i as int),
    {
        match self {
            Seed::Dead => false,
            Seed::Arithmetic => i % 2 == 0 || i % 7 == 0,
            Seed::Draws(draws) => draws[i] < ALIVE_BELOW,
        }
    }
}

} // verus!
