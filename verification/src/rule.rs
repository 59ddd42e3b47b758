//! The birth and survival rule of classic Life.

use vstd::prelude::*;

verus! {

/// Whether a cell is alive in the next generation: a live cell with two or
/// three live neighbours stays alive, a dead cell with exactly three comes
/// alive, and every other cell is dead.
pub open spec fn survives(alive: bool, live_neighbors: nat) -> bool {
    live_neighbors == 3 || (alive && live_neighbors == 2)
}

/// The rule as a decision table over the cell's state and its count of live
/// neighbours.
pub fn next_state(alive: bool, live_neighbors: u8) -> (next: bool)
    ensures
        next == survives(alive, live_neighbors as nat),
{
    match (alive, live_neighbors) {
        // lack of resources
        (true, x) if x < 2 => false,
        // stable
        (true, 2) | (true, 3) => true,
        // overcrowding
        (true, x) if x > 3 => false,
        // birth
        (false, 3) => true,
        // everything else stays the same
        (otherwise, _) => otherwise,
    }
}

} // verus!
