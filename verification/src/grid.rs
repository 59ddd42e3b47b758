//! The mathematical grid: dimensions, cells in row-major order, neighbour
//! counts on the torus and the step from one generation to the next.

use crate::rule::survives;
use vstd::prelude::*;

verus! {

/// A grid of cells on a torus. The cell at `(row, col)` is
/// `cells[row * width + col]`, `true` when alive.
pub struct Grid {
    pub width: nat,
    pub height: nat,
    pub cells: Seq<bool>,
}

/// The three steps along an axis of extent `dim`, written without a sign:
/// `dim - 1` stands for one step back, then no step, then one step forward.
pub open spec fn delta(dim: nat, k: int) -> int {
    if k == 0 {
        dim - 1
    } else if k == 1 {
        0
    } else {
        1
    }
}

/// Where `steps` steps from `coord` lead on an axis of extent `dim` that
/// closes on itself.
pub open spec fn wrap(coord: int, steps: int, dim: nat) -> int {
    (coord + steps) % (dim as int)
}

/// A wrapped coordinate lies on the axis.
pub proof fn lemma_wrap_in_range(coord: int, steps: int, dim: nat)
    requires
        dim > 0,
    ensures
        0 <= wrap(coord, steps, dim) < dim,
{
    vstd::arithmetic::div_mod::lemma_mod_bound(coord + steps, dim as int);
}

/// Whole turns round the axis lead back to the same place.
pub proof fn lemma_wrap_turns(coord: int, steps: int, dim: nat, turns: int)
    requires
        dim > 0,
    ensures
        wrap(coord, turns * dim + steps, dim) == wrap(coord, steps, dim),
{
    vstd::arithmetic::div_mod::lemma_mod_multiples_vanish(turns, coord + steps, dim as int);
    assert(coord + (turns * dim + steps) == (dim as int) * turns + (coord + steps))
        by (nonlinear_arith);
}

impl Grid {
    /// Positive dimensions, and one cell for each position.
    pub open spec fn wf(self) -> bool {
        &&& self.width > 0
        &&& self.height > 0
        &&& self.cells.len() == self.width * self.height
    }

    /// The grid of the given dimensions with every cell dead.
    pub open spec fn dead(width: nat, height: nat) -> Grid {
        Grid { width, height, cells: Seq::new(width * height, |i: int| false) }
    }

    pub open spec fn in_bounds(self, row: int, col: int) -> bool {
        0 <= row < self.height && 0 <= col < self.width
    }

    /// The position of `(row, col)` in `cells`.
    pub open spec fn index(self, row: int, col: int) -> int {
        row * self.width + col
    }

    pub open spec fn alive(self, row: int, col: int) -> bool {
        self.cells[self.index(row, col)]
    }

    pub open spec fn all_dead(self) -> bool {
        forall|i: int| 0 <= i < self.cells.len() ==> !self.cells[i]
    }

    /// What the `k`-th of the nine pairs of steps adds to the count of live
    /// neighbours of `(row, col)`. The pairs run row by row over
    /// `delta(height, ..)` and `delta(width, ..)`; a pair of two zero steps
    /// adds nothing, any other pair adds one when the cell it leads to is
    /// alive.
    pub open spec fn neighbor(self, row: int, col: int, k: int) -> nat {
        let dr = delta(self.height, k / 3);
        let dc = delta(self.width, k % 3);
        if dr == 0 && dc == 0 {
            0
        } else if self.alive(
            wrap(row, self.height + dr, self.height),
            wrap(col, self.width + dc, self.width),
        ) {
            1
        } else {
            0
        }
    }

    /// The sum of the first `n` of the nine contributions.
    pub open spec fn neighbors_among(self, row: int, col: int, n: nat) -> nat
        decreases n,
    {
        if n == 0 {
            0
        } else {
            self.neighbors_among(row, col, (n - 1) as nat) + self.neighbor(row, col, n - 1)
        }
    }

    /// The number of live cells among the eight neighbours of `(row, col)`.
    pub open spec fn live_neighbors(self, row: int, col: int) -> nat {
        self.neighbors_among(row, col, 9)
    }

    /// One when the cell `dr` rows and `dc` columns from `(row, col)` is
    /// alive, zero when it is dead.
    pub open spec fn around(self, row: int, col: int, dr: int, dc: int) -> nat {
        if self.alive(wrap(row, dr, self.height), wrap(col, dc, self.width)) {
            1
        } else {
            0
        }
    }

    /// The live cells of the Moore neighbourhood of `(row, col)`: the eight
    /// cells one step away along a row, a column or a diagonal.
    pub open spec fn moore_count(self, row: int, col: int) -> nat {
        self.around(row, col, -1, -1) + self.around(row, col, -1, 0) + self.around(row, col, -1, 1)
            + self.around(row, col, 0, -1) + self.around(row, col, 0, 1) + self.around(
            row,
            col,
            1,
            -1,
        ) + self.around(row, col, 1, 0) + self.around(row, col, 1, 1)
    }

    /// On a grid at least two cells wide and two high the unsigned steps
    /// are the steps -1, 0 and 1, and the count of live neighbours is the
    /// count over the Moore neighbourhood. (On an axis of extent one the
    /// step back is written as zero, like no step at all.)
    pub proof fn lemma_live_neighbors_moore(self, row: int, col: int)
        requires
            self.width >= 2,
            self.height >= 2,
        ensures
            self.live_neighbors(row, col) == self.moore_count(row, col),
    {
        reveal_with_fuel(Grid::neighbors_among, 10);
        lemma_wrap_turns(row, -1, self.height, 2);
        lemma_wrap_turns(row, 0, self.height, 1);
        lemma_wrap_turns(row, 1, self.height, 1);
        lemma_wrap_turns(col, -1, self.width, 2);
        lemma_wrap_turns(col, 0, self.width, 1);
        lemma_wrap_turns(col, 1, self.width, 1);
        assert(self.neighbor(row, col, 0) == self.around(row, col, -1, -1));
        assert(self.neighbor(row, col, 1) == self.around(row, col, -1, 0));
        assert(self.neighbor(row, col, 2) == self.around(row, col, -1, 1));
        assert(self.neighbor(row, col, 3) == self.around(row, col, 0, -1));
        assert(self.neighbor(row, col, 4) == 0);
        assert(self.neighbor(row, col, 5) == self.around(row, col, 0, 1));
        assert(self.neighbor(row, col, 6) == self.around(row, col, 1, -1));
        assert(self.neighbor(row, col, 7) == self.around(row, col, 1, 0));
        assert(self.neighbor(row, col, 8) == self.around(row, col, 1, 1));
    }

    /// The pair of two zero steps is among the nine, so no count exceeds
    /// eight.
    pub proof fn lemma_live_neighbors_bound(self, row: int, col: int)
        ensures
            self.live_neighbors(row, col) <= 8,
    {
        reveal_with_fuel(Grid::neighbors_among, 10);
        assert(self.neighbor(row, col, 4) == 0);
    }

    /// The state of the cell at position `i` one generation on.
    pub open spec fn next_cell(self, i: int) -> bool {
        survives(
            self.cells[i],
            self.live_neighbors(i / (self.width as int), i % (self.width as int)),
        )
    }

    /// The next generation: every cell decided from this generation alone.
    pub open spec fn next(self) -> Grid {
        Grid {
            width: self.width,
            height: self.height,
            cells: Seq::new(self.cells.len(), |i: int| self.next_cell(i)),
        }
    }

    /// The grid `n` generations on.
    pub open spec fn after(self, n: nat) -> Grid
        decreases n,
    {
        if n == 0 {
            self
        } else {
            self.after((n - 1) as nat).next()
        }
    }

    /// This grid with the cell at `(row, col)` flipped.
    pub open spec fn toggled(self, row: int, col: int) -> Grid {
        Grid {
            width: self.width,
            height: self.height,
            cells: self.cells.update(self.index(row, col), !self.alive(row, col)),
        }
    }

    /// Whether one of `marks`, a list of `(row, col)`, lies at position `i`.
    pub open spec fn marked(self, marks: Seq<(int, int)>, i: int) -> bool {
        exists|k: int| 0 <= k < marks.len() && self.index(marks[k].0, marks[k].1) == i
    }

    /// This grid with the cells at `marks` alive and every other cell as it
    /// was.
    pub open spec fn stamped(self, marks: Seq<(int, int)>) -> Grid {
        Grid {
            width: self.width,
            height: self.height,
            cells: Seq::new(self.cells.len(), |i: int| self.cells[i] || self.marked(marks, i)),
        }
    }

    /// A position inside the grid has an index inside the cells, from which
    /// the row and the column can be read back.
    pub proof fn lemma_index_in_range(self, row: int, col: int)
        requires
            self.wf(),
            self.in_bounds(row, col),
        ensures
            0 <= self.index(row, col) < self.cells.len(),
            self.index(row, col) / (self.width as int) == row,
            self.index(row, col) % (self.width as int) == col,
    {
        let w = self.width as int;
        let h = self.height as int;
        assert(0 <= row * w <= (h - 1) * w) by (nonlinear_arith)
            requires
                0 <= row <= h - 1,
                0 < w,
        ;
        assert((h - 1) * w == w * h - w) by (nonlinear_arith);
        vstd::arithmetic::div_mod::lemma_fundamental_div_mod_converse(row * w + col, w, row, col);
    }

    /// A step keeps the dimensions and the number of cells.
    pub proof fn lemma_next_wf(self)
        requires
            self.wf(),
        ensures
            self.next().wf(),
            self.next().width == self.width,
            self.next().height == self.height,
            self.next().cells.len() == self.width * self.height,
    {
    }

    /// Any number of steps keeps the dimensions and the number of cells.
    pub proof fn lemma_after_wf(self, n: nat)
        requires
            self.wf(),
        ensures
            self.after(n).wf(),
            self.after(n).width == self.width,
            self.after(n).height == self.height,
            self.after(n).cells.len() == self.width * self.height,
        decreases n,
    {
        if n > 0 {
            self.lemma_after_wf((n - 1) as nat);
            self.after((n - 1) as nat).lemma_next_wf();
        }
    }

    /// The rule by coordinates: a cell of the next generation is decided by
    /// its own state and its count of live neighbours in this one.
    pub proof fn lemma_next_alive(self, row: int, col: int)
        requires
            self.wf(),
            self.in_bounds(row, col),
        ensures
            self.next().alive(row, col) == survives(
                self.alive(row, col),
                self.live_neighbors(row, col),
            ),
    {
        self.lemma_index_in_range(row, col);
    }

    /// A live cell with two or three live neighbours stays alive.
    pub proof fn lemma_stable_cell_stays_alive(self, row: int, col: int)
        requires
            self.wf(),
            self.in_bounds(row, col),
            self.alive(row, col),
            self.live_neighbors(row, col) == 2 || self.live_neighbors(row, col) == 3,
        ensures
            self.next().alive(row, col),
    {
        self.lemma_next_alive(row, col);
    }

    /// A live cell with fewer than two or more than three live neighbours
    /// dies, and a dead cell comes alive with exactly three.
    pub proof fn lemma_death_and_birth(self, row: int, col: int)
        requires
            self.wf(),
            self.in_bounds(row, col),
        ensures
            self.alive(row, col) && (self.live_neighbors(row, col) < 2 || self.live_neighbors(
                row,
                col,
            ) > 3) ==> !self.next().alive(row, col),
            !self.alive(row, col) ==> (self.next().alive(row, col) <==> self.live_neighbors(
                row,
                col,
            ) == 3),
    {
        self.lemma_next_alive(row, col);
    }

    /// In a grid without a live cell no cell has a live neighbour.
    pub proof fn lemma_dead_has_no_live_neighbors(self, row: int, col: int)
        requires
            self.wf(),
            self.all_dead(),
        ensures
            self.live_neighbors(row, col) == 0,
    {
        reveal_with_fuel(Grid::neighbors_among, 10);
        assert forall|k: int| 0 <= k < 9 implies self.neighbor(row, col, k) == 0 by {
            let r = wrap(row, self.height + delta(self.height, k / 3), self.height);
            let c = wrap(col, self.width + delta(self.width, k % 3), self.width);
            lemma_wrap_in_range(row, self.height + delta(self.height, k / 3), self.height);
            lemma_wrap_in_range(col, self.width + delta(self.width, k % 3), self.width);
            self.lemma_index_in_range(r, c);
        }
    }

    /// No birth without a live neighbour: a grid without a live cell is the
    /// same grid one generation on.
    pub proof fn lemma_dead_next_is_dead(self)
        requires
            self.wf(),
            self.all_dead(),
        ensures
            self.next() == self,
    {
        assert forall|i: int| 0 <= i < self.cells.len() implies self.next().cells[i]
            == self.cells[i] by {
            self.lemma_dead_has_no_live_neighbors(i / (self.width as int), i % (self.width as int));
        }
        assert(self.next().cells =~= self.cells);
    }

    /// A grid without a live cell stays as it is through any number of
    /// generations.
    pub proof fn lemma_dead_stays_dead(self, n: nat)
        requires
            self.wf(),
            self.all_dead(),
        ensures
            self.after(n) == self,
            self.after(n).all_dead(),
        decreases n,
    {
        if n > 0 {
            self.lemma_dead_stays_dead((n - 1) as nat);
            self.lemma_dead_next_is_dead();
        }
    }

    /// The grid made by [`Grid::dead`] has one cell for each position and
    /// none of them alive.
    pub proof fn lemma_dead_grid(width: nat, height: nat)
        ensures
            Grid::dead(width, height).all_dead(),
            Grid::dead(width, height).width == width,
            Grid::dead(width, height).height == height,
            Grid::dead(width, height).cells.len() == width * height,
            width > 0 && height > 0 ==> Grid::dead(width, height).wf(),
    {
    }

    /// Stamping no marks leaves the cells as they were.
    pub proof fn lemma_stamped_none(self)
        ensures
            self.stamped(Seq::empty()).cells =~= self.cells,
    {
    }

    /// Stamping one more mark enables the cell it lies at, and no other.
    pub proof fn lemma_stamped_push(self, marks: Seq<(int, int)>, mark: (int, int))
        requires
            0 <= self.index(mark.0, mark.1) < self.cells.len(),
        ensures
            self.stamped(marks.push(mark)).cells =~= self.stamped(marks).cells.update(
                self.index(mark.0, mark.1),
                true,
            ),
    {
        let more = marks.push(mark);
        let at = self.index(mark.0, mark.1);
        assert forall|i: int| 0 <= i < self.cells.len() implies self.marked(more, i) == (
        self.marked(marks, i) || i == at) by {
            if self.marked(more, i) {
                let k = choose|k: int|
                    0 <= k < more.len() && self.index(more[k].0, more[k].1) == i;
                if k < marks.len() {
                    assert(self.index(marks[k].0, marks[k].1) == i);
                }
            }
            if self.marked(marks, i) {
                let k = choose|k: int|
                    0 <= k < marks.len() && self.index(marks[k].0, marks[k].1) == i;
                assert(self.index(more[k].0, more[k].1) == i);
            }
            if i == at {
                assert(self.index(more[marks.len() as int].0, more[marks.len() as int].1) == i);
            }
        }
    }
}

} // verus!
