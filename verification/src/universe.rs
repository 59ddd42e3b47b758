//! The universe: a grid of cells held in a bit set, and the operations that
//! read it, seed it and advance it by a generation.

use crate::bitset::{bit_at, bits, duplicate, enabled_positions, lists_enabled, packs};
use crate::grid::{delta, lemma_wrap_in_range, Grid};
use crate::patterns::{placed, pulsar, pulsar_quadrant, quadrants, spaceship, wrap_signed};
use crate::rule::next_state;
use crate::seed::{drawn_alive, Seed, ALIVE_BELOW};
use fixedbitset::FixedBitSet;
use vstd::prelude::*;

verus! {

pub struct Universe {
    width: u32,
    height: u32,
    cells: FixedBitSet,
}

impl View for Universe {
    type V = Grid;

    closed spec fn view(&self) -> Grid {
        Grid { width: self.width as nat, height: self.height as nat, cells: bits(self.cells) }
    }
}

/// A list of coordinates as `(row, col)` pairs of integers.
pub open spec fn positions(cells: Seq<(u32, u32)>) -> Seq<(int, int)> {
    Seq::new(cells.len(), |k: int| (cells[k].0 as int, cells[k].1 as int))
}

impl Universe {
    /// The grid is well formed and its cells can be counted in a `usize`.
    pub open spec fn wf(&self) -> bool {
        &&& self@.wf()
        &&& self@.cells.len() <= usize::MAX
    }

    /// Whether a grid of these dimensions can be held: both are positive and
    /// the number of cells fits in a `usize`.
    pub open spec fn holds(width: nat, height: nat) -> bool {
        &&& width > 0
        &&& height > 0
        &&& width * height <= usize::MAX
    }

    /// A universe of the given dimensions with its cells assigned by `seed`.
    pub fn new(width: u32, height: u32, seed: Seed) -> (universe: Universe)
        requires
            Self::holds(width as nat, height as nat),
            seed.covers((width * height) as nat),
        ensures
            universe.wf(),
            universe@ == (Grid {
                width: width as nat,
                height: height as nat,
                cells: seed.cells((width * height) as nat),
            }),
    {
        let total_cells = width as usize * height as usize;
        let mut cells = FixedBitSet::with_capacity(total_cells);
        if !(seed matches Seed::Dead) {
            for idx in 0..total_cells
                invariant
                    seed.covers(total_cells as nat),
                    bits(cells).len() == total_cells,
                    forall|i: int| 0 <= i < idx ==> bits(cells)[i] == seed.cell(i),
            {
                cells.set(idx, seed.alive_at(idx));
            }
        }
        assert(bits(cells) =~= seed.cells(total_cells as nat));
        Universe { width, height, cells }
    }

    pub fn width(&self) -> (width: u32)
        ensures
            width == self@.width,
    {
        self.width
    }

    pub fn height(&self) -> (height: u32)
        ensures
            height == self@.height,
    {
        self.height
    }

    /// The number of cells, `width * height`.
    fn total_cells(&self) -> (total: usize)
        requires
            self@.width * self@.height <= usize::MAX,
        ensures
            total == self@.width * self@.height,
    {
        self.width as usize * self.height as usize
    }

    /// Sizes the storage to the current dimensions and makes every cell
    /// dead. The bit set grows in place; since it never shrinks, a smaller
    /// grid takes a fresh one.
    pub fn reset_cells(&mut self)
        requires
            old(self)@.width * old(self)@.height <= usize::MAX,
        ensures
            final(self)@ == Grid::dead(old(self)@.width, old(self)@.height),
            old(self)@.width > 0 && old(self)@.height > 0 ==> final(self).wf(),
    {
        let total_cells = self.total_cells();
        if total_cells < self.cells.len() {
            self.cells = FixedBitSet::with_capacity(total_cells);
        } else {
            self.cells.grow(total_cells);
            self.cells.clear();
        }
        assert(self@.cells =~= Grid::dead(self@.width, self@.height).cells);
    }

    /// Changes the width. No pattern outlives a resize: every cell of the
    /// new grid is dead.
    pub fn set_width(&mut self, width: u32)
        requires
            Self::holds(width as nat, old(self)@.height),
        ensures
            final(self).wf(),
            final(self)@ == Grid::dead(width as nat, old(self)@.height),
    {
        self.width = width;
        self.reset_cells();
    }

    /// Changes the height. No pattern outlives a resize: every cell of the
    /// new grid is dead.
    pub fn set_height(&mut self, height: u32)
        requires
            Self::holds(old(self)@.width, height as nat),
        ensures
            final(self).wf(),
            final(self)@ == Grid::dead(old(self)@.width, height as nat),
    {
        self.height = height;
        self.reset_cells();
    }

    /// The bit set that stores the cells.
    pub fn get_cells(&self) -> (cells: &FixedBitSet)
        ensures
            bits(*cells) == self@.cells,
    {
        &self.cells
    }

    /// The packed storage of the cells, thirty-two to a word, for a reader
    /// that draws the grid.
    pub fn cells(&self) -> (words: &[u32])
        ensures
            packs(words@, self@.cells),
    {
        self.cells.as_slice()
    }

    /// The positions of the live cells, in ascending order.
    pub fn get_alive_cells(&self) -> (alive: Vec<usize>)
        ensures
            lists_enabled(alive@, self@.cells),
    {
        enabled_positions(&self.cells)
    }

    /// Flips the cell at `(row, col)` and leaves every other cell alone.
    pub fn toggle_cell(&mut self, row: u32, col: u32)
        requires
            old(self).wf(),
            old(self)@.in_bounds(row as int, col as int),
        ensures
            final(self).wf(),
            final(self)@ == old(self)@.toggled(row as int, col as int),
    {
        let idx = self.get_index(row, col);
        self.cells.toggle(idx);
    }

    /// Makes exactly the cells at `cells`, a list of `(row, col)`, alive,
    /// whatever the grid held before. A position listed twice counts once.
    pub fn set_cells(&mut self, cells: &[(u32, u32)])
        requires
            old(self).wf(),
            forall|k: int|
                0 <= k < cells@.len() ==> old(self)@.in_bounds(
                    (#[trigger] cells@[k]).0 as int,
                    cells@[k].1 as int,
                ),
        ensures
            final(self).wf(),
            final(self)@ == Grid::dead(old(self)@.width, old(self)@.height).stamped(
                positions(cells@),
            ),
    {
        let ghost blank = Grid::dead(self@.width, self@.height);
        let ghost marks = positions(cells@);
        self.cells.clear();
        proof {
            blank.lemma_stamped_none();
            assert(marks.take(0) =~= Seq::empty());
            assert(self@.cells =~= blank.cells);
        }
        for k in 0..cells.len()
            invariant
                self.wf(),
                self@.width == blank.width,
                self@.height == blank.height,
                blank.cells.len() == self@.cells.len(),
                marks == positions(cells@),
                forall|j: int|
                    0 <= j < cells@.len() ==> self@.in_bounds(
                        (#[trigger] cells@[j]).0 as int,
                        cells@[j].1 as int,
                    ),
                self@.cells =~= blank.stamped(marks.take(k as int)).cells,
        {
            let (row, col) = cells[k];
            let idx = self.get_index(row, col);
            self.cells.put(idx);
            proof {
                blank.lemma_stamped_push(marks.take(k as int), marks[k as int]);
                assert(marks.take(k + 1) =~= marks.take(k as int).push(marks[k as int]));
            }
        }
        assert(marks.take(cells@.len() as int) =~= marks);
    }

    /// Stamps a glider with its corner at `(row, col)`. Cells are only made
    /// alive, and the shape wraps round the edges.
    pub fn add_spaceship(&mut self, row: u32, col: u32)
        requires
            old(self).wf(),
        ensures
            final(self).wf(),
            final(self)@ == old(self)@.stamped(
                placed(spaceship(), row as int, col as int, old(self)@.width, old(self)@.height),
            ),
    {
        let offsets: [(u32, u32); 5] = [(0, 1), (1, 2), (2, 0), (2, 1), (2, 2)];
        let ghost before = self@;
        let ghost marks = placed(spaceship(), row as int, col as int, before.width, before.height);
        proof {
            before.lemma_stamped_none();
            assert(marks.take(0) =~= Seq::empty());
        }
        for k in 0..5usize
            invariant
                self.wf(),
                self@.width == before.width,
                self@.height == before.height,
                before.cells.len() == self@.cells.len(),
                marks == placed(spaceship(), row as int, col as int, before.width, before.height),
                forall|j: int|
                    0 <= j < 5 ==> (#[trigger] offsets@[j]).0 == spaceship()[j].0 && offsets@[j].1
                        == spaceship()[j].1,
                self@.cells =~= before.stamped(marks.take(k as int)).cells,
        {
            let (dr, dc) = offsets[k];
            let r = ((row as u64 + dr as u64) % (self.height as u64)) as u32;
            let c = ((col as u64 + dc as u64) % (self.width as u64)) as u32;
            let idx = self.get_index(r, c);
            self.cells.put(idx);
            proof {
                before.lemma_stamped_push(marks.take(k as int), marks[k as int]);
                assert(marks.take(k + 1) =~= marks.take(k as int).push(marks[k as int]));
            }
        }
        assert(marks.take(5) =~= marks);
    }

    /// Stamps a pulsar centred at `(row, col)`. Cells are only made alive,
    /// and the shape wraps round the edges.
    pub fn add_pulsar(&mut self, row: i32, col: i32)
        requires
            old(self).wf(),
        ensures
            final(self).wf(),
            final(self)@ == old(self)@.stamped(
                placed(pulsar(), row as int, col as int, old(self)@.width, old(self)@.height),
            ),
    {
        let signs: [(i32, i32); 4] = [(1, 1), (1, -1), (-1, 1), (-1, -1)];
        let quadrant: [(i32, i32); 12] = [
            (2, 1),
            (3, 1),
            (4, 1),
            (1, 2),
            (1, 3),
            (1, 4),
            (2, 6),
            (3, 6),
            (4, 6),
            (6, 2),
            (6, 3),
            (6, 4),
        ];
        let ghost before = self@;
        let ghost marks = placed(pulsar(), row as int, col as int, before.width, before.height);
        proof {
            before.lemma_stamped_none();
            assert(marks.take(0) =~= Seq::empty());
        }
        for q in 0..4usize
            invariant
                self.wf(),
                self@.width == before.width,
                self@.height == before.height,
                before.cells.len() == self@.cells.len(),
                marks == placed(pulsar(), row as int, col as int, before.width, before.height),
                forall|j: int|
                    0 <= j < 4 ==> (#[trigger] signs@[j]).0 == quadrants()[j].0 && signs@[j].1
                        == quadrants()[j].1,
                forall|j: int|
                    0 <= j < 12 ==> (#[trigger] quadrant@[j]).0 == pulsar_quadrant()[j].0
                        && quadrant@[j].1 == pulsar_quadrant()[j].1,
                self@.cells =~= before.stamped(marks.take(12 * q)).cells,
        {
            for p in 0..12usize
                invariant
                    q < 4,
                    self.wf(),
                    self@.width == before.width,
                    self@.height == before.height,
                    before.cells.len() == self@.cells.len(),
                    marks == placed(
                        pulsar(),
                        row as int,
                        col as int,
                        before.width,
                        before.height,
                    ),
                    forall|j: int|
                        0 <= j < 4 ==> (#[trigger] signs@[j]).0 == quadrants()[j].0 && signs@[j].1
                            == quadrants()[j].1,
                    forall|j: int|
                        0 <= j < 12 ==> (#[trigger] quadrant@[j]).0 == pulsar_quadrant()[j].0
                            && quadrant@[j].1 == pulsar_quadrant()[j].1,
                    self@.cells =~= before.stamped(marks.take(12 * q + p)).cells,
            {
                let (sr, sc) = signs[q];
                let (dr, dc) = quadrant[p];
                let ghost k = 12 * q + p;
                assert(k / 12 == q && k % 12 == p);
                assert(-6 <= sr * dr <= 6 && -6 <= sc * dc <= 6) by (nonlinear_arith)
                    requires
                        -1 <= sr <= 1,
                        -1 <= sc <= 1,
                        0 <= dr <= 6,
                        0 <= dc <= 6,
                ;
                let r = wrap_signed(row, sr * dr, self.height);
                let c = wrap_signed(col, sc * dc, self.width);
                proof {
                    lemma_wrap_in_range(row as int, sr * dr, before.height);
                    lemma_wrap_in_range(col as int, sc * dc, before.width);
                }
                let idx = self.get_index(r, c);
                self.cells.put(idx);
                proof {
                    before.lemma_stamped_push(marks.take(k), marks[k]);
                    assert(marks.take(k + 1) =~= marks.take(k).push(marks[k]));
                }
            }
        }
        assert(marks.take(48) =~= marks);
    }

    /// Assigns every cell anew from `draws`, one draw to a cell in row-major
    /// order, whatever the cells were before.
    pub fn random_cells(&mut self, draws: &[u32])
        requires
            old(self).wf(),
            draws@.len() == old(self)@.cells.len(),
        ensures
            final(self).wf(),
            final(self)@ == (Grid {
                width: old(self)@.width,
                height: old(self)@.height,
                cells: Seq::new(draws@.len(), |i: int| drawn_alive(draws@[i])),
            }),
    {
        let ghost before = self@;
        let total_cells = self.total_cells();
        for idx in 0..total_cells
            invariant
                total_cells == before.cells.len(),
                self@.width == before.width,
                self@.height == before.height,
                self@.cells.len() == before.cells.len(),
                before.wf(),
                draws@.len() == before.cells.len(),
                forall|i: int| 0 <= i < idx ==> self@.cells[i] == drawn_alive(draws@[i]),
        {
            self.cells.set(idx, draws[idx] < ALIVE_BELOW);
        }
        assert(self@.cells =~= Seq::new(draws@.len(), |i: int| drawn_alive(draws@[i])));
    }

    /// The position of `(row, col)` in the cells: `row * width + col`.
    pub fn get_index(&self, row: u32, col: u32) -> (idx: usize)
        requires
            self.wf(),
            self@.in_bounds(row as int, col as int),
        ensures
            idx == self@.index(row as int, col as int),
            idx < self@.cells.len(),
    {
        proof {
            self@.lemma_index_in_range(row as int, col as int);
            assert(0 <= row * self.width <= self@.index(row as int, col as int)) by (nonlinear_arith)
                requires
                    self@.index(row as int, col as int) == row * self.width + col,
            ;
        }
        row as usize * self.width as usize + col as usize
    }

    /// The number of live cells among the eight neighbours of `(row, col)`
    /// on the torus.
    pub fn live_neighbor_count(&self, row: u32, col: u32) -> (count: u8)
        requires
            self.wf(),
            self@.in_bounds(row as int, col as int),
        ensures
            count == self@.live_neighbors(row as int, col as int),
            count <= 8,
    {
        let row_steps: [u32; 3] = [self.height - 1, 0, 1];
        let col_steps: [u32; 3] = [self.width - 1, 0, 1];
        let mut count: u8 = 0;
        for i in 0..3usize
            invariant
                self.wf(),
                self@.in_bounds(row as int, col as int),
                forall|k: int| 0 <= k < 3 ==> row_steps@[k] == delta(self@.height, k),
                forall|k: int| 0 <= k < 3 ==> col_steps@[k] == delta(self@.width, k),
                count == self@.neighbors_among(row as int, col as int, (3 * i) as nat),
                count <= 3 * i,
        {
            for j in 0..3usize
                invariant
                    self.wf(),
                    self@.in_bounds(row as int, col as int),
                    i < 3,
                    forall|k: int| 0 <= k < 3 ==> row_steps@[k] == delta(self@.height, k),
                    forall|k: int| 0 <= k < 3 ==> col_steps@[k] == delta(self@.width, k),
                    count == self@.neighbors_among(row as int, col as int, (3 * i + j) as nat),
                    count <= 3 * i + j,
            {
                let dr = row_steps[i];
                let dc = col_steps[j];
                assert((3 * i + j) / 3 == i && (3 * i + j) % 3 == j);
                if !(dr == 0u32 && dc == 0u32) {
                    let nr = ((row as u64 + self.height as u64 + dr as u64) % (self.height as u64)) as u32;
                    let nc = ((col as u64 + self.width as u64 + dc as u64) % (self.width as u64)) as u32;
                    let idx = self.get_index(nr, nc);
                    if bit_at(&self.cells, idx) {
                        count += 1;
                    }
                }
            }
        }
        proof {
            self@.lemma_live_neighbors_bound(row as int, col as int);
        }
        count
    }

    /// Advances the grid by one generation. The next generation is built in
    /// a second bit set and replaces the cells only when it is complete.
    pub fn tick(&mut self)
        requires
            old(self).wf(),
        ensures
            final(self)@ == old(self)@.next(),
            final(self).wf(),
    {
        let mut next = duplicate(&self.cells);
        let ghost now = self@;
        for row in 0..self.height
            invariant
                self.wf(),
                self@ == now,
                bits(next).len() == now.cells.len(),
                forall|i: int|
                    0 <= i < now.cells.len() && i < row * now.width ==> bits(next)[i]
                        == now.next_cell(i),
        {
            for col in 0..self.width
                invariant
                    self.wf(),
                    self@ == now,
                    row < now.height,
                    bits(next).len() == now.cells.len(),
                    forall|i: int|
                        0 <= i < now.cells.len() && i < row * now.width + col ==> bits(next)[i]
                            == now.next_cell(i),
            {
                let idx = self.get_index(row, col);
                let cell = bit_at(&self.cells, idx);
                let live_neighbors = self.live_neighbor_count(row, col);
                proof {
                    now.lemma_index_in_range(row as int, col as int);
                }
                next.set(idx, next_state(cell, live_neighbors));
            }
            assert(row * now.width + now.width == (row + 1) * now.width) by (nonlinear_arith);
        }
        assert(now.height * now.width == now.width * now.height) by (nonlinear_arith);
        assert(bits(next) =~= now.next().cells);
        self.cells = next;
    }
}

/// Two ascending listings of the live cells agree on their first `n`
/// entries.
proof fn lemma_listing_prefix(a: Seq<usize>, b: Seq<usize>, cells: Seq<bool>, n: nat)
    requires
        lists_enabled(a, cells),
        lists_enabled(b, cells),
        n <= a.len(),
        n <= b.len(),
    ensures
        forall|j: int| 0 <= j < n ==> a[j] == b[j],
    decreases n,
{
    if n > 0 {
        let m = n - 1;
        lemma_listing_prefix(a, b, cells, m as nat);
        if a[m] < b[m] {
            assert(cells[a[m] as int]);
            let j = choose|j: int| 0 <= j < b.len() && b[j] == a[m] as int;
            if j < m {
                assert(a[j] < a[m]);
            } else if j > m {
                assert(b[m] < b[j]);
            }
        } else if b[m] < a[m] {
            assert(cells[b[m] as int]);
            let j = choose|j: int| 0 <= j < a.len() && a[j] == b[m] as int;
            if j < m {
                assert(b[j] < b[m]);
            } else if j > m {
                assert(a[m] < a[j]);
            }
        }
    }
}

/// One listing cannot go on where the other ends.
proof fn lemma_listing_no_longer(a: Seq<usize>, b: Seq<usize>, cells: Seq<bool>)
    requires
        lists_enabled(a, cells),
        lists_enabled(b, cells),
    ensures
        a.len() <= b.len(),
{
    if a.len() > b.len() {
        let n = b.len() as int;
        lemma_listing_prefix(a, b, cells, b.len());
        assert(cells[a[n] as int]);
        let j = choose|j: int| 0 <= j < b.len() && b[j] == a[n] as int;
        assert(a[j] < a[n]);
    }
}

/// The cells decide what `get_alive_cells` returns: there is one ascending
/// listing of the live cells and no other.
pub proof fn lemma_alive_listing_unique(a: Seq<usize>, b: Seq<usize>, cells: Seq<bool>)
    requires
        lists_enabled(a, cells),
        lists_enabled(b, cells),
    ensures
        a == b,
{
    lemma_listing_no_longer(a, b, cells);
    lemma_listing_no_longer(b, a, cells);
    lemma_listing_prefix(a, b, cells, a.len());
    assert(a =~= b);
}

/// Whether the position `i` is among `listing`.
pub open spec fn listed(listing: Seq<usize>, i: int) -> bool {
    exists|k: int| 0 <= k < listing.len() && listing[k] == i
}

/// After `set_cells(coords)` the live cells, listed as `get_alive_cells`
/// lists them, are the indices of `coords` in ascending order, each once,
/// whatever the grid `before` held.
pub proof fn lemma_set_cells_then_alive_cells(before: Grid, coords: Seq<(u32, u32)>, alive: Seq<usize>)
    requires
        before.wf(),
        forall|k: int|
            0 <= k < coords.len() ==> before.in_bounds(
                (#[trigger] coords[k]).0 as int,
                coords[k].1 as int,
            ),
        lists_enabled(
            alive,
            Grid::dead(before.width, before.height).stamped(positions(coords)).cells,
        ),
    ensures
        forall|j: int, k: int| 0 <= j < k < alive.len() ==> alive[j] < alive[k],
        forall|i: int|
            #![trigger listed(alive, i)]
            #![trigger before.marked(positions(coords), i)]
            listed(alive, i) <==> before.marked(positions(coords), i),
{
    let blank = Grid::dead(before.width, before.height);
    let marks = positions(coords);
    let after = blank.stamped(marks);
    assert forall|i: int| listed(alive, i) implies before.marked(marks, i) by {
        let k = choose|k: int| 0 <= k < alive.len() && alive[k] == i;
        assert(after.cells[alive[k] as int]);
        assert(blank.marked(marks, i));
        let j = choose|j: int| 0 <= j < marks.len() && blank.index(marks[j].0, marks[j].1) == i;
        assert(before.index(marks[j].0, marks[j].1) == i);
    }
    assert forall|i: int| before.marked(marks, i) implies listed(alive, i) by {
        let j = choose|j: int| 0 <= j < marks.len() && before.index(marks[j].0, marks[j].1) == i;
        assert(before.in_bounds(coords[j].0 as int, coords[j].1 as int));
        before.lemma_index_in_range(marks[j].0, marks[j].1);
        assert(blank.index(marks[j].0, marks[j].1) == i);
        assert(blank.marked(marks, i));
        assert(after.cells[i]);
    }
}

} // verus!
