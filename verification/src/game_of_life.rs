//! Conway's Game of Life on a bounded rectangular grid.

use crate::round_trip::lemma_round_trip;
use crate::snapshot::{chars_of, parse, parse_snapshot, render, render_snapshot, ParseError};
use vstd::pervasive::runtime_assert;
use vstd::prelude::*;

verus! {

/// The state of one cell.
#[derive(Debug, PartialEq, Eq, Clone, Copy, Structural)]
pub enum Cell {
    Alive,
    Dead,
}

impl Cell {
    /// The state that follows `self` for a cell with `living_neighbors`
    /// living cells around it.
    pub open spec fn spec_next_cell_state(self, living_neighbors: int) -> Cell {
        match self {
            Cell::Alive => if living_neighbors == 2 || living_neighbors == 3 {
                Cell::Alive
            } else {
                Cell::Dead
            },
            Cell::Dead => if living_neighbors == 3 {
                Cell::Alive
            } else {
                Cell::Dead
            },
        }
    }

    /// The other state.
    pub open spec fn spec_toggle(self) -> Cell {
        match self {
            Cell::Alive => Cell::Dead,
            Cell::Dead => Cell::Alive,
        }
    }

    /// The state of this cell one generation on, given how many of its
    /// neighbours live: a living cell lives on with two or three, a dead one
    /// comes to life with exactly three.
    pub fn next_cell_state(&self, living_neighbors: u8) -> (next: Self)
        ensures
            next == self.spec_next_cell_state(living_neighbors as int),
    {
        match self {
            Cell::Alive => {
                if living_neighbors < 2 || living_neighbors > 3 {
                    Cell::Dead
                } else {
                    Cell::Alive
                }
            },
            Cell::Dead => {
                if living_neighbors == 3 {
                    Cell::Alive
                } else {
                    Cell::Dead
                }
            },
        }
    }

    pub fn is_alive(&self) -> (alive: bool)
        ensures
            alive == (*self == Cell::Alive),
    {
        match self {
            Cell::Alive => true,
            Cell::Dead => false,
        }
    }

    pub fn toggle(&self) -> (toggled: Self)
        ensures
            toggled == self.spec_toggle(),
    {
        match self {
            Cell::Alive => Cell::Dead,
            Cell::Dead => Cell::Alive,
        }
    }
}

/// A grid as mathematics sees it: its generation counter, its extent, and
/// its cells in row-major order.
pub struct Grid {
    pub generation: nat,
    pub height: nat,
    pub width: nat,
    pub cells: Seq<Cell>,
}

impl Grid {
    /// Both extents are positive and there is one cell per position.
    pub open spec fn wf(self) -> bool {
        &&& self.height > 0
        &&& self.width > 0
        &&& self.cells.len() == self.height * self.width
    }

    pub open spec fn in_bounds(self, row: int, col: int) -> bool {
        0 <= row < self.height && 0 <= col < self.width
    }

    /// The cell at `(row, col)`.
    pub open spec fn cell(self, row: int, col: int) -> Cell {
        self.cells[row * self.width + col]
    }

    /// 1 if `(row, col)` lies on the grid and holds a living cell, else 0.
    /// A position off the grid counts as dead: the grid does not wrap.
    pub open spec fn alive(self, row: int, col: int) -> int {
        if self.in_bounds(row, col) && self.cell(row, col) == Cell::Alive {
            1
        } else {
            0
        }
    }

    /// The number of living cells among the eight positions around
    /// `(row, col)`.
    pub open spec fn living_neighbors(self, row: int, col: int) -> int {
        self.alive(row - 1, col - 1) + self.alive(row - 1, col) + self.alive(row - 1, col + 1)
            + self.alive(row, col - 1) + self.alive(row, col + 1) + self.alive(row + 1, col - 1)
            + self.alive(row + 1, col) + self.alive(row + 1, col + 1)
    }

    /// The state of the cell with row-major index `i` one generation on.
    pub open spec fn next_cell(self, i: int) -> Cell {
        self.cells[i].spec_next_cell_state(
            self.living_neighbors(i / (self.width as int), i % (self.width as int)),
        )
    }

    /// The grid one generation on: every cell is judged against this grid.
    pub open spec fn next(self) -> Grid {
        Grid {
            generation: self.generation + 1,
            height: self.height,
            width: self.width,
            cells: Seq::new(self.cells.len(), |i: int| self.next_cell(i)),
        }
    }

    /// The grid with the cell at `(row, col)` replaced.
    pub open spec fn with_cell(self, row: int, col: int, cell: Cell) -> Grid {
        Grid { cells: self.cells.update(row * self.width + col, cell), ..self }
    }

    /// The grid with the cell at `(row, col)` in its other state.
    pub open spec fn toggled(self, row: int, col: int) -> Grid {
        self.with_cell(row, col, self.cell(row, col).spec_toggle())
    }

    /// The grid `steps` generations on.
    pub open spec fn advanced(self, steps: nat) -> Grid
        decreases steps,
    {
        if steps == 0 {
            self
        } else {
            self.advanced((steps - 1) as nat).next()
        }
    }

    /// `(row, col)` is one of the eight positions around `(to_row, to_col)`.
    pub open spec fn adjacent(row: int, col: int, to_row: int, to_col: int) -> bool {
        &&& to_row - 1 <= row <= to_row + 1
        &&& to_col - 1 <= col <= to_col + 1
        &&& !(row == to_row && col == to_col)
    }

    /// The only living cell of the grid is the one at `(row, col)`.
    pub open spec fn lone_cell(self, row: int, col: int) -> bool {
        &&& self.in_bounds(row, col)
        &&& forall|r: int, c: int|
            self.in_bounds(r, c) ==> ((#[trigger] self.cell(r, c) == Cell::Alive) <==> (r == row
                && c == col))
    }

    /// The grid of the same extent with every cell dead, at generation 0.
    pub open spec fn cleared(self) -> Grid {
        Grid {
            generation: 0,
            height: self.height,
            width: self.width,
            cells: Seq::new(self.cells.len(), |i: int| Cell::Dead),
        }
    }
}

/// The row-major index of an in-bounds position lies within the cells.
pub proof fn lemma_index_in_bounds(row: int, col: int, height: int, width: int)
    requires
        0 <= row < height,
        0 <= col < width,
    ensures
        0 <= row * width + col < height * width,
        (row * width + col) / width == row,
        (row * width + col) % width == col,
{
    assert(0 <= row * width) by (nonlinear_arith)
        requires
            0 <= row,
            0 < width,
    ;
    assert(row * width + width <= height * width) by (nonlinear_arith)
        requires
            row + 1 <= height,
            0 < width,
    ;
    vstd::arithmetic::div_mod::lemma_fundamental_div_mod_converse(row * width + col, width, row, col);
}

/// A row-major index within the cells names an in-bounds position.
pub proof fn lemma_position_in_bounds(i: int, height: int, width: int)
    requires
        0 <= i < height * width,
        0 < width,
    ensures
        0 <= i / width < height,
        0 <= i % width < width,
        (i / width) * width + i % width == i,
{
    vstd::arithmetic::div_mod::lemma_fundamental_div_mod(i, width);
    vstd::arithmetic::div_mod::lemma_mod_bound(i, width);
    let q = i / width;
    assert(width * q == q * width) by (nonlinear_arith);
    assert(0 <= q) by (nonlinear_arith)
        requires
            q * width + i % width == i,
            0 <= i,
            0 <= i % width < width,
    ;
    assert(q < height) by (nonlinear_arith)
        requires
            q * width + i % width == i,
            i < height * width,
            0 <= i % width,
            0 < width,
    ;
}

/// A cell in a corner has three neighbours on the grid, the three next to
/// it, and no others count: the grid does not wrap around.
pub proof fn lemma_corner_neighbors(grid: Grid)
    requires
        grid.wf(),
        grid.height > 1,
        grid.width > 1,
    ensures
        grid.living_neighbors(0, 0) == grid.alive(0, 1) + grid.alive(1, 0) + grid.alive(1, 1),
        grid.living_neighbors(0, grid.width - 1) == grid.alive(0, grid.width - 2) + grid.alive(
            1,
            grid.width - 2,
        ) + grid.alive(1, grid.width - 1),
        grid.living_neighbors(grid.height - 1, 0) == grid.alive(grid.height - 2, 0) + grid.alive(
            grid.height - 2,
            1,
        ) + grid.alive(grid.height - 1, 1),
        grid.living_neighbors(grid.height - 1, grid.width - 1) == grid.alive(
            grid.height - 2,
            grid.width - 2,
        ) + grid.alive(grid.height - 2, grid.width - 1) + grid.alive(
            grid.height - 1,
            grid.width - 2,
        ),
        grid.living_neighbors(0, 0) <= 3,
        grid.living_neighbors(0, grid.width - 1) <= 3,
        grid.living_neighbors(grid.height - 1, 0) <= 3,
        grid.living_neighbors(grid.height - 1, grid.width - 1) <= 3,
{
}

/// Where one cell alone lives, a cell counts one living neighbour if it is
/// next to that cell and none otherwise, however far across the grid it
/// lies; and one generation on every cell is dead.
pub proof fn lemma_lone_cell(grid: Grid, row: int, col: int)
    requires
        grid.wf(),
        grid.lone_cell(row, col),
    ensures
        forall|r: int, c: int|
            grid.in_bounds(r, c) ==> #[trigger] grid.living_neighbors(r, c) == (if Grid::adjacent(
                r,
                c,
                row,
                col,
            ) {
                1int
            } else {
                0int
            }),
        forall|i: int| 0 <= i < grid.cells.len() ==> #[trigger] grid.next().cells[i] == Cell::Dead,
{
    assert forall|r: int, c: int| grid.in_bounds(r, c) implies #[trigger] grid.living_neighbors(
        r,
        c,
    ) == (if Grid::adjacent(r, c, row, col) {
        1int
    } else {
        0int
    }) by {
        lemma_lone_alive(grid, row, col, r - 1, c - 1);
        lemma_lone_alive(grid, row, col, r - 1, c);
        lemma_lone_alive(grid, row, col, r - 1, c + 1);
        lemma_lone_alive(grid, row, col, r, c - 1);
        lemma_lone_alive(grid, row, col, r, c + 1);
        lemma_lone_alive(grid, row, col, r + 1, c - 1);
        lemma_lone_alive(grid, row, col, r + 1, c);
        lemma_lone_alive(grid, row, col, r + 1, c + 1);
    }
    assert forall|i: int| 0 <= i < grid.cells.len() implies #[trigger] grid.next().cells[i]
        == Cell::Dead by {
        lemma_position_in_bounds(i, grid.height as int, grid.width as int);
        let r = i / (grid.width as int);
        let c = i % (grid.width as int);
        assert(grid.in_bounds(r, c));
        assert(grid.living_neighbors(r, c) <= 1);
    }
}

/// Where one cell alone lives, a position counts as alive exactly if it is
/// that cell's.
proof fn lemma_lone_alive(grid: Grid, row: int, col: int, r: int, c: int)
    requires
        grid.wf(),
        grid.lone_cell(row, col),
    ensures
        grid.alive(r, c) == (if r == row && c == col {
            1int
        } else {
            0int
        }),
{
    if grid.in_bounds(r, c) {
        assert((grid.cell(r, c) == Cell::Alive) <==> (r == row && c == col));
    }
}

/// Toggling a cell twice gives the grid back.
pub proof fn lemma_toggle_twice(grid: Grid, row: int, col: int)
    requires
        grid.wf(),
        grid.in_bounds(row, col),
    ensures
        grid.toggled(row, col).toggled(row, col) == grid,
{
    lemma_index_in_bounds(row, col, grid.height as int, grid.width as int);
    assert(grid.toggled(row, col).toggled(row, col).cells == grid.cells);
}

/// A step in time keeps the extent and the well-formedness of a grid and
/// adds one to its generation, and so do `steps` steps, which add `steps`.
pub proof fn lemma_advanced(grid: Grid, steps: nat)
    requires
        grid.wf(),
    ensures
        grid.advanced(steps).wf(),
        grid.advanced(steps).height == grid.height,
        grid.advanced(steps).width == grid.width,
        grid.advanced(steps).generation == grid.generation + steps,
    decreases steps,
{
    if steps > 0 {
        lemma_advanced(grid, (steps - 1) as nat);
    }
}

/// The next generation depends on the grid alone: two universes that hold
/// the same grid hold the same grid again after the same number of steps.
pub proof fn lemma_same_grid_same_future(a: Universe, b: Universe, steps: nat)
    requires
        a@ == b@,
    ensures
        a@.next() == b@.next(),
        a@.advanced(steps) == b@.advanced(steps),
{
}

/// A grid of cells and the number of its generation. The extent never
/// changes.
#[derive(Debug)]
pub struct Universe {
    generation: u32,
    height: usize,
    width: usize,
    cells: Vec<Cell>,
}

impl View for Universe {
    type V = Grid;

    closed spec fn view(&self) -> Grid {
        Grid {
            generation: self.generation as nat,
            height: self.height as nat,
            width: self.width as nat,
            cells: self.cells@,
        }
    }
}

impl Universe {
    /// The universe holds a well-formed grid.
    pub open spec fn wf(&self) -> bool {
        self@.wf()
    }

    /// The universe at generation 0 whose rows of `width` cells are cut from
    /// `cell_slice`.
    pub fn new(cell_slice: &[Cell], width: usize) -> (universe: Self)
        requires
            width > 0,
            cell_slice@.len() > 0,
            cell_slice@.len() % (width as nat) == 0,
        ensures
            universe.wf(),
            universe@ == (Grid {
                generation: 0,
                height: cell_slice@.len() / (width as nat),
                width: width as nat,
                cells: cell_slice@,
            }),
    {
        let height = cell_slice.len() / width;
        let mut cells: Vec<Cell> = Vec::new();
        let mut i: usize = 0;
        while i < cell_slice.len()
            invariant
                i <= cell_slice@.len(),
                cells@ == cell_slice@.subrange(0, i as int),
            decreases cell_slice@.len() - i,
        {
            cells.push(cell_slice[i]);
            i += 1;
        }
        proof {
            let len = cell_slice@.len() as int;
            let w = width as int;
            vstd::arithmetic::div_mod::lemma_fundamental_div_mod(len, w);
            assert(w * (len / w) == (len / w) * w) by (nonlinear_arith);
            assert(cells@ == cell_slice@);
            assert(len / w > 0) by (nonlinear_arith)
                requires
                    (len / w) * w == len,
                    len > 0,
                    w > 0,
            ;
        }
        Self { generation: 0, height, width, cells }
    }

    /// Reads a universe from its snapshot.
    pub fn from_string(world_string: &str) -> (universe: Result<Self, ParseError>)
        ensures
            match parse(world_string@) {
                Ok(grid) => universe is Ok && universe->Ok_0@ == grid && universe->Ok_0.wf(),
                Err(e) => universe is Err && universe->Err_0 == e,
            },
    {
        let text = chars_of(world_string);
        match parse_snapshot(&text) {
            Ok(snapshot) => Ok(
                Self {
                    generation: snapshot.generation,
                    height: snapshot.height,
                    width: snapshot.width,
                    cells: snapshot.cells,
                },
            ),
            Err(e) => Err(e),
        }
    }

    /// Writes the snapshot of this universe.
    pub fn to_string(&self) -> (text: String)
        requires
            self.wf(),
        ensures
            text@ == render(self@),
            parse(text@) == Ok::<Grid, ParseError>(self@),
    {
        proof {
            lemma_round_trip(self@);
        }
        render_snapshot(self.generation, self.height, self.width, &self.cells)
    }

    pub fn generation(&self) -> (generation: u32)
        ensures
            generation == self@.generation,
    {
        self.generation
    }

    pub fn height(&self) -> (height: usize)
        ensures
            height == self@.height,
    {
        self.height
    }

    pub fn width(&self) -> (width: usize)
        ensures
            width == self@.width,
    {
        self.width
    }

    /// The cell at `(row, col)`, which has to lie on the grid.
    pub fn cell_at(&self, row: usize, col: usize) -> (cell: &Cell)
        requires
            self.wf(),
            self@.in_bounds(row as int, col as int),
        ensures
            *cell == self@.cell(row as int, col as int),
    {
        // Stops a caller that was not verified and is off the grid, where
        // the index below could name another cell.
        runtime_assert(row < self.height && col < self.width);
        proof {
            lemma_index_in_bounds(row as int, col as int, self.height as int, self.width as int);
            assert(self.cells@.len() == self.cells.len());
            assert(row * self.width + col < self.cells@.len());
        }
        let index = row * self.width + col;
        &self.cells[index]
    }

    /// Writes `new_cell` at `(row, col)`, which has to lie on the grid.
    pub fn set_cell_at(&mut self, row: usize, col: usize, new_cell: Cell)
        requires
            old(self).wf(),
            old(self)@.in_bounds(row as int, col as int),
        ensures
            final(self).wf(),
            final(self)@ == old(self)@.with_cell(row as int, col as int, new_cell),
            final(self)@.generation == old(self)@.generation,
    {
        // As in `cell_at`.
        runtime_assert(row < self.height && col < self.width);
        proof {
            lemma_index_in_bounds(row as int, col as int, self.height as int, self.width as int);
            assert(self.cells@.len() == self.cells.len());
            assert(row * self.width + col < self.cells@.len());
        }
        let index = row * self.width + col;
        self.cells[index] = new_cell;
    }

    /// Flips the cell at `(row, col)`, which has to lie on the grid.
    pub fn toggle_cell_at(&mut self, row: usize, col: usize)
        requires
            old(self).wf(),
            old(self)@.in_bounds(row as int, col as int),
        ensures
            final(self).wf(),
            final(self)@ == old(self)@.toggled(row as int, col as int),
            final(self)@.generation == old(self)@.generation,
    {
        let toggled = self.cell_at(row, col).toggle();
        self.set_cell_at(row, col, toggled);
    }

    /// Kills every cell and starts again at generation 0.
    pub fn clear(&mut self)
        requires
            old(self).wf(),
        ensures
            final(self).wf(),
            final(self)@ == old(self)@.cleared(),
            final(self)@.generation == 0,
    {
        let len = self.cells.len();
        let mut all_dead: Vec<Cell> = Vec::new();
        let mut i: usize = 0;
        while i < len
            invariant
                i <= len,
                all_dead@.len() == i,
                forall|k: int| 0 <= k < i ==> all_dead@[k] == Cell::Dead,
            decreases len - i,
        {
            all_dead.push(Cell::Dead);
            i += 1;
        }
        self.cells = all_dead;
        self.generation = 0;
        assert(self@.cells == old(self)@.cleared().cells);
    }

    /// 1 if `(row, col)` holds a living cell, else 0.
    fn alive_at(&self, row: usize, col: usize) -> (count: u8)
        requires
            self.wf(),
            self@.in_bounds(row as int, col as int),
        ensures
            count == self@.alive(row as int, col as int),
    {
        if self.cell_at(row, col).is_alive() {
            1
        } else {
            0
        }
    }

    /// The living cells among the up to three positions of `row` that lie
    /// in the columns `col - 1 ..= col + 1`, the middle one left out where
    /// `skip_middle` is set.
    fn alive_in_row(&self, row: usize, col: usize, skip_middle: bool) -> (count: u8)
        requires
            self.wf(),
            self@.in_bounds(row as int, col as int),
        ensures
            count == self@.alive(row as int, col - 1) + (if skip_middle {
                0
            } else {
                self@.alive(row as int, col as int)
            }) + self@.alive(row as int, col + 1),
    {
        let mut count: u8 = 0;
        if col > 0 {
            count += self.alive_at(row, col - 1);
        }
        if !skip_middle {
            count += self.alive_at(row, col);
        }
        if col + 1 < self.width {
            count += self.alive_at(row, col + 1);
        }
        count
    }

    /// The number of living cells among the neighbours of `(row, col)` that
    /// lie on the grid.
    pub fn living_neighbors(&self, row: usize, col: usize) -> (count: u8)
        requires
            self.wf(),
            self@.in_bounds(row as int, col as int),
        ensures
            count == self@.living_neighbors(row as int, col as int),
            count <= 8,
    {
        let mut count: u8 = 0;
        if row > 0 {
            count += self.alive_in_row(row - 1, col, false);
        }
        count += self.alive_in_row(row, col, true);
        if row + 1 < self.height {
            count += self.alive_in_row(row + 1, col, false);
        }
        count
    }

    /// Goes one generation on. Every cell is judged against the grid as it
    /// was before the step.
    pub fn next_gen(&mut self)
        requires
            old(self).wf(),
            old(self)@.generation < u32::MAX,
        ensures
            final(self).wf(),
            final(self)@ == old(self)@.next(),
            final(self)@.generation == old(self)@.generation + 1,
    {
        let len = self.cells.len();
        let mut new_cells: Vec<Cell> = Vec::with_capacity(len);
        let mut i: usize = 0;
        while i < len
            invariant
                self.wf(),
                len == self@.cells.len(),
                i <= len,
                new_cells@.len() == i,
                forall|k: int| 0 <= k < i ==> new_cells@[k] == self@.next_cell(k),
            decreases len - i,
        {
            proof {
                lemma_position_in_bounds(i as int, self.height as int, self.width as int);
            }
            let row = i / self.width;
            let col = i % self.width;
            let count = self.living_neighbors(row, col);
            let new_cell = self.cells[i].next_cell_state(count);
            new_cells.push(new_cell);
            i += 1;
        }
        self.generation += 1;
        self.cells = new_cells;
        assert(self@.cells == old(self)@.next().cells);
    }

    /// Whether `(row, col)` lies on the grid.
    pub fn in_bounds(&self, row: isize, col: isize) -> (inside: bool)
        ensures
            inside == self@.in_bounds(row as int, col as int),
    {
        row >= 0 && (row as usize) < self.height && col >= 0 && (col as usize) < self.width
    }
}

} // verus!
