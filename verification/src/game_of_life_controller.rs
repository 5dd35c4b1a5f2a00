//! The Game of Life behind the controller that a viewer drives.

use crate::game_of_life::{lemma_index_in_bounds, Cell, Grid, Universe};
use crate::grid_view::{lit_entities, Color, Controller, Entity, GridViewModel, Scene};
use vstd::prelude::*;

verus! {

/// A controller as mathematics sees it: the grid and the two colours.
pub struct LifeState {
    pub grid: Grid,
    pub live_color: Color,
    pub dead_color: Color,
}

/// Which cells of `grid` are lit: the living ones.
pub open spec fn living(grid: Grid) -> spec_fn(int, int) -> bool {
    |row: int, col: int| grid.cell(row, col) == Cell::Alive
}

/// A universe with the colours of its living cells and of the background.
pub struct GameOfLifeController {
    model: Universe,
    live_color: Color,
    dead_color: Color,
}

impl View for GameOfLifeController {
    type V = LifeState;

    closed spec fn view(&self) -> LifeState {
        LifeState { grid: self.model@, live_color: self.live_color, dead_color: self.dead_color }
    }
}

impl GameOfLifeController {
    pub fn new(model: Universe, live_color: Color, dead_color: Color) -> (controller: Self)
        requires
            model.wf(),
        ensures
            controller.inv(),
            controller@ == (LifeState { grid: model@, live_color, dead_color }),
    {
        Self { model, live_color, dead_color }
    }

    /// The universe that the controller drives.
    pub fn universe(&self) -> (universe: &Universe)
        ensures
            universe@ == self@.grid,
            self.inv() ==> universe.wf(),
    {
        &self.model
    }

    fn build_view_model(&self) -> (model: GridViewModel)
        requires
            self.inv(),
        ensures
            model@ == Self::scene(self@),
            model@.in_bounds(),
    {
        let ghost grid = self.model@;
        let ghost width = grid.width;
        let height = self.model.height();
        let cols = self.model.width();
        let mut entities: Vec<Entity> = Vec::new();
        let mut row: usize = 0;
        while row < height
            invariant
                self.inv(),
                grid == self.model@,
                width == grid.width,
                height == grid.height,
                cols == grid.width,
                row <= height,
                entities@ == lit_entities(
                    living(grid),
                    width,
                    self.live_color,
                    (row * width) as nat,
                ),
                forall|k: int|
                    0 <= k < entities@.len() ==> (#[trigger] entities@[k]).row < height
                        && entities@[k].col < cols,
            decreases height - row,
        {
            let mut col: usize = 0;
            while col < cols
                invariant
                    self.inv(),
                    grid == self.model@,
                    width == grid.width,
                    height == grid.height,
                    cols == grid.width,
                    row < height,
                    col <= cols,
                    entities@ == lit_entities(
                        living(grid),
                        width,
                        self.live_color,
                        (row * width + col) as nat,
                    ),
                    forall|k: int|
                        0 <= k < entities@.len() ==> (#[trigger] entities@[k]).row < height
                            && entities@[k].col < cols,
                decreases cols - col,
            {
                proof {
                    lemma_index_in_bounds(row as int, col as int, height as int, width as int);
                }
                if let Cell::Alive = self.model.cell_at(row, col) {
                    let entity = Entity::new(self.live_color, row, col);
                    entities.push(entity);
                }
                col += 1;
            }
            assert((row + 1) * width == row * width + width) by (nonlinear_arith);
            row += 1;
        }
        GridViewModel::new(height, cols, entities, self.dead_color)
    }
}

impl Controller for GameOfLifeController {
    closed spec fn inv(&self) -> bool {
        self.model.wf()
    }

    open spec fn scene(state: LifeState) -> Scene {
        Scene {
            rows: state.grid.height,
            cols: state.grid.width,
            entities: lit_entities(
                living(state.grid),
                state.grid.width,
                state.live_color,
                state.grid.cells.len(),
            ),
            background_color: state.dead_color,
        }
    }

    open spec fn can_update(state: LifeState) -> bool {
        state.grid.generation < u32::MAX
    }

    open spec fn accepts_click(state: LifeState, row: usize, col: usize) -> bool {
        state.grid.in_bounds(row as int, col as int)
    }

    open spec fn updated(state: LifeState) -> LifeState {
        LifeState { grid: state.grid.next(), ..state }
    }

    open spec fn clicked(state: LifeState, row: usize, col: usize) -> LifeState {
        LifeState {
            grid: state.grid.toggled(row as int, col as int),
            ..state
        }
    }

    open spec fn cleared(state: LifeState) -> LifeState {
        LifeState { grid: state.grid.cleared(), ..state }
    }

    fn model(&self) -> (model: GridViewModel) {
        self.build_view_model()
    }

    fn update(&mut self) {
        self.model.next_gen();
    }

    fn mouse_click(&mut self, row: usize, col: usize) {
        self.model.toggle_cell_at(row, col);
    }

    fn clear(&mut self) {
        self.model.clear();
    }
}

} // verus!
