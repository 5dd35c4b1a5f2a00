//! An elementary automaton behind the controller that a viewer drives. The
//! picture is a scrolling history: one row per past generation, the oldest
//! on top.

use crate::elementary::{state_of, CellState, ElemAutomata, Ring};
use crate::game_of_life::lemma_index_in_bounds;
use crate::grid_view::{lit_entities, Color, Controller, Entity, GridViewModel, Scene};
use std::collections::VecDeque;
use vstd::prelude::*;

verus! {

/// A controller as mathematics sees it.
pub struct HistoryState {
    pub ring: Ring,
    /// How many rows the picture has, and the history at most.
    pub max_height: nat,
    pub width: nat,
    pub live_color: Color,
    pub dead_color: Color,
    /// The generations shown, the oldest first.
    pub history: Seq<Seq<CellState>>,
}

impl HistoryState {
    /// The history holds at most `max_height` rows, each as wide as the
    /// ring.
    pub open spec fn wf(self) -> bool {
        &&& self.ring.wf()
        &&& self.width == self.ring.cells.len()
        &&& self.history.len() <= self.max_height
        &&& forall|r: int| 0 <= r < self.history.len() ==> (#[trigger] self.history[r]).len()
            == self.width
    }
}

/// `history` with `row` at its end, and without its first row where that
/// makes more than `max_height` rows.
pub open spec fn pushed(history: Seq<Seq<CellState>>, row: Seq<CellState>, max_height: nat) -> Seq<
    Seq<CellState>,
> {
    if history.len() + 1 > max_height {
        history.push(row).drop_first()
    } else {
        history.push(row)
    }
}

/// Which cells of `history` are lit: the living ones.
pub open spec fn living(history: Seq<Seq<CellState>>) -> spec_fn(int, int) -> bool {
    |row: int, col: int| history[row][col] == CellState::Alive
}

/// A click anywhere and a reset mean nothing to an elementary automaton:
/// every click is accepted, and neither changes the cells, the history or
/// anything else of the state.
pub proof fn lemma_click_and_clear_change_nothing(state: HistoryState, row: usize, col: usize)
    ensures
        ElemAutomataController::accepts_click(state, row, col),
        ElemAutomataController::clicked(state, row, col) == state,
        ElemAutomataController::cleared(state) == state,
{
}

/// An automaton with the generations it has left behind.
pub struct ElemAutomataController {
    model: ElemAutomata,
    max_height: usize,
    width: usize,
    live_color: Color,
    dead_color: Color,
    generations: VecDeque<Vec<CellState>>,
}

impl View for ElemAutomataController {
    type V = HistoryState;

    closed spec fn view(&self) -> HistoryState {
        HistoryState {
            ring: self.model@,
            max_height: self.max_height as nat,
            width: self.width as nat,
            live_color: self.live_color,
            dead_color: self.dead_color,
            history: Seq::new(self.generations@.len(), |r: int| self.generations@[r]@),
        }
    }
}

impl ElemAutomataController {
    pub fn new(
        model: ElemAutomata,
        max_height: usize,
        live_color: Color,
        dead_color: Color,
    ) -> (controller: Self)
        requires
            model.wf(),
        ensures
            controller.inv(),
            controller@ == (HistoryState {
                ring: model@,
                max_height: max_height as nat,
                width: model@.cells.len(),
                live_color,
                dead_color,
                history: Seq::empty(),
            }),
    {
        let width = model.cells().len();
        let controller = Self {
            model,
            max_height,
            live_color,
            dead_color,
            width,
            generations: VecDeque::new(),
        };
        assert(controller@.history == Seq::<Seq<CellState>>::empty());
        controller
    }

    /// The automaton that the controller drives.
    pub fn automaton(&self) -> (automaton: &ElemAutomata)
        ensures
            automaton@ == self@.ring,
            self.inv() ==> automaton.wf(),
    {
        &self.model
    }

    fn build_view_model(&self) -> (model: GridViewModel)
        requires
            self.inv(),
        ensures
            model@ == Self::scene(self@),
            model@.in_bounds(),
    {
        let ghost history = self@.history;
        let ghost width = self.width as nat;
        let shown = self.generations.len();
        let mut entities: Vec<Entity> = Vec::new();
        let mut r: usize = 0;
        while r < shown
            invariant
                self.inv(),
                history == self@.history,
                width == self.width,
                shown == history.len(),
                r <= shown,
                entities@ == lit_entities(
                    living(history),
                    width,
                    self.live_color,
                    (r * width) as nat,
                ),
                forall|k: int|
                    0 <= k < entities@.len() ==> (#[trigger] entities@[k]).row < shown
                        && entities@[k].col < self.width,
            decreases shown - r,
        {
            let row = &self.generations[r];
            assert(row@ == history[r as int]);
            let mut c: usize = 0;
            while c < row.len()
                invariant
                    self.inv(),
                    history == self@.history,
                    width == self.width,
                    shown == history.len(),
                    r < shown,
                    row@ == history[r as int],
                    row@.len() == width,
                    c <= row@.len(),
                    entities@ == lit_entities(
                        living(history),
                        width,
                        self.live_color,
                        (r * width + c) as nat,
                    ),
                    forall|k: int|
                        0 <= k < entities@.len() ==> (#[trigger] entities@[k]).row < shown
                            && entities@[k].col < self.width,
                decreases row@.len() - c,
            {
                proof {
                    lemma_index_in_bounds(r as int, c as int, shown as int, width as int);
                }
                if row[c] == CellState::Alive {
                    let entity = Entity::new(self.live_color, r, c);
                    entities.push(entity);
                }
                c += 1;
            }
            assert((r + 1) * width == r * width + width) by (nonlinear_arith);
            r += 1;
        }
        GridViewModel::new(self.max_height, self.width, entities, self.dead_color)
    }
}

impl Controller for ElemAutomataController {
    closed spec fn inv(&self) -> bool {
        self.model.wf() && self@.wf()
    }

    open spec fn scene(state: HistoryState) -> Scene {
        Scene {
            rows: state.max_height,
            cols: state.width,
            entities: lit_entities(
                living(state.history),
                state.width,
                state.live_color,
                state.history.len() * state.width,
            ),
            background_color: state.dead_color,
        }
    }

    open spec fn can_update(state: HistoryState) -> bool {
        true
    }

    open spec fn accepts_click(state: HistoryState, row: usize, col: usize) -> bool {
        true
    }

    open spec fn updated(state: HistoryState) -> HistoryState {
        HistoryState {
            ring: state.ring.next(),
            history: pushed(
                state.history,
                state.ring.cells.map_values(|bit: u8| state_of(bit)),
                state.max_height,
            ),
            ..state
        }
    }

    open spec fn clicked(state: HistoryState, row: usize, col: usize) -> HistoryState {
        state
    }

    open spec fn cleared(state: HistoryState) -> HistoryState {
        state
    }

    fn model(&self) -> (model: GridViewModel) {
        self.build_view_model()
    }

    fn update(&mut self) {
        let ghost before = self@;
        let row = self.model.cells();
        let ghost shown = row@;
        self.generations.push_back(row);
        assert(self@.history == before.history.push(shown));
        if self.generations.len() > self.max_height {
            self.generations.pop_front();
            assert(self@.history == before.history.push(shown).drop_first());
        }
        self.model.next_gen();
        assert(self@.history == pushed(before.history, shown, before.max_height));
    }

    fn mouse_click(&mut self, _row: usize, _col: usize)
        ensures
            final(self)@ == old(self)@,
    {
    }

    fn clear(&mut self)
        ensures
            final(self)@ == old(self)@,
    {
    }
}

} // verus!
