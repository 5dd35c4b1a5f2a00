//! What a viewer shows of an automaton, and the loop that drives one.

use vstd::prelude::*;

verus! {

/// A colour in four channels of eight bits.
#[derive(Debug, PartialEq, Eq, Clone, Copy, Structural)]
pub struct Color {
    pub red: u8,
    pub green: u8,
    pub blue: u8,
    pub alpha: u8,
}

/// A coloured cell of the picture.
#[derive(Debug, PartialEq, Eq, Clone, Copy, Structural)]
pub struct Entity {
    pub color: Color,
    pub row: usize,
    pub col: usize,
}

impl Entity {
    pub fn new(color: Color, row: usize, col: usize) -> (entity: Self)
        ensures
            entity == (Entity { color, row, col }),
    {
        Self { color, row, col }
    }
}

/// A picture as mathematics sees it: a background of `rows` by `cols`
/// cells, and the entities painted on it in order.
pub struct Scene {
    pub rows: nat,
    pub cols: nat,
    pub entities: Seq<Entity>,
    pub background_color: Color,
}

impl Scene {
    /// Every entity lies on the background.
    pub open spec fn in_bounds(self) -> bool {
        forall|k: int|
            0 <= k < self.entities.len() ==> (#[trigger] self.entities[k]).row < self.rows
                && self.entities[k].col < self.cols
    }

    /// The colour of the cell `(row, col)` once the first `n` entities are
    /// painted: that of the last of them at this cell, the background where
    /// there is none.
    pub open spec fn painted(self, n: nat, row: int, col: int) -> Color
        decreases n,
    {
        if n == 0 {
            self.background_color
        } else if self.entities[n - 1].row == row && self.entities[n - 1].col == col {
            self.entities[n - 1].color
        } else {
            self.painted((n - 1) as nat, row, col)
        }
    }

    /// The colour of the cell `(row, col)` of the finished picture.
    pub open spec fn color_at(self, row: int, col: int) -> Color {
        self.painted(self.entities.len(), row, col)
    }
}

/// Whether the cell with the row-major index `i` of a picture `width` cells
/// wide is lit.
pub open spec fn lit_at(lit: spec_fn(int, int) -> bool, width: nat, i: int) -> bool {
    lit(i / (width as int), i % (width as int))
}

/// The entities that stand for the lit cells among the first `n` cells of
/// a picture `width` cells wide, cell after cell along each row and row
/// after row, all in `color`.
pub open spec fn lit_entities(
    lit: spec_fn(int, int) -> bool,
    width: nat,
    color: Color,
    n: nat,
) -> Seq<Entity>
    decreases n,
{
    if n == 0 {
        Seq::empty()
    } else {
        let i = n - 1;
        let before = lit_entities(lit, width, color, i as nat);
        if lit_at(lit, width, i) {
            before.push(
                Entity {
                    color,
                    row: (i / (width as int)) as usize,
                    col: (i % (width as int)) as usize,
                },
            )
        } else {
            before
        }
    }
}

/// The row-major index of the cell of `entity` in a picture `width` cells
/// wide.
pub open spec fn place_of(entity: Entity, width: nat) -> int {
    entity.row * width + entity.col
}

/// One of `entities` stands at the cell with the row-major index `i`.
pub open spec fn shows(entities: Seq<Entity>, width: nat, i: int) -> bool {
    exists|k: int| 0 <= k < entities.len() && place_of(#[trigger] entities[k], width) == i
}

/// What `lit_entities` lists: each entity stands in `color` at a lit cell
/// among the first `n`, the entities come in the order of their cells with
/// no cell twice, and every lit cell among the first `n` has its entity.
pub proof fn lemma_lit_entities(lit: spec_fn(int, int) -> bool, width: nat, color: Color, n: nat)
    requires
        width > 0,
        n <= usize::MAX,
    ensures
        forall|k: int|
            0 <= k < lit_entities(lit, width, color, n).len() ==> {
                let entity = #[trigger] lit_entities(lit, width, color, n)[k];
                &&& entity.color == color
                &&& entity.col < width
                &&& 0 <= place_of(entity, width) < n
                &&& lit(entity.row as int, entity.col as int)
            },
        forall|j: int, k: int|
            0 <= j < k < lit_entities(lit, width, color, n).len() ==> place_of(
                #[trigger] lit_entities(lit, width, color, n)[j],
                width,
            ) < place_of(#[trigger] lit_entities(lit, width, color, n)[k], width),
        forall|i: int|
            0 <= i < n && #[trigger] lit_at(lit, width, i) ==> shows(
                lit_entities(lit, width, color, n),
                width,
                i,
            ),
    decreases n,
{
    if n > 0 {
        let last = n - 1;
        let before = lit_entities(lit, width, color, last as nat);
        let all = lit_entities(lit, width, color, n);
        lemma_lit_entities(lit, width, color, last as nat);
        vstd::arithmetic::div_mod::lemma_fundamental_div_mod(last, width as int);
        vstd::arithmetic::div_mod::lemma_mod_bound(last, width as int);
        let row = last / (width as int);
        let col = last % (width as int);
        assert(width * row == row * width) by (nonlinear_arith);
        assert(0 <= row <= last) by (nonlinear_arith)
            requires
                row * width + col == last,
                0 <= col < width,
                last >= 0,
        ;
        assert forall|i: int| 0 <= i < n && #[trigger] lit_at(lit, width, i) implies shows(
            all,
            width,
            i,
        ) by {
            if i < last {
                assert(shows(before, width, i));
                let k = choose|k: int|
                    0 <= k < before.len() && place_of(#[trigger] before[k], width) == i;
                assert(place_of(all[k], width) == i);
            } else {
                assert(place_of(all[all.len() - 1], width) == i);
            }
        }
    }
}

/// What a viewer draws.
#[derive(Debug)]
pub struct GridViewModel {
    pub rows: usize,
    pub cols: usize,
    pub entities: Vec<Entity>,
    pub background_color: Color,
}

impl View for GridViewModel {
    type V = Scene;

    open spec fn view(&self) -> Scene {
        Scene {
            rows: self.rows as nat,
            cols: self.cols as nat,
            entities: self.entities@,
            background_color: self.background_color,
        }
    }
}

impl GridViewModel {
    pub fn new(rows: usize, cols: usize, entities: Vec<Entity>, background_color: Color) -> (model:
        Self)
        ensures
            model@ == (Scene {
                rows: rows as nat,
                cols: cols as nat,
                entities: entities@,
                background_color,
            }),
    {
        Self { rows, cols, entities, background_color }
    }
}

/// What a driving loop needs of an automaton: its picture, a step in time,
/// a click on a cell, and a reset. The view of a controller is its state;
/// the spec functions say what each operation makes of it.
pub trait Controller: View {
    /// The controller is in a state that its constructor and operations
    /// lead to.
    spec fn inv(&self) -> bool;

    /// The picture of `state`.
    spec fn scene(state: Self::V) -> Scene;

    /// `state` has a next generation that the controller can hold.
    spec fn can_update(state: Self::V) -> bool;

    /// A click on `(row, col)` means something in `state`, or nothing at
    /// all to this kind of automaton.
    spec fn accepts_click(state: Self::V, row: usize, col: usize) -> bool;

    /// `state` one generation on.
    spec fn updated(state: Self::V) -> Self::V;

    /// `state` after a click on `(row, col)`.
    spec fn clicked(state: Self::V, row: usize, col: usize) -> Self::V;

    /// `state` after a reset.
    spec fn cleared(state: Self::V) -> Self::V;

    fn model(&self) -> (model: GridViewModel)
        requires
            self.inv(),
        ensures
            model@ == Self::scene(self@),
            model@.in_bounds(),
            forall|row: usize, col: usize|
                row < model.rows && col < model.cols ==> #[trigger] Self::accepts_click(
                    self@,
                    row,
                    col,
                ),
    ;

    fn update(&mut self)
        requires
            old(self).inv(),
            Self::can_update(old(self)@),
        ensures
            final(self).inv(),
            final(self)@ == Self::updated(old(self)@),
    ;

    fn mouse_click(&mut self, row: usize, col: usize)
        requires
            old(self).inv(),
            Self::accepts_click(old(self)@, row, col),
        ensures
            final(self).inv(),
            final(self)@ == Self::clicked(old(self)@, row, col),
    ;

    fn clear(&mut self)
        requires
            old(self).inv(),
        ensures
            final(self).inv(),
            final(self)@ == Self::cleared(old(self)@),
    ;
}

/// Whether time passes for the automaton.
#[derive(Debug, PartialEq, Eq, Clone, Copy, Structural)]
pub enum PlayState {
    Paused,
    Running,
}

impl PlayState {
    pub open spec fn spec_toggle(self) -> PlayState {
        match self {
            PlayState::Paused => PlayState::Running,
            PlayState::Running => PlayState::Paused,
        }
    }

    pub fn toggle(&self) -> (toggled: Self)
        ensures
            toggled == self.spec_toggle(),
    {
        match self {
            Self::Paused => Self::Running,
            Self::Running => Self::Paused,
        }
    }
}

/// The buttons that the loop tells apart.
#[derive(Debug, PartialEq, Eq, Clone, Copy, Structural)]
pub enum Button {
    /// The space bar.
    Space,
    /// The key X.
    X,
    /// The left mouse button.
    MouseLeft,
    /// Any other key or button.
    Other,
}

#[derive(Debug, PartialEq, Eq, Clone, Copy, Structural)]
pub enum ButtonState {
    Press,
    Release,
}

/// A button and what happened to it.
#[derive(Debug, PartialEq, Eq, Clone, Copy, Structural)]
pub struct ButtonArgs {
    pub state: ButtonState,
    pub button: Button,
}

/// What reaches the loop.
#[derive(Debug, PartialEq, Eq, Clone, Copy, Structural)]
pub enum Event {
    /// The window wants a frame.
    Render,
    /// A tick of the simulation clock.
    Update,
    /// A key or a mouse button.
    Button(ButtonArgs),
    /// Anything else.
    Other,
}

/// What the loop has to draw.
#[derive(Debug)]
pub struct Frame {
    pub model: GridViewModel,
    /// The pause mark goes on top of the picture.
    pub paused: bool,
}

/// What a button does: the space bar flips the play state, X resets the
/// automaton, and the left mouse button clicks the cell under the cursor,
/// if that cell is part of the picture. Only a press counts.
pub open spec fn after_button<C: Controller>(
    play_state: PlayState,
    state: C::V,
    args: ButtonArgs,
    cell: Option<(usize, usize)>,
) -> (PlayState, C::V) {
    if args.state != ButtonState::Press {
        (play_state, state)
    } else {
        match args.button {
            Button::Space => (play_state.spec_toggle(), state),
            Button::X => (play_state, C::cleared(state)),
            Button::MouseLeft => match cell {
                Some((row, col)) => if row < C::scene(state).rows && col < C::scene(state).cols {
                    (play_state, C::clicked(state, row, col))
                } else {
                    (play_state, state)
                },
                None => (play_state, state),
            },
            Button::Other => (play_state, state),
        }
    }
}

/// What an event does: a tick advances the automaton while it runs, a
/// button does what `after_button` says, and nothing else changes anything.
pub open spec fn after_event<C: Controller>(
    play_state: PlayState,
    state: C::V,
    event: Event,
    cell: Option<(usize, usize)>,
) -> (PlayState, C::V) {
    match event {
        Event::Update => if play_state == PlayState::Running {
            (play_state, C::updated(state))
        } else {
            (play_state, state)
        },
        Event::Button(args) => after_button::<C>(play_state, state, args, cell),
        _ => (play_state, state),
    }
}

/// A controller with the play state of the loop that drives it.
pub struct GridView<C: Controller> {
    controller: C,
    play_state: PlayState,
}

impl<C: Controller> GridView<C> {
    /// The state of the controller.
    pub closed spec fn state(&self) -> C::V {
        self.controller@
    }

    pub closed spec fn spec_play_state(&self) -> PlayState {
        self.play_state
    }

    pub closed spec fn inv(&self) -> bool {
        self.controller.inv()
    }

    /// A view that runs.
    pub fn new(controller: C) -> (view: Self)
        requires
            controller.inv(),
        ensures
            view.inv(),
            view.state() == controller@,
            view.spec_play_state() == PlayState::Running,
    {
        Self { controller, play_state: PlayState::Running }
    }

    pub fn controller(&self) -> (controller: &C)
        ensures
            controller@ == self.state(),
            controller.inv() == self.inv(),
    {
        &self.controller
    }

    pub fn play_state(&self) -> (play_state: PlayState)
        ensures
            play_state == self.spec_play_state(),
    {
        self.play_state
    }

    /// The frame to draw: the picture of the automaton, under the pause
    /// mark while the view is paused.
    pub fn render(&self) -> (frame: Frame)
        requires
            self.inv(),
        ensures
            frame.model@ == C::scene(self.state()),
            frame.model@.in_bounds(),
            frame.paused == (self.spec_play_state() == PlayState::Paused),
    {
        let model = self.controller.model();
        match self.play_state {
            PlayState::Running => Frame { model, paused: false },
            PlayState::Paused => Frame { model, paused: true },
        }
    }

    /// Advances the automaton by one generation.
    pub fn update(&mut self)
        requires
            old(self).inv(),
            C::can_update(old(self).state()),
        ensures
            final(self).inv(),
            final(self).state() == C::updated(old(self).state()),
            final(self).spec_play_state() == old(self).spec_play_state(),
    {
        self.controller.update();
    }

    /// Does what the button asks. `cell` is the cell under the cursor, as
    /// row and column, if the cursor has been seen.
    pub fn handle_button_event(&mut self, args: &ButtonArgs, cell: Option<(usize, usize)>)
        requires
            old(self).inv(),
        ensures
            final(self).inv(),
            (final(self).spec_play_state(), final(self).state()) == after_button::<C>(
                old(self).spec_play_state(),
                old(self).state(),
                *args,
                cell,
            ),
    {
        if let Button::Space = args.button {
            if let ButtonState::Press = args.state {
                self.play_state = self.play_state.toggle();
            }
        }
        if let Button::X = args.button {
            if let ButtonState::Press = args.state {
                self.controller.clear();
            }
        }
        if let Button::MouseLeft = args.button {
            if let ButtonState::Press = args.state {
                if let Some((row, col)) = cell {
                    let model = self.controller.model();
                    if row < model.rows && col < model.cols {
                        self.controller.mouse_click(row, col);
                    }
                }
            }
        }
    }

    /// One turn of the loop: takes `event`, with the cell under the cursor,
    /// and hands back the frame to draw, if the event asks for one.
    pub fn step(&mut self, event: &Event, cell: Option<(usize, usize)>) -> (frame: Option<Frame>)
        requires
            old(self).inv(),
            *event == Event::Update && old(self).spec_play_state() == PlayState::Running
                ==> C::can_update(old(self).state()),
        ensures
            final(self).inv(),
            (final(self).spec_play_state(), final(self).state()) == after_event::<C>(
                old(self).spec_play_state(),
                old(self).state(),
                *event,
                cell,
            ),
            match frame {
                Some(frame) => *event == Event::Render && frame.model@ == C::scene(
                    old(self).state(),
                ) && frame.model@.in_bounds() && frame.paused == (old(self).spec_play_state()
                    == PlayState::Paused),
                None => *event != Event::Render,
            },
    {
        match event {
            Event::Render => Some(self.render()),
            Event::Update => {
                if let PlayState::Running = self.play_state {
                    self.update();
                }
                None
            },
            Event::Button(args) => {
                self.handle_button_event(args, cell);
                None
            },
            Event::Other => None,
        }
    }
}

} // verus!
