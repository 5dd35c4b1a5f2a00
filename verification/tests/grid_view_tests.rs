use cellular_automata::elementary::ElemAutomata;
use cellular_automata::elementary_controller::ElemAutomataController;
use cellular_automata::game_of_life::Universe;
use cellular_automata::game_of_life_controller::GameOfLifeController;
use cellular_automata::grid_view::{
    Button, ButtonArgs, ButtonState, Color, Event, GridView, PlayState,
};

const WHITE: Color = Color { red: 255, green: 255, blue: 255, alpha: 255 };
const BLACK: Color = Color { red: 0, green: 0, blue: 0, alpha: 255 };

fn view_of(text: &str) -> GridView<GameOfLifeController> {
    let universe = Universe::from_string(text).unwrap();
    GridView::new(GameOfLifeController::new(universe, WHITE, BLACK))
}

fn snapshot(view: &GridView<GameOfLifeController>) -> String {
    view.controller().universe().to_string()
}

fn press(button: Button) -> Event {
    Event::Button(ButtonArgs { state: ButtonState::Press, button })
}

fn release(button: Button) -> Event {
    Event::Button(ButtonArgs { state: ButtonState::Release, button })
}

#[test]
fn the_play_state_flips() {
    assert_eq!(PlayState::Running, PlayState::Paused.toggle());
    assert_eq!(PlayState::Paused, PlayState::Running.toggle());
}

#[test]
fn a_view_starts_running() {
    let view = view_of("Generation 1:\n2 2\n.*\n**");
    assert_eq!(PlayState::Running, view.play_state());
    assert_eq!("Generation 1:\n2 2\n.*\n**", snapshot(&view));
}

#[test]
fn a_tick_advances_a_running_view() {
    let mut view = view_of("Generation 1:\n2 2\n.*\n**");
    assert!(view.step(&Event::Update, None).is_none());
    assert_eq!("Generation 2:\n2 2\n**\n**", snapshot(&view));
}

#[test]
fn the_space_bar_pauses_and_resumes() {
    let mut view = view_of("Generation 1:\n2 2\n.*\n**");
    assert!(view.step(&press(Button::Space), None).is_none());
    assert_eq!(PlayState::Paused, view.play_state());
    view.step(&Event::Update, None);
    view.step(&Event::Update, None);
    assert_eq!("Generation 1:\n2 2\n.*\n**", snapshot(&view));
    view.step(&press(Button::Space), None);
    assert_eq!(PlayState::Running, view.play_state());
    view.step(&Event::Update, None);
    assert_eq!("Generation 2:\n2 2\n**\n**", snapshot(&view));
}

#[test]
fn only_a_press_counts() {
    let mut view = view_of("Generation 1:\n2 2\n.*\n**");
    view.step(&release(Button::Space), None);
    assert_eq!(PlayState::Running, view.play_state());
    view.step(&release(Button::X), None);
    view.step(&release(Button::MouseLeft), Some((0, 0)));
    view.step(&press(Button::Other), Some((0, 0)));
    view.step(&Event::Other, Some((0, 0)));
    assert_eq!("Generation 1:\n2 2\n.*\n**", snapshot(&view));
}

#[test]
fn x_clears_whether_the_view_runs_or_not() {
    let mut view = view_of("Generation 4:\n2 2\n.*\n**");
    view.step(&press(Button::X), None);
    assert_eq!("Generation 0:\n2 2\n..\n..", snapshot(&view));
    assert_eq!(PlayState::Running, view.play_state());

    let mut view = view_of("Generation 4:\n2 2\n.*\n**");
    view.step(&press(Button::Space), None);
    view.step(&press(Button::X), None);
    assert_eq!("Generation 0:\n2 2\n..\n..", snapshot(&view));
    assert_eq!(PlayState::Paused, view.play_state());
}

#[test]
fn a_click_edits_whether_the_view_runs_or_not() {
    let mut view = view_of("Generation 4:\n2 2\n..\n..");
    view.step(&press(Button::MouseLeft), Some((1, 0)));
    assert_eq!("Generation 4:\n2 2\n..\n*.", snapshot(&view));
    view.step(&press(Button::Space), None);
    view.step(&press(Button::MouseLeft), Some((0, 1)));
    assert_eq!("Generation 4:\n2 2\n.*\n*.", snapshot(&view));
    view.step(&press(Button::MouseLeft), Some((0, 1)));
    assert_eq!("Generation 4:\n2 2\n..\n*.", snapshot(&view));
}

#[test]
fn a_click_off_the_picture_or_without_a_cursor_is_dropped() {
    let mut view = view_of("Generation 4:\n2 3\n...\n...");
    view.step(&press(Button::MouseLeft), Some((2, 0)));
    view.step(&press(Button::MouseLeft), Some((0, 3)));
    view.step(&press(Button::MouseLeft), Some((usize::MAX, usize::MAX)));
    view.step(&press(Button::MouseLeft), None);
    assert_eq!("Generation 4:\n2 3\n...\n...", snapshot(&view));
    view.step(&press(Button::MouseLeft), Some((1, 2)));
    assert_eq!("Generation 4:\n2 3\n...\n..*", snapshot(&view));
}

#[test]
fn a_frame_shows_the_model_and_whether_the_view_is_paused() {
    let mut view = view_of("Generation 4:\n2 3\n*..\n..*");
    let frame = view.step(&Event::Render, Some((0, 0))).unwrap();
    assert!(!frame.paused);
    assert_eq!(2, frame.model.rows);
    assert_eq!(3, frame.model.cols);
    assert_eq!(BLACK, frame.model.background_color);
    assert_eq!(2, frame.model.entities.len());
    assert_eq!((0, 0), (frame.model.entities[0].row, frame.model.entities[0].col));
    assert_eq!((1, 2), (frame.model.entities[1].row, frame.model.entities[1].col));
    assert_eq!("Generation 4:\n2 3\n*..\n..*", snapshot(&view));

    view.step(&press(Button::Space), None);
    let frame = view.render();
    assert!(frame.paused);
    assert_eq!(2, frame.model.entities.len());
}

#[test]
fn update_advances_even_a_paused_view_when_called_itself() {
    let mut view = view_of("Generation 1:\n2 2\n.*\n**");
    view.handle_button_event(&ButtonArgs { state: ButtonState::Press, button: Button::Space }, None);
    view.update();
    assert_eq!("Generation 2:\n2 2\n**\n**", snapshot(&view));
    assert_eq!(PlayState::Paused, view.play_state());
}

#[test]
fn the_same_loop_drives_an_elementary_automaton() {
    let automaton = ElemAutomata::new(90, &[0, 0, 1, 0, 0]).unwrap();
    let mut view = GridView::new(ElemAutomataController::new(automaton, 4, WHITE, BLACK));
    view.step(&Event::Update, None);
    view.step(&press(Button::MouseLeft), Some((0, 0)));
    view.step(&press(Button::X), None);
    assert_eq!(&vec![0, 1, 0, 1, 0], view.controller().automaton().bits());
    view.step(&press(Button::Space), None);
    view.step(&Event::Update, None);
    assert_eq!(&vec![0, 1, 0, 1, 0], view.controller().automaton().bits());
    let frame = view.step(&Event::Render, None).unwrap();
    assert!(frame.paused);
    assert_eq!(4, frame.model.rows);
    assert_eq!(5, frame.model.cols);
    assert_eq!(1, frame.model.entities.len());
    assert_eq!((0, 2), (frame.model.entities[0].row, frame.model.entities[0].col));
}
