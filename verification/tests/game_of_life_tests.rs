use cellular_automata::game_of_life::{Cell, Universe};

fn simple_universe_string() -> String {
    format!(
        "{}\n{}\n{}\n{}\n{}\n{}",
        "Generation 1:", "4 8", "........", "....*...", "...**...", "........"
    )
}

fn simple_universe() -> Universe {
    Universe::from_string(&simple_universe_string()).unwrap()
}

#[test]
fn a_universe_stores_its_generation_number() {
    assert_eq!(1, simple_universe().generation());
}

#[test]
fn a_universe_stores_its_height() {
    assert_eq!(4, simple_universe().height());
}

#[test]
fn a_universe_storese_its_width() {
    assert_eq!(8, simple_universe().width());
}

#[test]
fn a_universe_can_query_dead_cell_state_by_row_col() {
    assert_eq!(&Cell::Dead, simple_universe().cell_at(0, 0));
}

#[test]
fn a_universe_can_query_living_cell_state_by_row_col() {
    assert_eq!(&Cell::Alive, simple_universe().cell_at(1, 4));
}

#[test]
fn a_universe_can_ouput_a_string_representation_of_itself() {
    assert_eq!(simple_universe_string(), simple_universe().to_string());
}

#[test]
fn a_live_cell_with_fewer_than_two_neighbors_dies() {
    let living_neighbors = 1;
    let cell = Cell::Alive;
    let next_cell_state = cell.next_cell_state(living_neighbors);
    assert_eq!(Cell::Dead, next_cell_state);
}

#[test]
fn a_live_cell_with_more_than_three_neighbors_dies() {
    let living_neighbors = 4;
    let cell = Cell::Alive;
    let next_cell_state = cell.next_cell_state(living_neighbors);
    assert_eq!(Cell::Dead, next_cell_state);
}

#[test]
fn a_live_cell_with_three_neighbors_lives() {
    let living_neighbors = 3;
    let cell = Cell::Alive;
    let next_cell_state = cell.next_cell_state(living_neighbors);
    assert_eq!(Cell::Alive, next_cell_state);
}

#[test]
fn a_dead_cell_with_exactly_three_neighbors_comes_to_life() {
    let living_neighbors = 3;
    let cell = Cell::Dead;
    let next_cell_state = cell.next_cell_state(living_neighbors);
    assert_eq!(Cell::Alive, next_cell_state);
}

#[test]
fn a_universe_can_advance_a_generation() {
    let universe_string = format!("{}\n{}\n{}\n{}", "Generation 1:", "2 2", ".*", "**");
    let mut universe = Universe::from_string(&universe_string).unwrap();
    universe.next_gen();
    let expected_next_gen = format!("{}\n{}\n{}\n{}", "Generation 2:", "2 2", "**", "**");
    assert_eq!(expected_next_gen, universe.to_string());
}

fn universe_of(rows: &[&str]) -> Universe {
    let mut cells = Vec::new();
    for row in rows {
        for c in row.chars() {
            cells.push(if c == '.' { Cell::Dead } else { Cell::Alive });
        }
    }
    Universe::new(&cells, rows[0].chars().count())
}

fn grid_of(universe: &Universe) -> Vec<String> {
    let mut rows = Vec::new();
    for r in 0..universe.height() {
        let mut row = String::new();
        for c in 0..universe.width() {
            row.push(if universe.cell_at(r, c).is_alive() { '*' } else { '.' });
        }
        rows.push(row);
    }
    rows
}

#[test]
fn a_new_universe_starts_at_generation_zero_with_the_given_cells() {
    let universe = universe_of(&["*..", ".*."]);
    assert_eq!(0, universe.generation());
    assert_eq!(2, universe.height());
    assert_eq!(3, universe.width());
    assert_eq!(vec!["*..", ".*."], grid_of(&universe));
}

#[test]
fn a_cell_is_alive_or_dead() {
    assert!(Cell::Alive.is_alive());
    assert!(!Cell::Dead.is_alive());
    assert_eq!(Cell::Dead, Cell::Alive.toggle());
    assert_eq!(Cell::Alive, Cell::Dead.toggle());
}

#[test]
fn the_rule_is_applied_for_every_count_of_neighbors() {
    let expected_alive = [false, false, true, true, false, false, false, false, false];
    let expected_dead = [false, false, false, true, false, false, false, false, false];
    for n in 0..9u8 {
        assert_eq!(expected_alive[n as usize], Cell::Alive.next_cell_state(n).is_alive());
        assert_eq!(expected_dead[n as usize], Cell::Dead.next_cell_state(n).is_alive());
    }
}

#[test]
fn neighbors_are_counted_on_the_grid_only() {
    let full = universe_of(&["***", "***", "***"]);
    assert_eq!(8, full.living_neighbors(1, 1));
    assert_eq!(3, full.living_neighbors(0, 0));
    assert_eq!(3, full.living_neighbors(0, 2));
    assert_eq!(3, full.living_neighbors(2, 0));
    assert_eq!(3, full.living_neighbors(2, 2));
    assert_eq!(5, full.living_neighbors(0, 1));
    assert_eq!(5, full.living_neighbors(1, 0));
}

#[test]
fn a_cell_alone_in_a_corner_has_no_neighbor_across_the_grid() {
    let universe = universe_of(&["*...", "....", "....", "...."]);
    assert_eq!(0, universe.living_neighbors(0, 0));
    assert_eq!(1, universe.living_neighbors(0, 1));
    assert_eq!(1, universe.living_neighbors(1, 0));
    assert_eq!(1, universe.living_neighbors(1, 1));
    assert_eq!(0, universe.living_neighbors(0, 3));
    assert_eq!(0, universe.living_neighbors(3, 0));
    assert_eq!(0, universe.living_neighbors(3, 3));
    assert_eq!(0, universe.living_neighbors(1, 3));
    assert_eq!(0, universe.living_neighbors(3, 1));
}

#[test]
fn a_cell_alone_in_a_corner_dies_and_nothing_is_born() {
    let mut universe = universe_of(&["...*", "....", "....", "...."]);
    universe.next_gen();
    assert_eq!(vec!["....", "....", "....", "...."], grid_of(&universe));
}

#[test]
fn a_blinker_turns_and_turns_back() {
    let mut universe = universe_of(&[".....", "..*..", "..*..", "..*..", "....."]);
    universe.next_gen();
    assert_eq!(vec![".....", ".....", ".***.", ".....", "....."], grid_of(&universe));
    universe.next_gen();
    assert_eq!(vec![".....", "..*..", "..*..", "..*..", "....."], grid_of(&universe));
    assert_eq!(2, universe.generation());
}

#[test]
fn a_row_on_the_edge_does_not_wrap() {
    let mut universe = universe_of(&["*.*", "...", "*.*"]);
    universe.next_gen();
    assert_eq!(vec!["...", "...", "..."], grid_of(&universe));
}

#[test]
fn toggling_flips_one_cell_and_keeps_the_generation() {
    let mut universe = simple_universe();
    universe.toggle_cell_at(0, 0);
    assert_eq!(&Cell::Alive, universe.cell_at(0, 0));
    assert_eq!(&Cell::Dead, universe.cell_at(0, 1));
    assert_eq!(1, universe.generation());
    universe.toggle_cell_at(1, 4);
    assert_eq!(&Cell::Dead, universe.cell_at(1, 4));
}

#[test]
fn toggling_twice_restores_the_universe() {
    let mut universe = simple_universe();
    universe.toggle_cell_at(2, 3);
    universe.toggle_cell_at(2, 3);
    assert_eq!(simple_universe_string(), universe.to_string());
    universe.toggle_cell_at(3, 7);
    universe.toggle_cell_at(3, 7);
    assert_eq!(simple_universe_string(), universe.to_string());
}

#[test]
fn setting_a_cell_writes_that_cell_only() {
    let mut universe = universe_of(&["..", ".."]);
    universe.set_cell_at(1, 0, Cell::Alive);
    assert_eq!(vec!["..", "*."], grid_of(&universe));
    universe.set_cell_at(1, 0, Cell::Alive);
    assert_eq!(vec!["..", "*."], grid_of(&universe));
    universe.set_cell_at(1, 0, Cell::Dead);
    assert_eq!(vec!["..", ".."], grid_of(&universe));
}

#[test]
fn the_generation_counts_each_step_and_clear_resets_it() {
    let mut universe = simple_universe();
    for expected in 2..7 {
        universe.next_gen();
        assert_eq!(expected, universe.generation());
    }
    universe.clear();
    assert_eq!(0, universe.generation());
    assert_eq!(4, universe.height());
    assert_eq!(8, universe.width());
    assert_eq!(vec!["........"; 4], grid_of(&universe));
}

#[test]
fn two_universes_made_alike_stay_alike() {
    let rows = ["..*..", "*.**.", ".**.*", "*...*", "..*.."];
    let mut a = universe_of(&rows);
    let mut b = universe_of(&rows);
    for _ in 0..6 {
        a.next_gen();
        b.next_gen();
        assert_eq!(a.to_string(), b.to_string());
    }
    assert_eq!(6, a.generation());
}

#[test]
fn a_written_universe_reads_back_as_itself() {
    let mut universe = universe_of(&["*..*", ".**.", "...*"]);
    universe.next_gen();
    universe.next_gen();
    let text = universe.to_string();
    let read = Universe::from_string(&text).unwrap();
    assert_eq!(universe.generation(), read.generation());
    assert_eq!(universe.height(), read.height());
    assert_eq!(universe.width(), read.width());
    assert_eq!(grid_of(&universe), grid_of(&read));
    assert_eq!(text, read.to_string());
}

#[test]
fn in_bounds_takes_the_grid_and_nothing_else() {
    let universe = simple_universe();
    assert!(universe.in_bounds(0, 0));
    assert!(universe.in_bounds(3, 7));
    assert!(!universe.in_bounds(4, 0));
    assert!(!universe.in_bounds(0, 8));
    assert!(!universe.in_bounds(-1, 0));
    assert!(!universe.in_bounds(0, -1));
    assert!(!universe.in_bounds(isize::MIN, isize::MAX));
}

#[test]
fn a_block_stays() {
    let mut universe = universe_of(&["....", ".**.", ".**.", "...."]);
    universe.next_gen();
    assert_eq!(vec!["....", ".**.", ".**.", "...."], grid_of(&universe));
    assert_eq!("Generation 1:\n4 4\n....\n.**.\n.**.\n....", universe.to_string());
}
