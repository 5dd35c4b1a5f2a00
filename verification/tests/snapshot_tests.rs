use cellular_automata::game_of_life::{Cell, Universe};
use cellular_automata::snapshot::{
    append_decimal, chars_of, display_grid, parse_cells_from_grid, parse_decimal,
    parse_generation_number_from_header, parse_height_width_from_header, parse_snapshot,
    render_snapshot, scan, split_lines, CharClass, ParseError,
};

fn chars(text: &str) -> Vec<char> {
    text.chars().collect()
}

fn error_of(text: &str) -> ParseError {
    match Universe::from_string(text) {
        Ok(_) => panic!("{:?} was read as a universe", text),
        Err(e) => e,
    }
}

#[test]
fn the_example_snapshot_is_read() {
    let universe = Universe::from_string("Generation 1:\n2 2\n.*\n**").unwrap();
    assert_eq!(1, universe.generation());
    assert_eq!(2, universe.height());
    assert_eq!(2, universe.width());
    assert_eq!(&Cell::Dead, universe.cell_at(0, 0));
    assert_eq!(&Cell::Alive, universe.cell_at(0, 1));
    assert_eq!(&Cell::Alive, universe.cell_at(1, 0));
    assert_eq!(&Cell::Alive, universe.cell_at(1, 1));
}

#[test]
fn a_text_of_fewer_than_two_lines_has_no_header() {
    assert_eq!(ParseError::MissingHeader, error_of(""));
    assert_eq!(ParseError::MissingHeader, error_of("Generation 1:"));
    assert_eq!(ParseError::MissingHeader, error_of("Generation 1:\n"));
}

#[test]
fn a_first_line_without_a_digit_has_no_generation() {
    assert_eq!(ParseError::MissingGeneration, error_of("Generation:\n2 2\n..\n.."));
    assert_eq!(ParseError::MissingGeneration, error_of("\n2 2\n..\n.."));
}

#[test]
fn a_generation_beyond_32_bits_is_too_large() {
    assert_eq!(ParseError::GenerationTooLarge, error_of("Generation 4294967296:\n1 1\n."));
    assert_eq!(
        ParseError::GenerationTooLarge,
        error_of("Generation 99999999999999999999999999:\n1 1\n.")
    );
    let last = Universe::from_string("Generation 4294967295:\n1 1\n.").unwrap();
    assert_eq!(u32::MAX, last.generation());
}

#[test]
fn the_generation_is_the_first_run_of_digits() {
    let universe = Universe::from_string("Gen 12 of 34\n1 1\n*").unwrap();
    assert_eq!(12, universe.generation());
    let universe = Universe::from_string("7\n1 1\n*").unwrap();
    assert_eq!(7, universe.generation());
    let universe = Universe::from_string("x007y\n1 1\n*").unwrap();
    assert_eq!(7, universe.generation());
}

#[test]
fn a_second_line_without_two_numbers_has_no_dimensions() {
    assert_eq!(ParseError::InvalidDimensions, error_of("Generation 1:\nx 2\n..\n.."));
    assert_eq!(ParseError::InvalidDimensions, error_of("Generation 1:\n2 y\n..\n.."));
    assert_eq!(ParseError::InvalidDimensions, error_of("Generation 1:\n2\n..\n.."));
    assert_eq!(ParseError::InvalidDimensions, error_of("Generation 1:\n\n..\n.."));
    assert_eq!(ParseError::InvalidDimensions, error_of("Generation 1:\n2x 2\n..\n.."));
    assert_eq!(ParseError::InvalidDimensions, error_of("Generation 1:\n-2 2\n..\n.."));
    assert_eq!(ParseError::InvalidDimensions, error_of("Generation 1:\n+ 2\n..\n.."));
    assert_eq!(
        ParseError::InvalidDimensions,
        error_of("Generation 1:\n2 999999999999999999999999999999\n..\n..")
    );
}

#[test]
fn a_height_or_width_of_zero_is_an_empty_grid() {
    assert_eq!(ParseError::EmptyGrid, error_of("Generation 1:\n0 2\n"));
    assert_eq!(ParseError::EmptyGrid, error_of("Generation 1:\n2 0\n\n"));
    assert_eq!(ParseError::EmptyGrid, error_of("Generation 1:\n0 0"));
}

#[test]
fn the_rows_must_be_as_many_as_the_height() {
    assert_eq!(ParseError::WrongRowCount, error_of("Generation 1:\n2 2\n.."));
    assert_eq!(ParseError::WrongRowCount, error_of("Generation 1:\n2 2\n..\n..\n.."));
    assert_eq!(ParseError::WrongRowCount, error_of("Generation 1:\n2 2"));
    assert_eq!(ParseError::WrongRowCount, error_of("Generation 1:\n1 2\n..\n\n"));
}

#[test]
fn each_row_must_be_as_long_as_the_width() {
    assert_eq!(ParseError::WrongRowLength, error_of("Generation 1:\n2 2\n..\n..."));
    assert_eq!(ParseError::WrongRowLength, error_of("Generation 1:\n2 2\n.\n.."));
    assert_eq!(ParseError::WrongRowLength, error_of("Generation 1:\n2 2\n..\n\n"));
    assert_eq!(ParseError::WrongRowLength, error_of("Generation 1:\n2 2\n.. \n.."));
}

#[test]
fn any_character_but_a_full_stop_is_alive() {
    let universe = Universe::from_string("Generation 0:\n1 5\n.x* \u{e9}").unwrap();
    assert_eq!(&Cell::Dead, universe.cell_at(0, 0));
    for col in 1..5 {
        assert_eq!(&Cell::Alive, universe.cell_at(0, col));
    }
    assert_eq!("Generation 0:\n1 5\n.****", universe.to_string());
}

#[test]
fn a_line_may_end_with_a_carriage_return_and_the_text_with_a_line_feed() {
    let universe = Universe::from_string("Generation 3:\r\n2 2\r\n.*\r\n*.\r\n").unwrap();
    assert_eq!(3, universe.generation());
    assert_eq!("Generation 3:\n2 2\n.*\n*.", universe.to_string());
    let universe = Universe::from_string("Generation 3:\n2 2\n.*\n*.\n").unwrap();
    assert_eq!("Generation 3:\n2 2\n.*\n*.", universe.to_string());
}

#[test]
fn the_dimensions_may_carry_a_sign_blanks_and_more_tokens() {
    let universe = Universe::from_string("Generation 3:\n \t+1  +2 and more\n.*").unwrap();
    assert_eq!(1, universe.height());
    assert_eq!(2, universe.width());
    let universe = Universe::from_string("Generation 3:\n01\u{3000}002\n.*").unwrap();
    assert_eq!(1, universe.height());
    assert_eq!(2, universe.width());
}

#[test]
fn scan_finds_the_first_character_in_or_out_of_a_class() {
    let text = chars("ab 12\tc\n3");
    assert_eq!(3, scan(&text, 0, CharClass::Digit, true));
    assert_eq!(5, scan(&text, 3, CharClass::Digit, false));
    assert_eq!(2, scan(&text, 0, CharClass::Whitespace, true));
    assert_eq!(3, scan(&text, 2, CharClass::Whitespace, false));
    assert_eq!(7, scan(&text, 0, CharClass::LineFeed, true));
    assert_eq!(9, scan(&text, 8, CharClass::LineFeed, true));
    assert_eq!(9, scan(&text, 9, CharClass::Digit, true));
    assert_eq!(0, scan(&text, 0, CharClass::Digit, false));
}

#[test]
fn the_classes_hold_what_they_should() {
    for c in "0123456789".chars() {
        assert!(CharClass::Digit.contains(c));
    }
    for c in "/:a \u{0660}".chars() {
        assert!(!CharClass::Digit.contains(c));
    }
    for c in (0..0x3100u32).filter_map(char::from_u32) {
        assert_eq!(c.is_whitespace(), CharClass::Whitespace.contains(c));
        assert_eq!(c == '\n', CharClass::LineFeed.contains(c));
        assert_eq!(c.is_ascii_digit(), CharClass::Digit.contains(c));
    }
}

#[test]
fn parse_decimal_reads_digits_and_stops_at_what_64_bits_hold() {
    let text = chars("x0123y18446744073709551615z18446744073709551616");
    assert_eq!(Some(123), parse_decimal(&text, 1, 5));
    assert_eq!(Some(0), parse_decimal(&text, 1, 1));
    assert_eq!(Some(u64::MAX), parse_decimal(&text, 6, 26));
    assert_eq!(None, parse_decimal(&text, 27, 47));
    let zeros = chars("000000000000000000000000000000042");
    assert_eq!(Some(42), parse_decimal(&zeros, 0, zeros.len()));
}

#[test]
fn split_lines_splits_as_lines_are_written() {
    let lines = split_lines(&chars("a\r\nb\n\nc\r"));
    assert_eq!(vec![chars("a"), chars("b"), chars(""), chars("c\r")], lines);
    assert_eq!(Vec::<Vec<char>>::new(), split_lines(&chars("")));
    assert_eq!(vec![chars("")], split_lines(&chars("\n")));
    assert_eq!(vec![chars("\r")], split_lines(&chars("\r\r\n")));
    assert_eq!(vec![chars("a")], split_lines(&chars("a")));
    assert_eq!(vec![chars("a")], split_lines(&chars("a\n")));
}

#[test]
fn chars_of_gives_the_characters() {
    assert_eq!(chars("h\u{e9}llo\n"), chars_of("h\u{e9}llo\n"));
    assert_eq!(Vec::<char>::new(), chars_of(""));
}

#[test]
fn the_header_parsers_read_their_lines() {
    assert_eq!(Ok(41), parse_generation_number_from_header(&chars("Generation 41:")));
    assert_eq!(
        Err(ParseError::MissingGeneration),
        parse_generation_number_from_header(&chars("Generation"))
    );
    assert_eq!(Ok((4, 8)), parse_height_width_from_header(&chars("4 8")));
    assert_eq!(
        Err(ParseError::InvalidDimensions),
        parse_height_width_from_header(&chars("4, 8"))
    );
    assert_eq!(Err(ParseError::EmptyGrid), parse_height_width_from_header(&chars("0 8")));
}

#[test]
fn the_cells_are_read_row_after_row() {
    let lines = vec![chars("ignored"), chars("ignored"), chars(".*."), chars("**.")];
    let cells = parse_cells_from_grid(&lines, 2, 3).unwrap();
    let d = Cell::Dead;
    let a = Cell::Alive;
    assert_eq!(vec![d, a, d, a, a, d], cells);
    assert_eq!(Err(ParseError::WrongRowCount), parse_cells_from_grid(&lines, 3, 3));
    assert_eq!(Err(ParseError::WrongRowLength), parse_cells_from_grid(&lines, 2, 2));
}

#[test]
fn parse_snapshot_hands_out_the_parts() {
    let snapshot = match parse_snapshot(&chars("Generation 9:\n1 2\n*.")) {
        Ok(snapshot) => snapshot,
        Err(e) => panic!("{:?}", e),
    };
    assert_eq!(9, snapshot.generation);
    assert_eq!(1, snapshot.height);
    assert_eq!(2, snapshot.width);
    assert_eq!(vec![Cell::Alive, Cell::Dead], snapshot.cells);
}

#[test]
fn numbers_are_written_in_base_ten() {
    let mut text = String::from("n=");
    append_decimal(&mut text, 0);
    text.push(',');
    append_decimal(&mut text, 7);
    text.push(',');
    append_decimal(&mut text, 10);
    text.push(',');
    append_decimal(&mut text, 9080706050);
    text.push(',');
    append_decimal(&mut text, u64::MAX);
    assert_eq!("n=0,7,10,9080706050,18446744073709551615", text);
}

#[test]
fn the_grid_is_written_row_by_row() {
    let d = Cell::Dead;
    let a = Cell::Alive;
    assert_eq!("*", display_grid(&vec![a], 1, 1));
    assert_eq!(".*.\n**.", display_grid(&vec![d, a, d, a, a, d], 2, 3));
    assert_eq!(".\n*\n.", display_grid(&vec![d, a, d], 3, 1));
    assert_eq!(
        "Generation 4294967295:\n2 3\n.*.\n**.",
        render_snapshot(u32::MAX, 2, 3, &vec![d, a, d, a, a, d])
    );
}
