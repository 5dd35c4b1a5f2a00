//! The textual snapshot of a grid: a generation line, a line with the
//! extent, and one line per row.

use crate::game_of_life::{lemma_index_in_bounds, Cell, Grid};
use vstd::prelude::*;

verus! {

/// The characters of `text`, in order.
pub fn chars_of(text: &str) -> (chars: Vec<char>)
    ensures
        chars@ == text@,
{
    let mut chars: Vec<char> = Vec::new();
    let it = text.chars();
    for c in iter: it
        invariant
            iter.seq() == text@,
            chars@ == iter.seq().subrange(0, iter.index() as int),
    {
        chars.push(c);
    }
    chars
}

/// The sets of characters that the format tells apart.
#[derive(Debug, PartialEq, Eq, Clone, Copy, Structural)]
pub enum CharClass {
    /// The ASCII digits.
    Digit,
    /// The characters that Unicode counts as white space.
    Whitespace,
    /// The line feed alone.
    LineFeed,
}

impl CharClass {
    /// Whether `c` belongs to the class.
    pub open spec fn spec_contains(self, c: char) -> bool {
        let code = c as u32;
        match self {
            CharClass::Digit => 0x30 <= code <= 0x39,
            CharClass::Whitespace => {
                ||| 0x09 <= code <= 0x0d
                ||| code == 0x20
                ||| code == 0x85
                ||| code == 0xa0
                ||| code == 0x1680
                ||| 0x2000 <= code <= 0x200a
                ||| code == 0x2028
                ||| code == 0x2029
                ||| code == 0x202f
                ||| code == 0x205f
                ||| code == 0x3000
            },
            CharClass::LineFeed => code == 0x0a,
        }
    }

    /// Whether `c` belongs to the class.
    pub fn contains(self, c: char) -> (inside: bool)
        ensures
            inside == self.spec_contains(c),
    {
        let code = c as u32;
        match self {
            CharClass::Digit => 0x30 <= code && code <= 0x39,
            CharClass::Whitespace => {
                (0x09 <= code && code <= 0x0d) || code == 0x20 || code == 0x85 || code == 0xa0
                    || code == 0x1680 || (0x2000 <= code && code <= 0x200a) || code == 0x2028
                    || code == 0x2029 || code == 0x202f || code == 0x205f || code == 0x3000
            },
            CharClass::LineFeed => code == 0x0a,
        }
    }
}

/// The first index at or after `from` whose character lies in `class`
/// exactly if `member` is set; the length of `text` where there is none.
pub open spec fn spec_scan(text: Seq<char>, from: int, class: CharClass, member: bool) -> int
    decreases text.len() - from,
{
    if from < 0 || from >= text.len() {
        text.len() as int
    } else if class.spec_contains(text[from]) == member {
        from
    } else {
        spec_scan(text, from + 1, class, member)
    }
}

/// What pins `spec_scan` down: it stops at `at`, and at nothing before it.
pub proof fn lemma_scan_is(text: Seq<char>, from: int, class: CharClass, member: bool, at: int)
    requires
        0 <= from <= at <= text.len(),
        forall|i: int| from <= i < at ==> class.spec_contains(#[trigger] text[i]) != member,
        at < text.len() ==> class.spec_contains(text[at]) == member,
    ensures
        spec_scan(text, from, class, member) == at,
    decreases at - from,
{
    if from < at {
        lemma_scan_is(text, from + 1, class, member, at);
    }
}

/// `spec_scan` stays within the text and passes over no character that it
/// looks for.
pub proof fn lemma_scan_bounds(text: Seq<char>, from: int, class: CharClass, member: bool)
    requires
        0 <= from <= text.len(),
    ensures
        from <= spec_scan(text, from, class, member) <= text.len(),
        forall|i: int|
            from <= i < spec_scan(text, from, class, member) ==> class.spec_contains(
                #[trigger] text[i],
            ) != member,
        spec_scan(text, from, class, member) < text.len() ==> class.spec_contains(
            text[spec_scan(text, from, class, member)],
        ) == member,
    decreases text.len() - from,
{
    if from < text.len() && class.spec_contains(text[from]) != member {
        lemma_scan_bounds(text, from + 1, class, member);
    }
}

/// The first index at or after `from` whose character lies in `class`
/// exactly if `member` is set; the length of `text` where there is none.
pub fn scan(text: &Vec<char>, from: usize, class: CharClass, member: bool) -> (at: usize)
    requires
        from <= text@.len(),
    ensures
        at == spec_scan(text@, from as int, class, member),
        from <= at <= text@.len(),
        forall|i: int| from <= i < at ==> class.spec_contains(#[trigger] text@[i]) != member,
        at < text@.len() ==> class.spec_contains(text@[at as int]) == member,
{
    let mut at = from;
    while at < text.len() && class.contains(text[at]) != member
        invariant
            from <= at <= text@.len(),
            forall|i: int| from <= i < at ==> class.spec_contains(#[trigger] text@[i]) != member,
        decreases text@.len() - at,
    {
        at += 1;
    }
    proof {
        lemma_scan_is(text@, from as int, class, member, at as int);
    }
    at
}

/// Every character of `text` is an ASCII digit.
pub open spec fn all_digits(text: Seq<char>) -> bool {
    forall|i: int| 0 <= i < text.len() ==> CharClass::Digit.spec_contains(#[trigger] text[i])
}

/// The value of the digit `c`.
pub open spec fn digit_value(c: char) -> nat {
    (c as u32 - 0x30) as nat
}

/// The number that `digits` writes in base ten; 0 for no digits.
pub open spec fn decimal_value(digits: Seq<char>) -> nat
    decreases digits.len(),
{
    if digits.len() == 0 {
        0
    } else {
        10 * decimal_value(digits.drop_last()) + digit_value(digits.last())
    }
}

/// A numeral is worth at least as much as each of its prefixes.
pub proof fn lemma_decimal_value_prefix(digits: Seq<char>, n: int)
    requires
        0 <= n <= digits.len(),
    ensures
        decimal_value(digits.subrange(0, n)) <= decimal_value(digits),
    decreases digits.len() - n,
{
    if n < digits.len() {
        let longer = digits.subrange(0, n + 1);
        assert(longer.drop_last() == digits.subrange(0, n));
        lemma_decimal_value_prefix(digits, n + 1);
    } else {
        assert(digits.subrange(0, n) == digits);
    }
}

/// The value of the digits of `text` from `from` up to `to`, or `None` where
/// it is more than a `u64` holds.
pub fn parse_decimal(text: &Vec<char>, from: usize, to: usize) -> (value: Option<u64>)
    requires
        from <= to <= text@.len(),
        all_digits(text@.subrange(from as int, to as int)),
    ensures
        value == (if decimal_value(text@.subrange(from as int, to as int)) <= u64::MAX {
            Some(decimal_value(text@.subrange(from as int, to as int)) as u64)
        } else {
            None
        }),
{
    let ghost digits = text@.subrange(from as int, to as int);
    let mut value: u64 = 0;
    let mut at = from;
    while at < to
        invariant
            from <= at <= to <= text@.len(),
            digits == text@.subrange(from as int, to as int),
            all_digits(digits),
            value == decimal_value(digits.subrange(0, at - from)),
        decreases to - at,
    {
        proof {
            let longer = digits.subrange(0, at - from + 1);
            assert(longer.drop_last() == digits.subrange(0, at - from));
            assert(longer.last() == digits[at - from]);
            assert(CharClass::Digit.spec_contains(digits[at - from]));
            lemma_decimal_value_prefix(digits, at - from + 1);
        }
        let digit = (text[at] as u32 - 0x30) as u64;
        if value > (u64::MAX - digit) / 10 {
            return None;
        }
        value = value * 10 + digit;
        at += 1;
    }
    assert(digits.subrange(0, at - from) == digits);
    Some(value)
}

/// `line` without the carriage return at its end, if it has one.
pub open spec fn strip_cr(line: Seq<char>) -> Seq<char> {
    if line.len() > 0 && line.last() == '\r' {
        line.drop_last()
    } else {
        line
    }
}

/// The lines of `text` from the index `from` on. A line ends with a line
/// feed, which is not part of it, nor is a carriage return just before the
/// line feed. What follows the last line feed is a line if it is not empty.
pub open spec fn lines_from(text: Seq<char>, from: int) -> Seq<Seq<char>>
    decreases text.len() - from,
{
    if from < 0 || from >= text.len() {
        Seq::empty()
    } else {
        let end = spec_scan(text, from, CharClass::LineFeed, true);
        if from <= end < text.len() {
            seq![strip_cr(text.subrange(from, end))] + lines_from(text, end + 1)
        } else {
            seq![text.subrange(from, text.len() as int)]
        }
    }
}

/// The lines of `text`.
pub open spec fn lines(text: Seq<char>) -> Seq<Seq<char>> {
    lines_from(text, 0)
}

/// The views of the vectors of `rows`.
pub open spec fn views(rows: Seq<Vec<char>>) -> Seq<Seq<char>> {
    Seq::new(rows.len(), |i: int| rows[i]@)
}

/// The characters of `text` from `from` up to `to`.
fn copy_range(text: &Vec<char>, from: usize, to: usize) -> (part: Vec<char>)
    requires
        from <= to <= text@.len(),
    ensures
        part@ == text@.subrange(from as int, to as int),
{
    let mut part: Vec<char> = Vec::new();
    let mut at = from;
    while at < to
        invariant
            from <= at <= to <= text@.len(),
            part@ == text@.subrange(from as int, at as int),
        decreases to - at,
    {
        part.push(text[at]);
        at += 1;
    }
    part
}

/// The lines of `text`.
pub fn split_lines(text: &Vec<char>) -> (rows: Vec<Vec<char>>)
    ensures
        views(rows@) == lines(text@),
{
    let mut rows: Vec<Vec<char>> = Vec::new();
    let mut from: usize = 0;
    while from < text.len()
        invariant
            from <= text@.len(),
            lines(text@) == views(rows@) + lines_from(text@, from as int),
        decreases text@.len() - from,
    {
        let end = scan(text, from, CharClass::LineFeed, true);
        let ghost before = views(rows@);
        if end < text.len() {
            let stop = if end > from && text[end - 1] == '\r' {
                end - 1
            } else {
                end
            };
            let line = copy_range(text, from, stop);
            proof {
                let whole = text@.subrange(from as int, end as int);
                assert(line@ == strip_cr(whole)) by {
                    if end > from && text@[end - 1] == '\r' {
                        assert(whole.last() == '\r');
                        assert(whole.drop_last() == text@.subrange(from as int, end - 1));
                    }
                }
            }
            rows.push(line);
            proof {
                assert(views(rows@) == before + seq![line@]);
                assert(lines_from(text@, from as int) == seq![line@] + lines_from(
                    text@,
                    end + 1,
                ));
            }
            from = end + 1;
        } else {
            let line = copy_range(text, from, end);
            rows.push(line);
            proof {
                assert(views(rows@) == before + seq![line@]);
                assert(lines_from(text@, from as int) == seq![line@]);
                assert(lines_from(text@, end as int) == Seq::<Seq<char>>::empty());
            }
            from = end;
        }
    }
    rows
}

/// Why a text is no snapshot.
#[derive(Debug, PartialEq, Eq, Clone, Copy, Structural)]
pub enum ParseError {
    /// The text has fewer than two lines.
    MissingHeader,
    /// The first line holds no digit.
    MissingGeneration,
    /// The generation number is more than a `u32` holds.
    GenerationTooLarge,
    /// The second line does not start with two numbers that a `usize` holds.
    InvalidDimensions,
    /// The height or the width is 0.
    EmptyGrid,
    /// The number of lines after the second is not the height.
    WrongRowCount,
    /// A row does not hold as many characters as the width.
    WrongRowLength,
}

/// The generation number of the first line: what its first run of digits
/// writes. The words around the number are not looked at.
pub open spec fn generation_of(header: Seq<char>) -> Result<nat, ParseError> {
    let start = spec_scan(header, 0, CharClass::Digit, true);
    let end = spec_scan(header, start, CharClass::Digit, false);
    if start >= header.len() {
        Err(ParseError::MissingGeneration)
    } else if decimal_value(header.subrange(start, end)) > u32::MAX {
        Err(ParseError::GenerationTooLarge)
    } else {
        Ok(decimal_value(header.subrange(start, end)))
    }
}

/// The number that `token` writes: digits, with or without a plus sign
/// before them.
pub open spec fn number_of(token: Seq<char>) -> Option<nat> {
    let digits = if token.len() > 0 && token[0] == '+' {
        token.drop_first()
    } else {
        token
    };
    if digits.len() > 0 && all_digits(digits) {
        Some(decimal_value(digits))
    } else {
        None
    }
}

/// The part of `line` between whitespace that starts at or after `from`.
pub open spec fn token_start(line: Seq<char>, from: int) -> int {
    spec_scan(line, from, CharClass::Whitespace, false)
}

/// The end of the token that starts at `start`.
pub open spec fn token_end(line: Seq<char>, start: int) -> int {
    spec_scan(line, start, CharClass::Whitespace, true)
}

/// The number that the token of `line` at or after `from` writes, with the
/// index at which the token ends.
pub open spec fn size_at(line: Seq<char>, from: int) -> (Option<nat>, int) {
    let start = token_start(line, from);
    let end = token_end(line, start);
    (
        match number_of(line.subrange(start, end)) {
            Some(n) => if n <= usize::MAX {
                Some(n)
            } else {
                None
            },
            None => None,
        },
        end,
    )
}

/// Height and width, the first two tokens of the second line. Further
/// tokens are ignored.
pub open spec fn dimensions_of(header: Seq<char>) -> Result<(nat, nat), ParseError> {
    let (height, end) = size_at(header, 0);
    let (width, _) = size_at(header, end);
    match (height, width) {
        (Some(h), Some(w)) => if h == 0 || w == 0 {
            Err(ParseError::EmptyGrid)
        } else {
            Ok((h, w))
        },
        _ => Err(ParseError::InvalidDimensions),
    }
}

/// The cell that `c` stands for: a full stop is dead, all else is alive.
pub open spec fn cell_of(c: char) -> Cell {
    if c == '.' {
        Cell::Dead
    } else {
        Cell::Alive
    }
}

/// The cells that `rows` write, row after row, `width` to a row.
pub open spec fn cells_of(rows: Seq<Seq<char>>, width: nat) -> Seq<Cell> {
    Seq::new(
        rows.len() * width,
        |i: int| cell_of(rows[i / (width as int)][i % (width as int)]),
    )
}

/// Every row holds `width` characters.
pub open spec fn rows_have_width(rows: Seq<Seq<char>>, width: nat) -> bool {
    forall|r: int| 0 <= r < rows.len() ==> (#[trigger] rows[r]).len() == width
}

/// The grid that the snapshot `text` describes, or why it describes none.
pub open spec fn parse(text: Seq<char>) -> Result<Grid, ParseError> {
    let all = lines(text);
    if all.len() < 2 {
        Err(ParseError::MissingHeader)
    } else {
        match generation_of(all[0]) {
            Err(e) => Err(e),
            Ok(generation) => match dimensions_of(all[1]) {
                Err(e) => Err(e),
                Ok((height, width)) => {
                    let rows = all.subrange(2, all.len() as int);
                    if rows.len() != height {
                        Err(ParseError::WrongRowCount)
                    } else if !rows_have_width(rows, width) {
                        Err(ParseError::WrongRowLength)
                    } else {
                        Ok(Grid { generation, height, width, cells: cells_of(rows, width) })
                    }
                },
            },
        }
    }
}

/// Reads the generation number off the first line.
pub fn parse_generation_number_from_header(header: &Vec<char>) -> (generation: Result<
    u32,
    ParseError,
>)
    ensures
        match generation_of(header@) {
            Ok(n) => generation == Ok::<u32, ParseError>(n as u32),
            Err(e) => generation == Err::<u32, ParseError>(e),
        },
{
    let start = scan(header, 0, CharClass::Digit, true);
    if start >= header.len() {
        return Err(ParseError::MissingGeneration);
    }
    let end = scan(header, start, CharClass::Digit, false);
    proof {
        lemma_scan_bounds(header@, start as int, CharClass::Digit, false);
    }
    match parse_decimal(header, start, end) {
        Some(value) => if value > u32::MAX as u64 {
            Err(ParseError::GenerationTooLarge)
        } else {
            Ok(value as u32)
        },
        None => Err(ParseError::GenerationTooLarge),
    }
}

/// The number that the token of `line` at or after `from` writes, with the
/// index at which the token ends.
fn parse_size_at(line: &Vec<char>, from: usize) -> (found: (Option<usize>, usize))
    requires
        from <= line@.len(),
    ensures
        match size_at(line@, from as int).0 {
            Some(n) => found.0 == Some(n as usize),
            None => found.0 is None,
        },
        found.1 == size_at(line@, from as int).1,
        found.1 <= line@.len(),
{
    let start = scan(line, from, CharClass::Whitespace, false);
    let end = scan(line, start, CharClass::Whitespace, true);
    let first = if start < end && line[start] == '+' {
        start + 1
    } else {
        start
    };
    let stop = scan(line, first, CharClass::Digit, false);
    proof {
        let token = line@.subrange(start as int, end as int);
        let digits = if token.len() > 0 && token[0] == '+' {
            token.drop_first()
        } else {
            token
        };
        assert(digits == line@.subrange(first as int, end as int));
        lemma_scan_bounds(line@, first as int, CharClass::Digit, false);
        if stop >= end {
            assert(all_digits(digits));
        } else {
            assert(!CharClass::Digit.spec_contains(digits[stop - first]));
        }
    }
    if first == end || stop < end {
        return (None, end);
    }
    match parse_decimal(line, first, end) {
        Some(value) => if value > usize::MAX as u64 {
            (None, end)
        } else {
            (Some(value as usize), end)
        },
        None => (None, end),
    }
}

/// Reads height and width off the second line.
pub fn parse_height_width_from_header(header: &Vec<char>) -> (dimensions: Result<
    (usize, usize),
    ParseError,
>)
    ensures
        match dimensions_of(header@) {
            Ok((h, w)) => dimensions == Ok::<(usize, usize), ParseError>((h as usize, w as usize)),
            Err(e) => dimensions == Err::<(usize, usize), ParseError>(e),
        },
{
    let (height, end) = parse_size_at(header, 0);
    let (width, _) = parse_size_at(header, end);
    match (height, width) {
        (Some(h), Some(w)) => if h == 0 || w == 0 {
            Err(ParseError::EmptyGrid)
        } else {
            Ok((h, w))
        },
        _ => Err(ParseError::InvalidDimensions),
    }
}

/// Reads the cells off the lines of `all` after the second, which have to
/// be `height` rows of `width` characters.
pub fn parse_cells_from_grid(all: &Vec<Vec<char>>, height: usize, width: usize) -> (cells: Result<
    Vec<Cell>,
    ParseError,
>)
    requires
        all@.len() >= 2,
        width > 0,
    ensures
        ({
            let rows = views(all@).subrange(2, all@.len() as int);
            if rows.len() != height {
                cells == Err::<Vec<Cell>, ParseError>(ParseError::WrongRowCount)
            } else if !rows_have_width(rows, width as nat) {
                cells == Err::<Vec<Cell>, ParseError>(ParseError::WrongRowLength)
            } else {
                cells is Ok && cells->Ok_0@ == cells_of(rows, width as nat)
            }
        }),
{
    let ghost rows = views(all@).subrange(2, all@.len() as int);
    if all.len() - 2 != height {
        return Err(ParseError::WrongRowCount);
    }
    let mut cells: Vec<Cell> = Vec::new();
    let mut r: usize = 0;
    while r < height
        invariant
            r <= height,
            width > 0,
            all.len() == height + 2,
            rows == views(all@).subrange(2, all@.len() as int),
            forall|q: int| 0 <= q < r ==> (#[trigger] rows[q]).len() == width,
            cells@.len() == r * width,
            forall|k: int|
                0 <= k < cells@.len() ==> #[trigger] cells@[k] == cell_of(
                    rows[k / (width as int)][k % (width as int)],
                ),
        decreases height - r,
    {
        let row = &all[r + 2];
        assert(row@ == rows[r as int]);
        if row.len() != width {
            return Err(ParseError::WrongRowLength);
        }
        let mut c: usize = 0;
        while c < width
            invariant
                r < height,
                c <= width,
                row@ == rows[r as int],
                row@.len() == width,
                cells@.len() == r * width + c,
                forall|k: int|
                    0 <= k < cells@.len() ==> #[trigger] cells@[k] == cell_of(
                        rows[k / (width as int)][k % (width as int)],
                    ),
            decreases width - c,
        {
            proof {
                lemma_index_in_bounds(r as int, c as int, height as int, width as int);
            }
            let cell = if row[c] == '.' {
                Cell::Dead
            } else {
                Cell::Alive
            };
            cells.push(cell);
            c += 1;
        }
        assert((r + 1) * width == r * width + width) by (nonlinear_arith);
        r += 1;
    }
    assert(rows_have_width(rows, width as nat));
    assert(cells@ == cells_of(rows, width as nat));
    Ok(cells)
}

/// A grid read from a snapshot.
#[derive(Debug)]
pub struct Snapshot {
    pub generation: u32,
    pub height: usize,
    pub width: usize,
    pub cells: Vec<Cell>,
}

impl View for Snapshot {
    type V = Grid;

    open spec fn view(&self) -> Grid {
        Grid {
            generation: self.generation as nat,
            height: self.height as nat,
            width: self.width as nat,
            cells: self.cells@,
        }
    }
}

/// Reads the snapshot `text`.
pub fn parse_snapshot(text: &Vec<char>) -> (snapshot: Result<Snapshot, ParseError>)
    ensures
        match parse(text@) {
            Ok(grid) => snapshot is Ok && snapshot->Ok_0@ == grid && grid.wf(),
            Err(e) => snapshot is Err && snapshot->Err_0 == e,
        },
{
    let all = split_lines(text);
    if all.len() < 2 {
        return Err(ParseError::MissingHeader);
    }
    assert(all[0]@ == lines(text@)[0]);
    assert(all[1]@ == lines(text@)[1]);
    let generation = match parse_generation_number_from_header(&all[0]) {
        Ok(generation) => generation,
        Err(e) => {
            return Err(e);
        },
    };
    let (height, width) = match parse_height_width_from_header(&all[1]) {
        Ok(dimensions) => dimensions,
        Err(e) => {
            return Err(e);
        },
    };
    match parse_cells_from_grid(&all, height, width) {
        Ok(cells) => Ok(Snapshot { generation, height, width, cells }),
        Err(e) => Err(e),
    }
}

/// The digit that writes `d`, for `d` below ten.
pub open spec fn digit_char(d: nat) -> char {
    (0x30 + d) as char
}

/// `n` in base ten, without leading zeros.
pub open spec fn decimal(n: nat) -> Seq<char>
    decreases n,
{
    if n < 10 {
        seq![digit_char(n)]
    } else {
        decimal(n / 10).push(digit_char(n % 10))
    }
}

/// The character that stands for `cell`.
pub open spec fn symbol_of(cell: Cell) -> char {
    match cell {
        Cell::Dead => '.',
        Cell::Alive => '*',
    }
}

/// The rows of `grid`, one character per cell, with a line feed between two
/// rows and none after the last.
pub open spec fn grid_text(grid: Grid) -> Seq<char> {
    let pitch = grid.width as int + 1;
    Seq::new(
        (grid.height * pitch - 1) as nat,
        |p: int|
            if p % pitch == grid.width {
                '\n'
            } else {
                symbol_of(grid.cell(p / pitch, p % pitch))
            },
    )
}

/// The first line of a snapshot: the word, the generation number, a colon.
pub open spec fn generation_line(generation: nat) -> Seq<char> {
    "Generation "@ + decimal(generation) + ":"@
}

/// The second line of a snapshot: height and width with a space between.
pub open spec fn dimensions_line(height: nat, width: nat) -> Seq<char> {
    decimal(height) + " "@ + decimal(width)
}

/// The snapshot of `grid`: the two header lines and the rows, with a line
/// feed after each header.
pub open spec fn render(grid: Grid) -> Seq<char> {
    generation_line(grid.generation) + seq!['\n'] + dimensions_line(grid.height, grid.width)
        + seq!['\n'] + grid_text(grid)
}

/// Appends the digit that writes `d`.
fn append_digit(out: &mut String, d: u64)
    requires
        d < 10,
    ensures
        final(out)@ == old(out)@.push(digit_char(d as nat)),
{
    proof {
        reveal_strlit("0");
        reveal_strlit("1");
        reveal_strlit("2");
        reveal_strlit("3");
        reveal_strlit("4");
        reveal_strlit("5");
        reveal_strlit("6");
        reveal_strlit("7");
        reveal_strlit("8");
        reveal_strlit("9");
    }
    let digit = if d == 0 {
        "0"
    } else if d == 1 {
        "1"
    } else if d == 2 {
        "2"
    } else if d == 3 {
        "3"
    } else if d == 4 {
        "4"
    } else if d == 5 {
        "5"
    } else if d == 6 {
        "6"
    } else if d == 7 {
        "7"
    } else if d == 8 {
        "8"
    } else {
        "9"
    };
    assert(digit@ == seq![digit_char(d as nat)]);
    out.append(digit);
    assert(out@ == old(out)@.push(digit_char(d as nat)));
}

/// Appends `n` in base ten.
pub fn append_decimal(out: &mut String, n: u64)
    ensures
        final(out)@ == old(out)@ + decimal(n as nat),
    decreases n,
{
    if n >= 10 {
        append_decimal(out, n / 10);
    }
    append_digit(out, n % 10);
}

/// The rows of the grid as text, with a line feed between two rows.
pub fn display_grid(cells: &Vec<Cell>, height: usize, width: usize) -> (text: String)
    requires
        height > 0,
        width > 0,
        cells@.len() == height * width,
    ensures
        text@ == grid_text(
            Grid { generation: 0, height: height as nat, width: width as nat, cells: cells@ },
        ),
{
    let ghost grid = Grid {
        generation: 0,
        height: height as nat,
        width: width as nat,
        cells: cells@,
    };
    let ghost expected = grid_text(grid);
    let ghost pitch = width + 1;
    let mut text = String::new();
    let mut i: usize = 0;
    let mut r: usize = 0;
    proof {
        reveal_strlit("\n");
        reveal_strlit(".");
        reveal_strlit("*");
        assert(height * pitch >= pitch) by (nonlinear_arith)
            requires
                height >= 1,
                pitch >= 0,
        ;
    }
    while r < height
        invariant
            r <= height,
            width > 0,
            pitch == width + 1,
            cells@.len() == height * width,
            grid == (Grid {
                generation: 0,
                height: height as nat,
                width: width as nat,
                cells: cells@,
            }),
            expected == grid_text(grid),
            expected.len() == height * pitch - 1,
            i == r * width,
            text@.len() == (if r == 0 {
                0
            } else {
                r * pitch - 1
            }),
            forall|p: int| 0 <= p < text@.len() ==> text@[p] == expected[p],
            "\n"@ == seq!['\n'],
            "."@ == seq!['.'],
            "*"@ == seq!['*'],
        decreases height - r,
    {
        proof {
            assert(r * pitch + pitch <= height * pitch) by (nonlinear_arith)
                requires
                    r + 1 <= height,
                    pitch > 0,
            ;
            assert((r + 1) * pitch == r * pitch + pitch) by (nonlinear_arith);
            assert((r + 1) * width == r * width + width) by (nonlinear_arith);
        }
        if r > 0 {
            proof {
                lemma_index_in_bounds(r - 1, width as int, height as int, pitch);
                assert((r - 1) * pitch + width == r * pitch - 1) by (nonlinear_arith)
                    requires
                        pitch == width + 1,
                ;
            }
            text.append("\n");
        }
        let mut c: usize = 0;
        while c < width
            invariant
                r < height,
                c <= width,
                width > 0,
                pitch == width + 1,
                cells@.len() == height * width,
                grid == (Grid {
                    generation: 0,
                    height: height as nat,
                    width: width as nat,
                    cells: cells@,
                }),
                expected == grid_text(grid),
                expected.len() == height * pitch - 1,
                r * pitch + pitch <= height * pitch,
                i == r * width + c,
                text@.len() == r * pitch + c,
                forall|p: int| 0 <= p < text@.len() ==> text@[p] == expected[p],
                "."@ == seq!['.'],
                "*"@ == seq!['*'],
            decreases width - c,
        {
            proof {
                lemma_index_in_bounds(r as int, c as int, height as int, pitch);
                lemma_index_in_bounds(r as int, c as int, height as int, width as int);
                assert(i < cells.len());
            }
            match cells[i] {
                Cell::Dead => text.append("."),
                Cell::Alive => text.append("*"),
            }
            i += 1;
            c += 1;
        }
        r += 1;
    }
    assert(text@ == expected);
    text
}

/// Writes the snapshot of the grid with these parts.
pub fn render_snapshot(generation: u32, height: usize, width: usize, cells: &Vec<Cell>) -> (text:
    String)
    requires
        height > 0,
        width > 0,
        cells@.len() == height * width,
    ensures
        text@ == render(
            Grid {
                generation: generation as nat,
                height: height as nat,
                width: width as nat,
                cells: cells@,
            },
        ),
{
    let mut text = String::new();
    text.append("Generation ");
    append_decimal(&mut text, generation as u64);
    text.append(":\n");
    append_decimal(&mut text, height as u64);
    text.append(" ");
    append_decimal(&mut text, width as u64);
    text.append("\n");
    let grid = display_grid(cells, height, width);
    text.append(grid.as_str());
    proof {
        let g = Grid {
            generation: generation as nat,
            height: height as nat,
            width: width as nat,
            cells: cells@,
        };
        let g0 = Grid { generation: 0, ..g };
        assert(grid_text(g0) == grid_text(g));
        reveal_strlit(":\n");
        reveal_strlit(":");
        reveal_strlit("\n");
        assert(":\n"@ == ":"@ + seq!['\n']);
        assert("\n"@ == seq!['\n']);
        assert(text@ == render(g));
    }
    text
}

} // verus!
