//! A snapshot that was written reads back as the grid it was written from.

use crate::game_of_life::{lemma_index_in_bounds, lemma_position_in_bounds, Grid};
use crate::snapshot::{
    all_digits,
    cells_of,
    decimal,
    decimal_value,
    dimensions_line,
    generation_line,
    digit_char,
    dimensions_of,
    generation_of,
    grid_text,
    lemma_scan_bounds,
    lemma_scan_is,
    lines,
    lines_from,
    number_of,
    parse,
    render,
    rows_have_width,
    size_at,
    spec_scan,
    symbol_of,
    token_end,
    token_start,
    CharClass,
    ParseError,
};
use vstd::prelude::*;

verus! {

/// A numeral is made of digits, at least one, and is worth the number it
/// was written for.
pub proof fn lemma_decimal(n: nat)
    ensures
        decimal(n).len() >= 1,
        all_digits(decimal(n)),
        decimal_value(decimal(n)) == n,
    decreases n,
{
    if n < 10 {
        let numeral = decimal(n);
        assert(numeral.drop_last() == Seq::<char>::empty());
        assert(decimal_value(numeral.drop_last()) == 0);
        assert(numeral.last() == digit_char(n));
    } else {
        lemma_decimal(n / 10);
        let numeral = decimal(n);
        assert(numeral.drop_last() == decimal(n / 10));
        assert(numeral.last() == digit_char(n % 10));
    }
}

/// The first line of a snapshot gives the generation that it was written
/// for.
pub proof fn lemma_generation_line(n: nat)
    requires
        n <= u32::MAX,
    ensures
        generation_of(generation_line(n)) == Ok::<nat, ParseError>(n),
{
    reveal_strlit("Generation ");
    reveal_strlit(":");
    lemma_decimal(n);
    let word = "Generation "@;
    let line = word + decimal(n) + ":"@;
    let start = word.len() as int;
    let end = start + decimal(n).len();
    assert forall|i: int| 0 <= i < start implies !CharClass::Digit.spec_contains(
        #[trigger] line[i],
    ) by {
        assert(line[i] == word[i]);
    }
    assert(line[start] == decimal(n)[0]);
    lemma_scan_is(line, 0, CharClass::Digit, true, start);
    assert forall|i: int| start <= i < end implies CharClass::Digit.spec_contains(
        #[trigger] line[i],
    ) by {
        assert(line[i] == decimal(n)[i - start]);
    }
    assert(line[end] == ':');
    lemma_scan_is(line, start, CharClass::Digit, false, end);
    assert(line.subrange(start, end) == decimal(n));
}

/// A numeral followed by the end of the line or by a space is a token that
/// reads as the number it was written for.
proof fn lemma_size_at(line: Seq<char>, from: int, n: nat)
    requires
        0 <= from,
        from + decimal(n).len() <= line.len(),
        line.subrange(from, from + decimal(n).len()) == decimal(n),
        from + decimal(n).len() < line.len() ==> line[from + decimal(n).len()] == ' ',
        n <= usize::MAX,
    ensures
        size_at(line, from) == (Some(n), from + decimal(n).len()),
{
    lemma_decimal(n);
    let numeral = decimal(n);
    let end = from + numeral.len();
    assert forall|i: int| from <= i < end implies !CharClass::Whitespace.spec_contains(
        #[trigger] line[i],
    ) by {
        assert(line[i] == numeral[i - from]);
        assert(CharClass::Digit.spec_contains(numeral[i - from]));
    }
    assert(line[from] == numeral[0]);
    assert(CharClass::Digit.spec_contains(numeral[0]));
    lemma_scan_is(line, from, CharClass::Whitespace, false, from);
    lemma_scan_is(line, from, CharClass::Whitespace, true, end);
    assert(token_start(line, from) == from);
    assert(token_end(line, from) == end);
    assert(numeral[0] != '+');
    assert(number_of(numeral) == Some(n));
}

/// The second line of a snapshot gives the extent that it was written for.
pub proof fn lemma_dimensions_line(height: nat, width: nat)
    requires
        0 < height <= usize::MAX,
        0 < width <= usize::MAX,
    ensures
        dimensions_of(dimensions_line(height, width)) == Ok::<(nat, nat), ParseError>(
            (height, width),
        ),
{
    reveal_strlit(" ");
    lemma_decimal(height);
    lemma_decimal(width);
    let line = decimal(height) + " "@ + decimal(width);
    let gap = decimal(height).len() as int;
    assert(line.subrange(0, gap) == decimal(height));
    assert(line[gap] == ' ');
    lemma_size_at(line, 0, height);
    assert(line.subrange(gap + 1, line.len() as int) == decimal(width));
    assert(CharClass::Whitespace.spec_contains(line[gap]));
    assert(line[gap + 1] == decimal(width)[0]);
    assert(CharClass::Digit.spec_contains(decimal(width)[0]));
    lemma_scan_is(line, gap, CharClass::Whitespace, false, gap + 1);
    lemma_size_at(line, gap + 1, width);
    assert(token_start(line, gap) == gap + 1);
    assert(size_at(line, gap) == size_at(line, gap + 1));
}

/// The characters that write row `row` of `grid`.
pub open spec fn row_text(grid: Grid, row: int) -> Seq<char> {
    Seq::new(grid.width, |col: int| symbol_of(grid.cell(row, col)))
}

/// The lines of the snapshot of `grid`: the two headers, then the rows.
pub open spec fn snapshot_lines(grid: Grid) -> Seq<Seq<char>> {
    seq![generation_line(grid.generation), dimensions_line(grid.height, grid.width)] + Seq::new(
        grid.height,
        |row: int| row_text(grid, row),
    )
}

/// No character of `text` is a line feed.
pub open spec fn one_line(text: Seq<char>) -> bool {
    forall|i: int| 0 <= i < text.len() ==> !CharClass::LineFeed.spec_contains(#[trigger] text[i])
}

/// A search in a text that follows a prefix goes as in the text alone.
proof fn lemma_scan_shift(prefix: Seq<char>, rest: Seq<char>, from: int, class: CharClass, member: bool)
    requires
        0 <= from <= rest.len(),
    ensures
        spec_scan(prefix + rest, prefix.len() + from, class, member) == prefix.len() + spec_scan(
            rest,
            from,
            class,
            member,
        ),
    decreases rest.len() - from,
{
    let text = prefix + rest;
    if from < rest.len() {
        assert(text[prefix.len() + from] == rest[from]);
        if class.spec_contains(rest[from]) != member {
            lemma_scan_shift(prefix, rest, from + 1, class, member);
        }
    }
}

/// The lines of a text that follows a prefix ending in a line feed are
/// those of the text alone.
proof fn lemma_lines_shift(prefix: Seq<char>, rest: Seq<char>, from: int)
    requires
        0 <= from <= rest.len(),
    ensures
        lines_from(prefix + rest, prefix.len() + from) == lines_from(rest, from),
    decreases rest.len() - from,
{
    let text = prefix + rest;
    if from < rest.len() {
        lemma_scan_shift(prefix, rest, from, CharClass::LineFeed, true);
        lemma_scan_bounds(rest, from, CharClass::LineFeed, true);
        let end = spec_scan(rest, from, CharClass::LineFeed, true);
        if end < rest.len() {
            assert(text.subrange(prefix.len() + from, prefix.len() + end) == rest.subrange(
                from,
                end,
            ));
            lemma_lines_shift(prefix, rest, end + 1);
        } else {
            assert(text.subrange(prefix.len() + from, text.len() as int) == rest.subrange(
                from,
                rest.len() as int,
            ));
        }
    }
}

/// A line put before a text, with a line feed between them, is the first
/// line of the whole.
proof fn lemma_lines_join(first: Seq<char>, rest: Seq<char>)
    requires
        one_line(first),
        first.len() > 0,
        first.last() != '\r',
    ensures
        lines(first + seq!['\n'] + rest) == seq![first] + lines(rest),
{
    let prefix = first + seq!['\n'];
    let text = prefix + rest;
    let end = first.len() as int;
    assert forall|i: int| 0 <= i < end implies CharClass::LineFeed.spec_contains(
        #[trigger] text[i],
    ) != true by {
        assert(text[i] == first[i]);
    }
    assert(text[end] == '\n');
    lemma_scan_is(text, 0, CharClass::LineFeed, true, end);
    assert(text.subrange(0, end) == first);
    lemma_lines_shift(prefix, rest, 0);
}

/// Where the rows of `grid` stand in its text.
proof fn lemma_grid_text(grid: Grid, row: int, col: int)
    requires
        grid.wf(),
        0 <= row < grid.height,
        0 <= col <= grid.width,
        col < grid.width || row + 1 < grid.height,
    ensures
        0 <= row * (grid.width + 1) + col < grid_text(grid).len(),
        grid_text(grid).len() == grid.height * (grid.width + 1) - 1,
        col < grid.width ==> grid_text(grid)[row * (grid.width + 1) + col] == symbol_of(
            grid.cell(row, col),
        ),
        col == grid.width ==> grid_text(grid)[row * (grid.width + 1) + col] == '\n',
{
    let pitch = grid.width as int + 1;
    lemma_index_in_bounds(row, col, grid.height as int, pitch);
    assert(grid.height * pitch >= pitch) by (nonlinear_arith)
        requires
            grid.height >= 1,
            pitch >= 0,
    ;
    if col < grid.width {
        lemma_index_in_bounds(row, col + 1, grid.height as int, pitch);
    } else {
        lemma_index_in_bounds(row + 1, 0, grid.height as int, pitch);
        assert((row + 1) * pitch == row * pitch + pitch) by (nonlinear_arith);
    }
}

/// The lines of the text of a grid from the start of row `row` on are the
/// rows from there on.
proof fn lemma_grid_lines(grid: Grid, row: int)
    requires
        grid.wf(),
        0 <= row < grid.height,
    ensures
        lines_from(grid_text(grid), row * (grid.width + 1)) == Seq::new(
            (grid.height - row) as nat,
            |j: int| row_text(grid, row + j),
        ),
    decreases grid.height - row,
{
    let text = grid_text(grid);
    let pitch = grid.width as int + 1;
    let from = row * pitch;
    let end = from + grid.width;
    lemma_grid_text(grid, row, 0);
    lemma_grid_text(grid, row, grid.width - 1);
    let here = text.subrange(from, end);
    assert forall|i: int| from <= i < end implies #[trigger] text[i] == symbol_of(
        grid.cell(row, i - from),
    ) by {
        lemma_grid_text(grid, row, i - from);
    }
    assert(here == row_text(grid, row));
    assert forall|i: int| from <= i < end implies CharClass::LineFeed.spec_contains(
        #[trigger] text[i],
    ) != true by {
        assert(text[i] == symbol_of(grid.cell(row, i - from)));
    }
    let expected = Seq::new((grid.height - row) as nat, |j: int| row_text(grid, row + j));
    if row + 1 < grid.height {
        lemma_grid_text(grid, row, grid.width as int);
        lemma_scan_is(text, from, CharClass::LineFeed, true, end);
        assert(here.last() != '\r') by {
            assert(here.last() == text[end - 1]);
        }
        assert((row + 1) * pitch == row * pitch + pitch) by (nonlinear_arith);
        lemma_grid_lines(grid, row + 1);
        let rest = Seq::new((grid.height - row - 1) as nat, |j: int| row_text(grid, row + 1 + j));
        assert(expected == seq![here] + rest);
    } else {
        assert(end == text.len()) by {
            assert(grid.height * pitch == row * pitch + pitch) by (nonlinear_arith)
                requires
                    grid.height == row + 1,
            ;
        }
        lemma_scan_is(text, from, CharClass::LineFeed, true, text.len() as int);
        assert(expected == seq![here]);
    }
}

/// The first line of a snapshot is one line, and ends in a colon.
proof fn lemma_generation_line_is_one(generation: nat)
    ensures
        one_line(generation_line(generation)),
        generation_line(generation).len() > 0,
        generation_line(generation).last() == ':',
{
    reveal_strlit("Generation ");
    reveal_strlit(":");
    lemma_decimal(generation);
    let line = generation_line(generation);
    let word = "Generation "@.len() as int;
    let numeral = decimal(generation);
    assert forall|i: int| 0 <= i < line.len() implies !CharClass::LineFeed.spec_contains(
        #[trigger] line[i],
    ) by {
        if i < word {
            assert(line[i] == "Generation "@[i]);
        } else if i < word + numeral.len() {
            assert(line[i] == numeral[i - word]);
            assert(CharClass::Digit.spec_contains(numeral[i - word]));
        } else {
            assert(line[i] == ':');
        }
    }
    assert(line.last() == ":"@[0]);
}

/// The second line of a snapshot is one line, and ends in a digit.
proof fn lemma_dimensions_line_is_one(height: nat, width: nat)
    ensures
        one_line(dimensions_line(height, width)),
        dimensions_line(height, width).len() > 0,
        CharClass::Digit.spec_contains(dimensions_line(height, width).last()),
{
    reveal_strlit(" ");
    lemma_decimal(height);
    lemma_decimal(width);
    let line = dimensions_line(height, width);
    let gap = decimal(height).len() as int;
    assert forall|i: int| 0 <= i < line.len() implies !CharClass::LineFeed.spec_contains(
        #[trigger] line[i],
    ) by {
        if i < gap {
            assert(line[i] == decimal(height)[i]);
            assert(CharClass::Digit.spec_contains(decimal(height)[i]));
        } else if i == gap {
            assert(line[i] == ' ');
        } else {
            assert(line[i] == decimal(width)[i - gap - 1]);
            assert(CharClass::Digit.spec_contains(decimal(width)[i - gap - 1]));
        }
    }
    let numeral = decimal(width);
    assert(line.last() == numeral[numeral.len() - 1]);
    assert(CharClass::Digit.spec_contains(numeral[numeral.len() - 1]));
}

/// The lines of the snapshot of a grid.
pub proof fn lemma_render_lines(grid: Grid)
    requires
        grid.wf(),
    ensures
        lines(render(grid)) == snapshot_lines(grid),
{
    let first = generation_line(grid.generation);
    let second = dimensions_line(grid.height, grid.width);
    let body = grid_text(grid);
    let rows = Seq::new(grid.height, |row: int| row_text(grid, row));
    lemma_generation_line_is_one(grid.generation);
    lemma_dimensions_line_is_one(grid.height, grid.width);
    assert(render(grid) == first + seq!['\n'] + (second + seq!['\n'] + body));
    lemma_lines_join(first, second + seq!['\n'] + body);
    lemma_lines_join(second, body);
    lemma_grid_lines(grid, 0);
    assert(0 * (grid.width + 1) == 0) by (nonlinear_arith);
    assert(Seq::new((grid.height - 0) as nat, |j: int| row_text(grid, 0 + j)) == rows);
    assert(lines(body) == rows);
    assert(seq![first] + (seq![second] + rows) == snapshot_lines(grid));
}

/// Reading the snapshot of a grid gives the grid back: its cells, its
/// extent and its generation.
pub proof fn lemma_round_trip(grid: Grid)
    requires
        grid.wf(),
        grid.generation <= u32::MAX,
        grid.height <= usize::MAX,
        grid.width <= usize::MAX,
    ensures
        parse(render(grid)) == Ok::<Grid, ParseError>(grid),
{
    lemma_render_lines(grid);
    lemma_generation_line(grid.generation);
    lemma_dimensions_line(grid.height, grid.width);
    let all = lines(render(grid));
    let rows = all.subrange(2, all.len() as int);
    assert(rows == Seq::new(grid.height, |row: int| row_text(grid, row)));
    assert(rows_have_width(rows, grid.width));
    let cells = cells_of(rows, grid.width);
    assert(cells.len() == grid.cells.len());
    assert forall|i: int| 0 <= i < cells.len() implies cells[i] == grid.cells[i] by {
        lemma_position_in_bounds(i, grid.height as int, grid.width as int);
        let row = i / (grid.width as int);
        let col = i % (grid.width as int);
        assert(rows[row][col] == symbol_of(grid.cell(row, col)));
    }
    assert(cells == grid.cells);
}

} // verus!
