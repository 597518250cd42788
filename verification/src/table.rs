//! Tables of the `prettytable` crate, as far as this library fills them:
//! what a table holds, and the form in which the tables are drawn.
//!
//! What is said here of `prettytable` is taken on trust from its source;
//! nothing of it is proved.

use vstd::prelude::*;
use prettytable::format::{FormatBuilder, LinePosition, LineSeparator, TableFormat};
use prettytable::{Cell, Row, Table};
use crate::text::{
    chars_of, contains, copy_range, is_contained, join, join_text, lemma_split_len, occurs_at,
    rows, split, split_text,
};

verus! {

/// `prettytable::Table`, a table of rows with an optional row of titles.
#[verifier::external_type_specification]
#[verifier::external_body]
pub struct ExTable(Table);

/// `prettytable::Row`, a row of cells.
#[verifier::external_type_specification]
#[verifier::external_body]
pub struct ExRow(Row);

/// `prettytable::Cell`, a cell with its text and style.
#[verifier::external_type_specification]
#[verifier::external_body]
pub struct ExCell(Cell);

/// `prettytable::format::TableFormat`, the form in which a table is drawn.
#[verifier::external_type_specification]
#[verifier::external_body]
pub struct ExTableFormat(TableFormat);

/// `prettytable::format::FormatBuilder`, which builds a `TableFormat`.
#[verifier::external_type_specification]
#[verifier::external_body]
pub struct ExFormatBuilder(FormatBuilder);

/// `prettytable::format::LineSeparator`, the characters of a line between
/// rows.
#[verifier::external_type_specification]
#[verifier::external_body]
pub struct ExLineSeparator(LineSeparator);

/// `prettytable::format::LinePosition`, the place of a line between rows:
/// at the top, under the titles, between two rows, or at the bottom.
#[verifier::external_type_specification]
pub struct ExLinePosition(LinePosition);

/// The rows of `table`, without the titles: the texts of the cells of each
/// row.
pub uninterp spec fn table_rows(table: Table) -> Seq<Seq<Seq<char>>>;

/// The titles of `table`, where it has any: the texts of their cells.
pub uninterp spec fn table_titles(table: Table) -> Option<Seq<Seq<char>>>;

/// The texts of the cells of `row`.
pub uninterp spec fn row_cells(row: Row) -> Seq<Seq<char>>;

/// The text of `cell`, as `Cell::get_content` gives it.
pub uninterp spec fn cell_text(cell: Cell) -> Seq<char>;

/// `line` without the carriage return at its end, where it has one.
pub open spec fn without_return(line: Seq<char>) -> Seq<char> {
    if line.len() > 0 && line.last() == '\r' {
        line.drop_last()
    } else {
        line
    }
}

/// The lines that a cell tells apart in `text`, as `str::lines` does: a
/// line ends at a line feed, and the carriage return before the line feed
/// is part of the line end; what follows the last line feed is a line
/// where it is not empty.
pub open spec fn cell_lines(text: Seq<char>) -> Seq<Seq<char>> {
    let pieces = split(text, "\n"@);
    let ended = Seq::new((pieces.len() - 1) as nat, |i: int| without_return(pieces[i]));
    if pieces.last().len() > 0 {
        ended.push(pieces.last())
    } else {
        ended
    }
}

/// What a cell made of `text` holds of it: its lines, with a line feed
/// between each two.
pub open spec fn kept_text(text: Seq<char>) -> Seq<char> {
    join(cell_lines(text), "\n"@)
}

/// A text that a cell can hold: one in which no `[` follows an escape
/// character. `prettytable` takes the characters of the escape sequences
/// that begin so off the width of a text, and fails on a text of which that
/// leaves less than nothing.
pub open spec fn fits_cell(text: Seq<char>) -> bool {
    !contains(text, "\u{1b}["@)
}

/// A text of one line: one without a line feed.
pub open spec fn single_line(text: Seq<char>) -> bool {
    !text.contains('\n')
}

/// A cell holds a text of one line as it is.
pub proof fn lemma_single_line_is_kept(text: Seq<char>)
    requires
        single_line(text),
    ensures
        kept_text(text) == text,
{
    reveal_strlit("\n");
    assert forall|at: int| !occurs_at(text, "\n"@, at) by {
        if occurs_at(text, "\n"@, at) {
            assert(text.subrange(at, at + 1)[0] == '\n');
            assert(text[at] == '\n');
        }
    }
    assert(split(text, "\n"@) =~= seq![text]);
    if text.len() > 0 {
        assert(cell_lines(text) =~= seq![text]);
    } else {
        assert(cell_lines(text) =~= Seq::<Seq<char>>::empty());
        assert(kept_text(text) =~= text);
    }
}

/// A cell can hold a text without the escape character.
pub proof fn lemma_plain_text_fits(text: Seq<char>)
    requires
        !text.contains('\u{1b}'),
    ensures
        fits_cell(text),
{
    reveal_strlit("\u{1b}[");
    assert forall|at: int| !occurs_at(text, "\u{1b}["@, at) by {
        if occurs_at(text, "\u{1b}["@, at) {
            assert(text.subrange(at, at + 2)[0] == '\u{1b}');
            assert(text[at] == '\u{1b}');
        }
    }
}

/// A cell that can hold a text can hold it behind a text without the
/// escape character.
pub proof fn lemma_behind_plain_text_fits(front: Seq<char>, text: Seq<char>)
    requires
        !front.contains('\u{1b}'),
        fits_cell(text),
    ensures
        fits_cell(front + text),
{
    reveal_strlit("\u{1b}[");
    let whole = front + text;
    let mark = "\u{1b}["@;
    assert forall|at: int| !occurs_at(whole, mark, at) by {
        if occurs_at(whole, mark, at) {
            assert(whole.subrange(at, at + 2)[0] == '\u{1b}');
            if at < front.len() {
                assert(front[at] == '\u{1b}');
            } else {
                assert(text.subrange(at - front.len(), at - front.len() + 2) =~= whole.subrange(
                    at,
                    at + 2,
                ));
                assert(occurs_at(text, mark, at - front.len()));
            }
        }
    }
}

/// `Table::new` makes a table without rows and without titles.
pub assume_specification[ Table::new ]() -> (table: Table)
    ensures
        table_rows(table) == Seq::<Seq<Seq<char>>>::empty(),
        table_titles(table) is None,
;

/// `Table::set_format` replaces the format and leaves rows and titles as
/// they are.
pub assume_specification[ Table::set_format ](table: &mut Table, format: TableFormat)
    ensures
        table_rows(*final(table)) == table_rows(*old(table)),
        table_titles(*final(table)) == table_titles(*old(table)),
;

/// `Table::set_titles` makes `titles` the row of titles and leaves the rows
/// as they are.
pub assume_specification[ Table::set_titles ](table: &mut Table, titles: Row)
    ensures
        table_rows(*final(table)) == table_rows(*old(table)),
        table_titles(*final(table)) == Some(row_cells(titles)),
;

/// `Table::add_row` puts `row` behind the rows of the table and leaves the
/// titles as they are.
#[verifier::external_body]
pub(crate) fn push_row(table: &mut Table, row: Row)
    ensures
        table_rows(*final(table)) == table_rows(*old(table)).push(row_cells(row)),
        table_titles(*final(table)) == table_titles(*old(table)),
{
    table.add_row(row);
}

/// `Row::new` makes a row of the cells of `cells`, in their order.
pub assume_specification[ Row::new ](cells: Vec<Cell>) -> (row: Row)
    ensures
        row_cells(row) == cells@.map_values(|cell: Cell| cell_text(cell)),
;

/// `Cell::new` makes a cell that holds the lines of `string`, which
/// `Cell::get_content` gives back with a line feed between each two. It
/// fails on some texts with escape sequences: a `string` in which a `[`
/// follows an escape character is left out.
pub assume_specification[ Cell::new ](string: &str) -> (cell: Cell)
    requires
        fits_cell(string@),
    ensures
        cell_text(cell) == kept_text(string@),
;

/// `Cell::style_spec` sets the style that `spec` spells and leaves the
/// text as it is. It fails on an `H` that no number follows: a `spec` with
/// an `H` is left out.
pub assume_specification[ Cell::style_spec ](cell: Cell, spec: &str) -> (styled: Cell)
    requires
        !spec@.contains('H'),
    ensures
        cell_text(styled) == cell_text(cell),
;

/// `FormatBuilder::new` begins a format.
pub assume_specification[ FormatBuilder::new ]() -> FormatBuilder;

/// `FormatBuilder::column_separator` sets the character between columns.
pub assume_specification[ FormatBuilder::column_separator ](
    builder: FormatBuilder,
    separator: char,
) -> FormatBuilder;

/// `FormatBuilder::borders` sets the character of the left and right
/// borders.
pub assume_specification[ FormatBuilder::borders ](
    builder: FormatBuilder,
    border: char,
) -> FormatBuilder;

/// `FormatBuilder::separators` sets the line drawn at each place of `what`.
pub assume_specification[ FormatBuilder::separators ](
    builder: FormatBuilder,
    what: &[LinePosition],
    separator: LineSeparator,
) -> FormatBuilder;

/// `FormatBuilder::padding` sets the blanks left and right of a cell's
/// text.
pub assume_specification[ FormatBuilder::padding ](
    builder: FormatBuilder,
    left: usize,
    right: usize,
) -> FormatBuilder;

/// `FormatBuilder::build` gives the format that was built.
pub assume_specification[ FormatBuilder::build ](builder: &FormatBuilder) -> TableFormat;

/// `LineSeparator::new` makes a line of `line`, with `junc` where columns
/// meet and `ljunc` and `rjunc` at the borders.
pub assume_specification[ LineSeparator::new ](
    line: char,
    junc: char,
    ljunc: char,
    rjunc: char,
) -> LineSeparator;

/// Whether a cell can hold `text`.
pub fn text_fits_cell(text: &[char]) -> (fits: bool)
    ensures
        fits == fits_cell(text@),
{
    !is_contained(text, chars_of("\u{1b}[").as_slice())
}

/// What a cell made of `text` holds of it.
pub fn kept_text_of(text: &[char]) -> (kept: Vec<char>)
    ensures
        kept@ == kept_text(text@),
{
    let feed = chars_of("\n");
    let pieces = split_text(text, feed.as_slice());
    proof {
        lemma_split_len(text@, "\n"@);
    }
    let ghost all = rows(pieces@);
    let ghost ended = Seq::new((all.len() - 1) as nat, |i: int| without_return(all[i]));
    let mut lines: Vec<Vec<char>> = Vec::new();
    let mut i: usize = 0;
    while i < pieces.len() - 1
        invariant
            i <= pieces.len() - 1,
            all == rows(pieces@),
            ended == Seq::new((all.len() - 1) as nat, |i: int| without_return(all[i])),
            rows(lines@) == ended.take(i as int),
        decreases pieces.len() - 1 - i,
    {
        let ghost so_far = rows(lines@);
        let piece = &pieces[i];
        assert(all[i as int] == piece@);
        let end = if piece.len() > 0 && piece[piece.len() - 1] == '\r' {
            piece.len() - 1
        } else {
            piece.len()
        };
        let line = copy_range(piece.as_slice(), 0, end);
        assert(line@ =~= without_return(piece@));
        lines.push(line);
        assert(rows(lines@) =~= so_far.push(without_return(piece@)));
        i += 1;
        assert(rows(lines@) =~= ended.take(i as int));
    }
    assert(ended.take(pieces@.len() - 1) =~= ended);
    let last = &pieces[pieces.len() - 1];
    assert(all.last() == last@);
    if last.len() > 0 {
        let ghost so_far = rows(lines@);
        lines.push(copy_range(last.as_slice(), 0, last.len()));
        assert(last@.subrange(0, last@.len() as int) =~= last@);
        assert(rows(lines@) =~= so_far.push(last@));
    }
    assert(rows(lines@) =~= cell_lines(text@));
    join_text(&lines, feed.as_slice())
}

/// A cell that holds `text`, in the style that `style` spells.
pub fn styled_cell(text: &str, style: &str) -> (cell: Cell)
    requires
        fits_cell(text@),
        !style@.contains('H'),
    ensures
        cell_text(cell) == kept_text(text@),
{
    Cell::new(text).style_spec(style)
}

/// A row of two cells.
pub fn row_of_two(first: Cell, second: Cell) -> (row: Row)
    ensures
        row_cells(row) == seq![cell_text(first), cell_text(second)],
{
    let mut cells: Vec<Cell> = Vec::new();
    cells.push(first);
    cells.push(second);
    let row = Row::new(cells);
    assert(row_cells(row) =~= seq![cell_text(first), cell_text(second)]);
    row
}

/// A row of three cells.
pub fn row_of_three(first: Cell, second: Cell, third: Cell) -> (row: Row)
    ensures
        row_cells(row) == seq![cell_text(first), cell_text(second), cell_text(third)],
{
    let mut cells: Vec<Cell> = Vec::new();
    cells.push(first);
    cells.push(second);
    cells.push(third);
    let row = Row::new(cells);
    assert(row_cells(row) =~= seq![cell_text(first), cell_text(second), cell_text(third)]);
    row
}

/// An empty table in the form of this program: lines at the top, under the
/// titles and at the bottom, borders and a line between the columns, and
/// one blank either side of each text.
pub fn new_table() -> (table: Table)
    ensures
        table_rows(table) == Seq::<Seq<Seq<char>>>::empty(),
        table_titles(table) is None,
{
    let mut table = Table::new();
    let top = [LinePosition::Top];
    let title = [LinePosition::Title];
    let bottom = [LinePosition::Bottom];
    let builder = FormatBuilder::new()
        .column_separator('│')
        .borders('│')
        .separators(&top, LineSeparator::new('─', '┬', '┌', '┐'))
        .separators(&title, LineSeparator::new('─', '┼', '├', '┤'))
        .separators(&bottom, LineSeparator::new('─', '┴', '└', '┘'))
        .padding(1, 1);
    let format = builder.build();
    table.set_format(format);
    table
}

} // verus!
