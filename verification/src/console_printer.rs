//! Text for the console: the banner, the help, and tables drawn with bars
//! and dashes.
//!
//! Nothing is printed here. Each function gives the text that is to be
//! printed, so that what appears on the console is said by a contract.
//! Widths are counted in bytes: a name or value with characters beyond
//! ASCII takes fewer columns on the screen than its width says.
use vstd::prelude::*;
use vstd::string::*;
use vstd::utf8::encode_utf8;
use crate::config::VERSION;
use crate::table::{Column, Table, TableView, find_column, lemma_position, names_of, position};
use crate::table_impl::{find_missing, lemma_first_missing};
use crate::text::join;

verus! {

/// The width of a text: the number of its bytes.
pub open spec fn text_width(s: Seq<char>) -> int {
    encode_utf8(s).len() as int
}

/// `n` times the character `c`; nothing where `n` is not positive.
pub open spec fn run_of(c: char, n: int) -> Seq<char> {
    Seq::new(
        if n > 0 {
            n as nat
        } else {
            0
        },
        |i: int| c,
    )
}

/// One line of a table: a bar, the cells with a bar between neighbours, a
/// space after the last cell, and a closing bar.
pub open spec fn row(cells: Seq<Seq<char>>) -> Seq<char> {
    seq!['|'] + join(cells, '|') + (if cells.len() > 0 {
        seq![' ']
    } else {
        Seq::empty()
    }) + seq!['|', '\n']
}

/// The cells `0..n` as they stand in a line that goes on: each but the
/// last followed by a bar.
pub open spec fn row_so_far(cells: Seq<Seq<char>>, n: int) -> Seq<char> {
    if n <= 0 {
        Seq::empty()
    } else {
        join(cells.take(n), '|')
    }
}

/// One more cell in a line that goes on.
pub proof fn lemma_row_so_far(cells: Seq<Seq<char>>, n: int)
    requires
        0 <= n < cells.len(),
    ensures
        row_so_far(cells, n + 1) == if n == 0 {
            cells[0]
        } else {
            row_so_far(cells, n).push('|') + cells[n]
        },
{
    let next = cells.take(n + 1);
    assert(next.drop_last() =~= cells.take(n));
    assert(next.last() == cells[n]);
    if n == 0 {
        assert(next[0] == cells[0]);
    }
}

/// Appends `n` times the character `c`.
fn push_run(out: &mut String, c: char, n: i128)
    ensures
        final(out)@ == old(out)@ + run_of(c, n as int),
{
    let ghost before = out@;
    let mut i: i128 = 0;
    assert(out@ =~= before + run_of(c, 0));
    while i < n
        invariant
            0 <= i,
            n > 0 ==> i <= n,
            n <= 0 ==> i == 0,
            out@ == before + run_of(c, i as int),
        decreases n - i,
    {
        out.push(c);
        i += 1;
        assert(out@ =~= before + run_of(c, i as int));
    }
    assert(run_of(c, i as int) =~= run_of(c, n as int));
}

/// The name of a column in the head of a table: the padding, the name, and
/// the padding less one.
pub open spec fn field_cell(padding: int, name: Seq<char>) -> Seq<char> {
    run_of(' ', padding) + name + run_of(' ', padding - 1)
}

/// The width of a column: that of its cell in the head of the table.
pub open spec fn column_width(padding: int, name: Seq<char>) -> int {
    (if padding > 0 {
        padding
    } else {
        0
    }) + text_width(name) + (if padding > 1 {
        padding - 1
    } else {
        0
    })
}

/// The cells of the head of a table.
pub open spec fn field_cells(padding: int, names: Seq<Seq<char>>) -> Seq<Seq<char>> {
    Seq::new(names.len(), |j: int| field_cell(padding, names[j]))
}

/// The widths of the columns of a table.
pub open spec fn column_widths(padding: int, names: Seq<Seq<char>>) -> Seq<int> {
    Seq::new(names.len(), |j: int| column_width(padding, names[j]))
}

/// The widths as mathematical integers.
pub open spec fn widths_of(widths: Seq<i128>) -> Seq<int> {
    widths.map_values(|w: i128| w as int)
}

/// The line that parts the head of a table from its rows: dashes between
/// bars, twice the padding for each column and the width of all names.
pub open spec fn separator(padding: int, number_columns: int, names_length: int) -> Seq<char> {
    seq!['|'] + run_of('-', padding * 2 * number_columns + names_length) + seq!['|', '\n']
}

/// The spaces before a value in a cell that has `space` columns to spare:
/// half of them, rounded down.
pub open spec fn left_pad(space: int) -> int {
    if space > 0 {
        space / 2
    } else {
        0
    }
}

/// The spaces after a value in a cell that has `space` columns to spare:
/// half of them, rounded up. A value one column too wide still gets one.
pub open spec fn right_pad(space: int) -> int {
    if space > 0 {
        space / 2 + space % 2
    } else if space == -1 {
        1
    } else {
        0
    }
}

/// A value in its cell, centred in the width of its column.
pub open spec fn value_cell(width: int, text: Seq<char>) -> Seq<char> {
    let space = width - text_width(text);
    run_of(' ', left_pad(space)) + text + run_of(' ', right_pad(space))
}

/// The text of the value in row `i` of the column that was asked for in
/// place `j`; nothing where the column has no such row.
pub open spec fn value_text(t: TableView, j: int, i: int) -> Seq<char> {
    let column = t.columns[position(t.columns, t.select_columns[j]).unwrap()];
    if 0 <= i < column.values.len() {
        column.values[i].render()
    } else {
        Seq::empty()
    }
}

/// The cells of row `i` of a table, one for each column that was asked for.
pub open spec fn value_cells(t: TableView, widths: Seq<int>, i: int) -> Seq<Seq<char>> {
    Seq::new(t.select_columns.len(), |j: int| value_cell(widths[j], value_text(t, j, i)))
}

/// The first `n` rows of a table.
pub open spec fn rows(t: TableView, widths: Seq<int>, n: int) -> Seq<char>
    decreases n,
{
    if n <= 0 {
        Seq::empty()
    } else {
        rows(t, widths, n - 1) + row(value_cells(t, widths, n - 1))
    }
}

/// The width of all of `names` together.
pub open spec fn total_width(names: Seq<Seq<char>>) -> int
    decreases names.len(),
{
    if names.len() == 0 {
        0
    } else {
        total_width(names.drop_last()) + text_width(names.last())
    }
}

/// A table as it is drawn: a line, the head, a line, the rows and a line.
/// There are as many rows as the first column has values; a table without
/// columns has none.
pub open spec fn table_text(padding: int, t: TableView) -> Seq<char> {
    let names = t.select_columns;
    let line = separator(padding, names.len() as int, total_width(names));
    line + row(field_cells(padding, names)) + line + (if t.columns.len() > 0 {
        rows(t, column_widths(padding, names), t.columns[0].values.len() as int)
    } else {
        Seq::empty()
    }) + line
}

/// Appends a value in its cell.
fn push_value_cell(out: &mut String, width: i128, text: &str)
    ensures
        final(out)@ == old(out)@ + value_cell(width as int, text@),
{
    let size = text.as_bytes().len() as i128;
    let mut left: i128 = 0;
    let mut right: i128 = 0;
    if width >= 0 {
        let space = width - size;
        if space > 0 {
            left = space / 2;
            right = space / 2 + space % 2;
        } else if space == -1 {
            right = 1;
        }
    } else if width == -1 && size == 0 {
        right = 1;
    }
    push_run(out, ' ', left);
    out.push_str(text);
    push_run(out, ' ', right);
    assert(final(out)@ =~= old(out)@ + value_cell(width as int, text@));
}

/// The lines of the banner.
pub open spec fn banner_text() -> Seq<char> {
    "------------------------------------------------\n"@
        + "|                                               |\n"@
        + "|   SteelDB                                     |\n"@ + "|   version: "@ + VERSION@
        + "                              |\n"@
        + "|                                               |\n"@
        + "------------------------------------------------\n"@ + "\n"@
}

/// The lines of the help.
pub open spec fn help_text() -> Seq<char> {
    "Type 'exit;' to leave this shell\n"@ + "Current supported commands: [select]\n"@ + "\n"@
}

/// The printer of the console.
#[derive(Debug)]
pub struct ConsolePrinter {
    padding: i32,
}

impl ConsolePrinter {
    /// The spaces that the printer puts around a name.
    pub closed spec fn padding(self) -> int {
        self.padding as int
    }

    /// A printer that puts `padding` spaces around a name.
    pub fn new(padding: i32) -> (p: ConsolePrinter)
        ensures
            p.padding() == padding,
    {
        ConsolePrinter { padding }
    }

    /// The banner that opens a session.
    pub fn banner(&self) -> (s: String)
        ensures
            s@ == banner_text(),
    {
        let mut out = String::new();
        out.push_str("------------------------------------------------\n");
        out.push_str("|                                               |\n");
        out.push_str("|   SteelDB                                     |\n");
        out.push_str("|   version: ");
        out.push_str(VERSION);
        out.push_str("                              |\n");
        out.push_str("|                                               |\n");
        out.push_str("------------------------------------------------\n");
        out.push_str("\n");
        assert(out@ =~= banner_text());
        out
    }

    /// The help that follows the banner.
    pub fn help(&self) -> (s: String)
        ensures
            s@ == help_text(),
    {
        let mut out = String::new();
        out.push_str("Type 'exit;' to leave this shell\n");
        out.push_str("Current supported commands: [select]\n");
        out.push_str("\n");
        assert(out@ =~= help_text());
        out
    }

    /// The head of a table, and the width of each of its columns.
    pub fn table_fields(&self, column_names: &Vec<String>) -> (r: (String, Vec<i128>))
        ensures
            r.0@ == row(field_cells(self.padding(), names_of(column_names@))),
            r.1.len() == column_names.len(),
            widths_of(r.1@) == column_widths(self.padding(), names_of(column_names@)),
    {
        let ghost names = names_of(column_names@);
        let ghost cells = field_cells(self.padding(), names);
        let padding = self.padding as i128;
        let mut out = String::new();
        let mut widths: Vec<i128> = Vec::new();
        out.push('|');
        let n = column_names.len();
        let mut j: usize = 0;
        while j < n
            invariant
                j <= n,
                n == column_names.len(),
                padding == self.padding(),
                names == names_of(column_names@),
                cells == field_cells(self.padding(), names),
                out@ == seq!['|'] + row_so_far(cells, j as int) + (if j == 0 {
                    Seq::empty()
                } else if j < n {
                    seq!['|']
                } else {
                    seq![' ']
                }),
                widths.len() == j,
                forall|k: int|
                    0 <= k < j ==> #[trigger] widths@[k] == column_width(padding as int, names[k]),
            decreases n - j,
        {
            let name = &column_names[j];
            proof {
                lemma_row_so_far(cells, j as int);
                assert(names[j as int] == name@);
            }
            push_run(&mut out, ' ', padding);
            out.push_str(name.as_str());
            push_run(&mut out, ' ', padding - 1);
            let width: i128 = (if padding > 0 {
                padding
            } else {
                0
            }) + name.as_str().as_bytes().len() as i128 + (if padding > 1 {
                padding - 1
            } else {
                0
            });
            widths.push(width);
            proof {
                assert(out@ =~= seq!['|'] + row_so_far(cells, j + 1));
            }
            if j < n - 1 {
                out.push('|');
            } else {
                out.push(' ');
            }
            j += 1;
        }
        out.push('|');
        out.push('\n');
        proof {
            assert(cells.take(n as int) =~= cells);
            assert(out@ =~= row(cells));
            assert(widths_of(widths@) =~= column_widths(self.padding(), names));
        }
        (out, widths)
    }

    /// The line that parts the head of a table from its rows.
    pub fn separator_line(&self, number_columns: usize, names_length: usize) -> (s: String)
        ensures
            s@ == separator(self.padding(), number_columns as int, names_length as int),
    {
        let padding = self.padding as i128;
        assert(-0x1_0000_0000 <= padding * 2 <= 0x1_0000_0000);
        assert(-0x1_0000_0000_0000_0000_0000_0000 <= padding * 2 * (number_columns as i128)
            <= 0x1_0000_0000_0000_0000_0000_0000) by (nonlinear_arith)
            requires
                -0x1_0000_0000 <= padding * 2 <= 0x1_0000_0000,
                0 <= number_columns as i128 <= 0xFFFF_FFFF_FFFF_FFFF,
        ;
        let size: i128 = padding * 2 * (number_columns as i128) + names_length as i128;
        let mut out = String::new();
        out.push('|');
        push_run(&mut out, '-', size);
        out.push('|');
        out.push('\n');
        assert(out@ =~= separator(self.padding(), number_columns as int, names_length as int));
        out
    }

    /// Appends row `i` of `table`.
    fn push_row(&self, out: &mut String, table: &Table, i: usize, column_widths: &Vec<i128>)
        requires
            table@.selection_present(),
            column_widths.len() == table.select_columns.len(),
        ensures
            final(out)@ == old(out)@ + row(value_cells(table@, widths_of(column_widths@), i as int)),
    {
        let ghost before = out@;
        let ghost t = table@;
        let ghost widths = widths_of(column_widths@);
        let ghost cells = value_cells(t, widths, i as int);
        out.push('|');
        let n = table.select_columns.len();
        let mut j: usize = 0;
        while j < n
            invariant
                j <= n,
                n == table.select_columns.len(),
                n == column_widths.len(),
                t == table@,
                t.selection_present(),
                widths == widths_of(column_widths@),
                cells == value_cells(t, widths, i as int),
                out@ == before + seq!['|'] + row_so_far(cells, j as int) + (if j == 0 {
                    Seq::empty()
                } else if j < n {
                    seq!['|']
                } else {
                    seq![' ']
                }),
            decreases n - j,
        {
            let name = &table.select_columns[j];
            proof {
                lemma_row_so_far(cells, j as int);
                assert(t.select_columns[j as int] == name@);
                lemma_position(t.columns, name@);
            }
            let at = find_column(&table.columns, name).unwrap();
            let column: &Column = &table.columns[at];
            let mut text = String::new();
            if i < column.values.len() {
                column.values[i].push_line(&mut text);
                assert(text@ =~= column@.values[i as int].render());
            }
            assert(text@ == value_text(t, j as int, i as int));
            push_value_cell(out, column_widths[j], text.as_str());
            proof {
                assert(widths[j as int] == column_widths[j as int] as int);
                assert(out@ =~= before + seq!['|'] + row_so_far(cells, j + 1));
            }
            if j < n - 1 {
                out.push('|');
            } else {
                out.push(' ');
            }
            j += 1;
        }
        out.push('|');
        out.push('\n');
        proof {
            assert(cells.take(n as int) =~= cells);
            assert(out@ =~= before + row(cells));
        }
    }

    /// The first `number_rows` rows of `table`, each value centred in the
    /// width of its column.
    pub fn table_columns(&self, table: &Table, number_rows: usize, column_widths: &Vec<i128>) -> (s:
        String)
        requires
            table@.selection_present(),
            column_widths.len() == table.select_columns.len(),
        ensures
            s@ == rows(table@, widths_of(column_widths@), number_rows as int),
    {
        let mut out = String::new();
        let mut i: usize = 0;
        while i < number_rows
            invariant
                i <= number_rows,
                table@.selection_present(),
                column_widths.len() == table.select_columns.len(),
                out@ == rows(table@, widths_of(column_widths@), i as int),
            decreases number_rows - i,
        {
            self.push_row(&mut out, table, i, column_widths);
            i += 1;
        }
        out
    }

    /// The width of all of `names` together, if a width can say it.
    fn checked_names_length(names: &Vec<String>) -> (r: Option<usize>)
        ensures
            match r {
                Some(n) => n == total_width(names_of(names@)),
                None => total_width(names_of(names@)) > usize::MAX,
            },
    {
        let ghost all = names_of(names@);
        let mut sum: usize = 0;
        let mut j: usize = 0;
        assert(all.take(0) =~= Seq::<Seq<char>>::empty());
        while j < names.len()
            invariant
                j <= names.len(),
                all == names_of(names@),
                sum == total_width(all.take(j as int)),
            decreases names.len() - j,
        {
            proof {
                let next = all.take(j + 1);
                assert(next.drop_last() =~= all.take(j as int));
                assert(next.last() == names@[j as int]@);
                lemma_total_width_grows(all, j + 1);
            }
            let width = names[j].as_str().as_bytes().len();
            if width > usize::MAX - sum {
                return None;
            }
            sum = sum + width;
            j += 1;
        }
        assert(all.take(j as int) =~= all);
        Some(sum)
    }

    /// `table` as it is drawn on the console, if it can be drawn: every
    /// name that was asked for must name a column, and the names must not
    /// be wider together than a width can say.
    pub fn try_table(&self, table: &Table) -> (r: Option<String>)
        ensures
            match r {
                Some(s) => table@.selection_present() && total_width(table@.select_columns)
                    <= usize::MAX && s@ == table_text(self.padding(), table@),
                None => !(table@.selection_present() && total_width(table@.select_columns)
                    <= usize::MAX),
            },
    {
        proof {
            lemma_first_missing(table@.columns, table@.select_columns);
        }
        match find_missing(&table.columns, &table.select_columns) {
            Some(k) => {
                assert(table@.select_columns.contains(table.select_columns@[k as int]@));
                None
            },
            None => match ConsolePrinter::checked_names_length(&table.select_columns) {
                None => None,
                Some(_) => Some(self.table(table)),
            },
        }
    }

    /// The width of all of `names` together.
    fn names_length(names: &Vec<String>) -> (n: usize)
        requires
            total_width(names_of(names@)) <= usize::MAX,
        ensures
            n == total_width(names_of(names@)),
    {
        let ghost all = names_of(names@);
        let mut sum: usize = 0;
        let mut j: usize = 0;
        assert(all.take(0) =~= Seq::<Seq<char>>::empty());
        while j < names.len()
            invariant
                j <= names.len(),
                all == names_of(names@),
                sum == total_width(all.take(j as int)),
                total_width(all) <= usize::MAX,
            decreases names.len() - j,
        {
            proof {
                let next = all.take(j + 1);
                assert(next.drop_last() =~= all.take(j as int));
                assert(next.last() == names@[j as int]@);
                lemma_total_width_grows(all, j + 1);
            }
            sum = sum + names[j].as_str().as_bytes().len();
            j += 1;
        }
        assert(all.take(j as int) =~= all);
        sum
    }

    /// `table` as it is drawn on the console.
    pub fn table(&self, table: &Table) -> (s: String)
        requires
            table@.selection_present(),
            total_width(table@.select_columns) <= usize::MAX,
        ensures
            s@ == table_text(self.padding(), table@),
    {
        let number_columns = table.select_columns.len();
        let names_length = ConsolePrinter::names_length(&table.select_columns);
        let line = self.separator_line(number_columns, names_length);
        let (head, widths) = self.table_fields(&table.select_columns);
        let mut out = String::new();
        out.push_str(line.as_str());
        out.push_str(head.as_str());
        out.push_str(line.as_str());
        if table.columns.len() > 0 {
            let number_rows = table.columns[0].values.len();
            let body = self.table_columns(table, number_rows, &widths);
            out.push_str(body.as_str());
        }
        out.push_str(line.as_str());
        assert(out@ =~= table_text(self.padding(), table@));
        out
    }
}

/// The width of the first names is at most the width of all names.
proof fn lemma_total_width_grows(names: Seq<Seq<char>>, n: int)
    requires
        0 <= n <= names.len(),
    ensures
        0 <= total_width(names.take(n)) <= total_width(names),
    decreases names.len() - n,
{
    if n < names.len() {
        lemma_total_width_grows(names, n + 1);
        assert(names.take(n + 1).drop_last() =~= names.take(n));
        lemma_total_width_nonnegative(names.take(n));
    } else {
        assert(names.take(n) =~= names);
        lemma_total_width_nonnegative(names);
    }
}

/// A width is never negative.
proof fn lemma_total_width_nonnegative(names: Seq<Seq<char>>)
    ensures
        0 <= total_width(names),
    decreases names.len(),
{
    if names.len() > 0 {
        lemma_total_width_nonnegative(names.drop_last());
    }
}

} // verus!
