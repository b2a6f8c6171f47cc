//! Reading and writing tables in their file format.
//!
//! Neither the reader nor the writer touches a file: the writer gives the
//! bytes of a file and the reader takes them. What the bytes are is said in
//! [`crate::layout`].
use vstd::prelude::*;
use vstd::string::*;
use crate::datatypes::{DataType, FloatText, Kind, Value, values_of};
use crate::layout::{
    after_space, block_lines, block_values, breaks_line, decode, decode_blocks, decode_text,
    encodable, encoded_bytes, equal_lengths, first_line_break, first_unequal, lemma_decode_sound,
    lemma_metadata_tag, lemma_unlines_add, lemma_unlines_one, lines_of, meta_line, metadata,
    sound_columns, table_lines, tag_kind, unlines, value_lines,
};
use crate::numeric::{push_nat, read_i32};
use crate::table::{
    Column, ColumnView, columns_of, contains_name, find_column, names_of, upsert,
};
use crate::text::{
    Span, chars_without, contains_char, lemma_split_nonempty, span_is, split, split_spans,
    to_chars, to_text, utf8_text,
};

verus! {

/// The file formats that a table can be stored in.
#[derive(Clone, Copy, Debug, PartialEq, Eq, Structural)]
pub enum FileFormat {
    /// A plain text format that stores the values of each column together:
    ///
    /// ```txt
    /// TABLE COLUMNAR FORMAT HEADER
    /// Field name: final_grade; Type: f32; Number of elements: 3
    /// 4.0
    /// 3.2
    /// 5
    /// Field name: name; Type: String; Number of elements: 3
    /// John Man
    /// Lenon
    /// Mary
    /// ```
    SimpleColumnar,
}

/// What is wrong with a metadata line.
#[derive(Clone, Copy, Debug, PartialEq, Eq, Structural)]
pub enum MetaFault {
    /// The line has this many segments between semicolons, not three.
    Segments(usize),
    /// The segment of the element count is not two parts around a colon.
    ElementCount,
    /// The segment of the type is not two parts around a colon.
    Type,
    /// The type is none of the three tags `String`, `i32` and `f32`.
    UnknownType,
    /// The segment of the name is not two parts around a colon.
    Name,
}

/// What can go wrong when a table is read. Lines are numbered from zero, the
/// header being line zero.
#[derive(Debug)]
pub enum ReadError {
    /// The file does not open with the header line.
    MalformedFile,
    /// A field announces more values than the file has lines for or fewer
    /// than none; or a field that is asked for has not as many values as
    /// the fields read before it.
    InvalidFileSize,
    /// A line that should hold field metadata does not follow its grammar.
    InvalidFieldMeta { line: usize, text: String, fault: MetaFault },
    /// A line is not a value of the type that its field declares, or an
    /// element count is no number.
    FieldParseError { line: usize, field: String },
    /// The bytes of the file could not be taken as text.
    StdIoError(String),
}

/// A read error as a mathematical value.
pub enum ReadErrorView {
    MalformedFile,
    InvalidFileSize,
    InvalidFieldMeta { line: int, text: Seq<char>, fault: MetaFault },
    FieldParseError { line: int, field: Seq<char> },
    StdIoError(Seq<char>),
}

impl View for ReadError {
    type V = ReadErrorView;

    open spec fn view(&self) -> ReadErrorView {
        match self {
            ReadError::MalformedFile => ReadErrorView::MalformedFile,
            ReadError::InvalidFileSize => ReadErrorView::InvalidFileSize,
            ReadError::InvalidFieldMeta { line, text, fault } => ReadErrorView::InvalidFieldMeta {
                line: *line as int,
                text: text@,
                fault: *fault,
            },
            ReadError::FieldParseError { line, field } => ReadErrorView::FieldParseError {
                line: *line as int,
                field: field@,
            },
            ReadError::StdIoError(s) => ReadErrorView::StdIoError(s@),
        }
    }
}

/// What can go wrong when a table is written.
#[derive(Debug)]
pub enum WriteError {
    /// The table has no column: there is nothing a file could declare.
    EmptySchema,
    /// This field has not as many values as the first field of the table.
    UnequalColumns { field: String },
    /// The text in this row of this field holds a line feed, which the
    /// format cannot carry.
    LineBreakInText { field: String, row: usize },
}

/// A write error as a mathematical value.
pub enum WriteErrorView {
    EmptySchema,
    UnequalColumns { field: Seq<char> },
    LineBreakInText { field: Seq<char>, row: int },
}

impl View for WriteError {
    type V = WriteErrorView;

    open spec fn view(&self) -> WriteErrorView {
        match self {
            WriteError::EmptySchema => WriteErrorView::EmptySchema,
            WriteError::UnequalColumns { field } => WriteErrorView::UnequalColumns { field: field@ },
            WriteError::LineBreakInText { field, row } => WriteErrorView::LineBreakInText {
                field: field@,
                row: *row as int,
            },
        }
    }
}

/// The first value, in file order, that holds a line feed is row `row` of
/// column `col`, which is called `field`.
pub open spec fn line_break_at(cols: Seq<ColumnView>, col: int, row: int, field: Seq<char>) -> bool {
    first_line_break(cols, col, row) && cols[col].name == field
}

/// The first column that has not as many values as the first column is
/// column `col`, which is called `field`.
pub open spec fn unequal_at(cols: Seq<ColumnView>, col: int, field: Seq<char>) -> bool {
    first_unequal(cols, col) && cols[col].name == field
}

/// What a write error says of the columns that were to be written. Of the
/// faults that the columns have, the error tells the first of: no column;
/// columns of different lengths; a line feed in a text.
pub open spec fn write_fault(cols: Seq<ColumnView>, e: WriteErrorView) -> bool {
    match e {
        WriteErrorView::EmptySchema => cols.len() == 0,
        WriteErrorView::UnequalColumns { field } => exists|col: int| unequal_at(cols, col, field),
        WriteErrorView::LineBreakInText { field, row } => equal_lengths(cols) && exists|col: int|
            line_break_at(cols, col, row, field),
    }
}

/// Appends the lines of one column, or finds the first row that cannot be
/// written.
fn write_block(out: &mut String, column: &Column) -> (r: Result<(), usize>)
    ensures
        match r {
            Ok(()) => final(out)@ == old(out)@ + unlines(block_lines(column@)) && forall|j: int|
                0 <= j < column@.values.len() ==> !breaks_line(#[trigger] column@.values[j]),
            Err(row) => row < column@.values.len() && breaks_line(column@.values[row as int])
                && forall|j: int| 0 <= j < row ==> !breaks_line(#[trigger] column@.values[j]),
        },
{
    let ghost before = out@;
    let ghost values = column@.values;
    let ghost meta = meta_line(column@.name, column@.kind.tag(), values.len());
    out.push_str("Field name");
    out.push(':');
    out.push(' ');
    out.push_str(column.name.as_str());
    out.push(';');
    out.push_str(" Type");
    out.push(':');
    out.push(' ');
    out.push_str(column.kind.name().as_str());
    out.push(';');
    out.push_str(" Number of elements");
    out.push(':');
    out.push(' ');
    push_nat(out, column.values.len() as u64);
    out.push('\n');
    proof {
        lemma_unlines_one(meta);
        assert(out@ =~= before + meta.push('\n'));
        assert(values.take(0) =~= Seq::<Value>::empty());
        assert(seq![meta] + value_lines(values.take(0)) =~= seq![meta]);
    }
    let mut j: usize = 0;
    while j < column.values.len()
        invariant
            j <= column.values.len(),
            values == column@.values,
            values.len() == column.values.len(),
            out@ == before + unlines(seq![meta] + value_lines(values.take(j as int))),
            forall|k: int| 0 <= k < j ==> !breaks_line(#[trigger] values[k]),
        decreases column.values.len() - j,
    {
        let value = &column.values[j];
        assert(values[j as int] == value@);
        match value {
            DataType::String(s) => {
                if contains_char(s.as_str(), '\n') {
                    return Err(j);
                }
            },
            _ => {},
        }
        let ghost lines = seq![meta] + value_lines(values.take(j as int));
        value.push_line(out);
        out.push('\n');
        proof {
            let line = value@.render();
            assert(value_lines(values.take(j + 1)) =~= value_lines(values.take(j as int)).push(line));
            assert(seq![meta] + value_lines(values.take(j + 1)) =~= lines + seq![line]);
            lemma_unlines_add(lines, seq![line]);
            lemma_unlines_one(line);
            assert(out@ =~= before + unlines(lines + seq![line]));
        }
        j += 1;
    }
    proof {
        assert(values.take(j as int) =~= values);
    }
    Ok(())
}

/// The writer of the Simple Columnar format.
#[derive(Debug)]
pub struct ColumnarWriter {}

impl ColumnarWriter {
    /// A writer.
    pub fn new() -> Box<ColumnarWriter> {
        Box::new(ColumnarWriter {  })
    }

    /// The bytes of the file that holds `columns`: the header, then for each
    /// column, in the order given, its metadata line and its values.
    ///
    /// Fails where there is no column, where the columns have not all the
    /// same number of values, and where a text holds a line feed; the error
    /// then names the first such column, or the first such text in file
    /// order.
    pub fn write(&self, columns: &Vec<Column>) -> (r: Result<Vec<u8>, WriteError>)
        ensures
            match r {
                Ok(bytes) => encodable(columns_of(columns@)) && bytes@ == encoded_bytes(
                    columns_of(columns@),
                ),
                Err(e) => write_fault(columns_of(columns@), e@),
            },
    {
        let ghost cols = columns_of(columns@);
        if columns.len() == 0 {
            return Err(WriteError::EmptySchema);
        }
        let rows = columns[0].values.len();
        let mut k: usize = 1;
        while k < columns.len()
            invariant
                1 <= k <= columns.len(),
                cols == columns_of(columns@),
                rows == cols[0].values.len(),
                forall|i: int| 0 <= i < k ==> (#[trigger] cols[i]).values.len() == rows,
            decreases columns.len() - k,
        {
            if columns[k].values.len() != rows {
                let fault = WriteError::UnequalColumns { field: columns[k].name.clone() };
                proof {
                    let seen = WriteErrorView::UnequalColumns { field: cols[k as int].name };
                    assert(fault@ == seen);
                    assert(unequal_at(cols, k as int, seen->UnequalColumns_field));
                }
                return Err(fault);
            }
            k += 1;
        }
        assert(equal_lengths(cols));
        let mut out = String::new();
        out.push_str("TABLE COLUMNAR FORMAT HEADER");
        out.push('\n');
        proof {
            lemma_unlines_one("TABLE COLUMNAR FORMAT HEADER"@);
            assert(cols.take(0) =~= Seq::<ColumnView>::empty());
            assert(table_lines(cols.take(0)) =~= seq!["TABLE COLUMNAR FORMAT HEADER"@]);
            assert(out@ =~= unlines(table_lines(cols.take(0))));
        }
        let mut i: usize = 0;
        while i < columns.len()
            invariant
                i <= columns.len(),
                cols == columns_of(columns@),
                out@ == unlines(table_lines(cols.take(i as int))),
                equal_lengths(cols),
                forall|a: int, b: int|
                    0 <= a < i && 0 <= b < cols[a].values.len() ==> !breaks_line(
                        #[trigger] cols[a].values[b],
                    ),
            decreases columns.len() - i,
        {
            let column = &columns[i];
            assert(cols[i as int] == column@);
            match write_block(&mut out, column) {
                Err(row) => {
                    let fault = WriteError::LineBreakInText { field: column.name.clone(), row };
                    proof {
                        let seen = WriteErrorView::LineBreakInText {
                            field: cols[i as int].name,
                            row: row as int,
                        };
                        assert(fault@ == seen);
                        assert(line_break_at(
                            cols,
                            i as int,
                            seen->row,
                            seen->LineBreakInText_field,
                        ));
                    }
                    return Err(fault);
                },
                Ok(()) => {},
            }
            proof {
                let done = cols.take(i as int);
                let next = cols.take(i + 1);
                assert(next.drop_last() =~= done);
                assert(next.last() == cols[i as int]);
                assert(table_lines(next) =~= table_lines(done) + block_lines(cols[i as int]));
                lemma_unlines_add(table_lines(done), block_lines(cols[i as int]));
            }
            i += 1;
        }
        proof {
            assert(cols.take(i as int) =~= cols);
        }
        Ok(out.as_str().as_bytes_vec())
    }

    /// Appending rows to a file is not part of the format yet: there are no
    /// bytes to add, whatever the columns.
    pub fn append(&self, columns: &Vec<Column>) -> (r: Result<Vec<u8>, WriteError>)
        ensures
            r matches Ok(bytes) && bytes@.len() == 0,
    {
        Ok(Vec::new())
    }
}

/// `spans` are the lines of `v`, in order.
pub open spec fn spans_are_lines(v: Seq<char>, spans: Seq<Span>) -> bool {
    &&& spans.len() == lines_of(v).len()
    &&& forall|k: int|
        0 <= k < spans.len() ==> (#[trigger] spans[k]).within(0, v.len() as int) && spans[k].of(v)
            == lines_of(v)[k]
}

/// What reading a metadata line gave, as a mathematical value.
pub open spec fn metadata_view(r: Result<(String, String, i32), ReadError>) -> Result<
    (Seq<char>, Seq<char>, i32),
    ReadErrorView,
> {
    match r {
        Ok((name, tag, count)) => Ok((name@, tag@, count)),
        Err(e) => Err(e@),
    }
}

/// What reading values gave, as a mathematical value.
pub open spec fn values_view(r: Result<Vec<DataType>, ReadError>) -> Result<
    Seq<Value>,
    ReadErrorView,
> {
    match r {
        Ok(values) => Ok(values_of(values@)),
        Err(e) => Err(e@),
    }
}

/// What reading columns gave, as a mathematical value.
pub open spec fn columns_view(r: Result<Vec<Column>, ReadError>) -> Result<
    Seq<ColumnView>,
    ReadErrorView,
> {
    match r {
        Ok(columns) => Ok(columns_of(columns@)),
        Err(e) => Err(e@),
    }
}

/// Reads the metadata line that `span` covers.
fn metadata_at(v: &Vec<char>, span: Span, number: usize) -> (r: Result<
    (String, String, i32),
    ReadError,
>)
    requires
        span.within(0, v.len() as int),
    ensures
        metadata_view(r) == metadata(span.of(v@), number as int),
{
    let ghost line = span.of(v@);
    let segments = split_spans(v, span.start, span.end, ';');
    if segments.len() != 3 {
        return Err(
            ReadError::InvalidFieldMeta {
                line: number,
                text: to_text(v, span),
                fault: MetaFault::Segments(segments.len()),
            },
        );
    }
    let name = split_spans(v, segments[0].start, segments[0].end, ':');
    let tag = split_spans(v, segments[1].start, segments[1].end, ':');
    let count = split_spans(v, segments[2].start, segments[2].end, ':');
    proof {
        assert(segments[0].of(v@) == split(line, ';')[0]);
        assert(segments[1].of(v@) == split(line, ';')[1]);
        assert(segments[2].of(v@) == split(line, ';')[2]);
    }
    if count.len() != 2 {
        return Err(
            ReadError::InvalidFieldMeta {
                line: number,
                text: to_text(v, span),
                fault: MetaFault::ElementCount,
            },
        );
    }
    let digits = chars_without(v, count[1], ' ');
    let whole = Span { start: 0, end: digits.len() };
    assert(whole.of(digits@) =~= digits@);
    let n = match read_i32(&digits, whole) {
        None => {
            proof {
                reveal_strlit("number of elements");
            }
            return Err(
                ReadError::FieldParseError {
                    line: number,
                    field: "number of elements".to_string(),
                },
            );
        },
        Some(n) => n,
    };
    if tag.len() != 2 {
        return Err(
            ReadError::InvalidFieldMeta {
                line: number,
                text: to_text(v, span),
                fault: MetaFault::Type,
            },
        );
    }
    let tag_chars = chars_without(v, tag[1], ' ');
    let tag_span = Span { start: 0, end: tag_chars.len() };
    assert(tag_span.of(tag_chars@) =~= tag_chars@);
    if Kind::from_tag(&tag_chars, tag_span).is_none() {
        return Err(
            ReadError::InvalidFieldMeta {
                line: number,
                text: to_text(v, span),
                fault: MetaFault::UnknownType,
            },
        );
    }
    if name.len() != 2 {
        return Err(
            ReadError::InvalidFieldMeta {
                line: number,
                text: to_text(v, span),
                fault: MetaFault::Name,
            },
        );
    }
    let part = name[1];
    let ghost value = part.of(v@);
    let name_span = if part.start < part.end && v[part.start] == ' ' {
        Span { start: part.start + 1, end: part.end }
    } else {
        part
    };
    proof {
        if part.start < part.end {
            assert(value[0] == v@[part.start as int]);
        }
        assert(name_span.of(v@) =~= after_space(value));
    }
    Ok((to_text(v, name_span), to_text(&tag_chars, tag_span), n))
}

/// Reads the line that `span` covers as a value of kind `kind`.
fn read_value(v: &Vec<char>, span: Span, kind: Kind) -> (r: Option<DataType>)
    requires
        span.within(0, v.len() as int),
    ensures
        match r {
            Some(d) => Value::parse(kind, span.of(v@)) == Some(d@),
            None => Value::parse(kind, span.of(v@)) is None,
        },
{
    match kind {
        Kind::Text => Some(DataType::String(to_text(v, span))),
        Kind::Integer32 => match read_i32(v, span) {
            Some(n) => Some(DataType::Integer32(n)),
            None => None,
        },
        Kind::Float32 => match FloatText::from_chars(v, span) {
            Some(t) => Some(DataType::Float32(t)),
            None => None,
        },
    }
}

/// A block that fails on its first lines fails the same way however many
/// more lines it has.
proof fn lemma_block_values_fails(
    lines: Seq<Seq<char>>,
    from: int,
    short: int,
    count: int,
    kind: Kind,
    name: Seq<char>,
)
    requires
        0 <= short <= count,
        block_values(lines, from, short, kind, name) is Err,
    ensures
        block_values(lines, from, count, kind, name) == block_values(lines, from, short, kind, name),
    decreases count - short,
{
    if short < count {
        lemma_block_values_fails(lines, from, short, count - 1, kind, name);
    }
}

/// Reads the `count` lines from line `from` on as values of kind `kind`.
fn read_block(
    v: &Vec<char>,
    lines: &Vec<Span>,
    from: usize,
    count: usize,
    kind: Kind,
    name: &String,
) -> (r: Result<Vec<DataType>, ReadError>)
    requires
        spans_are_lines(v@, lines@),
        from + count <= lines.len(),
    ensures
        values_view(r) == block_values(
            lines_of(v@),
            from as int,
            count as int,
            kind,
            name@,
        ),
{
    let ghost all = lines_of(v@);
    let mut values: Vec<DataType> = Vec::new();
    let mut j: usize = 0;
    assert(values_of(values@) =~= Seq::<Value>::empty());
    while j < count
        invariant
            j <= count,
            from + count <= lines.len(),
            spans_are_lines(v@, lines@),
            all == lines_of(v@),
            block_values(all, from as int, j as int, kind, name@) == Ok::<
                Seq<Value>,
                ReadErrorView,
            >(values_of(values@)),
        decreases count - j,
    {
        let span = lines[from + j];
        assert(span.of(v@) == all[from + j]);
        match read_value(v, span, kind) {
            None => {
                let field = name.clone();
                proof {
                    lemma_block_values_fails(all, from as int, j + 1, count as int, kind, name@);
                }
                return Err(ReadError::FieldParseError { line: from + j, field });
            },
            Some(value) => {
                let ghost before = values_of(values@);
                values.push(value);
                assert(values_of(values@) =~= before.push(value@));
            },
        }
        j += 1;
    }
    Ok(values)
}

/// Puts `column` in the place of the column of its name, or at the end
/// where there is none.
fn put_column(cols: &mut Vec<Column>, column: Column)
    ensures
        columns_of(final(cols)@) == upsert(columns_of(old(cols)@), column@),
{
    let ghost before = columns_of(cols@);
    let ghost c = column@;
    match find_column(cols, &column.name) {
        Some(i) => {
            cols[i] = column;
            assert(columns_of(cols@) =~= before.update(i as int, c));
        },
        None => {
            cols.push(column);
            assert(columns_of(cols@) =~= before.push(c));
        },
    }
}

/// The kind that the type tag of a metadata line stands for.
fn kind_of(tag: &String) -> (k: Kind)
    requires
        Kind::of_tag(tag@) is Some,
    ensures
        k == tag_kind(tag@),
{
    let chars = to_chars(tag.as_str());
    let whole = Span { start: 0, end: chars.len() };
    assert(whole.of(chars@) =~= tag@);
    Kind::from_tag(&chars, whole).unwrap()
}

/// Reads the blocks from line one on.
fn read_blocks(v: &Vec<char>, lines: &Vec<Span>, select: &Vec<String>) -> (r: Result<
    Vec<Column>,
    ReadError,
>)
    requires
        spans_are_lines(v@, lines@),
        lines.len() >= 1,
    ensures
        columns_view(r) == decode_blocks(
            lines_of(v@),
            1,
            names_of(select@),
            Seq::<ColumnView>::empty(),
        ),
{
    let ghost all = lines_of(v@);
    let ghost wanted = names_of(select@);
    let ghost goal = decode_blocks(all, 1, wanted, Seq::<ColumnView>::empty());
    let mut cols: Vec<Column> = Vec::new();
    let mut at: usize = 1;
    assert(columns_of(cols@) =~= Seq::<ColumnView>::empty());
    while at < lines.len()
        invariant
            1 <= at <= lines.len(),
            spans_are_lines(v@, lines@),
            all == lines_of(v@),
            wanted == names_of(select@),
            goal == decode_blocks(all, 1, wanted, Seq::<ColumnView>::empty()),
            decode_blocks(all, at as int, wanted, columns_of(cols@)) == goal,
        decreases lines.len() - at,
    {
        let span = lines[at];
        assert(span.of(v@) == all[at as int]);
        assert(all[at as int].len() == span.end - span.start);
        if span.start == span.end {
            return Ok(cols);
        }
        let (name, tag, count) = match metadata_at(v, span, at) {
            Err(e) => {
                return Err(e);
            },
            Ok(meta) => meta,
        };
        if count < 0 || count as usize > lines.len() - (at + 1) {
            return Err(ReadError::InvalidFileSize);
        }
        let count = count as usize;
        if contains_name(select, &name) {
            if cols.len() > 0 && cols[0].values.len() != count {
                assert(columns_of(cols@)[0] == cols@[0]@);
                return Err(ReadError::InvalidFileSize);
            }
            proof {
                if cols.len() > 0 {
                    assert(columns_of(cols@)[0] == cols@[0]@);
                }
            }
            proof {
                lemma_metadata_tag(all[at as int], at as int);
            }
            let kind = kind_of(&tag);
            let values = match read_block(v, lines, at + 1, count, kind, &name) {
                Err(e) => {
                    return Err(e);
                },
                Ok(values) => values,
            };
            put_column(&mut cols, Column { name, kind, values });
        }
        at = at + 1 + count;
    }
    Ok(cols)
}

/// Reads the columns among `select` from the text of a file.
fn read_text(text: &str, select: &Vec<String>) -> (r: Result<Vec<Column>, ReadError>)
    ensures
        columns_view(r) == decode_text(text@, names_of(select@)),
{
    let v = to_chars(text);
    let mut lines = split_spans(&v, 0, v.len(), '\n');
    proof {
        assert(v@.subrange(0, v.len() as int) =~= v@);
        lemma_split_nonempty(v@, '\n');
    }
    let header = to_chars("TABLE COLUMNAR FORMAT HEADER");
    if lines.len() < 2 || !span_is(&v, lines[0], &header) {
        return Err(ReadError::MalformedFile);
    }
    let last = lines[lines.len() - 1];
    assert(last.of(v@) == split(v@, '\n').last());
    if last.start == last.end {
        lines.pop();
    }
    read_blocks(&v, &lines, select)
}

/// The reader of the Simple Columnar format.
#[derive(Debug)]
pub struct ColumnarReader {}

impl ColumnarReader {
    /// A reader.
    pub fn new() -> Box<ColumnarReader> {
        Box::new(ColumnarReader {  })
    }

    /// Reads one metadata line: the name, the type tag and the number of
    /// values that it declares. `line_number` is the line's place in its
    /// file, which an error carries.
    pub fn read_metadata(line: &str, line_number: usize) -> (r: Result<
        (String, String, i32),
        ReadError,
    >)
        ensures
            metadata_view(r) == metadata(line@, line_number as int),
    {
        let v = to_chars(line);
        let whole = Span { start: 0, end: v.len() };
        assert(whole.of(v@) =~= line@);
        metadata_at(&v, whole, line_number)
    }

    /// Reads, from the bytes of a file, the columns whose names are among
    /// `select_columns`. The values of other columns are stepped over and
    /// never read.
    pub fn read(&self, bytes: &[u8], select_columns: &Vec<String>) -> (r: Result<
        Vec<Column>,
        ReadError,
    >)
        ensures
            columns_view(r) == decode(bytes@, names_of(select_columns@)),
            r matches Ok(columns) ==> sound_columns(columns_of(columns@), names_of(select_columns@)),
    {
        proof {
            lemma_decode_sound(bytes@, names_of(select_columns@));
        }
        match utf8_text(bytes) {
            None => Err(ReadError::StdIoError("stream did not contain valid UTF-8".to_string())),
            Some(text) => read_text(text, select_columns),
        }
    }
}

} // verus!
