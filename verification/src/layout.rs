//! The Simple Columnar layout, as mathematics.
//!
//! A file is a sequence of lines, each ended by a line feed:
//!
//! ```txt
//! TABLE COLUMNAR FORMAT HEADER
//! Field name: name; Type: String; Number of elements: 2
//! John
//! Mary
//! Field name: salary; Type: i32; Number of elements: 2
//! 60000
//! 30000
//! ```
//!
//! The header line comes first. Then follows, for each column, a metadata
//! line and one line per value. This module says which text stands for
//! which columns ([`encoded`]) and which columns a text stands for
//! ([`decode`]); the reader and the writer are proved against it.
use vstd::prelude::*;
use vstd::utf8::*;
use crate::datatypes::{Kind, Value};
use crate::file_io::{MetaFault, ReadErrorView};
use crate::numeric::{parse_i32, render_nat};
use crate::table::{ColumnView, distinct_names, lemma_position, position, upsert};
use crate::text::{has_char, split, without};

verus! {

/// The line that opens every file.
pub open spec fn header() -> Seq<char> {
    "TABLE COLUMNAR FORMAT HEADER"@
}

/// The label of the first segment of a metadata line.
pub open spec fn name_label() -> Seq<char> {
    "Field name"@
}

/// The label of the second segment of a metadata line.
pub open spec fn type_label() -> Seq<char> {
    " Type"@
}

/// The label of the third segment of a metadata line.
pub open spec fn count_label() -> Seq<char> {
    " Number of elements"@
}

/// What a failure to read the element count names as its field.
pub open spec fn count_field() -> Seq<char> {
    "number of elements"@
}

/// What a failure to decode the bytes of a file says.
pub open spec fn utf8_message() -> Seq<char> {
    "stream did not contain valid UTF-8"@
}

/// One segment of a metadata line: a label, a colon, a space, a value.
pub open spec fn segment(label: Seq<char>, value: Seq<char>) -> Seq<char> {
    label.push(':').push(' ') + value
}

/// The metadata line of a column: its name, its type tag and the number of
/// its values, in three segments with a semicolon between them.
pub open spec fn meta_line(name: Seq<char>, tag: Seq<char>, count: nat) -> Seq<char> {
    (segment(name_label(), name).push(';') + segment(type_label(), tag)).push(';') + segment(
        count_label(),
        render_nat(count),
    )
}

/// The lines of the values of a column.
pub open spec fn value_lines(values: Seq<Value>) -> Seq<Seq<char>> {
    values.map_values(|v: Value| v.render())
}

/// The lines of one column: its metadata line, then its values.
pub open spec fn block_lines(c: ColumnView) -> Seq<Seq<char>> {
    seq![meta_line(c.name, c.kind.tag(), c.values.len())] + value_lines(c.values)
}

/// The lines of several columns, one block after the other.
pub open spec fn blocks_lines(cols: Seq<ColumnView>) -> Seq<Seq<char>>
    decreases cols.len(),
{
    if cols.len() == 0 {
        Seq::empty()
    } else {
        blocks_lines(cols.drop_last()) + block_lines(cols.last())
    }
}

/// All lines of the file of a table: the header, then the blocks.
pub open spec fn table_lines(cols: Seq<ColumnView>) -> Seq<Seq<char>> {
    seq![header()] + blocks_lines(cols)
}

/// The text made of `lines`, a line feed after each of them.
pub open spec fn unlines(lines: Seq<Seq<char>>) -> Seq<char>
    decreases lines.len(),
{
    if lines.len() == 0 {
        Seq::empty()
    } else {
        unlines(lines.drop_last()) + lines.last().push('\n')
    }
}

/// The value is a text that holds a line feed, which no line can carry.
pub open spec fn breaks_line(v: Value) -> bool {
    v matches Value::Text(s) && has_char(s, '\n')
}

/// Row `row` of column `col` is the first value, in file order, that holds
/// a line feed.
pub open spec fn first_line_break(cols: Seq<ColumnView>, col: int, row: int) -> bool {
    &&& 0 <= col < cols.len()
    &&& 0 <= row < cols[col].values.len()
    &&& breaks_line(cols[col].values[row])
    &&& forall|j: int| 0 <= j < row ==> !breaks_line(#[trigger] cols[col].values[j])
    &&& forall|i: int, j: int|
        0 <= i < col && 0 <= j < cols[i].values.len() ==> !breaks_line(
            #[trigger] cols[i].values[j],
        )
}

/// All columns have as many values as the first.
pub open spec fn equal_lengths(cols: Seq<ColumnView>) -> bool {
    forall|i: int| 0 <= i < cols.len() ==> (#[trigger] cols[i]).values.len() == cols[0].values.len()
}

/// Column `col` is the first that has not as many values as the first
/// column.
pub open spec fn first_unequal(cols: Seq<ColumnView>, col: int) -> bool {
    &&& 0 <= col < cols.len()
    &&& cols[col].values.len() != cols[0].values.len()
    &&& forall|i: int| 0 <= i < col ==> (#[trigger] cols[i]).values.len() == cols[0].values.len()
}

/// The columns can be written: there is at least one, all have the same
/// number of values, and no value holds a line feed.
pub open spec fn encodable(cols: Seq<ColumnView>) -> bool {
    &&& cols.len() > 0
    &&& equal_lengths(cols)
    &&& forall|i: int, j: int|
        0 <= i < cols.len() && 0 <= j < cols[i].values.len() ==> !breaks_line(
            #[trigger] cols[i].values[j],
        )
}

/// The text of the file of a table.
pub open spec fn encoded(cols: Seq<ColumnView>) -> Seq<char> {
    unlines(table_lines(cols))
}

/// The bytes of the file of a table.
pub open spec fn encoded_bytes(cols: Seq<ColumnView>) -> Seq<u8> {
    encode_utf8(encoded(cols))
}

/// `s` without the one space that the writer puts before a value; `s`
/// itself where it opens with no space.
pub open spec fn after_space(s: Seq<char>) -> Seq<char> {
    if s.len() > 0 && s[0] == ' ' {
        s.skip(1)
    } else {
        s
    }
}

/// What a metadata line declares: a name, a type tag and a number of values.
///
/// The line must have three segments between semicolons, and each segment
/// two parts around a colon. The second part holds the value. The name is
/// all of it but the one space after the colon: a name may hold spaces, and
/// they are kept. In the type and in the count spaces do not count. The
/// type must be one of the three tags `String`, `i32` and `f32`. The labels
/// are not looked at. The segments are examined in the order count, type,
/// name, and the first fault found is the one reported.
pub open spec fn metadata(line: Seq<char>, number: int) -> Result<
    (Seq<char>, Seq<char>, i32),
    ReadErrorView,
> {
    let segments = split(line, ';');
    if segments.len() != 3 {
        Err(
            ReadErrorView::InvalidFieldMeta {
                line: number,
                text: line,
                fault: MetaFault::Segments(segments.len() as usize),
            },
        )
    } else {
        let name = split(segments[0], ':');
        let tag = split(segments[1], ':');
        let count = split(segments[2], ':');
        if count.len() != 2 {
            Err(
                ReadErrorView::InvalidFieldMeta {
                    line: number,
                    text: line,
                    fault: MetaFault::ElementCount,
                },
            )
        } else {
            match parse_i32(without(count[1], ' ')) {
                None => Err(ReadErrorView::FieldParseError { line: number, field: count_field() }),
                Some(n) => if tag.len() != 2 {
                    Err(
                        ReadErrorView::InvalidFieldMeta {
                            line: number,
                            text: line,
                            fault: MetaFault::Type,
                        },
                    )
                } else if Kind::of_tag(without(tag[1], ' ')) is None {
                    Err(
                        ReadErrorView::InvalidFieldMeta {
                            line: number,
                            text: line,
                            fault: MetaFault::UnknownType,
                        },
                    )
                } else if name.len() != 2 {
                    Err(
                        ReadErrorView::InvalidFieldMeta {
                            line: number,
                            text: line,
                            fault: MetaFault::Name,
                        },
                    )
                } else {
                    Ok((after_space(name[1]), without(tag[1], ' '), n))
                },
            }
        }
    }
}

/// The values that the `count` lines from line `from` on stand for, read as
/// values of kind `kind`. The first line that is no such value fails the
/// block, with its number and the column's name.
pub open spec fn block_values(
    lines: Seq<Seq<char>>,
    from: int,
    count: int,
    kind: Kind,
    name: Seq<char>,
) -> Result<Seq<Value>, ReadErrorView>
    decreases count,
{
    if count <= 0 {
        Ok(Seq::empty())
    } else {
        match block_values(lines, from, count - 1, kind, name) {
            Err(e) => Err(e),
            Ok(values) => match Value::parse(kind, lines[from + count - 1]) {
                None => Err(ReadErrorView::FieldParseError { line: from + count - 1, field: name }),
                Some(v) => Ok(values.push(v)),
            },
        }
    }
}

/// The kind that the type tag of a metadata line stands for. A metadata
/// line that was read has one of the three tags; see [`lemma_metadata_tag`].
pub open spec fn tag_kind(tag: Seq<char>) -> Kind
    recommends
        Kind::of_tag(tag) is Some,
{
    Kind::of_tag(tag).unwrap()
}

/// The type tag that a metadata line declares is one of the three: it
/// stands for a kind, and it is that kind's tag.
pub proof fn lemma_metadata_tag(line: Seq<char>, number: int)
    ensures
        metadata(line, number) matches Ok((_, tag, _)) ==> Kind::of_tag(tag) is Some && tag_kind(
            tag,
        ).tag() == tag,
{
}

/// A block of `count` values that starts at line `at` has the size that the
/// file allows: the count is not negative and the lines of the block are
/// all there.
pub open spec fn fits(lines: Seq<Seq<char>>, at: int, count: int) -> bool {
    0 <= count && at + 1 + count <= lines.len()
}

/// A column of `count` values has as many values as the columns read so
/// far.
pub open spec fn agrees(found: Seq<ColumnView>, count: int) -> bool {
    found.len() > 0 ==> found[0].values.len() == count
}

/// The columns that the blocks from line `at` on add to `found`.
///
/// Reading ends at the end of the lines or at an empty line in the place of
/// a metadata line. Every block has its own number of values, which must
/// not be negative, and all its lines must be there. A block whose name is
/// not among `select` is stepped over: its values are not read and their
/// number is not held against anything. A block whose name is among
/// `select` must have as many values as the columns read so far; its values
/// are then read. A column read twice replaces the one read before.
pub open spec fn decode_blocks(
    lines: Seq<Seq<char>>,
    at: int,
    select: Seq<Seq<char>>,
    found: Seq<ColumnView>,
) -> Result<Seq<ColumnView>, ReadErrorView>
    decreases lines.len() - at,
{
    if at < 0 || at >= lines.len() || lines[at].len() == 0 {
        Ok(found)
    } else {
        match metadata(lines[at], at) {
            Err(e) => Err(e),
            Ok((name, tag, count)) => {
                if !fits(lines, at, count as int) {
                    Err(ReadErrorView::InvalidFileSize)
                } else if !select.contains(name) {
                    decode_blocks(lines, at + 1 + count, select, found)
                } else if !agrees(found, count as int) {
                    Err(ReadErrorView::InvalidFileSize)
                } else {
                    let kind = tag_kind(tag);
                    match block_values(lines, at + 1, count as int, kind, name) {
                        Err(e) => Err(e),
                        Ok(values) => decode_blocks(
                            lines,
                            at + 1 + count,
                            select,
                            upsert(found, ColumnView { name, kind, values }),
                        ),
                    }
                }
            },
        }
    }
}

/// The lines of a text: its pieces between line feeds. What follows the
/// last line feed is a line only if it is not empty, so that a text may end
/// with a line feed or without one.
pub open spec fn lines_of(text: Seq<char>) -> Seq<Seq<char>> {
    let pieces = split(text, '\n');
    if pieces.last().len() == 0 {
        pieces.drop_last()
    } else {
        pieces
    }
}

/// The text opens with the header line and its line feed.
pub open spec fn has_header(text: Seq<char>) -> bool {
    split(text, '\n').len() >= 2 && split(text, '\n')[0] == header()
}

/// The columns among `select` that the text of a file holds. The text must
/// open with the header line and its line feed.
pub open spec fn decode_text(text: Seq<char>, select: Seq<Seq<char>>) -> Result<
    Seq<ColumnView>,
    ReadErrorView,
> {
    if has_header(text) {
        decode_blocks(lines_of(text), 1, select, Seq::empty())
    } else {
        Err(ReadErrorView::MalformedFile)
    }
}

/// The columns among `select` that the bytes of a file hold. The bytes must
/// be well-formed UTF-8.
pub open spec fn decode(bytes: Seq<u8>, select: Seq<Seq<char>>) -> Result<
    Seq<ColumnView>,
    ReadErrorView,
> {
    if valid_utf8(bytes) {
        decode_text(decode_utf8(bytes), select)
    } else {
        Err(ReadErrorView::StdIoError(utf8_message()))
    }
}

/// Putting lines one after the other puts their texts one after the other.
pub proof fn lemma_unlines_add(a: Seq<Seq<char>>, b: Seq<Seq<char>>)
    ensures
        unlines(a + b) == unlines(a) + unlines(b),
    decreases b.len(),
{
    if b.len() == 0 {
        assert(a + b =~= a);
        assert(unlines(a) + unlines(b) =~= unlines(a));
    } else {
        lemma_unlines_add(a, b.drop_last());
        assert((a + b).drop_last() =~= a + b.drop_last());
        assert((a + b).last() == b.last());
        assert(unlines(a + b) =~= unlines(a) + unlines(b));
    }
}

/// The text of a single line.
pub proof fn lemma_unlines_one(line: Seq<char>)
    ensures
        unlines(seq![line]) == line.push('\n'),
{
    let l = seq![line];
    assert(l.drop_last() =~= Seq::<Seq<char>>::empty());
    assert(unlines(l.drop_last()) =~= Seq::<char>::empty());
    assert(unlines(l) =~= line.push('\n'));
}

/// **Corrupted metadata.** A metadata line that has not three segments
/// fails with the fault of its segments, and one whose element count is no
/// 32-bit number fails to parse; either error names the line.
pub proof fn lemma_corrupt_metadata(line: Seq<char>, number: int)
    ensures
        split(line, ';').len() != 3 ==> metadata(line, number) == Err::<
            (Seq<char>, Seq<char>, i32),
            ReadErrorView,
        >(
            ReadErrorView::InvalidFieldMeta {
                line: number,
                text: line,
                fault: MetaFault::Segments(split(line, ';').len() as usize),
            },
        ),
        split(line, ';').len() == 3 && split(split(line, ';')[2], ':').len() == 2 && parse_i32(
            without(split(split(line, ';')[2], ':')[1], ' '),
        ) is None ==> metadata(line, number) == Err::<(Seq<char>, Seq<char>, i32), ReadErrorView>(
            ReadErrorView::FieldParseError { line: number, field: count_field() },
        ),
{
}

/// A faulty metadata line fails the whole read with its own error, whatever
/// was read before it.
pub proof fn lemma_corrupt_block(
    lines: Seq<Seq<char>>,
    at: int,
    select: Seq<Seq<char>>,
    found: Seq<ColumnView>,
)
    requires
        0 <= at < lines.len(),
        lines[at].len() > 0,
        metadata(lines[at], at) is Err,
    ensures
        decode_blocks(lines, at, select, found) == Err::<Seq<ColumnView>, ReadErrorView>(
            metadata(lines[at], at)->Err_0,
        ),
{
}

/// **Blocks that are not asked for are stepped over.** A block whose name
/// is not among `select` adds nothing and fails nothing, whatever its values
/// are and however many it has, as long as its lines are there: reading
/// goes on behind it with the same columns in hand.
pub proof fn lemma_skipped_block(
    lines: Seq<Seq<char>>,
    at: int,
    select: Seq<Seq<char>>,
    found: Seq<ColumnView>,
)
    requires
        0 <= at < lines.len(),
        lines[at].len() > 0,
        metadata(lines[at], at) is Ok,
        !select.contains(metadata(lines[at], at)->Ok_0.0),
        fits(lines, at, metadata(lines[at], at)->Ok_0.2 as int),
    ensures
        decode_blocks(lines, at, select, found) == decode_blocks(
            lines,
            at + 1 + metadata(lines[at], at)->Ok_0.2,
            select,
            found,
        ),
{
}

/// Every column's name is among `select`.
pub open spec fn all_selected(cols: Seq<ColumnView>, select: Seq<Seq<char>>) -> bool {
    forall|i: int| 0 <= i < cols.len() ==> select.contains((#[trigger] cols[i]).name)
}

/// The columns are what a read may give: their names are distinct and among
/// `select`, every value has its column's type, and all columns have the
/// same number of values.
pub open spec fn sound_columns(cols: Seq<ColumnView>, select: Seq<Seq<char>>) -> bool {
    &&& distinct_names(cols)
    &&& all_selected(cols, select)
    &&& equal_lengths(cols)
    &&& forall|i: int| 0 <= i < cols.len() ==> (#[trigger] cols[i]).well_formed()
}

/// The values read from a block are as many as the block has lines, and all
/// of the block's type.
pub proof fn lemma_block_values_typed(
    lines: Seq<Seq<char>>,
    from: int,
    count: int,
    kind: Kind,
    name: Seq<char>,
)
    ensures
        block_values(lines, from, count, kind, name) matches Ok(values) ==> {
            &&& values.len() == if count > 0 {
                count
            } else {
                0
            }
            &&& forall|j: int|
                0 <= j < values.len() ==> (#[trigger] values[j]).kind() == kind
                    && values[j].well_formed()
        },
    decreases count,
{
    if count > 0 {
        lemma_block_values_typed(lines, from, count - 1, kind, name);
    }
}

/// Putting a sound column among sound columns of its length leaves them
/// sound.
pub proof fn lemma_upsert_sound(found: Seq<ColumnView>, c: ColumnView, select: Seq<Seq<char>>)
    requires
        sound_columns(found, select),
        agrees(found, c.values.len() as int),
        select.contains(c.name),
        c.well_formed(),
    ensures
        sound_columns(upsert(found, c), select),
{
    lemma_position(found, c.name);
    let after = upsert(found, c);
    assert forall|a: int| 0 <= a < found.len() implies (#[trigger] found[a]).values.len()
        == c.values.len() by {
        assert(found[a].values.len() == found[0].values.len());
    }
    match position(found, c.name) {
        Some(i) => {
            assert forall|a: int, b: int| 0 <= a < b < after.len() implies (#[trigger] after[a]).name
                != (#[trigger] after[b]).name by {
                assert(after[a].name == found[a].name);
                assert(after[b].name == found[b].name);
            }
            assert forall|a: int| 0 <= a < after.len() implies select.contains(
                (#[trigger] after[a]).name,
            ) && after[a].well_formed() && after[a].values.len() == c.values.len() by {
                if a != i {
                    assert(after[a] == found[a]);
                }
            }
        },
        None => {
            assert forall|a: int, b: int| 0 <= a < b < after.len() implies (#[trigger] after[a]).name
                != (#[trigger] after[b]).name by {
                assert(after[a] == found[a]);
                if b < found.len() {
                    assert(after[b] == found[b]);
                }
            }
            assert forall|a: int| 0 <= a < after.len() implies select.contains(
                (#[trigger] after[a]).name,
            ) && after[a].well_formed() && after[a].values.len() == c.values.len() by {
                if a < found.len() {
                    assert(after[a] == found[a]);
                }
            }
        },
    }
    assert(equal_lengths(after)) by {
        assert forall|a: int| 0 <= a < after.len() implies (#[trigger] after[a]).values.len()
            == after[0].values.len() by {
            assert(after[0].values.len() == c.values.len());
        }
    }
}

/// Whatever the lines, the columns read from them are sound.
pub proof fn lemma_decode_blocks_sound(
    lines: Seq<Seq<char>>,
    at: int,
    select: Seq<Seq<char>>,
    found: Seq<ColumnView>,
)
    requires
        sound_columns(found, select),
    ensures
        decode_blocks(lines, at, select, found) matches Ok(cols) ==> sound_columns(cols, select),
    decreases lines.len() - at,
{
    if !(at < 0 || at >= lines.len() || lines[at].len() == 0) {
        match metadata(lines[at], at) {
            Err(_) => {},
            Ok((name, tag, count)) => {
                if fits(lines, at, count as int) {
                    if !select.contains(name) {
                        lemma_decode_blocks_sound(lines, at + 1 + count, select, found);
                    } else if agrees(found, count as int) {
                        let kind = tag_kind(tag);
                        lemma_block_values_typed(lines, at + 1, count as int, kind, name);
                        match block_values(lines, at + 1, count as int, kind, name) {
                            Err(_) => {},
                            Ok(values) => {
                                let c = ColumnView { name, kind, values };
                                lemma_upsert_sound(found, c, select);
                                lemma_decode_blocks_sound(
                                    lines,
                                    at + 1 + count,
                                    select,
                                    upsert(found, c),
                                );
                            },
                        }
                    }
                }
            },
        }
    }
}

/// **Projection.** Whatever the bytes, reading them for the columns
/// `select` gives no column but those: every column read has its name among
/// `select`, no name comes twice, every value has its column's type, and
/// all columns have the same number of values.
pub proof fn lemma_decode_sound(bytes: Seq<u8>, select: Seq<Seq<char>>)
    ensures
        decode(bytes, select) matches Ok(cols) ==> sound_columns(cols, select),
{
    if valid_utf8(bytes) {
        let lines = lines_of(decode_utf8(bytes));
        lemma_decode_blocks_sound(lines, 1, select, Seq::<ColumnView>::empty());
    }
}

} // verus!
