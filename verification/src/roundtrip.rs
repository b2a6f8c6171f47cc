//! What is written can be read back.
//!
//! The laws of this module relate the writer's side of the layout
//! ([`encoded`]) to the reader's side ([`decode_text`], [`decode`]): the file
//! of a table, read for some of its columns, gives exactly those columns, in
//! the order in which they were written and with every value as it was.
use vstd::prelude::*;
use vstd::utf8::*;
use crate::datatypes::{Kind, Value};
use crate::file_io::ReadErrorView;
use crate::layout::{
    after_space, agrees, block_lines, block_values, blocks_lines, breaks_line, count_label,
    decode, decode_blocks, decode_text, encoded, encoded_bytes, equal_lengths, fits, header,
    lines_of, meta_line, metadata, name_label, segment, table_lines, type_label, unlines,
};
use crate::numeric::{is_digit, lemma_parse_render_int, lemma_render_nat, parse_i32, render_nat};
use crate::table::{ColumnView, distinct_names, lemma_position, position, upsert};
use crate::text::{has_char, lemma_split_one, lemma_split_push_piece, split, without};

verus! {

/// A character is in a text made of two parts when it is in one of them.
pub proof fn lemma_has_char_add(a: Seq<char>, b: Seq<char>, c: char)
    ensures
        has_char(a + b, c) == (has_char(a, c) || has_char(b, c)),
{
    let ab = a + b;
    if has_char(a, c) {
        let i = choose|i: int| 0 <= i < a.len() && a[i] == c;
        assert(ab[i] == c);
    }
    if has_char(b, c) {
        let i = choose|i: int| 0 <= i < b.len() && b[i] == c;
        assert(ab[a.len() + i] == c);
    }
    if has_char(ab, c) {
        let i = choose|i: int| 0 <= i < ab.len() && ab[i] == c;
        if i < a.len() {
            assert(a[i] == c);
        } else {
            assert(b[i - a.len()] == c);
        }
    }
}

/// A character is in a text with one more character when it is that
/// character or in the text.
pub proof fn lemma_has_char_push(a: Seq<char>, x: char, c: char)
    ensures
        has_char(a.push(x), c) == (has_char(a, c) || x == c),
{
    assert(a.push(x) =~= a + seq![x]);
    lemma_has_char_add(a, seq![x], c);
    if x == c {
        assert(seq![x][0] == c);
    }
}

/// Taking a character out of a text that does not hold it changes nothing.
pub proof fn lemma_without_absent(s: Seq<char>, c: char)
    requires
        !has_char(s, c),
    ensures
        without(s, c) == s,
    decreases s.len(),
{
    if s.len() > 0 {
        let front = s.drop_last();
        assert(!has_char(front, c)) by {
            if has_char(front, c) {
                let i = choose|i: int| 0 <= i < front.len() && front[i] == c;
                assert(s[i] == c);
            }
        }
        lemma_without_absent(front, c);
        assert(s[s.len() - 1] != c);
        assert(front.push(s.last()) =~= s);
    }
}

/// Taking a character out of a text made of two parts takes it out of each.
pub proof fn lemma_without_add(a: Seq<char>, b: Seq<char>, c: char)
    ensures
        without(a + b, c) == without(a, c) + without(b, c),
    decreases b.len(),
{
    if b.len() == 0 {
        assert(a + b =~= a);
        assert(without(a, c) + without(b, c) =~= without(a, c));
    } else {
        lemma_without_add(a, b.drop_last(), c);
        assert((a + b).drop_last() =~= a + b.drop_last());
        assert((a + b).last() == b.last());
        assert(without(a + b, c) =~= without(a, c) + without(b, c));
    }
}

/// No line holds a line feed.
pub open spec fn all_one_line(lines: Seq<Seq<char>>) -> bool {
    forall|k: int| 0 <= k < lines.len() ==> !has_char(#[trigger] lines[k], '\n')
}

/// The text of lines without line feeds splits into those lines, and one
/// empty piece after the last line feed.
pub proof fn lemma_split_unlines(lines: Seq<Seq<char>>)
    requires
        all_one_line(lines),
    ensures
        split(unlines(lines), '\n') == lines.push(Seq::<char>::empty()),
    decreases lines.len(),
{
    if lines.len() == 0 {
        assert(split(unlines(lines), '\n') =~= lines.push(Seq::<char>::empty()));
    } else {
        let front = lines.drop_last();
        let line = lines.last();
        assert(all_one_line(front)) by {
            assert forall|k: int| 0 <= k < front.len() implies !has_char(
                #[trigger] front[k],
                '\n',
            ) by {
                assert(front[k] == lines[k]);
            }
        }
        lemma_split_unlines(front);
        let text = unlines(front);
        let whole = unlines(lines);
        assert(whole == text + line.push('\n'));
        assert(whole.drop_last() =~= text + line);
        assert(whole.last() == '\n');
        assert(!has_char(line, '\n')) by {
            assert(lines[lines.len() - 1] == line);
        }
        if front.len() == 0 {
            assert(text =~= Seq::<char>::empty());
            assert(text + line =~= line);
            lemma_split_one(line, '\n');
            assert(split(whole, '\n') =~= lines.push(Seq::<char>::empty()));
        } else {
            let before = text.drop_last();
            assert(text.len() > 0 && text.last() == '\n') by {
                assert(text == unlines(front.drop_last()) + front.last().push('\n'));
            }
            assert(text =~= before.push('\n'));
            assert(split(text, '\n') == split(before, '\n').push(Seq::<char>::empty()));
            assert(split(before, '\n') =~= front) by {
                assert(split(text, '\n').drop_last() =~= split(before, '\n'));
                assert(front.push(Seq::<char>::empty()).drop_last() =~= front);
            }
            lemma_split_push_piece(before, line, '\n');
            assert(text + line =~= before.push('\n') + line);
            assert(split(whole, '\n') =~= lines.push(Seq::<char>::empty()));
        }
    }
}

/// The labels of a metadata line hold none of the characters that the
/// layout gives a meaning to.
pub proof fn lemma_labels()
    ensures
        !has_char(name_label(), ';') && !has_char(name_label(), ':') && !has_char(
            name_label(),
            '\n',
        ),
        !has_char(type_label(), ';') && !has_char(type_label(), ':') && !has_char(
            type_label(),
            '\n',
        ),
        !has_char(count_label(), ';') && !has_char(count_label(), ':') && !has_char(
            count_label(),
            '\n',
        ),
        !has_char(header(), '\n'),
        header().len() > 0,
{
    reveal_strlit("Field name");
    reveal_strlit(" Type");
    reveal_strlit(" Number of elements");
    reveal_strlit("TABLE COLUMNAR FORMAT HEADER");
}

/// The text holds none of the characters that a metadata line gives a
/// meaning to: semicolon, colon and line feed. It may hold spaces.
pub open spec fn portable(s: Seq<char>) -> bool {
    !has_char(s, ';') && !has_char(s, ':') && !has_char(s, '\n')
}

/// A type tag is portable and holds no space.
pub proof fn lemma_tag_portable(kind: Kind)
    ensures
        portable(kind.tag()),
        !has_char(kind.tag(), ' '),
{
    let tag = kind.tag();
    assert forall|c: char| c == ' ' || c == ';' || c == ':' || c == '\n' implies !has_char(
        tag,
        c,
    ) by {
        if has_char(tag, c) {
            let i = choose|i: int| 0 <= i < tag.len() && tag[i] == c;
            assert(tag[i] == c);
        }
    }
}

/// The decimal text of a natural number is portable and holds no space.
pub proof fn lemma_digits_portable(n: nat)
    ensures
        portable(render_nat(n)),
        !has_char(render_nat(n), ' '),
{
    let d = render_nat(n);
    lemma_render_nat(n);
    assert forall|c: char| c == ' ' || c == ';' || c == ':' || c == '\n' implies !has_char(d, c) by {
        if has_char(d, c) {
            let i = choose|i: int| 0 <= i < d.len() && d[i] == c;
            assert(is_digit(d[i]));
        }
    }
}

/// A segment with a portable value has no semicolon and no line feed, and
/// splits at its colon into its label and its value after a space. The
/// value comes back when that one space is dropped, whatever spaces the
/// value holds; it comes back when all spaces are taken out if it holds
/// none.
pub proof fn lemma_segment(label: Seq<char>, value: Seq<char>)
    requires
        !has_char(label, ';'),
        !has_char(label, ':'),
        !has_char(label, '\n'),
        portable(value),
    ensures
        !has_char(segment(label, value), ';'),
        !has_char(segment(label, value), '\n'),
        split(segment(label, value), ':') == seq![label, seq![' '] + value],
        after_space(seq![' '] + value) == value,
        !has_char(value, ' ') ==> without(seq![' '] + value, ' ') == value,
{
    let tail = seq![' '] + value;
    let whole = segment(label, value);
    assert(whole =~= label.push(':') + tail);
    lemma_has_char_add(seq![' '], value, ';');
    lemma_has_char_add(seq![' '], value, ':');
    lemma_has_char_add(seq![' '], value, '\n');
    assert forall|c: char| c != ' ' implies !has_char(seq![' '], c) by {
        if has_char(seq![' '], c) {
            let i = choose|i: int| 0 <= i < seq![' '].len() && seq![' '][i] == c;
            assert(seq![' '][i] == ' ');
        }
    }
    lemma_has_char_push(label, ':', ';');
    lemma_has_char_push(label, ':', '\n');
    lemma_has_char_add(label.push(':'), tail, ';');
    lemma_has_char_add(label.push(':'), tail, '\n');
    lemma_split_one(label, ':');
    lemma_split_push_piece(label, tail, ':');
    assert(split(whole, ':') =~= seq![label, tail]);
    assert(tail[0] == ' ');
    assert(tail.skip(1) =~= value);
    if !has_char(value, ' ') {
        lemma_without_add(seq![' '], value, ' ');
        lemma_without_absent(value, ' ');
        assert(seq![' '].drop_last() =~= Seq::<char>::empty());
        assert(without(seq![' '].drop_last(), ' ') =~= Seq::<char>::empty());
        assert(without(seq![' '], ' ') =~= Seq::<char>::empty());
        assert(without(tail, ' ') =~= value);
    }
}

/// The metadata line of a column reads as what it was written from.
pub proof fn lemma_metadata(name: Seq<char>, kind: Kind, count: nat, number: int)
    requires
        portable(name),
        count <= i32::MAX,
    ensures
        metadata(meta_line(name, kind.tag(), count), number) == Ok::<
            (Seq<char>, Seq<char>, i32),
            ReadErrorView,
        >((name, kind.tag(), count as i32)),
        !has_char(meta_line(name, kind.tag(), count), '\n'),
        meta_line(name, kind.tag(), count).len() > 0,
{
    let tag = kind.tag();
    let digits = render_nat(count);
    let first = segment(name_label(), name);
    let second = segment(type_label(), tag);
    let third = segment(count_label(), digits);
    let line = meta_line(name, tag, count);
    lemma_labels();
    lemma_tag_portable(kind);
    lemma_digits_portable(count);
    lemma_segment(name_label(), name);
    lemma_segment(type_label(), tag);
    lemma_segment(count_label(), digits);
    assert(line == (first.push(';') + second).push(';') + third);
    lemma_split_one(first, ';');
    lemma_split_push_piece(first, second, ';');
    lemma_split_push_piece(first.push(';') + second, third, ';');
    let segments = split(line, ';');
    assert(segments =~= seq![first, second, third]);
    assert(segments[0] == first && segments[1] == second && segments[2] == third);
    lemma_parse_render_int(count as int);
    assert(parse_i32(digits) == Some(count as i32));
    lemma_has_char_push(first, ';', '\n');
    lemma_has_char_add(first.push(';'), second, '\n');
    lemma_has_char_push(first.push(';') + second, ';', '\n');
    lemma_has_char_add((first.push(';') + second).push(';'), third, '\n');
}

/// Lines that were written from values read as those values.
pub proof fn lemma_block_values(
    lines: Seq<Seq<char>>,
    from: int,
    values: Seq<Value>,
    kind: Kind,
    name: Seq<char>,
)
    requires
        0 <= from,
        from + values.len() <= lines.len(),
        forall|j: int| 0 <= j < values.len() ==> lines[from + j] == (#[trigger] values[j]).render(),
        forall|j: int|
            0 <= j < values.len() ==> (#[trigger] values[j]).kind() == kind
                && values[j].well_formed(),
    ensures
        block_values(lines, from, values.len() as int, kind, name) == Ok::<
            Seq<Value>,
            ReadErrorView,
        >(values),
    decreases values.len(),
{
    if values.len() == 0 {
        assert(values =~= Seq::<Value>::empty());
    } else {
        let front = values.drop_last();
        let last = values.last();
        assert forall|j: int| 0 <= j < front.len() implies lines[from + j] == (
        #[trigger] front[j]).render() by {
            assert(front[j] == values[j]);
        }
        assert forall|j: int| 0 <= j < front.len() implies (#[trigger] front[j]).kind() == kind
            && front[j].well_formed() by {
            assert(front[j] == values[j]);
        }
        lemma_block_values(lines, from, front, kind, name);
        assert(values[values.len() - 1] == last);
        last.lemma_parse_render();
        assert(front.push(last) =~= values);
    }
}

/// The columns of `cols` whose names are among `select`, in their order.
pub open spec fn projection(cols: Seq<ColumnView>, select: Seq<Seq<char>>) -> Seq<ColumnView>
    decreases cols.len(),
{
    if cols.len() == 0 {
        Seq::empty()
    } else {
        let front = projection(cols.drop_last(), select);
        if select.contains(cols.last().name) {
            front.push(cols.last())
        } else {
            front
        }
    }
}

/// Every column of a projection is one of the columns projected, and its
/// name is among those selected.
pub proof fn lemma_projection_from(cols: Seq<ColumnView>, select: Seq<Seq<char>>)
    ensures
        forall|i: int|
            0 <= i < projection(cols, select).len() ==> select.contains(
                (#[trigger] projection(cols, select)[i]).name,
            ) && exists|j: int| 0 <= j < cols.len() && cols[j] == projection(cols, select)[i],
    decreases cols.len(),
{
    if cols.len() > 0 {
        let front = cols.drop_last();
        lemma_projection_from(front, select);
        let p = projection(cols, select);
        assert forall|i: int| 0 <= i < p.len() implies select.contains((#[trigger] p[i]).name)
            && exists|j: int| 0 <= j < cols.len() && cols[j] == p[i] by {
            if i < projection(front, select).len() {
                assert(p[i] == projection(front, select)[i]);
                let j = choose|j: int| 0 <= j < front.len() && front[j] == projection(
                    front,
                    select,
                )[i];
                assert(cols[j] == p[i]);
            } else {
                assert(p[i] == cols.last());
                assert(cols[cols.len() - 1] == p[i]);
            }
        }
    }
}

/// Selecting every name keeps every column.
pub proof fn lemma_projection_all(cols: Seq<ColumnView>, select: Seq<Seq<char>>)
    requires
        forall|i: int| 0 <= i < cols.len() ==> select.contains((#[trigger] cols[i]).name),
    ensures
        projection(cols, select) == cols,
    decreases cols.len(),
{
    if cols.len() > 0 {
        let front = cols.drop_last();
        assert forall|i: int| 0 <= i < front.len() implies select.contains(
            (#[trigger] front[i]).name,
        ) by {
            assert(front[i] == cols[i]);
        }
        lemma_projection_all(front, select);
        assert(cols[cols.len() - 1] == cols.last());
        assert(front.push(cols.last()) =~= cols);
    } else {
        assert(cols =~= Seq::<ColumnView>::empty());
    }
}

/// The block of the column can be written and read back: the name is
/// portable, there are no more values than a 32-bit count can say, every
/// value has the column's type, and no text holds a line feed.
pub open spec fn block_fits(c: ColumnView) -> bool {
    &&& portable(c.name)
    &&& c.well_formed()
    &&& c.values.len() <= i32::MAX
    &&& forall|j: int| 0 <= j < c.values.len() ==> !breaks_line(#[trigger] c.values[j])
}

/// The block of every column can be written and read back.
pub open spec fn blocks_fit(cols: Seq<ColumnView>) -> bool {
    forall|i: int| 0 <= i < cols.len() ==> block_fits(#[trigger] cols[i])
}

/// The block of the column can be stepped over: the name is portable,
/// there are no more values than a 32-bit count can say, and every value is
/// written on one line. What the values are does not matter: they need not
/// be of the column's type.
pub open spec fn block_skips(c: ColumnView) -> bool {
    &&& portable(c.name)
    &&& c.values.len() <= i32::MAX
    &&& forall|j: int| 0 <= j < c.values.len() ==> (#[trigger] c.values[j]).one_line()
}

/// A block that can be read back can be stepped over.
pub proof fn lemma_fits_skips(c: ColumnView)
    requires
        block_fits(c),
    ensures
        block_skips(c),
{
    assert forall|j: int| 0 <= j < c.values.len() implies (#[trigger] c.values[j]).one_line() by {
        let v = c.values[j];
        assert(!breaks_line(v));
        v.lemma_one_line();
    }
}

/// The columns whose names are among `select` all have the same number of
/// values.
pub open spec fn selected_agree(cols: Seq<ColumnView>, select: Seq<Seq<char>>) -> bool {
    forall|i: int, j: int|
        0 <= i < cols.len() && 0 <= j < cols.len() && select.contains((#[trigger] cols[i]).name)
            && select.contains((#[trigger] cols[j]).name) ==> cols[i].values.len()
            == cols[j].values.len()
}

/// The file of the columns can be read for `select`: the names are
/// distinct; the block of a column that is asked for can be read back; the
/// block of any other column can be stepped over; and the columns that are
/// asked for have the same number of values. The columns that are not asked
/// for may have any number of values, of any type.
pub open spec fn readable(cols: Seq<ColumnView>, select: Seq<Seq<char>>) -> bool {
    &&& distinct_names(cols)
    &&& forall|i: int|
        0 <= i < cols.len() ==> if select.contains((#[trigger] cols[i]).name) {
            block_fits(cols[i])
        } else {
            block_skips(cols[i])
        }
    &&& selected_agree(cols, select)
}

/// The block of every column can at least be stepped over.
pub open spec fn blocks_skip(cols: Seq<ColumnView>) -> bool {
    forall|i: int| 0 <= i < cols.len() ==> block_skips(#[trigger] cols[i])
}

/// The columns can be written and read back, whatever is asked for: their
/// names are distinct and portable, all have the same number of values and
/// no more than a 32-bit count can say, every value has its column's type,
/// and no text holds a line feed.
pub open spec fn storable(cols: Seq<ColumnView>) -> bool {
    &&& distinct_names(cols)
    &&& equal_lengths(cols)
    &&& blocks_fit(cols)
}

/// Columns that can be written and read back can be read for any
/// selection.
pub proof fn lemma_storable_readable(cols: Seq<ColumnView>, select: Seq<Seq<char>>)
    requires
        storable(cols),
    ensures
        readable(cols, select),
{
    assert forall|i: int| 0 <= i < cols.len() implies block_skips(#[trigger] cols[i]) by {
        lemma_fits_skips(cols[i]);
    }
    assert forall|i: int, j: int|
        0 <= i < cols.len() && 0 <= j < cols.len() && select.contains((#[trigger] cols[i]).name)
            && select.contains((#[trigger] cols[j]).name) implies cols[i].values.len()
        == cols[j].values.len() by {
        assert(cols[i].values.len() == cols[0].values.len());
        assert(cols[j].values.len() == cols[0].values.len());
    }
}

/// In a file that can be read, every block can at least be stepped over.
pub proof fn lemma_readable_skips(cols: Seq<ColumnView>, select: Seq<Seq<char>>)
    requires
        readable(cols, select),
    ensures
        blocks_skip(cols),
{
    assert forall|i: int| 0 <= i < cols.len() implies block_skips(#[trigger] cols[i]) by {
        if select.contains(cols[i].name) {
            lemma_fits_skips(cols[i]);
        }
    }
}

/// The lines of a block that can be stepped over hold no line feed.
pub proof fn lemma_block_one_line(c: ColumnView)
    requires
        block_skips(c),
    ensures
        all_one_line(block_lines(c)),
        block_lines(c).len() == 1 + c.values.len(),
        block_lines(c)[0] == meta_line(c.name, c.kind.tag(), c.values.len()),
        forall|j: int| 0 <= j < c.values.len() ==> block_lines(c)[1 + j] == (#[trigger] c.values[j]).render(),
{
    let lines = block_lines(c);
    lemma_metadata(c.name, c.kind, c.values.len(), 0);
    assert forall|k: int| 0 <= k < lines.len() implies !has_char(#[trigger] lines[k], '\n') by {
        if k > 0 {
            let v = c.values[k - 1];
            assert(lines[k] == v.render());
            assert(v.one_line());
        }
    }
}

/// The lines of blocks that can be stepped over hold no line feed.
pub proof fn lemma_blocks_one_line(cols: Seq<ColumnView>)
    requires
        blocks_skip(cols),
    ensures
        all_one_line(blocks_lines(cols)),
    decreases cols.len(),
{
    if cols.len() > 0 {
        let front = cols.drop_last();
        assert(blocks_skip(front)) by {
            assert forall|i: int| 0 <= i < front.len() implies block_skips(#[trigger] front[i]) by {
                assert(front[i] == cols[i]);
            }
        }
        lemma_blocks_one_line(front);
        assert(cols[cols.len() - 1] == cols.last());
        lemma_block_one_line(cols.last());
        let all = blocks_lines(cols);
        assert forall|k: int| 0 <= k < all.len() implies !has_char(#[trigger] all[k], '\n') by {
            if k < blocks_lines(front).len() {
                assert(all[k] == blocks_lines(front)[k]);
            } else {
                assert(all[k] == block_lines(cols.last())[k - blocks_lines(front).len()]);
            }
        }
    }
}

/// The lines of the first blocks of a table are the first lines of all its
/// blocks.
pub proof fn lemma_blocks_prefix(cols: Seq<ColumnView>, k: int)
    requires
        0 <= k <= cols.len(),
    ensures
        blocks_lines(cols.take(k)).len() <= blocks_lines(cols).len(),
        forall|i: int|
            0 <= i < blocks_lines(cols.take(k)).len() ==> #[trigger] blocks_lines(cols)[i]
                == blocks_lines(cols.take(k))[i],
    decreases cols.len() - k,
{
    if k < cols.len() {
        lemma_blocks_prefix(cols, k + 1);
        assert(cols.take(k + 1).drop_last() =~= cols.take(k));
    } else {
        assert(cols.take(k) =~= cols);
    }
}

/// The lines that the text of a table is read as: the lines of the table.
pub open spec fn file_lines(cols: Seq<ColumnView>) -> Seq<Seq<char>> {
    table_lines(cols)
}

/// The line at which block `k` of a table starts.
pub open spec fn block_start(cols: Seq<ColumnView>, k: int) -> int {
    1 + blocks_lines(cols.take(k)).len() as int
}

/// Reading a written table from block `k` on, with the selected columns of
/// the blocks before it in hand, gives the selected columns of the table.
pub proof fn lemma_decode_from(cols: Seq<ColumnView>, select: Seq<Seq<char>>, k: int)
    requires
        readable(cols, select),
        0 <= k <= cols.len(),
    ensures
        decode_blocks(
            file_lines(cols),
            block_start(cols, k),
            select,
            projection(cols.take(k), select),
        ) == Ok::<Seq<ColumnView>, ReadErrorView>(projection(cols, select)),
    decreases cols.len() - k,
{
    let lines = file_lines(cols);
    let at = block_start(cols, k);
    let found = projection(cols.take(k), select);
    lemma_blocks_prefix(cols, k);
    if k == cols.len() {
        assert(cols.take(k) =~= cols);
        assert(at == lines.len());
    } else {
        let c = cols[k];
        let next = cols.take(k + 1);
        let count = c.values.len();
        lemma_blocks_prefix(cols, k + 1);
        assert(next.drop_last() =~= cols.take(k));
        assert(next.last() == c);
        assert(blocks_lines(next) == blocks_lines(cols.take(k)) + block_lines(c));
        lemma_readable_skips(cols, select);
        lemma_block_one_line(c);
        assert(block_start(cols, k + 1) == at + 1 + count);
        assert forall|i: int| 0 <= i < 1 + count implies lines[at + i] == block_lines(c)[i] by {
            assert(lines[at + i] == blocks_lines(cols)[at - 1 + i]);
            assert(blocks_lines(cols)[at - 1 + i] == blocks_lines(next)[at - 1 + i]);
        }
        assert(lines[at] == block_lines(c)[0]);
        lemma_metadata(c.name, c.kind, count, at);
        c.kind.lemma_of_tag();
        assert forall|j: int| 0 <= j < count implies lines[at + 1 + j] == (#[trigger] c.values[j]).render() by {
            assert(lines[at + (1 + j)] == block_lines(c)[1 + j]);
        }
        assert(fits(lines, at, count as int));
        lemma_decode_from(cols, select, k + 1);
        if select.contains(c.name) {
            assert(block_fits(c));
            lemma_block_values(lines, at + 1, c.values, c.kind, c.name);
            let read = ColumnView { name: c.name, kind: c.kind, values: c.values };
            assert(read == c);
            lemma_projection_from(cols.take(k), select);
            assert(agrees(found, count as int)) by {
                if found.len() > 0 {
                    let j = choose|j: int| 0 <= j < cols.take(k).len() && cols.take(k)[j] == found[0];
                    assert(cols[j] == found[0]);
                    assert(select.contains(cols[j].name) && select.contains(cols[k].name));
                }
            }
            lemma_position(found, c.name);
            assert(position(found, c.name) is None) by {
                if position(found, c.name) is Some {
                    let i = position(found, c.name).unwrap();
                    let j = choose|j: int| 0 <= j < cols.take(k).len() && cols.take(k)[j] == found[i];
                    assert(cols[j].name == cols[k].name);
                }
            }
            assert(upsert(found, c) == found.push(c));
            assert(projection(next, select) == found.push(c));
        } else {
            assert(projection(next, select) == found);
        }
    }
}

/// **Reading back.** The file of columns with distinct names, read for the
/// columns `select`, gives exactly the columns whose names are among
/// `select`: in the order in which they stand in the file, each with its
/// type and every value as it was. The columns that are not asked for are
/// stepped over, however many values each has; only those asked for must
/// agree in their number of values. The same holds of the bytes of the
/// text.
pub proof fn lemma_read_back(cols: Seq<ColumnView>, select: Seq<Seq<char>>)
    requires
        readable(cols, select),
    ensures
        decode_text(encoded(cols), select) == Ok::<Seq<ColumnView>, ReadErrorView>(
            projection(cols, select),
        ),
        decode(encoded_bytes(cols), select) == Ok::<Seq<ColumnView>, ReadErrorView>(
            projection(cols, select),
        ),
{
    lemma_labels();
    lemma_readable_skips(cols, select);
    lemma_blocks_one_line(cols);
    let lines = table_lines(cols);
    assert(all_one_line(lines)) by {
        assert forall|k: int| 0 <= k < lines.len() implies !has_char(#[trigger] lines[k], '\n') by {
            if k > 0 {
                assert(lines[k] == blocks_lines(cols)[k - 1]);
            }
        }
    }
    lemma_split_unlines(lines);
    let pieces = split(encoded(cols), '\n');
    assert(pieces.last().len() == 0);
    assert(pieces.drop_last() =~= lines);
    assert(lines_of(encoded(cols)) == file_lines(cols));
    assert(cols.take(0) =~= Seq::<ColumnView>::empty());
    assert(pieces[0] == header());
    lemma_decode_from(cols, select, 0);
    encode_utf8_valid_utf8(encoded(cols));
    encode_utf8_decode_utf8(encoded(cols));
}

/// **Round trip.** Writing columns and reading the bytes for all their
/// names gives the columns back.
pub proof fn lemma_round_trip(cols: Seq<ColumnView>, select: Seq<Seq<char>>)
    requires
        storable(cols),
        forall|i: int| 0 <= i < cols.len() ==> select.contains((#[trigger] cols[i]).name),
    ensures
        decode(encoded_bytes(cols), select) == Ok::<Seq<ColumnView>, ReadErrorView>(cols),
{
    lemma_storable_readable(cols, select);
    lemma_read_back(cols, select);
    lemma_projection_all(cols, select);
}

} // verus!
