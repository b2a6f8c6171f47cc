//! Saving tables to a storage and loading them from it.
use vstd::prelude::*;
use crate::file_io::{
    ColumnarReader, ColumnarWriter, FileFormat, WriteErrorView, line_break_at, unequal_at,
    write_fault,
};
use crate::layout::{breaks_line, decode, encodable, encoded_bytes, lemma_decode_sound};
use crate::roundtrip::{
    lemma_projection_all, lemma_read_back, lemma_storable_readable, projection, storable,
};
use crate::storage::{Storage, StorageView};
use crate::table::{
    Column, ColumnView, SaveMode, Table, TableErrors, TableErrorsView, TableView, columns_of,
    find_column, lemma_position, names_of, position,
};

verus! {

/// The path of the file of the table `name` in the data directory
/// `data_dir`.
pub open spec fn table_path(data_dir: Seq<char>, name: Seq<char>, format: FileFormat) -> Seq<char> {
    match format {
        FileFormat::SimpleColumnar => data_dir + "/"@ + name + ".columnar"@,
    }
}

/// The first of `select` that is not the name of one of `cols`, if there is
/// one.
pub open spec fn first_missing(cols: Seq<ColumnView>, select: Seq<Seq<char>>) -> Option<Seq<char>>
    decreases select.len(),
{
    if select.len() == 0 {
        None
    } else {
        match first_missing(cols, select.drop_last()) {
            Some(name) => Some(name),
            None => if position(cols, select.last()) is None {
                Some(select.last())
            } else {
                None
            },
        }
    }
}

/// What loading the table `name` from `storage` gives.
///
/// The file of the table must be there and must decode; every name in
/// `select` must then be the name of a column that was read. The table that
/// is returned carries `select` as it was given.
pub open spec fn load_table(
    name: Seq<char>,
    select: Seq<Seq<char>>,
    format: FileFormat,
    storage: StorageView,
) -> Result<TableView, TableErrorsView> {
    let path = table_path(storage.data_dir, name, format);
    if !storage.files.dom().contains(path) {
        Err(TableErrorsView::TableNotFound)
    } else {
        match decode(storage.files[path], select) {
            Err(e) => Err(TableErrorsView::ReadError(e.message())),
            Ok(columns) => match first_missing(columns, select) {
                Some(missing) => Err(TableErrorsView::ColumnNotFound(missing)),
                None => Ok(TableView { name, columns, select_columns: select }),
            },
        }
    }
}

/// `text` says why `cols` cannot be written.
pub open spec fn write_failure(cols: Seq<ColumnView>, text: Seq<char>) -> bool {
    exists|fault: WriteErrorView| #[trigger] write_fault(cols, fault) && text == fault.message()
}

/// What a load gave, as a mathematical value.
pub open spec fn loaded_view(r: Result<Table, TableErrors>) -> Result<TableView, TableErrorsView> {
    match r {
        Ok(t) => Ok(t@),
        Err(e) => Err(e@),
    }
}

/// Every name in `select` names a column exactly when none is missing.
pub proof fn lemma_first_missing(cols: Seq<ColumnView>, select: Seq<Seq<char>>)
    ensures
        match first_missing(cols, select) {
            Some(name) => select.contains(name) && position(cols, name) is None,
            None => forall|k: int| 0 <= k < select.len() ==> position(cols, #[trigger] select[k]) is Some,
        },
    decreases select.len(),
{
    if select.len() > 0 {
        let front = select.drop_last();
        lemma_first_missing(cols, front);
        match first_missing(cols, front) {
            Some(name) => {
                let k = choose|k: int| 0 <= k < front.len() && front[k] == name;
                assert(select[k] == name);
            },
            None => {
                if position(cols, select.last()) is None {
                    assert(select[select.len() - 1] == select.last());
                } else {
                    assert forall|k: int| 0 <= k < select.len() implies position(
                        cols,
                        #[trigger] select[k],
                    ) is Some by {
                        if k < select.len() - 1 {
                            assert(front[k] == select[k]);
                        }
                    }
                }
            },
        }
    }
}

/// The first of `select` that names none of `cols`.
pub fn find_missing(cols: &Vec<Column>, select: &Vec<String>) -> (r: Option<usize>)
    ensures
        match r {
            Some(k) => k < select.len() && first_missing(columns_of(cols@), names_of(select@)) == Some(
                select@[k as int]@,
            ),
            None => first_missing(columns_of(cols@), names_of(select@)) is None,
        },
{
    let ghost names = names_of(select@);
    let mut k: usize = 0;
    assert(names.take(0) =~= Seq::<Seq<char>>::empty());
    while k < select.len()
        invariant
            k <= select.len(),
            names == names_of(select@),
            first_missing(columns_of(cols@), names.take(k as int)) is None,
        decreases select.len() - k,
    {
        proof {
            let next = names.take(k + 1);
            assert(next.drop_last() =~= names.take(k as int));
            assert(next.last() == select@[k as int]@);
        }
        if find_column(cols, &select[k]).is_none() {
            proof {
                lemma_first_missing_grows(columns_of(cols@), names, k + 1);
            }
            return Some(k);
        }
        k += 1;
    }
    assert(names.take(k as int) =~= names);
    None
}

/// A name that is missing among the first of `select` is missing in all of
/// `select`.
proof fn lemma_first_missing_grows(cols: Seq<ColumnView>, select: Seq<Seq<char>>, n: int)
    requires
        0 <= n <= select.len(),
        first_missing(cols, select.take(n)) is Some,
    ensures
        first_missing(cols, select) == first_missing(cols, select.take(n)),
    decreases select.len() - n,
{
    if n < select.len() {
        let next = select.take(n + 1);
        assert(next.drop_last() =~= select.take(n));
        lemma_first_missing_grows(cols, select, n + 1);
    } else {
        assert(select.take(n) =~= select);
    }
}

impl Table {
    /// The path of the file of the table `name` in the data directory
    /// `data_dir`: `<data_dir>/<name>.columnar`.
    pub fn get_table_path(data_dir: &String, name: &String, format: &FileFormat) -> (p: String)
        ensures
            p@ == table_path(data_dir@, name@, *format),
    {
        match format {
            FileFormat::SimpleColumnar => {
                let mut p = data_dir.clone();
                p.push_str("/");
                p.push_str(name.as_str());
                p.push_str(".columnar");
                assert(p@ =~= table_path(data_dir@, name@, *format));
                p
            },
        }
    }

    /// Saves the table to `storage` and tells how many bytes were written.
    ///
    /// `Overwrite` creates the file of the table, which must not be there
    /// yet, and fills it with the table's columns. `Append` needs the file
    /// to be there already and adds nothing to it. Whenever the save fails,
    /// the storage is left as it was.
    pub fn save(&self, mode: SaveMode, format: FileFormat, storage: &mut Storage) -> (r: Result<
        usize,
        TableErrors,
    >)
        ensures
            final(storage)@.data_dir == old(storage)@.data_dir,
            ({
                let path = table_path(old(storage)@.data_dir, self@.name, format);
                let there = old(storage)@.files.dom().contains(path);
                let bytes = encoded_bytes(self@.columns);
                let before = old(storage)@;
                let after = final(storage)@;
                match mode {
                    SaveMode::Overwrite => if there {
                        r matches Err(e) && e@ == TableErrorsView::TableAlreadyExists && after
                            == before
                    } else if encodable(self@.columns) {
                        r == Ok::<usize, TableErrors>(bytes.len() as usize) && after.files
                            == before.files.insert(path, bytes)
                    } else {
                        r matches Err(TableErrors::WriteError(text)) && after == before
                            && write_failure(self@.columns, text@)
                    },
                    SaveMode::Append => if there {
                        r == Ok::<usize, TableErrors>(0) && after == before
                    } else {
                        r matches Err(e) && e@ == TableErrorsView::TableNotFound && after == before
                    },
                }
            }),
    {
        let path = Table::get_table_path(storage.data_dir(), &self.name, &format);
        let writer = match format {
            FileFormat::SimpleColumnar => ColumnarWriter::new(),
        };
        match mode {
            SaveMode::Overwrite => {
                if storage.contains(&path) {
                    return Err(TableErrors::TableAlreadyExists);
                }
                match writer.write(&self.columns) {
                    Err(e) => {
                        let text = e.message();
                        proof {
                            assert(write_fault(self@.columns, e@) && text@ == e@.message());
                            lemma_fault_excludes(self@.columns, e@);
                        }
                        Err(TableErrors::WriteError(text))
                    },
                    Ok(bytes) => {
                        let written = bytes.len();
                        storage.write(path, bytes);
                        Ok(written)
                    },
                }
            },
            SaveMode::Append => {
                if !storage.contains(&path) {
                    return Err(TableErrors::TableNotFound);
                }
                match writer.append(&self.columns) {
                    Err(e) => Err(TableErrors::WriteError(e.message())),
                    Ok(bytes) => Ok(bytes.len()),
                }
            },
        }
    }

    /// Loads the columns `select_columns` of the table `table_name` from
    /// `storage`.
    pub fn load(
        table_name: String,
        select_columns: Vec<String>,
        format: FileFormat,
        storage: &Storage,
    ) -> (r: Result<Table, TableErrors>)
        ensures
            loaded_view(r) == load_table(table_name@, names_of(select_columns@), format, storage@),
            r matches Ok(t) ==> {
                &&& t@.well_formed()
                &&& t@.rectangular()
                &&& t@.selection_present()
                &&& t@.columns_by_name().dom() == names_of(select_columns@).to_set()
            },
    {
        proof {
            lemma_loaded_table(table_name@, names_of(select_columns@), format, storage@);
        }
        let path = Table::get_table_path(storage.data_dir(), &table_name, &format);
        let reader = match format {
            FileFormat::SimpleColumnar => ColumnarReader::new(),
        };
        let bytes = match storage.read(&path) {
            None => {
                return Err(TableErrors::TableNotFound);
            },
            Some(bytes) => bytes,
        };
        let columns = match reader.read(bytes.as_slice(), &select_columns) {
            Err(e) => {
                return Err(TableErrors::ReadError(e.message()));
            },
            Ok(columns) => columns,
        };
        match find_missing(&columns, &select_columns) {
            Some(k) => Err(TableErrors::ColumnNotFound(select_columns[k].clone())),
            None => Ok(Table { name: table_name, columns, select_columns }),
        }
    }
}

/// **What a load gives.** A table that was loaded carries the name and the
/// selection that were asked for; its columns have distinct names and hold
/// values of their types; and its columns are exactly those that were asked
/// for: every name selected is the name of a column, and every column's name
/// was selected.
pub proof fn lemma_loaded_table(
    name: Seq<char>,
    select: Seq<Seq<char>>,
    format: FileFormat,
    storage: StorageView,
)
    ensures
        load_table(name, select, format, storage) matches Ok(t) ==> {
            &&& t.name == name
            &&& t.select_columns == select
            &&& t.well_formed()
            &&& t.rectangular()
            &&& t.selection_present()
            &&& t.columns_by_name().dom() == select.to_set()
            &&& t.fields().dom() == select.to_set()
        },
{
    let path = table_path(storage.data_dir, name, format);
    if storage.files.dom().contains(path) {
        let bytes = storage.files[path];
        lemma_decode_sound(bytes, select);
        match decode(bytes, select) {
            Err(_) => {},
            Ok(cols) => {
                lemma_first_missing(cols, select);
                if first_missing(cols, select) is None {
                    let t = TableView { name, columns: cols, select_columns: select };
                    assert forall|n: Seq<char>| position(cols, n) is Some <==> select.contains(n) by {
                        lemma_position(cols, n);
                        if select.contains(n) {
                            let k = choose|k: int| 0 <= k < select.len() && select[k] == n;
                            assert(position(cols, select[k]) is Some);
                        }
                    }
                    assert(t.columns_by_name().dom() =~= select.to_set());
                    assert(t.fields().dom() =~= select.to_set());
                }
            },
        }
    }
}

/// **Missing column.** Where the file of the table is there and decodes,
/// and some name that is asked for is the name of no column read, the load
/// fails with a column-not-found error that carries such a name: the first
/// of them in the order of the request.
pub proof fn lemma_missing_column(
    name: Seq<char>,
    select: Seq<Seq<char>>,
    format: FileFormat,
    storage: StorageView,
    k: int,
)
    requires
        storage.files.dom().contains(table_path(storage.data_dir, name, format)),
        decode(storage.files[table_path(storage.data_dir, name, format)], select) is Ok,
        0 <= k < select.len(),
        position(
            decode(storage.files[table_path(storage.data_dir, name, format)], select)->Ok_0,
            select[k],
        ) is None,
    ensures
        load_table(name, select, format, storage) matches Err(
            TableErrorsView::ColumnNotFound(missing),
        ) && select.contains(missing) && position(
            decode(storage.files[table_path(storage.data_dir, name, format)], select)->Ok_0,
            missing,
        ) is None && first_missing(
            decode(storage.files[table_path(storage.data_dir, name, format)], select)->Ok_0,
            select,
        ) == Some(missing),
{
    let cols = decode(storage.files[table_path(storage.data_dir, name, format)], select)->Ok_0;
    lemma_first_missing(cols, select);
}

/// A column whose name is selected is kept by the projection.
pub proof fn lemma_projection_keeps(cols: Seq<ColumnView>, select: Seq<Seq<char>>, i: int)
    requires
        0 <= i < cols.len(),
        select.contains(cols[i].name),
    ensures
        exists|j: int| 0 <= j < projection(cols, select).len() && projection(cols, select)[j] == cols[i],
    decreases cols.len(),
{
    let front = cols.drop_last();
    let p = projection(cols, select);
    if i == cols.len() - 1 {
        assert(cols.last() == cols[i]);
        assert(p[p.len() - 1] == cols[i]);
    } else {
        assert(front[i] == cols[i]);
        lemma_projection_keeps(front, select, i);
        let j = choose|j: int| 0 <= j < projection(front, select).len() && projection(
            front,
            select,
        )[j] == cols[i];
        assert(p[j] == cols[i]);
    }
}

/// The storage after the table's file was written.
pub open spec fn saved(t: TableView, format: FileFormat, storage: StorageView) -> StorageView {
    StorageView {
        data_dir: storage.data_dir,
        files: storage.files.insert(
            table_path(storage.data_dir, t.name, format),
            encoded_bytes(t.columns),
        ),
    }
}

/// **Round trip through the store.** A table that can be written and read
/// back, once saved, loads again: for any selection of its columns the load
/// gives the table's name, the columns selected, in the order in which the
/// table holds them and with every value as it was, and the selection as it
/// was given.
pub proof fn lemma_save_then_load(
    t: TableView,
    select: Seq<Seq<char>>,
    format: FileFormat,
    storage: StorageView,
)
    requires
        storable(t.columns),
        forall|k: int| 0 <= k < select.len() ==> position(t.columns, #[trigger] select[k]) is Some,
    ensures
        load_table(t.name, select, format, saved(t, format, storage)) == Ok::<
            TableView,
            TableErrorsView,
        >(TableView { name: t.name, columns: projection(t.columns, select), select_columns: select }),
{
    let found = projection(t.columns, select);
    lemma_storable_readable(t.columns, select);
    lemma_read_back(t.columns, select);
    lemma_first_missing(found, select);
    if first_missing(found, select) is Some {
        let missing = first_missing(found, select).unwrap();
        let k = choose|k: int| 0 <= k < select.len() && select[k] == missing;
        lemma_position(t.columns, select[k]);
        let i = position(t.columns, select[k]).unwrap();
        lemma_projection_keeps(t.columns, select, i);
        let j = choose|j: int| 0 <= j < found.len() && found[j] == t.columns[i];
        lemma_position(found, missing);
        assert(found[j].name == missing);
    }
}

/// **Round trip of a whole table.** Saved and then loaded for all its
/// column names, a table that can be written and read back is the table
/// that loads.
pub proof fn lemma_save_then_load_all(
    t: TableView,
    select: Seq<Seq<char>>,
    format: FileFormat,
    storage: StorageView,
)
    requires
        storable(t.columns),
        forall|k: int| 0 <= k < select.len() ==> position(t.columns, #[trigger] select[k]) is Some,
        forall|i: int| 0 <= i < t.columns.len() ==> select.contains((#[trigger] t.columns[i]).name),
    ensures
        load_table(t.name, select, format, saved(t, format, storage)) == Ok::<
            TableView,
            TableErrorsView,
        >(TableView { name: t.name, columns: t.columns, select_columns: select }),
{
    lemma_save_then_load(t, select, format, storage);
    lemma_projection_all(t.columns, select);
}

/// A write fault is found only where the columns cannot be written.
pub proof fn lemma_fault_excludes(cols: Seq<ColumnView>, fault: WriteErrorView)
    requires
        write_fault(cols, fault),
    ensures
        !encodable(cols),
{
    match fault {
        WriteErrorView::EmptySchema => {},
        WriteErrorView::UnequalColumns { field } => {
            let col = choose|col: int| unequal_at(cols, col, field);
            assert(cols[col].values.len() != cols[0].values.len());
        },
        WriteErrorView::LineBreakInText { field, row } => {
            let col = choose|col: int| line_break_at(cols, col, row, field);
            assert(breaks_line(cols[col].values[row]));
        },
    }
}

} // verus!
