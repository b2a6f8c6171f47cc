//! The in-memory table: named, typed columns and the names a query asked for.
//!
//! A table keeps one record per column, holding the column's name, its
//! declared type and its values. The schema (name to type) and the data (name
//! to values) are both read off that one sequence, so that they cannot drift
//! apart.
use vstd::prelude::*;
use crate::datatypes::{DataType, Kind, Value, values_of};
use crate::text::{first_index, lemma_first_index, lemma_first_index_is, lemma_first_index_none};

verus! {

/// One column of a table.
#[derive(Debug)]
pub struct Column {
    /// The column's name, unique within its table.
    pub name: String,
    /// The declared type of the column's values.
    pub kind: Kind,
    /// One value per row.
    pub values: Vec<DataType>,
}

/// A column as a mathematical value.
pub struct ColumnView {
    pub name: Seq<char>,
    pub kind: Kind,
    pub values: Seq<Value>,
}

impl View for Column {
    type V = ColumnView;

    open spec fn view(&self) -> ColumnView {
        ColumnView { name: self.name@, kind: self.kind, values: values_of(self.values@) }
    }
}

impl ColumnView {
    /// Every value has the declared type and is itself well-formed.
    pub open spec fn well_formed(self) -> bool {
        forall|i: int|
            0 <= i < self.values.len() ==> (#[trigger] self.values[i]).kind() == self.kind
                && self.values[i].well_formed()
    }
}

/// The columns of a table, as mathematical values.
pub open spec fn columns_of(v: Seq<Column>) -> Seq<ColumnView> {
    v.map_values(|c: Column| c@)
}

/// A list of names, as mathematical values.
pub open spec fn names_of(v: Seq<String>) -> Seq<Seq<char>> {
    v.map_values(|s: String| s@)
}

/// The names of `cols`, in order.
pub open spec fn column_names(cols: Seq<ColumnView>) -> Seq<Seq<char>> {
    cols.map_values(|c: ColumnView| c.name)
}

/// Where the first column called `name` stands, if there is one.
pub open spec fn position(cols: Seq<ColumnView>, name: Seq<char>) -> Option<int> {
    first_index(column_names(cols), name)
}

/// `position` finds the first column of that name and misses none.
pub proof fn lemma_position(cols: Seq<ColumnView>, name: Seq<char>)
    ensures
        match position(cols, name) {
            Some(i) => 0 <= i < cols.len() && cols[i].name == name && forall|j: int|
                0 <= j < i ==> (#[trigger] cols[j]).name != name,
            None => forall|j: int| 0 <= j < cols.len() ==> (#[trigger] cols[j]).name != name,
        },
{
    let names = column_names(cols);
    lemma_first_index(names, name);
    match first_index(names, name) {
        Some(i) => {
            assert(names[i] == cols[i].name);
            assert forall|j: int| 0 <= j < i implies (#[trigger] cols[j]).name != name by {
                assert(names[j] == cols[j].name);
            }
        },
        None => {
            assert forall|j: int| 0 <= j < cols.len() implies (#[trigger] cols[j]).name != name by {
                assert(names[j] == cols[j].name);
            }
        },
    }
}

/// `cols` with `c` in the place of the column of its name, or at the end
/// where there is none.
pub open spec fn upsert(cols: Seq<ColumnView>, c: ColumnView) -> Seq<ColumnView> {
    match position(cols, c.name) {
        Some(i) => cols.update(i, c),
        None => cols.push(c),
    }
}

/// No two columns share a name.
pub open spec fn distinct_names(cols: Seq<ColumnView>) -> bool {
    forall|i: int, j: int|
        0 <= i < j < cols.len() ==> (#[trigger] cols[i]).name != (#[trigger] cols[j]).name
}

/// Where the first column called `name` stands.
pub fn find_column(cols: &Vec<Column>, name: &String) -> (r: Option<usize>)
    ensures
        match r {
            Some(i) => i < cols.len() && position(columns_of(cols@), name@) == Some(i as int),
            None => position(columns_of(cols@), name@) is None,
        },
{
    let ghost all = columns_of(cols@);
    let mut i: usize = 0;
    while i < cols.len()
        invariant
            i <= cols.len(),
            all == columns_of(cols@),
            forall|j: int| 0 <= j < i ==> (#[trigger] all[j]).name != name@,
        decreases cols.len() - i,
    {
        if cols[i].name == *name {
            proof {
                let names = column_names(all);
                assert(names[i as int] == name@);
                assert forall|j: int| 0 <= j < i implies #[trigger] names[j] != name@ by {
                    assert(names[j] == all[j].name);
                }
                lemma_first_index_is(names, name@, i as int);
            }
            return Some(i);
        }
        i += 1;
    }
    proof {
        let names = column_names(all);
        assert forall|j: int| 0 <= j < names.len() implies #[trigger] names[j] != name@ by {
            assert(names[j] == all[j].name);
        }
        lemma_first_index_none(names, name@);
    }
    None
}

/// Whether `name` is among `names`.
pub fn contains_name(names: &Vec<String>, name: &String) -> (b: bool)
    ensures
        b == names_of(names@).contains(name@),
{
    let mut i: usize = 0;
    while i < names.len()
        invariant
            i <= names.len(),
            forall|j: int| 0 <= j < i ==> names_of(names@)[j] != name@,
        decreases names.len() - i,
    {
        if names[i] == *name {
            assert(names_of(names@)[i as int] == name@);
            return true;
        }
        i += 1;
    }
    false
}

/// A copy of a list of names.
pub fn clone_names(names: &Vec<String>) -> (r: Vec<String>)
    ensures
        names_of(r@) == names_of(names@),
{
    let mut r: Vec<String> = Vec::new();
    let mut i: usize = 0;
    while i < names.len()
        invariant
            i <= names.len(),
            r.len() == i,
            forall|j: int| 0 <= j < i ==> r@[j]@ == names@[j]@,
        decreases names.len() - i,
    {
        r.push(names[i].clone());
        i += 1;
    }
    assert(names_of(r@) =~= names_of(names@));
    r
}

/// The unit of storage and the result of a query.
#[derive(Debug)]
pub struct Table {
    /// The table's name, which also names its file.
    pub name: String,
    /// The columns that the table holds.
    pub columns: Vec<Column>,
    /// The column names that were asked for, in the order of the request.
    pub select_columns: Vec<String>,
}

/// A table as a mathematical value.
pub struct TableView {
    pub name: Seq<char>,
    pub columns: Seq<ColumnView>,
    pub select_columns: Seq<Seq<char>>,
}

impl View for Table {
    type V = TableView;

    open spec fn view(&self) -> TableView {
        TableView {
            name: self.name@,
            columns: columns_of(self.columns@),
            select_columns: names_of(self.select_columns@),
        }
    }
}

impl TableView {
    /// The schema: the declared type of each column, by name.
    pub open spec fn fields(self) -> Map<Seq<char>, Kind> {
        Map::new(
            |n: Seq<char>| position(self.columns, n) is Some,
            |n: Seq<char>| self.columns[position(self.columns, n).unwrap()].kind,
        )
    }

    /// The data: the values of each column, by name.
    pub open spec fn columns_by_name(self) -> Map<Seq<char>, Seq<Value>> {
        Map::new(
            |n: Seq<char>| position(self.columns, n) is Some,
            |n: Seq<char>| self.columns[position(self.columns, n).unwrap()].values,
        )
    }

    /// Column names are unique and every column holds values of its
    /// declared type.
    pub open spec fn well_formed(self) -> bool {
        &&& distinct_names(self.columns)
        &&& forall|i: int| 0 <= i < self.columns.len() ==> (#[trigger] self.columns[i]).well_formed()
    }

    /// All columns have the same number of rows.
    pub open spec fn rectangular(self) -> bool {
        forall|i: int, j: int|
            0 <= i < self.columns.len() && 0 <= j < self.columns.len() ==> (
            #[trigger] self.columns[i]).values.len() == (#[trigger] self.columns[j]).values.len()
    }

    /// Every name that was asked for is the name of a column.
    pub open spec fn selection_present(self) -> bool {
        forall|k: int|
            0 <= k < self.select_columns.len() ==> position(
                self.columns,
                #[trigger] self.select_columns[k],
            ) is Some
    }
}

impl Table {
    /// A table without a name, columns or selection.
    pub fn new() -> (t: Table)
        ensures
            t@.name.len() == 0,
            t@.columns.len() == 0,
            t@.select_columns.len() == 0,
    {
        Table { name: String::new(), columns: Vec::new(), select_columns: Vec::new() }
    }

    /// The table's name.
    pub fn get_table_name(&self) -> (s: String)
        ensures
            s@ == self@.name,
    {
        self.name.clone()
    }

    /// The table's columns.
    pub fn get_columns(&self) -> (c: &Vec<Column>)
        ensures
            columns_of(c@) == self@.columns,
    {
        &self.columns
    }

    /// The names that were asked for.
    pub fn get_select_columns(&self) -> (s: &Vec<String>)
        ensures
            names_of(s@) == self@.select_columns,
    {
        &self.select_columns
    }

    /// The column called `name`, if the table has one.
    pub fn column(&self, name: &String) -> (r: Option<&Column>)
        ensures
            match r {
                Some(c) => self@.columns_by_name().dom().contains(name@) && c@.values
                    == self@.columns_by_name()[name@] && c@.kind == self@.fields()[name@] && c@.name
                    == name@,
                None => !self@.columns_by_name().dom().contains(name@),
            },
    {
        match find_column(&self.columns, name) {
            Some(i) => {
                proof {
                    lemma_position(self@.columns, name@);
                }
                Some(&self.columns[i])
            },
            None => None,
        }
    }
}

/// What can go wrong when a table is saved or loaded.
#[derive(Debug)]
pub enum TableErrors {
    /// No table of the given name is stored.
    TableNotFound,
    /// A table of the given name is stored already.
    TableAlreadyExists,
    /// The named column was asked for and the table has none of that name.
    ColumnNotFound(String),
    /// The table could not be written; the text says why.
    WriteError(String),
    /// The table could not be read; the text says why.
    ReadError(String),
    /// Anything else.
    Error(String),
}

/// A table error as a mathematical value.
pub enum TableErrorsView {
    TableNotFound,
    TableAlreadyExists,
    ColumnNotFound(Seq<char>),
    WriteError(Seq<char>),
    ReadError(Seq<char>),
    Error(Seq<char>),
}

impl View for TableErrors {
    type V = TableErrorsView;

    open spec fn view(&self) -> TableErrorsView {
        match self {
            TableErrors::TableNotFound => TableErrorsView::TableNotFound,
            TableErrors::TableAlreadyExists => TableErrorsView::TableAlreadyExists,
            TableErrors::ColumnNotFound(s) => TableErrorsView::ColumnNotFound(s@),
            TableErrors::WriteError(s) => TableErrorsView::WriteError(s@),
            TableErrors::ReadError(s) => TableErrorsView::ReadError(s@),
            TableErrors::Error(s) => TableErrorsView::Error(s@),
        }
    }
}

/// How a table is saved.
#[derive(Clone, Copy, Debug, PartialEq, Eq, Structural)]
pub enum SaveMode {
    /// Create the table's file; it must not exist yet.
    Overwrite,
    /// Extend the table's file; it must exist already.
    Append,
}

} // verus!
