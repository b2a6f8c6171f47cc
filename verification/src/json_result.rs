//! A table as it is handed to a client: its name, its columns and the names
//! that were asked for, with nothing of the store around them.
use vstd::prelude::*;
use crate::table::{Column, Table, columns_of, names_of};

verus! {

/// What a client gets of a table.
#[derive(Debug)]
pub struct TableJSON {
    pub table_name: String,
    pub columns: Vec<Column>,
    pub select_columns: Vec<String>,
}

impl TableJSON {
    /// What a client gets of `table`: all of it, as it is.
    pub fn from_table(table: Table) -> (r: TableJSON)
        ensures
            r.table_name@ == table@.name,
            columns_of(r.columns@) == table@.columns,
            names_of(r.select_columns@) == table@.select_columns,
    {
        TableJSON {
            table_name: table.name,
            columns: table.columns,
            select_columns: table.select_columns,
        }
    }
}

} // verus!
