//! The database: it reads a query, runs it and tells what came of it.
use vstd::prelude::*;
use crate::command::{CommandResult, commands_of};
use crate::config::DEFAULT_TABLE;
use crate::file_io::FileFormat;
use crate::parser::{ParseError, default_table, parse, select_columns};
use crate::storage::{Storage, StorageView};
use crate::table::{Table, TableErrors, TableErrorsView, TableView};
use crate::table_impl::{lemma_loaded_table, load_table, table_path};
use crate::virtual_machine::{VirtualMachine, run, same_file};

verus! {

/// What a query gave.
#[derive(Debug)]
pub enum ExecutionResult {
    /// The query gave a table.
    TableResult(Table),
    /// The query succeeded and gave nothing.
    VoidOK,
    /// The query could not be read; the text says why.
    ParseError(String),
    /// The query could not be carried out; the text says why.
    CommandError(String),
}

/// The result of a query as a mathematical value.
pub enum ExecutionResultView {
    TableResult(TableView),
    VoidOK,
    ParseError(Seq<char>),
    CommandError(Seq<char>),
}

impl View for ExecutionResult {
    type V = ExecutionResultView;

    open spec fn view(&self) -> ExecutionResultView {
        match self {
            ExecutionResult::TableResult(t) => ExecutionResultView::TableResult(t@),
            ExecutionResult::VoidOK => ExecutionResultView::VoidOK,
            ExecutionResult::ParseError(text) => ExecutionResultView::ParseError(text@),
            ExecutionResult::CommandError(text) => ExecutionResultView::CommandError(text@),
        }
    }
}

/// What the query `input` gives against `storage`: a query that cannot be
/// read is a parse error; one that can loads its columns from the default
/// table, and the load's failure is a command error.
pub open spec fn answer(input: Seq<char>, storage: StorageView) -> ExecutionResultView {
    match select_columns(input) {
        Err(text) => ExecutionResultView::ParseError(text),
        Ok(columns) => match load_table(
            default_table(),
            columns,
            FileFormat::SimpleColumnar,
            storage,
        ) {
            Err(e) => ExecutionResultView::CommandError(e.message()),
            Ok(table) => ExecutionResultView::TableResult(table),
        },
    }
}

/// What the query `input` gives where the file of its table is there and
/// cannot be read, which the store tells with `error`: a query that cannot
/// be read is a parse error, as it is against every storage; one that can
/// fails with what the error says.
pub open spec fn answer_unreadable(input: Seq<char>, error: TableErrorsView) -> ExecutionResultView {
    match select_columns(input) {
        Err(text) => ExecutionResultView::ParseError(text),
        Ok(_) => ExecutionResultView::CommandError(error.message()),
    }
}

/// The path of the file of the default table.
pub open spec fn default_path(data_dir: Seq<char>) -> Seq<char> {
    table_path(data_dir, default_table(), FileFormat::SimpleColumnar)
}

/// **A query reads one file.** Two storages that hold the same file of the
/// default table, or both none, give every query the same result.
pub proof fn lemma_answer_reads(input: Seq<char>, a: StorageView, b: StorageView)
    requires
        same_file(a, b, default_path(a.data_dir)),
    ensures
        answer(input, a) == answer(input, b),
{
}

/// **What a query gives.** The table that a query gives is the default
/// table with the columns that the query asks for, in the order of the
/// query: every column asked for is there, no other is, and all columns have
/// the same number of values, each of its column's type.
pub proof fn lemma_answer_table(input: Seq<char>, storage: StorageView)
    ensures
        answer(input, storage) matches ExecutionResultView::TableResult(t) ==> {
            &&& t.name == default_table()
            &&& select_columns(input) == Ok::<Seq<Seq<char>>, Seq<char>>(t.select_columns)
            &&& t.well_formed()
            &&& t.rectangular()
            &&& t.selection_present()
            &&& t.columns_by_name().dom() == t.select_columns.to_set()
        },
{
    match select_columns(input) {
        Ok(columns) => {
            lemma_loaded_table(default_table(), columns, FileFormat::SimpleColumnar, storage);
        },
        Err(_) => {},
    }
}

/// The database.
#[derive(Debug)]
pub struct SteelDB {
    virtual_machine: VirtualMachine,
}

impl SteelDB {
    /// A database.
    pub fn new() -> SteelDB {
        SteelDB { virtual_machine: VirtualMachine::new() }
    }

    /// The path of the one file that a query may read in the data directory
    /// `data_dir`: the file of the default table. A storage that holds what
    /// the disk holds at this path is all that a query needs.
    pub fn reads(data_dir: &String) -> (path: String)
        ensures
            path@ == default_path(data_dir@),
    {
        Table::get_table_path(data_dir, &DEFAULT_TABLE.to_string(), &FileFormat::SimpleColumnar)
    }

    /// Carries out the query `user_input` against `storage`.
    pub fn execute(&mut self, user_input: String, storage: &Storage) -> (r: ExecutionResult)
        ensures
            r@ == answer(user_input@, storage@),
    {
        match parse(user_input) {
            Ok(commands) => {
                proof {
                    let all = commands_of(commands@);
                    assert(all[0] == commands@[0]@);
                    assert(all.skip(1).len() == 0);
                    reveal_with_fuel(run, 2);
                }
                match self.virtual_machine.execute(commands, storage) {
                    CommandResult::RetrievedDataSuccess(table) => ExecutionResult::TableResult(
                        table,
                    ),
                    CommandResult::VoidSuccess => ExecutionResult::VoidOK,
                    CommandResult::Error(text) => ExecutionResult::CommandError(text),
                }
            },
            Err(ParseError::Error(text)) => ExecutionResult::ParseError(text),
        }
    }

    /// What the query `user_input` gives where the file of its table could
    /// not be read and the store told so with `error`.
    pub fn unreadable(&self, user_input: String, error: &TableErrors) -> (r: ExecutionResult)
        ensures
            r@ == answer_unreadable(user_input@, error@),
    {
        match parse(user_input) {
            Ok(_) => ExecutionResult::CommandError(error.message()),
            Err(ParseError::Error(text)) => ExecutionResult::ParseError(text),
        }
    }
}

} // verus!
