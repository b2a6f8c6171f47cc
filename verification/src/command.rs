//! The commands that the virtual machine runs, and what running them gives.
use vstd::prelude::*;
use crate::table::{Table, TableView, names_of};

verus! {

/// One instruction for the virtual machine.
#[derive(Debug)]
pub enum Command {
    /// Load the named columns of the named table.
    SelectFrom(Vec<String>, String),
    /// Do nothing and end the run with a success that carries no data.
    Stub,
}

/// A command as a mathematical value.
pub enum CommandView {
    SelectFrom(Seq<Seq<char>>, Seq<char>),
    Stub,
}

impl View for Command {
    type V = CommandView;

    open spec fn view(&self) -> CommandView {
        match self {
            Command::SelectFrom(columns, table) => CommandView::SelectFrom(
                names_of(columns@),
                table@,
            ),
            Command::Stub => CommandView::Stub,
        }
    }
}

/// A list of commands, as mathematical values.
pub open spec fn commands_of(v: Seq<Command>) -> Seq<CommandView> {
    v.map_values(|c: Command| c@)
}

/// The one outcome of running a list of commands.
#[derive(Debug)]
pub enum CommandResult {
    /// The run gave a table.
    RetrievedDataSuccess(Table),
    /// The run failed; the text says why.
    Error(String),
    /// The run succeeded and gave nothing.
    VoidSuccess,
}

/// A command result as a mathematical value.
pub enum CommandResultView {
    RetrievedDataSuccess(TableView),
    Error(Seq<char>),
    VoidSuccess,
}

impl View for CommandResult {
    type V = CommandResultView;

    open spec fn view(&self) -> CommandResultView {
        match self {
            CommandResult::RetrievedDataSuccess(t) => CommandResultView::RetrievedDataSuccess(t@),
            CommandResult::Error(text) => CommandResultView::Error(text@),
            CommandResult::VoidSuccess => CommandResultView::VoidSuccess,
        }
    }
}

} // verus!
