//! A small embedded single-table database.
//!
//! A table is a list of named, typed columns. It is stored in one file, in a
//! line-oriented columnar format, and loaded from it column by column: a
//! query names the columns it wants, and only those are read.
//!
//! The library touches neither the disk nor the console. Files live in a
//! [`storage::Storage`], which the caller fills and carries back; texts for
//! the console are returned, not printed. Every function states what it
//! gives in its contract, and [`roundtrip`] proves that what is written can
//! be read back.
//!
//! The parts, leaves first:
//!
//! - [`text`], [`numeric`]: characters, lines, decimal numbers;
//! - [`datatypes`]: the values a table can hold;
//! - [`table`]: tables and their columns;
//! - [`layout`]: the file format, as mathematics;
//! - [`file_io`]: the reader and the writer of the format;
//! - [`storage`], [`table_impl`]: saving and loading;
//! - [`command`], [`virtual_machine`]: running commands;
//! - [`parser`], [`steeldb`]: from a query to its result;
//! - [`console_printer`], [`repl`]: the interactive shell.

pub mod command;
pub mod config;
pub mod console_printer;
pub mod datatypes;
pub mod file_io;
pub mod json_result;
pub mod layout;
pub mod numeric;
pub mod parser;
pub mod repl;
pub mod report;
pub mod roundtrip;
pub mod steeldb;
pub mod storage;
pub mod table;
pub mod table_impl;
pub mod text;
pub mod virtual_machine;

pub use crate::datatypes::DataType;
pub use crate::steeldb::{ExecutionResult, SteelDB};
pub use crate::table::{Table, TableErrors};
