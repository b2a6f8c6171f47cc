//! Defaults for what the caller may configure.
use vstd::prelude::*;

verus! {

/// The table that a query reads when it names none.
pub const DEFAULT_TABLE: &'static str = "test_table";

/// The version that the banner shows.
pub const VERSION: &'static str = "0.1.0";

/// The data directory that is used when the caller names none.
pub const DATA_DIR: &'static str = ".steeldb/data";

} // verus!
