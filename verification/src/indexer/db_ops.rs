//! How the index databases are opened.

use vstd::prelude::*;
use vstd::string::*;

verus! {

/// The name under which the database of the tailer is kept.
pub const TAILER_DB_NAME: &'static str = "index_async_db_tailer_db";

/// The name under which the database of table information is kept.
pub const TABLE_INFO_DB_NAME: &'static str = "index_async_v2_db";

/// The set of column families of a database.
#[derive(Clone, Copy, Debug, PartialEq, Eq, Structural)]
pub enum ColumnFamilies {
    /// Those of the table information.
    TableInfo,
    /// Those of the tailer.
    Tailer,
}

/// With what a database is opened.
#[derive(Clone, Copy, Debug, PartialEq, Eq)]
pub struct OpenPlan {
    pub name: &'static str,
    pub column_families: ColumnFamilies,
    /// Whether the database is opened for reading only.
    pub read_only: bool,
}

/// The database of table information is opened under its name, with its
/// own column families, for reading and writing.
pub fn open_db() -> (plan: OpenPlan)
    ensures
        plan.name@ == TABLE_INFO_DB_NAME@,
        plan.column_families == ColumnFamilies::TableInfo,
        !plan.read_only,
{
    OpenPlan { name: TABLE_INFO_DB_NAME, column_families: ColumnFamilies::TableInfo, read_only: false }
}

/// The database of the tailer is opened under its name, with its own column
/// families, for reading and writing.
pub fn open_tailer_db() -> (plan: OpenPlan)
    ensures
        plan.name@ == TAILER_DB_NAME@,
        plan.column_families == ColumnFamilies::Tailer,
        !plan.read_only,
{
    OpenPlan { name: TAILER_DB_NAME, column_families: ColumnFamilies::Tailer, read_only: false }
}

} // verus!
