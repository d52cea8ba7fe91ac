//! The readers of the index databases, and which of them answers which query.

use std::sync::Arc;
use vstd::prelude::*;
use vstd::string::*;

verus! {

/// The readers that are available: one for table information, one for the
/// tailer database. At least one of them is there.
pub struct IndexerReaders<T, D> {
    table_info_reader: Option<Arc<T>>,
    db_tailer_reader: Option<Arc<D>>,
}

/// What is asked of the index.
#[derive(Clone, Copy, Debug, PartialEq, Eq, Structural)]
pub enum IndexerQuery {
    TableInfo,
    Events,
    EventsByEventKey,
    AccountTransactions,
}

/// The reader that a query needs is not available.
#[derive(Clone, Copy, Debug, PartialEq, Eq, Structural)]
pub enum ReaderUnavailable {
    TableInfo,
    DbTailer,
}

/// The reader that answers a query.
pub enum ReaderRef<'a, T, D> {
    TableInfo(&'a Arc<T>),
    DbTailer(&'a Arc<D>),
}

impl ReaderUnavailable {
    /// The text of the error.
    pub fn message(&self) -> (text: &'static str)
        ensures
            *self == ReaderUnavailable::TableInfo ==> text@ == "Table info reader is not available"@,
            *self == ReaderUnavailable::DbTailer ==> text@ == "DB tailer reader is not available"@,
    {
        match self {
            ReaderUnavailable::TableInfo => "Table info reader is not available",
            ReaderUnavailable::DbTailer => "DB tailer reader is not available",
        }
    }
}

impl<T, D> IndexerReaders<T, D> {
    /// The reader of table information, if there is one.
    pub closed spec fn table_info(&self) -> Option<Arc<T>> {
        self.table_info_reader
    }

    /// The reader of the tailer database, if there is one.
    pub closed spec fn db_tailer(&self) -> Option<Arc<D>> {
        self.db_tailer_reader
    }

    /// There is a reader.
    pub open spec fn wf(&self) -> bool {
        self.table_info() is Some || self.db_tailer() is Some
    }

    /// The readers together, or `None` where neither is given.
    pub fn new(table_info_reader: Option<Arc<T>>, db_tailer_reader: Option<Arc<D>>) -> (result:
        Option<Self>)
        ensures
            result is None <==> table_info_reader is None && db_tailer_reader is None,
            result matches Some(readers) ==> readers.wf() && readers.table_info()
                == table_info_reader && readers.db_tailer() == db_tailer_reader,
    {
        if table_info_reader.is_none() && db_tailer_reader.is_none() {
            None
        } else {
            Some(Self { table_info_reader, db_tailer_reader })
        }
    }

    /// The reader that answers `query`: table information comes from the
    /// reader of table information, everything else from the reader of the
    /// tailer database. The error names the reader that is missing.
    pub fn reader_for(&self, query: IndexerQuery) -> (result: Result<
        ReaderRef<'_, T, D>,
        ReaderUnavailable,
    >)
        ensures
            query == IndexerQuery::TableInfo ==> match result {
                Ok(ReaderRef::TableInfo(reader)) => self.table_info() == Some(*reader),
                Ok(ReaderRef::DbTailer(_)) => false,
                Err(e) => self.table_info() is None && e == ReaderUnavailable::TableInfo,
            },
            query != IndexerQuery::TableInfo ==> match result {
                Ok(ReaderRef::DbTailer(reader)) => self.db_tailer() == Some(*reader),
                Ok(ReaderRef::TableInfo(_)) => false,
                Err(e) => self.db_tailer() is None && e == ReaderUnavailable::DbTailer,
            },
    {
        match query {
            IndexerQuery::TableInfo => match &self.table_info_reader {
                Some(reader) => Ok(ReaderRef::TableInfo(reader)),
                None => Err(ReaderUnavailable::TableInfo),
            },
            _ => match &self.db_tailer_reader {
                Some(reader) => Ok(ReaderRef::DbTailer(reader)),
                None => Err(ReaderUnavailable::DbTailer),
            },
        }
    }
}

} // verus!
