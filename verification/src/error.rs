//! Failures of the writer.
use vstd::prelude::*;

verus! {

/// Why the writer could not do its work.
#[derive(Debug)]
pub enum CacheError {
    /// The relation has no cache table.
    UnknownTable { oid: u32 },
    /// The row carries no cell of its relation's primary key.
    NoPrimaryKey,
    /// The cached query cannot be turned into a statement.
    InvalidQuery,
    /// A statement failed; `code` is its SQLSTATE, when the server gave one.
    PgError { code: Option<String> },
    /// The comparison of an updated row with its cached image lacks a column
    /// through which a cached query joins the relation.
    ColumnMissing,
    /// The CDC side of the writer stopped.
    CdcFailure,
    /// The origin sent something else than what was asked.
    InvalidMessage,
    /// A reply of the cache database could not be understood.
    Other,
}

} // verus!
