//! Deadlocks reported by PostgreSQL: populations retry them, the CDC path
//! recovers the relations it touched.
use vstd::prelude::*;
use vstd::string::*;

use crate::error::CacheError;

verus! {

/// SQLSTATE `deadlock_detected`.
pub const SQLSTATE_DEADLOCK: &'static str = "40P01";

/// The SQLSTATE an error carries.
pub open spec fn sqlstate(e: CacheError) -> Option<Seq<char>> {
    match e {
        CacheError::PgError { code: Some(code) } => Some(code@),
        _ => None,
    }
}

/// Whether an error is a deadlock.
pub open spec fn is_deadlock(e: CacheError) -> bool {
    sqlstate(e) == Some(SQLSTATE_DEADLOCK@)
}

/// The SQLSTATE an error carries, if it wraps an error of the server.
pub fn cache_error_sqlstate(e: &CacheError) -> (code: Option<&str>)
    ensures
        match code {
            Some(c) => sqlstate(*e) == Some(c@),
            None => sqlstate(*e) is None,
        },
{
    match e {
        CacheError::PgError { code: Some(code) } => Some(code.as_str()),
        _ => None,
    }
}

/// Whether an error is a deadlock.
pub fn error_is_deadlock(e: &CacheError) -> (deadlock: bool)
    ensures
        deadlock == is_deadlock(*e),
{
    match cache_error_sqlstate(e) {
        Some(code) => code.to_owned() == SQLSTATE_DEADLOCK.to_owned(),
        None => false,
    }
}

} // verus!
