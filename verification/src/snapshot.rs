//! Version snapshot history: the table exists in the schema (v2), the
//! interface is defined, the implementation is deferred. Snapshots will let
//! users roll a document back to an earlier saved state.

use vstd::prelude::*;

use crate::error::AppError;

verus! {

/// Declares `rusqlite::Connection` so it can stand in signatures; it is
/// carried through unread and nothing is claimed of it.
#[verifier::external_type_specification]
#[verifier::external_body]
pub struct ExConnection(rusqlite::Connection);

/// The error of an operation that is not implemented yet.
pub open spec fn not_implemented(r: AppError, what: Seq<char>) -> bool {
    r matches AppError::NotImplemented(m) && m@ == what
}

pub struct SnapshotService;

impl SnapshotService {
    /// Store a snapshot of the current disk content; returns snapshot_at.
    pub fn create(_conn: &rusqlite::Connection, _rel_path: &str) -> (r: Result<i64, AppError>)
        ensures
            r matches Err(e) && not_implemented(e, "SnapshotService::create"@),
    {
        Err(AppError::NotImplemented("SnapshotService::create"))
    }

    /// Return the content of a snapshot.
    pub fn restore(_conn: &rusqlite::Connection, _rel_path: &str, _snapshot_at: i64) -> (r: Result<
        String,
        AppError,
    >)
        ensures
            r matches Err(e) && not_implemented(e, "SnapshotService::restore"@),
    {
        Err(AppError::NotImplemented("SnapshotService::restore"))
    }

    /// List snapshot timestamps for a document, newest first.
    pub fn list(_conn: &rusqlite::Connection, _rel_path: &str) -> (r: Result<Vec<i64>, AppError>)
        ensures
            r matches Err(e) && not_implemented(e, "SnapshotService::list"@),
    {
        Err(AppError::NotImplemented("SnapshotService::list"))
    }
}

} // verus!
