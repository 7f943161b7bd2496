//! The vault sidecar database's schema versions and the migration steps
//! that opening a database runs.

use vstd::prelude::*;

use crate::error::AppError;

verus! {

/// The schema version this build writes.
pub const SCHEMA_VERSION: i64 = 2;

/// The scripts to run on a database found at some schema version.
#[derive(Debug, Clone, Copy, PartialEq, Eq)]
pub struct SchemaSteps {
    /// Create the base tables (a fresh database, version 0).
    pub create_base: bool,
    /// Add the snapshot table (any version before 2).
    pub migrate_v2: bool,
}

pub struct SchemaPlanner;

impl SchemaPlanner {
    /// The migration steps for a database at `version`, after which it is
    /// stamped with `SCHEMA_VERSION`. A database from a newer build is
    /// refused, so the frontend can tell the user the vault is newer.
    pub fn steps(version: i64) -> (r: Result<SchemaSteps, AppError>)
        ensures
            version > SCHEMA_VERSION ==> (r matches Err(e) && e matches AppError::SchemaVersion {
                found,
                max,
            } && found == version && max == SCHEMA_VERSION),
            version <= SCHEMA_VERSION ==> (r matches Ok(s) && s.create_base == (version == 0)
                && s.migrate_v2 == (version < 2)),
    {
        if version > SCHEMA_VERSION {
            return Err(AppError::SchemaVersion { found: version, max: SCHEMA_VERSION });
        }
        Ok(SchemaSteps { create_base: version == 0, migrate_v2: version < 2 })
    }
}

} // verus!
