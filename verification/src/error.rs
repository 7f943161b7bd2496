//! The application's error. Every service returns `Result<T, AppError>`;
//! the error is presented to the frontend as a stable `code` and a message.
//! Errors that come from the platform (I/O, database, JSON) carry the text
//! of the underlying error.

use vstd::prelude::*;

use crate::fmt::{decimal_signed, push_decimal_signed};
use crate::text::push_str;

verus! {

/// Unified application error.
#[derive(Debug, Clone)]
pub enum AppError {
    Io(String),
    Db(String),
    NotFound(String),
    FileChanged,
    InvalidPath(String),
    Vault(String),
    Window(String),
    Json(String),
    SchemaVersion { found: i64, max: i64 },
    Parse(String),
    NotImplemented(&'static str),
    Other(String),
}

/// The code of each kind of error.
pub open spec fn spec_code(e: AppError) -> Seq<char> {
    match e {
        AppError::Io(_) => "io"@,
        AppError::Db(_) => "db"@,
        AppError::Json(_) => "json"@,
        AppError::NotFound(_) => "not_found"@,
        AppError::FileChanged => "file_changed"@,
        AppError::InvalidPath(_) => "invalid_path"@,
        AppError::Vault(_) => "vault"@,
        AppError::Window(_) => "window"@,
        AppError::SchemaVersion { .. } => "schema_version"@,
        AppError::Parse(_) => "parse"@,
        AppError::NotImplemented(_) => "not_implemented"@,
        AppError::Other(_) => "internal"@,
    }
}

/// The message of an error: a fixed prefix naming the kind, then the detail.
pub open spec fn spec_message(e: AppError) -> Seq<char> {
    match e {
        AppError::Io(m) => "io error: "@ + m@,
        AppError::Db(m) => "database error: "@ + m@,
        AppError::NotFound(m) => "document not found: "@ + m@,
        AppError::FileChanged => "file changed on disk; refusing to overwrite"@,
        AppError::InvalidPath(m) => "invalid path: "@ + m@,
        AppError::Vault(m) => "invalid vault: "@ + m@,
        AppError::Window(m) => "window error: "@ + m@,
        AppError::Json(m) => "json error: "@ + m@,
        AppError::SchemaVersion { found, max } => "vault database version "@ + decimal_signed(
            found as int,
        ) + " is newer than app version "@ + decimal_signed(max as int),
        AppError::Parse(m) => "parse error: "@ + m@,
        AppError::NotImplemented(m) => "not implemented yet: "@ + m@,
        AppError::Other(m) => m@,
    }
}

fn prefixed(prefix: &str, detail: &String) -> (r: String)
    ensures
        r@ == prefix@ + detail@,
{
    let mut r = prefix.to_owned();
    push_str(&mut r, detail.as_str());
    r
}

impl AppError {
    /// The stable code the frontend maps to a hint.
    pub fn code(&self) -> (c: &'static str)
        ensures
            c@ == spec_code(*self),
    {
        match self {
            AppError::Io(_) => "io",
            AppError::Db(_) => "db",
            AppError::Json(_) => "json",
            AppError::NotFound(_) => "not_found",
            AppError::FileChanged => "file_changed",
            AppError::InvalidPath(_) => "invalid_path",
            AppError::Vault(_) => "vault",
            AppError::Window(_) => "window",
            AppError::SchemaVersion { .. } => "schema_version",
            AppError::Parse(_) => "parse",
            AppError::NotImplemented(_) => "not_implemented",
            AppError::Other(_) => "internal",
        }
    }

    /// The human-readable message.
    pub fn message(&self) -> (m: String)
        ensures
            m@ == spec_message(*self),
    {
        match self {
            AppError::Io(d) => prefixed("io error: ", d),
            AppError::Db(d) => prefixed("database error: ", d),
            AppError::NotFound(d) => prefixed("document not found: ", d),
            AppError::FileChanged => "file changed on disk; refusing to overwrite".to_owned(),
            AppError::InvalidPath(d) => prefixed("invalid path: ", d),
            AppError::Vault(d) => prefixed("invalid vault: ", d),
            AppError::Window(d) => prefixed("window error: ", d),
            AppError::Json(d) => prefixed("json error: ", d),
            AppError::SchemaVersion { found, max } => {
                let mut r = "vault database version ".to_owned();
                push_decimal_signed(&mut r, *found);
                push_str(&mut r, " is newer than app version ");
                push_decimal_signed(&mut r, *max);
                r
            },
            AppError::Parse(d) => prefixed("parse error: ", d),
            AppError::NotImplemented(d) => {
                let mut r = "not implemented yet: ".to_owned();
                push_str(&mut r, d);
                r
            },
            AppError::Other(d) => d.clone(),
        }
    }
}

} // verus!
