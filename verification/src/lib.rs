//! Verified core of the Ruach markdown editor: path rules, marker extraction,
//! titles, escaping, file naming and the decisions behind the service layer.

pub mod attachment;
pub mod config;
pub mod db;
pub mod document;
pub mod error;
pub mod export;
pub mod fmt;
pub mod index;
pub mod path;
pub mod render;
pub mod search;
pub mod snapshot;
pub mod text;
pub mod vault;
pub mod window;
