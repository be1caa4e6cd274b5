//! Administration-client logic: request paths and release-import preparation.

pub mod api;
pub mod import;
