//! Verified core of the UDS update delivery system: release metadata,
//! changelog parsing and browsing state, shutdown bookkeeping for transfers,
//! error classification, administration-client helpers and the choice of
//! listener transport.

pub mod build_info;
pub mod text;
pub mod version;
pub mod changelog;
pub mod shutdown;
pub mod errors;
pub mod models;
pub mod client;
pub mod tls;
