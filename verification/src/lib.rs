//! Connection monitoring: parsing of socket listings, address classification,
//! filtering, and the bookkeeping of seen connections.
pub mod text;
pub mod ipaddr;
pub mod model;
pub mod logger;
pub mod monitor;
pub mod classify;
pub mod listing;
pub mod history;
pub mod report;
pub mod config;
pub mod laws;
