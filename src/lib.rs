//! Scans smart-contract sources for their storage block and event
//! declarations, and renders scaffolding for an indexer from them.
pub mod error;
pub mod event;
pub mod generator;
pub mod laws;
pub mod naming;
pub mod scanner;
pub mod text;
pub mod types;
