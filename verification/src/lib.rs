//! Core engine of a patch-series submission tool.
//!
//! The library decides which commits form the series to submit (the
//! commits unique to the current branch), tracks the next version
//! number from existing version tags, names and orders the on-disk
//! patch artifacts, and drives the rebuild/rollback state machine that
//! reconstructs history from the (possibly edited) artifacts while
//! guaranteeing the repository is restored on any failure.
pub mod artifacts;
pub mod cmd;
pub mod decimal;
pub mod engine;
pub mod error;
pub mod mail;
pub mod names;
pub mod order;
pub mod repo;
pub mod resolve;
pub mod text;
pub mod version;
