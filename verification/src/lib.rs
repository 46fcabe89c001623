//! A branchable, append-only event ledger with a materialized current state.

pub mod coin_store;
pub mod db;
pub mod person;
pub mod schema;
pub mod sequences;
pub mod span_frame;
pub mod storage;
pub mod watcher;
