//! The coin store: an append-only log of balance mutations on a branch tree.

pub mod ledger;
pub mod log;
pub mod projection;
pub mod records;
pub mod selection;
pub mod store;
pub mod wallet;
