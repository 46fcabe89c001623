//! Materializing head tables from event tables.

pub mod event_accumulator;
pub mod event_accumulator_actions;
