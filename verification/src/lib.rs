//! A verified ledger engine: per-client accounts driven by an ordered
//! stream of deposits, withdrawals, and dispute-lifecycle transactions,
//! with machine-checked admission rules and balance accounting.

pub mod engine;
pub mod laws;
pub mod model;
