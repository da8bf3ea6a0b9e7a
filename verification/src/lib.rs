//! A small ledger engine: deposits, withdrawals and the dispute lifecycle
//! (dispute, resolve, chargeback) applied one transaction at a time against
//! per-client accounts held in a keyed store.

pub mod amount;
pub mod types;
pub mod transactions;
pub mod client;
pub mod db;
pub mod engine;
pub mod laws;
