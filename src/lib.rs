//! A ledger engine: per-client balances replayed from a stream of deposits,
//! withdrawals, disputes, resolutions and chargebacks.
pub mod money;
pub mod errors;
pub mod tx;
pub mod client;
pub mod engine;
pub mod cli;
