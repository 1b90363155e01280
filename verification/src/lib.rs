//! A small ledger library: it applies a stream of account events
//! (deposits, withdrawals, disputes, resolves, chargebacks) to
//! per-client balances, keeping an index of past transactions so that
//! dispute-lifecycle events can be matched to the transaction they
//! reference.
//!
//! Monetary amounts are fixed-point decimals with four fractional
//! digits, stored as a signed count of ten-thousandths.

pub mod cli_config;
pub mod engine;
pub mod index;
pub mod laws;
