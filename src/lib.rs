//! Capture of live transaction activity into execution fixtures: the
//! accumulated transactions, the account-state diffs they caused, and the
//! roots and receipts of the block that re-mines them.

pub mod capture;
pub mod command;
pub mod fixture;
pub mod session;
