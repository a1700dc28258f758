//! A verified fungible-token ledger: account balances, a total-supply
//! counter and an owner address, with overflow-checked transfers.
//!
//! The ledger is a deterministic state machine. Every operation either
//! succeeds and reports the event it produced, or fails with a structured
//! error and leaves the state untouched.

pub mod account;
pub mod ledger;
pub mod u256;
