//! A minimal ledger: each account ("wallet") has a credit limit and a running
//! balance; clients post deposit/withdraw transactions and query a statement
//! (current balance plus the ten most recent transactions).
//!
//! The heart of the crate is the balance rule `total >= -limit`, enforced by
//! every storage backend. This library states and verifies that rule, the
//! repository contract built on it (`Ledger`), and the cache-aside layer that
//! mirrors balance fields in a fast key-value store (`CachedLedger`).

pub mod cache;
pub mod error;
pub mod ledger;
pub mod models;
pub mod rule;
