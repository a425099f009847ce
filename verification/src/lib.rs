//! A verified token ledger and staking-weighted governance engine.
//!
//! The ledger keeps balances, allowances and the total supply in a
//! namespaced key-value store as fixed-width big-endian integers; the
//! governance engine keeps stake accounts and polls by value. Every state
//! transition is specified by a contract and checked by Verus.

pub mod codec;
pub mod error;
pub mod storage;
pub mod types;
pub mod token;
pub mod voting;

pub use codec::bytes_to_u128;
pub use codec::parse_u128;
