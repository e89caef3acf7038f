//! A simple execution environment that applies balance transfers to a
//! Merkle-proven account state, together with the tools that build such
//! states and transactions.

pub mod address;
pub mod blob;
pub mod codec;
pub mod crypto;
pub mod error;
pub mod number;
pub mod transaction;
pub mod tree_index;
pub mod store;
pub mod reflist;
pub mod account;
pub mod ee;
pub mod tree;
pub mod list;
pub mod generate;
pub mod totals;
