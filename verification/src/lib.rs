//! Account state-transition engine: applies a block's transactions and
//! inherents to a keyed account set and reverts that application exactly
//! from the receipts it produced.

pub mod account;
pub mod accounts;
pub mod basic_account;
pub mod inverse;
pub mod keys;
pub mod laws;
pub mod model;
pub mod phase;
pub mod primitives;
pub mod receipts;
pub mod trie;
