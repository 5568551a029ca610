//! A small marketplace over an in-memory, append-only ledger of purchases.
//!
//! Every purchase becomes a transaction, every transaction is sealed into a
//! block, and every block carries the hash of the block before it. The hash of
//! a block must start with a fixed number of zero characters, which the ledger
//! achieves by searching for a nonce.

pub mod ambient;
pub mod block;
pub mod canonical;
pub mod catalog;
pub mod digest;
pub mod error;
pub mod ledger;
pub mod purchase;
pub mod transaction;

