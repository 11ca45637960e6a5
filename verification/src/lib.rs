//! An append-only, hash-linked vote ledger with election-state bookkeeping:
//! entries are chained by content hashes, and the store enforces one vote per
//! voter per election, over known elections and permitted options only.

pub mod block;
pub mod blockchain;
pub mod models;
