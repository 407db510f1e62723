//! A chain indexer: a store of blocks, transactions and per-address aggregates
//! fed one height at a time by a sync engine, with read queries over it.
//!
//! `types` holds the records, `model` the mathematical model the contracts are
//! stated over, `store` the store with its atomic, idempotent persist step and
//! its queries, `search` the free-text search, `sync` the ingestion cycle as a
//! state machine, and `laws` the properties proved of them together.
use vstd::prelude::*;

pub mod laws;
pub mod model;
pub mod search;
pub mod store;
pub mod sync;
pub mod types;

verus! {

} // verus!
