//! Core of a proof-of-stake node: fixed-point coin amounts, ledger entries
//! with their compact binary encoding, a speculative ledger overlay with its
//! finalization, the asynchronous message pool, the execution context that
//! smart-contract calls run against, and the block graph's ingestion of
//! candidate blocks.

pub mod amount;
pub mod async_pool;
pub mod block_graph;
pub mod context;
pub mod hash;
pub mod key_map;
pub mod ledger_changes;
pub mod ledger_entry;
pub mod serialization;
pub mod slot;
pub mod speculative_ledger;
pub mod types;
pub mod varint;
