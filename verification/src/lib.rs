//! Core of a blockchain checkpoint indexer.
//!
//! Given the effects of a transaction and an object provider that can look
//! up prior versions of objects, the library computes signed per-owner,
//! per-currency balance deltas and object-change records, and reorders
//! per-checkpoint message batches so that they leave in ascending
//! checkpoint-sequence order.

pub mod balance;
pub mod cache;
pub mod canonical;
pub mod coin;
pub mod extended;
pub mod handlers;
pub mod object_changes;
pub mod provider;
pub mod queue;
pub mod types;
