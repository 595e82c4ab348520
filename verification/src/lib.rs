//! Verified core of a multi-chain registry event indexer.
//!
//! The library holds the logic of the ingestion pipeline: the event model
//! and log decoder, the deduplicating store with its LRU cache, the RPC
//! provider rotation state machine, the per-chain polling statistics, the
//! adaptive sync planning of the indexer loop, and the supervisor's restart
//! policy. All I/O (database, RPC transport, HTTP) lives outside, in thin
//! unverified glue that feeds plain values into these functions.

pub mod config;
pub mod decode;
pub mod indexer;
pub mod models;
pub mod provider;
pub mod stats;
pub mod storage;
pub mod supervisor;
pub mod text;
