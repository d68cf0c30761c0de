//! Node storage layer for an append-only Merkle accumulator.
//!
//! The library models how accumulator nodes are addressed, cached and
//! persisted: positional addressing of tree nodes (`node_index`), the tagged
//! node representation and its content hash (`node`), a two-tier
//! least-recently-used cache service shared by all accumulator instances
//! (`cache`), and the reader/writer interface that a backing store must
//! satisfy, together with an in-memory reference implementation (`store`).

pub mod cache;
pub mod gas;
pub mod hash_value;
pub mod lru_model;
pub mod lru_table;
pub mod node;
pub mod node_index;
pub mod store;
