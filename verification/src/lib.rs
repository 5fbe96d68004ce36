//! A bucketized operation-log engine for offline-first replication.
//!
//! The server partitions its change feed into buckets and streams ordered
//! operations for each of them. This crate records those operations in a
//! per-bucket log, keeps the additive bucket checksums exact while entries are
//! superseded and compacted, and folds the log of all buckets into the rows of
//! the user tables.
//!
//! The store is held in memory (`store`) and viewed as a mathematical model
//! (`model`), over which every entry point (`operations`, `sync_local`) has
//! its contract. Batches arrive as JSON (`json`, `decode`). What holds of
//! the store across the entry points is proved in `invariants`, `laws`,
//! `redelivery` and `visibility`.
pub mod accounting;
pub mod checksum;
pub mod decode;
pub mod error;
pub mod invariants;
pub mod json;
pub mod laws;
pub mod model;
pub mod operations;
pub mod redelivery;
pub mod seq_facts;
pub mod store;
pub mod sync_local;
pub mod validate;
pub mod visibility;
