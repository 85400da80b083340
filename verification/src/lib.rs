//! An in-memory multi-version concurrency-control (MVCC) key-value store.
//!
//! Multiple transactions read and write a shared keyspace; each write
//! appends a new version of its key rather than mutating in place, and a
//! per-transaction isolation level decides which versions a reader sees.
//! Commit and abort are logical: a version written by an aborted
//! transaction stays in its chain but is never visible again.

pub mod database;
pub mod laws;
pub mod mvcc;
pub mod registry;
pub mod store;
