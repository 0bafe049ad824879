//! An in-memory cache over a per-document persistence backend for
//! hierarchical theme documents.
//!
//! The cache maps a normalized (lowercased) document name to either a
//! resident in-memory document or a placeholder for a document that only
//! exists in the persistence backend. All access goes through a
//! non-blocking reader/writer lock model: an operation either runs at
//! once or fails with a concurrency error, and a poisoned lock makes the
//! store permanently inert.

pub mod assoc;
pub mod config;
pub mod defs;
pub mod laws;
pub mod memory;
pub mod storage;
