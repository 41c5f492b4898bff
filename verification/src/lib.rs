//! Bulk hydration of an in-memory cache from a key-value store.
//!
//! The store is enumerated one entity type at a time. Every key found under an
//! entity's prefix is decoded into an identifier, fetched with a bounded number
//! of requests in flight, and the per-key outcomes are folded into a mapping
//! from identifier to raw value under the entity's missing-key policy. A
//! single-use handle carries the finished mapping from the background work to
//! the synchronous caller.

pub mod entity;
pub mod error;
pub mod codec;
pub mod outcome;
pub mod hydrate;
pub mod counting;
pub mod scatter;
pub mod bridge;
pub mod adapter;
pub mod guarantees;
pub mod pipeline;
pub mod scan;
