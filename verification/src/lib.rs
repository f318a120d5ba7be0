//! A performance-regression harness for an ordered key-value store that keeps
//! its nodes in addressable memory segments.
//!
//! The crate builds deterministic workloads from a seeded generator, sizes its
//! test values through a bounded/unbounded fixture model, enumerates a matrix
//! of benchmark scenarios, and drives the store's operations through phase
//! functions whose effect on the store's contents is verified. The store
//! itself is reached through a small interface with two backends over an
//! external engine and one fully verified in-memory implementation.

pub mod bytes;
pub mod fixture;
pub mod ident;
pub mod laws;
pub mod model;
pub mod order;
pub mod phases;
pub mod rng;
pub mod scenario;
pub mod stable;
pub mod store;
pub mod vec_store;
pub mod workload;
