//! A typed performance registry for named sportsmen.
//!
//! The registry keeps, for every sportsman, at most one current performance
//! record per discipline kind. An in-memory tracker serves reads, while a
//! relational shadow store is the source of truth for writes; on startup the
//! tracker is rehydrated from the store in full.

pub mod catalog;
pub mod error;
pub mod laws;
pub mod metrics;
pub mod performance_tracker;
pub mod responses;
pub mod service;
pub mod sportsman;
pub mod store;
