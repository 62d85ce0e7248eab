//! Reconciliation of a published broadcast schedule against a persisted
//! schedule store.
//!
//! The crate holds the decisions of a reconciliation run and proves them
//! against a mathematical model; fetching the feed and talking to the
//! database are left to the caller, which drives [`run::Run`] one store
//! request at a time.

pub mod instant;
pub mod feed;
pub mod channels;
pub mod store;
pub mod protocol;
pub mod model;
pub mod run;
pub mod memory;
pub mod reconcile;
pub mod laws;
