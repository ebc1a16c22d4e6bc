//! In-memory, schema-typed tables and a parallel execution engine that runs
//! row-level filter and map operations over them in bounded, order-preserving
//! chunks, with live metrics and lifecycle events.

pub mod chunking;
pub mod execution;
pub mod ingestion;
pub mod processing;
mod sync;
pub mod types;
