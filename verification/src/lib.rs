//! Per-shard coordination layer of a vector search storage engine.
//!
//! A [`segment::Segment`] maps caller-visible point identifiers to dense
//! internal storage offsets and keeps three stores — vector data, payload
//! data, and the identifier index — mutually consistent under a stream of
//! versioned write operations, while serving similarity search.

pub mod id_mapper;
pub mod laws;
pub mod payload;
pub mod payload_storage;
pub mod query_planner;
pub mod segment;
pub mod types;
pub mod vector_storage;

pub use types::OpResult;
pub use types::OperationError;
