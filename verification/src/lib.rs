//! Chunked object storage writer.
//!
//! Splits a byte object into fixed-size blocks chosen to minimize trailing
//! padding, assigns each block an ascending identifier, and records the
//! object's metadata (identity, path, block size, ordered topology of block
//! identifiers) only after every block is durably persisted.
//!
//! Empty-object policy, applied consistently throughout: an empty object
//! yields zero blocks and an empty topology; its metadata row is still
//! committed.
//!
//! The transactional backend is an external collaborator. `store` models the
//! state it makes visible to readers, `writer` is the orchestration state
//! machine fed by the host process that performs the backend calls, and
//! `driver` runs a whole ingestion against the model store, with the
//! backend's behaviour injected, to state and prove the atomicity guarantee:
//! no visible object row ever references a block that is not durable.

pub mod chunker;
pub mod driver;
pub mod errors;
pub mod picker;
pub mod store;
pub mod writer;
