//! Segmented transfer client core: chunk scheduling, per-chunk retry state
//! machines, result aggregation, reassembly and digest verification for a
//! minimal range-request protocol.

pub mod chunk;
pub mod response;
pub mod aggregator;
pub mod worker;
pub mod scheduler;
pub mod assembler;
pub mod digest;

pub use chunk::Chunk;
pub use chunk::ChunkError;
