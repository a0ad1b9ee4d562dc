//! Chunking, content identifiers and the Merkle DAG of a published folder.

pub mod chunker;
pub mod cid;
pub mod counts;
pub mod listing;
pub mod merkle;
pub mod order;
pub mod walk;
