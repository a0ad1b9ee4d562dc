//! Content-addressed publishing and retrieval of static sites.
//!
//! Files are split into fixed-size chunks, every chunk and every node of the
//! resulting Merkle DAG is named by a CID, and a retriever walks the DAG back
//! down to reassemble the published bytes.

pub mod content;
pub mod ipc;
pub mod json;
pub mod network;
pub mod node;
pub mod publisher;
pub mod retriever;
pub mod storage;
pub mod text;
