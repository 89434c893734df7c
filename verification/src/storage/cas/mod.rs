//! Content-addressed storage backend: a Merkle tree over a blob store, with
//! snapshots.

pub mod backend;
pub mod block;
pub mod laws;
pub mod snapshot;
pub mod tree;
pub mod tree_laws;

pub use backend::CasBackend;
pub use snapshot::{SnapshotEntry, SnapshotManager};
pub use tree::{calculate_depth, MerkleTree, MerkleTreeMut, BLOCK_SIZE, FANOUT, HASH_SIZE};
