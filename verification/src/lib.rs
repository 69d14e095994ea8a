//! An authenticated key-value index: a sparse Merkle tree over a fixed
//! 256-bit key space. The tree binds a compact root digest to the full
//! key/value mapping and supports succinct membership proofs that a
//! verifier can check without access to the node store.

pub mod account;
pub mod correctness;
pub mod error;
pub mod kv_store;
pub mod merkle_proof;
pub mod sparse_merkle_tree;
pub mod transaction;
pub mod tree_hasher;

use vstd::prelude::*;

verus! {

/// A 32-byte digest: the output of the tree's hash function, also used
/// for keys, node identities and the root.
pub type Hash = [u8; 32];

} // verus!
