//! Merkle proofs: an ordered list of sibling digests, one per touched
//! tree level, and the verification algorithm that replays them.

use vstd::prelude::*;
use crate::tree_hasher::{
    TreeHasher, empty_digest, leaf_digest, node_digest, zero_digest, digests_equal,
};

verus! {

/// The bit of `key` that steers the walk at tree level `depth`:
/// `true` selects the right child. Bits are taken most significant
/// first, byte 0 before byte 1; level 0 is nearest the root.
pub open spec fn key_bit(key: Seq<u8>, depth: int) -> bool {
    (key[depth / 8] >> ((7 - (depth % 8)) as u8)) & 1u8 == 1u8
}

/// The bit of `key` at tree level `depth`.
pub fn key_bit_at(key: &[u8; 32], depth: usize) -> (b: bool)
    requires
        depth < 256,
    ensures
        b == key_bit(key@, depth as int),
{
    let byte = key[depth / 8];
    let shift = (7 - (depth % 8)) as u8;
    ((byte >> shift) & 1u8) == 1u8
}

/// The digest at `depth` of the branch obtained by placing `leaf` at
/// the bottom of `key`'s path and combining it upward, at each level
/// with the sibling `sibs[level]` on the side `key`'s bit dictates.
/// `sibs` covers levels 0 (root-adjacent) through 255 (deepest);
/// `branch_digest(.., 0)` is the root the branch commits to.
pub open spec fn branch_digest(key: Seq<u8>, leaf: Seq<u8>, sibs: Seq<Seq<u8>>, depth: int) -> Seq<u8>
    decreases 256 - depth,
{
    if depth < 0 || depth >= 256 {
        leaf
    } else {
        let child = branch_digest(key, leaf, sibs, depth + 1);
        if key_bit(key, depth) {
            node_digest(sibs[depth], child)
        } else {
            node_digest(child, sibs[depth])
        }
    }
}

/// A proof shorter than 256 entries stands for one whose unrecorded
/// deepest levels are all empty subtrees: verification pads it back.
pub open spec fn padded_siblings(sibs: Seq<Seq<u8>>) -> Seq<Seq<u8>> {
    if sibs.len() >= 256 {
        sibs
    } else {
        sibs + Seq::new((256 - sibs.len()) as nat, |i: int| empty_digest())
    }
}

/// The root a proof recomputes for `leaf` along `key`'s path.
pub open spec fn proof_root(key: Seq<u8>, leaf: Seq<u8>, sibs: Seq<Seq<u8>>) -> Seq<u8> {
    branch_digest(key, leaf, padded_siblings(sibs), 0)
}

/// Whether the proof with side nodes `sibs` establishes that `key`
/// maps to `value` under `root`: it must not exceed the tree depth,
/// and replaying it from the leaf digest must land exactly on `root`.
pub open spec fn proof_accepts(key: Seq<u8>, value: Seq<u8>, sibs: Seq<Seq<u8>>, root: Seq<u8>) -> bool {
    sibs.len() <= 256 && proof_root(key, leaf_digest(key, value), sibs) == root
}

/// An immutable ordered list of sibling digests: entry 0 belongs to
/// the level nearest the root. It is self-contained: verification
/// needs no access to the node store.
#[derive(Clone)]
pub struct MerkleProof {
    pub side_nodes: Vec<[u8; 32]>,
}

impl View for MerkleProof {
    type V = Seq<Seq<u8>>;

    open spec fn view(&self) -> Seq<Seq<u8>> {
        self.side_nodes.deep_view()
    }
}

impl MerkleProof {
    /// Recomputes the root from `digest_leaf(key, value)` and the
    /// recorded siblings, deepest first, and compares it with the
    /// claimed `root`. Pure: a verifier without the node store can
    /// run it. Returns `false` for any proof longer than the tree is
    /// deep.
    pub fn verify(&self, root: &[u8; 32], key: &[u8; 32], value: &[u8; 32]) -> (ok: bool)
        ensures
            ok == proof_accepts(key@, value@, self@, root@),
    {
        if self.side_nodes.len() > 256 {
            return false;
        }
        let hasher = TreeHasher::new();
        let zero = zero_digest();
        let ghost leaf = leaf_digest(key@, value@);
        let ghost sibs = padded_siblings(self@);
        let mut current = hasher.digest_leaf(key, value);
        let mut d: usize = 256;
        while d > 0
            invariant
                d <= 256,
                self@.len() <= 256,
                zero@ == empty_digest(),
                sibs == padded_siblings(self@),
                leaf == leaf_digest(key@, value@),
                current@ == branch_digest(key@, leaf, sibs, d as int),
            decreases d,
        {
            d -= 1;
            let sib: [u8; 32] = if d < self.side_nodes.len() {
                self.side_nodes[d]
            } else {
                zero
            };
            proof {
                assert(sib@ == sibs[d as int]);
            }
            if key_bit_at(key, d) {
                current = hasher.digest_node(&sib, &current);
            } else {
                current = hasher.digest_node(&current, &sib);
            }
        }
        digests_equal(&current, root)
    }
}

} // verus!
