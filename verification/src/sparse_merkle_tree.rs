//! The sparse-Merkle-tree engine: it owns the current root digest and,
//! on top of a node store and the tree hasher, implements update,
//! lookup, proof generation and proof verification.

use vstd::prelude::*;
use crate::error::SMTError;
use crate::kv_store::KVStore;
use crate::merkle_proof::{MerkleProof, key_bit, key_bit_at, branch_digest, proof_accepts};
use crate::tree_hasher::{
    TreeHasher, empty_digest, leaf_digest, node_digest, zero_digest, digests_equal,
    vec_to_digest, digest_to_vec, concat_digests, split_record,
};

verus! {

/// The children of the tree node stored under digest `d`: an empty
/// subtree has two empty children, and a missing or malformed record
/// also reads as a pair of empty subtrees.
pub open spec fn node_children(store: Map<Seq<u8>, Seq<u8>>, d: Seq<u8>) -> (Seq<u8>, Seq<u8>) {
    if d == empty_digest() {
        (empty_digest(), empty_digest())
    } else if store.contains_key(d) && store[d].len() == 64 {
        (store[d].subrange(0, 32), store[d].subrange(32, 64))
    } else {
        (empty_digest(), empty_digest())
    }
}

/// The digest sitting on `key`'s path at `depth`, read by walking down
/// from `root` through the records in `store`. Depth 0 is the root
/// itself; depth 256 is the leaf position.
pub open spec fn path_digest(store: Map<Seq<u8>, Seq<u8>>, root: Seq<u8>, key: Seq<u8>, depth: int) -> Seq<u8>
    decreases depth,
{
    if depth <= 0 {
        root
    } else {
        let c = node_children(store, path_digest(store, root, key, depth - 1));
        if key_bit(key, depth - 1) {
            c.1
        } else {
            c.0
        }
    }
}

/// The sibling of `key`'s path at `depth`: the child, of the path node
/// at that depth, that the path does not descend into.
pub open spec fn path_sibling(store: Map<Seq<u8>, Seq<u8>>, root: Seq<u8>, key: Seq<u8>, depth: int) -> Seq<u8> {
    let c = node_children(store, path_digest(store, root, key, depth));
    if key_bit(key, depth) {
        c.0
    } else {
        c.1
    }
}

/// All 256 siblings of `key`'s path under `root`, ordered from the
/// level nearest the root to the deepest.
pub open spec fn path_siblings(store: Map<Seq<u8>, Seq<u8>>, root: Seq<u8>, key: Seq<u8>) -> Seq<Seq<u8>> {
    Seq::new(256, |i: int| path_sibling(store, root, key, i))
}

/// The first depth at or after `depth` where `key`'s path reaches an
/// empty subtree, or 256 when it never does.
pub open spec fn stop_from(store: Map<Seq<u8>, Seq<u8>>, root: Seq<u8>, key: Seq<u8>, depth: int) -> int
    decreases 256 - depth,
{
    if depth < 0 || depth >= 256 {
        256
    } else if path_digest(store, root, key, depth) == empty_digest() {
        depth
    } else {
        stop_from(store, root, key, depth + 1)
    }
}

/// The depth at which a proof walk for `key` stops: the first empty
/// subtree on the path, or 256 for a fully materialized path.
pub open spec fn stop_depth(store: Map<Seq<u8>, Seq<u8>>, root: Seq<u8>, key: Seq<u8>) -> int {
    stop_from(store, root, key, 0)
}

/// The node record an update writes at `depth` while rebuilding
/// `key`'s branch: the fresh child beside the existing sibling, in the
/// order `key`'s bit dictates.
pub open spec fn branch_record(key: Seq<u8>, leaf: Seq<u8>, sibs: Seq<Seq<u8>>, depth: int) -> Seq<u8> {
    let child = branch_digest(key, leaf, sibs, depth + 1);
    if key_bit(key, depth) {
        sibs[depth] + child
    } else {
        child + sibs[depth]
    }
}

/// The store after an update has written the branch records for depths
/// `depth` through 255, the deepest first and the one at `depth` last.
pub open spec fn store_with_branch(store: Map<Seq<u8>, Seq<u8>>, key: Seq<u8>, leaf: Seq<u8>, sibs: Seq<Seq<u8>>, depth: int) -> Map<Seq<u8>, Seq<u8>>
    decreases 256 - depth,
{
    if depth < 0 || depth >= 256 {
        store
    } else {
        store_with_branch(store, key, leaf, sibs, depth + 1).insert(
            branch_digest(key, leaf, sibs, depth),
            branch_record(key, leaf, sibs, depth),
        )
    }
}

/// The root after updating `key` to `value`: the old siblings of
/// `key`'s path, recombined with the new leaf digest.
pub open spec fn updated_root(store: Map<Seq<u8>, Seq<u8>>, root: Seq<u8>, key: Seq<u8>, value: Seq<u8>) -> Seq<u8> {
    branch_digest(key, leaf_digest(key, value), path_siblings(store, root, key), 0)
}

/// The store after updating `key` to `value`: the rebuilt branch
/// records, then the flat `key -> value` association written last.
pub open spec fn updated_store(store: Map<Seq<u8>, Seq<u8>>, root: Seq<u8>, key: Seq<u8>, value: Seq<u8>) -> Map<Seq<u8>, Seq<u8>> {
    store_with_branch(store, key, leaf_digest(key, value), path_siblings(store, root, key), 0).insert(key, value)
}

/// The digest at `depth` of `key`'s branch after its leaf has been
/// cleared: a subtree stays empty while the cleared child and the
/// sibling are both empty, and becomes an ordinary node digest as soon
/// as a non-empty sibling joins the path.
pub open spec fn cleared_digest(key: Seq<u8>, sibs: Seq<Seq<u8>>, depth: int) -> Seq<u8>
    decreases 256 - depth,
{
    if depth < 0 || depth >= 256 {
        empty_digest()
    } else {
        let child = cleared_digest(key, sibs, depth + 1);
        if child == empty_digest() && sibs[depth] == empty_digest() {
            empty_digest()
        } else if key_bit(key, depth) {
            node_digest(sibs[depth], child)
        } else {
            node_digest(child, sibs[depth])
        }
    }
}

/// The store after a removal has written the rebuilt records for
/// depths `depth` through 255: one for every level that does not
/// collapse to the empty subtree, the deepest first.
pub open spec fn store_with_clearing(store: Map<Seq<u8>, Seq<u8>>, key: Seq<u8>, sibs: Seq<Seq<u8>>, depth: int) -> Map<Seq<u8>, Seq<u8>>
    decreases 256 - depth,
{
    if depth < 0 || depth >= 256 {
        store
    } else {
        let inner = store_with_clearing(store, key, sibs, depth + 1);
        let child = cleared_digest(key, sibs, depth + 1);
        if child == empty_digest() && sibs[depth] == empty_digest() {
            inner
        } else {
            let rec = if key_bit(key, depth) {
                sibs[depth] + child
            } else {
                child + sibs[depth]
            };
            inner.insert(cleared_digest(key, sibs, depth), rec)
        }
    }
}

/// The root after removing `key`: the old siblings of its path,
/// recombined above an empty leaf position.
pub open spec fn removed_root(store: Map<Seq<u8>, Seq<u8>>, root: Seq<u8>, key: Seq<u8>) -> Seq<u8> {
    cleared_digest(key, path_siblings(store, root, key), 0)
}

/// The store after removing `key`: the rebuilt branch records, with
/// the flat `key -> value` association deleted last.
pub open spec fn removed_store(store: Map<Seq<u8>, Seq<u8>>, root: Seq<u8>, key: Seq<u8>) -> Map<Seq<u8>, Seq<u8>> {
    store_with_clearing(store, key, path_siblings(store, root, key), 0).remove(key)
}

/// What a point lookup answers: an empty tree holds nothing, and
/// otherwise a key maps to the 32-byte value on record for it, if any.
pub open spec fn lookup_result(store: Map<Seq<u8>, Seq<u8>>, root: Seq<u8>, key: Seq<u8>) -> Option<Seq<u8>> {
    if root == empty_digest() {
        None
    } else if store.contains_key(key) && store[key].len() == 32 {
        Some(store[key])
    } else {
        None
    }
}

/// The value of `stop_from` is pinned by where the path first turns
/// empty: every level before `upto` is materialized, and `upto` is
/// either an empty subtree or the full depth of the tree.
pub proof fn lemma_stop_from_value(store: Map<Seq<u8>, Seq<u8>>, root: Seq<u8>, key: Seq<u8>, depth: int, upto: int)
    requires
        0 <= depth <= upto <= 256,
        forall|j: int| depth <= j < upto ==> path_digest(store, root, key, j) != empty_digest(),
        upto < 256 ==> path_digest(store, root, key, upto) == empty_digest(),
    ensures
        stop_from(store, root, key, depth) == upto,
    decreases upto - depth,
{
    if depth < upto {
        lemma_stop_from_value(store, root, key, depth + 1, upto);
    }
}

/// The sparse Merkle tree over a 256-bit key space. An untouched
/// subtree of any size is represented by the single empty digest, so
/// only the branches actually written are materialized in the store.
pub struct SparseMerkleTree<S: KVStore> {
    pub(crate) hasher: TreeHasher,
    pub(crate) store: S,
    pub(crate) root: [u8; 32],
}

impl<S: KVStore> SparseMerkleTree<S> {
    /// The mapping the underlying store holds.
    pub closed spec fn contents(&self) -> Map<Seq<u8>, Seq<u8>> {
        self.store.contents()
    }

    /// The current root digest.
    pub closed spec fn root_digest(&self) -> Seq<u8> {
        self.root@
    }

    /// A tree over the given store, starting empty: its root is the
    /// empty digest.
    pub fn new(store: S) -> (t: Self)
        ensures
            t.root_digest() == empty_digest(),
            t.contents() == store.contents(),
    {
        let hasher = TreeHasher::new();
        let root = zero_digest();
        SparseMerkleTree { hasher, store, root }
    }

    /// The root digest: a deterministic summary of the entire current
    /// key-to-value mapping.
    pub fn root(&self) -> (r: [u8; 32])
        ensures
            r@ == self.root_digest(),
    {
        self.root
    }

    /// Reads the two child digests of the node stored under `digest`,
    /// as the model's `node_children` describes them.
    fn fetch_children(&self, digest: &[u8; 32]) -> (r: Result<([u8; 32], [u8; 32]), SMTError>)
        ensures
            S::infallible() ==> r is Ok,
            r matches Ok(c) ==> c.0@ == node_children(self.contents(), digest@).0
                && c.1@ == node_children(self.contents(), digest@).1,
    {
        let zero = zero_digest();
        if digests_equal(digest, &zero) {
            return Ok((zero, zero));
        }
        match self.store.get(digest) {
            Err(e) => Err(e),
            Ok(None) => Ok((zero, zero)),
            Ok(Some(v)) => {
                if v.len() == 64 {
                    Ok(split_record(&v))
                } else {
                    Ok((zero, zero))
                }
            },
        }
    }

    /// Walks `key`'s full path from the root and collects the sibling
    /// digest at each of the 256 levels.
    fn collect_siblings(&self, key: &[u8; 32]) -> (r: Result<Vec<[u8; 32]>, SMTError>)
        ensures
            S::infallible() ==> r is Ok,
            r matches Ok(s) ==> s@.len() == 256
                && s.deep_view() == path_siblings(self.contents(), self.root_digest(), key@),
    {
        let mut current = self.root;
        let mut sibs: Vec<[u8; 32]> = Vec::new();
        let mut i: usize = 0;
        while i < 256
            invariant
                i <= 256,
                sibs@.len() == i,
                current@ == path_digest(self.contents(), self.root_digest(), key@, i as int),
                forall|j: int| 0 <= j < i
                    ==> (#[trigger] sibs@[j])@ == path_sibling(self.contents(), self.root_digest(), key@, j),
            decreases 256 - i,
        {
            let c = match self.fetch_children(&current) {
                Ok(c) => c,
                Err(e) => {
                    return Err(e);
                },
            };
            if key_bit_at(key, i) {
                sibs.push(c.0);
                current = c.1;
            } else {
                sibs.push(c.1);
                current = c.0;
            }
            i += 1;
        }
        proof {
            assert forall|j: int| 0 <= j < 256
                implies #[trigger] sibs.deep_view()[j]
                    == path_sibling(self.contents(), self.root_digest(), key@, j) by {
                assert(sibs.deep_view()[j] == sibs@[j].deep_view());
                assert(sibs@[j].deep_view() =~= sibs@[j]@);
            }
            assert(sibs.deep_view() =~= path_siblings(self.contents(), self.root_digest(), key@));
        }
        Ok(sibs)
    }

    /// Rebuilds `key`'s branch bottom-up from the new leaf digest,
    /// combining at every level with the sibling already in the tree,
    /// persists the rebuilt node records and the flat `key -> value`
    /// association, and publishes the new root only after every store
    /// write has succeeded. On a store failure the root — the tree's
    /// externally visible state — is left unchanged.
    pub fn update(&mut self, key: [u8; 32], value: [u8; 32]) -> (r: Result<(), SMTError>)
        ensures
            S::infallible() ==> r is Ok,
            r is Ok ==> final(self).root_digest()
                == updated_root(old(self).contents(), old(self).root_digest(), key@, value@)
                && final(self).contents()
                == updated_store(old(self).contents(), old(self).root_digest(), key@, value@),
            r is Err ==> final(self).root_digest() == old(self).root_digest(),
    {
        let ghost store0 = self.contents();
        let ghost root0 = self.root_digest();
        let sibs = match self.collect_siblings(&key) {
            Ok(s) => s,
            Err(e) => {
                return Err(e);
            },
        };
        let ghost sibsv = sibs.deep_view();
        let mut current = self.hasher.digest_leaf(&key, &value);
        let ghost leaf = current@;
        let mut d: usize = 256;
        while d > 0
            invariant
                d <= 256,
                sibs@.len() == 256,
                sibsv == sibs.deep_view(),
                sibsv == path_siblings(store0, root0, key@),
                leaf == leaf_digest(key@, value@),
                current@ == branch_digest(key@, leaf, sibsv, d as int),
                self.contents() == store_with_branch(store0, key@, leaf, sibsv, d as int),
                self.root_digest() == root0,
                store0 == old(self).contents(),
                root0 == old(self).root_digest(),
            decreases d,
        {
            d -= 1;
            let sib = sibs[d];
            proof {
                assert(sibs.deep_view()[d as int] == sibs@[d as int].deep_view());
                assert(sibs@[d as int].deep_view() =~= sib@);
            }
            let (left, right) = if key_bit_at(&key, d) {
                (sib, current)
            } else {
                (current, sib)
            };
            current = self.hasher.digest_node(&left, &right);
            let rec = concat_digests(&left, &right);
            match self.store.set(current, rec) {
                Ok(u) => u,
                Err(e) => {
                    return Err(e);
                },
            };
        }
        match self.store.set(key, digest_to_vec(&value)) {
            Ok(u) => u,
            Err(e) => {
                return Err(e);
            },
        };
        self.root = current;
        Ok(())
    }

    /// Walks from the root toward the leaf for `key`, recording at
    /// each level the sibling digest the path does not take, and stops
    /// as soon as it reaches an empty subtree: the unrecorded deeper
    /// siblings are all implicitly empty.
    pub fn get_proof(&self, key: [u8; 32]) -> (r: Result<MerkleProof, SMTError>)
        ensures
            S::infallible() ==> r is Ok,
            self.root_digest() == empty_digest() ==> (r matches Ok(p) && p@.len() == 0),
            r matches Ok(p) ==> p@.len() == stop_depth(self.contents(), self.root_digest(), key@)
                && forall|i: int| 0 <= i < p@.len()
                    ==> #[trigger] p@[i] == path_sibling(self.contents(), self.root_digest(), key@, i),
    {
        let zero = zero_digest();
        let mut current = self.root;
        let mut side_nodes: Vec<[u8; 32]> = Vec::new();
        let mut i: usize = 0;
        let mut done = digests_equal(&current, &zero);
        while i < 256 && !done
            invariant
                i <= 256,
                side_nodes@.len() == i,
                zero@ == empty_digest(),
                current@ == path_digest(self.contents(), self.root_digest(), key@, i as int),
                done == (current@ == empty_digest()),
                done || self.root_digest() != empty_digest(),
                forall|j: int| 0 <= j < i
                    ==> path_digest(self.contents(), self.root_digest(), key@, j) != empty_digest(),
                forall|j: int| 0 <= j < i
                    ==> (#[trigger] side_nodes@[j])@
                        == path_sibling(self.contents(), self.root_digest(), key@, j),
            decreases 256 - i,
        {
            let c = match self.fetch_children(&current) {
                Ok(c) => c,
                Err(e) => {
                    return Err(e);
                },
            };
            if key_bit_at(&key, i) {
                side_nodes.push(c.0);
                current = c.1;
            } else {
                side_nodes.push(c.1);
                current = c.0;
            }
            i += 1;
            done = digests_equal(&current, &zero);
        }
        let p = MerkleProof { side_nodes };
        proof {
            lemma_stop_from_value(self.contents(), self.root_digest(), key@, 0, i as int);
            assert forall|j: int| 0 <= j < i
                implies #[trigger] p@[j]
                    == path_sibling(self.contents(), self.root_digest(), key@, j) by {
                assert(p@[j] == p.side_nodes@[j].deep_view());
                assert(p.side_nodes@[j].deep_view() =~= p.side_nodes@[j]@);
            }
        }
        Ok(p)
    }

    /// Proof generation under its other customary name.
    pub fn generate_proof(&self, key: [u8; 32]) -> (r: Result<MerkleProof, SMTError>)
        ensures
            S::infallible() ==> r is Ok,
            self.root_digest() == empty_digest() ==> (r matches Ok(p) && p@.len() == 0),
            r matches Ok(p) ==> p@.len() == stop_depth(self.contents(), self.root_digest(), key@)
                && forall|i: int| 0 <= i < p@.len()
                    ==> #[trigger] p@[i] == path_sibling(self.contents(), self.root_digest(), key@, i),
    {
        self.get_proof(key)
    }

    /// Checks `pf` against the tree's own current root: pure, and
    /// exactly the check an offline verifier holding only the root
    /// would make.
    pub fn verify_proof(&self, key: [u8; 32], value: [u8; 32], pf: &MerkleProof) -> (ok: bool)
        ensures
            ok == proof_accepts(key@, value@, pf@, self.root_digest()),
    {
        pf.verify(&self.root, &key, &value)
    }

    /// Deletes the flat `key -> value` association and rebuilds the
    /// authenticated branch with the empty digest in the leaf position,
    /// so the root again reflects the mapping without that key. A
    /// subtree whose children are all empty collapses back to the
    /// single empty digest; removing the last key empties the tree.
    pub fn remove(&mut self, key: [u8; 32]) -> (r: Result<(), SMTError>)
        ensures
            S::infallible() ==> r is Ok,
            r is Ok ==> final(self).root_digest()
                == removed_root(old(self).contents(), old(self).root_digest(), key@)
                && final(self).contents()
                == removed_store(old(self).contents(), old(self).root_digest(), key@),
            r is Err ==> final(self).root_digest() == old(self).root_digest(),
    {
        let ghost store0 = self.contents();
        let ghost root0 = self.root_digest();
        let sibs = match self.collect_siblings(&key) {
            Ok(s) => s,
            Err(e) => {
                return Err(e);
            },
        };
        let ghost sibsv = sibs.deep_view();
        let zero = zero_digest();
        let mut current = zero;
        let mut d: usize = 256;
        while d > 0
            invariant
                d <= 256,
                sibs@.len() == 256,
                sibsv == sibs.deep_view(),
                sibsv == path_siblings(store0, root0, key@),
                zero@ == empty_digest(),
                current@ == cleared_digest(key@, sibsv, d as int),
                self.contents() == store_with_clearing(store0, key@, sibsv, d as int),
                self.root_digest() == root0,
                store0 == old(self).contents(),
                root0 == old(self).root_digest(),
            decreases d,
        {
            d -= 1;
            let sib = sibs[d];
            proof {
                assert(sibs.deep_view()[d as int] == sibs@[d as int].deep_view());
                assert(sibs@[d as int].deep_view() =~= sib@);
            }
            let cur_empty = digests_equal(&current, &zero);
            let sib_empty = digests_equal(&sib, &zero);
            if cur_empty && sib_empty {
                // the whole subtree below this level is untouched:
                // it stays the one shared empty digest and no record
                // is materialized
            } else {
                let (left, right) = if key_bit_at(&key, d) {
                    (sib, current)
                } else {
                    (current, sib)
                };
                current = self.hasher.digest_node(&left, &right);
                let rec = concat_digests(&left, &right);
                match self.store.set(current, rec) {
                    Ok(u) => u,
                    Err(e) => {
                        return Err(e);
                    },
                };
            }
        }
        match self.store.remove(&key) {
            Ok(u) => u,
            Err(e) => {
                return Err(e);
            },
        };
        self.root = current;
        Ok(())
    }

    /// Looks `key` up in the flat association the store retains. An
    /// empty tree answers `None` at once; otherwise the answer is
    /// `Some` exactly for the keys whose 32-byte value is on record.
    pub fn get(&self, key: [u8; 32]) -> (r: Result<Option<[u8; 32]>, SMTError>)
        ensures
            S::infallible() ==> r is Ok,
            self.root_digest() == empty_digest() ==> (r matches Ok(o) && o is None),
            r matches Ok(o) ==> match o {
                Some(v) => lookup_result(self.contents(), self.root_digest(), key@) == Some(v@),
                None => lookup_result(self.contents(), self.root_digest(), key@) is None,
            },
    {
        let zero = zero_digest();
        if digests_equal(&self.root, &zero) {
            return Ok(None);
        }
        match self.store.get(&key) {
            Err(e) => Err(e),
            Ok(None) => Ok(None),
            Ok(Some(v)) => {
                if v.len() == 32 {
                    Ok(Some(vec_to_digest(&v)))
                } else {
                    Ok(None)
                }
            },
        }
    }
}

} // verus!
