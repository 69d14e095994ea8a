//! The laws the tree obeys, proved against the models its contracts
//! are stated over. The hash function is only named, never defined, so
//! each law that depends on distinct inputs having distinct digests
//! takes that freedom from collisions — true of a cryptographic hash
//! except with negligible probability — as an explicit hypothesis.

use vstd::prelude::*;
use crate::tree_hasher::{empty_digest, leaf_digest};
use crate::merkle_proof::{key_bit, branch_digest, padded_siblings, proof_root, proof_accepts};
use crate::sparse_merkle_tree::{
    path_digest, path_sibling, path_siblings, stop_depth, branch_record, store_with_branch,
    updated_root, updated_store, cleared_digest, removed_root, lookup_result,
    lemma_stop_from_value,
};

verus! {

/// Every digest on the rebuilt branch is 32 bytes long. The real hash
/// function has a fixed 32-byte output, so this always holds of it.
pub open spec fn branch_digests_sized(key: Seq<u8>, leaf: Seq<u8>, sibs: Seq<Seq<u8>>) -> bool {
    forall|d: int| 0 <= d <= 256 ==> (#[trigger] branch_digest(key, leaf, sibs, d)).len() == 32
}

/// The digests of the rebuilt branch collide with nothing they must
/// stay apart from: they are pairwise distinct, none is the empty
/// digest, and none equals the key being written. For the real hash
/// function a violation of any conjunct is a hash collision (or a
/// digest of all zeroes, or one equal to a chosen key), which a
/// collision-resistant hash yields only with negligible probability.
pub open spec fn branch_digests_fresh(key: Seq<u8>, leaf: Seq<u8>, sibs: Seq<Seq<u8>>) -> bool {
    &&& forall|d: int| 0 <= d < 256 ==> #[trigger] branch_digest(key, leaf, sibs, d) != empty_digest()
    &&& forall|d1: int, d2: int|
        0 <= d1 < d2 < 256 ==> branch_digest(key, leaf, sibs, d1) != branch_digest(
            key,
            leaf,
            sibs,
            d2,
        )
    &&& forall|d: int| 0 <= d < 256 ==> #[trigger] branch_digest(key, leaf, sibs, d) != key
}

/// A sibling read back from the store is always 32 bytes: it is either
/// the empty digest or one half of a 64-byte node record.
proof fn lemma_path_sibling_sized(store: Map<Seq<u8>, Seq<u8>>, root: Seq<u8>, key: Seq<u8>, d: int)
    ensures
        path_sibling(store, root, key, d).len() == 32,
{
    assert(empty_digest().len() == 32);
}

/// After the branch records for depths `depth` through 255 have been
/// written, each one can be read back under its digest: the records
/// are keyed by pairwise distinct digests, so none overwrites another.
proof fn lemma_store_with_branch_at(store: Map<Seq<u8>, Seq<u8>>, key: Seq<u8>, leaf: Seq<u8>, sibs: Seq<Seq<u8>>, depth: int, d: int)
    requires
        0 <= depth <= d < 256,
        forall|d1: int, d2: int|
            0 <= d1 < d2 < 256 ==> branch_digest(key, leaf, sibs, d1) != branch_digest(
                key,
                leaf,
                sibs,
                d2,
            ),
    ensures
        store_with_branch(store, key, leaf, sibs, depth).contains_key(
            branch_digest(key, leaf, sibs, d),
        ),
        store_with_branch(store, key, leaf, sibs, depth)[branch_digest(key, leaf, sibs, d)]
            == branch_record(key, leaf, sibs, d),
    decreases d - depth,
{
    if depth < d {
        lemma_store_with_branch_at(store, key, leaf, sibs, depth + 1, d);
        assert(branch_digest(key, leaf, sibs, depth) != branch_digest(key, leaf, sibs, d));
    }
}

/// Walking down the freshly updated tree along any key that agrees
/// with the updated one on the first `d` bits retraces the rebuilt
/// branch: the digest on the probe's path at `d` is exactly the branch
/// digest the update computed for that depth. With the updated key
/// itself as the probe this covers the whole path.
proof fn lemma_updated_path_digest(store: Map<Seq<u8>, Seq<u8>>, root: Seq<u8>, key: Seq<u8>, value: Seq<u8>, probe: Seq<u8>, d: int)
    requires
        0 <= d <= 256,
        branch_digests_sized(key, leaf_digest(key, value), path_siblings(store, root, key)),
        branch_digests_fresh(key, leaf_digest(key, value), path_siblings(store, root, key)),
        forall|j: int| 0 <= j < d ==> key_bit(probe, j) == key_bit(key, j),
    ensures
        path_digest(updated_store(store, root, key, value), updated_root(store, root, key, value), probe, d)
            == branch_digest(key, leaf_digest(key, value), path_siblings(store, root, key), d),
    decreases d,
{
    let sibs = path_siblings(store, root, key);
    let leaf = leaf_digest(key, value);
    let s1 = updated_store(store, root, key, value);
    let r1 = updated_root(store, root, key, value);
    if d > 0 {
        lemma_updated_path_digest(store, root, key, value, probe, d - 1);
        let c_prev = branch_digest(key, leaf, sibs, d - 1);
        lemma_store_with_branch_at(store, key, leaf, sibs, 0, d - 1);
        assert(c_prev != key);
        assert(s1.contains_key(c_prev) && s1[c_prev] == branch_record(key, leaf, sibs, d - 1));
        let child = branch_digest(key, leaf, sibs, d);
        lemma_path_sibling_sized(store, root, key, d - 1);
        assert(sibs[d - 1] == path_sibling(store, root, key, d - 1));
        assert(child.len() == 32);
        let rec = branch_record(key, leaf, sibs, d - 1);
        assert(c_prev != empty_digest());
        if key_bit(key, d - 1) {
            assert(rec == sibs[d - 1] + child);
            assert(rec.subrange(0, 32) =~= sibs[d - 1]);
            assert(rec.subrange(32, 64) =~= child);
        } else {
            assert(rec == child + sibs[d - 1]);
            assert(rec.subrange(0, 32) =~= child);
            assert(rec.subrange(32, 64) =~= sibs[d - 1]);
        }
    }
}

/// The sibling read back at any depth of the freshly updated tree is
/// the same sibling the update combined with at that depth.
proof fn lemma_updated_path_sibling(store: Map<Seq<u8>, Seq<u8>>, root: Seq<u8>, key: Seq<u8>, value: Seq<u8>, d: int)
    requires
        0 <= d < 256,
        branch_digests_sized(key, leaf_digest(key, value), path_siblings(store, root, key)),
        branch_digests_fresh(key, leaf_digest(key, value), path_siblings(store, root, key)),
    ensures
        path_sibling(updated_store(store, root, key, value), updated_root(store, root, key, value), key, d)
            == path_siblings(store, root, key)[d],
{
    let sibs = path_siblings(store, root, key);
    let leaf = leaf_digest(key, value);
    let s1 = updated_store(store, root, key, value);
    lemma_updated_path_digest(store, root, key, value, key, d);
    let c = branch_digest(key, leaf, sibs, d);
    lemma_store_with_branch_at(store, key, leaf, sibs, 0, d);
    assert(c != key);
    assert(s1.contains_key(c) && s1[c] == branch_record(key, leaf, sibs, d));
    let child = branch_digest(key, leaf, sibs, d + 1);
    lemma_path_sibling_sized(store, root, key, d);
    assert(sibs[d] == path_sibling(store, root, key, d));
    assert(child.len() == 32);
    let rec = branch_record(key, leaf, sibs, d);
    assert(c != empty_digest());
    if key_bit(key, d) {
        assert(rec == sibs[d] + child);
        assert(rec.subrange(0, 32) =~= sibs[d]);
    } else {
        assert(rec == child + sibs[d]);
        assert(rec.subrange(32, 64) =~= sibs[d]);
    }
}

/// Round-trip: once `update(key, value)` has run, the flat association
/// holds exactly `value` under `key`, and — provided the new root is
/// not the empty digest, which for the real hash function a fresh
/// update never produces — a point lookup answers `Some(value)`.
pub proof fn lemma_update_then_get(store: Map<Seq<u8>, Seq<u8>>, root: Seq<u8>, key: Seq<u8>, value: Seq<u8>)
    requires
        value.len() == 32,
        updated_root(store, root, key, value) != empty_digest(),
    ensures
        lookup_result(
            updated_store(store, root, key, value),
            updated_root(store, root, key, value),
            key,
        ) == Some(value),
{
}

/// Empty tree: under the empty root a lookup answers `None`, whatever
/// the key and whatever the store holds.
pub proof fn lemma_empty_tree_lookup(store: Map<Seq<u8>, Seq<u8>>, key: Seq<u8>)
    ensures
        lookup_result(store, empty_digest(), key) is None,
{
}

/// Proof soundness: after `update(key, value)`, the proof the tree
/// generates for `key` — the 256 siblings of its path under the new
/// root — verifies against the new root. The hypotheses say the
/// digests along the rebuilt branch are 32 bytes and free of
/// collisions; see `branch_digests_fresh`.
pub proof fn lemma_update_then_proof_verifies(store: Map<Seq<u8>, Seq<u8>>, root: Seq<u8>, key: Seq<u8>, value: Seq<u8>)
    requires
        branch_digests_sized(key, leaf_digest(key, value), path_siblings(store, root, key)),
        branch_digests_fresh(key, leaf_digest(key, value), path_siblings(store, root, key)),
    ensures
        stop_depth(
            updated_store(store, root, key, value),
            updated_root(store, root, key, value),
            key,
        ) == 256,
        proof_accepts(
            key,
            value,
            path_siblings(
                updated_store(store, root, key, value),
                updated_root(store, root, key, value),
                key,
            ),
            updated_root(store, root, key, value),
        ),
{
    let sibs = path_siblings(store, root, key);
    let leaf = leaf_digest(key, value);
    let s1 = updated_store(store, root, key, value);
    let r1 = updated_root(store, root, key, value);
    let ps1 = path_siblings(s1, r1, key);
    assert forall|d: int| 0 <= d < 256 implies #[trigger] path_digest(s1, r1, key, d)
        != empty_digest() by {
        lemma_updated_path_digest(store, root, key, value, key, d);
    }
    lemma_stop_from_value(s1, r1, key, 0, 256);
    assert forall|d: int| 0 <= d < 256 implies #[trigger] ps1[d] == sibs[d] by {
        lemma_updated_path_sibling(store, root, key, value, d);
    }
    assert(ps1 =~= sibs);
    assert(padded_siblings(ps1) == ps1);
    assert(proof_root(key, leaf, ps1) == r1);
}

/// Proof completeness, negative case: a proof that verifies for one
/// value verifies for no other value whose recomputation diverges. The
/// third hypothesis says the two recomputed branches never collide
/// back together once they differ — for the real hash function a
/// violation is a hash collision.
pub proof fn lemma_proof_rejects_other_value(key: Seq<u8>, value: Seq<u8>, other: Seq<u8>, sibs: Seq<Seq<u8>>, root: Seq<u8>)
    requires
        proof_accepts(key, value, sibs, root),
        leaf_digest(key, other) != leaf_digest(key, value),
        forall|d: int|
            0 <= d < 256 && branch_digest(key, leaf_digest(key, other), padded_siblings(sibs), d + 1)
                != branch_digest(key, leaf_digest(key, value), padded_siblings(sibs), d + 1)
                ==> #[trigger] branch_digest(key, leaf_digest(key, other), padded_siblings(sibs), d)
                != branch_digest(key, leaf_digest(key, value), padded_siblings(sibs), d),
    ensures
        !proof_accepts(key, other, sibs, root),
{
    lemma_branch_chains_differ(key, leaf_digest(key, value), leaf_digest(key, other), padded_siblings(sibs), 0);
}

/// Two branch recomputations that start from different leaf digests
/// and never collide stay different all the way to the root.
proof fn lemma_branch_chains_differ(key: Seq<u8>, leaf_a: Seq<u8>, leaf_b: Seq<u8>, ps: Seq<Seq<u8>>, d: int)
    requires
        0 <= d <= 256,
        leaf_a != leaf_b,
        forall|e: int|
            0 <= e < 256 && branch_digest(key, leaf_b, ps, e + 1) != branch_digest(key, leaf_a, ps, e + 1)
                ==> #[trigger] branch_digest(key, leaf_b, ps, e) != branch_digest(key, leaf_a, ps, e),
    ensures
        branch_digest(key, leaf_b, ps, d) != branch_digest(key, leaf_a, ps, d),
    decreases 256 - d,
{
    if d < 256 {
        lemma_branch_chains_differ(key, leaf_a, leaf_b, ps, d + 1);
    }
}

/// Update idempotence: writing the same `(key, value)` twice in a row
/// leaves both the root and the store exactly where the first write
/// put them — the second rebuild reads back the same siblings and
/// re-inserts the same records. Hypotheses as in
/// `lemma_update_then_proof_verifies`.
pub proof fn lemma_update_idempotent(store: Map<Seq<u8>, Seq<u8>>, root: Seq<u8>, key: Seq<u8>, value: Seq<u8>)
    requires
        branch_digests_sized(key, leaf_digest(key, value), path_siblings(store, root, key)),
        branch_digests_fresh(key, leaf_digest(key, value), path_siblings(store, root, key)),
    ensures
        updated_root(
            updated_store(store, root, key, value),
            updated_root(store, root, key, value),
            key,
            value,
        ) == updated_root(store, root, key, value),
        updated_store(
            updated_store(store, root, key, value),
            updated_root(store, root, key, value),
            key,
            value,
        ) == updated_store(store, root, key, value),
{
    let sibs = path_siblings(store, root, key);
    let leaf = leaf_digest(key, value);
    let s1 = updated_store(store, root, key, value);
    let r1 = updated_root(store, root, key, value);
    let ps1 = path_siblings(s1, r1, key);
    assert forall|d: int| 0 <= d < 256 implies #[trigger] ps1[d] == sibs[d] by {
        lemma_updated_path_sibling(store, root, key, value, d);
    }
    assert(ps1 =~= sibs);
    assert forall|d: int| 0 <= d < 256 implies s1.contains_key(
        #[trigger] branch_digest(key, leaf, sibs, d),
    ) && s1[branch_digest(key, leaf, sibs, d)] == branch_record(key, leaf, sibs, d) by {
        lemma_store_with_branch_at(store, key, leaf, sibs, 0, d);
        assert(branch_digest(key, leaf, sibs, d) != key);
    }
    lemma_rebuild_same(s1, key, leaf, sibs, 0);
    assert(s1.insert(key, value) =~= s1);
}

/// Re-inserting records a store already holds, each under its own
/// digest with its own bytes, changes nothing.
proof fn lemma_rebuild_same(s: Map<Seq<u8>, Seq<u8>>, key: Seq<u8>, leaf: Seq<u8>, sibs: Seq<Seq<u8>>, depth: int)
    requires
        forall|d: int|
            depth <= d < 256 ==> s.contains_key(#[trigger] branch_digest(key, leaf, sibs, d))
                && s[branch_digest(key, leaf, sibs, d)] == branch_record(key, leaf, sibs, d),
    ensures
        store_with_branch(s, key, leaf, sibs, depth) == s,
    decreases 256 - depth,
{
    if 0 <= depth < 256 {
        lemma_rebuild_same(s, key, leaf, sibs, depth + 1);
        assert(s.insert(branch_digest(key, leaf, sibs, depth), branch_record(key, leaf, sibs, depth))
            =~= s);
    }
}

/// Writing the branch records for depths `depth` through 255 touches
/// no key outside the branch digests themselves.
proof fn lemma_store_with_branch_other(store: Map<Seq<u8>, Seq<u8>>, key: Seq<u8>, leaf: Seq<u8>, sibs: Seq<Seq<u8>>, depth: int, probe: Seq<u8>)
    requires
        forall|d: int|
            depth <= d < 256 ==> #[trigger] branch_digest(key, leaf, sibs, d) != probe,
    ensures
        store_with_branch(store, key, leaf, sibs, depth).contains_key(probe)
            == store.contains_key(probe),
        store.contains_key(probe) ==> store_with_branch(store, key, leaf, sibs, depth)[probe]
            == store[probe],
    decreases 256 - depth,
{
    if 0 <= depth < 256 {
        lemma_store_with_branch_other(store, key, leaf, sibs, depth + 1, probe);
    }
}

/// An update touches no other key's entry: for any `probe` different
/// from the written key that none of the rebuilt branch digests hits —
/// for the real hash function a hit is a collision with a chosen key —
/// the flat entry under `probe` is exactly what it was.
pub proof fn lemma_update_preserves_other_keys(store: Map<Seq<u8>, Seq<u8>>, root: Seq<u8>, key: Seq<u8>, value: Seq<u8>, probe: Seq<u8>)
    requires
        probe != key,
        forall|d: int|
            0 <= d < 256 ==> #[trigger] branch_digest(
                key,
                leaf_digest(key, value),
                path_siblings(store, root, key),
                d,
            ) != probe,
    ensures
        updated_store(store, root, key, value).contains_key(probe) == store.contains_key(probe),
        store.contains_key(probe) ==> updated_store(store, root, key, value)[probe]
            == store[probe],
{
    lemma_store_with_branch_other(
        store,
        key,
        leaf_digest(key, value),
        path_siblings(store, root, key),
        0,
        probe,
    );
}

/// Whatever branch records an update writes over a key the store did
/// not hold, they are all 64 bytes: two 32-byte children side by side.
proof fn lemma_store_with_branch_unwritten(store: Map<Seq<u8>, Seq<u8>>, root: Seq<u8>, key: Seq<u8>, leaf: Seq<u8>, depth: int, probe: Seq<u8>)
    requires
        !store.contains_key(probe),
        branch_digests_sized(key, leaf, path_siblings(store, root, key)),
    ensures
        store_with_branch(store, key, leaf, path_siblings(store, root, key), depth).contains_key(
            probe,
        ) ==> store_with_branch(store, key, leaf, path_siblings(store, root, key), depth)[probe].len()
            == 64,
    decreases 256 - depth,
{
    let sibs = path_siblings(store, root, key);
    if 0 <= depth < 256 {
        lemma_store_with_branch_unwritten(store, root, key, leaf, depth + 1, probe);
        lemma_path_sibling_sized(store, root, key, depth);
        assert(sibs[depth] == path_sibling(store, root, key, depth));
        assert(branch_digest(key, leaf, sibs, depth + 1).len() == 32);
        assert(branch_record(key, leaf, sibs, depth).len() == 64);
    }
}

/// A key never written stays absent: after updating some other key,
/// a lookup of a key the store did not hold still answers `None` —
/// the only blobs the update can leave under it are 64-byte node
/// records, which no lookup mistakes for a 32-byte value.
pub proof fn lemma_unwritten_key_reads_absent(store: Map<Seq<u8>, Seq<u8>>, root: Seq<u8>, key: Seq<u8>, value: Seq<u8>, probe: Seq<u8>)
    requires
        probe != key,
        !store.contains_key(probe),
        branch_digests_sized(key, leaf_digest(key, value), path_siblings(store, root, key)),
    ensures
        lookup_result(
            updated_store(store, root, key, value),
            updated_root(store, root, key, value),
            probe,
        ) is None,
{
    lemma_store_with_branch_unwritten(store, root, key, leaf_digest(key, value), 0, probe);
}

/// A branch whose siblings are all empty collapses entirely when its
/// leaf is cleared.
proof fn lemma_cleared_all_empty(key: Seq<u8>, d: int)
    ensures
        cleared_digest(key, empty_siblings(), d) == empty_digest(),
    decreases 256 - d,
{
    if 0 <= d < 256 {
        lemma_cleared_all_empty(key, d + 1);
    }
}

/// Removing a key whose path has no non-empty sibling — the only
/// occupied path of the tree — returns the root to the empty digest:
/// the transition back into the engine's empty state.
pub proof fn lemma_remove_sole_key_empties_root(store: Map<Seq<u8>, Seq<u8>>, root: Seq<u8>, key: Seq<u8>)
    requires
        path_siblings(store, root, key) == empty_siblings(),
    ensures
        removed_root(store, root, key) == empty_digest(),
{
    lemma_cleared_all_empty(key, 0);
}

/// The round trip through the empty state: a key written into a tree
/// with the empty root and then removed leaves the root empty again.
/// Hypotheses as in `lemma_update_then_proof_verifies`.
pub proof fn lemma_update_then_remove_restores_empty(store: Map<Seq<u8>, Seq<u8>>, key: Seq<u8>, value: Seq<u8>)
    requires
        branch_digests_sized(key, leaf_digest(key, value), empty_siblings()),
        branch_digests_fresh(key, leaf_digest(key, value), empty_siblings()),
    ensures
        removed_root(
            updated_store(store, empty_digest(), key, value),
            updated_root(store, empty_digest(), key, value),
            key,
        ) == empty_digest(),
{
    lemma_empty_root_siblings(store, key);
    let s1 = updated_store(store, empty_digest(), key, value);
    let r1 = updated_root(store, empty_digest(), key, value);
    assert forall|d: int| 0 <= d < 256 implies #[trigger] path_siblings(s1, r1, key)[d]
        == empty_siblings()[d] by {
        lemma_updated_path_sibling(store, empty_digest(), key, value, d);
    }
    assert(path_siblings(s1, r1, key) =~= empty_siblings());
    lemma_remove_sole_key_empties_root(s1, r1, key);
}

/// The siblings of any path in a tree nothing was ever written to:
/// one empty digest per level.
pub open spec fn empty_siblings() -> Seq<Seq<u8>> {
    Seq::new(256, |i: int| empty_digest())
}

/// Under the empty root every path digest is the empty digest,
/// whatever the store holds: the walk never consults it.
proof fn lemma_path_under_empty_root(store: Map<Seq<u8>, Seq<u8>>, key: Seq<u8>, d: int)
    requires
        0 <= d,
    ensures
        path_digest(store, empty_digest(), key, d) == empty_digest(),
    decreases d,
{
    if d > 0 {
        lemma_path_under_empty_root(store, key, d - 1);
    }
}

/// Under the empty root every sibling is the empty digest too.
proof fn lemma_empty_root_siblings(store: Map<Seq<u8>, Seq<u8>>, key: Seq<u8>)
    ensures
        path_siblings(store, empty_digest(), key) == empty_siblings(),
{
    assert forall|d: int| 0 <= d < 256 implies #[trigger] path_siblings(
        store,
        empty_digest(),
        key,
    )[d] == empty_digest() by {
        lemma_path_under_empty_root(store, key, d);
    }
    assert(path_siblings(store, empty_digest(), key) =~= empty_siblings());
}

/// A branch recomputation at `d` reads only the siblings at `d` and
/// deeper.
proof fn lemma_branch_digest_congruent(key: Seq<u8>, leaf: Seq<u8>, a: Seq<Seq<u8>>, b: Seq<Seq<u8>>, d: int)
    requires
        forall|j: int| d <= j < 256 ==> a[j] == b[j],
    ensures
        branch_digest(key, leaf, a, d) == branch_digest(key, leaf, b, d),
    decreases 256 - d,
{
    if 0 <= d < 256 {
        lemma_branch_digest_congruent(key, leaf, a, b, d + 1);
    }
}

/// Once a path reaches an empty subtree it stays in empty subtrees all
/// the way down.
proof fn lemma_path_stays_empty(store: Map<Seq<u8>, Seq<u8>>, root: Seq<u8>, key: Seq<u8>, d: int, e: int)
    requires
        0 <= d <= e,
        path_digest(store, root, key, d) == empty_digest(),
    ensures
        path_digest(store, root, key, e) == empty_digest(),
    decreases e - d,
{
    if d < e {
        assert(path_digest(store, root, key, d + 1) == empty_digest());
        lemma_path_stays_empty(store, root, key, d + 1, e);
    }
}

/// After one key is written into a tree with the empty root, the
/// siblings of a second key diverging from it at bit `t` are empty at
/// every level except `t`, where the first key's whole subtree below
/// the fork stands.
proof fn lemma_merged_siblings(store: Map<Seq<u8>, Seq<u8>>, k1: Seq<u8>, v1: Seq<u8>, k2: Seq<u8>, t: int, d: int)
    requires
        0 <= t < 256,
        0 <= d < 256,
        forall|j: int| 0 <= j < t ==> key_bit(k1, j) == key_bit(k2, j),
        key_bit(k1, t) != key_bit(k2, t),
        branch_digests_sized(k1, leaf_digest(k1, v1), empty_siblings()),
        branch_digests_fresh(k1, leaf_digest(k1, v1), empty_siblings()),
    ensures
        path_sibling(
            updated_store(store, empty_digest(), k1, v1),
            updated_root(store, empty_digest(), k1, v1),
            k2,
            d,
        ) == if d == t {
            branch_digest(k1, leaf_digest(k1, v1), empty_siblings(), t + 1)
        } else {
            empty_digest()
        },
{
    lemma_empty_root_siblings(store, k1);
    let sibs = path_siblings(store, empty_digest(), k1);
    let leaf = leaf_digest(k1, v1);
    let s1 = updated_store(store, empty_digest(), k1, v1);
    let r1 = updated_root(store, empty_digest(), k1, v1);
    if d <= t {
        lemma_updated_path_digest(store, empty_digest(), k1, v1, k2, d);
        let c = branch_digest(k1, leaf, sibs, d);
        lemma_store_with_branch_at(store, k1, leaf, sibs, 0, d);
        assert(c != k1);
        assert(s1.contains_key(c) && s1[c] == branch_record(k1, leaf, sibs, d));
        let child = branch_digest(k1, leaf, sibs, d + 1);
        assert(sibs[d] == empty_digest());
        assert(child.len() == 32);
        let rec = branch_record(k1, leaf, sibs, d);
        assert(c != empty_digest());
        if key_bit(k1, d) {
            assert(rec == sibs[d] + child);
            assert(rec.subrange(0, 32) =~= sibs[d]);
            assert(rec.subrange(32, 64) =~= child);
        } else {
            assert(rec == child + sibs[d]);
            assert(rec.subrange(0, 32) =~= child);
            assert(rec.subrange(32, 64) =~= sibs[d]);
        }
    } else {
        // below the fork the second key's path sits in the empty
        // subtree the first key's sibling left there
        lemma_updated_path_digest(store, empty_digest(), k1, v1, k2, t);
        let c = branch_digest(k1, leaf, sibs, t);
        lemma_store_with_branch_at(store, k1, leaf, sibs, 0, t);
        assert(c != k1);
        let child = branch_digest(k1, leaf, sibs, t + 1);
        assert(sibs[t] == empty_digest());
        assert(child.len() == 32);
        let rec = branch_record(k1, leaf, sibs, t);
        assert(c != empty_digest());
        if key_bit(k1, t) {
            assert(rec == sibs[t] + child);
            assert(rec.subrange(0, 32) =~= sibs[t]);
            assert(rec.subrange(32, 64) =~= child);
        } else {
            assert(rec == child + sibs[t]);
            assert(rec.subrange(0, 32) =~= child);
            assert(rec.subrange(32, 64) =~= sibs[t]);
        }
        assert(path_digest(s1, r1, k2, t + 1) == empty_digest());
        lemma_path_stays_empty(s1, r1, k2, t + 1, d);
    }
}

/// The two merged branches commit to the same digest at the fork and
/// climb through the same empty siblings above it, so they agree at
/// every depth at or above the fork.
proof fn lemma_merged_chain_equal(k1: Seq<u8>, leaf1: Seq<u8>, k2: Seq<u8>, leaf2: Seq<u8>, t: int, d: int)
    requires
        0 <= d <= t < 256,
        forall|j: int| 0 <= j < t ==> key_bit(k1, j) == key_bit(k2, j),
        key_bit(k1, t) != key_bit(k2, t),
    ensures
        branch_digest(
            k2,
            leaf2,
            empty_siblings().update(t, branch_digest(k1, leaf1, empty_siblings(), t + 1)),
            d,
        ) == branch_digest(
            k1,
            leaf1,
            empty_siblings().update(t, branch_digest(k2, leaf2, empty_siblings(), t + 1)),
            d,
        ),
    decreases t - d,
{
    let c1_below = branch_digest(k1, leaf1, empty_siblings(), t + 1);
    let c2_below = branch_digest(k2, leaf2, empty_siblings(), t + 1);
    let sibs_for_k2 = empty_siblings().update(t, c1_below);
    let sibs_for_k1 = empty_siblings().update(t, c2_below);
    if d == t {
        lemma_branch_digest_congruent(k2, leaf2, sibs_for_k2, empty_siblings(), t + 1);
        lemma_branch_digest_congruent(k1, leaf1, sibs_for_k1, empty_siblings(), t + 1);
    } else {
        lemma_merged_chain_equal(k1, leaf1, k2, leaf2, t, d + 1);
    }
}

/// Order independence at the fork: two keys that diverge at bit `t`,
/// written into a tree with the empty root, yield the same root in
/// either order — the root summarizes the final mapping, not the
/// insertion history. Collision-freedom hypotheses as in
/// `branch_digests_fresh`, for each key's own branch over the empty
/// siblings.
pub proof fn lemma_two_updates_commute_from_empty(store: Map<Seq<u8>, Seq<u8>>, k1: Seq<u8>, v1: Seq<u8>, k2: Seq<u8>, v2: Seq<u8>, t: int)
    requires
        0 <= t < 256,
        forall|j: int| 0 <= j < t ==> key_bit(k1, j) == key_bit(k2, j),
        key_bit(k1, t) != key_bit(k2, t),
        branch_digests_sized(k1, leaf_digest(k1, v1), empty_siblings()),
        branch_digests_fresh(k1, leaf_digest(k1, v1), empty_siblings()),
        branch_digests_sized(k2, leaf_digest(k2, v2), empty_siblings()),
        branch_digests_fresh(k2, leaf_digest(k2, v2), empty_siblings()),
    ensures
        updated_root(
            updated_store(store, empty_digest(), k1, v1),
            updated_root(store, empty_digest(), k1, v1),
            k2,
            v2,
        ) == updated_root(
            updated_store(store, empty_digest(), k2, v2),
            updated_root(store, empty_digest(), k2, v2),
            k1,
            v1,
        ),
{
    let leaf1 = leaf_digest(k1, v1);
    let leaf2 = leaf_digest(k2, v2);
    let c1_below = branch_digest(k1, leaf1, empty_siblings(), t + 1);
    let c2_below = branch_digest(k2, leaf2, empty_siblings(), t + 1);
    lemma_empty_root_siblings(store, k1);
    lemma_empty_root_siblings(store, k2);
    let s1a = updated_store(store, empty_digest(), k1, v1);
    let r1a = updated_root(store, empty_digest(), k1, v1);
    let s1b = updated_store(store, empty_digest(), k2, v2);
    let r1b = updated_root(store, empty_digest(), k2, v2);
    assert forall|d: int| 0 <= d < 256 implies #[trigger] path_siblings(s1a, r1a, k2)[d]
        == empty_siblings().update(t, c1_below)[d] by {
        lemma_merged_siblings(store, k1, v1, k2, t, d);
    }
    assert(path_siblings(s1a, r1a, k2) =~= empty_siblings().update(t, c1_below));
    assert forall|d: int| 0 <= d < 256 implies #[trigger] path_siblings(s1b, r1b, k1)[d]
        == empty_siblings().update(t, c2_below)[d] by {
        assert forall|j: int| 0 <= j < t implies key_bit(k2, j) == key_bit(k1, j) by {}
        lemma_merged_siblings(store, k2, v2, k1, t, d);
    }
    assert(path_siblings(s1b, r1b, k1) =~= empty_siblings().update(t, c2_below));
    lemma_merged_chain_equal(k1, leaf1, k2, leaf2, t, 0);
}

/// The state reached by a sequence of updates, first call first.
pub open spec fn applied_updates(store: Map<Seq<u8>, Seq<u8>>, root: Seq<u8>, ops: Seq<(Seq<u8>, Seq<u8>)>) -> (Map<Seq<u8>, Seq<u8>>, Seq<u8>)
    decreases ops.len(),
{
    if ops.len() == 0 {
        (store, root)
    } else {
        applied_updates(
            updated_store(store, root, ops[0].0, ops[0].1),
            updated_root(store, root, ops[0].0, ops[0].1),
            ops.drop_first(),
        )
    }
}

/// Determinism: the state after an update is a pure function of the
/// state before it, so two trees that start alike and receive the same
/// updates in the same order end with the same store and the same
/// root, however the runs are timed.
pub proof fn lemma_updates_deterministic(store_a: Map<Seq<u8>, Seq<u8>>, root_a: Seq<u8>, store_b: Map<Seq<u8>, Seq<u8>>, root_b: Seq<u8>, ops: Seq<(Seq<u8>, Seq<u8>)>)
    requires
        store_a == store_b,
        root_a == root_b,
    ensures
        applied_updates(store_a, root_a, ops) == applied_updates(store_b, root_b, ops),
{
}

} // verus!
