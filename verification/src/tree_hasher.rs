//! The tree-hashing scheme: domain-separated leaf and internal-node
//! digests, and the canonical empty-subtree digest.

use vstd::prelude::*;

verus! {

/// What SHA-256 returns for a byte sequence. The digest of a message
/// depends on its bytes alone, so the result can be given a name; the
/// function itself is far too large to state.
pub uninterp spec fn sha256_digest(data: Seq<u8>) -> Seq<u8>;

/// The canonical digest of an empty subtree: 32 zero bytes. It is the
/// root of an empty tree and stands for every untouched subtree.
pub open spec fn empty_digest() -> Seq<u8> {
    Seq::new(32, |i: int| 0u8)
}

/// Digest of the leaf holding `value` under `key`: the hash of
/// `0x00 ++ key ++ value`. The leading byte separates the leaf domain
/// from the internal-node domain.
pub open spec fn leaf_digest(key: Seq<u8>, value: Seq<u8>) -> Seq<u8> {
    sha256_digest(seq![0u8] + key + value)
}

/// Digest of the internal node with children `left` and `right`: the
/// hash of `0x01 ++ left ++ right`.
pub open spec fn node_digest(left: Seq<u8>, right: Seq<u8>) -> Seq<u8> {
    sha256_digest(seq![1u8] + left + right)
}

/// Relies on sha2::Sha256 (through its `Digest::digest` method): the
/// digest is a pure function of the input bytes and is 32 bytes long.
#[verifier::external_body]
fn sha256_bytes(data: &Vec<u8>) -> (r: [u8; 32])
    ensures
        r@ == sha256_digest(data@),
{
    let out = <sha2::Sha256 as sha2::Digest>::digest(data.as_slice());
    out.into()
}

/// Returns the all-zero digest.
pub fn zero_digest() -> (r: [u8; 32])
    ensures
        r@ == empty_digest(),
{
    let r = [0u8; 32];
    proof {
        assert(r@ =~= empty_digest());
    }
    r
}

/// Whether two digests hold the same bytes.
pub fn digests_equal(a: &[u8; 32], b: &[u8; 32]) -> (r: bool)
    ensures
        r == (a@ == b@),
{
    let mut i: usize = 0;
    while i < 32
        invariant
            i <= 32,
            forall|j: int| 0 <= j < i ==> a@[j] == b@[j],
        decreases 32 - i,
    {
        if a[i] != b[i] {
            return false;
        }
        i += 1;
    }
    proof {
        assert(a@ =~= b@);
    }
    true
}

/// Copies a 32-byte vector into a digest.
pub fn vec_to_digest(v: &Vec<u8>) -> (r: [u8; 32])
    requires
        v@.len() == 32,
    ensures
        r@ == v@,
{
    let mut r = [0u8; 32];
    let mut i: usize = 0;
    while i < 32
        invariant
            i <= 32,
            v@.len() == 32,
            forall|j: int| 0 <= j < i ==> r@[j] == v@[j],
        decreases 32 - i,
    {
        r[i] = v[i];
        i += 1;
    }
    proof {
        assert(r@ =~= v@);
    }
    r
}

/// A digest as an owned byte vector.
pub fn digest_to_vec(d: &[u8; 32]) -> (v: Vec<u8>)
    ensures
        v@ == d@,
{
    let mut v: Vec<u8> = Vec::new();
    let mut i: usize = 0;
    while i < 32
        invariant
            i <= 32,
            v@ == d@.take(i as int),
        decreases 32 - i,
    {
        v.push(d[i]);
        i += 1;
    }
    proof {
        assert(v@ =~= d@);
    }
    v
}

/// The 64-byte node record holding two child digests side by side.
pub fn concat_digests(a: &[u8; 32], b: &[u8; 32]) -> (v: Vec<u8>)
    ensures
        v@ == a@ + b@,
{
    let mut v: Vec<u8> = Vec::new();
    let mut i: usize = 0;
    while i < 32
        invariant
            i <= 32,
            v@ == a@.take(i as int),
        decreases 32 - i,
    {
        v.push(a[i]);
        i += 1;
    }
    let mut j: usize = 0;
    while j < 32
        invariant
            j <= 32,
            v@ == a@ + b@.take(j as int),
        decreases 32 - j,
    {
        v.push(b[j]);
        j += 1;
    }
    proof {
        assert(v@ =~= a@ + b@);
    }
    v
}

/// The two digests a 64-byte node record holds.
pub fn split_record(v: &Vec<u8>) -> (r: ([u8; 32], [u8; 32]))
    requires
        v@.len() == 64,
    ensures
        r.0@ == v@.subrange(0, 32),
        r.1@ == v@.subrange(32, 64),
{
    let mut left = [0u8; 32];
    let mut right = [0u8; 32];
    let mut i: usize = 0;
    while i < 32
        invariant
            i <= 32,
            v@.len() == 64,
            forall|j: int| 0 <= j < i ==> left@[j] == v@[j],
            forall|j: int| 0 <= j < i ==> right@[j] == v@[j + 32],
        decreases 32 - i,
    {
        left[i] = v[i];
        right[i] = v[i + 32];
        i += 1;
    }
    proof {
        assert(left@ =~= v@.subrange(0, 32));
        assert(right@ =~= v@.subrange(32, 64));
    }
    (left, right)
}

/// Computes the three digests the tree needs. Stateless; the hash
/// function is SHA-256.
pub struct TreeHasher {}

impl TreeHasher {
    pub fn new() -> (h: TreeHasher) {
        TreeHasher {}
    }

    /// The digest of arbitrary bytes, used where a caller keys data by
    /// content hash.
    pub fn digest(&self, data: &Vec<u8>) -> (r: [u8; 32])
        ensures
            r@ == sha256_digest(data@),
    {
        sha256_bytes(data)
    }

    /// The digest identifying the leaf that binds `value` to `key`.
    pub fn digest_leaf(&self, key: &[u8; 32], value: &[u8; 32]) -> (r: [u8; 32])
        ensures
            r@ == leaf_digest(key@, value@),
    {
        let mut data: Vec<u8> = Vec::new();
        data.push(0u8);
        let mut i: usize = 0;
        while i < 32
            invariant
                i <= 32,
                data@ == seq![0u8] + key@.take(i as int),
            decreases 32 - i,
        {
            data.push(key[i]);
            i += 1;
        }
        let mut j: usize = 0;
        while j < 32
            invariant
                j <= 32,
                data@ == seq![0u8] + key@ + value@.take(j as int),
            decreases 32 - j,
        {
            data.push(value[j]);
            j += 1;
        }
        proof {
            assert(data@ =~= seq![0u8] + key@ + value@);
        }
        sha256_bytes(&data)
    }

    /// The digest identifying the internal node with the given children.
    pub fn digest_node(&self, left: &[u8; 32], right: &[u8; 32]) -> (r: [u8; 32])
        ensures
            r@ == node_digest(left@, right@),
    {
        let mut data: Vec<u8> = Vec::new();
        data.push(1u8);
        let mut i: usize = 0;
        while i < 32
            invariant
                i <= 32,
                data@ == seq![1u8] + left@.take(i as int),
            decreases 32 - i,
        {
            data.push(left[i]);
            i += 1;
        }
        let mut j: usize = 0;
        while j < 32
            invariant
                j <= 32,
                data@ == seq![1u8] + left@ + right@.take(j as int),
            decreases 32 - j,
        {
            data.push(right[j]);
            j += 1;
        }
        proof {
            assert(data@ =~= seq![1u8] + left@ + right@);
        }
        sha256_bytes(&data)
    }

    /// The empty-subtree digest: the same constant at every depth.
    pub fn zero_hash(&self) -> (r: [u8; 32])
        ensures
            r@ == empty_digest(),
    {
        zero_digest()
    }

    /// The empty-subtree digest under its other customary name.
    pub fn zero_value(&self) -> (r: [u8; 32])
        ensures
            r@ == empty_digest(),
    {
        zero_digest()
    }
}

} // verus!
