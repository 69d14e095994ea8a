// The engine works on fixed 32-byte keys and values, so arbitrary byte
// strings enter the tree through the hasher: the key's digest is the
// path, the value's digest the stored value.

use simple_sparse_merkle::kv_store::InMemoryKVStore;
use simple_sparse_merkle::sparse_merkle_tree::SparseMerkleTree;
use simple_sparse_merkle::tree_hasher::TreeHasher;

fn digest_of(data: &[u8]) -> [u8; 32] {
    TreeHasher::new().digest(&data.to_vec())
}

#[test]
fn sparse_merkle_tree_test_insert_and_get() {
    let store = InMemoryKVStore::new();
    let mut smt = SparseMerkleTree::new(store);

    let key = digest_of(b"key1");
    let value = digest_of(b"value1");

    // Insert value
    smt.update(key, value).unwrap();

    // Retrieve value
    let retrieved = smt.get(key).unwrap();
    assert_eq!(retrieved, Some(value));
}

#[test]
fn test_update() {
    let store = InMemoryKVStore::new();
    let mut smt = SparseMerkleTree::new(store);

    let key = digest_of(b"key1");
    let initial_value = digest_of(b"value1");
    let updated_value = digest_of(b"value2");

    // Insert initial value
    smt.update(key, initial_value).unwrap();
    assert_eq!(smt.get(key).unwrap(), Some(initial_value));

    // Update the value
    smt.update(key, updated_value).unwrap();
    assert_eq!(smt.get(key).unwrap(), Some(updated_value));
}

#[test]
fn test_remove() {
    let store = InMemoryKVStore::new();
    let mut smt = SparseMerkleTree::new(store);

    let key = digest_of(b"key1");
    let value = digest_of(b"value1");

    // Insert value
    smt.update(key, value).unwrap();
    assert_eq!(smt.get(key).unwrap(), Some(value));

    // Remove the value
    smt.remove(key).unwrap();
    assert_eq!(smt.get(key).unwrap(), None);
}

#[test]
fn sparse_merkle_tree_test_proof_verification() {
    let store = InMemoryKVStore::new();
    let mut smt = SparseMerkleTree::new(store);

    let key = digest_of(b"key1");
    let value = digest_of(b"value1");

    // Insert value
    smt.update(key, value).unwrap();

    // Generate proof
    let proof = smt.generate_proof(key).unwrap();

    // Verify the proof against the current root
    assert!(proof.verify(&smt.root(), &key, &value));

    // Test with an incorrect value
    let incorrect_value = digest_of(b"incorrect_value");
    assert!(!proof.verify(&smt.root(), &key, &incorrect_value));
}
