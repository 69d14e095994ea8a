use simple_sparse_merkle::kv_store::InMemoryKVStore;
use simple_sparse_merkle::sparse_merkle_tree::SparseMerkleTree;

type Hash = simple_sparse_merkle::Hash;

#[test]
fn test_insert_get_roundtrip() {
    let store = InMemoryKVStore::new();
    let mut smt = SparseMerkleTree::new(store);

    let key: Hash = [1u8; 32];
    let value: Hash = [2u8; 32];

    smt.update(key, value).unwrap();
    assert_eq!(smt.get(key).unwrap(), Some(value));
}

#[test]
fn tree_sparse_merkle_test_insert_and_get() {
    let store = InMemoryKVStore::new();
    let mut smt = SparseMerkleTree::new(store);
    let key: Hash = [1u8; 32];
    let value: Hash = [2u8; 32];

    smt.update(key, value).unwrap();
    assert_eq!(smt.get(key).unwrap(), Some(value));
}

#[test]
fn tree_sparse_merkle_test_proof_verification() {
    let store = InMemoryKVStore::new();
    let mut smt = SparseMerkleTree::new(store);
    let key: Hash = [1u8; 32];
    let value: Hash = [2u8; 32];

    smt.update(key, value).unwrap();
    let proof = smt.get_proof(key).unwrap();
    assert!(smt.verify_proof(key, value, &proof));

    assert!(!smt.verify_proof(key, [3u8; 32], &proof)); // Incorrect value should fail
}

#[test]
fn tree_sparse_merkle_test_empty_tree() {
    let store = InMemoryKVStore::new();
    let smt = SparseMerkleTree::new(store);
    let key: Hash = [1u8; 32];

    assert_eq!(smt.get(key).unwrap(), None); // No value should be found
}

#[test]
fn tree_sparse_merkle_test_new_tree_is_empty() {
    let store = InMemoryKVStore::new();
    let smt = SparseMerkleTree::new(store);

    assert_eq!(smt.root(), [0u8; 32]); // Root of empty tree
}

#[test]
fn tree_sparse_merkle_test_update_existing_key() {
    let store = InMemoryKVStore::new();
    let mut smt = SparseMerkleTree::new(store);
    let key: Hash = [1u8; 32];
    let initial_value: Hash = [2u8; 32];
    let updated_value: Hash = [3u8; 32];

    smt.update(key, initial_value).unwrap();
    assert_eq!(smt.get(key).unwrap(), Some(initial_value));

    smt.update(key, updated_value).unwrap();
    assert_eq!(smt.get(key).unwrap(), Some(updated_value));
}

#[test]
fn tree_sparse_merkle_test_get_non_existent_key() {
    let store = InMemoryKVStore::new();
    let smt = SparseMerkleTree::new(store);
    let non_existent_key: Hash = [99u8; 32];

    assert_eq!(smt.get(non_existent_key).unwrap(), None); // Key should not exist
}

#[test]
fn tree_sparse_merkle_test_root_changes_after_insert() {
    let store = InMemoryKVStore::new();
    let mut smt = SparseMerkleTree::new(store);
    let initial_root = smt.root();
    let key: Hash = [7u8; 32];
    let value: Hash = [70u8; 32];

    smt.update(key, value).unwrap();
    assert_ne!(smt.root(), initial_root); // Root hash should change
}

#[test]
fn test_large_tree_inserts() {
    let store = InMemoryKVStore::new();
    let mut smt = SparseMerkleTree::new(store);

    for i in 0..1000 {
        let key: Hash = [i as u8; 32];
        let value: Hash = [(i * 2) as u8; 32];
        smt.update(key, value).unwrap();
    }

    for i in 0..1000 {
        let key: Hash = [i as u8; 32];
        let expected_value: Hash = [(i * 2) as u8; 32];
        assert_eq!(smt.get(key).unwrap(), Some(expected_value));
    }
}

#[test]
fn test_memory_usage() {
    let store = InMemoryKVStore::new();
    let mut smt = SparseMerkleTree::new(store);

    for i in 0..1000 {
        let key: Hash = [i as u8; 32];
        let value: Hash = [(i * 2) as u8; 32];
        smt.update(key, value).unwrap();
    }
}
