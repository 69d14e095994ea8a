use simple_sparse_merkle::kv_store::InMemoryKVStore;
use simple_sparse_merkle::sparse_merkle_tree::SparseMerkleTree;

type Hash = simple_sparse_merkle::Hash;

#[test]
fn combined_test_insert_and_get() {
    let store = InMemoryKVStore::new();
    let mut smt = SparseMerkleTree::new(store);

    let key: Hash = [1u8; 32];
    let value: Hash = [2u8; 32];

    smt.update(key, value).unwrap();
    assert_eq!(smt.get(key).unwrap(), Some(value));
}

#[test]
fn combined_test_proof_verification() {
    let store = InMemoryKVStore::new();
    let mut smt = SparseMerkleTree::new(store);

    let key: Hash = [1u8; 32];
    let value: Hash = [2u8; 32];

    smt.update(key, value).unwrap();
    let proof = smt.get_proof(key).unwrap();

    assert!(smt.verify_proof(key, value, &proof));
    assert!(!smt.verify_proof(key, [3u8; 32], &proof));
}

#[test]
fn combined_test_empty_tree() {
    let store = InMemoryKVStore::new();
    let smt = SparseMerkleTree::new(store);

    let key: Hash = [1u8; 32];
    assert_eq!(smt.get(key).unwrap(), None);
}

#[test]
fn combined_test_update_existing_key() {
    let store = InMemoryKVStore::new();
    let mut smt = SparseMerkleTree::new(store);

    let key: Hash = [1u8; 32];
    let value1: Hash = [2u8; 32];
    let value2: Hash = [3u8; 32];

    smt.update(key, value1).unwrap();
    assert_eq!(smt.get(key).unwrap(), Some(value1));

    smt.update(key, value2).unwrap();
    assert_eq!(smt.get(key).unwrap(), Some(value2));
}

#[test]
fn combined_test_root_changes() {
    let store = InMemoryKVStore::new();
    let mut smt = SparseMerkleTree::new(store);

    let initial_root = smt.root();

    let key: Hash = [1u8; 32];
    let value: Hash = [2u8; 32];

    smt.update(key, value).unwrap();
    let updated_root = smt.root();

    assert_ne!(initial_root, updated_root);
}

#[test]
fn combined_test_multiple_updates() {
    let store = InMemoryKVStore::new();
    let mut smt = SparseMerkleTree::new(store);

    for i in 0..10 {
        let key: Hash = [i; 32];
        let value: Hash = [i.wrapping_add(1); 32];
        smt.update(key, value).unwrap();
        assert_eq!(smt.get(key).unwrap(), Some(value));
    }

    for i in 0..10 {
        let key: Hash = [i; 32];
        let value: Hash = [i.wrapping_add(1); 32];
        let proof = smt.get_proof(key).unwrap();
        assert!(smt.verify_proof(key, value, &proof), "Failed to verify proof for key {:?}", key);
    }
}

#[test]
fn combined_test_large_tree() {
    let store = InMemoryKVStore::new();
    let mut smt = SparseMerkleTree::new(store);

    for i in 0..1000 {
        let key: Hash = [i as u8; 32];
        let value: Hash = [(i + 1) as u8; 32];
        smt.update(key, value).unwrap();
    }

    for i in 0..1000 {
        let key: Hash = [i as u8; 32];
        let value: Hash = [(i + 1) as u8; 32];
        assert_eq!(smt.get(key).unwrap(), Some(value));
        let proof = smt.get_proof(key).unwrap();
        assert!(smt.verify_proof(key, value, &proof), "Failed to verify proof for key {:?}", key);
    }
}
