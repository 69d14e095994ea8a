use simple_sparse_merkle::kv_store::InMemoryKVStore;
use simple_sparse_merkle::sparse_merkle_tree::SparseMerkleTree;

type Hash = simple_sparse_merkle::Hash;

// Helper function to create a tree with some initial data
fn setup_tree() -> SparseMerkleTree<InMemoryKVStore> {
    let store = InMemoryKVStore::new();
    let mut smt = SparseMerkleTree::new(store);

    let key1: Hash = [1u8; 32];
    let value1: Hash = [10u8; 32];
    let key2: Hash = [2u8; 32];
    let value2: Hash = [20u8; 32];

    smt.update(key1, value1).unwrap();
    smt.update(key2, value2).unwrap();

    smt
}

#[test]
fn sparse_merkle_tree_tests_test_insert_and_get() {
    let store = InMemoryKVStore::new();
    let mut smt = SparseMerkleTree::new(store);
    let key: Hash = [1u8; 32];
    let value: Hash = [2u8; 32];

    smt.update(key, value).unwrap();

    assert_eq!(smt.get(key).unwrap(), Some(value));
}

#[test]
fn sparse_merkle_tree_tests_test_proof_verification() {
    let store = InMemoryKVStore::new();
    let mut smt = SparseMerkleTree::new(store);
    let key: Hash = [1u8; 32];
    let value: Hash = [2u8; 32];

    smt.update(key, value).unwrap();
    let proof = smt.get_proof(key).unwrap();

    assert!(smt.verify_proof(key, value, &proof));
    assert!(!smt.verify_proof(key, [3u8; 32], &proof));
}

#[test]
fn sparse_merkle_tree_tests_test_empty_tree() {
    let store = InMemoryKVStore::new();
    let smt = SparseMerkleTree::new(store);
    let key: Hash = [1u8; 32];

    assert_eq!(smt.get(key).unwrap(), None);
}

#[test]
fn sparse_merkle_tree_tests_test_new_tree_is_empty() {
    let store = InMemoryKVStore::new();
    let smt = SparseMerkleTree::new(store);

    assert_eq!(smt.root(), [0u8; 32]);
}

#[test]
fn test_single_insert() {
    let mut smt = setup_tree();
    let key: Hash = [3u8; 32];
    let value: Hash = [30u8; 32];

    smt.update(key, value).unwrap();

    assert_eq!(smt.get(key).unwrap(), Some(value));
}

#[test]
fn test_multiple_inserts() {
    let mut smt = setup_tree();

    for i in 0..10 {
        let key: Hash = [i; 32];
        let value: Hash = [i * 10; 32];
        smt.update(key, value).unwrap();
        assert_eq!(smt.get(key).unwrap(), Some(value));
    }
}

#[test]
fn sparse_merkle_tree_tests_test_update_existing_key() {
    let mut smt = setup_tree();
    let key: Hash = [1u8; 32];
    let new_value: Hash = [55u8; 32];

    smt.update(key, new_value).unwrap();

    assert_eq!(smt.get(key).unwrap(), Some(new_value));
}

#[test]
fn sparse_merkle_tree_tests_test_get_non_existent_key() {
    let smt = setup_tree();
    let non_existent_key: Hash = [99u8; 32];

    assert_eq!(smt.get(non_existent_key).unwrap(), None);
}

#[test]
fn sparse_merkle_tree_tests_test_root_changes_after_insert() {
    let mut smt = setup_tree();
    let initial_root = smt.root();
    let key: Hash = [7u8; 32];
    let value: Hash = [70u8; 32];

    smt.update(key, value).unwrap();

    assert_ne!(smt.root(), initial_root);
}

#[test]
fn test_consistency_after_multiple_updates() {
    let mut smt = setup_tree();
    let key: Hash = [42u8; 32];

    for i in 0..100 {
        let value: Hash = [i; 32];
        smt.update(key, value).unwrap();

        assert_eq!(smt.get(key).unwrap(), Some(value));
        let proof = smt.get_proof(key).unwrap();
        assert!(smt.verify_proof(key, value, &proof));
    }
}

#[test]
fn test_proof_verification2() {
    let mut smt = setup_tree();
    let key: Hash = [5u8; 32];
    let value: Hash = [50u8; 32];

    smt.update(key, value).unwrap();
    let proof = smt.get_proof(key).unwrap();
    assert!(smt.verify_proof(key, value, &proof));
}

#[test]
fn test_proof_verification_fails_for_wrong_value() {
    let mut smt = setup_tree();
    let key: Hash = [5u8; 32];
    let value: Hash = [50u8; 32];
    let wrong_value: Hash = [51u8; 32];

    smt.update(key, value).unwrap();
    let proof = smt.get_proof(key).unwrap();
    assert!(!smt.verify_proof(key, wrong_value, &proof));
}

#[test]
fn test_proof_verification_fails_for_non_existent_key() {
    let smt = setup_tree();
    let non_existent_key: Hash = [99u8; 32];
    let value: Hash = [0u8; 32];
    let proof = smt.get_proof(non_existent_key).unwrap();
    assert!(!smt.verify_proof(non_existent_key, value, &proof));
}

#[test]
fn test_large_tree2() {
    let mut smt = setup_tree();
    for i in 0..1000 {
        let key: Hash = [i as u8; 32];
        let value: Hash = [(i * 2) as u8; 32];
        smt.update(key, value).unwrap();
    }

    for i in 0..1000 {
        let key: Hash = [i as u8; 32];
        let expected_value: Hash = [(i * 2) as u8; 32];
        assert_eq!(smt.get(key).unwrap(), Some(expected_value));
    }
}

#[test]
fn test_update_existing_key2() {
    let store = InMemoryKVStore::new();
    let mut smt = SparseMerkleTree::new(store);

    let key: Hash = [1u8; 32];
    let value1: Hash = [2u8; 32];
    let value2: Hash = [3u8; 32];

    smt.update(key, value1).unwrap();
    assert_eq!(smt.get(key).unwrap(), Some(value1));

    smt.update(key, value2).unwrap();
    assert_eq!(smt.get(key).unwrap(), Some(value2));
}

#[test]
fn sparse_merkle_tree_tests_test_root_changes() {
    let store = InMemoryKVStore::new();
    let mut smt = SparseMerkleTree::new(store);

    let initial_root = smt.root();

    let key: Hash = [1u8; 32];
    let value: Hash = [2u8; 32];

    smt.update(key, value).unwrap();
    let updated_root = smt.root();

    assert_ne!(initial_root, updated_root);
}

#[test]
fn sparse_merkle_tree_tests_test_multiple_updates() {
    let store = InMemoryKVStore::new();
    let mut smt = SparseMerkleTree::new(store);

    for i in 0..10 {
        let key: Hash = [i; 32];
        let value: Hash = [i.wrapping_add(1); 32];
        smt.update(key, value).unwrap();
        assert_eq!(smt.get(key).unwrap(), Some(value));
    }

    for i in 0..10 {
        let key: Hash = [i; 32];
        let _value: Hash = [i.wrapping_add(1); 32];
        let _proof = smt.get_proof(key).unwrap();
    }
}

#[test]
fn sparse_merkle_tree_tests_test_large_tree() {
    let store = InMemoryKVStore::new();
    let mut smt = SparseMerkleTree::new(store);

    for i in 0..1000 {
        let key: Hash = [i as u8; 32];
        let value: Hash = [(i + 1) as u8; 32];
        smt.update(key, value).unwrap();
    }

    for i in 0..1000 {
        let key: Hash = [i as u8; 32];
        let value: Hash = [(i + 1) as u8; 32];
        assert_eq!(smt.get(key).unwrap(), Some(value));
        let _proof = smt.get_proof(key).unwrap();
    }
}
