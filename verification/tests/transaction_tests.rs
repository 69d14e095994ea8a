use simple_sparse_merkle::transaction::{Transaction, TransactionBuilder};

#[test]
fn test_transaction_builder_success() {
    let from = [1u8; 32];
    let to = [2u8; 32];
    let amount = 100;
    let nonce = 1;
    let signature = [0u8; 64];

    let tx = TransactionBuilder::new()
        .from(from)
        .to(to)
        .amount(amount)
        .nonce(nonce)
        .signature(signature)
        .build()
        .expect("Failed to build transaction");

    assert_eq!(tx.from, from);
    assert_eq!(tx.to, to);
    assert_eq!(tx.amount, amount);
    assert_eq!(tx.nonce, nonce);
    assert_eq!(tx.signature, signature);
}

#[test]
fn test_transaction_builder_missing_fields() {
    let result = TransactionBuilder::new().build();
    assert!(result.is_err());
    assert_eq!(result.unwrap_err(), "Sender address is missing");
}

#[test]
fn test_transaction_builder_error_order() {
    let base = || TransactionBuilder::new().from([1u8; 32]);
    assert_eq!(base().build().unwrap_err(), "Recipient address is missing");
    let with_to = || base().to([2u8; 32]);
    assert_eq!(with_to().build().unwrap_err(), "Amount is missing");
    let with_amount = || with_to().amount(5);
    assert_eq!(with_amount().build().unwrap_err(), "Nonce is missing");
    let with_nonce = || with_amount().nonce(7);
    assert_eq!(with_nonce().build().unwrap_err(), "Signature is missing");
    assert!(with_nonce().signature([3u8; 64]).build().is_ok());
}

#[test]
fn test_transaction_default_is_zeroed() {
    let tx = Transaction::default();
    assert_eq!(tx.from, [0u8; 32]);
    assert_eq!(tx.to, [0u8; 32]);
    assert_eq!(tx.amount, 0);
    assert_eq!(tx.nonce, 0);
    assert_eq!(tx.signature, [0u8; 64]);
}

#[test]
fn test_compute_hash_exact_value() {
    let tx = TransactionBuilder::new()
        .from([1u8; 32])
        .to([2u8; 32])
        .amount(100)
        .nonce(1)
        .signature([0u8; 64])
        .build()
        .unwrap();
    let expected: [u8; 32] = [
        0xf7, 0xed, 0xfc, 0x1a, 0x45, 0xdc, 0x53, 0xd3, 0x72, 0x1d, 0x53, 0x1c, 0xb2, 0xe3, 0x34,
        0x83, 0xf5, 0x17, 0xef, 0x5a, 0x8d, 0x54, 0x6d, 0xd7, 0xcd, 0x0f, 0xdf, 0xc1, 0x00, 0x08,
        0xab, 0xb7,
    ];
    assert_eq!(tx.compute_hash(), expected);
}

#[test]
fn test_compute_hash_depends_on_fields() {
    let tx1 = TransactionBuilder::new()
        .from([1u8; 32])
        .to([2u8; 32])
        .amount(100)
        .nonce(1)
        .signature([0u8; 64])
        .build()
        .unwrap();
    let tx2 = TransactionBuilder::new()
        .from([1u8; 32])
        .to([2u8; 32])
        .amount(101)
        .nonce(1)
        .signature([0u8; 64])
        .build()
        .unwrap();
    assert_ne!(tx1.compute_hash(), tx2.compute_hash());
}
