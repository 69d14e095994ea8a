//! Transaction records: plain structured data with a content hash, and
//! a builder that refuses incomplete records.

use vstd::prelude::*;
use vstd::bytes::{u64_to_le_bytes, spec_u64_to_le_bytes};
use crate::tree_hasher::{TreeHasher, sha256_digest};

verus! {

/// A transfer order: sender, recipient, amount, nonce and a
/// signature-shaped field.
#[derive(Debug, Clone, PartialEq)]
pub struct Transaction {
    /// Sender's address.
    pub from: [u8; 32],
    /// Recipient's address.
    pub to: [u8; 32],
    /// Amount to transfer.
    pub amount: u64,
    /// Nonce ensuring uniqueness.
    pub nonce: u64,
    /// Digital signature over the record.
    pub signature: [u8; 64],
}

/// The bytes a transaction is hashed over: both addresses, the amount
/// and the nonce little-endian, then the signature.
pub open spec fn transaction_bytes(t: Transaction) -> Seq<u8> {
    t.from@ + t.to@ + spec_u64_to_le_bytes(t.amount) + spec_u64_to_le_bytes(t.nonce)
        + t.signature@
}

impl Transaction {
    /// The content hash of the transaction: the digest of its fields
    /// laid out in order.
    pub fn compute_hash(&self) -> (r: [u8; 32])
        ensures
            r@ == sha256_digest(transaction_bytes(*self)),
    {
        let mut data: Vec<u8> = Vec::new();
        let mut i: usize = 0;
        while i < 32
            invariant
                i <= 32,
                data@ == self.from@.take(i as int),
            decreases 32 - i,
        {
            data.push(self.from[i]);
            i += 1;
        }
        let mut j: usize = 0;
        while j < 32
            invariant
                j <= 32,
                data@ == self.from@ + self.to@.take(j as int),
            decreases 32 - j,
        {
            data.push(self.to[j]);
            j += 1;
        }
        let mut amount_bytes = u64_to_le_bytes(self.amount);
        data.append(&mut amount_bytes);
        let mut nonce_bytes = u64_to_le_bytes(self.nonce);
        data.append(&mut nonce_bytes);
        let ghost head = self.from@ + self.to@ + spec_u64_to_le_bytes(self.amount)
            + spec_u64_to_le_bytes(self.nonce);
        proof {
            assert(data@ =~= head);
        }
        let mut k: usize = 0;
        while k < 64
            invariant
                k <= 64,
                data@ == head + self.signature@.take(k as int),
            decreases 64 - k,
        {
            data.push(self.signature[k]);
            k += 1;
        }
        proof {
            assert(data@ =~= transaction_bytes(*self));
        }
        let hasher = TreeHasher::new();
        hasher.digest(&data)
    }
}

impl Default for Transaction {
    /// The all-zero transaction.
    fn default() -> (t: Transaction)
        ensures
            t.from@ =~= Seq::new(32, |i: int| 0u8),
            t.to@ =~= Seq::new(32, |i: int| 0u8),
            t.amount == 0,
            t.nonce == 0,
            t.signature@ =~= Seq::new(64, |i: int| 0u8),
    {
        Transaction {
            from: [0u8; 32],
            to: [0u8; 32],
            amount: 0,
            nonce: 0,
            signature: [0u8; 64],
        }
    }
}

/// Accumulates the fields of a transaction; `build` refuses a record
/// with any field still missing.
pub struct TransactionBuilder {
    from: Option<[u8; 32]>,
    to: Option<[u8; 32]>,
    amount: Option<u64>,
    nonce: Option<u64>,
    signature: Option<[u8; 64]>,
}

impl TransactionBuilder {
    /// The sender set so far.
    pub closed spec fn from_set(&self) -> Option<[u8; 32]> {
        self.from
    }

    /// The recipient set so far.
    pub closed spec fn to_set(&self) -> Option<[u8; 32]> {
        self.to
    }

    /// The amount set so far.
    pub closed spec fn amount_set(&self) -> Option<u64> {
        self.amount
    }

    /// The nonce set so far.
    pub closed spec fn nonce_set(&self) -> Option<u64> {
        self.nonce
    }

    /// The signature set so far.
    pub closed spec fn signature_set(&self) -> Option<[u8; 64]> {
        self.signature
    }

    /// A builder with every field still missing.
    pub fn new() -> (b: TransactionBuilder)
        ensures
            b.from_set() is None,
            b.to_set() is None,
            b.amount_set() is None,
            b.nonce_set() is None,
            b.signature_set() is None,
    {
        TransactionBuilder { from: None, to: None, amount: None, nonce: None, signature: None }
    }

    /// Sets the sender.
    pub fn from(self, from: [u8; 32]) -> (b: TransactionBuilder)
        ensures
            b.from_set() == Some(from),
            b.to_set() == self.to_set(),
            b.amount_set() == self.amount_set(),
            b.nonce_set() == self.nonce_set(),
            b.signature_set() == self.signature_set(),
    {
        TransactionBuilder { from: Some(from), ..self }
    }

    /// Sets the recipient.
    pub fn to(self, to: [u8; 32]) -> (b: TransactionBuilder)
        ensures
            b.to_set() == Some(to),
            b.from_set() == self.from_set(),
            b.amount_set() == self.amount_set(),
            b.nonce_set() == self.nonce_set(),
            b.signature_set() == self.signature_set(),
    {
        TransactionBuilder { to: Some(to), ..self }
    }

    /// Sets the amount.
    pub fn amount(self, amount: u64) -> (b: TransactionBuilder)
        ensures
            b.amount_set() == Some(amount),
            b.from_set() == self.from_set(),
            b.to_set() == self.to_set(),
            b.nonce_set() == self.nonce_set(),
            b.signature_set() == self.signature_set(),
    {
        TransactionBuilder { amount: Some(amount), ..self }
    }

    /// Sets the nonce.
    pub fn nonce(self, nonce: u64) -> (b: TransactionBuilder)
        ensures
            b.nonce_set() == Some(nonce),
            b.from_set() == self.from_set(),
            b.to_set() == self.to_set(),
            b.amount_set() == self.amount_set(),
            b.signature_set() == self.signature_set(),
    {
        TransactionBuilder { nonce: Some(nonce), ..self }
    }

    /// Sets the signature.
    pub fn signature(self, signature: [u8; 64]) -> (b: TransactionBuilder)
        ensures
            b.signature_set() == Some(signature),
            b.from_set() == self.from_set(),
            b.to_set() == self.to_set(),
            b.amount_set() == self.amount_set(),
            b.nonce_set() == self.nonce_set(),
    {
        TransactionBuilder { signature: Some(signature), ..self }
    }

    /// The finished record, provided every field was set; otherwise
    /// the first missing field, in declaration order, is reported.
    pub fn build(self) -> (r: Result<Transaction, String>)
        ensures
            self.from_set() is None ==> (r matches Err(m) && m@ == "Sender address is missing"@),
            self.from_set() is Some && self.to_set() is None ==> (r matches Err(m)
                && m@ == "Recipient address is missing"@),
            self.from_set() is Some && self.to_set() is Some && self.amount_set() is None
                ==> (r matches Err(m) && m@ == "Amount is missing"@),
            self.from_set() is Some && self.to_set() is Some && self.amount_set() is Some
                && self.nonce_set() is None ==> (r matches Err(m) && m@ == "Nonce is missing"@),
            self.from_set() is Some && self.to_set() is Some && self.amount_set() is Some
                && self.nonce_set() is Some && self.signature_set() is None
                ==> (r matches Err(m) && m@ == "Signature is missing"@),
            self.from_set() is Some && self.to_set() is Some && self.amount_set() is Some
                && self.nonce_set() is Some && self.signature_set() is Some
                ==> (r matches Ok(t) && self.from_set() == Some(t.from)
                && self.to_set() == Some(t.to) && self.amount_set() == Some(t.amount)
                && self.nonce_set() == Some(t.nonce) && self.signature_set() == Some(t.signature)),
    {
        let from = match self.from {
            Some(f) => f,
            None => {
                return Err("Sender address is missing".to_string());
            },
        };
        let to = match self.to {
            Some(t) => t,
            None => {
                return Err("Recipient address is missing".to_string());
            },
        };
        let amount = match self.amount {
            Some(a) => a,
            None => {
                return Err("Amount is missing".to_string());
            },
        };
        let nonce = match self.nonce {
            Some(n) => n,
            None => {
                return Err("Nonce is missing".to_string());
            },
        };
        let signature = match self.signature {
            Some(s) => s,
            None => {
                return Err("Signature is missing".to_string());
            },
        };
        Ok(Transaction { from, to, amount, nonce, signature })
    }
}

} // verus!
