//! The node-storage contract the tree engine depends on, and a
//! reference in-memory implementation.

use vstd::prelude::*;
use crate::error::SMTError;

verus! {

/// A mapping from a 32-byte key (a digest, or a user key) to an opaque
/// byte blob, with last-write-wins semantics per key. The engine is
/// generic over any conforming implementation: an in-memory map for
/// tests, a persistent backend as a drop-in alternative.
pub trait KVStore: Sized {
    /// The key-to-blob mapping the store currently holds.
    spec fn contents(&self) -> Map<Seq<u8>, Seq<u8>>;

    /// Whether this implementation's operations always succeed. A
    /// store that declares itself infallible owes `Ok` on every call,
    /// and the tree engine passes that promise on to its own callers.
    spec fn infallible() -> bool;

    /// Returns a copy of the blob stored under `key`, or `None` if the
    /// key is absent.
    fn get(&self, key: &[u8; 32]) -> (r: Result<Option<Vec<u8>>, SMTError>)
        ensures
            Self::infallible() ==> r is Ok,
            r matches Ok(o) ==> match o {
                Some(v) => self.contents().contains_key(key@) && v@ == self.contents()[key@],
                None => !self.contents().contains_key(key@),
            },
    ;

    /// Stores `value` under `key`, replacing any previous blob.
    fn set(&mut self, key: [u8; 32], value: Vec<u8>) -> (r: Result<(), SMTError>)
        ensures
            Self::infallible() ==> r is Ok,
            r is Ok ==> final(self).contents() == old(self).contents().insert(key@, value@),
    ;

    /// Deletes the entry under `key`, if any.
    fn remove(&mut self, key: &[u8; 32]) -> (r: Result<(), SMTError>)
        ensures
            Self::infallible() ==> r is Ok,
            r is Ok ==> final(self).contents() == old(self).contents().remove(key@),
    ;
}

/// What a backing hash map holds, keyed by the bytes of the 32-byte
/// key.
pub uninterp spec fn backing_contents(m: std::collections::HashMap<[u8; 32], Vec<u8>>) -> Map<Seq<u8>, Seq<u8>>;

/// The contents of a store that holds nothing.
pub open spec fn no_entries() -> Map<Seq<u8>, Seq<u8>> {
    Map::empty()
}

/// Relies on std::collections::HashMap::new: a newly created map holds
/// no entries.
#[verifier::external_body]
fn backing_new() -> (m: std::collections::HashMap<[u8; 32], Vec<u8>>)
    ensures
        backing_contents(m) == no_entries(),
{
    std::collections::HashMap::new()
}

/// Relies on std::collections::HashMap::get, with the derived `Eq` and
/// `Hash` of `[u8; 32]`, which compare by the bytes: returns a copy of
/// the value most recently inserted for the key, or `None`.
#[verifier::external_body]
fn backing_get(m: &std::collections::HashMap<[u8; 32], Vec<u8>>, key: &[u8; 32]) -> (r: Option<
    Vec<u8>,
>)
    ensures
        match r {
            Some(v) => backing_contents(*m).contains_key(key@) && v@ == backing_contents(*m)[key@],
            None => !backing_contents(*m).contains_key(key@),
        },
{
    m.get(key).cloned()
}

/// Relies on std::collections::HashMap::insert: afterwards the map
/// holds exactly the previous entries plus `key -> value`.
#[verifier::external_body]
fn backing_set(m: &mut std::collections::HashMap<[u8; 32], Vec<u8>>, key: [u8; 32], value: Vec<u8>)
    ensures
        backing_contents(*final(m)) == backing_contents(*old(m)).insert(key@, value@),
{
    m.insert(key, value);
}

/// Relies on std::collections::HashMap::remove: afterwards the map
/// holds exactly the previous entries without `key`.
#[verifier::external_body]
fn backing_remove(m: &mut std::collections::HashMap<[u8; 32], Vec<u8>>, key: &[u8; 32])
    ensures
        backing_contents(*final(m)) == backing_contents(*old(m)).remove(key@),
{
    m.remove(key);
}

/// The reference store: a hash map held in memory. Its operations
/// never fail.
pub struct InMemoryKVStore {
    map: std::collections::HashMap<[u8; 32], Vec<u8>>,
}

impl InMemoryKVStore {
    /// An empty store.
    pub fn new() -> (s: Self)
        ensures
            s.contents() == no_entries(),
    {
        InMemoryKVStore { map: backing_new() }
    }
}

impl KVStore for InMemoryKVStore {
    closed spec fn contents(&self) -> Map<Seq<u8>, Seq<u8>> {
        backing_contents(self.map)
    }

    open spec fn infallible() -> bool {
        true
    }

    fn get(&self, key: &[u8; 32]) -> (r: Result<Option<Vec<u8>>, SMTError>)
        ensures
            r is Ok,
    {
        Ok(backing_get(&self.map, key))
    }

    fn set(&mut self, key: [u8; 32], value: Vec<u8>) -> (r: Result<(), SMTError>)
        ensures
            r is Ok,
    {
        backing_set(&mut self.map, key, value);
        Ok(())
    }

    fn remove(&mut self, key: &[u8; 32]) -> (r: Result<(), SMTError>)
        ensures
            r is Ok,
    {
        backing_remove(&mut self.map, key);
        Ok(())
    }
}

} // verus!
