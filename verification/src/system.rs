//! The system abstraction layer: the one channel through which the
//! interpreter reaches host capabilities — persistent storage and the
//! identities of the executing contract and its caller.

use vstd::prelude::*;
use crate::buffer::{be_bytes, word_of_be, word_from_be_bytes, word_to_be_bytes};
use crate::storage::{
    empty_contents, hamt_fresh, hamt_root, hamt_view, StateStore, StorageHamt,
};
use crate::word::U256;

verus! {

/// A storage access failed: the trie or a stored slot was unreadable or
/// malformed.
#[derive(Clone, Copy, Debug, PartialEq, Eq, Structural)]
pub struct StorageError;

/// The word a storage slot holds under given trie contents: the stored
/// 32-byte value, or the zero word for an absent key.
pub open spec fn storage_word(m: Map<Seq<u8>, Seq<u8>>, key: Seq<u8>) -> U256 {
    if m.contains_key(key) {
        word_of_be(m[key])
    } else {
        U256 { w0: 0, w1: 0, w2: 0, w3: 0 }
    }
}

/// A slot read of a key that was never written yields the all-zero value,
/// whatever the rest of the contents are.
pub proof fn lemma_unwritten_slot_reads_zero(m: Map<Seq<u8>, Seq<u8>>, key: Seq<u8>)
    requires
        !m.contains_key(key),
    ensures
        storage_word(m, key).as_nat() == 0,
{
}

/// A slot written and then read back yields exactly the written word,
/// whatever the rest of the contents hold.
pub proof fn lemma_written_slot_reads_back(m: Map<Seq<u8>, Seq<u8>>, key: U256, value: U256)
    ensures
        storage_word(m.insert(be_bytes(key), be_bytes(value)), be_bytes(key)) == value,
{
    crate::buffer::lemma_word_be_roundtrip(value);
}

/// What an outbound message came back with: a status code and optional
/// return data. Host-level failures surface here as a non-zero status,
/// never as a hard fault of the sending contract.
#[derive(Clone, Debug, PartialEq, Eq)]
pub struct SendResponse {
    pub exit_code: u64,
    pub return_data: Option<Vec<u8>>,
}

/// The bridge between the interpreter and the host: the contract's storage
/// trie and the identities of the executing contract and its caller.
pub struct System {
    pub storage: StorageHamt,
    pub self_id: u64,
    pub caller_id: u64,
}

impl System {
    /// The key/value contents of the contract's storage.
    pub open spec fn storage_view(self) -> Map<Seq<u8>, Seq<u8>> {
        hamt_view(self.storage)
    }

    pub fn new(storage: StorageHamt, self_id: u64, caller_id: u64) -> (r: System)
        ensures
            r.storage == storage,
            r.self_id == self_id,
            r.caller_id == caller_id,
    {
        System { storage, self_id, caller_id }
    }

    /// A system layer over a fresh, empty storage trie; creating one cannot
    /// fail.
    pub fn new_empty(store: &StateStore, self_id: u64, caller_id: u64) -> (r: Result<
        System,
        StorageError,
    >)
        ensures
            r is Ok,
            r matches Ok(s) ==> s.storage_view() == empty_contents() && hamt_fresh(s.storage)
                && s.self_id == self_id && s.caller_id == caller_id,
    {
        match StorageHamt::new_empty(store) {
            Ok(h) => Ok(System { storage: h, self_id, caller_id }),
            Err(_) => Err(StorageError),
        }
    }

    /// Reads one storage slot; an absent key reads as the zero word, never
    /// as an error.
    pub fn sload(&self, key: U256) -> (r: Result<U256, StorageError>)
        ensures
            r matches Ok(v) ==> v == storage_word(self.storage_view(), be_bytes(key)),
    {
        let kb = word_to_be_bytes(key);
        match self.storage.get(&kb) {
            Ok(Some(v)) => {
                if v.len() == 32 {
                    Ok(word_from_be_bytes(&v))
                } else {
                    Err(StorageError)
                }
            },
            Ok(None) => Ok(U256::zero()),
            Err(_) => Err(StorageError),
        }
    }

    /// Writes one storage slot. An all-zero value is stored explicitly, like
    /// any other value; it is not treated as a deletion.
    pub fn sstore(&mut self, key: U256, value: U256) -> (r: Result<(), StorageError>)
        ensures
            final(self).self_id == old(self).self_id,
            final(self).caller_id == old(self).caller_id,
            r is Ok ==> final(self).storage_view() == old(self).storage_view().insert(
                be_bytes(key),
                be_bytes(value),
            ),
            r is Ok && hamt_fresh(old(self).storage) ==> hamt_fresh(final(self).storage),
    {
        let kb = word_to_be_bytes(key);
        let vb = word_to_be_bytes(value);
        match self.storage.set(kb, vb) {
            Ok(()) => Ok(()),
            Err(_) => Err(StorageError),
        }
    }

    /// Translates the host's outcome of an outbound message into the
    /// response vocabulary the interpreter expects: success carries the
    /// returned data under the zero status; a host failure carries its exit
    /// code and no data. Neither is raised as a fault — the host performs
    /// the send, this layer only translates.
    pub fn send_response(outcome: Result<Option<Vec<u8>>, u64>) -> (r: SendResponse)
        ensures
            outcome matches Ok(data) ==> r.exit_code == 0 && r.return_data == data,
            outcome matches Err(code) ==> r.exit_code == code && r.return_data is None,
    {
        match outcome {
            Ok(data) => SendResponse { exit_code: 0, return_data: data },
            Err(code) => SendResponse { exit_code: code, return_data: None },
        }
    }

    /// Flushes the storage trie and returns the new root content address.
    /// Only a committed execution may call this; a reverted one discards the
    /// trie instead.
    pub fn flush_state(&mut self) -> (r: Result<Vec<u8>, StorageError>)
        ensures
            final(self).self_id == old(self).self_id,
            final(self).caller_id == old(self).caller_id,
            r is Ok ==> final(self).storage_view() == old(self).storage_view(),
            r is Ok && hamt_fresh(old(self).storage) ==> hamt_fresh(final(self).storage),
            r matches Ok(root) ==> (hamt_fresh(old(self).storage) ==> root@ == hamt_root(
                old(self).storage_view(),
            )),
    {
        match self.storage.flush() {
            Ok(root) => Ok(root),
            Err(_) => Err(StorageError),
        }
    }
}

} // verus!
