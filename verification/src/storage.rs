//! The persistent storage binding: a content-addressed block store for
//! contract code, and a hash-array-mapped trie for per-contract key/value
//! storage, loaded from a root content address and flushed to a new one.
//!
//! The trie and the block store come from outside crates; each call the
//! library makes into them stands behind a trusted wrapper whose contract
//! states what the crate's source shows.

use vstd::prelude::*;
use fvm_ipld_blockstore::Blockstore;
use fvm_ipld_blockstore::MemoryBlockstore;
use fvm_ipld_hamt::BytesKey;
use fvm_ipld_hamt::Hamt;
use std::rc::Rc;

verus! {

/// A handle to the content-addressed block store that holds contract code
/// blocks and the storage trie's nodes.
#[verifier::external_body]
pub struct StateStore {
    inner: Rc<MemoryBlockstore>,
}

/// One contract's persistent key/value trie.
#[verifier::external_body]
pub struct StorageHamt {
    inner: Hamt<Rc<MemoryBlockstore>, Vec<u8>>,
}

/// The key/value contents that a storage trie represents.
pub uninterp spec fn hamt_view(h: StorageHamt) -> Map<Seq<u8>, Seq<u8>>;

/// Contents with no entries.
pub open spec fn empty_contents() -> Map<Seq<u8>, Seq<u8>> {
    Map::empty()
}

impl View for StorageHamt {
    type V = Map<Seq<u8>, Seq<u8>>;

    open spec fn view(&self) -> Map<Seq<u8>, Seq<u8>> {
        hamt_view(*self)
    }
}

/// Whether a storage trie was built in memory from the empty trie by this
/// library's own inserts, rather than loaded from an arbitrary store; only
/// for such tries is the flushed root the canonical address of the contents.
pub uninterp spec fn hamt_fresh(h: StorageHamt) -> bool;

/// The canonical root content address of trie contents.
pub uninterp spec fn hamt_root(m: Map<Seq<u8>, Seq<u8>>) -> Seq<u8>;

/// The content address under which a raw block of bytes is stored: a digest
/// of the bytes alone.
pub uninterp spec fn block_ref(data: Seq<u8>) -> Seq<u8>;

impl StateStore {
    /// Relies on MemoryBlockstore::default: a fresh, empty in-memory block
    /// store behind a shared handle.
    #[verifier::external_body]
    pub fn new() -> StateStore {
        StateStore { inner: Rc::new(MemoryBlockstore::default()) }
    }
}

/// Relies on Blockstore::put for MemoryBlockstore, with a fixed hash
/// function and the raw-bytes block codec: the returned key is the content
/// address of the block, a function of the bytes alone. The memory store's
/// keyed put cannot fail, so the call always succeeds.
#[verifier::external_body]
pub(crate) fn store_put(store: &StateStore, data: &Vec<u8>) -> (r: Result<Vec<u8>, ()>)
    ensures
        r is Ok,
        r matches Ok(c) ==> c@ == block_ref(data@),
{
    let block = fvm_ipld_blockstore::Block::new(0x55, data.as_slice());
    match store.inner.put(multihash_codetable::Code::Blake2b256, &block) {
        Ok(c) => Ok(c.to_bytes()),
        Err(_) => Err(()),
    }
}

/// Relies on Blockstore::get for MemoryBlockstore, which never fails: the
/// block stored under the key, or nothing when the key is unknown to the
/// store or does not parse as a content address.
#[verifier::external_body]
pub(crate) fn store_get(store: &StateStore, key: &Vec<u8>) -> (r: Option<Vec<u8>>) {
    let c = match cid::Cid::try_from(key.as_slice()) {
        Ok(c) => c,
        Err(_) => {
            return None;
        },
    };
    match store.inner.get(&c) {
        Ok(v) => v,
        Err(_) => None,
    }
}

impl StorageHamt {
    /// Relies on Hamt::new: a trie with no entries, built in memory. The
    /// constructor cannot fail.
    #[verifier::external_body]
    #[allow(deprecated)]
    pub(crate) fn new_empty(store: &StateStore) -> (r: Result<StorageHamt, ()>)
        ensures
            r is Ok,
            r matches Ok(h) ==> h@ == empty_contents() && hamt_fresh(h),
    {
        Ok(StorageHamt { inner: Hamt::new(Rc::clone(&store.inner)) })
    }

    /// Relies on Hamt::load: the trie rooted at the given content address,
    /// read lazily from the store; it fails when the address does not parse
    /// or the root block cannot be read. Nothing is assumed about the
    /// contents of a loaded trie.
    #[verifier::external_body]
    #[allow(deprecated)]
    pub(crate) fn load(root: &Vec<u8>, store: &StateStore) -> (r: Result<StorageHamt, ()>) {
        let c = match cid::Cid::try_from(root.as_slice()) {
            Ok(c) => c,
            Err(_) => {
                return Err(());
            },
        };
        match Hamt::load(&c, Rc::clone(&store.inner)) {
            Ok(h) => Ok(StorageHamt { inner: h }),
            Err(_) => Err(()),
        }
    }

    /// Relies on Hamt::set: on success the trie maps the key to the value
    /// and every other key is unchanged; a trie built in memory stays so.
    #[verifier::external_body]
    pub(crate) fn set(&mut self, key: Vec<u8>, value: Vec<u8>) -> (r: Result<(), ()>)
        ensures
            r is Ok ==> hamt_view(*final(self)) == hamt_view(*old(self)).insert(key@, value@),
            r is Ok && hamt_fresh(*old(self)) ==> hamt_fresh(*final(self)),
    {
        match self.inner.set(BytesKey(key), value) {
            Ok(_) => Ok(()),
            Err(_) => Err(()),
        }
    }

    /// Relies on Hamt::get: on success the result says exactly whether the
    /// trie maps the key, and to what value.
    #[verifier::external_body]
    pub(crate) fn get(&self, key: &Vec<u8>) -> (r: Result<Option<Vec<u8>>, ()>)
        ensures
            r matches Ok(o) ==> match o {
                Some(v) => hamt_view(*self).contains_key(key@) && hamt_view(*self)[key@] == v@,
                None => !hamt_view(*self).contains_key(key@),
            },
    {
        match self.inner.get(&BytesKey(key.clone())) {
            Ok(Some(v)) => Ok(Some(v.clone())),
            Ok(None) => Ok(None),
            Err(_) => Err(()),
        }
    }

    /// Relies on Hamt::flush: writes the trie's nodes to the store and
    /// returns the root content address; the contents are unchanged, and for
    /// a trie built in memory the root is the canonical address of exactly
    /// those contents.
    #[verifier::external_body]
    pub(crate) fn flush(&mut self) -> (r: Result<Vec<u8>, ()>)
        ensures
            r is Ok ==> hamt_view(*final(self)) == hamt_view(*old(self)),
            r is Ok && hamt_fresh(*old(self)) ==> hamt_fresh(*final(self)),
            r matches Ok(root) ==> (hamt_fresh(*old(self)) ==> root@ == hamt_root(
                hamt_view(*old(self)),
            )),
    {
        match self.inner.flush() {
            Ok(c) => Ok(c.to_bytes()),
            Err(_) => Err(()),
        }
    }
}

} // verus!
