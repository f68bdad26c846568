//! The blob store: the bytes of each file, keyed by the file's id.

use vstd::prelude::*;
use std::collections::HashMap;

verus! {

/// The contents of the files. It knows nothing of the rows of a tree store.
pub struct BlobStore {
    pub(crate) blobs: HashMap<i32, Vec<u8>>,
}

impl View for BlobStore {
    type V = Map<i32, Seq<u8>>;

    open(crate) spec fn view(&self) -> Map<i32, Seq<u8>> {
        self.blobs@.map_values(|v: Vec<u8>| v@)
    }
}

/// The blobs after `bytes` were written at `id`.
pub open spec fn blob_written(blobs: Map<i32, Seq<u8>>, id: i32, bytes: Seq<u8>) -> Map<
    i32,
    Seq<u8>,
> {
    blobs.insert(id, bytes)
}

/// What a read at `id` finds.
pub open spec fn blob_read(blobs: Map<i32, Seq<u8>>, id: i32) -> Option<Seq<u8>> {
    if blobs.contains_key(id) {
        Some(blobs[id])
    } else {
        None
    }
}

/// The blobs after the one at `id` was deleted.
pub open spec fn blob_deleted(blobs: Map<i32, Seq<u8>>, id: i32) -> Map<i32, Seq<u8>> {
    blobs.remove(id)
}

/// A read after a write at the same id finds the bytes that were written.
pub proof fn lemma_read_after_write(blobs: Map<i32, Seq<u8>>, id: i32, bytes: Seq<u8>)
    ensures
        blob_read(blob_written(blobs, id, bytes), id) == Some(bytes),
{
}

/// A read after a delete at the same id finds nothing.
pub proof fn lemma_read_after_delete(blobs: Map<i32, Seq<u8>>, id: i32)
    ensures
        blob_read(blob_deleted(blobs, id), id) is None,
{
}

/// A copy of `bytes`.
pub fn copy_bytes(bytes: &[u8]) -> (copy: Vec<u8>)
    ensures
        copy@ == bytes@,
{
    let mut copy: Vec<u8> = Vec::new();
    let mut i: usize = 0;
    while i < bytes.len()
        invariant
            0 <= i <= bytes.len(),
            copy@ == bytes@.take(i as int),
        decreases bytes.len() - i,
    {
        copy.push(bytes[i]);
        proof {
            assert(bytes@.take(i + 1) == bytes@.take(i as int).push(bytes@[i as int]));
        }
        i = i + 1;
    }
    assert(bytes@.take(bytes.len() as int) == bytes@);
    copy
}

impl BlobStore {
    /// A store without blobs.
    pub fn new() -> (store: BlobStore)
        ensures
            store@ == Map::<i32, Seq<u8>>::empty(),
    {
        let store = BlobStore { blobs: HashMap::new() };
        assert(store@ =~= Map::<i32, Seq<u8>>::empty());
        store
    }

    /// Whether a blob is stored at `id`.
    pub fn holds(&self, id: i32) -> (held: bool)
        ensures
            held == self@.contains_key(id),
    {
        self.blobs.contains_key(&id)
    }
}

} // verus!
