//! An in-memory store of blobs and chunks: the chunk store adapter that
//! records instead of sending, and the model of the network that the
//! client facade is verified against.

use crate::address::{BlobAddress, BlobKind};
use crate::blob::{Blob, BlobView};
use crate::digest::hash_eq;
use crate::error::{BlobError, ErrorView, StorageCause};
use vstd::prelude::*;

verus! {

/// A chunk as the store holds it: its namespace, its hash, its bytes.
#[derive(Clone, Debug, PartialEq, Eq)]
pub struct StoredChunk {
    /// Namespace the chunk was written to.
    pub kind: BlobKind,
    /// Hash the chunk is found under.
    pub hash: [u8; 32],
    /// The ciphertext.
    pub bytes: Vec<u8>,
}

/// A blob as the store holds it, with the address it is found under.
#[derive(Clone, Debug, PartialEq, Eq)]
pub struct StoredBlob {
    /// Address of the blob.
    pub address: BlobAddress,
    /// The blob.
    pub blob: Blob,
}

/// Key of a stored item: the namespace and the hash.
pub type StoreKey = (BlobKind, Seq<u8>);

/// A [`MemoryStore`] as contracts see it: two finite maps.
pub struct StoreView {
    /// Chunk bytes by namespace and hash.
    pub chunks: Map<StoreKey, Seq<u8>>,
    /// Blobs by address.
    pub blobs: Map<StoreKey, BlobView>,
}

/// Blobs and chunks held in memory.
pub struct MemoryStore {
    chunks: Vec<StoredChunk>,
    blobs: Vec<StoredBlob>,
    model: Ghost<StoreView>,
}

impl StoredChunk {
    /// Key of the chunk.
    pub open spec fn key(self) -> StoreKey {
        (self.kind, self.hash@)
    }
}

impl View for MemoryStore {
    type V = StoreView;

    closed spec fn view(&self) -> StoreView {
        self.model@
    }
}

impl StoreView {
    /// Every blob sits at its own address.
    pub open spec fn content_addressed(self) -> bool {
        forall|key: StoreKey| #[trigger]
            self.blobs.contains_key(key) ==> self.blobs[key].address() == key
    }

    /// Every blob is small enough for the network.
    pub open spec fn within_limit(self) -> bool {
        forall|key: StoreKey| #[trigger]
            self.blobs.contains_key(key) ==> self.blobs[key].valid_size()
    }
}

impl MemoryStore {
    /// The lists hold exactly what the maps of the view say, each key once.
    pub closed spec fn wf(&self) -> bool {
        let view = self.model@;
        &&& forall|i: int|
            0 <= i < self.chunks@.len() ==> view.chunks.contains_key(
                (#[trigger] self.chunks@[i]).key(),
            ) && view.chunks[self.chunks@[i].key()] == self.chunks@[i].bytes@
        &&& forall|key: StoreKey| #[trigger]
            view.chunks.contains_key(key) ==> exists|i: int|
                0 <= i < self.chunks@.len() && (#[trigger] self.chunks@[i]).key() == key
        &&& forall|i: int, j: int|
            0 <= i < j < self.chunks@.len() ==> (#[trigger] self.chunks@[i]).key() != (
            #[trigger] self.chunks@[j]).key()
        &&& forall|i: int|
            0 <= i < self.blobs@.len() ==> view.blobs.contains_key(
                (#[trigger] self.blobs@[i]).address@,
            ) && view.blobs[self.blobs@[i].address@] == self.blobs@[i].blob@
        &&& forall|key: StoreKey| #[trigger]
            view.blobs.contains_key(key) ==> exists|i: int|
                0 <= i < self.blobs@.len() && (#[trigger] self.blobs@[i]).address@ == key
        &&& forall|i: int, j: int|
            0 <= i < j < self.blobs@.len() ==> (#[trigger] self.blobs@[i]).address@ != (
            #[trigger] self.blobs@[j]).address@
        &&& view.content_addressed()
        &&& view.within_limit()
        &&& view.chunks.dom().finite()
        &&& view.blobs.dom().finite()
        &&& view.chunks.dom().len() == self.chunks@.len()
        &&& view.blobs.dom().len() == self.blobs@.len()
    }

    /// In a well-formed store every blob sits at its own address and is
    /// small enough for the network, and there are finitely many blobs and
    /// chunks.
    pub proof fn lemma_content_addressed(&self)
        requires
            self.wf(),
        ensures
            self@.content_addressed(),
            self@.within_limit(),
            self@.chunks.dom().finite(),
            self@.blobs.dom().finite(),
    {
    }

    /// An empty store.
    pub fn new() -> (store: MemoryStore)
        ensures
            store.wf(),
            store@.chunks == Map::<StoreKey, Seq<u8>>::empty(),
            store@.blobs == Map::<StoreKey, BlobView>::empty(),
    {
        MemoryStore {
            chunks: Vec::new(),
            blobs: Vec::new(),
            model: Ghost(StoreView { chunks: Map::empty(), blobs: Map::empty() }),
        }
    }

    /// Number of chunks held.
    pub fn chunk_count(&self) -> (count: usize)
        requires
            self.wf(),
        ensures
            count == self@.chunks.dom().len(),
    {
        self.chunks.len()
    }

    /// Number of blobs held.
    pub fn blob_count(&self) -> (count: usize)
        requires
            self.wf(),
        ensures
            count == self@.blobs.dom().len(),
    {
        self.blobs.len()
    }

    fn find_chunk(&self, kind: BlobKind, hash: &[u8; 32]) -> (found: Option<usize>)
        requires
            self.wf(),
        ensures
            match found {
                Some(i) => i < self.chunks@.len() && self.chunks@[i as int].key() == (kind, hash@),
                None => !self@.chunks.contains_key((kind, hash@)),
            },
    {
        let mut i: usize = 0;
        while i < self.chunks.len()
            invariant
                i <= self.chunks@.len(),
                forall|j: int| 0 <= j < i ==> (#[trigger] self.chunks@[j]).key() != (kind, hash@),
            decreases self.chunks@.len() - i,
        {
            if self.chunks[i].kind.same(kind) && hash_eq(&self.chunks[i].hash, hash) {
                return Some(i);
            }
            i += 1;
        }
        None
    }

    fn find_blob(&self, address: &BlobAddress) -> (found: Option<usize>)
        requires
            self.wf(),
        ensures
            match found {
                Some(i) => i < self.blobs@.len() && self.blobs@[i as int].address@ == address@,
                None => !self@.blobs.contains_key(address@),
            },
    {
        let mut i: usize = 0;
        while i < self.blobs.len()
            invariant
                i <= self.blobs@.len(),
                forall|j: int| 0 <= j < i ==> (#[trigger] self.blobs@[j]).address@ != address@,
            decreases self.blobs@.len() - i,
        {
            if self.blobs[i].address.same(address) {
                return Some(i);
            }
            i += 1;
        }
        None
    }

    /// Whether a chunk is held under `hash` in the namespace `kind`.
    pub fn has_chunk(&self, kind: BlobKind, hash: &[u8; 32]) -> (held: bool)
        requires
            self.wf(),
        ensures
            held == self@.chunks.contains_key((kind, hash@)),
    {
        self.find_chunk(kind, hash).is_some()
    }

    /// The chunk held under `hash` in the namespace `kind`.
    pub fn get_chunk(&self, kind: BlobKind, hash: &[u8; 32]) -> (chunk: Option<&Vec<u8>>)
        requires
            self.wf(),
        ensures
            match chunk {
                Some(bytes) => self@.chunks.contains_key((kind, hash@)) && self@.chunks[(
                    kind,
                    hash@,
                )] == bytes@,
                None => !self@.chunks.contains_key((kind, hash@)),
            },
    {
        match self.find_chunk(kind, hash) {
            Some(i) => Some(&self.chunks[i].bytes),
            None => None,
        }
    }

    /// Stores a chunk. Storing the bytes already held under the hash changes
    /// nothing and succeeds; other bytes under a hash already taken are
    /// refused as a conflict, and the store stays as it was.
    pub fn put_chunk(&mut self, kind: BlobKind, hash: [u8; 32], bytes: Vec<u8>) -> (done: Result<
        (),
        BlobError,
    >)
        requires
            old(self).wf(),
        ensures
            final(self).wf(),
            final(self)@.blobs == old(self)@.blobs,
            match spec_put_chunk(old(self)@.chunks, (kind, hash@), bytes@) {
                Some(chunks) => done is Ok && final(self)@.chunks == chunks,
                None => final(self)@ == old(self)@ && (done matches Err(e) && e@ == spec_conflict(
                    hash@,
                )),
            },
    {
        match self.find_chunk(kind, &hash) {
            Some(i) => {
                if bytes_eq(self.chunks[i].bytes.as_slice(), bytes.as_slice()) {
                    assert(self@.chunks.insert((kind, hash@), bytes@) =~= self@.chunks);
                    Ok(())
                } else {
                    let mut hashes: Vec<[u8; 32]> = Vec::new();
                    hashes.push(hash);
                    let error = BlobError::StorageFailure { hashes, cause: StorageCause::Conflict };
                    assert(error@ == spec_conflict(hash@)) by {
                        assert(hashes@.map_values(|h: [u8; 32]| h@) =~= seq![hash@]);
                    }
                    Err(error)
                }
            },
            None => {
                let ghost before = self.model@;
                let ghost key = (kind, hash@);
                let ghost old_chunks = self.chunks@;
                self.chunks.push(StoredChunk { kind, hash, bytes });
                self.model = Ghost(
                    StoreView { chunks: before.chunks.insert(key, bytes@), blobs: before.blobs },
                );
                proof {
                    let view = self.model@;
                    assert forall|k: StoreKey| #[trigger] view.chunks.contains_key(k) implies exists|
                        i: int,
                    |
                        0 <= i < self.chunks@.len() && (#[trigger] self.chunks@[i]).key() == k by {
                        if k == key {
                            assert(self.chunks@[old_chunks.len() as int].key() == k);
                        } else {
                            assert(before.chunks.contains_key(k));
                            let i = choose|i: int|
                                0 <= i < old_chunks.len() && (#[trigger] old_chunks[i]).key() == k;
                            assert(self.chunks@[i].key() == k);
                        }
                    }
                    assert forall|i: int| 0 <= i < self.chunks@.len() implies view.chunks.contains_key(
                        (#[trigger] self.chunks@[i]).key(),
                    ) && view.chunks[self.chunks@[i].key()] == self.chunks@[i].bytes@ by {
                        if i < old_chunks.len() {
                            assert(self.chunks@[i] == old_chunks[i]);
                        }
                    }
                    assert forall|i: int, j: int| 0 <= i < j < self.chunks@.len() implies (
                    #[trigger] self.chunks@[i]).key() != (#[trigger] self.chunks@[j]).key() by {
                        assert(self.chunks@[i] == old_chunks[i]);
                        if j < old_chunks.len() {
                            assert(self.chunks@[j] == old_chunks[j]);
                        }
                    }
                    assert forall|i: int| 0 <= i < self.blobs@.len() implies view.blobs.contains_key(
                        (#[trigger] self.blobs@[i]).address@,
                    ) && view.blobs[self.blobs@[i].address@] == self.blobs@[i].blob@ by {}
                }
                Ok(())
            },
        }
    }

    /// Removes the chunk held under `hash` in the namespace `kind`, if there
    /// is one.
    pub fn delete_chunk(&mut self, kind: BlobKind, hash: &[u8; 32])
        requires
            old(self).wf(),
        ensures
            final(self).wf(),
            final(self)@.blobs == old(self)@.blobs,
            final(self)@.chunks == old(self)@.chunks.remove((kind, hash@)),
    {
        match self.find_chunk(kind, hash) {
            Some(i) => {
                let ghost before = self.model@;
                let ghost key = (kind, hash@);
                let ghost old_chunks = self.chunks@;
                let _ = self.chunks.remove(i);
                self.model = Ghost(
                    StoreView { chunks: before.chunks.remove(key), blobs: before.blobs },
                );
                proof {
                    let view = self.model@;
                    assert forall|j: int| 0 <= j < self.chunks@.len() implies #[trigger] self.chunks@[j]
                        == old_chunks[if j < i {
                        j
                    } else {
                        j + 1
                    }] by {}
                    assert forall|k: StoreKey| #[trigger] view.chunks.contains_key(k) implies exists|
                        j: int,
                    |
                        0 <= j < self.chunks@.len() && (#[trigger] self.chunks@[j]).key() == k by {
                        assert(before.chunks.contains_key(k));
                        let w = choose|w: int|
                            0 <= w < old_chunks.len() && (#[trigger] old_chunks[w]).key() == k;
                        if w < i {
                            assert(self.chunks@[w].key() == k);
                        } else {
                            assert(w != i);
                            assert(self.chunks@[w - 1] == old_chunks[w]);
                            assert(self.chunks@[w - 1].key() == k);
                        }
                    }
                    assert forall|j: int| 0 <= j < self.chunks@.len() implies view.chunks.contains_key(
                        (#[trigger] self.chunks@[j]).key(),
                    ) && view.chunks[self.chunks@[j].key()] == self.chunks@[j].bytes@ by {
                        let o = if j < i {
                            j
                        } else {
                            j + 1
                        };
                        assert(self.chunks@[j] == old_chunks[o]);
                        assert(old_chunks[o].key() != old_chunks[i as int].key());
                    }
                    assert forall|a: int, b: int| 0 <= a < b < self.chunks@.len() implies (
                    #[trigger] self.chunks@[a]).key() != (#[trigger] self.chunks@[b]).key() by {
                        let oa = if a < i {
                            a
                        } else {
                            a + 1
                        };
                        let ob = if b < i {
                            b
                        } else {
                            b + 1
                        };
                        assert(self.chunks@[a] == old_chunks[oa]);
                        assert(self.chunks@[b] == old_chunks[ob]);
                    }
                    assert forall|j: int| 0 <= j < self.blobs@.len() implies view.blobs.contains_key(
                        (#[trigger] self.blobs@[j]).address@,
                    ) && view.blobs[self.blobs@[j].address@] == self.blobs@[j].blob@ by {}
                }
            },
            None => {
                assert(self@.chunks.remove((kind, hash@)) =~= self@.chunks);
            },
        }
    }

    /// The blob held at `address`.
    pub fn get_blob(&self, address: &BlobAddress) -> (blob: Option<&Blob>)
        requires
            self.wf(),
        ensures
            match blob {
                Some(b) => self@.blobs.contains_key(address@) && self@.blobs[address@] == b@,
                None => !self@.blobs.contains_key(address@),
            },
    {
        match self.find_blob(address) {
            Some(i) => Some(&self.blobs[i].blob),
            None => None,
        }
    }

    /// Stores a blob at its own address and returns that address. A blob
    /// over the size limit is refused. Storing a blob already held changes
    /// nothing and succeeds; another blob at an address already taken is
    /// refused as a conflict.
    pub fn put_blob(&mut self, blob: Blob) -> (done: Result<BlobAddress, BlobError>)
        requires
            old(self).wf(),
        ensures
            final(self).wf(),
            final(self)@.chunks == old(self)@.chunks,
            match spec_put_blob(old(self)@.blobs, blob@) {
                Ok(blobs) => final(self)@.blobs == blobs && (done matches Ok(address)
                    && address@ == blob@.address()),
                Err(error) => final(self)@ == old(self)@ && (done matches Err(e) && e@ == error),
            },
    {
        if !blob.validate_size() {
            return Err(BlobError::SizeExceeded);
        }
        let address = blob.address();
        match self.find_blob(&address) {
            Some(i) => {
                if blob_eq(&self.blobs[i].blob, &blob) {
                    assert(self@.blobs.insert(address@, blob@) =~= self@.blobs);
                    Ok(address)
                } else {
                    let mut hashes: Vec<[u8; 32]> = Vec::new();
                    hashes.push(address.hash);
                    let error = BlobError::StorageFailure { hashes, cause: StorageCause::Conflict };
                    assert(error@ == spec_conflict(address.hash@)) by {
                        assert(hashes@.map_values(|h: [u8; 32]| h@) =~= seq![address.hash@]);
                    }
                    Err(error)
                }
            },
            None => {
                let ghost before = self.model@;
                let ghost key = address@;
                let ghost old_blobs = self.blobs@;
                let ghost blob_view = blob@;
                self.blobs.push(StoredBlob { address, blob });
                self.model = Ghost(
                    StoreView { chunks: before.chunks, blobs: before.blobs.insert(key, blob_view) },
                );
                proof {
                    let view = self.model@;
                    assert forall|k: StoreKey| #[trigger] view.blobs.contains_key(k) implies exists|
                        i: int,
                    |
                        0 <= i < self.blobs@.len() && (#[trigger] self.blobs@[i]).address@ == k by {
                        if k == key {
                            assert(self.blobs@[old_blobs.len() as int].address@ == k);
                        } else {
                            assert(before.blobs.contains_key(k));
                            let i = choose|i: int|
                                0 <= i < old_blobs.len() && (#[trigger] old_blobs[i]).address@ == k;
                            assert(self.blobs@[i].address@ == k);
                        }
                    }
                    assert forall|i: int| 0 <= i < self.blobs@.len() implies view.blobs.contains_key(
                        (#[trigger] self.blobs@[i]).address@,
                    ) && view.blobs[self.blobs@[i].address@] == self.blobs@[i].blob@ by {
                        if i < old_blobs.len() {
                            assert(self.blobs@[i] == old_blobs[i]);
                        }
                    }
                    assert forall|i: int, j: int| 0 <= i < j < self.blobs@.len() implies (
                    #[trigger] self.blobs@[i]).address@ != (#[trigger] self.blobs@[j]).address@ by {
                        assert(self.blobs@[i] == old_blobs[i]);
                        if j < old_blobs.len() {
                            assert(self.blobs@[j] == old_blobs[j]);
                        }
                    }
                    assert forall|i: int| 0 <= i < self.chunks@.len() implies view.chunks.contains_key(
                        (#[trigger] self.chunks@[i]).key(),
                    ) && view.chunks[self.chunks@[i].key()] == self.chunks@[i].bytes@ by {}
                    assert(view.content_addressed() && view.within_limit()) by {
                        assert forall|k: StoreKey| #[trigger]
                            view.blobs.contains_key(k) implies view.blobs[k].address() == k
                            && view.blobs[k].valid_size() by {
                            if k != key {
                                assert(before.blobs.contains_key(k));
                            }
                        }
                    }
                }
                Ok(address)
            },
        }
    }

    /// Removes the blob held at `address`; says whether there was one.
    pub fn delete_blob(&mut self, address: &BlobAddress) -> (removed: bool)
        requires
            old(self).wf(),
        ensures
            final(self).wf(),
            final(self)@.chunks == old(self)@.chunks,
            final(self)@.blobs == old(self)@.blobs.remove(address@),
            removed == old(self)@.blobs.contains_key(address@),
    {
        match self.find_blob(address) {
            Some(i) => {
                let ghost before = self.model@;
                let ghost key = address@;
                let ghost old_blobs = self.blobs@;
                let _ = self.blobs.remove(i);
                self.model = Ghost(
                    StoreView { chunks: before.chunks, blobs: before.blobs.remove(key) },
                );
                proof {
                    let view = self.model@;
                    assert forall|j: int| 0 <= j < self.blobs@.len() implies #[trigger] self.blobs@[j]
                        == old_blobs[if j < i {
                        j
                    } else {
                        j + 1
                    }] by {}
                    assert forall|k: StoreKey| #[trigger] view.blobs.contains_key(k) implies exists|
                        j: int,
                    |
                        0 <= j < self.blobs@.len() && (#[trigger] self.blobs@[j]).address@ == k by {
                        assert(before.blobs.contains_key(k));
                        let w = choose|w: int|
                            0 <= w < old_blobs.len() && (#[trigger] old_blobs[w]).address@ == k;
                        if w < i {
                            assert(self.blobs@[w].address@ == k);
                        } else {
                            assert(w != i);
                            assert(self.blobs@[w - 1] == old_blobs[w]);
                            assert(self.blobs@[w - 1].address@ == k);
                        }
                    }
                    assert forall|j: int| 0 <= j < self.blobs@.len() implies view.blobs.contains_key(
                        (#[trigger] self.blobs@[j]).address@,
                    ) && view.blobs[self.blobs@[j].address@] == self.blobs@[j].blob@ by {
                        let o = if j < i {
                            j
                        } else {
                            j + 1
                        };
                        assert(self.blobs@[j] == old_blobs[o]);
                        assert(old_blobs[o].address@ != old_blobs[i as int].address@);
                    }
                    assert forall|a: int, b: int| 0 <= a < b < self.blobs@.len() implies (
                    #[trigger] self.blobs@[a]).address@ != (#[trigger] self.blobs@[b]).address@ by {
                        let oa = if a < i {
                            a
                        } else {
                            a + 1
                        };
                        let ob = if b < i {
                            b
                        } else {
                            b + 1
                        };
                        assert(self.blobs@[a] == old_blobs[oa]);
                        assert(self.blobs@[b] == old_blobs[ob]);
                    }
                    assert forall|j: int| 0 <= j < self.chunks@.len() implies view.chunks.contains_key(
                        (#[trigger] self.chunks@[j]).key(),
                    ) && view.chunks[self.chunks@[j].key()] == self.chunks@[j].bytes@ by {}
                    assert(view.content_addressed() && view.within_limit()) by {
                        assert forall|k: StoreKey| #[trigger]
                            view.blobs.contains_key(k) implies view.blobs[k].address() == k
                            && view.blobs[k].valid_size() by {
                            assert(before.blobs.contains_key(k));
                        }
                    }
                }
                true
            },
            None => {
                assert(self@.blobs.remove(address@) =~= self@.blobs);
                false
            },
        }
    }
}

/// The error for bytes refused because other bytes hold the hash.
pub open spec fn spec_conflict(hash: Seq<u8>) -> ErrorView {
    ErrorView::StorageFailure { hashes: seq![hash], cause: StorageCause::Conflict }
}

/// What storing `bytes` under `key` makes of the chunks: the map with the
/// entry, or nothing where other bytes already hold the key.
pub open spec fn spec_put_chunk(chunks: Map<StoreKey, Seq<u8>>, key: StoreKey, bytes: Seq<u8>)
    -> Option<Map<StoreKey, Seq<u8>>> {
    if chunks.contains_key(key) && chunks[key] != bytes {
        None
    } else {
        Some(chunks.insert(key, bytes))
    }
}

/// What storing `blob` makes of the blobs: the map with the blob at its
/// address, or the error with which it is refused.
pub open spec fn spec_put_blob(blobs: Map<StoreKey, BlobView>, blob: BlobView) -> Result<
    Map<StoreKey, BlobView>,
    ErrorView,
> {
    if !blob.valid_size() {
        Err(ErrorView::SizeExceeded)
    } else if blobs.contains_key(blob.address()) && blobs[blob.address()] != blob {
        Err(spec_conflict(blob.address().1))
    } else {
        Ok(blobs.insert(blob.address(), blob))
    }
}

/// Whether two byte strings are equal.
pub fn bytes_eq(a: &[u8], b: &[u8]) -> (same: bool)
    ensures
        same == (a@ == b@),
{
    if a.len() != b.len() {
        return false;
    }
    let mut i: usize = 0;
    while i < a.len()
        invariant
            i <= a@.len(),
            a@.len() == b@.len(),
            forall|j: int| 0 <= j < i ==> a@[j] == b@[j],
        decreases a@.len() - i,
    {
        if a[i] != b[i] {
            return false;
        }
        i += 1;
    }
    assert(a@ =~= b@);
    true
}

/// Whether two blobs are of the same kind, with the same payload and owner.
pub fn blob_eq(a: &Blob, b: &Blob) -> (same: bool)
    ensures
        same == (a@ == b@),
{
    match (a, b) {
        (Blob::Public { payload: p }, Blob::Public { payload: q }) => bytes_eq(
            p.as_slice(),
            q.as_slice(),
        ),
        (Blob::Private { payload: p, owner: o }, Blob::Private { payload: q, owner: r }) => {
            bytes_eq(p.as_slice(), q.as_slice()) && bytes_eq(o.as_slice(), r.as_slice())
        },
        _ => false,
    }
}

} // verus!
