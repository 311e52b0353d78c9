//! The client facade: store, read and delete blobs, and compute the address
//! of data without storing it.
//!
//! The facade here works on a [`MemoryStore`]; every operation states, over
//! the maps of that store, what it returns and what it leaves behind.

use crate::address::{spec_kind_of_flag, BlobAddress, BlobKind};
use crate::blob::{spec_parse_blob, Blob, BlobView};
use crate::cipher::{
    chunks_view, self_encrypt, spec_faithful, spec_self_encrypt, Chunk, ChunkView,
};
use crate::data_map::{
    descriptors_view, spec_encode_level, spec_parse_level, DataMap, DataMapLevel, DataMapView,
    DescriptorView, LevelView,
};
use crate::error::{BlobError, ErrorView, StorageCause};
use crate::laws::{law_read_after_store, lemma_packed_blob};
use crate::packer::{
    map_view, pack, peel, reassemble, spec_pack, spec_pack_faithful, spec_unpack, unpack, Packed,
    Peel, MAX_DEPTH,
};
use crate::reader::{
    read_using_data_map, read_view, spec_clip, spec_read_map, spec_window_end, spec_window_start,
};
use crate::store::{
    spec_conflict, spec_put_blob, spec_put_chunk, MemoryStore, StoreKey, StoreView,
};
use crate::wire::copy_bytes;
use vstd::prelude::*;

verus! {

/// A client of the store, with the key it owns private blobs under.
pub struct Client {
    /// The store the client works on.
    pub store: MemoryStore,
    /// The client's public key, as bytes.
    pub owner: Vec<u8>,
}

/// The result of a store as contracts see it.
pub open spec fn address_view(stored: Result<BlobAddress, BlobError>) -> Result<
    StoreKey,
    ErrorView,
> {
    match stored {
        Ok(address) => Ok(address@),
        Err(error) => Err(error@),
    }
}

/// The result of an operation without a value as contracts see it.
pub open spec fn unit_view(done: Result<(), BlobError>) -> Result<(), ErrorView> {
    match done {
        Ok(()) => Ok(()),
        Err(error) => Err(error@),
    }
}

/// The owner bound into a blob: none for a public one.
pub open spec fn spec_owner_for(public: bool, owner: Seq<u8>) -> Option<Seq<u8>> {
    if public {
        None
    } else {
        Some(owner)
    }
}

/// The kind that an optional owner selects.
pub open spec fn spec_kind_for(owner: Option<Seq<u8>>) -> BlobKind {
    match owner {
        Some(_) => BlobKind::Private,
        None => BlobKind::Public,
    }
}

/// What storing `chunks` one after the other makes of the chunk map, and
/// the conflict that stopped it, if one did. Chunks in front of a conflict
/// stay stored.
pub open spec fn spec_put_all(
    stored: Map<StoreKey, Seq<u8>>,
    kind: BlobKind,
    chunks: Seq<ChunkView>,
) -> (Map<StoreKey, Seq<u8>>, Option<ErrorView>)
    decreases chunks.len(),
{
    if chunks.len() == 0 {
        (stored, None)
    } else {
        let (front, stopped) = spec_put_all(stored, kind, chunks.drop_last());
        if stopped is Some {
            (front, stopped)
        } else {
            match spec_put_chunk(front, (kind, chunks.last().hash), chunks.last().bytes) {
                Some(after) => (after, None),
                None => (front, Some(spec_conflict(chunks.last().hash))),
            }
        }
    }
}

/// What self-encrypting `data` and storing its chunks makes of the chunk
/// map, and the data map or the error it ends with.
pub open spec fn spec_write(stored: Map<StoreKey, Seq<u8>>, kind: BlobKind, data: Seq<u8>) -> (
    Map<StoreKey, Seq<u8>>,
    Result<DataMapView, ErrorView>,
) {
    match spec_self_encrypt(data) {
        None => (stored, Err(ErrorView::CipherFailure)),
        Some((map, chunks)) => {
            let (after, stopped) = spec_put_all(stored, kind, chunks);
            match stopped {
                Some(error) => (after, Err(error)),
                None => (after, Ok(map)),
            }
        },
    }
}

/// What storing `data` makes of the store, and the address or the error it
/// ends with.
///
/// The data is self-encrypted and its chunks stored; the root level of its
/// data map is packed; the chunks of the added levels are stored; the
/// packed blob is stored, and its address returned. What was stored before
/// a failure stays stored.
pub open spec fn spec_store(store: StoreView, data: Seq<u8>, owner: Option<Seq<u8>>) -> (
    StoreView,
    Result<StoreKey, ErrorView>,
) {
    let kind = spec_kind_for(owner);
    let (written, root) = spec_write(store.chunks, kind, data);
    match root {
        Err(error) => (StoreView { chunks: written, blobs: store.blobs }, Err(error)),
        Ok(map) => match spec_pack(spec_encode_level(LevelView::Root(map)), owner, 0) {
            Err(error) => (StoreView { chunks: written, blobs: store.blobs }, Err(error)),
            Ok(packed) => {
                let (committed, stopped) = spec_put_all(written, kind, packed.chunks);
                match stopped {
                    Some(error) => (
                        StoreView { chunks: committed, blobs: store.blobs },
                        Err(error),
                    ),
                    None => match spec_put_blob(store.blobs, packed.blob) {
                        Err(error) => (
                            StoreView { chunks: committed, blobs: store.blobs },
                            Err(error),
                        ),
                        Ok(blobs) => (
                            StoreView { chunks: committed, blobs },
                            Ok(packed.blob.address()),
                        ),
                    },
                }
            },
        },
    }
}

/// Every encryption that storing `data` makes is faithful.
pub open spec fn spec_store_faithful(data: Seq<u8>, owner: Option<Seq<u8>>) -> bool {
    spec_faithful(data) && (spec_self_encrypt(data) matches Some(parts) ==> spec_pack_faithful(
        spec_encode_level(LevelView::Root(parts.0)),
        owner,
        0,
    ))
}

/// The data map of `data` and the address it would be stored under.
pub open spec fn spec_blob_data_map(data: Seq<u8>, owner: Option<Seq<u8>>) -> Result<
    (DataMapView, StoreKey),
    ErrorView,
> {
    match spec_self_encrypt(data) {
        None => Err(ErrorView::CipherFailure),
        Some((map, _)) => match spec_pack(spec_encode_level(LevelView::Root(map)), owner, 0) {
            Err(error) => Err(error),
            Ok(packed) => Ok((map, packed.blob.address())),
        },
    }
}

/// `error`, with the address the caller asked for in place of the address
/// of whatever was not found on the way.
pub open spec fn spec_readdress(error: ErrorView, address: StoreKey) -> ErrorView {
    match error {
        ErrorView::NotFound { .. } => ErrorView::NotFound { address },
        other => other,
    }
}

/// What a read of the blob at `address` returns.
///
/// The blob is looked up under the kind and the hash of the address, its
/// levels are peeled down to the user's data map, and the window is read
/// through that map.
pub open spec fn spec_read_blob(
    store: StoreView,
    address: StoreKey,
    position: Option<usize>,
    len: Option<usize>,
) -> Result<Seq<u8>, ErrorView> {
    if !store.blobs.contains_key(address) {
        Err(ErrorView::NotFound { address })
    } else {
        match spec_unpack(store.chunks, store.blobs[address], 0) {
            Err(error) => Err(spec_readdress(error, address)),
            Ok(map) => match spec_read_map(store.chunks, address.0, map, position, len) {
                Err(error) => Err(spec_readdress(error, address)),
                Ok(bytes) => Ok(bytes),
            },
        }
    }
}

/// Every read at `address` gives the part of `data` inside its window.
pub open spec fn spec_reads_back(store: StoreView, address: StoreKey, data: Seq<u8>) -> bool {
    forall|position: Option<usize>, len: Option<usize>| #[trigger]
        spec_read_blob(store, address, position, len) == Ok::<Seq<u8>, ErrorView>(
            spec_clip(data, spec_window_start(position), spec_window_end(position, len)),
        )
}

/// The chunk map without the chunks of the first `count` descriptors.
pub open spec fn spec_remove_chunks(
    stored: Map<StoreKey, Seq<u8>>,
    kind: BlobKind,
    descriptors: Seq<DescriptorView>,
    count: int,
) -> Map<StoreKey, Seq<u8>>
    decreases count,
{
    if count <= 0 {
        stored
    } else {
        spec_remove_chunks(stored, kind, descriptors, count - 1).remove(
            (kind, descriptors[count - 1].post_hash),
        )
    }
}

/// The chunk map without the chunks that `map` refers to.
pub open spec fn spec_remove_map(stored: Map<StoreKey, Seq<u8>>, kind: BlobKind, map: DataMapView)
    -> Map<StoreKey, Seq<u8>> {
    spec_remove_chunks(stored, kind, map.descriptors(), map.descriptors().len() as int)
}

/// What deleting the levels under a private blob makes of the chunk map.
///
/// A root level has its chunks removed, and the deletion is done. A child
/// level is first read in full, then its chunks are removed, and the blob
/// it held is deleted in turn. A level that cannot be read keeps its
/// chunks.
pub open spec fn spec_delete_levels(stored: Map<StoreKey, Seq<u8>>, blob: BlobView, depth: nat)
    -> (Map<StoreKey, Seq<u8>>, Result<(), ErrorView>)
    decreases MAX_DEPTH - depth,
{
    match spec_parse_level(blob.payload()) {
        None => (stored, Err(ErrorView::IntegrityFailure)),
        Some(LevelView::Root(map)) => (spec_remove_map(stored, BlobKind::Private, map), Ok(())),
        Some(LevelView::Child(map)) => if depth >= MAX_DEPTH {
            (stored, Err(ErrorView::IntegrityFailure))
        } else {
            match spec_read_map(stored, BlobKind::Private, map, None, None) {
                Err(error) => (stored, Err(error)),
                Ok(bytes) => {
                    let after = spec_remove_map(stored, BlobKind::Private, map);
                    match spec_parse_blob(bytes) {
                        None => (after, Err(ErrorView::IntegrityFailure)),
                        Some(inner) => spec_delete_levels(after, inner, depth + 1),
                    }
                },
            }
        },
    }
}

/// What deleting the blob at `address` on behalf of `owner` makes of the
/// store.
///
/// An address that holds nothing is not found. A public blob, and a private
/// one of another owner, are forbidden and left alone. Otherwise the blob
/// leaves the store, whatever becomes of its chunks, and its levels are
/// deleted.
pub open spec fn spec_delete(store: StoreView, address: StoreKey, owner: Seq<u8>) -> (
    StoreView,
    Result<(), ErrorView>,
) {
    if !store.blobs.contains_key(address) {
        (store, Err(ErrorView::NotFound { address }))
    } else if store.blobs[address].owner() != Some(owner) {
        (store, Err(ErrorView::Forbidden))
    } else {
        let (chunks, done) = spec_delete_levels(store.chunks, store.blobs[address], 0);
        (
            StoreView { chunks, blobs: store.blobs.remove(address) },
            match done {
                Ok(()) => Ok(()),
                Err(error) => Err(spec_readdress(error, address)),
            },
        )
    }
}

/// Stores `chunks` in the namespace `kind`, in order, and stops at the
/// first that the store refuses.
pub fn commit_chunks(store: &mut MemoryStore, kind: BlobKind, chunks: &Vec<Chunk>) -> (done: Result<
    (),
    BlobError,
>)
    requires
        old(store).wf(),
    ensures
        final(store).wf(),
        final(store)@.blobs == old(store)@.blobs,
        final(store)@.chunks == spec_put_all(old(store)@.chunks, kind, chunks_view(chunks@)).0,
        match done {
            Ok(()) => spec_put_all(old(store)@.chunks, kind, chunks_view(chunks@)).1 is None,
            Err(error) => spec_put_all(old(store)@.chunks, kind, chunks_view(chunks@)).1 == Some(
                error@,
            ),
        },
{
    let ghost views = chunks_view(chunks@);
    let mut i: usize = 0;
    while i < chunks.len()
        invariant
            store.wf(),
            i <= chunks@.len(),
            views == chunks_view(chunks@),
            store@.blobs == old(store)@.blobs,
            spec_put_all(old(store)@.chunks, kind, views.take(i as int)) == (store@.chunks, None::<
                ErrorView,
            >),
        decreases chunks@.len() - i,
    {
        let chunk = &chunks[i];
        proof {
            let next = views.take(i + 1);
            assert(next.drop_last() =~= views.take(i as int));
            assert(next.last() == chunk@);
        }
        match store.put_chunk(kind, chunk.hash, copy_bytes(chunk.bytes.as_slice())) {
            Ok(()) => {},
            Err(error) => {
                proof {
                    lemma_put_all_stops(old(store)@.chunks, kind, views, i + 1);
                }
                return Err(error);
            },
        }
        i += 1;
    }
    assert(views.take(i as int) =~= views);
    Ok(())
}

/// Once a chunk is refused, the chunks behind it change nothing.
pub proof fn lemma_put_all_stops(
    stored: Map<StoreKey, Seq<u8>>,
    kind: BlobKind,
    chunks: Seq<ChunkView>,
    count: int,
)
    requires
        0 <= count <= chunks.len(),
        spec_put_all(stored, kind, chunks.take(count)).1 is Some,
    ensures
        spec_put_all(stored, kind, chunks) == spec_put_all(stored, kind, chunks.take(count)),
    decreases chunks.len() - count,
{
    if count < chunks.len() {
        let next = chunks.take(count + 1);
        assert(next.drop_last() =~= chunks.take(count));
        lemma_put_all_stops(stored, kind, chunks, count + 1);
    } else {
        assert(chunks.take(count) =~= chunks);
    }
}

/// Removes from the namespace `kind` every chunk that `map` refers to.
pub fn delete_using_data_map(store: &mut MemoryStore, kind: BlobKind, map: &DataMap)
    requires
        old(store).wf(),
    ensures
        final(store).wf(),
        final(store)@.blobs == old(store)@.blobs,
        final(store)@.chunks == spec_remove_map(old(store)@.chunks, kind, map@),
{
    match map {
        DataMap::Chunks(descriptors) => {
            let ghost views = descriptors_view(descriptors@);
            let mut i: usize = 0;
            while i < descriptors.len()
                invariant
                    store.wf(),
                    i <= descriptors@.len(),
                    views == descriptors_view(descriptors@),
                    store@.blobs == old(store)@.blobs,
                    store@.chunks == spec_remove_chunks(old(store)@.chunks, kind, views, i as int),
                decreases descriptors@.len() - i,
            {
                assert(views[i as int] == descriptors@[i as int]@);
                store.delete_chunk(kind, &descriptors[i].post_hash);
                i += 1;
            }
        },
        _ => {},
    }
}

/// The result of a deletion on a store that reports the chunks it could
/// not remove: success where none is left, else a storage failure that
/// names the chunks left behind.
pub fn deletion_outcome(survivors: Vec<[u8; 32]>) -> (done: Result<(), BlobError>)
    ensures
        survivors@.len() == 0 ==> done is Ok,
        survivors@.len() > 0 ==> done == Err::<(), BlobError>(
            BlobError::StorageFailure { hashes: survivors, cause: StorageCause::Undeleted },
        ),
{
    if survivors.len() == 0 {
        Ok(())
    } else {
        Err(BlobError::StorageFailure { hashes: survivors, cause: StorageCause::Undeleted })
    }
}

/// `error`, with the address the caller asked for in place of the address
/// of whatever was not found on the way.
pub fn readdress(error: BlobError, address: BlobAddress) -> (out: BlobError)
    ensures
        out@ == spec_readdress(error@, address@),
{
    match error {
        BlobError::NotFound { .. } => BlobError::NotFound { address },
        other => other,
    }
}

impl Client {
    /// A client with the key `owner` on an empty store.
    pub fn new(owner: Vec<u8>) -> (client: Client)
        ensures
            client.store.wf(),
            client.owner == owner,
            client.store@.chunks == Map::<StoreKey, Seq<u8>>::empty(),
            client.store@.blobs == Map::<StoreKey, BlobView>::empty(),
    {
        Client { store: MemoryStore::new(), owner }
    }

    /// The client's public key.
    pub fn public_key(&self) -> (key: &Vec<u8>)
        ensures
            key == self.owner,
    {
        &self.owner
    }

    /// The owner to bind into a blob of the given kind.
    pub fn owner_for(&self, public: bool) -> (owner: Option<Vec<u8>>)
        ensures
            crate::blob::owner_view(owner) == spec_owner_for(public, self.owner@),
    {
        if public {
            None
        } else {
            Some(copy_bytes(self.owner.as_slice()))
        }
    }

    /// Self-encrypts `data` and stores its chunks in the namespace of the
    /// kind; returns the data map.
    pub fn write_to_network(&mut self, data: &[u8], public: bool) -> (root: Result<
        DataMap,
        BlobError,
    >)
        requires
            old(self).store.wf(),
        ensures
            final(self).store.wf(),
            final(self).owner == old(self).owner,
            final(self).store@.blobs == old(self).store@.blobs,
            (final(self).store@.chunks, map_view(root)) == spec_write(
                old(self).store@.chunks,
                spec_kind_of_flag(public),
                data@,
            ),
            root is Ok ==> spec_faithful(data@),
    {
        let kind = BlobKind::from_flag(public);
        let (map, chunks) = match self_encrypt(data) {
            Ok(parts) => parts,
            Err(error) => {
                return Err(error);
            },
        };
        match commit_chunks(&mut self.store, kind, &chunks) {
            Ok(()) => Ok(map),
            Err(error) => Err(error),
        }
    }

    /// Stores a blob as it is, without self-encryption. A blob over the
    /// size limit is refused.
    pub fn store_blob_on_network(&mut self, blob: Blob) -> (stored: Result<BlobAddress, BlobError>)
        requires
            old(self).store.wf(),
        ensures
            final(self).store.wf(),
            final(self).owner == old(self).owner,
            final(self).store@.chunks == old(self).store@.chunks,
            match spec_put_blob(old(self).store@.blobs, blob@) {
                Ok(blobs) => final(self).store@.blobs == blobs && address_view(stored) == Ok::<
                    StoreKey,
                    ErrorView,
                >(blob@.address()),
                Err(error) => final(self).store@ == old(self).store@ && address_view(stored)
                    == Err::<StoreKey, ErrorView>(error),
            },
    {
        self.store.put_blob(blob)
    }

    /// The blob stored at `address`.
    pub fn fetch_blob_from_network(&self, address: BlobAddress) -> (fetched: Result<
        &Blob,
        BlobError,
    >)
        requires
            self.store.wf(),
        ensures
            match fetched {
                Ok(blob) => self.store@.blobs.contains_key(address@) && self.store@.blobs[address@]
                    == blob@,
                Err(error) => !self.store@.blobs.contains_key(address@) && error@
                    == (ErrorView::NotFound { address: address@ }),
            },
    {
        match self.store.get_blob(&address) {
            Some(blob) => Ok(blob),
            None => Err(BlobError::NotFound { address }),
        }
    }

    /// Takes the blob at `address` out of the store, on behalf of this
    /// client. Only a private blob of this client can go.
    pub fn delete_blob_from_network(&mut self, address: BlobAddress) -> (done: Result<
        (),
        BlobError,
    >)
        requires
            old(self).store.wf(),
        ensures
            final(self).store.wf(),
            final(self).owner == old(self).owner,
            final(self).store@.chunks == old(self).store@.chunks,
            !old(self).store@.blobs.contains_key(address@) ==> final(self).store@ == old(
                self,
            ).store@ && unit_view(done) == Err::<(), ErrorView>(
                ErrorView::NotFound { address: address@ },
            ),
            old(self).store@.blobs.contains_key(address@) && old(self).store@.blobs[address@].owner()
                != Some(old(self).owner@) ==> final(self).store@ == old(self).store@ && unit_view(
                done,
            ) == Err::<(), ErrorView>(ErrorView::Forbidden),
            old(self).store@.blobs.contains_key(address@) && old(self).store@.blobs[address@].owner()
                == Some(old(self).owner@) ==> final(self).store@.blobs == old(
                self,
            ).store@.blobs.remove(address@) && done is Ok,
    {
        let allowed = match self.store.get_blob(&address) {
            None => {
                return Err(BlobError::NotFound { address });
            },
            Some(blob) => blob.is_owned_by(self.owner.as_slice()),
        };
        if !allowed {
            return Err(BlobError::Forbidden);
        }
        let _ = self.store.delete_blob(&address);
        Ok(())
    }

    /// Reads the window through `data_map`, from the namespace of the kind.
    pub fn read_using_data_map(
        &self,
        data_map: &DataMap,
        public: bool,
        position: Option<usize>,
        len: Option<usize>,
    ) -> (read: Result<Vec<u8>, BlobError>)
        requires
            self.store.wf(),
        ensures
            read_view(read) == spec_read_map(
                self.store@.chunks,
                spec_kind_of_flag(public),
                data_map@,
                position,
                len,
            ),
    {
        read_using_data_map(&self.store, BlobKind::from_flag(public), data_map, position, len)
    }

    /// Removes every chunk that `data_map` refers to from the private
    /// namespace.
    pub fn delete_using_data_map(&mut self, data_map: &DataMap)
        requires
            old(self).store.wf(),
        ensures
            final(self).store.wf(),
            final(self).owner == old(self).owner,
            final(self).store@.blobs == old(self).store@.blobs,
            final(self).store@.chunks == spec_remove_map(
                old(self).store@.chunks,
                BlobKind::Private,
                data_map@,
            ),
    {
        delete_using_data_map(&mut self.store, BlobKind::Private, data_map);
    }

    /// Packs a serialised level into a blob of the kind, bound to this
    /// client where it is private. Nothing is stored.
    pub fn pack(&self, contents: Vec<u8>, public: bool) -> (packed: Result<Packed, BlobError>)
        ensures
            crate::packer::packed_view(packed) == spec_pack(
                contents@,
                spec_owner_for(public, self.owner@),
                0,
            ),
            !(crate::packer::packed_view(packed) == Err::<crate::packer::PackedView, ErrorView>(
                ErrorView::CipherFailure,
            )) ==> spec_pack_faithful(contents@, spec_owner_for(public, self.owner@), 0),
    {
        let owner = self.owner_for(public);
        pack(contents, &owner)
    }

    /// Finds the user's data map under a stored blob.
    pub fn unpack(&self, blob: &Blob) -> (map: Result<DataMap, BlobError>)
        requires
            self.store.wf(),
        ensures
            map_view(map) == spec_unpack(self.store@.chunks, blob@, 0),
    {
        unpack(&self.store, blob)
    }

    /// Self-encrypts `data`, stores its chunks, packs its data map and
    /// stores the packed blob; returns the address of that blob.
    pub fn create_new_blob(&mut self, data: &[u8], public: bool) -> (stored: Result<
        BlobAddress,
        BlobError,
    >)
        requires
            old(self).store.wf(),
        ensures
            final(self).store.wf(),
            final(self).owner == old(self).owner,
            (final(self).store@, address_view(stored)) == spec_store(
                old(self).store@,
                data@,
                spec_owner_for(public, old(self).owner@),
            ),
            stored is Ok ==> spec_store_faithful(data@, spec_owner_for(public, old(self).owner@)),
            stored matches Ok(address) ==> address.kind == spec_kind_of_flag(public)
                && spec_reads_back(final(self).store@, address@, data@),
    {
        let ghost before = self.store@;
        let ghost owner = spec_owner_for(public, self.owner@);
        let kind = BlobKind::from_flag(public);
        let map = match self.write_to_network(data, public) {
            Ok(map) => map,
            Err(error) => {
                return Err(error);
            },
        };
        let payload = DataMapLevel::Root(map).encode();
        let ghost root = payload@;
        let packed = match self.pack(payload, public) {
            Ok(packed) => packed,
            Err(error) => {
                return Err(error);
            },
        };
        match commit_chunks(&mut self.store, kind, &packed.chunks) {
            Ok(()) => {},
            Err(error) => {
                return Err(error);
            },
        }
        let stored = self.store_blob_on_network(packed.blob);
        proof {
            if stored is Ok {
                lemma_packed_blob(root, owner, 0);
                assert forall|position: Option<usize>, len: Option<usize>| #[trigger]
                    spec_read_blob(self.store@, stored->Ok_0@, position, len) == Ok::<
                        Seq<u8>,
                        ErrorView,
                    >(
                        spec_clip(
                            data@,
                            spec_window_start(position),
                            spec_window_end(position, len),
                        ),
                    ) by {
                    law_read_after_store(before, data@, owner, position, len);
                }
            }
        }
        stored
    }

    /// Stores `data` in public blobs and returns the one address under
    /// which it can be read.
    pub fn store_public_blob(&mut self, data: &[u8]) -> (stored: Result<BlobAddress, BlobError>)
        requires
            old(self).store.wf(),
        ensures
            final(self).store.wf(),
            final(self).owner == old(self).owner,
            (final(self).store@, address_view(stored)) == spec_store(old(self).store@, data@, None),
            stored is Ok ==> spec_store_faithful(data@, None),
            stored matches Ok(address) ==> address.kind == BlobKind::Public && spec_reads_back(
                final(self).store@,
                address@,
                data@,
            ),
    {
        self.create_new_blob(data, true)
    }

    /// Stores `data` in private blobs of this client and returns the one
    /// address under which it can be read.
    pub fn store_private_blob(&mut self, data: &[u8]) -> (stored: Result<BlobAddress, BlobError>)
        requires
            old(self).store.wf(),
        ensures
            final(self).store.wf(),
            final(self).owner == old(self).owner,
            (final(self).store@, address_view(stored)) == spec_store(
                old(self).store@,
                data@,
                Some(old(self).owner@),
            ),
            stored is Ok ==> spec_store_faithful(data@, Some(old(self).owner@)),
            stored matches Ok(address) ==> address.kind == BlobKind::Private && spec_reads_back(
                final(self).store@,
                address@,
                data@,
            ),
    {
        self.create_new_blob(data, false)
    }

    /// Reads the contents of the blob at `address`: finds the user's data
    /// map under it and reads the window through that map. Without a
    /// position the window starts at the first byte; without a length it
    /// runs to the end.
    pub fn read_blob(&self, address: BlobAddress, position: Option<usize>, len: Option<usize>) -> (read:
        Result<Vec<u8>, BlobError>)
        requires
            self.store.wf(),
        ensures
            read_view(read) == spec_read_blob(self.store@, address@, position, len),
    {
        let blob = match self.fetch_blob_from_network(address) {
            Ok(blob) => blob,
            Err(error) => {
                return Err(error);
            },
        };
        let public = address.is_public();
        let map = match self.unpack(blob) {
            Ok(map) => map,
            Err(error) => {
                return Err(readdress(error, address));
            },
        };
        match self.read_using_data_map(&map, public, position, len) {
            Ok(bytes) => Ok(bytes),
            Err(error) => Err(readdress(error, address)),
        }
    }

    /// Deletes the private blob at `address` and every chunk under it.
    ///
    /// The blob leaves the store first; then its levels are walked, each
    /// read before its chunks are removed, down to the chunks of the user's
    /// data.
    pub fn delete_blob(&mut self, address: BlobAddress) -> (done: Result<(), BlobError>)
        requires
            old(self).store.wf(),
        ensures
            final(self).store.wf(),
            final(self).owner == old(self).owner,
            (final(self).store@, unit_view(done)) == spec_delete(
                old(self).store@,
                address@,
                old(self).owner@,
            ),
    {
        let mut data: Blob = match self.fetch_blob_from_network(address) {
            Ok(blob) => blob.duplicate(),
            Err(error) => {
                return Err(error);
            },
        };
        match self.delete_blob_from_network(address) {
            Ok(()) => {},
            Err(error) => {
                return Err(error);
            },
        }
        let ghost whole = spec_delete_levels(old(self).store@.chunks, data@, 0);
        let ghost blobs = self.store@.blobs;
        let mut depth: usize = 0;
        loop
            invariant
                self.store.wf(),
                self.owner == old(self).owner,
                depth <= MAX_DEPTH,
                self.store@.blobs == blobs,
                blobs == old(self).store@.blobs.remove(address@),
                old(self).store@.blobs.contains_key(address@),
                old(self).store@.blobs[address@].owner() == Some(old(self).owner@),
                whole == spec_delete_levels(
                    old(self).store@.chunks,
                    old(self).store@.blobs[address@],
                    0,
                ),
                whole == spec_delete_levels(self.store@.chunks, data@, depth as nat),
            decreases MAX_DEPTH - depth,
        {
            let map = match peel(&data, depth) {
                Ok(Peel::Done(map)) => {
                    self.delete_using_data_map(&map);
                    return Ok(());
                },
                Ok(Peel::Fetch(map)) => map,
                Err(error) => {
                    return Err(error);
                },
            };
            let serialised = match self.read_using_data_map(&map, false, None, None) {
                Ok(bytes) => bytes,
                Err(error) => {
                    return Err(readdress(error, address));
                },
            };
            self.delete_using_data_map(&map);
            data = match reassemble(serialised.as_slice()) {
                Ok(inner) => inner,
                Err(error) => {
                    return Err(error);
                },
            };
            depth += 1;
        }
    }

    /// The data map of `data` and the address it would be stored under,
    /// public where there is no owner, private and bound to the owner where
    /// there is one. Nothing is stored.
    pub fn blob_data_map(data: Vec<u8>, privately_owned: Option<Vec<u8>>) -> (mapped: Result<
        (DataMap, BlobAddress),
        BlobError,
    >)
        ensures
            match mapped {
                Ok(pair) => spec_blob_data_map(data@, crate::blob::owner_view(privately_owned))
                    == Ok::<(DataMapView, StoreKey), ErrorView>((pair.0@, pair.1@)),
                Err(error) => spec_blob_data_map(data@, crate::blob::owner_view(privately_owned))
                    == Err::<(DataMapView, StoreKey), ErrorView>(error@),
            },
    {
        let (map, _) = match self_encrypt(data.as_slice()) {
            Ok(parts) => parts,
            Err(error) => {
                return Err(error);
            },
        };
        let payload = DataMapLevel::Root(map.duplicate()).encode();
        match pack(payload, &privately_owned) {
            Ok(packed) => Ok((map, packed.blob.address())),
            Err(error) => Err(error),
        }
    }
}

} // verus!
