//! Reading through a data map: which chunks a window of the plaintext
//! touches, and how their parts are put together.

use crate::address::{BlobAddress, BlobKind};
use crate::cipher::{decrypt_chunk, spec_decrypted_chunk};
use crate::data_map::{descriptors_view, ChunkDescriptor, DataMap, DataMapView, DescriptorView};
use crate::digest::{content_hash, hash_eq, spec_sha3_256};
use crate::error::{BlobError, ErrorView};
use crate::store::{MemoryStore, StoreKey};
use crate::wire::append_bytes;
use vstd::prelude::*;
use vstd::slice::slice_subrange;

verus! {

/// The result of a read as contracts see it.
pub open spec fn read_view(read: Result<Vec<u8>, BlobError>) -> Result<Seq<u8>, ErrorView> {
    match read {
        Ok(bytes) => Ok(bytes@),
        Err(error) => Err(error@),
    }
}

/// First byte of the window that `position` asks for: 0 where none is given.
pub open spec fn spec_window_start(position: Option<usize>) -> nat {
    match position {
        Some(position) => position as nat,
        None => 0,
    }
}

/// End of the window that `position` and `len` ask for: to the end of the
/// data where no length is given. The window is capped at `u64::MAX`.
pub open spec fn spec_window_end(position: Option<usize>, len: Option<usize>) -> nat {
    match len {
        Some(len) => if spec_window_start(position) + len <= u64::MAX {
            (spec_window_start(position) + len) as nat
        } else {
            u64::MAX as nat
        },
        None => u64::MAX as nat,
    }
}

/// The part of `bytes` inside the window; what lies outside is clipped.
pub open spec fn spec_clip(bytes: Seq<u8>, start: nat, end: nat) -> Seq<u8> {
    let from = if start < bytes.len() {
        start
    } else {
        bytes.len()
    };
    let to = if end < bytes.len() {
        end
    } else {
        bytes.len()
    };
    if from < to {
        bytes.subrange(from as int, to as int)
    } else {
        Seq::empty()
    }
}

/// What is made of a decryption: a cipher failure where there is no
/// plaintext, an integrity failure where the plaintext has not the length
/// recorded, else the plaintext.
pub open spec fn spec_accept_plain(size: u64, plain: Option<Seq<u8>>) -> Result<
    Seq<u8>,
    ErrorView,
> {
    match plain {
        None => Err(ErrorView::CipherFailure),
        Some(plain) => if plain.len() != size {
            Err(ErrorView::IntegrityFailure)
        } else {
            Ok(plain)
        },
    }
}

/// The view of an optional plaintext.
pub open spec fn plain_view(plain: Option<Vec<u8>>) -> Option<Seq<u8>> {
    match plain {
        Some(plain) => Some(plain@),
        None => None,
    }
}

/// The plaintext of chunk `index`: the chunk is fetched by the hash of its
/// ciphertext, checked against that hash, decrypted, and checked against
/// the recorded length.
pub open spec fn spec_open_chunk(
    chunks: Map<StoreKey, Seq<u8>>,
    kind: BlobKind,
    descriptors: Seq<DescriptorView>,
    index: int,
) -> Result<Seq<u8>, ErrorView> {
    let key = (kind, descriptors[index].post_hash);
    if !chunks.contains_key(key) {
        Err(ErrorView::NotFound { address: key })
    } else if spec_sha3_256(chunks[key]) != descriptors[index].post_hash {
        Err(ErrorView::IntegrityFailure)
    } else {
        spec_accept_plain(
            descriptors[index].size,
            spec_decrypted_chunk(descriptors, index, chunks[key]),
        )
    }
}

/// Where the window starts inside a chunk that has `before` bytes in front
/// of it.
pub open spec fn spec_inner_start(start: nat, before: nat) -> nat {
    if start > before {
        (start - before) as nat
    } else {
        0
    }
}

/// `bytes` in front of what `rest` holds; the error of `rest` otherwise.
pub open spec fn spec_prepend(bytes: Seq<u8>, rest: Result<Seq<u8>, ErrorView>) -> Result<
    Seq<u8>,
    ErrorView,
> {
    match rest {
        Ok(tail) => Ok(bytes + tail),
        Err(error) => Err(error),
    }
}

/// The bytes of the window `[start, end)` found in the chunks from `index`
/// on, where `before` bytes of plaintext lie in front of chunk `index`.
///
/// An empty window opens no chunk. Chunks that end at or before `start` are
/// passed over unopened; the walk stops at the first chunk that begins at
/// or after `end`. Every chunk in between is opened and its part inside the
/// window taken. The first chunk that fails to open decides the error.
pub open spec fn spec_collect(
    chunks: Map<StoreKey, Seq<u8>>,
    kind: BlobKind,
    descriptors: Seq<DescriptorView>,
    start: nat,
    end: nat,
    index: int,
    before: nat,
) -> Result<Seq<u8>, ErrorView>
    decreases descriptors.len() - index,
{
    if index < 0 || index >= descriptors.len() || before >= end || start >= end {
        Ok(Seq::empty())
    } else {
        let after = (before + descriptors[index].size) as nat;
        if after > u64::MAX {
            Err(ErrorView::IntegrityFailure)
        } else if after <= start {
            spec_collect(chunks, kind, descriptors, start, end, index + 1, after)
        } else {
            match spec_open_chunk(chunks, kind, descriptors, index) {
                Err(error) => Err(error),
                Ok(plain) => spec_prepend(
                    spec_clip(plain, spec_inner_start(start, before), (end - before) as nat),
                    spec_collect(chunks, kind, descriptors, start, end, index + 1, after),
                ),
            }
        }
    }
}

/// What a read of the window through `map` returns.
///
/// An empty map gives no bytes; inline content gives its part inside the
/// window; chunks give the parts of their plaintexts inside the window. A
/// map of fewer than three chunks has no keys to decrypt with and is
/// refused.
pub open spec fn spec_read_map(
    chunks: Map<StoreKey, Seq<u8>>,
    kind: BlobKind,
    map: DataMapView,
    position: Option<usize>,
    len: Option<usize>,
) -> Result<Seq<u8>, ErrorView> {
    let start = spec_window_start(position);
    let end = spec_window_end(position, len);
    match map {
        DataMapView::Empty => Ok(Seq::empty()),
        DataMapView::Content(bytes) => Ok(spec_clip(bytes, start, end)),
        DataMapView::Chunks(descriptors) => if descriptors.len() < 3 {
            Err(ErrorView::IntegrityFailure)
        } else {
            spec_collect(chunks, kind, descriptors, start, end, 0, 0)
        },
    }
}

/// The window as two 64-bit bounds.
pub fn window(position: Option<usize>, len: Option<usize>) -> (bounds: (u64, u64))
    ensures
        bounds.0 == spec_window_start(position),
        bounds.1 == spec_window_end(position, len),
{
    let start: u64 = match position {
        Some(position) => position as u64,
        None => 0,
    };
    let end: u64 = match len {
        Some(len) => start.saturating_add(len as u64),
        None => u64::MAX,
    };
    (start, end)
}

/// Appends to `out` the part of `bytes` inside the window.
pub fn append_clipped(out: &mut Vec<u8>, bytes: &[u8], start: u64, end: u64)
    ensures
        final(out)@ == old(out)@ + spec_clip(bytes@, start as nat, end as nat),
{
    let len: usize = bytes.len();
    let from: usize = if start < len as u64 {
        start as usize
    } else {
        len
    };
    let to: usize = if end < len as u64 {
        end as usize
    } else {
        len
    };
    if from < to {
        append_bytes(out, slice_subrange(bytes, from, to));
    } else {
        assert(out@ + Seq::<u8>::empty() =~= out@);
    }
}

/// Takes what decryption made of a chunk whose descriptor records `size`
/// bytes of plaintext: hands the plaintext on where it has that length.
pub fn accept_plain(size: u64, plain: Option<Vec<u8>>) -> (accepted: Result<Vec<u8>, BlobError>)
    ensures
        read_view(accepted) == spec_accept_plain(size, plain_view(plain)),
{
    match plain {
        None => Err(BlobError::CipherFailure),
        Some(plain) => {
            if plain.len() as u64 != size {
                Err(BlobError::IntegrityFailure)
            } else {
                Ok(plain)
            }
        },
    }
}

/// Fetches, checks and decrypts chunk `index`.
pub fn open_stored_chunk(
    store: &MemoryStore,
    kind: BlobKind,
    descriptors: &Vec<ChunkDescriptor>,
    index: usize,
) -> (plain: Result<Vec<u8>, BlobError>)
    requires
        store.wf(),
        descriptors@.len() >= 3,
        index < descriptors@.len(),
    ensures
        read_view(plain) == spec_open_chunk(
            store@.chunks,
            kind,
            descriptors_view(descriptors@),
            index as int,
        ),
{
    let descriptor = &descriptors[index];
    assert(descriptors_view(descriptors@)[index as int] == descriptor@);
    let content = match store.get_chunk(kind, &descriptor.post_hash) {
        Some(content) => content,
        None => {
            return Err(
                BlobError::NotFound {
                    address: BlobAddress { kind, hash: descriptor.post_hash },
                },
            );
        },
    };
    let found = content_hash(content.as_slice());
    if !hash_eq(&found, &descriptor.post_hash) {
        return Err(BlobError::IntegrityFailure);
    }
    accept_plain(descriptor.size, decrypt_chunk(descriptors, index, content.as_slice()))
}

/// Reads the window that `position` and `len` ask for through `map`, taking
/// chunks from the namespace `kind` of `store`. Without a position the
/// window starts at the first byte; without a length it runs to the end.
/// What lies outside the data is clipped: a window past the end gives no
/// bytes, and no error.
pub fn read_using_data_map(
    store: &MemoryStore,
    kind: BlobKind,
    map: &DataMap,
    position: Option<usize>,
    len: Option<usize>,
) -> (read: Result<Vec<u8>, BlobError>)
    requires
        store.wf(),
    ensures
        read_view(read) == spec_read_map(store@.chunks, kind, map@, position, len),
{
    let (start, end) = window(position, len);
    let mut out: Vec<u8> = Vec::new();
    match map {
        DataMap::Empty => Ok(out),
        DataMap::Content(bytes) => {
            append_clipped(&mut out, bytes.as_slice(), start, end);
            assert(Seq::<u8>::empty() + spec_clip(bytes@, start as nat, end as nat) =~= spec_clip(
                bytes@,
                start as nat,
                end as nat,
            ));
            Ok(out)
        },
        DataMap::Chunks(descriptors) => {
            if descriptors.len() < 3 {
                return Err(BlobError::IntegrityFailure);
            }
            let ghost views = descriptors_view(descriptors@);
            let ghost whole = spec_collect(
                store@.chunks,
                kind,
                views,
                start as nat,
                end as nat,
                0,
                0,
            );
            let mut index: usize = 0;
            let mut before: u64 = 0;
            assert(spec_prepend(out@, whole) == whole) by {
                if whole is Ok {
                    assert(out@ + whole->Ok_0 =~= whole->Ok_0);
                }
            }
            while index < descriptors.len() && before < end && start < end
                invariant
                    store.wf(),
                    index <= descriptors@.len(),
                    descriptors@.len() >= 3,
                    views == descriptors_view(descriptors@),
                    whole == spec_read_map(store@.chunks, kind, map@, position, len),
                    whole == spec_prepend(
                        out@,
                        spec_collect(
                            store@.chunks,
                            kind,
                            views,
                            start as nat,
                            end as nat,
                            index as int,
                            before as nat,
                        ),
                    ),
                decreases descriptors@.len() - index,
            {
                let size: u64 = descriptors[index].size;
                assert(views[index as int].size == size);
                let after: u64 = match before.checked_add(size) {
                    Some(after) => after,
                    None => {
                        return Err(BlobError::IntegrityFailure);
                    },
                };
                if after > start {
                    let plain = match open_stored_chunk(store, kind, descriptors, index) {
                        Ok(plain) => plain,
                        Err(error) => {
                            return Err(error);
                        },
                    };
                    let ghost done = out@;
                    let inner_start: u64 = if start > before {
                        start - before
                    } else {
                        0
                    };
                    append_clipped(&mut out, plain.as_slice(), inner_start, end - before);
                    proof {
                        let rest = spec_collect(
                            store@.chunks,
                            kind,
                            views,
                            start as nat,
                            end as nat,
                            index + 1,
                            after as nat,
                        );
                        let part = spec_clip(
                            plain@,
                            spec_inner_start(start as nat, before as nat),
                            (end - before) as nat,
                        );
                        assert(out@ == done + part);
                        if rest is Ok {
                            assert(done + (part + rest->Ok_0) =~= (done + part) + rest->Ok_0);
                        }
                    }
                }
                before = after;
                index += 1;
            }
            proof {
                let rest = spec_collect(
                    store@.chunks,
                    kind,
                    views,
                    start as nat,
                    end as nat,
                    index as int,
                    before as nat,
                );
                assert(rest == Ok::<Seq<u8>, ErrorView>(Seq::empty()));
                assert(out@ + Seq::<u8>::empty() =~= out@);
            }
            Ok(out)
        },
    }
}

/// The hashes of the chunks that the walk from chunk `index` on opens, in
/// the order in which it opens them.
pub open spec fn spec_covered(
    descriptors: Seq<DescriptorView>,
    start: nat,
    end: nat,
    index: int,
    before: nat,
) -> Seq<Seq<u8>>
    decreases descriptors.len() - index,
{
    if index < 0 || index >= descriptors.len() || before >= end || start >= end {
        Seq::empty()
    } else {
        let after = (before + descriptors[index].size) as nat;
        if after > u64::MAX {
            Seq::empty()
        } else if after <= start {
            spec_covered(descriptors, start, end, index + 1, after)
        } else {
            seq![descriptors[index].post_hash] + spec_covered(
                descriptors,
                start,
                end,
                index + 1,
                after,
            )
        }
    }
}

/// The hashes of the chunks that a read of the window through `map` opens.
pub open spec fn spec_chunks_needed(map: DataMapView, position: Option<usize>, len: Option<usize>)
    -> Seq<Seq<u8>> {
    match map {
        DataMapView::Chunks(descriptors) => if descriptors.len() < 3 {
            Seq::empty()
        } else {
            spec_covered(
                descriptors,
                spec_window_start(position),
                spec_window_end(position, len),
                0,
                0,
            )
        },
        _ => Seq::empty(),
    }
}

/// The views of a sequence of hashes.
pub open spec fn hashes_view(hashes: Seq<[u8; 32]>) -> Seq<Seq<u8>> {
    Seq::new(hashes.len(), |i: int| hashes[i]@)
}

/// The hashes of the chunks to have at hand for a read of the window
/// through `map`: the chunks that the window touches, and no others.
pub fn chunks_needed(map: &DataMap, position: Option<usize>, len: Option<usize>) -> (hashes: Vec<
    [u8; 32],
>)
    ensures
        hashes_view(hashes@) == spec_chunks_needed(map@, position, len),
{
    let (start, end) = window(position, len);
    let mut hashes: Vec<[u8; 32]> = Vec::new();
    match map {
        DataMap::Chunks(descriptors) => {
            if descriptors.len() < 3 {
                assert(hashes_view(hashes@) =~= Seq::<Seq<u8>>::empty());
                return hashes;
            }
            let ghost views = descriptors_view(descriptors@);
            let ghost whole = spec_covered(views, start as nat, end as nat, 0, 0);
            let mut index: usize = 0;
            let mut before: u64 = 0;
            assert(hashes_view(hashes@) + whole =~= whole);
            while index < descriptors.len() && before < end && start < end
                invariant
                    index <= descriptors@.len(),
                    views == descriptors_view(descriptors@),
                    whole == spec_chunks_needed(map@, position, len),
                    whole == hashes_view(hashes@) + spec_covered(
                        views,
                        start as nat,
                        end as nat,
                        index as int,
                        before as nat,
                    ),
                decreases descriptors@.len() - index,
            {
                let size: u64 = descriptors[index].size;
                assert(views[index as int] == descriptors@[index as int]@);
                let after: u64 = match before.checked_add(size) {
                    Some(after) => after,
                    None => {
                        assert(hashes_view(hashes@) + Seq::<Seq<u8>>::empty() =~= hashes_view(
                            hashes@,
                        ));
                        return hashes;
                    },
                };
                if after > start {
                    let ghost done = hashes_view(hashes@);
                    hashes.push(descriptors[index].post_hash);
                    proof {
                        let rest = spec_covered(
                            views,
                            start as nat,
                            end as nat,
                            index + 1,
                            after as nat,
                        );
                        assert(hashes_view(hashes@) =~= done + seq![views[index as int].post_hash]);
                        assert(done + (seq![views[index as int].post_hash] + rest) =~= (done
                            + seq![views[index as int].post_hash]) + rest);
                    }
                }
                before = after;
                index += 1;
            }
            assert(hashes_view(hashes@) + Seq::<Seq<u8>>::empty() =~= hashes_view(hashes@));
            hashes
        },
        _ => {
            assert(hashes_view(hashes@) =~= Seq::<Seq<u8>>::empty());
            hashes
        },
    }
}

} // verus!
