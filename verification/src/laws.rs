//! What holds of the pipeline as a whole: reading gives back what was
//! stored, addresses are stable, storing again changes nothing.

use crate::address::BlobKind;
use crate::blob::{
    lemma_blob_round_trip, lemma_blob_wire_len, spec_blob, spec_encode_blob, spec_parse_blob,
    BlobView,
};
use crate::cipher::{spec_faithful, spec_sealed_descriptors, spec_self_encrypt, ChunkView};
use crate::client::{
    spec_blob_data_map, spec_delete, spec_delete_levels, spec_kind_for, spec_put_all,
    spec_read_blob, spec_remove_chunks, spec_remove_map, spec_store, spec_store_faithful,
    spec_write,
};
use crate::data_map::{
    lemma_level_round_trip, spec_encode_level, spec_parse_level, spec_recorded_len, DataMapView,
    DescriptorView, LevelView,
};
use crate::error::ErrorView;
use crate::layout::{
    lemma_chunk_bounds, lemma_chunk_start_step, lemma_last_chunk_ends_at_len,
    lemma_sizes_sum_to_len, spec_chunk_size, spec_chunk_start, spec_num_chunks, spec_plain_chunk,
    spec_sizes_sum, MAX_CHUNK_SIZE, MIN_CHUNK_SIZE, MIN_ENCRYPTABLE_BYTES,
};
use crate::packer::{spec_pack, spec_pack_faithful, spec_unpack, MAX_DEPTH};
use crate::reader::{
    spec_chunks_needed, spec_clip, spec_collect, spec_covered, spec_inner_start, spec_open_chunk,
    spec_read_map, spec_window_end, spec_window_start,
};
use crate::store::{StoreKey, StoreView};
use vstd::prelude::*;

verus! {

/// Every chunk of `chunks` is stored under its hash in the namespace
/// `kind`, with its own bytes.
pub open spec fn spec_holds(stored: Map<StoreKey, Seq<u8>>, kind: BlobKind, chunks: Seq<ChunkView>)
    -> bool {
    forall|i: int|
        0 <= i < chunks.len() ==> stored.contains_key((kind, (#[trigger] chunks[i]).hash))
            && stored[(kind, chunks[i].hash)] == chunks[i].bytes
}

/// Storing chunks without a conflict keeps what was stored and adds every
/// chunk under its hash.
pub proof fn lemma_put_all_holds(
    stored: Map<StoreKey, Seq<u8>>,
    kind: BlobKind,
    chunks: Seq<ChunkView>,
)
    requires
        spec_put_all(stored, kind, chunks).1 is None,
    ensures
        stored.submap_of(spec_put_all(stored, kind, chunks).0),
        spec_holds(spec_put_all(stored, kind, chunks).0, kind, chunks),
    decreases chunks.len(),
{
    if chunks.len() > 0 {
        let front = chunks.drop_last();
        lemma_put_all_holds(stored, kind, front);
        let before = spec_put_all(stored, kind, front).0;
        let after = spec_put_all(stored, kind, chunks).0;
        let last = chunks.last();
        assert(after == before.insert((kind, last.hash), last.bytes));
        assert forall|i: int| 0 <= i < chunks.len() implies after.contains_key(
            (kind, (#[trigger] chunks[i]).hash),
        ) && after[(kind, chunks[i].hash)] == chunks[i].bytes by {
            if i < front.len() {
                assert(chunks[i] == front[i]);
            }
        }
    }
}

/// Storing chunks that are all stored already changes nothing.
pub proof fn lemma_put_all_again(
    stored: Map<StoreKey, Seq<u8>>,
    kind: BlobKind,
    chunks: Seq<ChunkView>,
)
    requires
        spec_holds(stored, kind, chunks),
    ensures
        spec_put_all(stored, kind, chunks) == (stored, None::<ErrorView>),
    decreases chunks.len(),
{
    if chunks.len() > 0 {
        let front = chunks.drop_last();
        assert forall|i: int| 0 <= i < front.len() implies stored.contains_key(
            (kind, (#[trigger] front[i]).hash),
        ) && stored[(kind, front[i].hash)] == front[i].bytes by {
            assert(front[i] == chunks[i]);
        }
        lemma_put_all_again(stored, kind, front);
        let last = chunks.last();
        assert(chunks[chunks.len() - 1] == last);
        assert(stored.insert((kind, last.hash), last.bytes) =~= stored);
    }
}

/// What holds of a map of stored chunks holds of every map that extends it.
pub proof fn lemma_holds_in_larger(
    smaller: Map<StoreKey, Seq<u8>>,
    larger: Map<StoreKey, Seq<u8>>,
    kind: BlobKind,
    chunks: Seq<ChunkView>,
)
    requires
        spec_holds(smaller, kind, chunks),
        smaller.submap_of(larger),
    ensures
        spec_holds(larger, kind, chunks),
{
    assert forall|i: int| 0 <= i < chunks.len() implies larger.contains_key(
        (kind, (#[trigger] chunks[i]).hash),
    ) && larger[(kind, chunks[i].hash)] == chunks[i].bytes by {
        assert(smaller.contains_key((kind, chunks[i].hash)));
    }
}

/// The part of `data` inside the window that lies at or behind `before`.
pub open spec fn spec_tail(data: Seq<u8>, start: nat, end: nat, before: nat) -> Seq<u8> {
    spec_clip(
        data,
        if start > before {
            start
        } else {
            before
        },
        end,
    )
}

/// Number of plaintext bytes in front of chunk `index`; the length of the
/// data for the index behind the last chunk.
#[verifier::opaque]
pub open spec fn spec_offset(len: nat, index: nat) -> nat {
    if index < spec_num_chunks(len) {
        spec_chunk_start(len, index)
    } else {
        len
    }
}

/// Chunk `index` lies between its offset and the offset of the next chunk.
pub proof fn lemma_offset_step(data: Seq<u8>, index: nat)
    requires
        data.len() >= MIN_ENCRYPTABLE_BYTES,
        index < spec_num_chunks(data.len()),
    ensures
        spec_offset(data.len(), 0) == 0,
        spec_offset(data.len(), spec_num_chunks(data.len())) == data.len(),
        spec_offset(data.len(), index + 1) == spec_offset(data.len(), index) + spec_chunk_size(
            data.len(),
            index,
        ),
        spec_offset(data.len(), index + 1) <= data.len(),
        spec_plain_chunk(data, index) == data.subrange(
            spec_offset(data.len(), index) as int,
            spec_offset(data.len(), index + 1) as int,
        ),
{
    reveal(spec_offset);
    let len = data.len();
    lemma_last_chunk_ends_at_len(len);
    lemma_chunk_bounds(len, index);
    if index + 1 < spec_num_chunks(len) {
        lemma_chunk_start_step(len, index);
    }
}

/// The part of a chunk inside the window, followed by the part of the data
/// inside the window behind the chunk, is the part of the data inside the
/// window from the chunk on.
pub proof fn lemma_clip_split(data: Seq<u8>, start: nat, end: nat, before: nat, after: nat)
    requires
        before <= after <= data.len(),
        before < end,
        start < after,
    ensures
        spec_clip(
            data.subrange(before as int, after as int),
            spec_inner_start(start, before),
            (end - before) as nat,
        ) + spec_tail(data, start, end, after) == spec_tail(data, start, end, before),
{
    let part = spec_clip(
        data.subrange(before as int, after as int),
        spec_inner_start(start, before),
        (end - before) as nat,
    );
    assert(part + spec_tail(data, start, end, after) =~= spec_tail(data, start, end, before));
}

/// With the chunks of `data` in the store, chunk `index` opens to its part
/// of `data`.
pub proof fn lemma_open_back(
    stored: Map<StoreKey, Seq<u8>>,
    kind: BlobKind,
    data: Seq<u8>,
    index: nat,
)
    requires
        data.len() >= MIN_ENCRYPTABLE_BYTES,
        spec_self_encrypt(data) is Some,
        spec_faithful(data),
        spec_holds(stored, kind, spec_self_encrypt(data).unwrap().1),
        index < spec_num_chunks(data.len()),
    ensures
        spec_self_encrypt(data).unwrap().0.descriptors().len() == spec_num_chunks(data.len()),
        spec_self_encrypt(data).unwrap().0.descriptors()[index as int].size == spec_chunk_size(
            data.len(),
            index,
        ),
        spec_open_chunk(
            stored,
            kind,
            spec_self_encrypt(data).unwrap().0.descriptors(),
            index as int,
        ) == Ok::<Seq<u8>, ErrorView>(spec_plain_chunk(data, index)),
{
    let parts = spec_self_encrypt(data).unwrap();
    let descriptors = parts.0.descriptors();
    let chunks = parts.1;
    let contents = crate::cipher::spec_encrypted_chunks(data).unwrap();
    assert(descriptors == spec_sealed_descriptors(data, contents));
    lemma_chunk_bounds(data.len(), index);
    assert(chunks[index as int].hash == descriptors[index as int].post_hash);
    assert(chunks[index as int].bytes == contents[index as int]);
    assert(stored.contains_key((kind, chunks[index as int].hash)));
    assert(spec_decrypts_to_part(data, contents, index as int));
}

/// Chunk `index` decrypts to its part of `data`.
pub open spec fn spec_decrypts_to_part(data: Seq<u8>, contents: Seq<Seq<u8>>, index: int) -> bool {
    crate::cipher::spec_decrypted_chunk(
        spec_sealed_descriptors(data, contents),
        index,
        contents[index],
    ) == Some(spec_plain_chunk(data, index as nat))
}

/// With the chunks of `data` in the store, the walk from chunk `index` on
/// collects the part of `data` inside the window from that chunk on.
pub proof fn lemma_collect_back(
    stored: Map<StoreKey, Seq<u8>>,
    kind: BlobKind,
    data: Seq<u8>,
    start: nat,
    end: nat,
    index: nat,
)
    requires
        data.len() >= MIN_ENCRYPTABLE_BYTES,
        spec_self_encrypt(data) is Some,
        spec_faithful(data),
        spec_holds(stored, kind, spec_self_encrypt(data).unwrap().1),
        index <= spec_num_chunks(data.len()),
    ensures
        spec_collect(
            stored,
            kind,
            spec_self_encrypt(data).unwrap().0.descriptors(),
            start,
            end,
            index as int,
            spec_offset(data.len(), index),
        ) == Ok::<Seq<u8>, ErrorView>(
            spec_tail(data, start, end, spec_offset(data.len(), index)),
        ),
    decreases spec_num_chunks(data.len()) - index,
{
    let len = data.len();
    let count = spec_num_chunks(len);
    let descriptors = spec_self_encrypt(data).unwrap().0.descriptors();
    let before = spec_offset(len, index);
    lemma_last_chunk_ends_at_len(len);
    lemma_offset_step(data, 0);
    if index < count {
        lemma_offset_step(data, index);
        lemma_open_back(stored, kind, data, index);
        let after = spec_offset(len, index + 1);
        lemma_collect_back(stored, kind, data, start, end, index + 1);
        if before >= end || start >= end {
            assert(spec_tail(data, start, end, before) =~= Seq::<u8>::empty());
        } else if after <= start {
            assert(spec_tail(data, start, end, before) == spec_tail(data, start, end, after));
        } else {
            lemma_clip_split(data, start, end, before, after);
        }
    } else {
        assert(descriptors.len() == count);
        assert(spec_tail(data, start, end, len) =~= Seq::<u8>::empty());
    }
}

/// With the chunks of `data` in the store, a read through the data map of
/// `data` gives the part of `data` inside the window.
pub proof fn lemma_read_back(
    stored: Map<StoreKey, Seq<u8>>,
    kind: BlobKind,
    data: Seq<u8>,
    position: Option<usize>,
    len: Option<usize>,
)
    requires
        spec_self_encrypt(data) is Some,
        spec_faithful(data),
        spec_holds(stored, kind, spec_self_encrypt(data).unwrap().1),
    ensures
        spec_read_map(stored, kind, spec_self_encrypt(data).unwrap().0, position, len) == Ok::<
            Seq<u8>,
            ErrorView,
        >(spec_clip(data, spec_window_start(position), spec_window_end(position, len))),
{
    if data.len() >= MIN_ENCRYPTABLE_BYTES {
        lemma_last_chunk_ends_at_len(data.len());
        lemma_offset_step(data, 0);
        lemma_collect_back(
            stored,
            kind,
            data,
            spec_window_start(position),
            spec_window_end(position, len),
            0,
        );
    }
}

/// A packed blob unpacks to what the blob around the packed payload unpacks
/// to, once the levels that packing added are peeled.
pub proof fn lemma_unpack_packed(
    stored: Map<StoreKey, Seq<u8>>,
    payload: Seq<u8>,
    owner: Option<Seq<u8>>,
    depth: nat,
    peeled: nat,
)
    requires
        spec_pack(payload, owner, depth) is Ok,
        spec_pack_faithful(payload, owner, depth),
        spec_holds(stored, spec_kind_for(owner), spec_pack(payload, owner, depth)->Ok_0.chunks),
        peeled + spec_pack(payload, owner, depth)->Ok_0.levels <= MAX_DEPTH + depth,
    ensures
        depth <= spec_pack(payload, owner, depth)->Ok_0.levels,
        spec_unpack(stored, spec_pack(payload, owner, depth)->Ok_0.blob, peeled) == spec_unpack(
            stored,
            spec_blob(payload, owner),
            (peeled + (spec_pack(payload, owner, depth)->Ok_0.levels - depth)) as nat,
        ),
    decreases MAX_DEPTH - depth,
{
    let blob = spec_blob(payload, owner);
    let kind = spec_kind_for(owner);
    let packed = spec_pack(payload, owner, depth)->Ok_0;
    if !blob.valid_size() {
        let serialised = spec_encode_blob(blob);
        let parts = spec_self_encrypt(serialised).unwrap();
        let level = LevelView::Child(parts.0);
        let next = spec_encode_level(level);
        let inner = spec_pack(next, owner, depth + 1)->Ok_0;
        assert(packed.chunks == parts.1 + inner.chunks);
        assert(spec_holds(stored, kind, parts.1)) by {
            assert forall|i: int| 0 <= i < parts.1.len() implies stored.contains_key(
                (kind, (#[trigger] parts.1[i]).hash),
            ) && stored[(kind, parts.1[i].hash)] == parts.1[i].bytes by {
                assert(packed.chunks[i] == parts.1[i]);
            }
        }
        assert(spec_holds(stored, kind, inner.chunks)) by {
            assert forall|i: int| 0 <= i < inner.chunks.len() implies stored.contains_key(
                (kind, (#[trigger] inner.chunks[i]).hash),
            ) && stored[(kind, inner.chunks[i].hash)] == inner.chunks[i].bytes by {
                assert(packed.chunks[parts.1.len() + i] == inner.chunks[i]);
            }
        }
        lemma_packed_levels(next, owner, depth + 1);
        lemma_unpack_packed(stored, next, owner, depth + 1, peeled);
        let down = (peeled + (packed.levels - depth) - 1) as nat;
        assert(spec_unpack(stored, packed.blob, peeled) == spec_unpack(
            stored,
            spec_blob(next, owner),
            down,
        ));
        lemma_level_round_trip(level);
        lemma_read_back(stored, kind, serialised, None, None);
        lemma_blob_wire_len(blob);
        assert(spec_clip(serialised, 0, u64::MAX as nat) =~= serialised);
        lemma_blob_round_trip(blob);
    }
}

/// The blob that packing returns is of the kind that the owner selects, is
/// bound to that owner, and is small enough for the network.
pub proof fn lemma_packed_blob(payload: Seq<u8>, owner: Option<Seq<u8>>, depth: nat)
    requires
        spec_pack(payload, owner, depth) is Ok,
    ensures
        spec_pack(payload, owner, depth)->Ok_0.blob.kind() == spec_kind_for(owner),
        spec_pack(payload, owner, depth)->Ok_0.blob.owner() == owner,
        spec_pack(payload, owner, depth)->Ok_0.blob.valid_size(),
    decreases MAX_DEPTH - depth,
{
    let blob = spec_blob(payload, owner);
    if !blob.valid_size() {
        let parts = spec_self_encrypt(spec_encode_blob(blob)).unwrap();
        lemma_packed_blob(spec_encode_level(LevelView::Child(parts.0)), owner, depth + 1);
    }
}

/// Packing never reports fewer levels than were added before it.
pub proof fn lemma_packed_levels(payload: Seq<u8>, owner: Option<Seq<u8>>, depth: nat)
    requires
        spec_pack(payload, owner, depth) is Ok,
    ensures
        depth <= spec_pack(payload, owner, depth)->Ok_0.levels,
        spec_pack(payload, owner, depth)->Ok_0.levels <= MAX_DEPTH || spec_pack(
            payload,
            owner,
            depth,
        )->Ok_0.levels == depth,
    decreases MAX_DEPTH - depth,
{
    let blob = spec_blob(payload, owner);
    if !blob.valid_size() {
        let parts = spec_self_encrypt(spec_encode_blob(blob)).unwrap();
        lemma_packed_levels(spec_encode_level(LevelView::Child(parts.0)), owner, depth + 1);
    }
}

/// Reading gives back what was stored: after a store of `data` that
/// succeeds, a read at the address returned gives the part of `data`
/// inside the window asked for.
pub proof fn law_read_after_store(
    store: StoreView,
    data: Seq<u8>,
    owner: Option<Seq<u8>>,
    position: Option<usize>,
    len: Option<usize>,
)
    requires
        spec_store(store, data, owner).1 is Ok,
        spec_store_faithful(data, owner),
    ensures
        spec_read_blob(
            spec_store(store, data, owner).0,
            spec_store(store, data, owner).1->Ok_0,
            position,
            len,
        ) == Ok::<Seq<u8>, ErrorView>(
            spec_clip(data, spec_window_start(position), spec_window_end(position, len)),
        ),
{
    let kind = spec_kind_for(owner);
    let after = spec_store(store, data, owner).0;
    let address = spec_store(store, data, owner).1->Ok_0;
    let parts = spec_self_encrypt(data).unwrap();
    let root = spec_encode_level(LevelView::Root(parts.0));
    let packed = spec_pack(root, owner, 0)->Ok_0;
    let written = spec_put_all(store.chunks, kind, parts.1).0;
    lemma_put_all_holds(store.chunks, kind, parts.1);
    lemma_put_all_holds(written, kind, packed.chunks);
    lemma_holds_in_larger(written, after.chunks, kind, parts.1);
    lemma_packed_levels(root, owner, 0);
    lemma_packed_blob(root, owner, 0);
    lemma_unpack_packed(after.chunks, root, owner, 0, 0);
    lemma_level_round_trip(LevelView::Root(parts.0));
    assert(after.blobs[address] == packed.blob);
    assert(spec_unpack(after.chunks, packed.blob, 0) == Ok::<DataMapView, ErrorView>(parts.0));
    lemma_read_back(after.chunks, kind, data, position, len);
}

/// Reading everything gives back the data stored.
pub proof fn law_store_then_read_all(store: StoreView, data: Seq<u8>, owner: Option<Seq<u8>>)
    requires
        spec_store(store, data, owner).1 is Ok,
        spec_store_faithful(data, owner),
    ensures
        spec_read_blob(
            spec_store(store, data, owner).0,
            spec_store(store, data, owner).1->Ok_0,
            None,
            None,
        ) == Ok::<Seq<u8>, ErrorView>(data),
{
    law_read_after_store(store, data, owner, None, None);
    assert(spec_clip(data, 0, u64::MAX as nat) =~= data);
}

/// Reading a window that lies inside the data gives exactly the bytes of
/// the window.
pub proof fn law_store_then_read_window(
    store: StoreView,
    data: Seq<u8>,
    owner: Option<Seq<u8>>,
    position: usize,
    len: usize,
)
    requires
        spec_store(store, data, owner).1 is Ok,
        spec_store_faithful(data, owner),
        position + len <= data.len(),
    ensures
        spec_read_blob(
            spec_store(store, data, owner).0,
            spec_store(store, data, owner).1->Ok_0,
            Some(position),
            Some(len),
        ) == Ok::<Seq<u8>, ErrorView>(data.subrange(position as int, position + len)),
{
    law_read_after_store(store, data, owner, Some(position), Some(len));
    assert(spec_clip(data, position as nat, (position + len) as nat) =~= data.subrange(
        position as int,
        position + len,
    ));
}

/// The address computed without storing is the address that storing
/// returns.
pub proof fn law_address_without_storing(store: StoreView, data: Seq<u8>, owner: Option<Seq<u8>>)
    requires
        spec_store(store, data, owner).1 is Ok,
    ensures
        spec_blob_data_map(data, owner) is Ok,
        spec_blob_data_map(data, owner)->Ok_0.1 == spec_store(store, data, owner).1->Ok_0,
{
}

/// The address of data depends on the data and the owner alone: whatever
/// the store holds, a store that succeeds returns the same address.
pub proof fn law_address_stable(
    first: StoreView,
    second: StoreView,
    data: Seq<u8>,
    owner: Option<Seq<u8>>,
)
    requires
        spec_store(first, data, owner).1 is Ok,
        spec_store(second, data, owner).1 is Ok,
    ensures
        spec_store(first, data, owner).1 == spec_store(second, data, owner).1,
{
}

/// Storing the same data again returns the same address and leaves the
/// store as it is: no chunk and no blob is added.
pub proof fn law_store_again_changes_nothing(
    store: StoreView,
    data: Seq<u8>,
    owner: Option<Seq<u8>>,
)
    requires
        spec_store(store, data, owner).1 is Ok,
    ensures
        spec_store(spec_store(store, data, owner).0, data, owner) == spec_store(
            store,
            data,
            owner,
        ),
{
    let kind = spec_kind_for(owner);
    let after = spec_store(store, data, owner).0;
    let parts = spec_self_encrypt(data).unwrap();
    let root = spec_encode_level(LevelView::Root(parts.0));
    let packed = spec_pack(root, owner, 0)->Ok_0;
    let written = spec_put_all(store.chunks, kind, parts.1).0;
    lemma_put_all_holds(store.chunks, kind, parts.1);
    lemma_put_all_holds(written, kind, packed.chunks);
    lemma_holds_in_larger(written, after.chunks, kind, parts.1);
    lemma_put_all_again(after.chunks, kind, parts.1);
    lemma_put_all_again(after.chunks, kind, packed.chunks);
    assert(after.blobs.insert(packed.blob.address(), packed.blob) =~= after.blobs);
    assert(spec_write(after.chunks, kind, data) == (
        after.chunks,
        Ok::<DataMapView, ErrorView>(parts.0),
    ));
}

/// The descriptors of data that is cut record the lengths of the layout.
pub proof fn lemma_recorded_is_layout(data: Seq<u8>, count: nat)
    requires
        data.len() >= MIN_ENCRYPTABLE_BYTES,
        spec_self_encrypt(data) is Some,
        count <= spec_num_chunks(data.len()),
    ensures
        spec_recorded_len(spec_self_encrypt(data).unwrap().0.descriptors(), count)
            == spec_sizes_sum(data.len(), count),
    decreases count,
{
    if count > 0 {
        lemma_recorded_is_layout(data, (count - 1) as nat);
        lemma_chunk_bounds(data.len(), (count - 1) as nat);
    }
}

/// Data of at least three minimum chunks is cut into three or more chunks;
/// the lengths recorded in its data map add up to the length of the data;
/// every chunk reaches the minimum length, and every chunk but the last
/// stays within the maximum.
pub proof fn law_chunk_shape(data: Seq<u8>)
    requires
        data.len() >= 3 * MIN_CHUNK_SIZE,
        spec_self_encrypt(data) is Some,
    ensures
        spec_self_encrypt(data).unwrap().0 is Chunks,
        spec_self_encrypt(data).unwrap().0.descriptors().len() >= 3,
        spec_self_encrypt(data).unwrap().0.descriptors().len()
            == spec_self_encrypt(data).unwrap().1.len(),
        spec_self_encrypt(data).unwrap().0.len() == data.len(),
        forall|i: int|
            0 <= i < spec_self_encrypt(data).unwrap().0.descriptors().len() ==> (
            #[trigger] spec_self_encrypt(data).unwrap().0.descriptors()[i]).size
                >= MIN_CHUNK_SIZE,
        forall|i: int|
            0 <= i < spec_self_encrypt(data).unwrap().0.descriptors().len() - 1 ==> (
            #[trigger] spec_self_encrypt(data).unwrap().0.descriptors()[i]).size
                <= MAX_CHUNK_SIZE,
{
    let len = data.len();
    let descriptors = spec_self_encrypt(data).unwrap().0.descriptors();
    lemma_last_chunk_ends_at_len(len);
    lemma_sizes_sum_to_len(len);
    lemma_recorded_is_layout(data, spec_num_chunks(len));
    assert forall|i: int| 0 <= i < descriptors.len() implies (#[trigger] descriptors[i]).size
        >= MIN_CHUNK_SIZE && (i < descriptors.len() - 1 ==> descriptors[i].size
        <= MAX_CHUNK_SIZE) by {
        lemma_chunk_bounds(len, i as nat);
    }
}

/// Data shorter than three minimum chunks is kept inline: its data map
/// holds the data itself, and there are no chunks.
pub proof fn law_short_data_inline(data: Seq<u8>)
    requires
        data.len() < 3 * MIN_CHUNK_SIZE,
    ensures
        spec_self_encrypt(data) == Some((DataMapView::Content(data), Seq::<ChunkView>::empty())),
        spec_self_encrypt(data).unwrap().0.len() == data.len(),
{
}

/// After a store that succeeds, every chunk made on the way is in the
/// store, in the namespace of the blob: those that the data map of the data
/// refers to, and those of the levels that packing added. The blob stored
/// is small enough for the network.
pub proof fn law_store_keeps_chunks(store: StoreView, data: Seq<u8>, owner: Option<Seq<u8>>)
    requires
        spec_store(store, data, owner).1 is Ok,
    ensures
        spec_store(store, data, owner).0.blobs.contains_key(
            spec_store(store, data, owner).1->Ok_0,
        ),
        spec_store(store, data, owner).0.blobs[spec_store(store, data, owner).1->Ok_0].valid_size(),
        spec_holds(
            spec_store(store, data, owner).0.chunks,
            spec_kind_for(owner),
            spec_self_encrypt(data).unwrap().1,
        ),
        spec_holds(
            spec_store(store, data, owner).0.chunks,
            spec_kind_for(owner),
            spec_pack(
                spec_encode_level(LevelView::Root(spec_self_encrypt(data).unwrap().0)),
                owner,
                0,
            )->Ok_0.chunks,
        ),
        forall|i: int|
            0 <= i < spec_self_encrypt(data).unwrap().0.descriptors().len() ==> spec_store(
                store,
                data,
                owner,
            ).0.chunks.contains_key(
                (
                    spec_kind_for(owner),
                    (#[trigger] spec_self_encrypt(data).unwrap().0.descriptors()[i]).post_hash,
                ),
            ),
{
    let kind = spec_kind_for(owner);
    let after = spec_store(store, data, owner).0;
    let parts = spec_self_encrypt(data).unwrap();
    let root = spec_encode_level(LevelView::Root(parts.0));
    let packed = spec_pack(root, owner, 0)->Ok_0;
    let written = spec_put_all(store.chunks, kind, parts.1).0;
    lemma_put_all_holds(store.chunks, kind, parts.1);
    lemma_put_all_holds(written, kind, packed.chunks);
    lemma_holds_in_larger(written, after.chunks, kind, parts.1);
    lemma_packed_blob(root, owner, 0);
    assert forall|i: int| 0 <= i < parts.0.descriptors().len() implies after.chunks.contains_key(
        (kind, (#[trigger] parts.0.descriptors()[i]).post_hash),
    ) by {
        assert(parts.1[i].hash == parts.0.descriptors()[i].post_hash);
    }
}

/// A chunk that opens in a store opens to the same bytes in every store
/// that extends it.
pub proof fn lemma_collect_monotone(
    smaller: Map<StoreKey, Seq<u8>>,
    larger: Map<StoreKey, Seq<u8>>,
    kind: BlobKind,
    descriptors: Seq<DescriptorView>,
    start: nat,
    end: nat,
    index: int,
    before: nat,
)
    requires
        smaller.submap_of(larger),
        spec_collect(smaller, kind, descriptors, start, end, index, before) is Ok,
    ensures
        spec_collect(larger, kind, descriptors, start, end, index, before) == spec_collect(
            smaller,
            kind,
            descriptors,
            start,
            end,
            index,
            before,
        ),
    decreases descriptors.len() - index,
{
    if !(index < 0 || index >= descriptors.len() || before >= end || start >= end) {
        let after = (before + descriptors[index].size) as nat;
        if after <= u64::MAX {
            if after <= start {
                lemma_collect_monotone(
                    smaller,
                    larger,
                    kind,
                    descriptors,
                    start,
                    end,
                    index + 1,
                    after,
                );
            } else {
                let key = (kind, descriptors[index].post_hash);
                assert(smaller.contains_key(key));
                assert(larger.contains_key(key) && larger[key] == smaller[key]);
                lemma_collect_monotone(
                    smaller,
                    larger,
                    kind,
                    descriptors,
                    start,
                    end,
                    index + 1,
                    after,
                );
            }
        }
    }
}

/// A read that succeeds in a store gives the same bytes in every store that
/// extends it.
pub proof fn lemma_read_monotone(
    smaller: Map<StoreKey, Seq<u8>>,
    larger: Map<StoreKey, Seq<u8>>,
    kind: BlobKind,
    map: DataMapView,
    position: Option<usize>,
    len: Option<usize>,
)
    requires
        smaller.submap_of(larger),
        spec_read_map(smaller, kind, map, position, len) is Ok,
    ensures
        spec_read_map(larger, kind, map, position, len) == spec_read_map(
            smaller,
            kind,
            map,
            position,
            len,
        ),
{
    match map {
        DataMapView::Chunks(descriptors) => {
            lemma_collect_monotone(
                smaller,
                larger,
                kind,
                descriptors,
                spec_window_start(position),
                spec_window_end(position, len),
                0,
                0,
            );
        },
        _ => {},
    }
}

/// Removing the chunks of the first `count` descriptors leaves none of
/// them, and adds nothing.
pub proof fn lemma_remove_chunks(
    stored: Map<StoreKey, Seq<u8>>,
    kind: BlobKind,
    descriptors: Seq<DescriptorView>,
    count: int,
)
    requires
        count <= descriptors.len(),
    ensures
        spec_remove_chunks(stored, kind, descriptors, count).submap_of(stored),
        forall|i: int|
            0 <= i < count ==> !spec_remove_chunks(stored, kind, descriptors, count).contains_key(
                (kind, (#[trigger] descriptors[i]).post_hash),
            ),
    decreases count,
{
    if count > 0 {
        lemma_remove_chunks(stored, kind, descriptors, count - 1);
    }
}

/// The data maps met on the way from `blob` down to the user's data map,
/// each level read from the namespace `kind` of the store.
pub open spec fn spec_chain(
    stored: Map<StoreKey, Seq<u8>>,
    kind: BlobKind,
    blob: BlobView,
    depth: nat,
) -> Seq<DataMapView>
    decreases MAX_DEPTH - depth,
{
    match spec_parse_level(blob.payload()) {
        None => Seq::empty(),
        Some(LevelView::Root(map)) => seq![map],
        Some(LevelView::Child(map)) => if depth >= MAX_DEPTH {
            seq![map]
        } else {
            match spec_read_map(stored, kind, map, None, None) {
                Err(_) => seq![map],
                Ok(bytes) => match spec_parse_blob(bytes) {
                    None => seq![map],
                    Some(inner) => seq![map] + spec_chain(stored, kind, inner, depth + 1),
                },
            }
        },
    }
}

/// No chunk that a data map of `maps` refers to is stored in the private
/// namespace.
pub open spec fn spec_all_gone(stored: Map<StoreKey, Seq<u8>>, maps: Seq<DataMapView>) -> bool {
    forall|i: int, j: int|
        0 <= i < maps.len() && 0 <= j < maps[i].descriptors().len() ==> !stored.contains_key(
            (BlobKind::Private, (#[trigger] maps[i].descriptors()[j]).post_hash),
        )
}

/// A deletion of levels that succeeds removes every chunk of every level
/// under the blob, and adds nothing.
pub proof fn lemma_delete_levels(
    original: Map<StoreKey, Seq<u8>>,
    current: Map<StoreKey, Seq<u8>>,
    blob: BlobView,
    depth: nat,
)
    requires
        current.submap_of(original),
        spec_delete_levels(current, blob, depth).1 is Ok,
    ensures
        spec_delete_levels(current, blob, depth).0.submap_of(current),
        spec_all_gone(
            spec_delete_levels(current, blob, depth).0,
            spec_chain(original, BlobKind::Private, blob, depth),
        ),
    decreases MAX_DEPTH - depth,
{
    let after = spec_delete_levels(current, blob, depth).0;
    let chain = spec_chain(original, BlobKind::Private, blob, depth);
    match spec_parse_level(blob.payload()) {
        None => {},
        Some(LevelView::Root(map)) => {
            lemma_remove_chunks(
                current,
                BlobKind::Private,
                map.descriptors(),
                map.descriptors().len() as int,
            );
            assert(chain =~= seq![map]);
        },
        Some(LevelView::Child(map)) => {
            let bytes = spec_read_map(current, BlobKind::Private, map, None, None)->Ok_0;
            lemma_read_monotone(current, original, BlobKind::Private, map, None, None);
            let reduced = spec_remove_map(current, BlobKind::Private, map);
            lemma_remove_chunks(
                current,
                BlobKind::Private,
                map.descriptors(),
                map.descriptors().len() as int,
            );
            let inner = spec_parse_blob(bytes).unwrap();
            vstd::map_lib::lemma_submap_of_trans(reduced, current, original);
            lemma_delete_levels(original, reduced, inner, depth + 1);
            vstd::map_lib::lemma_submap_of_trans(after, reduced, current);
            let below = spec_chain(original, BlobKind::Private, inner, depth + 1);
            assert(chain =~= seq![map] + below);
            assert forall|i: int, j: int|
                0 <= i < chain.len() && 0 <= j < chain[i].descriptors().len()
                    implies !after.contains_key(
                (BlobKind::Private, (#[trigger] chain[i].descriptors()[j]).post_hash),
            ) by {
                if i == 0 {
                    assert(!reduced.contains_key(
                        (BlobKind::Private, map.descriptors()[j].post_hash),
                    ));
                } else {
                    assert(chain[i] == below[i - 1]);
                    assert(!after.contains_key(
                        (BlobKind::Private, below[i - 1].descriptors()[j].post_hash),
                    ));
                }
            }
        },
    }
}

/// After a deletion that succeeds the blob is gone, a read at its address
/// finds nothing, and every chunk that the data maps under it referred to
/// is gone, level by level. Nothing is added.
pub proof fn law_delete_removes_all(store: StoreView, address: StoreKey, owner: Seq<u8>)
    requires
        spec_delete(store, address, owner).1 is Ok,
    ensures
        !spec_delete(store, address, owner).0.blobs.contains_key(address),
        forall|position: Option<usize>, len: Option<usize>| #[trigger]
            spec_read_blob(spec_delete(store, address, owner).0, address, position, len) == Err::<
                Seq<u8>,
                ErrorView,
            >(ErrorView::NotFound { address }),
        spec_all_gone(
            spec_delete(store, address, owner).0.chunks,
            spec_chain(store.chunks, BlobKind::Private, store.blobs[address], 0),
        ),
        spec_delete(store, address, owner).0.chunks.submap_of(store.chunks),
{
    lemma_delete_levels(store.chunks, store.chunks, store.blobs[address], 0);
}

/// Two chunk maps hold the same under every hash of `hashes` in the
/// namespace `kind`: both nothing, or both the same bytes.
pub open spec fn spec_agree(
    first: Map<StoreKey, Seq<u8>>,
    second: Map<StoreKey, Seq<u8>>,
    kind: BlobKind,
    hashes: Seq<Seq<u8>>,
) -> bool {
    forall|i: int|
        0 <= i < hashes.len() ==> first.contains_key((kind, #[trigger] hashes[i]))
            == second.contains_key((kind, hashes[i])) && (first.contains_key((kind, hashes[i]))
            ==> first[(kind, hashes[i])] == second[(kind, hashes[i])])
}

/// The walk through the chunks looks at the chunks it covers, and at no
/// others.
pub proof fn lemma_collect_needs_covered(
    first: Map<StoreKey, Seq<u8>>,
    second: Map<StoreKey, Seq<u8>>,
    kind: BlobKind,
    descriptors: Seq<DescriptorView>,
    start: nat,
    end: nat,
    index: int,
    before: nat,
)
    requires
        spec_agree(first, second, kind, spec_covered(descriptors, start, end, index, before)),
    ensures
        spec_collect(first, kind, descriptors, start, end, index, before) == spec_collect(
            second,
            kind,
            descriptors,
            start,
            end,
            index,
            before,
        ),
    decreases descriptors.len() - index,
{
    if !(index < 0 || index >= descriptors.len() || before >= end || start >= end) {
        let after = (before + descriptors[index].size) as nat;
        let covered = spec_covered(descriptors, start, end, index, before);
        if after <= u64::MAX {
            let rest = spec_covered(descriptors, start, end, index + 1, after);
            if after > start {
                assert(covered[0] == descriptors[index].post_hash);
                assert forall|i: int| 0 <= i < rest.len() implies first.contains_key(
                    (kind, #[trigger] rest[i]),
                ) == second.contains_key((kind, rest[i])) && (first.contains_key((kind, rest[i]))
                    ==> first[(kind, rest[i])] == second[(kind, rest[i])]) by {
                    assert(covered[i + 1] == rest[i]);
                }
            }
            lemma_collect_needs_covered(
                first,
                second,
                kind,
                descriptors,
                start,
                end,
                index + 1,
                after,
            );
        }
    }
}

/// A read depends on the chunks that its window touches alone: two stores
/// that hold the same under the hashes that `chunks_needed` names give the
/// same result.
pub proof fn law_read_needs_covered(
    first: Map<StoreKey, Seq<u8>>,
    second: Map<StoreKey, Seq<u8>>,
    kind: BlobKind,
    map: DataMapView,
    position: Option<usize>,
    len: Option<usize>,
)
    requires
        spec_agree(first, second, kind, spec_chunks_needed(map, position, len)),
    ensures
        spec_read_map(first, kind, map, position, len) == spec_read_map(
            second,
            kind,
            map,
            position,
            len,
        ),
{
    match map {
        DataMapView::Chunks(descriptors) => {
            if descriptors.len() >= 3 {
                lemma_collect_needs_covered(
                    first,
                    second,
                    kind,
                    descriptors,
                    spec_window_start(position),
                    spec_window_end(position, len),
                    0,
                    0,
                );
            }
        },
        _ => {},
    }
}

/// The two namespaces are disjoint: storing data under one kind puts
/// nothing at the address of the other kind with the same hash, and a read
/// there finds nothing unless something was there before.
pub proof fn law_other_kind_not_found(
    store: StoreView,
    data: Seq<u8>,
    owner: Option<Seq<u8>>,
    other: BlobKind,
    position: Option<usize>,
    len: Option<usize>,
)
    requires
        spec_store(store, data, owner).1 is Ok,
        other != spec_kind_for(owner),
        !store.blobs.contains_key((other, spec_store(store, data, owner).1->Ok_0.1)),
    ensures
        spec_store(store, data, owner).1->Ok_0.0 == spec_kind_for(owner),
        spec_read_blob(
            spec_store(store, data, owner).0,
            (other, spec_store(store, data, owner).1->Ok_0.1),
            position,
            len,
        ) == Err::<Seq<u8>, ErrorView>(
            ErrorView::NotFound { address: (other, spec_store(store, data, owner).1->Ok_0.1) },
        ),
{
    let parts = spec_self_encrypt(data).unwrap();
    lemma_packed_blob(spec_encode_level(LevelView::Root(parts.0)), owner, 0);
}

} // verus!
