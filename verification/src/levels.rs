//! How many levels packing adds: each level shrinks the payload by the
//! ratio of a chunk to its descriptor, so that the number of passes through
//! the packing loop grows with the logarithm of the payload length.

use crate::blob::{lemma_blob_wire_len, spec_blob, spec_encode_blob, MAX_BLOB_BYTES};
use crate::cipher::spec_self_encrypt;
use crate::data_map::{
    lemma_descriptors_encoding, spec_encode_level, DataMapView, LevelView,
};
use crate::layout::{spec_num_chunks, MAX_CHUNK_SIZE};
use crate::error::ErrorView;
use crate::packer::{spec_pack, spec_pack_faithful, PackedView, MAX_DEPTH};
use crate::wire::{lemma_u32_round_trip, lemma_u64_round_trip};
use vstd::prelude::*;

verus! {

/// Base of the logarithm that bounds the passes of the packing loop: the
/// size limit of a blob over the width of a hash.
pub const PACK_FANOUT: usize = 32768;

/// Bytes that the wire form of a blob adds to its payload.
pub open spec fn spec_overhead(owner: Option<Seq<u8>>) -> nat {
    match owner {
        Some(owner) => 17 + owner.len(),
        None => 9,
    }
}

/// The logarithm of `value` to the base `PACK_FANOUT`, rounded up; 0 for 0.
pub open spec fn spec_ceil_log(value: nat) -> nat
    decreases value,
{
    if value <= 1 {
        0
    } else {
        1 + spec_ceil_log((value + 32767) / 32768)
    }
}

/// `PACK_FANOUT` to the power `exponent`.
pub open spec fn spec_fanout_power(exponent: nat) -> nat
    decreases exponent,
{
    if exponent == 0 {
        1
    } else {
        32768 * spec_fanout_power((exponent - 1) as nat)
    }
}

/// Most passes through the packing loop for a payload of `len` bytes.
pub open spec fn spec_pack_bound(len: nat) -> nat {
    spec_ceil_log(len) + 1
}

/// A value above a power of the base has a logarithm above the exponent.
pub proof fn lemma_ceil_log_lower(value: nat, exponent: nat)
    requires
        value > spec_fanout_power(exponent),
    ensures
        spec_ceil_log(value) >= exponent + 1,
    decreases exponent,
{
    if exponent > 0 {
        let below = spec_fanout_power((exponent - 1) as nat);
        assert((value + 32767) / 32768 > below);
        lemma_ceil_log_lower((value + 32767) / 32768, (exponent - 1) as nat);
    } else {
        assert(spec_fanout_power(0) == 1);
    }
}

/// The first powers of the base.
pub proof fn lemma_fanout_powers()
    ensures
        spec_fanout_power(0) == 1,
        spec_fanout_power(1) == 0x8000,
        spec_fanout_power(2) == 0x4000_0000,
        spec_fanout_power(3) == 0x2000_0000_0000,
        spec_fanout_power(4) == 0x1000_0000_0000_0000,
{
    reveal_with_fuel(spec_fanout_power, 5);
}

/// Levels that a payload of `len` bytes can still need.
pub open spec fn spec_levels_left(len: nat) -> nat {
    if len <= 0x20_0000 {
        1
    } else if len <= 0x4_0000_0000 {
        2
    } else if len <= 0x8000_0000_0000 {
        3
    } else if len <= 0x1000_0000_0000_0000 {
        4
    } else {
        5
    }
}

/// A blob of `len` bytes is cut into at most `len / MAX_CHUNK_SIZE + 3`
/// chunks, and into three where it is shorter than three full chunks.
pub proof fn lemma_num_chunks_bound(len: nat)
    ensures
        spec_num_chunks(len) <= len / (MAX_CHUNK_SIZE as nat) + 3,
        MAX_BLOB_BYTES < len < 3 * MAX_CHUNK_SIZE ==> spec_num_chunks(len) == 3,
        len > MAX_BLOB_BYTES ==> spec_num_chunks(len) >= 3,
{
}

/// The level made of a blob that is too large has 16 bytes and 72 for each
/// chunk of the blob.
pub proof fn lemma_next_level(payload: Seq<u8>, owner: Option<Seq<u8>>, depth: nat)
    requires
        spec_pack_faithful(payload, owner, depth),
        !spec_blob(payload, owner).valid_size(),
        depth < MAX_DEPTH,
        spec_self_encrypt(spec_encode_blob(spec_blob(payload, owner))) is Some,
    ensures
        spec_encode_blob(spec_blob(payload, owner)).len() == payload.len() + spec_overhead(owner),
        spec_encode_level(
            LevelView::Child(
                spec_self_encrypt(spec_encode_blob(spec_blob(payload, owner))).unwrap().0,
            ),
        ).len() == 16 + 72 * spec_num_chunks(payload.len() + spec_overhead(owner)),
        spec_pack_faithful(
            spec_encode_level(
                LevelView::Child(
                    spec_self_encrypt(spec_encode_blob(spec_blob(payload, owner))).unwrap().0,
                ),
            ),
            owner,
            depth + 1,
        ),
{
    let blob = spec_blob(payload, owner);
    let serialised = spec_encode_blob(blob);
    lemma_blob_wire_len(blob);
    let map = spec_self_encrypt(serialised).unwrap().0;
    assert(map.wf());
    match map {
        DataMapView::Chunks(descriptors) => {
            lemma_descriptors_encoding(descriptors);
            lemma_u32_round_trip(crate::data_map::TAG_CHILD);
            lemma_u32_round_trip(crate::data_map::TAG_CHUNKS);
            lemma_u64_round_trip(descriptors.len() as u64);
        },
        _ => {},
    }
}

/// One pass through the packing loop that does not end it: packing goes on
/// with the level made of the blob, and ends as packing that level ends.
pub proof fn lemma_pack_step(payload: Seq<u8>, owner: Option<Seq<u8>>, depth: nat)
    requires
        spec_pack(payload, owner, depth) is Ok,
        spec_pack_faithful(payload, owner, depth),
        !spec_blob(payload, owner).valid_size(),
    ensures
        depth < MAX_DEPTH,
        spec_self_encrypt(spec_encode_blob(spec_blob(payload, owner))) is Some,
        spec_encode_blob(spec_blob(payload, owner)).len() == payload.len() + spec_overhead(owner),
        spec_encode_level(
            LevelView::Child(
                spec_self_encrypt(spec_encode_blob(spec_blob(payload, owner))).unwrap().0,
            ),
        ).len() == 16 + 72 * spec_num_chunks(payload.len() + spec_overhead(owner)),
        spec_pack(
            spec_encode_level(
                LevelView::Child(
                    spec_self_encrypt(spec_encode_blob(spec_blob(payload, owner))).unwrap().0,
                ),
            ),
            owner,
            depth + 1,
        ) is Ok,
        spec_pack_faithful(
            spec_encode_level(
                LevelView::Child(
                    spec_self_encrypt(spec_encode_blob(spec_blob(payload, owner))).unwrap().0,
                ),
            ),
            owner,
            depth + 1,
        ),
        spec_pack(payload, owner, depth)->Ok_0.levels == spec_pack(
            spec_encode_level(
                LevelView::Child(
                    spec_self_encrypt(spec_encode_blob(spec_blob(payload, owner))).unwrap().0,
                ),
            ),
            owner,
            depth + 1,
        )->Ok_0.levels,
{
    lemma_next_level(payload, owner, depth);
}

/// The levels that packing reports count the levels it added.
pub proof fn lemma_levels_count(payload: Seq<u8>, owner: Option<Seq<u8>>, depth: nat)
    requires
        spec_pack(payload, owner, depth) is Ok,
    ensures
        spec_blob(payload, owner).valid_size() ==> spec_pack(payload, owner, depth)->Ok_0.levels
            == depth,
        !spec_blob(payload, owner).valid_size() ==> spec_pack(payload, owner, depth)->Ok_0.levels
            > depth,
        spec_pack(payload, owner, depth)->Ok_0.levels <= MAX_DEPTH || spec_pack(
            payload,
            owner,
            depth,
        )->Ok_0.levels == depth,
    decreases MAX_DEPTH - depth,
{
    let blob = spec_blob(payload, owner);
    if !blob.valid_size() {
        let parts = spec_self_encrypt(spec_encode_blob(blob)).unwrap();
        lemma_levels_count(spec_encode_level(LevelView::Child(parts.0)), owner, depth + 1);
    }
}

/// Where packing had to add a level, the owner leaves room for the smallest
/// level in a blob.
pub proof fn lemma_owner_leaves_room(payload: Seq<u8>, owner: Option<Seq<u8>>, depth: nat)
    requires
        spec_pack(payload, owner, depth) is Ok,
        spec_pack_faithful(payload, owner, depth),
        !spec_blob(payload, owner).valid_size(),
    ensures
        232 + spec_overhead(owner) <= MAX_BLOB_BYTES,
    decreases MAX_DEPTH - depth,
{
    lemma_pack_step(payload, owner, depth);
    lemma_num_chunks_bound(payload.len() + spec_overhead(owner));
    let map = spec_self_encrypt(spec_encode_blob(spec_blob(payload, owner))).unwrap().0;
    let next = spec_encode_level(LevelView::Child(map));
    if !spec_blob(next, owner).valid_size() {
        lemma_owner_leaves_room(next, owner, depth + 1);
    }
}

/// Packing adds no more levels than the length of the payload leaves room
/// for.
pub proof fn lemma_levels_left(payload: Seq<u8>, owner: Option<Seq<u8>>, depth: nat)
    requires
        spec_pack(payload, owner, depth) is Ok,
        spec_pack_faithful(payload, owner, depth),
        payload.len() <= u64::MAX,
    ensures
        spec_pack(payload, owner, depth)->Ok_0.levels - depth <= spec_levels_left(payload.len()),
        spec_blob(payload, owner).valid_size() ==> spec_pack(payload, owner, depth)->Ok_0.levels
            == depth,
    decreases MAX_DEPTH - depth,
{
    lemma_levels_count(payload, owner, depth);
    if !spec_blob(payload, owner).valid_size() {
        lemma_pack_step(payload, owner, depth);
        lemma_owner_leaves_room(payload, owner, depth);
        let wire = payload.len() + spec_overhead(owner);
        lemma_num_chunks_bound(wire);
        let map = spec_self_encrypt(spec_encode_blob(spec_blob(payload, owner))).unwrap().0;
        let next = spec_encode_level(LevelView::Child(map));
        lemma_levels_count(next, owner, depth + 1);
        lemma_levels_left(next, owner, depth + 1);
        if payload.len() <= 0x20_0000 {
            assert(next.len() == 232);
        }
    }
}

/// The packing loop ends after at most one pass more than the logarithm of
/// the payload length to the base `PACK_FANOUT`, rounded up.
pub proof fn law_pack_passes(payload: Seq<u8>, owner: Option<Seq<u8>>)
    requires
        spec_pack(payload, owner, 0) is Ok,
        spec_pack_faithful(payload, owner, 0),
        payload.len() <= u64::MAX,
    ensures
        spec_pack(payload, owner, 0)->Ok_0.levels + 1 <= spec_pack_bound(payload.len()),
{
    let len = payload.len();
    lemma_levels_left(payload, owner, 0);
    lemma_fanout_powers();
    if !spec_blob(payload, owner).valid_size() {
        lemma_owner_leaves_room(payload, owner, 0);
        lemma_blob_wire_len(spec_blob(payload, owner));
    }
    if len > 0x1000_0000_0000_0000 {
        lemma_ceil_log_lower(len, 4);
    } else if len > 0x8000_0000_0000 {
        lemma_ceil_log_lower(len, 3);
    } else if len > 0x4_0000_0000 {
        lemma_ceil_log_lower(len, 2);
    } else if len > 0x20_0000 {
        lemma_ceil_log_lower(len, 1);
    } else if len > 1 {
        lemma_ceil_log_lower(len, 0);
    }
}

/// Packing does not give up while the depth left covers the levels that
/// the length of the payload can need.
pub proof fn lemma_no_give_up(payload: Seq<u8>, owner: Option<Seq<u8>>, depth: nat)
    requires
        spec_pack_faithful(payload, owner, depth),
        payload.len() <= u64::MAX,
        232 + spec_overhead(owner) <= MAX_BLOB_BYTES,
        depth + spec_levels_left(payload.len()) <= MAX_DEPTH,
    ensures
        spec_pack(payload, owner, depth) != Err::<PackedView, ErrorView>(ErrorView::SizeExceeded),
    decreases MAX_DEPTH - depth,
{
    let blob = spec_blob(payload, owner);
    if !blob.valid_size() {
        match spec_self_encrypt(spec_encode_blob(blob)) {
            None => {},
            Some(parts) => {
                lemma_next_level(payload, owner, depth);
                lemma_num_chunks_bound(payload.len() + spec_overhead(owner));
                let next = spec_encode_level(LevelView::Child(parts.0));
                if payload.len() <= 0x20_0000 {
                    assert(next.len() == 232);
                    assert(spec_blob(next, owner).valid_size());
                    assert(spec_pack(next, owner, depth + 1) is Ok);
                } else {
                    assert(spec_levels_left(next.len()) + 1 <= spec_levels_left(payload.len()));
                    lemma_no_give_up(next, owner, depth + 1);
                }
                assert(spec_pack(payload, owner, depth) == crate::packer::spec_with_chunks(
                    parts.1,
                    spec_pack(next, owner, depth + 1),
                ));
            },
        }
    }
}

/// Packing converges: where the owner key leaves room for the smallest
/// level in a blob, packing never gives up for size, whatever the payload.
pub proof fn law_pack_converges(payload: Seq<u8>, owner: Option<Seq<u8>>)
    requires
        spec_pack_faithful(payload, owner, 0),
        payload.len() <= u64::MAX,
        232 + spec_overhead(owner) <= MAX_BLOB_BYTES,
    ensures
        spec_pack(payload, owner, 0) != Err::<PackedView, ErrorView>(ErrorView::SizeExceeded),
{
    lemma_no_give_up(payload, owner, 0);
}

} // verus!
