//! Little-endian framing shared by the wire encodings: fixed-width integers
//! and length-prefixed byte strings, appended to and read from byte buffers.

use vstd::bytes::*;
use vstd::prelude::*;
use vstd::slice::*;

verus! {

/// Encoding of a 32-bit tag.
pub open spec fn spec_u32_le(value: u32) -> Seq<u8> {
    spec_u32_to_le_bytes(value)
}

/// Encoding of a 64-bit length or size.
pub open spec fn spec_u64_le(value: u64) -> Seq<u8> {
    spec_u64_to_le_bytes(value)
}

/// The 32-bit value found at `pos`, if four bytes are there.
pub open spec fn spec_u32_at(bytes: Seq<u8>, pos: int) -> Option<u32> {
    if 0 <= pos && pos + 4 <= bytes.len() {
        Some(spec_u32_from_le_bytes(bytes.subrange(pos, pos + 4)))
    } else {
        None
    }
}

/// The 64-bit value found at `pos`, if eight bytes are there.
pub open spec fn spec_u64_at(bytes: Seq<u8>, pos: int) -> Option<u64> {
    if 0 <= pos && pos + 8 <= bytes.len() {
        Some(spec_u64_from_le_bytes(bytes.subrange(pos, pos + 8)))
    } else {
        None
    }
}

/// A tag is four bytes long and reads back as itself.
pub proof fn lemma_u32_round_trip(value: u32)
    ensures
        spec_u32_le(value).len() == 4,
        spec_u32_from_le_bytes(spec_u32_le(value)) == value,
{
    lemma_auto_spec_u32_to_from_le_bytes();
    assert(spec_u32_to_le_bytes(value).len() == 4);
}

/// A length is eight bytes long and reads back as itself.
pub proof fn lemma_u64_round_trip(value: u64)
    ensures
        spec_u64_le(value).len() == 8,
        spec_u64_from_le_bytes(spec_u64_le(value)) == value,
{
    lemma_auto_spec_u64_to_from_le_bytes();
}

/// Four bytes are the encoding of the tag they read as.
pub proof fn lemma_u32_bytes_canonical(bytes: Seq<u8>)
    requires
        bytes.len() == 4,
    ensures
        spec_u32_le(spec_u32_from_le_bytes(bytes)) == bytes,
{
    lemma_auto_spec_u32_to_from_le_bytes();
}

/// Eight bytes are the encoding of the length they read as.
pub proof fn lemma_u64_bytes_canonical(bytes: Seq<u8>)
    requires
        bytes.len() == 8,
    ensures
        spec_u64_le(spec_u64_from_le_bytes(bytes)) == bytes,
{
    lemma_auto_spec_u64_to_from_le_bytes();
}

/// A copy of `src`.
pub fn copy_bytes(src: &[u8]) -> (out: Vec<u8>)
    ensures
        out@ == src@,
{
    slice_to_vec(src)
}

/// Appends `src` to `out`.
pub fn append_bytes(out: &mut Vec<u8>, src: &[u8])
    ensures
        final(out)@ == old(out)@ + src@,
{
    let mut i: usize = 0;
    while i < src.len()
        invariant
            i <= src@.len(),
            out@ == old(out)@ + src@.take(i as int),
        decreases src@.len() - i,
    {
        out.push(src[i]);
        assert(src@.take(i + 1) =~= src@.take(i as int).push(src@[i as int]));
        i += 1;
    }
    assert(src@.take(i as int) =~= src@);
}

/// Appends the encoding of a tag.
pub fn put_u32(out: &mut Vec<u8>, value: u32)
    ensures
        final(out)@ == old(out)@ + spec_u32_le(value),
{
    let encoded = u32_to_le_bytes(value);
    append_bytes(out, encoded.as_slice());
}

/// Appends the encoding of a length.
pub fn put_u64(out: &mut Vec<u8>, value: u64)
    ensures
        final(out)@ == old(out)@ + spec_u64_le(value),
{
    let encoded = u64_to_le_bytes(value);
    append_bytes(out, encoded.as_slice());
}

/// Reads the tag at `pos`.
pub fn get_u32(bytes: &[u8], pos: usize) -> (value: Option<u32>)
    ensures
        value == spec_u32_at(bytes@, pos as int),
{
    if bytes.len() < 4 || pos > bytes.len() - 4 {
        None
    } else {
        Some(u32_from_le_bytes(slice_subrange(bytes, pos, pos + 4)))
    }
}

/// Reads the length at `pos`.
pub fn get_u64(bytes: &[u8], pos: usize) -> (value: Option<u64>)
    ensures
        value == spec_u64_at(bytes@, pos as int),
{
    if bytes.len() < 8 || pos > bytes.len() - 8 {
        None
    } else {
        Some(u64_from_le_bytes(slice_subrange(bytes, pos, pos + 8)))
    }
}

/// Reads the 32-byte hash at `pos`.
pub fn get_hash(bytes: &[u8], pos: usize) -> (hash: [u8; 32])
    requires
        pos + 32 <= bytes@.len(),
    ensures
        hash@ == bytes@.subrange(pos as int, pos + 32),
{
    let mut hash: [u8; 32] = [0u8; 32];
    let mut i: usize = 0;
    while i < 32
        invariant
            i <= 32,
            pos + 32 <= bytes.len(),
            forall|j: int| 0 <= j < i ==> hash@[j] == bytes@[pos + j],
        decreases 32 - i,
    {
        hash[i] = bytes[pos + i];
        i += 1;
    }
    assert(hash@ =~= bytes@.subrange(pos as int, pos + 32));
    hash
}

} // verus!
