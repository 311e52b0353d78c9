//! The content hash that names chunks and blobs.

use vstd::prelude::*;

verus! {

/// Width of a content hash in bytes.
pub const HASH_LEN: usize = 32;

/// The SHA3-256 digest of a byte string, as `xor_name` computes it for the
/// names of chunks.
pub uninterp spec fn spec_sha3_256(data: Seq<u8>) -> Seq<u8>;

/// Hashes the concatenation of two byte strings.
///
/// Calls `XorName::from_content_parts` of the `xor_name` that
/// `self_encryption` names its chunks with. That function feeds every part,
/// in order, to one SHA3-256 state and returns the 32-byte digest. The
/// contract claims only that the digest is that hash of `first` followed by
/// `second`.
#[verifier::external_body]
pub(crate) fn sha3_256_of_parts(first: &[u8], second: &[u8]) -> (digest: [u8; 32])
    ensures
        digest@ == spec_sha3_256(first@ + second@),
{
    self_encryption::xor_name::XorName::from_content_parts(&[first, second]).0
}

/// The content hash of `data`.
pub fn content_hash(data: &[u8]) -> (digest: [u8; 32])
    ensures
        digest@ == spec_sha3_256(data@),
{
    let empty: Vec<u8> = Vec::new();
    let digest = sha3_256_of_parts(data, empty.as_slice());
    assert(data@ + empty@ =~= data@);
    digest
}

/// Whether two hashes hold the same bytes.
pub fn hash_eq(a: &[u8; 32], b: &[u8; 32]) -> (same: bool)
    ensures
        same == (a@ == b@),
{
    let mut i: usize = 0;
    while i < 32
        invariant
            i <= 32,
            forall|j: int| 0 <= j < i ==> a@[j] == b@[j],
        decreases 32 - i,
    {
        if a[i] != b[i] {
            return false;
        }
        i += 1;
    }
    assert(a@ =~= b@);
    true
}

} // verus!
