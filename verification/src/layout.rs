//! How a byte string is cut into chunks: how many, how long, where each starts.

use vstd::prelude::*;

verus! {

/// Smallest plaintext length of a chunk.
pub const MIN_CHUNK_SIZE: usize = 1024;

/// Target plaintext length of a chunk.
pub const MAX_CHUNK_SIZE: usize = 1048576;

/// Shortest input that is cut into chunks; anything shorter is kept inline.
pub const MIN_ENCRYPTABLE_BYTES: usize = 3072;

/// Number of chunks an input of `len` bytes is cut into (0: kept inline).
pub open spec fn spec_num_chunks(len: nat) -> nat {
    if len < 3 * MIN_CHUNK_SIZE {
        0
    } else if len < 3 * MAX_CHUNK_SIZE {
        3
    } else if len % (MAX_CHUNK_SIZE as nat) == 0 {
        len / (MAX_CHUNK_SIZE as nat)
    } else {
        len / (MAX_CHUNK_SIZE as nat) + 1
    }
}

/// Plaintext length of chunk `index` of an input of `len` bytes.
///
/// Inputs under three full chunks are cut in three near-equal parts. Longer
/// inputs are cut in full chunks; a tail shorter than the minimum borrows
/// from the chunk before it, so that the last two chunks both reach the
/// minimum.
pub open spec fn spec_chunk_size(len: nat, index: nat) -> nat {
    if len < 3 * MIN_CHUNK_SIZE {
        0
    } else if len < 3 * MAX_CHUNK_SIZE {
        if index < 2 {
            len / 3
        } else {
            (len - 2 * (len / 3)) as nat
        }
    } else {
        let total = spec_num_chunks(len);
        let remainder = len % (MAX_CHUNK_SIZE as nat);
        if index + 2 < total {
            MAX_CHUNK_SIZE as nat
        } else if remainder == 0 {
            MAX_CHUNK_SIZE as nat
        } else if remainder < MIN_CHUNK_SIZE {
            if index + 2 == total {
                (MAX_CHUNK_SIZE - MIN_CHUNK_SIZE) as nat
            } else {
                MIN_CHUNK_SIZE as nat + remainder
            }
        } else if index + 2 == total {
            MAX_CHUNK_SIZE as nat
        } else {
            remainder
        }
    }
}

/// Offset in the input at which chunk `index` starts.
pub open spec fn spec_chunk_start(len: nat, index: nat) -> nat {
    let total = spec_num_chunks(len);
    if total == 0 || index == 0 {
        0
    } else if index + 1 == total {
        (spec_chunk_size(len, 0) * (index - 1) + spec_chunk_size(len, (index - 1) as nat)) as nat
    } else {
        spec_chunk_size(len, 0) * index
    }
}

/// Sum of the lengths of the first `count` chunks.
pub open spec fn spec_sizes_sum(len: nat, count: nat) -> nat
    decreases count,
{
    if count == 0 {
        0
    } else {
        spec_sizes_sum(len, (count - 1) as nat) + spec_chunk_size(len, (count - 1) as nat)
    }
}

/// The bytes of `data` that fall into chunk `index`.
pub open spec fn spec_plain_chunk(data: Seq<u8>, index: nat) -> Seq<u8> {
    data.subrange(
        spec_chunk_start(data.len(), index) as int,
        (spec_chunk_start(data.len(), index) + spec_chunk_size(data.len(), index)) as int,
    )
}

/// Every chunk starts where the one before it ends, the first at 0.
pub proof fn lemma_chunk_start_step(len: nat, index: nat)
    requires
        index + 1 < spec_num_chunks(len),
    ensures
        spec_chunk_start(len, 0) == 0,
        spec_chunk_start(len, index + 1) == spec_chunk_start(len, index) + spec_chunk_size(
            len,
            index,
        ),
{
    let total = spec_num_chunks(len);
    let first = spec_chunk_size(len, 0);
    assert(spec_chunk_size(len, index) == first || index + 2 == total);
    if index + 2 == total {
        assert(first * (index + 1 - 1) == first * index) by (nonlinear_arith);
    } else {
        assert(spec_chunk_size(len, index) == first);
        assert(first * (index + 1) == first * index + first) by (nonlinear_arith);
    }
}

/// The last chunk ends where the input ends.
pub proof fn lemma_last_chunk_ends_at_len(len: nat)
    requires
        len >= 3 * MIN_CHUNK_SIZE,
    ensures
        spec_num_chunks(len) >= 3,
        spec_chunk_start(len, (spec_num_chunks(len) - 1) as nat) + spec_chunk_size(
            len,
            (spec_num_chunks(len) - 1) as nat,
        ) == len,
{
    let total = spec_num_chunks(len);
    let max = MAX_CHUNK_SIZE as nat;
    if len < 3 * MAX_CHUNK_SIZE {
        assert(total == 3);
        assert((len / 3) * 1 == len / 3) by (nonlinear_arith);
    } else {
        let q = len / max;
        let r = len % max;
        assert(len == max * q + r) by {
            vstd::arithmetic::div_mod::lemma_fundamental_div_mod(len as int, max as int);
        }
        assert(q >= 3) by {
            if q < 3 {
                assert(max * q <= max * 2) by (nonlinear_arith)
                    requires
                        q <= 2,
                        max >= 0,
                ;
            }
        }
        let last = (total - 1) as nat;
        let before = (total - 2) as nat;
        assert(spec_chunk_size(len, 0) == max);
        assert(max * (total - 2) + max == max * (total - 1)) by (nonlinear_arith);
        assert(max * (q - 1) + max == max * q) by (nonlinear_arith);
        assert(max * (q - 2) + max == max * (q - 1)) by (nonlinear_arith);
    }
}

/// Every start offset is the sum of the chunk lengths before it.
pub proof fn lemma_start_is_sum(len: nat, index: nat)
    requires
        index < spec_num_chunks(len),
    ensures
        spec_chunk_start(len, index) == spec_sizes_sum(len, index),
    decreases index,
{
    if index > 0 {
        lemma_start_is_sum(len, (index - 1) as nat);
        lemma_chunk_start_step(len, (index - 1) as nat);
    }
}

/// The chunk lengths of an input that is cut add up to its length.
pub proof fn lemma_sizes_sum_to_len(len: nat)
    requires
        len >= 3 * MIN_CHUNK_SIZE,
    ensures
        spec_sizes_sum(len, spec_num_chunks(len)) == len,
{
    lemma_last_chunk_ends_at_len(len);
    lemma_start_is_sum(len, (spec_num_chunks(len) - 1) as nat);
}

/// An input of at least three minimum chunks is cut into three or more
/// chunks; each reaches the minimum length, and each but the last stays
/// within the maximum.
pub proof fn lemma_chunk_bounds(len: nat, index: nat)
    requires
        len >= 3 * MIN_CHUNK_SIZE,
        index < spec_num_chunks(len),
    ensures
        spec_num_chunks(len) >= 3,
        spec_chunk_size(len, index) >= MIN_CHUNK_SIZE,
        index + 1 < spec_num_chunks(len) ==> spec_chunk_size(len, index) <= MAX_CHUNK_SIZE,
        spec_chunk_size(len, index) <= MAX_CHUNK_SIZE + MIN_CHUNK_SIZE,
        spec_chunk_start(len, index) + spec_chunk_size(len, index) <= len,
{
    lemma_last_chunk_ends_at_len(len);
    lemma_chunk_end_monotone(len, index, (spec_num_chunks(len) - 1) as nat);
}

/// Chunks lie in the input in index order.
pub proof fn lemma_chunk_end_monotone(len: nat, low: nat, high: nat)
    requires
        low <= high < spec_num_chunks(len),
    ensures
        spec_chunk_start(len, low) + spec_chunk_size(len, low) <= spec_chunk_start(len, high)
            + spec_chunk_size(len, high),
        spec_chunk_start(len, low) <= spec_chunk_start(len, high),
    decreases high - low,
{
    if low < high {
        lemma_chunk_end_monotone(len, low, (high - 1) as nat);
        lemma_chunk_start_step(len, (high - 1) as nat);
    }
}

/// Number of chunks an input of `len` bytes is cut into.
pub fn num_chunks(len: usize) -> (count: usize)
    ensures
        count == spec_num_chunks(len as nat),
{
    if len < 3 * MIN_CHUNK_SIZE {
        0
    } else if len < 3 * MAX_CHUNK_SIZE {
        3
    } else if len % MAX_CHUNK_SIZE == 0 {
        len / MAX_CHUNK_SIZE
    } else {
        len / MAX_CHUNK_SIZE + 1
    }
}

/// Plaintext length of chunk `index` of an input of `len` bytes.
pub fn chunk_size(len: usize, index: usize) -> (size: usize)
    requires
        index < spec_num_chunks(len as nat),
    ensures
        size == spec_chunk_size(len as nat, index as nat),
{
    if len < 3 * MAX_CHUNK_SIZE {
        if index < 2 {
            len / 3
        } else {
            len - 2 * (len / 3)
        }
    } else {
        let total: usize = num_chunks(len);
        let remainder: usize = len % MAX_CHUNK_SIZE;
        if index + 2 < total {
            MAX_CHUNK_SIZE
        } else if remainder == 0 {
            MAX_CHUNK_SIZE
        } else if remainder < MIN_CHUNK_SIZE {
            if index + 2 == total {
                MAX_CHUNK_SIZE - MIN_CHUNK_SIZE
            } else {
                MIN_CHUNK_SIZE + remainder
            }
        } else if index + 2 == total {
            MAX_CHUNK_SIZE
        } else {
            remainder
        }
    }
}

/// Offset in the input at which chunk `index` starts.
pub fn chunk_start(len: usize, index: usize) -> (start: usize)
    requires
        index < spec_num_chunks(len as nat),
    ensures
        start == spec_chunk_start(len as nat, index as nat),
{
    proof {
        lemma_chunk_bounds(len as nat, index as nat);
        lemma_chunk_bounds(len as nat, 0);
        if index > 0 {
            lemma_chunk_bounds(len as nat, (index - 1) as nat);
            lemma_chunk_end_monotone(len as nat, (index - 1) as nat, index as nat);
        }
    }
    let total: usize = num_chunks(len);
    if index == 0 {
        0
    } else if index + 1 == total {
        let first: usize = chunk_size(len, 0);
        let before: usize = chunk_size(len, index - 1);
        assert(first * (index - 1) + before <= len) by {
            assert(spec_chunk_start(len as nat, index as nat) == first * (index - 1) + before);
        }
        assert(first * (index - 1) <= len) by (nonlinear_arith)
            requires
                first * (index - 1) + before <= len,
        ;
        first * (index - 1) + before
    } else {
        let first: usize = chunk_size(len, 0);
        assert(first * index <= len) by {
            assert(spec_chunk_start(len as nat, index as nat) == first * index);
        }
        first * index
    }
}

} // verus!
