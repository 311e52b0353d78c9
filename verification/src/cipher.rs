//! Self-encryption: the cut of a byte string into chunks that are encrypted
//! with keys taken from their neighbours' hashes, and the way back.
//!
//! The cipher itself is the `self_encryption` crate's. What this module
//! proves rests on the contracts of the two functions that call it.

use crate::data_map::{descriptors_view, ChunkDescriptor, DataMap, DataMapView, DescriptorView};
use crate::digest::spec_sha3_256;
use crate::error::{BlobError, ErrorView};
use crate::layout::{spec_chunk_size, spec_num_chunks, spec_plain_chunk, MIN_ENCRYPTABLE_BYTES};
use crate::wire::copy_bytes;
use vstd::prelude::*;

verus! {

/// An encrypted chunk as the cipher hands it out: the index of the
/// plaintext chunk it was made from, and the ciphertext.
pub struct SealedChunk {
    pub index: usize,
    pub content: Vec<u8>,
}

/// An encrypted chunk with the hash it is stored under.
#[derive(Clone, Debug, PartialEq, Eq)]
pub struct Chunk {
    /// Hash of the ciphertext.
    pub hash: [u8; 32],
    /// The ciphertext.
    pub bytes: Vec<u8>,
}

/// A [`Chunk`] as contracts see it.
pub struct ChunkView {
    pub hash: Seq<u8>,
    pub bytes: Seq<u8>,
}

impl View for Chunk {
    type V = ChunkView;

    open spec fn view(&self) -> ChunkView {
        ChunkView { hash: self.hash@, bytes: self.bytes@ }
    }
}

/// The views of a sequence of chunks.
pub open spec fn chunks_view(chunks: Seq<Chunk>) -> Seq<ChunkView> {
    Seq::new(chunks.len(), |i: int| chunks[i]@)
}

/// The ciphertexts that `self_encryption::encrypt` makes of `data`, in the
/// order of the plaintext chunks; `None` where it fails.
pub uninterp spec fn spec_encrypted_chunks(data: Seq<u8>) -> Option<Seq<Seq<u8>>>;

/// The plaintext that `self_encryption::decrypt_range` makes of the one
/// chunk `content`, taken as chunk `index` of the data map with the given
/// descriptors; `None` where it fails.
pub uninterp spec fn spec_decrypted_chunk(
    descriptors: Seq<DescriptorView>,
    index: int,
    content: Seq<u8>,
) -> Option<Seq<u8>>;

/// The descriptor of chunk `index` of `data`, given the ciphertexts.
pub open spec fn spec_sealed_descriptor(data: Seq<u8>, contents: Seq<Seq<u8>>, index: int)
    -> DescriptorView {
    DescriptorView {
        pre_hash: spec_sha3_256(spec_plain_chunk(data, index as nat)),
        post_hash: spec_sha3_256(contents[index]),
        size: spec_chunk_size(data.len(), index as nat) as u64,
    }
}

/// The descriptors of all chunks of `data`, given the ciphertexts.
pub open spec fn spec_sealed_descriptors(data: Seq<u8>, contents: Seq<Seq<u8>>) -> Seq<
    DescriptorView,
> {
    Seq::new(spec_num_chunks(data.len()), |i: int| spec_sealed_descriptor(data, contents, i))
}

/// Some chunk of `chunks` carries the index `index`.
pub open spec fn spec_has_index(chunks: Seq<SealedChunk>, index: int) -> bool {
    exists|k: int| 0 <= k < chunks.len() && (#[trigger] chunks[k]).index == index
}

/// What is taken on trust of a successful encryption of `data`.
///
/// - One descriptor and one ciphertext per chunk of the layout.
/// - Descriptor `i` holds the hash of plaintext chunk `i`, the hash of its
///   ciphertext and its plaintext length.
/// - The ciphertexts come in any order, each with the index of its chunk,
///   and no index is missing.
/// - Each ciphertext, decrypted under these descriptors as the chunk of its
///   index, gives back its plaintext chunk.
pub open spec fn spec_is_sealing(
    data: Seq<u8>,
    descriptors: Seq<ChunkDescriptor>,
    chunks: Seq<SealedChunk>,
) -> bool {
    let count = spec_num_chunks(data.len());
    let contents = spec_encrypted_chunks(data).unwrap();
    &&& contents.len() == count
    &&& descriptors.len() == count
    &&& chunks.len() == count
    &&& descriptors_view(descriptors) == spec_sealed_descriptors(data, contents)
    &&& forall|k: int|
        0 <= k < count ==> (#[trigger] chunks[k]).index < count && chunks[k].content@
            == contents[chunks[k].index as int]
    &&& forall|i: int| 0 <= i < count ==> #[trigger] spec_has_index(chunks, i)
    &&& forall|k: int|
        0 <= k < count ==> spec_decrypted_chunk(
            descriptors_view(descriptors),
            (#[trigger] chunks[k]).index as int,
            chunks[k].content@,
        ) == Some(spec_plain_chunk(data, chunks[k].index as nat))
}

/// Encrypts `data` chunk by chunk.
///
/// Calls `self_encryption::encrypt`. That function refuses data under 3072
/// bytes; it cuts longer data by the layout of [`crate::layout`], hashes and
/// encrypts each chunk with keys taken from the plaintext hashes of the two
/// chunks before it, and hands back the chunk records sorted by index and
/// the ciphertexts in no fixed order. The contract claims that the result
/// depends on `data` alone, and what [`spec_is_sealing`] lists.
#[verifier::external_body]
fn seal_chunks(data: &[u8]) -> (sealed: Result<
    (Vec<ChunkDescriptor>, Vec<SealedChunk>),
    self_encryption::Error,
>)
    ensures
        sealed is Ok <==> spec_encrypted_chunks(data@) is Some,
        data@.len() < MIN_ENCRYPTABLE_BYTES ==> sealed is Err,
        sealed matches Ok(parts) ==> spec_is_sealing(data@, parts.0@, parts.1@),
{
    let bytes = self_encryption::bytes::Bytes::copy_from_slice(data);
    let (map, chunks) = self_encryption::encrypt(bytes)?;
    let descriptors = map.infos().iter().map(
        |c| ChunkDescriptor {
            pre_hash: c.src_hash.0,
            post_hash: c.dst_hash.0,
            size: c.src_size as u64,
        },
    ).collect();
    let sealed = chunks.iter().map(
        |c| SealedChunk { index: c.index, content: c.content.to_vec() },
    ).collect();
    Ok((descriptors, sealed))
}

/// Decrypts one chunk of a data map.
///
/// Calls `self_encryption::decrypt_range` on the data map made of
/// `descriptors` and on `content` alone, as chunk `index`, from the first
/// byte to the last. That function derives the chunk's keys from the
/// plaintext hashes of the two descriptors before `index` (counted round
/// the end) and fails on a ciphertext that does not decrypt or decompress.
/// The contract claims only that the result depends on the arguments alone.
#[verifier::external_body]
fn open_chunk(descriptors: &Vec<ChunkDescriptor>, index: usize, content: &[u8]) -> (plain: Result<
    Vec<u8>,
    self_encryption::Error,
>)
    requires
        descriptors@.len() >= 3,
        index < descriptors@.len(),
    ensures
        match plain {
            Ok(bytes) => spec_decrypted_chunk(descriptors_view(descriptors@), index as int, content@)
                == Some(bytes@),
            Err(_) => spec_decrypted_chunk(descriptors_view(descriptors@), index as int, content@)
                is None,
        },
{
    let infos = descriptors.iter().enumerate().map(
        |(i, d)| self_encryption::ChunkInfo {
            index: i,
            dst_hash: self_encryption::xor_name::XorName(d.post_hash),
            src_hash: self_encryption::xor_name::XorName(d.pre_hash),
            src_size: d.size as usize,
        },
    ).collect();
    let chunk = self_encryption::EncryptedChunk {
        index,
        content: self_encryption::bytes::Bytes::copy_from_slice(content),
    };
    let map = self_encryption::DataMap::new(infos);
    Ok(self_encryption::decrypt_range(&map, &[chunk], 0, usize::MAX)?.to_vec())
}

/// The data map and the chunks that self-encryption makes of `data`: the
/// data itself, inline, where it is shorter than three minimum chunks; else
/// the descriptors and the chunks in plaintext order. `None` where the
/// cipher fails.
pub open spec fn spec_self_encrypt(data: Seq<u8>) -> Option<(DataMapView, Seq<ChunkView>)> {
    if data.len() < MIN_ENCRYPTABLE_BYTES {
        Some((DataMapView::Content(data), Seq::empty()))
    } else {
        match spec_encrypted_chunks(data) {
            Some(contents) => Some(
                (
                    DataMapView::Chunks(spec_sealed_descriptors(data, contents)),
                    Seq::new(
                        spec_num_chunks(data.len()),
                        |i: int| ChunkView { hash: spec_sha3_256(contents[i]), bytes: contents[i] },
                    ),
                ),
            ),
            None => None,
        }
    }
}

/// What holds of every self-encryption of `data` that succeeded on this
/// machine: the data fits in memory, the hashes in its data map have the
/// width of a hash, and the chunks decrypt, under that data map, each to its
/// own part of `data`.
///
/// Nothing in this crate can prove this of the hash and the cipher;
/// [`self_encrypt`] reports it of every call that succeeds.
pub open spec fn spec_faithful(data: Seq<u8>) -> bool {
    &&& data.len() <= usize::MAX
    &&& spec_self_encrypt(data) matches Some(parts) ==> parts.0.wf()
    &&& data.len() >= MIN_ENCRYPTABLE_BYTES ==> (spec_encrypted_chunks(data) matches Some(
        contents,
    ) ==> {
        &&& contents.len() == spec_num_chunks(data.len())
        &&& forall|i: int|
            0 <= i < contents.len() ==> #[trigger] spec_decrypted_chunk(
                spec_sealed_descriptors(data, contents),
                i,
                contents[i],
            ) == Some(spec_plain_chunk(data, i as nat))
    })
}

/// Position of the first chunk of `sealed`, from `from` on, that carries
/// the index `index`.
pub open spec fn spec_position_of(sealed: Seq<SealedChunk>, index: usize, from: int) -> Option<int>
    decreases sealed.len() - from,
{
    if from < 0 || from >= sealed.len() {
        None
    } else if sealed[from].index == index {
        Some(from)
    } else {
        spec_position_of(sealed, index, from + 1)
    }
}

/// The first `count` chunks in the order of their indices, each under the
/// ciphertext hash that its descriptor records; `None` where an index has
/// no chunk.
pub open spec fn spec_ordered(
    descriptors: Seq<ChunkDescriptor>,
    sealed: Seq<SealedChunk>,
    count: nat,
) -> Option<Seq<ChunkView>>
    decreases count,
{
    if count == 0 {
        Some(Seq::empty())
    } else {
        match spec_ordered(descriptors, sealed, (count - 1) as nat) {
            None => None,
            Some(front) => match spec_position_of(sealed, (count - 1) as usize, 0) {
                None => None,
                Some(position) => Some(
                    front.push(
                        ChunkView {
                            hash: descriptors[count - 1].post_hash@,
                            bytes: sealed[position].content@,
                        },
                    ),
                ),
            },
        }
    }
}

/// What a search for an index finds: the first chunk that carries it, or
/// nothing where no chunk does.
pub proof fn lemma_position_of(sealed: Seq<SealedChunk>, index: usize, from: int)
    requires
        0 <= from,
    ensures
        match spec_position_of(sealed, index, from) {
            Some(position) => from <= position < sealed.len() && sealed[position].index == index,
            None => forall|k: int| from <= k < sealed.len() ==> (#[trigger] sealed[k]).index != index,
        },
    decreases sealed.len() - from,
{
    if from < sealed.len() && sealed[from].index != index {
        lemma_position_of(sealed, index, from + 1);
    }
}

/// The position of the first chunk of `sealed` that carries `index`.
pub fn position_of(sealed: &Vec<SealedChunk>, index: usize) -> (found: Option<usize>)
    ensures
        match found {
            Some(position) => spec_position_of(sealed@, index, 0) == Some(position as int),
            None => spec_position_of(sealed@, index, 0) is None,
        },
{
    let mut k: usize = 0;
    while k < sealed.len()
        invariant
            k <= sealed@.len(),
            spec_position_of(sealed@, index, 0) == spec_position_of(sealed@, index, k as int),
        decreases sealed@.len() - k,
    {
        if sealed[k].index == index {
            return Some(k);
        }
        k += 1;
    }
    None
}

/// Puts the chunks that the cipher handed out in the order of their
/// indices, and names each by the ciphertext hash of its descriptor.
/// A cipher failure where some descriptor has no chunk.
pub fn order_chunks(descriptors: Vec<ChunkDescriptor>, sealed: &Vec<SealedChunk>) -> (ordered:
    Result<(DataMap, Vec<Chunk>), BlobError>)
    ensures
        match ordered {
            Ok(parts) => parts.0@ == DataMapView::Chunks(descriptors_view(descriptors@))
                && spec_ordered(descriptors@, sealed@, descriptors@.len()) == Some(
                chunks_view(parts.1@),
            ),
            Err(e) => e@ == ErrorView::CipherFailure && spec_ordered(
                descriptors@,
                sealed@,
                descriptors@.len(),
            ) is None,
        },
{
    let mut chunks: Vec<Chunk> = Vec::new();
    let mut i: usize = 0;
    assert(chunks_view(chunks@) =~= Seq::<ChunkView>::empty());
    while i < descriptors.len()
        invariant
            i <= descriptors@.len(),
            spec_ordered(descriptors@, sealed@, i as nat) == Some(chunks_view(chunks@)),
        decreases descriptors@.len() - i,
    {
        let position = match position_of(sealed, i) {
            Some(position) => position,
            None => {
                proof {
                    lemma_ordered_stops(descriptors@, sealed@, (i + 1) as nat, descriptors@.len());
                }
                return Err(BlobError::CipherFailure);
            },
        };
        proof {
            lemma_position_of(sealed@, i, 0);
        }
        let bytes = copy_bytes(sealed[position].content.as_slice());
        let ghost done = chunks_view(chunks@);
        chunks.push(Chunk { hash: descriptors[i].post_hash, bytes });
        assert(chunks_view(chunks@) =~= done.push(
            ChunkView {
                hash: descriptors@[i as int].post_hash@,
                bytes: sealed@[position as int].content@,
            },
        ));
        i += 1;
    }
    Ok((DataMap::Chunks(descriptors), chunks))
}

/// Once an index has no chunk, no longer run of chunks can be put in
/// order.
pub proof fn lemma_ordered_stops(
    descriptors: Seq<ChunkDescriptor>,
    sealed: Seq<SealedChunk>,
    count: nat,
    more: nat,
)
    requires
        count <= more,
        spec_ordered(descriptors, sealed, count) is None,
    ensures
        spec_ordered(descriptors, sealed, more) is None,
    decreases more,
{
    if count < more {
        lemma_ordered_stops(descriptors, sealed, count, (more - 1) as nat);
    }
}

/// Self-encrypts `data`: returns its data map and the encrypted chunks to
/// store, in plaintext order. Data shorter than three minimum chunks is not
/// cut: its map holds it inline and there are no chunks.
pub fn self_encrypt(data: &[u8]) -> (sealed: Result<(DataMap, Vec<Chunk>), BlobError>)
    ensures
        match sealed {
            Ok(parts) => spec_self_encrypt(data@) == Some((parts.0@, chunks_view(parts.1@))),
            Err(e) => e@ == ErrorView::CipherFailure && spec_self_encrypt(data@) is None,
        },
        sealed is Ok ==> spec_faithful(data@),
{
    if data.len() < MIN_ENCRYPTABLE_BYTES {
        let chunks: Vec<Chunk> = Vec::new();
        assert(chunks_view(chunks@) =~= Seq::<ChunkView>::empty());
        return Ok((DataMap::Content(copy_bytes(data)), chunks));
    }
    assert(data@.len() <= usize::MAX);
    let (descriptors, sealed) = match seal_chunks(data) {
        Ok(parts) => parts,
        Err(_) => {
            return Err(BlobError::CipherFailure);
        },
    };
    proof {
        lemma_sealing_in_order(data@, descriptors@, sealed@, descriptors@.len());
        lemma_sealing_faithful(data@, descriptors@, sealed@);
    }
    match order_chunks(descriptors, &sealed) {
        Ok((map, chunks)) => {
            proof {
                map.lemma_view_wf();
            }
            Ok((map, chunks))
        },
        Err(error) => Err(error),
    }
}

/// The chunks of a sealing, put in order, are the ciphertexts in the order
/// of the plaintext, each under its hash.
pub proof fn lemma_sealing_in_order(
    data: Seq<u8>,
    descriptors: Seq<ChunkDescriptor>,
    sealed: Seq<SealedChunk>,
    count: nat,
)
    requires
        spec_is_sealing(data, descriptors, sealed),
        count <= spec_num_chunks(data.len()),
    ensures
        spec_ordered(descriptors, sealed, count) == Some(
            Seq::new(
                count,
                |i: int|
                    ChunkView {
                        hash: spec_sha3_256(spec_encrypted_chunks(data).unwrap()[i]),
                        bytes: spec_encrypted_chunks(data).unwrap()[i],
                    },
            ),
        ),
    decreases count,
{
    let contents = spec_encrypted_chunks(data).unwrap();
    let expected = Seq::new(
        count,
        |i: int| ChunkView { hash: spec_sha3_256(contents[i]), bytes: contents[i] },
    );
    if count > 0 {
        let last = (count - 1) as int;
        lemma_sealing_in_order(data, descriptors, sealed, (count - 1) as nat);
        let front = spec_ordered(descriptors, sealed, (count - 1) as nat).unwrap();
        assert(spec_has_index(sealed, last));
        lemma_position_of(sealed, last as usize, 0);
        let position = spec_position_of(sealed, last as usize, 0).unwrap();
        assert(sealed[position].content@ == contents[last]);
        assert(descriptors_view(descriptors)[last] == spec_sealed_descriptor(data, contents, last));
        assert(front.push(
            ChunkView { hash: descriptors[last].post_hash@, bytes: sealed[position].content@ },
        ) =~= expected);
    } else {
        assert(expected =~= Seq::<ChunkView>::empty());
    }
}

/// In a sealing every ciphertext decrypts to its part of the data.
pub proof fn lemma_sealing_faithful(
    data: Seq<u8>,
    descriptors: Seq<ChunkDescriptor>,
    sealed: Seq<SealedChunk>,
)
    requires
        data.len() >= MIN_ENCRYPTABLE_BYTES,
        spec_encrypted_chunks(data) is Some,
        spec_is_sealing(data, descriptors, sealed),
    ensures
        spec_encrypted_chunks(data).unwrap().len() == spec_num_chunks(data.len()),
        forall|i: int|
            0 <= i < spec_encrypted_chunks(data).unwrap().len() ==> #[trigger] spec_decrypted_chunk(
                spec_sealed_descriptors(data, spec_encrypted_chunks(data).unwrap()),
                i,
                spec_encrypted_chunks(data).unwrap()[i],
            ) == Some(spec_plain_chunk(data, i as nat)),
{
    let contents = spec_encrypted_chunks(data).unwrap();
    assert forall|i: int| 0 <= i < contents.len() implies #[trigger] spec_decrypted_chunk(
        spec_sealed_descriptors(data, contents),
        i,
        contents[i],
    ) == Some(spec_plain_chunk(data, i as nat)) by {
        assert(spec_has_index(sealed, i));
        let k = choose|k: int| 0 <= k < sealed.len() && (#[trigger] sealed[k]).index == i;
        assert(sealed[k].content@ == contents[i]);
    }
}

/// Decrypts chunk `index` of the data map with the given descriptors.
/// `None` where the cipher fails on the ciphertext.
pub fn decrypt_chunk(descriptors: &Vec<ChunkDescriptor>, index: usize, content: &[u8]) -> (plain:
    Option<Vec<u8>>)
    requires
        descriptors@.len() >= 3,
        index < descriptors@.len(),
    ensures
        match plain {
            Some(bytes) => spec_decrypted_chunk(
                descriptors_view(descriptors@),
                index as int,
                content@,
            ) == Some(bytes@),
            None => spec_decrypted_chunk(descriptors_view(descriptors@), index as int, content@)
                is None,
        },
{
    match open_chunk(descriptors, index, content) {
        Ok(bytes) => Some(bytes),
        Err(_) => None,
    }
}

} // verus!
