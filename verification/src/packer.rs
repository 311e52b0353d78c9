//! Data-map packing: wrapping a level into a blob, and self-encrypting the
//! blob into another level for as long as it is too large for the network;
//! and the way back from a stored blob to the user's data map.

use crate::blob::{
    owner_view, spec_blob, spec_encode_blob, spec_parse_blob, Blob, BlobView,
};
use crate::cipher::{chunks_view, self_encrypt, spec_faithful, spec_self_encrypt, Chunk, ChunkView};
use crate::data_map::{
    spec_encode_level, spec_parse_level, DataMap, DataMapLevel, DataMapView, LevelView,
};
use crate::error::{BlobError, ErrorView};
use crate::levels::{law_pack_passes, spec_pack_bound};
use crate::reader::{read_using_data_map, spec_read_map};
use crate::store::{MemoryStore, StoreKey};
use vstd::prelude::*;

verus! {

/// Most levels that packing adds, and most that unpacking peels.
pub const MAX_DEPTH: usize = 8;

/// What packing hands over: the blob to store under the address given to
/// the caller, the chunks of the levels added, and how many were added.
pub struct Packed {
    /// The outermost blob, small enough for the network.
    pub blob: Blob,
    /// The chunks of every level added, innermost level first.
    pub chunks: Vec<Chunk>,
    /// Number of levels added.
    pub levels: usize,
}

/// A [`Packed`] as contracts see it.
pub struct PackedView {
    pub blob: BlobView,
    pub chunks: Seq<ChunkView>,
    pub levels: nat,
}

impl View for Packed {
    type V = PackedView;

    open spec fn view(&self) -> PackedView {
        PackedView {
            blob: self.blob@,
            chunks: chunks_view(self.chunks@),
            levels: self.levels as nat,
        }
    }
}

/// The result of packing as contracts see it.
pub open spec fn packed_view(packed: Result<Packed, BlobError>) -> Result<PackedView, ErrorView> {
    match packed {
        Ok(packed) => Ok(packed@),
        Err(error) => Err(error@),
    }
}

/// `chunks` in front of the chunks that `rest` holds.
pub open spec fn spec_with_chunks(chunks: Seq<ChunkView>, rest: Result<PackedView, ErrorView>)
    -> Result<PackedView, ErrorView> {
    match rest {
        Ok(packed) => Ok(
            PackedView {
                blob: packed.blob,
                chunks: chunks + packed.chunks,
                levels: packed.levels,
            },
        ),
        Err(error) => Err(error),
    }
}

/// What packing makes of `payload` when `depth` levels were added before.
///
/// The payload is wrapped in a blob of the kind that `owner` selects. A blob
/// small enough is the result. A larger one is serialised and
/// self-encrypted, and the child level of its data map is packed in turn.
/// After `MAX_DEPTH` levels a blob still too large is given up.
pub open spec fn spec_pack(payload: Seq<u8>, owner: Option<Seq<u8>>, depth: nat) -> Result<
    PackedView,
    ErrorView,
>
    decreases MAX_DEPTH - depth,
{
    let blob = spec_blob(payload, owner);
    if blob.valid_size() {
        Ok(PackedView { blob, chunks: Seq::empty(), levels: depth })
    } else if depth >= MAX_DEPTH {
        Err(ErrorView::SizeExceeded)
    } else {
        match spec_self_encrypt(spec_encode_blob(blob)) {
            None => Err(ErrorView::CipherFailure),
            Some((map, chunks)) => spec_with_chunks(
                chunks,
                spec_pack(spec_encode_level(LevelView::Child(map)), owner, depth + 1),
            ),
        }
    }
}

/// Every encryption that packing `payload` makes is faithful.
pub open spec fn spec_pack_faithful(payload: Seq<u8>, owner: Option<Seq<u8>>, depth: nat) -> bool
    decreases MAX_DEPTH - depth,
{
    let blob = spec_blob(payload, owner);
    if blob.valid_size() || depth >= MAX_DEPTH {
        true
    } else {
        match spec_self_encrypt(spec_encode_blob(blob)) {
            None => true,
            Some((map, chunks)) => spec_faithful(spec_encode_blob(blob)) && spec_pack_faithful(
                spec_encode_level(LevelView::Child(map)),
                owner,
                depth + 1,
            ),
        }
    }
}

/// Packs a serialised level into a blob that the network accepts.
///
/// Returns the blob with the chunks of the levels that had to be added;
/// nothing is stored. `SizeExceeded` where `MAX_DEPTH` levels do not bring
/// the blob under the limit, `CipherFailure` where an encryption fails.
/// The levels added, and one, stay within the logarithm of the payload
/// length that [`spec_pack_bound`] gives.
pub fn pack(payload: Vec<u8>, owner: &Option<Vec<u8>>) -> (packed: Result<Packed, BlobError>)
    ensures
        packed_view(packed) == spec_pack(payload@, owner_view(*owner), 0),
        !(packed_view(packed) == Err::<PackedView, ErrorView>(ErrorView::CipherFailure))
            ==> spec_pack_faithful(payload@, owner_view(*owner), 0),
        packed matches Ok(p) ==> p.levels + 1 <= spec_pack_bound(payload@.len()),
{
    let ghost whole = spec_pack(payload@, owner_view(*owner), 0);
    let ghost first = payload@;
    assert(payload@.len() == payload.len());
    let mut contents: Vec<u8> = payload;
    let mut chunks: Vec<Chunk> = Vec::new();
    let mut depth: usize = 0;
    proof {
        if whole is Ok {
            assert(chunks_view(chunks@) + whole->Ok_0.chunks =~= whole->Ok_0.chunks);
        }
    }
    loop
        invariant
            depth <= MAX_DEPTH,
            first == payload@,
            first.len() <= usize::MAX,
            whole == spec_pack(first, owner_view(*owner), 0),
            whole == spec_with_chunks(
                chunks_view(chunks@),
                spec_pack(contents@, owner_view(*owner), depth as nat),
            ),
            spec_pack_faithful(contents@, owner_view(*owner), depth as nat) ==> spec_pack_faithful(
                first,
                owner_view(*owner),
                0,
            ),
        decreases MAX_DEPTH - depth,
    {
        let ghost payload_now = contents@;
        let blob = Blob::new(contents, owner);
        if blob.validate_size() {
            proof {
                assert(chunks_view(chunks@) + Seq::<ChunkView>::empty() =~= chunks_view(chunks@));
                law_pack_passes(first, owner_view(*owner));
            }
            return Ok(Packed { blob, chunks, levels: depth });
        }
        if depth >= MAX_DEPTH {
            return Err(BlobError::SizeExceeded);
        }
        let serialised = blob.encode();
        let (map, mut sealed) = match self_encrypt(serialised.as_slice()) {
            Ok(parts) => parts,
            Err(error) => {
                return Err(error);
            },
        };
        let ghost done = chunks_view(chunks@);
        let ghost added = chunks_view(sealed@);
        let ghost old_chunks = chunks@;
        let ghost old_sealed = sealed@;
        chunks.append(&mut sealed);
        contents = DataMapLevel::Child(map).encode();
        proof {
            assert(chunks@ == old_chunks + old_sealed);
            assert(chunks_view(chunks@) =~= done + added);
            let rest = spec_pack(contents@, owner_view(*owner), (depth + 1) as nat);
            if rest is Ok {
                assert(done + (added + rest->Ok_0.chunks) =~= (done + added) + rest->Ok_0.chunks);
            }
        }
        depth += 1;
    }
}

/// The result of unpacking as contracts see it.
pub open spec fn map_view(map: Result<DataMap, BlobError>) -> Result<DataMapView, ErrorView> {
    match map {
        Ok(map) => Ok(map@),
        Err(error) => Err(error@),
    }
}

/// The user's data map under `blob`, after `depth` levels were peeled.
///
/// The payload must decode as a level. A root level holds the map. A child
/// level is read in full through its chunks, in the namespace of the blob;
/// what is read must decode as a blob, which is unpacked in turn. A payload
/// or a reassembled blob that does not decode, and a child more than
/// `MAX_DEPTH` levels down, are integrity failures.
pub open spec fn spec_unpack(chunks: Map<StoreKey, Seq<u8>>, blob: BlobView, depth: nat) -> Result<
    DataMapView,
    ErrorView,
>
    decreases MAX_DEPTH - depth,
{
    match spec_parse_level(blob.payload()) {
        None => Err(ErrorView::IntegrityFailure),
        Some(LevelView::Root(map)) => Ok(map),
        Some(LevelView::Child(map)) => if depth >= MAX_DEPTH {
            Err(ErrorView::IntegrityFailure)
        } else {
            match spec_read_map(chunks, blob.kind(), map, None, None) {
                Err(error) => Err(error),
                Ok(bytes) => match spec_parse_blob(bytes) {
                    None => Err(ErrorView::IntegrityFailure),
                    Some(inner) => spec_unpack(chunks, inner, depth + 1),
                },
            }
        },
    }
}

/// What one look at a blob asks for next.
#[derive(Clone, Debug, PartialEq, Eq)]
pub enum Peel {
    /// The blob held the root level: this is the user's data map.
    Done(DataMap),
    /// The blob held a child level: read this map in full, from the
    /// namespace of the blob, and go on with the blob that the bytes decode
    /// to.
    Fetch(DataMap),
}

/// A [`Peel`] as contracts see it.
pub enum PeelView {
    Done(DataMapView),
    Fetch(DataMapView),
}

impl View for Peel {
    type V = PeelView;

    open spec fn view(&self) -> PeelView {
        match self {
            Peel::Done(map) => PeelView::Done(map@),
            Peel::Fetch(map) => PeelView::Fetch(map@),
        }
    }
}

/// What a look at `payload`, `depth` levels down, asks for next: the
/// payload must decode as a level, and a child may not lie `MAX_DEPTH`
/// levels down.
pub open spec fn spec_peel(payload: Seq<u8>, depth: nat) -> Result<PeelView, ErrorView> {
    match spec_parse_level(payload) {
        None => Err(ErrorView::IntegrityFailure),
        Some(LevelView::Root(map)) => Ok(PeelView::Done(map)),
        Some(LevelView::Child(map)) => if depth >= MAX_DEPTH {
            Err(ErrorView::IntegrityFailure)
        } else {
            Ok(PeelView::Fetch(map))
        },
    }
}

/// Looks at the level that `blob` holds, `depth` levels below the blob that
/// was asked for, and says how to go on.
pub fn peel(blob: &Blob, depth: usize) -> (next: Result<Peel, BlobError>)
    ensures
        match next {
            Ok(peel) => spec_peel(blob@.payload(), depth as nat) == Ok::<PeelView, ErrorView>(
                peel@,
            ),
            Err(error) => spec_peel(blob@.payload(), depth as nat) == Err::<PeelView, ErrorView>(
                error@,
            ),
        },
{
    match DataMapLevel::decode(blob.value().as_slice()) {
        None => Err(BlobError::IntegrityFailure),
        Some(DataMapLevel::Root(map)) => Ok(Peel::Done(map)),
        Some(DataMapLevel::Child(map)) => {
            if depth >= MAX_DEPTH {
                Err(BlobError::IntegrityFailure)
            } else {
                Ok(Peel::Fetch(map))
            }
        },
    }
}

/// The blob that the bytes read through a child level hold; an integrity
/// failure where they are not the wire form of a blob.
pub fn reassemble(serialised: &[u8]) -> (inner: Result<Blob, BlobError>)
    ensures
        match inner {
            Ok(blob) => spec_parse_blob(serialised@) == Some(blob@),
            Err(error) => spec_parse_blob(serialised@) is None && error@
                == ErrorView::IntegrityFailure,
        },
{
    match Blob::decode(serialised) {
        Some(blob) => Ok(blob),
        None => Err(BlobError::IntegrityFailure),
    }
}

/// Takes a stored blob and finds the user's data map: peels child levels,
/// reading each through `store`, until the root level appears.
pub fn unpack(store: &MemoryStore, blob: &Blob) -> (map: Result<DataMap, BlobError>)
    requires
        store.wf(),
    ensures
        map_view(map) == spec_unpack(store@.chunks, blob@, 0),
{
    let ghost whole = spec_unpack(store@.chunks, blob@, 0);
    let mut current: Blob = blob.duplicate();
    let mut depth: usize = 0;
    loop
        invariant
            store.wf(),
            depth <= MAX_DEPTH,
            whole == spec_unpack(store@.chunks, blob@, 0),
            whole == spec_unpack(store@.chunks, current@, depth as nat),
        decreases MAX_DEPTH - depth,
    {
        let kind = current.kind();
        let map = match peel(&current, depth) {
            Ok(Peel::Done(map)) => {
                return Ok(map);
            },
            Ok(Peel::Fetch(map)) => map,
            Err(error) => {
                return Err(error);
            },
        };
        let serialised = match read_using_data_map(store, kind, &map, None, None) {
            Ok(bytes) => bytes,
            Err(error) => {
                return Err(error);
            },
        };
        current = match reassemble(serialised.as_slice()) {
            Ok(inner) => inner,
            Err(error) => {
                return Err(error);
            },
        };
        depth += 1;
    }
}

} // verus!
