//! Data maps, the level tag that marks a user's root map, and their wire
//! encoding.

use crate::wire::{
    append_bytes, copy_bytes, get_hash, get_u32, get_u64, lemma_u32_bytes_canonical,
    lemma_u32_round_trip, lemma_u64_bytes_canonical, lemma_u64_round_trip, put_u32, put_u64,
    spec_u32_at, spec_u32_le, spec_u64_at, spec_u64_le,
};
use vstd::bytes::*;
use vstd::prelude::*;
use vstd::slice::*;

verus! {

/// Length of one chunk descriptor on the wire.
pub const DESCRIPTOR_WIRE_LEN: usize = 72;

/// Wire tag of [`DataMap::Empty`].
pub const TAG_EMPTY: u32 = 0;

/// Wire tag of [`DataMap::Content`].
pub const TAG_CONTENT: u32 = 1;

/// Wire tag of [`DataMap::Chunks`].
pub const TAG_CHUNKS: u32 = 2;

/// Wire tag of [`DataMapLevel::Root`].
pub const TAG_ROOT: u32 = 0;

/// Wire tag of [`DataMapLevel::Child`].
pub const TAG_CHILD: u32 = 1;

/// What is recorded of one chunk.
#[derive(Clone, Copy, Debug, PartialEq, Eq)]
pub struct ChunkDescriptor {
    /// Hash of the chunk's plaintext; seeds the keys of its neighbours.
    pub pre_hash: [u8; 32],
    /// Hash of the chunk's ciphertext; the chunk's address in the store.
    pub post_hash: [u8; 32],
    /// Length of the chunk's plaintext.
    pub size: u64,
}

/// A [`ChunkDescriptor`] as contracts see it.
pub struct DescriptorView {
    pub pre_hash: Seq<u8>,
    pub post_hash: Seq<u8>,
    pub size: u64,
}

/// How to rebuild a byte string: nothing, the bytes themselves, or the
/// ordered descriptors of its chunks.
#[derive(Clone, Debug, PartialEq, Eq)]
pub enum DataMap {
    /// No data.
    Empty,
    /// Data too short to be cut into chunks, kept inline.
    Content(Vec<u8>),
    /// The chunks, in the order of the plaintext.
    Chunks(Vec<ChunkDescriptor>),
}

/// A [`DataMap`] as contracts see it.
pub enum DataMapView {
    Empty,
    Content(Seq<u8>),
    Chunks(Seq<DescriptorView>),
}

/// A data map with the mark that tells a user's own map from the maps that
/// packing adds around it.
#[derive(Clone, Debug, PartialEq, Eq)]
pub enum DataMapLevel {
    /// The data map of the user's data.
    Root(DataMap),
    /// The data map of a serialised blob that holds another level.
    Child(DataMap),
}

/// A [`DataMapLevel`] as contracts see it.
pub enum LevelView {
    Root(DataMapView),
    Child(DataMapView),
}

impl View for ChunkDescriptor {
    type V = DescriptorView;

    open spec fn view(&self) -> DescriptorView {
        DescriptorView { pre_hash: self.pre_hash@, post_hash: self.post_hash@, size: self.size }
    }
}

/// The views of a sequence of descriptors.
pub open spec fn descriptors_view(descriptors: Seq<ChunkDescriptor>) -> Seq<DescriptorView> {
    Seq::new(descriptors.len(), |i: int| descriptors[i]@)
}

impl View for DataMap {
    type V = DataMapView;

    open spec fn view(&self) -> DataMapView {
        match self {
            DataMap::Empty => DataMapView::Empty,
            DataMap::Content(bytes) => DataMapView::Content(bytes@),
            DataMap::Chunks(descriptors) => DataMapView::Chunks(descriptors_view(descriptors@)),
        }
    }
}

impl View for DataMapLevel {
    type V = LevelView;

    open spec fn view(&self) -> LevelView {
        match self {
            DataMapLevel::Root(map) => LevelView::Root(map@),
            DataMapLevel::Child(map) => LevelView::Child(map@),
        }
    }
}

impl DescriptorView {
    /// Both hashes have the width of a hash.
    pub open spec fn wf(self) -> bool {
        self.pre_hash.len() == 32 && self.post_hash.len() == 32
    }
}

impl DataMapView {
    /// Hashes have the width of a hash, and lengths fit the wire.
    pub open spec fn wf(self) -> bool {
        match self {
            DataMapView::Empty => true,
            DataMapView::Content(bytes) => bytes.len() <= u64::MAX,
            DataMapView::Chunks(descriptors) => {
                &&& descriptors.len() <= u64::MAX
                &&& forall|i: int| 0 <= i < descriptors.len() ==> (#[trigger] descriptors[i]).wf()
            },
        }
    }

    /// The descriptors of a chunked map; none for the other variants.
    pub open spec fn descriptors(self) -> Seq<DescriptorView> {
        match self {
            DataMapView::Chunks(descriptors) => descriptors,
            _ => Seq::empty(),
        }
    }
}

/// Sum of the plaintext lengths that the first `count` descriptors record.
pub open spec fn spec_recorded_len(descriptors: Seq<DescriptorView>, count: nat) -> nat
    decreases count,
{
    if count == 0 {
        0
    } else {
        (spec_recorded_len(descriptors, (count - 1) as nat) + descriptors[count - 1].size) as nat
    }
}

/// The lengths recorded in more descriptors add up to no less.
pub proof fn lemma_recorded_len_grows(descriptors: Seq<DescriptorView>, fewer: nat, more: nat)
    requires
        fewer <= more,
    ensures
        spec_recorded_len(descriptors, fewer) <= spec_recorded_len(descriptors, more),
    decreases more,
{
    if fewer < more {
        lemma_recorded_len_grows(descriptors, fewer, (more - 1) as nat);
    }
}

impl DataMapView {
    /// Length of the plaintext that the map stands for.
    pub open spec fn len(self) -> nat {
        match self {
            DataMapView::Empty => 0,
            DataMapView::Content(bytes) => bytes.len(),
            DataMapView::Chunks(descriptors) => spec_recorded_len(descriptors, descriptors.len()),
        }
    }
}

impl LevelView {
    /// The data map under the mark.
    pub open spec fn map(self) -> DataMapView {
        match self {
            LevelView::Root(map) => map,
            LevelView::Child(map) => map,
        }
    }

    /// The map under the mark is well formed.
    pub open spec fn wf(self) -> bool {
        self.map().wf()
    }
}

impl ChunkDescriptor {
    /// Appends the wire form of the descriptor.
    pub fn encode_into(&self, out: &mut Vec<u8>)
        ensures
            final(out)@ == old(out)@ + spec_encode_descriptor(self@),
    {
        append_bytes(out, self.pre_hash.as_slice());
        append_bytes(out, self.post_hash.as_slice());
        put_u64(out, self.size);
        assert(out@ =~= old(out)@ + spec_encode_descriptor(self@));
    }
}

/// A copy of a run of descriptors.
pub fn copy_descriptors(descriptors: &Vec<ChunkDescriptor>) -> (copy: Vec<ChunkDescriptor>)
    ensures
        copy@ == descriptors@,
{
    let mut copy: Vec<ChunkDescriptor> = Vec::new();
    let mut i: usize = 0;
    while i < descriptors.len()
        invariant
            i <= descriptors@.len(),
            copy@ == descriptors@.take(i as int),
        decreases descriptors@.len() - i,
    {
        copy.push(descriptors[i]);
        assert(descriptors@.take(i + 1) =~= descriptors@.take(i as int).push(descriptors@[i as int]));
        i += 1;
    }
    assert(descriptors@.take(i as int) =~= descriptors@);
    copy
}

impl DataMap {
    /// The view of a data map is always well formed.
    pub proof fn lemma_view_wf(&self)
        ensures
            self@.wf(),
    {
        match self {
            DataMap::Empty => {},
            DataMap::Content(bytes) => {
                assert(bytes@.len() == bytes.len());
            },
            DataMap::Chunks(descriptors) => {
                assert(descriptors@.len() == descriptors.len());
            },
        }
    }

    /// A copy of the data map.
    pub fn duplicate(&self) -> (copy: DataMap)
        ensures
            copy@ == self@,
    {
        match self {
            DataMap::Empty => DataMap::Empty,
            DataMap::Content(bytes) => DataMap::Content(copy_bytes(bytes.as_slice())),
            DataMap::Chunks(descriptors) => DataMap::Chunks(copy_descriptors(descriptors)),
        }
    }

    /// Length of the plaintext that the map stands for; `None` where the
    /// recorded lengths add up to more than 64 bits hold.
    pub fn len(&self) -> (len: Option<u64>)
        ensures
            match len {
                Some(len) => len == self@.len(),
                None => self@.len() > u64::MAX,
            },
    {
        match self {
            DataMap::Empty => Some(0),
            DataMap::Content(bytes) => Some(bytes.len() as u64),
            DataMap::Chunks(descriptors) => {
                let ghost views = descriptors_view(descriptors@);
                let mut total: u64 = 0;
                let mut i: usize = 0;
                while i < descriptors.len()
                    invariant
                        i <= descriptors@.len(),
                        views == descriptors_view(descriptors@),
                        views.len() == descriptors@.len(),
                        self@ == DataMapView::Chunks(views),
                        total == spec_recorded_len(views, i as nat),
                    decreases descriptors@.len() - i,
                {
                    assert(views[i as int].size == descriptors@[i as int].size);
                    total = match total.checked_add(descriptors[i].size) {
                        Some(total) => total,
                        None => {
                            proof {
                                lemma_recorded_len_grows(views, (i + 1) as nat, views.len());
                            }
                            return None;
                        },
                    };
                    i += 1;
                }
                Some(total)
            },
        }
    }

    /// Whether the map stands for no data at all.
    pub fn is_empty(&self) -> (empty: bool)
        ensures
            empty == (self@ is Empty),
    {
        match self {
            DataMap::Empty => true,
            _ => false,
        }
    }

    /// Number of chunks the map refers to.
    pub fn chunk_count(&self) -> (count: usize)
        ensures
            count == self@.descriptors().len(),
    {
        match self {
            DataMap::Chunks(descriptors) => descriptors.len(),
            _ => 0,
        }
    }

    /// Appends the wire form of the data map.
    pub fn encode_into(&self, out: &mut Vec<u8>)
        ensures
            final(out)@ == old(out)@ + spec_encode_map(self@),
    {
        match self {
            DataMap::Empty => {
                put_u32(out, TAG_EMPTY);
            },
            DataMap::Content(bytes) => {
                put_u32(out, TAG_CONTENT);
                put_u64(out, bytes.len() as u64);
                append_bytes(out, bytes.as_slice());
                assert(out@ =~= old(out)@ + spec_encode_map(self@));
            },
            DataMap::Chunks(descriptors) => {
                put_u32(out, TAG_CHUNKS);
                put_u64(out, descriptors.len() as u64);
                let ghost head = out@;
                let ghost views = descriptors_view(descriptors@);
                let mut i: usize = 0;
                while i < descriptors.len()
                    invariant
                        i <= descriptors@.len(),
                        views == descriptors_view(descriptors@),
                        out@ == head + spec_encode_descriptors(views.take(i as int)),
                    decreases descriptors@.len() - i,
                {
                    descriptors[i].encode_into(out);
                    proof {
                        let next = views.take(i + 1);
                        assert(next.drop_last() =~= views.take(i as int));
                        assert(next.last() == descriptors@[i as int]@);
                        assert(out@ =~= head + spec_encode_descriptors(next));
                    }
                    i += 1;
                }
                assert(views.take(i as int) =~= views);
                assert(out@ =~= old(out)@ + spec_encode_map(self@));
            },
        }
    }

    /// The wire form of the data map.
    pub fn encode(&self) -> (bytes: Vec<u8>)
        ensures
            bytes@ == spec_encode_map(self@),
    {
        let mut bytes: Vec<u8> = Vec::new();
        self.encode_into(&mut bytes);
        assert(Seq::<u8>::empty() + spec_encode_map(self@) =~= spec_encode_map(self@));
        bytes
    }

    /// Reads a data map off the wire. Bytes that are not exactly the wire
    /// form of a data map give `None`.
    pub fn decode(bytes: &[u8]) -> (map: Option<DataMap>)
        ensures
            match map {
                Some(m) => spec_parse_map(bytes@) == Some(m@),
                None => spec_parse_map(bytes@).is_none(),
            },
    {
        let tag: u32 = match get_u32(bytes, 0) {
            Some(tag) => tag,
            None => {
                return None;
            },
        };
        if tag == TAG_EMPTY {
            if bytes.len() == 4 {
                Some(DataMap::Empty)
            } else {
                None
            }
        } else if tag == TAG_CONTENT {
            let len: u64 = match get_u64(bytes, 4) {
                Some(len) => len,
                None => {
                    return None;
                },
            };
            if (bytes.len() - 12) as u64 != len {
                return None;
            }
            let content = copy_bytes(slice_subrange(bytes, 12, bytes.len()));
            Some(DataMap::Content(content))
        } else if tag == TAG_CHUNKS {
            let count: u64 = match get_u64(bytes, 4) {
                Some(count) => count,
                None => {
                    return None;
                },
            };
            let body_len: usize = bytes.len() - 12;
            if body_len % DESCRIPTOR_WIRE_LEN != 0 || (body_len / DESCRIPTOR_WIRE_LEN) as u64
                != count {
                return None;
            }
            let total: usize = body_len / DESCRIPTOR_WIRE_LEN;
            let ghost body = bytes@.subrange(12, bytes@.len() as int);
            let mut descriptors: Vec<ChunkDescriptor> = Vec::new();
            let mut i: usize = 0;
            while i < total
                invariant
                    i <= total,
                    bytes@.len() == 12 + 72 * total,
                    12 + 72 * total <= usize::MAX,
                    body == bytes@.subrange(12, bytes@.len() as int),
                    descriptors@.len() == i,
                    descriptors_view(descriptors@) =~= spec_parse_descriptors(body, i as nat),
                decreases total - i,
            {
                let at: usize = 12 + DESCRIPTOR_WIRE_LEN * i;
                let pre_hash = get_hash(bytes, at);
                let post_hash = get_hash(bytes, at + 32);
                let size: u64 = match get_u64(bytes, at + 64) {
                    Some(size) => size,
                    None => {
                        return None;
                    },
                };
                let descriptor = ChunkDescriptor { pre_hash, post_hash, size };
                proof {
                    let rel: int = 72 * i;
                    assert(body.subrange(rel, rel + 32) =~= bytes@.subrange(at as int, at + 32));
                    assert(body.subrange(rel + 32, rel + 64) =~= bytes@.subrange(
                        at + 32,
                        at + 64,
                    ));
                    assert(body.subrange(rel + 64, rel + 72) =~= bytes@.subrange(
                        at + 64,
                        at + 72,
                    ));
                    assert(descriptor@ == spec_descriptor_at(body, rel));
                }
                let ghost before = descriptors@;
                descriptors.push(descriptor);
                i += 1;
                proof {
                    let parsed = spec_parse_descriptors(body, i as nat);
                    assert forall|j: int| 0 <= j < i implies descriptors_view(descriptors@)[j]
                        == parsed[j] by {
                        if j + 1 < i {
                            assert(descriptors@[j] == before[j]);
                            assert(descriptors_view(before)[j] == spec_parse_descriptors(
                                body,
                                (i - 1) as nat,
                            )[j]);
                        }
                    }
                }
            }
            Some(DataMap::Chunks(descriptors))
        } else {
            None
        }
    }
}

impl DataMapLevel {
    /// The data map under the mark.
    pub fn map(&self) -> (map: &DataMap)
        ensures
            map@ == self@.map(),
    {
        match self {
            DataMapLevel::Root(map) => map,
            DataMapLevel::Child(map) => map,
        }
    }

    /// Whether this is the data map of the user's data.
    pub fn is_root(&self) -> (root: bool)
        ensures
            root == (self@ is Root),
    {
        match self {
            DataMapLevel::Root(_) => true,
            DataMapLevel::Child(_) => false,
        }
    }

    /// The wire form of the level.
    pub fn encode(&self) -> (bytes: Vec<u8>)
        ensures
            bytes@ == spec_encode_level(self@),
    {
        let mut bytes: Vec<u8> = Vec::new();
        match self {
            DataMapLevel::Root(map) => {
                put_u32(&mut bytes, TAG_ROOT);
                map.encode_into(&mut bytes);
            },
            DataMapLevel::Child(map) => {
                put_u32(&mut bytes, TAG_CHILD);
                map.encode_into(&mut bytes);
            },
        }
        assert(bytes@ =~= spec_encode_level(self@));
        bytes
    }

    /// Reads a level off the wire. Bytes that are not exactly the wire form
    /// of a level give `None`.
    pub fn decode(bytes: &[u8]) -> (level: Option<DataMapLevel>)
        ensures
            match level {
                Some(l) => spec_parse_level(bytes@) == Some(l@),
                None => spec_parse_level(bytes@).is_none(),
            },
    {
        let tag: u32 = match get_u32(bytes, 0) {
            Some(tag) => tag,
            None => {
                return None;
            },
        };
        if tag != TAG_ROOT && tag != TAG_CHILD {
            return None;
        }
        match DataMap::decode(slice_subrange(bytes, 4, bytes.len())) {
            Some(map) => {
                if tag == TAG_ROOT {
                    Some(DataMapLevel::Root(map))
                } else {
                    Some(DataMapLevel::Child(map))
                }
            },
            None => None,
        }
    }
}

/// Wire form of a descriptor: both hashes, then the size as 64 bits.
pub open spec fn spec_encode_descriptor(descriptor: DescriptorView) -> Seq<u8> {
    descriptor.pre_hash + descriptor.post_hash + spec_u64_le(descriptor.size)
}

/// Wire form of a run of descriptors, one after the other.
pub open spec fn spec_encode_descriptors(descriptors: Seq<DescriptorView>) -> Seq<u8>
    decreases descriptors.len(),
{
    if descriptors.len() == 0 {
        Seq::empty()
    } else {
        spec_encode_descriptors(descriptors.drop_last()) + spec_encode_descriptor(
            descriptors.last(),
        )
    }
}

/// Wire form of a data map: a 32-bit tag (0 empty, 1 content, 2 chunks),
/// then for content the length-prefixed bytes, for chunks the count as 64
/// bits and the descriptors.
pub open spec fn spec_encode_map(map: DataMapView) -> Seq<u8> {
    match map {
        DataMapView::Empty => spec_u32_le(TAG_EMPTY),
        DataMapView::Content(bytes) => spec_u32_le(TAG_CONTENT) + spec_u64_le(bytes.len() as u64)
            + bytes,
        DataMapView::Chunks(descriptors) => spec_u32_le(TAG_CHUNKS) + spec_u64_le(
            descriptors.len() as u64,
        ) + spec_encode_descriptors(descriptors),
    }
}

/// Wire form of a level: a 32-bit tag (0 root, 1 child), then the data map.
pub open spec fn spec_encode_level(level: LevelView) -> Seq<u8> {
    match level {
        LevelView::Root(map) => spec_u32_le(TAG_ROOT) + spec_encode_map(map),
        LevelView::Child(map) => spec_u32_le(TAG_CHILD) + spec_encode_map(map),
    }
}

/// The descriptor whose wire form starts at `pos`.
pub open spec fn spec_descriptor_at(bytes: Seq<u8>, pos: int) -> DescriptorView {
    DescriptorView {
        pre_hash: bytes.subrange(pos, pos + 32),
        post_hash: bytes.subrange(pos + 32, pos + 64),
        size: spec_u64_from_le_bytes(bytes.subrange(pos + 64, pos + 72)),
    }
}

/// The first `count` descriptors held in `body`.
pub open spec fn spec_parse_descriptors(body: Seq<u8>, count: nat) -> Seq<DescriptorView> {
    Seq::new(count, |i: int| spec_descriptor_at(body, 72 * i))
}

/// The data map that `bytes` is the wire form of, if any. Nothing may
/// follow the map.
pub open spec fn spec_parse_map(bytes: Seq<u8>) -> Option<DataMapView> {
    match spec_u32_at(bytes, 0) {
        Some(tag) => {
            if tag == TAG_EMPTY {
                if bytes.len() == 4 {
                    Some(DataMapView::Empty)
                } else {
                    None
                }
            } else if tag == TAG_CONTENT {
                match spec_u64_at(bytes, 4) {
                    Some(len) => if bytes.len() == 12 + len {
                        Some(DataMapView::Content(bytes.subrange(12, bytes.len() as int)))
                    } else {
                        None
                    },
                    None => None,
                }
            } else if tag == TAG_CHUNKS {
                match spec_u64_at(bytes, 4) {
                    Some(count) => if bytes.len() == 12 + 72 * count {
                        Some(
                            DataMapView::Chunks(
                                spec_parse_descriptors(
                                    bytes.subrange(12, bytes.len() as int),
                                    count as nat,
                                ),
                            ),
                        )
                    } else {
                        None
                    },
                    None => None,
                }
            } else {
                None
            }
        },
        None => None,
    }
}

/// The level that `bytes` is the wire form of, if any.
pub open spec fn spec_parse_level(bytes: Seq<u8>) -> Option<LevelView> {
    match spec_u32_at(bytes, 0) {
        Some(tag) => {
            if tag == TAG_ROOT {
                match spec_parse_map(bytes.subrange(4, bytes.len() as int)) {
                    Some(map) => Some(LevelView::Root(map)),
                    None => None,
                }
            } else if tag == TAG_CHILD {
                match spec_parse_map(bytes.subrange(4, bytes.len() as int)) {
                    Some(map) => Some(LevelView::Child(map)),
                    None => None,
                }
            } else {
                None
            }
        },
        None => None,
    }
}

/// A run of `n` descriptors takes `72 * n` bytes, and each descriptor can be
/// read back at its place.
pub proof fn lemma_descriptors_encoding(descriptors: Seq<DescriptorView>)
    requires
        forall|i: int| 0 <= i < descriptors.len() ==> (#[trigger] descriptors[i]).wf(),
    ensures
        spec_encode_descriptors(descriptors).len() == 72 * descriptors.len(),
        forall|i: int|
            0 <= i < descriptors.len() ==> #[trigger] spec_descriptor_at(
                spec_encode_descriptors(descriptors),
                72 * i,
            ) == descriptors[i],
        spec_parse_descriptors(spec_encode_descriptors(descriptors), descriptors.len())
            == descriptors,
    decreases descriptors.len(),
{
    let bytes = spec_encode_descriptors(descriptors);
    if descriptors.len() > 0 {
        let front = descriptors.drop_last();
        let last = descriptors.last();
        lemma_descriptors_encoding(front);
        let front_bytes = spec_encode_descriptors(front);
        lemma_u64_round_trip(last.size);
        assert(last.wf());
        assert forall|i: int| 0 <= i < descriptors.len() implies #[trigger] spec_descriptor_at(
            bytes,
            72 * i,
        ) == descriptors[i] by {
            if i < front.len() {
                let d = spec_descriptor_at(front_bytes, 72 * i);
                assert(d == front[i]);
                assert(bytes.subrange(72 * i, 72 * i + 32) =~= front_bytes.subrange(
                    72 * i,
                    72 * i + 32,
                ));
                assert(bytes.subrange(72 * i + 32, 72 * i + 64) =~= front_bytes.subrange(
                    72 * i + 32,
                    72 * i + 64,
                ));
                assert(bytes.subrange(72 * i + 64, 72 * i + 72) =~= front_bytes.subrange(
                    72 * i + 64,
                    72 * i + 72,
                ));
            } else {
                let at = 72 * i;
                assert(bytes.subrange(at, at + 32) =~= last.pre_hash);
                assert(bytes.subrange(at + 32, at + 64) =~= last.post_hash);
                assert(bytes.subrange(at + 64, at + 72) =~= spec_u64_le(last.size));
            }
        }
    }
    assert(spec_parse_descriptors(bytes, descriptors.len()) =~= descriptors);
}

/// The descriptors read from `body` encode to the bytes they were read
/// from.
pub proof fn lemma_descriptors_canonical(body: Seq<u8>, count: nat)
    requires
        72 * count <= body.len(),
    ensures
        spec_encode_descriptors(spec_parse_descriptors(body, count)) == body.subrange(
            0,
            72 * count as int,
        ),
        forall|i: int|
            0 <= i < count ==> (#[trigger] spec_parse_descriptors(body, count)[i]).wf(),
    decreases count,
{
    let parsed = spec_parse_descriptors(body, count);
    if count == 0 {
        assert(body.subrange(0, 0) =~= Seq::<u8>::empty());
    } else {
        let before = (count - 1) as nat;
        lemma_descriptors_canonical(body, before);
        assert(parsed.drop_last() =~= spec_parse_descriptors(body, before));
        let last = parsed.last();
        let at: int = 72 * (before as int);
        assert(last == spec_descriptor_at(body, at));
        lemma_u64_bytes_canonical(body.subrange(at + 64, at + 72));
        assert(spec_encode_descriptor(last) =~= body.subrange(at, at + 72));
        assert(body.subrange(0, at) + body.subrange(at, at + 72) =~= body.subrange(
            0,
            72 * count as int,
        ));
    }
}

/// A data map read back from its wire form is the map written.
pub proof fn lemma_map_round_trip(map: DataMapView)
    requires
        map.wf(),
    ensures
        spec_parse_map(spec_encode_map(map)) == Some(map),
{
    let bytes = spec_encode_map(map);
    match map {
        DataMapView::Empty => {
            lemma_u32_round_trip(TAG_EMPTY);
            assert(bytes.subrange(0, 4) =~= spec_u32_le(TAG_EMPTY));
        },
        DataMapView::Content(content) => {
            lemma_u32_round_trip(TAG_CONTENT);
            lemma_u64_round_trip(content.len() as u64);
            assert(bytes.subrange(0, 4) =~= spec_u32_le(TAG_CONTENT));
            assert(bytes.subrange(4, 12) =~= spec_u64_le(content.len() as u64));
            assert(bytes.subrange(12, bytes.len() as int) =~= content);
        },
        DataMapView::Chunks(descriptors) => {
            lemma_u32_round_trip(TAG_CHUNKS);
            lemma_u64_round_trip(descriptors.len() as u64);
            lemma_descriptors_encoding(descriptors);
            assert(bytes.subrange(0, 4) =~= spec_u32_le(TAG_CHUNKS));
            assert(bytes.subrange(4, 12) =~= spec_u64_le(descriptors.len() as u64));
            assert(bytes.subrange(12, bytes.len() as int) =~= spec_encode_descriptors(
                descriptors,
            ));
        },
    }
}

/// Bytes that read as a data map are the wire form of that map.
pub proof fn lemma_map_canonical(bytes: Seq<u8>)
    requires
        spec_parse_map(bytes).is_some(),
    ensures
        spec_parse_map(bytes).unwrap().wf(),
        spec_encode_map(spec_parse_map(bytes).unwrap()) == bytes,
{
    let map = spec_parse_map(bytes).unwrap();
    lemma_u32_bytes_canonical(bytes.subrange(0, 4));
    match map {
        DataMapView::Empty => {
            assert(spec_encode_map(map) =~= bytes);
        },
        DataMapView::Content(content) => {
            lemma_u64_bytes_canonical(bytes.subrange(4, 12));
            assert(spec_encode_map(map) =~= bytes);
        },
        DataMapView::Chunks(descriptors) => {
            let count = spec_u64_at(bytes, 4).unwrap();
            let body = bytes.subrange(12, bytes.len() as int);
            lemma_u64_bytes_canonical(bytes.subrange(4, 12));
            lemma_descriptors_canonical(body, count as nat);
            assert(body.subrange(0, 72 * count as int) =~= body);
            assert(spec_encode_map(map) =~= bytes);
        },
    }
}

/// A level read back from its wire form is the level written.
pub proof fn lemma_level_round_trip(level: LevelView)
    requires
        level.wf(),
    ensures
        spec_parse_level(spec_encode_level(level)) == Some(level),
{
    let bytes = spec_encode_level(level);
    lemma_map_round_trip(level.map());
    lemma_u32_round_trip(TAG_ROOT);
    lemma_u32_round_trip(TAG_CHILD);
    assert(bytes.subrange(4, bytes.len() as int) =~= spec_encode_map(level.map()));
    match level {
        LevelView::Root(_) => {
            assert(bytes.subrange(0, 4) =~= spec_u32_le(TAG_ROOT));
        },
        LevelView::Child(_) => {
            assert(bytes.subrange(0, 4) =~= spec_u32_le(TAG_CHILD));
        },
    }
}

/// Bytes that read as a level are the wire form of that level.
pub proof fn lemma_level_canonical(bytes: Seq<u8>)
    requires
        spec_parse_level(bytes).is_some(),
    ensures
        spec_parse_level(bytes).unwrap().wf(),
        spec_encode_level(spec_parse_level(bytes).unwrap()) == bytes,
{
    lemma_u32_bytes_canonical(bytes.subrange(0, 4));
    lemma_map_canonical(bytes.subrange(4, bytes.len() as int));
    assert(spec_encode_level(spec_parse_level(bytes).unwrap()) =~= bytes);
}

} // verus!
