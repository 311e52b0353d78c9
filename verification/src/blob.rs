//! Blobs: the unit stored on the network, its address, its size rule and
//! its wire encoding.

use crate::address::{spec_kind_of_tag, BlobAddress, BlobKind};
use crate::digest::{sha3_256_of_parts, spec_sha3_256};
use crate::wire::{
    append_bytes, copy_bytes, get_u64, lemma_u64_bytes_canonical, lemma_u64_round_trip, put_u64,
    spec_u64_at, spec_u64_le,
};
use vstd::prelude::*;
use vstd::slice::slice_subrange;

verus! {

/// Largest wire form of a blob that the network stores.
pub const MAX_BLOB_BYTES: usize = 1048576;

/// A payload with what binds it to its namespace.
#[derive(Clone, Debug, PartialEq, Eq)]
pub enum Blob {
    /// World-readable; addressed by the hash of the payload.
    Public { payload: Vec<u8> },
    /// Bound to an owner; addressed by the hash of the payload followed by
    /// the owner's key bytes.
    Private { payload: Vec<u8>, owner: Vec<u8> },
}

/// A [`Blob`] as contracts see it.
pub enum BlobView {
    Public { payload: Seq<u8> },
    Private { payload: Seq<u8>, owner: Seq<u8> },
}

impl View for Blob {
    type V = BlobView;

    open spec fn view(&self) -> BlobView {
        match self {
            Blob::Public { payload } => BlobView::Public { payload: payload@ },
            Blob::Private { payload, owner } => BlobView::Private {
                payload: payload@,
                owner: owner@,
            },
        }
    }
}

/// The blob of the kind that `owner` selects: private when there is an
/// owner, public when there is none.
pub open spec fn spec_blob(payload: Seq<u8>, owner: Option<Seq<u8>>) -> BlobView {
    match owner {
        Some(owner) => BlobView::Private { payload, owner },
        None => BlobView::Public { payload },
    }
}

impl BlobView {
    /// The namespace of the blob.
    pub open spec fn kind(self) -> BlobKind {
        match self {
            BlobView::Public { .. } => BlobKind::Public,
            BlobView::Private { .. } => BlobKind::Private,
        }
    }

    /// The payload.
    pub open spec fn payload(self) -> Seq<u8> {
        match self {
            BlobView::Public { payload } => payload,
            BlobView::Private { payload, .. } => payload,
        }
    }

    /// The owner's key bytes, for a private blob.
    pub open spec fn owner(self) -> Option<Seq<u8>> {
        match self {
            BlobView::Public { .. } => None,
            BlobView::Private { owner, .. } => Some(owner),
        }
    }

    /// The address: the kind, and the hash of the payload, for a private
    /// blob followed by the owner's key bytes.
    pub open spec fn address(self) -> (BlobKind, Seq<u8>) {
        match self {
            BlobView::Public { payload } => (BlobKind::Public, spec_sha3_256(payload)),
            BlobView::Private { payload, owner } => (
                BlobKind::Private,
                spec_sha3_256(payload + owner),
            ),
        }
    }

    /// Length of the wire form.
    pub open spec fn wire_len(self) -> nat {
        match self {
            BlobView::Public { payload } => 9 + payload.len(),
            BlobView::Private { payload, owner } => 17 + payload.len() + owner.len(),
        }
    }

    /// The blob is small enough for the network.
    pub open spec fn valid_size(self) -> bool {
        self.wire_len() <= MAX_BLOB_BYTES
    }

    /// Lengths fit the wire.
    pub open spec fn wf(self) -> bool {
        match self {
            BlobView::Public { payload } => payload.len() <= u64::MAX,
            BlobView::Private { payload, owner } => payload.len() <= u64::MAX && owner.len()
                <= u64::MAX,
        }
    }
}

/// Wire form of a blob: the kind tag, the length-prefixed payload and, for a
/// private blob, the length-prefixed owner key. The address is left out:
/// it follows from the rest.
pub open spec fn spec_encode_blob(blob: BlobView) -> Seq<u8> {
    match blob {
        BlobView::Public { payload } => seq![BlobKind::Public.spec_tag()] + spec_u64_le(
            payload.len() as u64,
        ) + payload,
        BlobView::Private { payload, owner } => seq![BlobKind::Private.spec_tag()] + spec_u64_le(
            payload.len() as u64,
        ) + payload + spec_u64_le(owner.len() as u64) + owner,
    }
}

/// The blob that `bytes` is the wire form of, if any. Nothing may follow
/// the blob.
pub open spec fn spec_parse_blob(bytes: Seq<u8>) -> Option<BlobView> {
    if bytes.len() < 9 {
        None
    } else {
        let len = spec_u64_at(bytes, 1).unwrap();
        match spec_kind_of_tag(bytes[0]) {
            Some(BlobKind::Public) => if bytes.len() == 9 + len {
                Some(BlobView::Public { payload: bytes.subrange(9, 9 + len) })
            } else {
                None
            },
            Some(BlobKind::Private) => if bytes.len() >= 17 + len {
                let owner_len = spec_u64_at(bytes, 9 + len).unwrap();
                if bytes.len() == 17 + len + owner_len {
                    Some(
                        BlobView::Private {
                            payload: bytes.subrange(9, 9 + len),
                            owner: bytes.subrange(17 + len, 17 + len + owner_len),
                        },
                    )
                } else {
                    None
                }
            } else {
                None
            },
            None => None,
        }
    }
}

/// The wire form of a blob has the length that `wire_len` gives.
pub proof fn lemma_blob_wire_len(blob: BlobView)
    ensures
        spec_encode_blob(blob).len() == blob.wire_len(),
{
    lemma_u64_round_trip(blob.payload().len() as u64);
    match blob {
        BlobView::Public { .. } => {},
        BlobView::Private { owner, .. } => {
            lemma_u64_round_trip(owner.len() as u64);
        },
    }
}

/// A blob read back from its wire form is the blob written.
pub proof fn lemma_blob_round_trip(blob: BlobView)
    requires
        blob.wf(),
    ensures
        spec_parse_blob(spec_encode_blob(blob)) == Some(blob),
{
    let bytes = spec_encode_blob(blob);
    lemma_blob_wire_len(blob);
    match blob {
        BlobView::Public { payload } => {
            let len = payload.len() as u64;
            lemma_u64_round_trip(len);
            assert(bytes.subrange(1, 9) =~= spec_u64_le(len));
            assert(bytes.subrange(9, 9 + len) =~= payload);
        },
        BlobView::Private { payload, owner } => {
            let len = payload.len() as u64;
            let owner_len = owner.len() as u64;
            lemma_u64_round_trip(len);
            lemma_u64_round_trip(owner_len);
            assert(bytes.subrange(1, 9) =~= spec_u64_le(len));
            assert(bytes.subrange(9, 9 + len) =~= payload);
            assert(bytes.subrange(9 + len, 9 + len + 8) =~= spec_u64_le(owner_len));
            assert(bytes.subrange(17 + len, 17 + len + owner_len) =~= owner);
        },
    }
}

/// Bytes that read as a blob are the wire form of that blob.
pub proof fn lemma_blob_canonical(bytes: Seq<u8>)
    requires
        spec_parse_blob(bytes).is_some(),
    ensures
        spec_parse_blob(bytes).unwrap().wf(),
        spec_encode_blob(spec_parse_blob(bytes).unwrap()) == bytes,
{
    let blob = spec_parse_blob(bytes).unwrap();
    let len = spec_u64_at(bytes, 1).unwrap();
    lemma_u64_bytes_canonical(bytes.subrange(1, 9));
    match blob {
        BlobView::Public { .. } => {
            assert(spec_encode_blob(blob) =~= bytes);
        },
        BlobView::Private { .. } => {
            lemma_u64_bytes_canonical(bytes.subrange(9 + len, 9 + len + 8));
            assert(spec_encode_blob(blob) =~= bytes);
        },
    }
}

impl Blob {
    /// The view of a blob is always well formed.
    pub proof fn lemma_view_wf(&self)
        ensures
            self@.wf(),
    {
        match self {
            Blob::Public { payload } => {
                assert(payload@.len() == payload.len());
            },
            Blob::Private { payload, owner } => {
                assert(payload@.len() == payload.len());
                assert(owner@.len() == owner.len());
            },
        }
    }

    /// A public blob around `payload`.
    pub fn new_public(payload: Vec<u8>) -> (blob: Blob)
        ensures
            blob@ == (BlobView::Public { payload: payload@ }),
    {
        Blob::Public { payload }
    }

    /// A private blob around `payload`, bound to `owner`.
    pub fn new_private(payload: Vec<u8>, owner: Vec<u8>) -> (blob: Blob)
        ensures
            blob@ == (BlobView::Private { payload: payload@, owner: owner@ }),
    {
        Blob::Private { payload, owner }
    }

    /// The blob around `payload` of the kind that `owner` selects.
    pub fn new(payload: Vec<u8>, owner: &Option<Vec<u8>>) -> (blob: Blob)
        ensures
            blob@ == spec_blob(payload@, owner_view(*owner)),
    {
        match owner {
            Some(owner) => Blob::Private { payload, owner: copy_bytes(owner.as_slice()) },
            None => Blob::Public { payload },
        }
    }

    /// A copy of the blob.
    pub fn duplicate(&self) -> (copy: Blob)
        ensures
            copy@ == self@,
    {
        match self {
            Blob::Public { payload } => Blob::Public { payload: copy_bytes(payload.as_slice()) },
            Blob::Private { payload, owner } => Blob::Private {
                payload: copy_bytes(payload.as_slice()),
                owner: copy_bytes(owner.as_slice()),
            },
        }
    }

    /// The namespace of the blob.
    pub fn kind(&self) -> (kind: BlobKind)
        ensures
            kind == self@.kind(),
    {
        match self {
            Blob::Public { .. } => BlobKind::Public,
            Blob::Private { .. } => BlobKind::Private,
        }
    }

    /// Whether the blob is public.
    pub fn is_public(&self) -> (public: bool)
        ensures
            public == (self@.kind() == BlobKind::Public),
    {
        self.kind().is_public()
    }

    /// Whether the blob is private.
    pub fn is_private(&self) -> (private: bool)
        ensures
            private == (self@.kind() == BlobKind::Private),
    {
        self.kind().is_private()
    }

    /// The payload.
    pub fn value(&self) -> (payload: &Vec<u8>)
        ensures
            payload@ == self@.payload(),
    {
        match self {
            Blob::Public { payload } => payload,
            Blob::Private { payload, .. } => payload,
        }
    }

    /// The owner's key bytes, for a private blob.
    pub fn owner(&self) -> (owner: Option<&Vec<u8>>)
        ensures
            match owner {
                Some(o) => self@.owner() == Some(o@),
                None => self@.owner().is_none(),
            },
    {
        match self {
            Blob::Public { .. } => None,
            Blob::Private { owner, .. } => Some(owner),
        }
    }

    /// Whether the blob is private and bound to the key `owner`.
    pub fn is_owned_by(&self, owner: &[u8]) -> (owned: bool)
        ensures
            owned == (self@.owner() == Some(owner@)),
    {
        match self {
            Blob::Public { .. } => false,
            Blob::Private { owner: bound, .. } => crate::store::bytes_eq(bound.as_slice(), owner),
        }
    }

    /// The address of the blob. The same payload (and, for a private blob,
    /// the same owner) always gives the same address.
    pub fn address(&self) -> (address: BlobAddress)
        ensures
            address@ == self@.address(),
    {
        match self {
            Blob::Public { payload } => {
                let empty: Vec<u8> = Vec::new();
                let hash = sha3_256_of_parts(payload.as_slice(), empty.as_slice());
                assert(payload@ + empty@ =~= payload@);
                BlobAddress { kind: BlobKind::Public, hash }
            },
            Blob::Private { payload, owner } => {
                let hash = sha3_256_of_parts(payload.as_slice(), owner.as_slice());
                BlobAddress { kind: BlobKind::Private, hash }
            },
        }
    }

    /// The content hash under which the blob is addressed.
    pub fn name(&self) -> (hash: [u8; 32])
        ensures
            hash@ == self@.address().1,
    {
        self.address().hash
    }

    /// Length of the payload.
    pub fn payload_size(&self) -> (size: usize)
        ensures
            size == self@.payload().len(),
    {
        self.value().len()
    }

    /// Length of the wire form, capped at `u64::MAX`.
    pub fn serialised_size(&self) -> (size: u64)
        ensures
            size == (if self@.wire_len() <= u64::MAX {
                self@.wire_len()
            } else {
                u64::MAX as nat
            }),
    {
        match self {
            Blob::Public { payload } => (payload.len() as u64).saturating_add(9),
            Blob::Private { payload, owner } => (payload.len() as u64).saturating_add(
                owner.len() as u64,
            ).saturating_add(17),
        }
    }

    /// Whether the blob is small enough for the network: its wire form has
    /// at most `MAX_BLOB_BYTES` bytes.
    pub fn validate_size(&self) -> (valid: bool)
        ensures
            valid == self@.valid_size(),
    {
        self.serialised_size() <= MAX_BLOB_BYTES as u64
    }

    /// The wire form of the blob.
    pub fn encode(&self) -> (bytes: Vec<u8>)
        ensures
            bytes@ == spec_encode_blob(self@),
    {
        let mut bytes: Vec<u8> = Vec::new();
        bytes.push(self.kind().tag());
        put_u64(&mut bytes, self.value().len() as u64);
        append_bytes(&mut bytes, self.value().as_slice());
        match self {
            Blob::Public { .. } => {},
            Blob::Private { owner, .. } => {
                put_u64(&mut bytes, owner.len() as u64);
                append_bytes(&mut bytes, owner.as_slice());
            },
        }
        assert(bytes@ =~= spec_encode_blob(self@));
        bytes
    }

    /// Reads a blob off the wire. Bytes that are not exactly the wire form
    /// of a blob give `None`.
    pub fn decode(bytes: &[u8]) -> (blob: Option<Blob>)
        ensures
            match blob {
                Some(b) => spec_parse_blob(bytes@) == Some(b@),
                None => spec_parse_blob(bytes@).is_none(),
            },
    {
        if bytes.len() < 9 {
            return None;
        }
        let kind = match BlobKind::from_tag(bytes[0]) {
            Some(kind) => kind,
            None => {
                return None;
            },
        };
        let len: u64 = match get_u64(bytes, 1) {
            Some(len) => len,
            None => {
                return None;
            },
        };
        let rest: usize = bytes.len() - 9;
        match kind {
            BlobKind::Public => {
                if rest as u64 != len {
                    return None;
                }
                let payload = copy_bytes(slice_subrange(bytes, 9, bytes.len()));
                Some(Blob::Public { payload })
            },
            BlobKind::Private => {
                if (rest as u64) < len || rest as u64 - len < 8 {
                    return None;
                }
                let owner_at: usize = 9 + len as usize;
                let owner_len: u64 = match get_u64(bytes, owner_at) {
                    Some(owner_len) => owner_len,
                    None => {
                        return None;
                    },
                };
                if (bytes.len() - owner_at - 8) as u64 != owner_len {
                    return None;
                }
                let payload = copy_bytes(slice_subrange(bytes, 9, owner_at));
                let owner = copy_bytes(slice_subrange(bytes, owner_at + 8, bytes.len()));
                Some(Blob::Private { payload, owner })
            },
        }
    }
}

/// The view of an optional owner key.
pub open spec fn owner_view(owner: Option<Vec<u8>>) -> Option<Seq<u8>> {
    match owner {
        Some(owner) => Some(owner@),
        None => None,
    }
}

} // verus!
