//! Blob kinds and network addresses.

use crate::digest::hash_eq;
use vstd::prelude::*;

verus! {

/// Length of an address on the wire: one kind tag, then the hash.
pub const ADDRESS_WIRE_LEN: usize = 33;

/// The two namespaces a blob can live in.
#[derive(Clone, Copy, Debug, PartialEq, Eq, Hash)]
pub enum BlobKind {
    /// World-readable, append-only, addressed by content alone.
    Public,
    /// Bound to an owner, deletable, addressed by content and owner.
    Private,
}

/// A network address: the kind of the blob and its content hash.
///
/// The two stay separate fields, so that addresses of different kinds never
/// alias even when their hashes coincide.
#[derive(Clone, Copy, Debug, PartialEq, Eq, Hash)]
pub struct BlobAddress {
    /// Namespace of the blob.
    pub kind: BlobKind,
    /// Content hash of the blob.
    pub hash: [u8; 32],
}

impl BlobKind {
    /// The kind tag on the wire.
    pub open spec fn spec_tag(self) -> u8 {
        match self {
            BlobKind::Public => 0u8,
            BlobKind::Private => 1u8,
        }
    }

    /// Kind that a `public` flag stands for.
    pub fn from_flag(public: bool) -> (kind: BlobKind)
        ensures
            kind == spec_kind_of_flag(public),
    {
        if public {
            BlobKind::Public
        } else {
            BlobKind::Private
        }
    }

    /// Whether this is the public kind.
    pub fn is_public(self) -> (public: bool)
        ensures
            public == (self == BlobKind::Public),
    {
        match self {
            BlobKind::Public => true,
            BlobKind::Private => false,
        }
    }

    /// Whether this is the private kind.
    pub fn is_private(self) -> (private: bool)
        ensures
            private == (self == BlobKind::Private),
    {
        !self.is_public()
    }

    /// The kind tag on the wire: `0x00` public, `0x01` private.
    pub fn tag(self) -> (tag: u8)
        ensures
            tag == self.spec_tag(),
    {
        match self {
            BlobKind::Public => 0u8,
            BlobKind::Private => 1u8,
        }
    }

    /// The kind a wire tag stands for, if any.
    pub fn from_tag(tag: u8) -> (kind: Option<BlobKind>)
        ensures
            kind == spec_kind_of_tag(tag),
    {
        if tag == 0u8 {
            Some(BlobKind::Public)
        } else if tag == 1u8 {
            Some(BlobKind::Private)
        } else {
            None
        }
    }

    /// Whether two kinds are the same.
    pub fn same(self, other: BlobKind) -> (same: bool)
        ensures
            same == (self == other),
    {
        self.is_public() == other.is_public()
    }
}

/// Kind that a `public` flag stands for: the public kind where it is set,
/// the private kind where it is not.
pub open spec fn spec_kind_of_flag(public: bool) -> BlobKind {
    if public {
        BlobKind::Public
    } else {
        BlobKind::Private
    }
}

/// The kind a wire tag stands for, if any.
pub open spec fn spec_kind_of_tag(tag: u8) -> Option<BlobKind> {
    if tag == 0u8 {
        Some(BlobKind::Public)
    } else if tag == 1u8 {
        Some(BlobKind::Private)
    } else {
        None
    }
}

impl View for BlobAddress {
    type V = (BlobKind, Seq<u8>);

    open spec fn view(&self) -> (BlobKind, Seq<u8>) {
        (self.kind, self.hash@)
    }
}

/// Wire form of an address: the kind tag, then the 32 bytes of the hash.
pub open spec fn spec_encode_address(address: BlobAddress) -> Seq<u8> {
    seq![address.kind.spec_tag()] + address.hash@
}

/// The address that `bytes` is the wire form of, if any.
pub open spec fn spec_decode_address(bytes: Seq<u8>) -> Option<(BlobKind, Seq<u8>)> {
    if bytes.len() == ADDRESS_WIRE_LEN {
        match spec_kind_of_tag(bytes[0]) {
            Some(kind) => Some((kind, bytes.subrange(1, 33))),
            None => None,
        }
    } else {
        None
    }
}

impl BlobAddress {
    /// Address of the given kind and hash.
    pub fn from_kind(kind: BlobKind, hash: [u8; 32]) -> (address: BlobAddress)
        ensures
            address.kind == kind,
            address.hash == hash,
    {
        BlobAddress { kind, hash }
    }

    /// The kind of blob addressed.
    pub fn kind(&self) -> (kind: BlobKind)
        ensures
            kind == self.kind,
    {
        self.kind
    }

    /// The content hash.
    pub fn name(&self) -> (hash: &[u8; 32])
        ensures
            *hash == self.hash,
    {
        &self.hash
    }

    /// Whether a public blob is addressed.
    pub fn is_public(&self) -> (public: bool)
        ensures
            public == (self.kind == BlobKind::Public),
    {
        self.kind.is_public()
    }

    /// Whether a private blob is addressed.
    pub fn is_private(&self) -> (private: bool)
        ensures
            private == (self.kind == BlobKind::Private),
    {
        self.kind.is_private()
    }

    /// Whether two addresses have the same kind and the same hash.
    pub fn same(&self, other: &BlobAddress) -> (same: bool)
        ensures
            same == (self@ == other@),
    {
        self.kind.same(other.kind) && hash_eq(&self.hash, &other.hash)
    }

    /// The address on the wire.
    pub fn to_bytes(&self) -> (bytes: Vec<u8>)
        ensures
            bytes@ == spec_encode_address(*self),
            bytes@.len() == ADDRESS_WIRE_LEN,
    {
        let mut bytes: Vec<u8> = Vec::new();
        bytes.push(self.kind.tag());
        let mut i: usize = 0;
        while i < 32
            invariant
                i <= 32,
                bytes@ == seq![self.kind.spec_tag()] + self.hash@.take(i as int),
            decreases 32 - i,
        {
            bytes.push(self.hash[i]);
            assert(self.hash@.take(i + 1) =~= self.hash@.take(i as int).push(self.hash@[i as int]));
            i += 1;
        }
        assert(self.hash@.take(32) =~= self.hash@);
        bytes
    }

    /// Reads an address off the wire. Bytes of another length, or with an
    /// unknown kind tag, are no address.
    pub fn from_bytes(bytes: &[u8]) -> (address: Option<BlobAddress>)
        ensures
            match address {
                Some(a) => spec_decode_address(bytes@) == Some(a@),
                None => spec_decode_address(bytes@).is_none(),
            },
    {
        if bytes.len() != ADDRESS_WIRE_LEN {
            return None;
        }
        match BlobKind::from_tag(bytes[0]) {
            Some(kind) => {
                let hash = crate::wire::get_hash(bytes, 1);
                Some(BlobAddress { kind, hash })
            },
            None => None,
        }
    }
}

/// An address read back from its wire form is the address written.
pub proof fn lemma_address_round_trip(address: BlobAddress)
    ensures
        spec_decode_address(spec_encode_address(address)) == Some(address@),
{
    let bytes = spec_encode_address(address);
    assert(bytes.subrange(1, 33) =~= address.hash@);
}

/// Bytes that read as an address are the wire form of that address.
pub proof fn lemma_address_wire_canonical(bytes: Seq<u8>, address: BlobAddress)
    requires
        spec_decode_address(bytes) == Some(address@),
    ensures
        spec_encode_address(address) == bytes,
{
    assert(spec_encode_address(address) =~= bytes);
}

/// Addresses of different kinds differ, whatever their hashes.
pub proof fn lemma_kinds_never_alias(a: BlobAddress, b: BlobAddress)
    requires
        a.kind != b.kind,
    ensures
        a@ != b@,
        spec_encode_address(a) != spec_encode_address(b),
{
    assert(spec_encode_address(a)[0] != spec_encode_address(b)[0]);
}

} // verus!
