//! What can go wrong in the blob pipeline.

use crate::address::BlobAddress;
use vstd::prelude::*;

verus! {

/// Why the store refused or failed an operation.
#[derive(Clone, Copy, Debug, PartialEq, Eq)]
pub enum StorageCause {
    /// Other bytes are already stored under the same hash.
    Conflict,
    /// The request did not get through, or the answer made no sense.
    Transport,
    /// The deadline of a request passed.
    Timeout,
    /// The store has no room left.
    Full,
    /// The store did not accept the requester's authority.
    Unauthorised,
    /// Some chunks could not be removed.
    Undeleted,
}

/// Failure of a blob operation.
#[derive(Clone, Debug, PartialEq, Eq)]
pub enum BlobError {
    /// The address, or a chunk its data maps refer to, does not resolve.
    /// Carries the address the caller asked for.
    NotFound { address: BlobAddress },
    /// Fetched bytes disagree with their descriptor, or a level does not
    /// decode.
    IntegrityFailure,
    /// The store failed; `hashes` names the chunks concerned.
    StorageFailure { hashes: Vec<[u8; 32]>, cause: StorageCause },
    /// Deleting a public blob, or a private one without being its owner.
    Forbidden,
    /// Packing did not bring a blob under the size limit.
    SizeExceeded,
    /// The balance did not cover a write.
    PaymentFailure,
    /// The cipher failed on a chunk.
    CipherFailure,
}

/// An [`BlobError`] as contracts see it.
pub enum ErrorView {
    NotFound { address: (crate::address::BlobKind, Seq<u8>) },
    IntegrityFailure,
    StorageFailure { hashes: Seq<Seq<u8>>, cause: StorageCause },
    Forbidden,
    SizeExceeded,
    PaymentFailure,
    CipherFailure,
}

impl View for BlobError {
    type V = ErrorView;

    open spec fn view(&self) -> ErrorView {
        match *self {
            BlobError::NotFound { address } => ErrorView::NotFound { address: address@ },
            BlobError::IntegrityFailure => ErrorView::IntegrityFailure,
            BlobError::StorageFailure { hashes, cause } => ErrorView::StorageFailure {
                hashes: hashes@.map_values(|h: [u8; 32]| h@),
                cause,
            },
            BlobError::Forbidden => ErrorView::Forbidden,
            BlobError::SizeExceeded => ErrorView::SizeExceeded,
            BlobError::PaymentFailure => ErrorView::PaymentFailure,
            BlobError::CipherFailure => ErrorView::CipherFailure,
        }
    }
}

} // verus!
