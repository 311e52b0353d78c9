use safe_blob::address::BlobKind;
use safe_blob::blob::{Blob, MAX_BLOB_BYTES};
use safe_blob::error::{BlobError, StorageCause};
use safe_blob::store::{blob_eq, bytes_eq, MemoryStore};

#[test]
fn new_store_is_empty() {
    let store = MemoryStore::new();
    assert_eq!(store.chunk_count(), 0);
    assert_eq!(store.blob_count(), 0);
    assert!(store.get_chunk(BlobKind::Public, &[0u8; 32]).is_none());
}

#[test]
fn chunk_put_then_get() {
    let mut store = MemoryStore::new();
    store.put_chunk(BlobKind::Public, [1u8; 32], vec![1, 2, 3]).unwrap();
    assert_eq!(
        store.get_chunk(BlobKind::Public, &[1u8; 32]),
        Some(&vec![1, 2, 3])
    );
    assert!(store.has_chunk(BlobKind::Public, &[1u8; 32]));
    assert!(!store.has_chunk(BlobKind::Private, &[1u8; 32]));
    assert!(store.get_chunk(BlobKind::Private, &[1u8; 32]).is_none());
    assert!(store.get_chunk(BlobKind::Public, &[2u8; 32]).is_none());
    assert_eq!(store.chunk_count(), 1);
}

#[test]
fn chunk_put_is_idempotent() {
    let mut store = MemoryStore::new();
    store.put_chunk(BlobKind::Private, [1u8; 32], vec![4, 5]).unwrap();
    store.put_chunk(BlobKind::Private, [1u8; 32], vec![4, 5]).unwrap();
    assert_eq!(store.chunk_count(), 1);
}

#[test]
fn other_bytes_under_a_taken_hash_are_a_conflict() {
    let mut store = MemoryStore::new();
    store.put_chunk(BlobKind::Public, [1u8; 32], vec![4, 5]).unwrap();
    let refused = store.put_chunk(BlobKind::Public, [1u8; 32], vec![4, 6]);
    assert_eq!(
        refused,
        Err(BlobError::StorageFailure {
            hashes: vec![[1u8; 32]],
            cause: StorageCause::Conflict
        })
    );
    assert_eq!(
        store.get_chunk(BlobKind::Public, &[1u8; 32]),
        Some(&vec![4, 5])
    );
    store.put_chunk(BlobKind::Private, [1u8; 32], vec![4, 6]).unwrap();
    assert_eq!(store.chunk_count(), 2);
}

#[test]
fn deleting_a_chunk_removes_it_and_only_it() {
    let mut store = MemoryStore::new();
    store.put_chunk(BlobKind::Private, [1u8; 32], vec![1]).unwrap();
    store.put_chunk(BlobKind::Private, [2u8; 32], vec![2]).unwrap();
    store.put_chunk(BlobKind::Public, [1u8; 32], vec![3]).unwrap();
    store.delete_chunk(BlobKind::Private, &[1u8; 32]);
    assert!(store.get_chunk(BlobKind::Private, &[1u8; 32]).is_none());
    assert_eq!(store.get_chunk(BlobKind::Private, &[2u8; 32]), Some(&vec![2]));
    assert_eq!(store.get_chunk(BlobKind::Public, &[1u8; 32]), Some(&vec![3]));
    store.delete_chunk(BlobKind::Private, &[1u8; 32]);
    assert_eq!(store.chunk_count(), 2);
}

#[test]
fn blob_is_stored_at_its_own_address() {
    let mut store = MemoryStore::new();
    let blob = Blob::new_public(vec![1, 2, 3]);
    let address = store.put_blob(blob.clone()).unwrap();
    assert_eq!(address, blob.address());
    assert_eq!(store.get_blob(&address), Some(&blob));
    assert_eq!(store.put_blob(blob.clone()), Ok(address));
    assert_eq!(store.blob_count(), 1);
    assert!(store.delete_blob(&address));
    assert!(!store.delete_blob(&address));
    assert_eq!(store.get_blob(&address), None);
}

#[test]
fn oversized_blob_is_refused() {
    let mut store = MemoryStore::new();
    let refused = store.put_blob(Blob::new_public(vec![0u8; MAX_BLOB_BYTES]));
    assert_eq!(refused, Err(BlobError::SizeExceeded));
    assert_eq!(store.blob_count(), 0);
}

#[test]
fn equality_helpers() {
    assert!(bytes_eq(&[1, 2], &[1, 2]));
    assert!(!bytes_eq(&[1, 2], &[1, 3]));
    assert!(!bytes_eq(&[1, 2], &[1, 2, 3]));
    assert!(bytes_eq(&[], &[]));
    assert!(blob_eq(&Blob::new_public(vec![1]), &Blob::new_public(vec![1])));
    assert!(!blob_eq(
        &Blob::new_public(vec![1]),
        &Blob::new_private(vec![1], vec![])
    ));
    assert!(!blob_eq(
        &Blob::new_private(vec![1], vec![1]),
        &Blob::new_private(vec![1], vec![2])
    ));
}
