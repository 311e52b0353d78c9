use rand::RngCore;
use safe_blob::address::BlobKind;
use safe_blob::blob::{Blob, MAX_BLOB_BYTES};
use safe_blob::client::commit_chunks;
use safe_blob::data_map::{DataMap, DataMapLevel};
use safe_blob::error::BlobError;
use safe_blob::levels::PACK_FANOUT;
use safe_blob::packer::{pack, peel, reassemble, unpack, Peel, MAX_DEPTH};
use safe_blob::store::MemoryStore;

fn random_bytes(len: usize) -> Vec<u8> {
    let mut bytes = vec![0u8; len];
    rand::thread_rng().fill_bytes(&mut bytes);
    bytes
}

fn root_level(len: usize) -> (DataMap, Vec<u8>) {
    let map = DataMap::Content(random_bytes(len));
    let payload = DataMapLevel::Root(map.clone()).encode();
    (map, payload)
}

#[test]
fn a_small_level_is_wrapped_as_it_is() {
    let (map, payload) = root_level(100);
    let packed = pack(payload.clone(), &None).unwrap();
    assert_eq!(packed.levels, 0);
    assert!(packed.chunks.is_empty());
    assert_eq!(packed.blob, Blob::new_public(payload));
    assert_eq!(unpack(&MemoryStore::new(), &packed.blob), Ok(map));
}

#[test]
fn the_largest_payload_that_fits_adds_no_level() {
    let payload = random_bytes(MAX_BLOB_BYTES - 9);
    let packed = pack(payload.clone(), &None).unwrap();
    assert_eq!(packed.levels, 0);
    assert_eq!(packed.blob, Blob::new_public(payload));
}

#[test]
fn one_byte_more_forces_one_child_level() {
    let (map, payload) = root_level(MAX_BLOB_BYTES - 9 - 16 + 1);
    assert_eq!(payload.len(), MAX_BLOB_BYTES - 8);
    let packed = pack(payload, &None).unwrap();
    assert_eq!(packed.levels, 1);
    assert_eq!(packed.chunks.len(), 3);
    assert!(packed.blob.validate_size());
    assert_eq!(packed.blob.value().len(), 16 + 3 * 72);
    match DataMapLevel::decode(packed.blob.value()) {
        Some(DataMapLevel::Child(DataMap::Chunks(descriptors))) => {
            assert_eq!(descriptors.len(), 3);
            let total: u64 = descriptors.iter().map(|d| d.size).sum();
            assert_eq!(total as usize, MAX_BLOB_BYTES + 1);
        }
        other => panic!("expected a child level of chunks, got {:?}", other),
    }

    let mut store = MemoryStore::new();
    assert_eq!(
        unpack(&store, &packed.blob).map_err(|e| matches!(e, BlobError::NotFound { .. })),
        Err(true)
    );
    commit_chunks(&mut store, BlobKind::Public, &packed.chunks).unwrap();
    assert_eq!(unpack(&store, &packed.blob), Ok(map));
}

#[test]
fn a_large_owner_key_forces_two_child_levels() {
    let owner = vec![7u8; MAX_BLOB_BYTES - 17 - 232];
    let (map, payload) = root_level(3 * 1024 * 1024);
    let packed = pack(payload, &Some(owner.clone())).unwrap();
    assert_eq!(packed.levels, 2);
    assert_eq!(packed.chunks.len(), 4 + 3);
    assert!(packed.blob.validate_size());
    assert_eq!(packed.blob.serialised_size(), MAX_BLOB_BYTES as u64);
    assert_eq!(packed.blob.owner(), Some(&owner));

    let mut store = MemoryStore::new();
    commit_chunks(&mut store, BlobKind::Private, &packed.chunks).unwrap();
    assert_eq!(unpack(&store, &packed.blob), Ok(map));
}

#[test]
fn an_owner_key_that_fills_the_blob_cannot_be_packed() {
    let owner = vec![7u8; MAX_BLOB_BYTES];
    let (_, payload) = root_level(10);
    assert_eq!(
        pack(payload, &Some(owner)).map(|packed| packed.levels),
        Err(BlobError::SizeExceeded)
    );
}

#[test]
fn unpacking_refuses_what_is_no_level() {
    let store = MemoryStore::new();
    assert_eq!(
        unpack(&store, &Blob::new_public(vec![1, 2, 3])),
        Err(BlobError::IntegrityFailure)
    );
    assert_eq!(
        unpack(&store, &Blob::new_public(Vec::new())),
        Err(BlobError::IntegrityFailure)
    );
    let child_of_garbage = DataMapLevel::Child(DataMap::Content(vec![9, 9, 9])).encode();
    assert_eq!(
        unpack(&store, &Blob::new_public(child_of_garbage)),
        Err(BlobError::IntegrityFailure)
    );
}

fn nested(levels: usize) -> (DataMap, Blob) {
    let map = DataMap::Content(vec![1, 2, 3]);
    let mut blob = Blob::new_public(DataMapLevel::Root(map.clone()).encode());
    for _ in 0..levels {
        let child = DataMapLevel::Child(DataMap::Content(blob.encode()));
        blob = Blob::new_public(child.encode());
    }
    (map, blob)
}

#[test]
fn unpacking_peels_up_to_the_depth_limit() {
    let store = MemoryStore::new();
    let (map, blob) = nested(MAX_DEPTH);
    assert_eq!(unpack(&store, &blob), Ok(map));
}

#[test]
fn unpacking_gives_up_beyond_the_depth_limit() {
    let store = MemoryStore::new();
    let (_, blob) = nested(MAX_DEPTH + 1);
    assert_eq!(unpack(&store, &blob), Err(BlobError::IntegrityFailure));
}

#[test]
fn a_look_at_a_blob_says_how_to_go_on() {
    let map = DataMap::Content(vec![1, 2, 3]);
    let root = Blob::new_public(DataMapLevel::Root(map.clone()).encode());
    let child = Blob::new_private(DataMapLevel::Child(map.clone()).encode(), vec![5]);
    assert_eq!(peel(&root, 0), Ok(Peel::Done(map.clone())));
    assert_eq!(peel(&root, MAX_DEPTH), Ok(Peel::Done(map.clone())));
    assert_eq!(peel(&root, MAX_DEPTH + 1), Ok(Peel::Done(map.clone())));
    assert_eq!(peel(&child, 0), Ok(Peel::Fetch(map.clone())));
    assert_eq!(peel(&child, MAX_DEPTH - 1), Ok(Peel::Fetch(map)));
    assert_eq!(peel(&child, MAX_DEPTH), Err(BlobError::IntegrityFailure));
    assert_eq!(
        peel(&Blob::new_public(vec![7]), 0),
        Err(BlobError::IntegrityFailure)
    );
}

#[test]
fn reassembling_decodes_a_blob_or_fails() {
    let blob = Blob::new_private(vec![1, 2], vec![3]);
    assert_eq!(reassemble(&blob.encode()), Ok(blob.clone()));
    assert_eq!(reassemble(&[1, 2, 3]), Err(BlobError::IntegrityFailure));
    assert!(blob.is_owned_by(&[3]));
    assert!(!blob.is_owned_by(&[4]));
    assert!(!Blob::new_public(vec![1, 2]).is_owned_by(&[]));
}

fn ceil_log(mut value: usize) -> usize {
    let mut log = 0;
    while value > 1 {
        value = (value + PACK_FANOUT - 1) / PACK_FANOUT;
        log += 1;
    }
    log
}

#[test]
fn passes_stay_within_the_logarithm_of_the_payload_length() {
    assert_eq!(PACK_FANOUT, MAX_BLOB_BYTES / 32);
    assert_eq!(ceil_log(0), 0);
    assert_eq!(ceil_log(1), 0);
    assert_eq!(ceil_log(2), 1);
    assert_eq!(ceil_log(32768), 1);
    assert_eq!(ceil_log(32769), 2);
    assert_eq!(ceil_log(MAX_BLOB_BYTES), 2);
    let owner = Some(vec![7u8; MAX_BLOB_BYTES - 17 - 232]);
    for len in [0usize, 1, 200, 216, 217, 40_000, MAX_BLOB_BYTES, 3 * MAX_BLOB_BYTES + 7] {
        let (_, payload) = root_level(len);
        let total = payload.len();
        let public = pack(payload.clone(), &None).unwrap();
        assert!(public.levels + 1 <= ceil_log(total) + 1, "{} public", len);
        let private = pack(payload, &owner).unwrap();
        assert!(private.levels + 1 <= ceil_log(total) + 1, "{} private", len);
    }
}
