use safe_blob::address::{BlobAddress, BlobKind, ADDRESS_WIRE_LEN};
use safe_blob::blob::{Blob, MAX_BLOB_BYTES};
use safe_blob::data_map::{ChunkDescriptor, DataMap, DataMapLevel};

fn descriptor(seed: u8, size: u64) -> ChunkDescriptor {
    ChunkDescriptor {
        pre_hash: [seed; 32],
        post_hash: [seed.wrapping_add(1); 32],
        size,
    }
}

#[test]
fn address_wire_form_is_tag_then_hash() {
    let public = BlobAddress::from_kind(BlobKind::Public, [7u8; 32]);
    let bytes = public.to_bytes();
    assert_eq!(bytes.len(), ADDRESS_WIRE_LEN);
    assert_eq!(bytes[0], 0x00);
    assert_eq!(&bytes[1..], &[7u8; 32]);
    assert_eq!(BlobAddress::from_bytes(&bytes), Some(public));

    let private = BlobAddress::from_kind(BlobKind::Private, [7u8; 32]);
    let bytes = private.to_bytes();
    assert_eq!(bytes[0], 0x01);
    assert_eq!(BlobAddress::from_bytes(&bytes), Some(private));
    assert_ne!(public, private);
    assert!(!public.same(&private));
    assert!(public.same(&public));
}

#[test]
fn address_with_unknown_tag_or_wrong_length_is_refused() {
    let mut bytes = BlobAddress::from_kind(BlobKind::Public, [1u8; 32]).to_bytes();
    bytes[0] = 2;
    assert_eq!(BlobAddress::from_bytes(&bytes), None);
    bytes[0] = 0;
    bytes.push(0);
    assert_eq!(BlobAddress::from_bytes(&bytes), None);
    assert_eq!(BlobAddress::from_bytes(&bytes[..32]), None);
    assert_eq!(BlobAddress::from_bytes(&[]), None);
}

#[test]
fn kind_accessors() {
    assert!(BlobKind::from_flag(true).is_public());
    assert!(BlobKind::from_flag(false).is_private());
    assert_eq!(BlobKind::from_tag(0), Some(BlobKind::Public));
    assert_eq!(BlobKind::from_tag(1), Some(BlobKind::Private));
    assert_eq!(BlobKind::from_tag(2), None);
    let address = BlobAddress::from_kind(BlobKind::Private, [9u8; 32]);
    assert_eq!(address.kind(), BlobKind::Private);
    assert_eq!(address.name(), &[9u8; 32]);
    assert!(address.is_private());
    assert!(!address.is_public());
}

#[test]
fn empty_map_is_a_single_tag() {
    assert_eq!(DataMap::Empty.encode(), vec![0, 0, 0, 0]);
    assert_eq!(DataMap::decode(&[0, 0, 0, 0]), Some(DataMap::Empty));
    assert_eq!(DataMap::decode(&[0, 0, 0, 0, 0]), None);
}

#[test]
fn content_map_is_length_prefixed() {
    let map = DataMap::Content(vec![0xAA, 0xBB, 0xCC]);
    let bytes = map.encode();
    assert_eq!(
        bytes,
        vec![1, 0, 0, 0, 3, 0, 0, 0, 0, 0, 0, 0, 0xAA, 0xBB, 0xCC]
    );
    assert_eq!(DataMap::decode(&bytes), Some(map));
    assert_eq!(DataMap::decode(&bytes[..14]), None);
    let mut longer = bytes.clone();
    longer.push(0);
    assert_eq!(DataMap::decode(&longer), None);
}

#[test]
fn chunks_map_holds_count_and_descriptors() {
    let map = DataMap::Chunks(vec![
        descriptor(1, 1024),
        descriptor(3, 0x0102_0304_0506_0708),
        descriptor(5, 0),
    ]);
    let bytes = map.encode();
    assert_eq!(bytes.len(), 12 + 3 * 72);
    assert_eq!(&bytes[..12], &[2, 0, 0, 0, 3, 0, 0, 0, 0, 0, 0, 0]);
    assert_eq!(&bytes[12..44], &[1u8; 32]);
    assert_eq!(&bytes[44..76], &[2u8; 32]);
    assert_eq!(&bytes[76..84], &[0, 4, 0, 0, 0, 0, 0, 0]);
    assert_eq!(&bytes[148..156], &[8, 7, 6, 5, 4, 3, 2, 1]);
    assert_eq!(DataMap::decode(&bytes), Some(map.clone()));
    assert_eq!(map.chunk_count(), 3);
    assert_eq!(map.duplicate(), map);

    let mut wrong_count = bytes.clone();
    wrong_count[4] = 4;
    assert_eq!(DataMap::decode(&wrong_count), None);
    assert_eq!(DataMap::decode(&bytes[..bytes.len() - 1]), None);
}

#[test]
fn map_with_unknown_tag_is_refused() {
    assert_eq!(DataMap::decode(&[3, 0, 0, 0]), None);
    assert_eq!(DataMap::decode(&[0, 0, 0]), None);
    assert_eq!(DataMap::decode(&[]), None);
    assert_eq!(DataMap::decode(&[1, 0, 0, 0, 1, 0, 0]), None);
}

#[test]
fn level_tags_are_root_zero_child_one() {
    let map = DataMap::Content(vec![1, 2]);
    let root = DataMapLevel::Root(map.clone());
    let child = DataMapLevel::Child(map.clone());
    let root_bytes = root.encode();
    let child_bytes = child.encode();
    assert_eq!(&root_bytes[..4], &[0, 0, 0, 0]);
    assert_eq!(&child_bytes[..4], &[1, 0, 0, 0]);
    assert_eq!(&root_bytes[4..], &map.encode()[..]);
    assert_eq!(DataMapLevel::decode(&root_bytes), Some(root.clone()));
    assert_eq!(DataMapLevel::decode(&child_bytes), Some(child.clone()));
    assert!(root.is_root());
    assert!(!child.is_root());
    assert_eq!(child.map(), &map);
}

#[test]
fn level_with_unknown_tag_or_broken_map_is_refused() {
    let mut bytes = DataMapLevel::Root(DataMap::Empty).encode();
    bytes[0] = 2;
    assert_eq!(DataMapLevel::decode(&bytes), None);
    assert_eq!(DataMapLevel::decode(&[0, 0, 0, 0]), None);
    assert_eq!(DataMapLevel::decode(&[0, 0, 0, 0, 9, 0, 0, 0]), None);
    assert_eq!(DataMapLevel::decode(&[]), None);
}

#[test]
fn public_blob_wire_form() {
    let blob = Blob::new_public(vec![5, 6, 7]);
    let bytes = blob.encode();
    assert_eq!(bytes, vec![0, 3, 0, 0, 0, 0, 0, 0, 0, 5, 6, 7]);
    assert_eq!(blob.serialised_size(), 12);
    assert_eq!(Blob::decode(&bytes), Some(blob.clone()));
    assert_eq!(blob.payload_size(), 3);
    assert_eq!(blob.value(), &vec![5, 6, 7]);
    assert_eq!(blob.owner(), None);
    assert!(blob.is_public());
    assert_eq!(blob.kind(), safe_blob::address::BlobKind::Public);
}

#[test]
fn private_blob_wire_form() {
    let blob = Blob::new_private(vec![5, 6], vec![9, 9, 9]);
    let bytes = blob.encode();
    assert_eq!(
        bytes,
        vec![1, 2, 0, 0, 0, 0, 0, 0, 0, 5, 6, 3, 0, 0, 0, 0, 0, 0, 0, 9, 9, 9]
    );
    assert_eq!(blob.serialised_size(), 22);
    assert_eq!(Blob::decode(&bytes), Some(blob.clone()));
    assert_eq!(blob.owner(), Some(&vec![9, 9, 9]));
    assert!(blob.is_private());
    assert_eq!(blob.duplicate(), blob);
}

#[test]
fn malformed_blob_bytes_are_refused() {
    assert_eq!(Blob::decode(&[]), None);
    assert_eq!(Blob::decode(&[0, 1, 0, 0, 0, 0, 0, 0]), None);
    assert_eq!(Blob::decode(&[2, 0, 0, 0, 0, 0, 0, 0, 0]), None);
    assert_eq!(Blob::decode(&[0, 1, 0, 0, 0, 0, 0, 0, 0]), None);
    assert_eq!(Blob::decode(&[0, 1, 0, 0, 0, 0, 0, 0, 0, 5, 5]), None);
    assert_eq!(Blob::decode(&[1, 0, 0, 0, 0, 0, 0, 0, 0]), None);
    assert_eq!(
        Blob::decode(&[1, 0, 0, 0, 0, 0, 0, 0, 0, 1, 0, 0, 0, 0, 0, 0, 0]),
        None
    );
    assert_eq!(
        Blob::decode(&[0, 255, 255, 255, 255, 255, 255, 255, 255, 1]),
        None
    );
}

#[test]
fn size_rule_counts_the_wire_form() {
    assert_eq!(MAX_BLOB_BYTES, 1_048_576);
    assert!(Blob::new_public(vec![0u8; MAX_BLOB_BYTES - 9]).validate_size());
    assert!(!Blob::new_public(vec![0u8; MAX_BLOB_BYTES - 8]).validate_size());
    assert!(Blob::new_private(vec![0u8; MAX_BLOB_BYTES - 17 - 48], vec![1u8; 48]).validate_size());
    assert!(
        !Blob::new_private(vec![0u8; MAX_BLOB_BYTES - 17 - 47], vec![1u8; 48]).validate_size()
    );
}

#[test]
fn owner_selects_the_kind() {
    assert_eq!(Blob::new(vec![1], &None), Blob::new_public(vec![1]));
    assert_eq!(
        Blob::new(vec![1], &Some(vec![2])),
        Blob::new_private(vec![1], vec![2])
    );
}
