use rand::RngCore;
use safe_blob::blob::Blob;
use safe_blob::cipher::{decrypt_chunk, self_encrypt};
use safe_blob::data_map::{ChunkDescriptor, DataMap, DataMapLevel};
use safe_blob::digest::content_hash;

fn random_bytes(len: usize) -> Vec<u8> {
    let mut bytes = vec![0u8; len];
    rand::thread_rng().fill_bytes(&mut bytes);
    bytes
}

#[test]
fn content_hash_is_the_name_of_the_content() {
    let data = random_bytes(777);
    let name = xor_name::XorName::from_content(&[&data]);
    assert_eq!(content_hash(&data), name.0);
}

#[test]
fn public_address_matches_the_public_blob_of_the_network_types() {
    let value = random_bytes(1000);
    let theirs = sn_data_types::PublicBlob::new(value.clone());
    let ours = Blob::new_public(value);
    assert_eq!(ours.name(), theirs.name().0);
    assert!(theirs.address().is_public());
    assert!(ours.address().is_public());
}

#[test]
fn private_address_matches_the_private_blob_of_the_network_types() {
    let owner = sn_data_types::PublicKey::ed25519_from_hex(
        "d75a980182b10ab7d54bfed3c964073a0ee172f3daa62325af021a68f707511a",
    )
    .unwrap();
    let value = random_bytes(1000);
    let theirs = sn_data_types::PrivateBlob::new(value.clone(), owner);
    let ours = Blob::new_private(value, owner.to_bytes());
    assert_eq!(ours.name(), theirs.name().0);
    assert!(theirs.address().is_private());
    assert!(ours.address().is_private());
}

#[test]
fn data_map_matches_the_data_map_of_the_cipher() {
    let data = random_bytes(3 * 1024 * 1024 + 500);
    let (theirs, their_chunks) =
        self_encryption::encrypt(bytes::Bytes::from(data.clone())).unwrap();
    let (ours, our_chunks) = self_encrypt(&data).unwrap();
    let descriptors = match ours {
        DataMap::Chunks(descriptors) => descriptors,
        other => panic!("expected chunks, got {:?}", other),
    };
    let infos = theirs.infos();
    assert_eq!(theirs.file_size(), data.len());
    assert_eq!(descriptors.len(), infos.len());
    for (i, info) in infos.iter().enumerate() {
        assert_eq!(info.index, i);
        assert_eq!(descriptors[i].pre_hash, info.src_hash.0);
        assert_eq!(descriptors[i].post_hash, info.dst_hash.0);
        assert_eq!(descriptors[i].size, info.src_size as u64);
    }
    for chunk in their_chunks {
        assert_eq!(our_chunks[chunk.index].bytes, chunk.content.to_vec());
    }
    let whole = self_encryption::decrypt_full_set(
        &theirs,
        &our_chunks
            .iter()
            .enumerate()
            .map(|(index, chunk)| self_encryption::EncryptedChunk {
                index,
                content: bytes::Bytes::from(chunk.bytes.clone()),
            })
            .collect::<Vec<_>>(),
    )
    .unwrap();
    assert_eq!(whole.to_vec(), data);
    let last = descriptors.len() - 1;
    let tail = decrypt_chunk(&descriptors, last, &our_chunks[last].bytes).unwrap();
    assert_eq!(tail, data[data.len() - tail.len()..].to_vec());
}

#[test]
fn the_cipher_refuses_what_is_kept_inline() {
    let data = random_bytes(3071);
    assert!(self_encryption::encrypt(bytes::Bytes::from(data.clone())).is_err());
    assert_eq!(self_encrypt(&data).unwrap().0, DataMap::Content(data));
}

#[test]
fn level_of_inline_content_is_laid_out_as_bincode_lays_out_its_parts() {
    let content = random_bytes(40);
    let ours = DataMapLevel::Root(DataMap::Content(content.clone())).encode();
    let theirs = bincode::serialize(&(0u32, 1u32, content)).unwrap();
    assert_eq!(ours, theirs);
}

#[test]
fn level_of_chunks_is_laid_out_as_bincode_lays_out_its_parts() {
    let descriptors: Vec<ChunkDescriptor> = (0u8..5)
        .map(|i| ChunkDescriptor {
            pre_hash: [i; 32],
            post_hash: [i + 50; 32],
            size: 1_000_000 + i as u64,
        })
        .collect();
    let parts: Vec<([u8; 32], [u8; 32], u64)> = descriptors
        .iter()
        .map(|d| (d.pre_hash, d.post_hash, d.size))
        .collect();
    let ours = DataMapLevel::Child(DataMap::Chunks(descriptors)).encode();
    let theirs = bincode::serialize(&(1u32, 2u32, parts)).unwrap();
    assert_eq!(ours, theirs);
}

#[test]
fn empty_map_is_laid_out_as_bincode_lays_out_its_tag() {
    let ours = DataMapLevel::Root(DataMap::Empty).encode();
    let theirs = bincode::serialize(&(0u32, 0u32)).unwrap();
    assert_eq!(ours, theirs);
}
