use rand::RngCore;
use safe_blob::cipher::{decrypt_chunk, self_encrypt};
use safe_blob::data_map::DataMap;
use safe_blob::digest::content_hash;
use safe_blob::layout::{chunk_size, chunk_start, num_chunks};

fn random_bytes(len: usize) -> Vec<u8> {
    let mut bytes = vec![0u8; len];
    rand::thread_rng().fill_bytes(&mut bytes);
    bytes
}

#[test]
fn empty_data_is_kept_inline() {
    let (map, chunks) = self_encrypt(&[]).unwrap();
    assert_eq!(map, DataMap::Content(Vec::new()));
    assert!(chunks.is_empty());
}

#[test]
fn one_byte_is_kept_inline() {
    let (map, chunks) = self_encrypt(&[42]).unwrap();
    assert_eq!(map, DataMap::Content(vec![42]));
    assert!(chunks.is_empty());
}

#[test]
fn short_data_is_kept_inline() {
    for len in [1023usize, 1024, 3071] {
        let data = random_bytes(len);
        let (map, chunks) = self_encrypt(&data).unwrap();
        assert_eq!(map, DataMap::Content(data));
        assert!(chunks.is_empty());
    }
}

#[test]
fn first_chunked_size_gives_three_chunks() {
    let data = random_bytes(3072);
    let (map, chunks) = self_encrypt(&data).unwrap();
    match map {
        DataMap::Chunks(descriptors) => {
            assert_eq!(descriptors.len(), 3);
            assert_eq!(chunks.len(), 3);
            for descriptor in descriptors {
                assert_eq!(descriptor.size, 1024);
            }
        }
        other => panic!("expected chunks, got {:?}", other),
    }
}

#[test]
fn descriptors_follow_the_layout_and_the_hashes() {
    for len in [5000usize, 1024 * 1024, 1024 * 1024 + 1] {
        let data = random_bytes(len);
        let (map, chunks) = self_encrypt(&data).unwrap();
        let descriptors = match map {
            DataMap::Chunks(descriptors) => descriptors,
            other => panic!("expected chunks, got {:?}", other),
        };
        assert_eq!(descriptors.len(), num_chunks(len));
        assert_eq!(chunks.len(), num_chunks(len));
        for (i, descriptor) in descriptors.iter().enumerate() {
            let start = chunk_start(len, i);
            let size = chunk_size(len, i);
            assert_eq!(descriptor.size, size as u64);
            assert_eq!(descriptor.pre_hash, content_hash(&data[start..start + size]));
            assert_eq!(descriptor.post_hash, content_hash(&chunks[i].bytes));
            assert_eq!(descriptor.post_hash, chunks[i].hash);
        }
    }
}

#[test]
fn chunks_decrypt_to_their_slices() {
    let data = random_bytes(3 * 1024 * 1024 + 100);
    let (map, chunks) = self_encrypt(&data).unwrap();
    let descriptors = match map {
        DataMap::Chunks(descriptors) => descriptors,
        other => panic!("expected chunks, got {:?}", other),
    };
    assert_eq!(descriptors.len(), 4);
    assert_eq!(chunks.len(), 4);
    let mut rebuilt: Vec<u8> = Vec::new();
    for (i, chunk) in chunks.iter().enumerate() {
        assert_eq!(chunk.hash, descriptors[i].post_hash);
        assert_eq!(content_hash(&chunk.bytes), chunk.hash);
        let start = chunk_start(data.len(), i);
        let size = chunk_size(data.len(), i);
        assert_ne!(chunk.bytes, data[start..start + size].to_vec());
        let plain = decrypt_chunk(&descriptors, i, &chunk.bytes).unwrap();
        assert_ne!(plain, chunk.bytes);
        assert_eq!(plain.len() as u64, descriptors[i].size);
        assert_eq!(content_hash(&plain), descriptors[i].pre_hash);
        rebuilt.extend_from_slice(&plain);
    }
    assert_eq!(rebuilt, data);
}

#[test]
fn encryption_is_convergent() {
    let data = random_bytes(200_000);
    let first = self_encrypt(&data).unwrap();
    let second = self_encrypt(&data).unwrap();
    assert_eq!(first.0, second.0);
    assert_eq!(first.1, second.1);
}

#[test]
fn a_chunk_does_not_decrypt_under_another_index() {
    let data = random_bytes(9000);
    let (map, chunks) = self_encrypt(&data).unwrap();
    let descriptors = match map {
        DataMap::Chunks(descriptors) => descriptors,
        other => panic!("expected chunks, got {:?}", other),
    };
    let right = decrypt_chunk(&descriptors, 1, &chunks[1].bytes).unwrap();
    assert_eq!(right, data[3000..6000].to_vec());
    let wrong = decrypt_chunk(&descriptors, 2, &chunks[1].bytes);
    assert_ne!(wrong, Some(right));
}

#[test]
fn garbage_does_not_decrypt() {
    let data = random_bytes(9000);
    let (map, _) = self_encrypt(&data).unwrap();
    let descriptors = match map {
        DataMap::Chunks(descriptors) => descriptors,
        other => panic!("expected chunks, got {:?}", other),
    };
    assert_eq!(decrypt_chunk(&descriptors, 0, &[1, 2, 3]), None);
}
