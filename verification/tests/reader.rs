use rand::RngCore;
use safe_blob::address::{BlobAddress, BlobKind};
use safe_blob::cipher::self_encrypt;
use safe_blob::client::commit_chunks;
use safe_blob::data_map::{ChunkDescriptor, DataMap};
use safe_blob::error::BlobError;
use safe_blob::reader::{append_clipped, chunks_needed, read_using_data_map, window};
use safe_blob::store::MemoryStore;

fn random_bytes(len: usize) -> Vec<u8> {
    let mut bytes = vec![0u8; len];
    rand::thread_rng().fill_bytes(&mut bytes);
    bytes
}

fn stored(data: &[u8], kind: BlobKind) -> (MemoryStore, DataMap) {
    let (map, chunks) = self_encrypt(data).unwrap();
    let mut store = MemoryStore::new();
    commit_chunks(&mut store, kind, &chunks).unwrap();
    (store, map)
}

fn descriptors(map: &DataMap) -> Vec<ChunkDescriptor> {
    match map {
        DataMap::Chunks(descriptors) => descriptors.clone(),
        other => panic!("expected chunks, got {:?}", other),
    }
}

#[test]
fn window_bounds() {
    assert_eq!(window(None, None), (0, u64::MAX));
    assert_eq!(window(Some(5), None), (5, u64::MAX));
    assert_eq!(window(None, Some(7)), (0, 7));
    assert_eq!(window(Some(5), Some(7)), (5, 12));
    assert_eq!(window(Some(usize::MAX), Some(usize::MAX)).1, u64::MAX);
}

#[test]
fn clipping_keeps_what_is_inside() {
    let mut out = vec![9u8];
    append_clipped(&mut out, &[1, 2, 3, 4], 1, 3);
    assert_eq!(out, vec![9, 2, 3]);
    append_clipped(&mut out, &[1, 2, 3, 4], 2, 100);
    assert_eq!(out, vec![9, 2, 3, 3, 4]);
    append_clipped(&mut out, &[1, 2, 3, 4], 4, 100);
    append_clipped(&mut out, &[1, 2, 3, 4], 3, 3);
    append_clipped(&mut out, &[1, 2, 3, 4], 3, 2);
    assert_eq!(out, vec![9, 2, 3, 3, 4]);
}

#[test]
fn empty_map_reads_as_nothing() {
    let store = MemoryStore::new();
    let read = read_using_data_map(&store, BlobKind::Public, &DataMap::Empty, Some(3), Some(4));
    assert_eq!(read, Ok(Vec::new()));
}

#[test]
fn inline_content_is_served_and_clipped() {
    let store = MemoryStore::new();
    let map = DataMap::Content(vec![0, 1, 2, 3, 4, 5, 6, 7, 8, 9]);
    let read = |position, len| read_using_data_map(&store, BlobKind::Public, &map, position, len);
    assert_eq!(read(None, None), Ok(vec![0, 1, 2, 3, 4, 5, 6, 7, 8, 9]));
    assert_eq!(read(Some(2), Some(3)), Ok(vec![2, 3, 4]));
    assert_eq!(read(Some(8), Some(30)), Ok(vec![8, 9]));
    assert_eq!(read(Some(8), None), Ok(vec![8, 9]));
    assert_eq!(read(Some(10), Some(1)), Ok(Vec::new()));
    assert_eq!(read(Some(500), None), Ok(Vec::new()));
    assert_eq!(read(Some(3), Some(0)), Ok(Vec::new()));
}

#[test]
fn chunked_data_reads_back_whole_and_in_windows() {
    let data = random_bytes(10_000);
    let (store, map) = stored(&data, BlobKind::Public);
    let read = |position, len| read_using_data_map(&store, BlobKind::Public, &map, position, len);
    assert_eq!(read(None, None), Ok(data.clone()));
    assert_eq!(read(Some(0), Some(10_000)), Ok(data.clone()));
    assert_eq!(read(Some(0), Some(1)), Ok(data[0..1].to_vec()));
    assert_eq!(read(Some(3332), Some(2)), Ok(data[3332..3334].to_vec()));
    assert_eq!(read(Some(3333), Some(3333)), Ok(data[3333..6666].to_vec()));
    assert_eq!(read(Some(100), Some(9000)), Ok(data[100..9100].to_vec()));
    assert_eq!(read(Some(9999), Some(1)), Ok(data[9999..].to_vec()));
    assert_eq!(read(Some(9999), Some(100)), Ok(data[9999..].to_vec()));
    assert_eq!(read(Some(7000), None), Ok(data[7000..].to_vec()));
    assert_eq!(read(Some(10_000), Some(5)), Ok(Vec::new()));
    assert_eq!(read(Some(20_000), None), Ok(Vec::new()));
    assert_eq!(read(Some(5), Some(0)), Ok(Vec::new()));
}

#[test]
fn a_window_needs_only_the_chunks_it_touches() {
    let data = random_bytes(10_000);
    let (full, map) = stored(&data, BlobKind::Public);
    let all = descriptors(&map);
    assert_eq!(
        chunks_needed(&map, None, None),
        vec![all[0].post_hash, all[1].post_hash, all[2].post_hash]
    );
    assert_eq!(chunks_needed(&map, Some(0), Some(3333)), vec![all[0].post_hash]);
    assert_eq!(
        chunks_needed(&map, Some(3332), Some(2)),
        vec![all[0].post_hash, all[1].post_hash]
    );
    assert_eq!(chunks_needed(&map, Some(3333), Some(3333)), vec![all[1].post_hash]);
    assert_eq!(chunks_needed(&map, Some(6666), None), vec![all[2].post_hash]);
    assert_eq!(chunks_needed(&map, Some(10_000), None), Vec::<[u8; 32]>::new());
    assert_eq!(chunks_needed(&map, Some(5), Some(0)), Vec::<[u8; 32]>::new());
    assert_eq!(
        read_using_data_map(&MemoryStore::new(), BlobKind::Public, &map, Some(5), Some(0)),
        Ok(Vec::new())
    );
    assert_eq!(
        chunks_needed(&DataMap::Content(vec![1, 2, 3]), None, None),
        Vec::<[u8; 32]>::new()
    );

    let mut partial = MemoryStore::new();
    let middle = full.get_chunk(BlobKind::Public, &all[1].post_hash).unwrap();
    partial
        .put_chunk(BlobKind::Public, all[1].post_hash, middle.clone())
        .unwrap();
    assert_eq!(
        read_using_data_map(&partial, BlobKind::Public, &map, Some(4000), Some(1000)),
        Ok(data[4000..5000].to_vec())
    );
    assert_eq!(
        read_using_data_map(&partial, BlobKind::Public, &map, Some(3000), Some(1000)),
        Err(BlobError::NotFound {
            address: BlobAddress::from_kind(BlobKind::Public, all[0].post_hash)
        })
    );
}

#[test]
fn chunks_of_the_other_kind_are_not_found() {
    let data = random_bytes(5000);
    let (store, map) = stored(&data, BlobKind::Private);
    let all = descriptors(&map);
    assert_eq!(
        read_using_data_map(&store, BlobKind::Private, &map, None, None),
        Ok(data)
    );
    assert_eq!(
        read_using_data_map(&store, BlobKind::Public, &map, None, None),
        Err(BlobError::NotFound {
            address: BlobAddress::from_kind(BlobKind::Public, all[0].post_hash)
        })
    );
}

#[test]
fn a_chunk_with_other_bytes_fails_the_integrity_check() {
    let data = random_bytes(5000);
    let (map, chunks) = self_encrypt(&data).unwrap();
    let mut store = MemoryStore::new();
    for (i, chunk) in chunks.iter().enumerate() {
        let mut bytes = chunk.bytes.clone();
        if i == 1 {
            bytes[0] ^= 0xFF;
        }
        store.put_chunk(BlobKind::Public, chunk.hash, bytes).unwrap();
    }
    assert_eq!(
        read_using_data_map(&store, BlobKind::Public, &map, None, None),
        Err(BlobError::IntegrityFailure)
    );
    assert_eq!(
        read_using_data_map(&store, BlobKind::Public, &map, Some(0), Some(100)),
        Ok(data[..100].to_vec())
    );
}

#[test]
fn a_descriptor_with_another_size_fails_the_integrity_check() {
    let data = random_bytes(5000);
    let (store, map) = stored(&data, BlobKind::Public);
    let mut all = descriptors(&map);
    all[2].size += 1;
    assert_eq!(
        read_using_data_map(&store, BlobKind::Public, &DataMap::Chunks(all), None, None),
        Err(BlobError::IntegrityFailure)
    );
}

#[test]
fn a_descriptor_with_another_pre_hash_fails_in_the_cipher() {
    let data = random_bytes(5000);
    let (store, map) = stored(&data, BlobKind::Public);
    let mut all = descriptors(&map);
    all[0].pre_hash = [0u8; 32];
    let read = read_using_data_map(&store, BlobKind::Public, &DataMap::Chunks(all), None, None);
    assert!(
        read == Err(BlobError::CipherFailure) || read == Err(BlobError::IntegrityFailure),
        "{:?}",
        read
    );
}

#[test]
fn a_map_of_fewer_than_three_chunks_is_refused() {
    let data = random_bytes(5000);
    let (store, map) = stored(&data, BlobKind::Public);
    let mut all = descriptors(&map);
    all.truncate(2);
    assert_eq!(
        read_using_data_map(&store, BlobKind::Public, &DataMap::Chunks(all), None, None),
        Err(BlobError::IntegrityFailure)
    );
    assert_eq!(
        read_using_data_map(&store, BlobKind::Public, &DataMap::Chunks(Vec::new()), None, None),
        Err(BlobError::IntegrityFailure)
    );
}

#[test]
fn sizes_that_overflow_are_an_integrity_failure() {
    let data = random_bytes(5000);
    let (store, map) = stored(&data, BlobKind::Public);
    let mut all = descriptors(&map);
    all[0].size = u64::MAX - 1;
    all[1].size = 5;
    let map = DataMap::Chunks(all);
    let far = (u64::MAX - 1) as usize;
    assert_eq!(
        read_using_data_map(&store, BlobKind::Public, &map, Some(far), None),
        Err(BlobError::IntegrityFailure)
    );
    assert_eq!(
        read_using_data_map(&store, BlobKind::Public, &map, Some(far), Some(0)),
        Ok(Vec::new())
    );
}
