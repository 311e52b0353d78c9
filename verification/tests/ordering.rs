use safe_blob::accounting::{
    calculate_new_balance, checked_new_balance, cost_at_rate, COST_OF_PUT,
};
use safe_blob::cipher::{order_chunks, position_of, Chunk, SealedChunk};
use safe_blob::data_map::{ChunkDescriptor, DataMap};
use safe_blob::error::BlobError;
use safe_blob::reader::accept_plain;

fn descriptor(seed: u8, size: u64) -> ChunkDescriptor {
    ChunkDescriptor {
        pre_hash: [seed; 32],
        post_hash: [seed + 100; 32],
        size,
    }
}

fn sealed(index: usize, content: &[u8]) -> SealedChunk {
    SealedChunk {
        index,
        content: content.to_vec(),
    }
}

#[test]
fn position_is_that_of_the_first_chunk_with_the_index() {
    let chunks = vec![sealed(2, b"c"), sealed(0, b"a"), sealed(2, b"x"), sealed(1, b"b")];
    assert_eq!(position_of(&chunks, 0), Some(1));
    assert_eq!(position_of(&chunks, 1), Some(3));
    assert_eq!(position_of(&chunks, 2), Some(0));
    assert_eq!(position_of(&chunks, 3), None);
    assert_eq!(position_of(&Vec::new(), 0), None);
}

#[test]
fn chunks_are_put_in_index_order_under_their_hashes() {
    let descriptors = vec![descriptor(0, 1), descriptor(1, 1), descriptor(2, 1)];
    let chunks = vec![sealed(2, b"c"), sealed(0, b"a"), sealed(1, b"b")];
    let (map, ordered) = order_chunks(descriptors.clone(), &chunks).unwrap();
    assert_eq!(map, DataMap::Chunks(descriptors));
    assert_eq!(
        ordered,
        vec![
            Chunk { hash: [100; 32], bytes: b"a".to_vec() },
            Chunk { hash: [101; 32], bytes: b"b".to_vec() },
            Chunk { hash: [102; 32], bytes: b"c".to_vec() },
        ]
    );
}

#[test]
fn a_descriptor_without_a_chunk_is_a_cipher_failure() {
    let descriptors = vec![descriptor(0, 1), descriptor(1, 1), descriptor(2, 1)];
    let chunks = vec![sealed(2, b"c"), sealed(0, b"a"), sealed(3, b"b")];
    assert_eq!(
        order_chunks(descriptors, &chunks),
        Err(BlobError::CipherFailure)
    );
    assert_eq!(
        order_chunks(Vec::new(), &chunks),
        Ok((DataMap::Chunks(Vec::new()), Vec::new()))
    );
}

#[test]
fn plaintext_is_accepted_at_the_recorded_length_only() {
    assert_eq!(accept_plain(3, Some(vec![1, 2, 3])), Ok(vec![1, 2, 3]));
    assert_eq!(accept_plain(0, Some(Vec::new())), Ok(Vec::new()));
    assert_eq!(
        accept_plain(4, Some(vec![1, 2, 3])),
        Err(BlobError::IntegrityFailure)
    );
    assert_eq!(
        accept_plain(2, Some(vec![1, 2, 3])),
        Err(BlobError::IntegrityFailure)
    );
    assert_eq!(accept_plain(3, None), Err(BlobError::CipherFailure));
}

#[test]
fn data_map_length_is_what_it_stands_for() {
    assert_eq!(DataMap::Empty.len(), Some(0));
    assert!(DataMap::Empty.is_empty());
    assert_eq!(DataMap::Content(vec![1, 2, 3]).len(), Some(3));
    assert!(!DataMap::Content(Vec::new()).is_empty());
    let map = DataMap::Chunks(vec![descriptor(0, 10), descriptor(1, 20), descriptor(2, 5)]);
    assert_eq!(map.len(), Some(35));
    let huge = DataMap::Chunks(vec![descriptor(0, u64::MAX), descriptor(1, 1)]);
    assert_eq!(huge.len(), None);
    let full = DataMap::Chunks(vec![descriptor(0, u64::MAX - 1), descriptor(1, 1)]);
    assert_eq!(full.len(), Some(u64::MAX));
}

#[test]
fn balance_after_mutations_and_transfers() {
    assert_eq!(COST_OF_PUT, 1);
    assert_eq!(calculate_new_balance(10, None, None), 10);
    assert_eq!(calculate_new_balance(10, Some(3), None), 7);
    assert_eq!(calculate_new_balance(10, None, Some(4)), 6);
    assert_eq!(calculate_new_balance(10, Some(3), Some(2)), 5);
    assert_eq!(calculate_new_balance(10, Some(6), Some(4)), 0);
    assert_eq!(checked_new_balance(10, Some(3), Some(2)), Some(5));
    assert_eq!(checked_new_balance(10, Some(6), Some(5)), None);
    assert_eq!(checked_new_balance(10, Some(11), None), None);
    assert_eq!(checked_new_balance(u64::MAX, Some(u64::MAX), Some(0)), Some(0));
    assert_eq!(checked_new_balance(0, Some(u64::MAX), Some(u64::MAX)), None);
    assert_eq!(cost_at_rate(3, COST_OF_PUT), Some(3));
    assert_eq!(cost_at_rate(7, 6), Some(42));
    assert_eq!(cost_at_rate(0, u64::MAX), Some(0));
    assert_eq!(cost_at_rate(2, u64::MAX), None);
}
