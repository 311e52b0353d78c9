use safe_blob::layout::{
    chunk_size, chunk_start, num_chunks, MAX_CHUNK_SIZE, MIN_CHUNK_SIZE, MIN_ENCRYPTABLE_BYTES,
};

fn sizes(len: usize) -> Vec<usize> {
    (0..num_chunks(len)).map(|i| chunk_size(len, i)).collect()
}

#[test]
fn constants_are_the_wire_values() {
    assert_eq!(MIN_CHUNK_SIZE, 1024);
    assert_eq!(MAX_CHUNK_SIZE, 1_048_576);
    assert_eq!(MIN_ENCRYPTABLE_BYTES, 3 * MIN_CHUNK_SIZE);
}

#[test]
fn short_inputs_are_not_cut() {
    assert_eq!(num_chunks(0), 0);
    assert_eq!(num_chunks(1), 0);
    assert_eq!(num_chunks(MIN_CHUNK_SIZE - 1), 0);
    assert_eq!(num_chunks(3 * MIN_CHUNK_SIZE - 1), 0);
}

#[test]
fn first_chunked_size_gives_three_minimum_chunks() {
    assert_eq!(sizes(3 * MIN_CHUNK_SIZE), vec![1024, 1024, 1024]);
    assert_eq!(chunk_start(3072, 0), 0);
    assert_eq!(chunk_start(3072, 1), 1024);
    assert_eq!(chunk_start(3072, 2), 2048);
}

#[test]
fn three_way_cut_gives_the_rest_to_the_last_chunk() {
    assert_eq!(sizes(3073), vec![1024, 1024, 1025]);
    assert_eq!(sizes(3074), vec![1024, 1024, 1026]);
    assert_eq!(sizes(MAX_CHUNK_SIZE), vec![349_525, 349_525, 349_526]);
    assert_eq!(sizes(MAX_CHUNK_SIZE + 1), vec![349_525, 349_525, 349_527]);
    assert_eq!(
        sizes(3 * MAX_CHUNK_SIZE - 1),
        vec![1_048_575, 1_048_575, 1_048_577]
    );
}

#[test]
fn full_chunks_from_three_maximum_chunks_on() {
    assert_eq!(
        sizes(3 * MAX_CHUNK_SIZE),
        vec![MAX_CHUNK_SIZE, MAX_CHUNK_SIZE, MAX_CHUNK_SIZE]
    );
    assert_eq!(num_chunks(10 * MAX_CHUNK_SIZE), 10);
    assert_eq!(chunk_start(10 * MAX_CHUNK_SIZE, 9), 9 * MAX_CHUNK_SIZE);
}

#[test]
fn short_tail_borrows_from_the_chunk_before() {
    let len = 3 * MAX_CHUNK_SIZE + 1;
    assert_eq!(
        sizes(len),
        vec![MAX_CHUNK_SIZE, MAX_CHUNK_SIZE, MAX_CHUNK_SIZE - MIN_CHUNK_SIZE, MIN_CHUNK_SIZE + 1]
    );
    assert_eq!(chunk_start(len, 2), 2 * MAX_CHUNK_SIZE);
    assert_eq!(chunk_start(len, 3), 3 * MAX_CHUNK_SIZE - MIN_CHUNK_SIZE);
}

#[test]
fn long_tail_is_a_chunk_of_its_own() {
    let len = 3 * MAX_CHUNK_SIZE + 2048;
    assert_eq!(
        sizes(len),
        vec![MAX_CHUNK_SIZE, MAX_CHUNK_SIZE, MAX_CHUNK_SIZE, 2048]
    );
    assert_eq!(chunk_start(len, 3), 3 * MAX_CHUNK_SIZE);
}

#[test]
fn chunk_sizes_add_up_and_stay_in_bounds() {
    let lengths = [
        3072usize,
        3073,
        5000,
        MAX_CHUNK_SIZE - 1,
        MAX_CHUNK_SIZE,
        MAX_CHUNK_SIZE + 1,
        3 * MAX_CHUNK_SIZE - 1,
        3 * MAX_CHUNK_SIZE,
        3 * MAX_CHUNK_SIZE + 1,
        3 * MAX_CHUNK_SIZE + 1023,
        3 * MAX_CHUNK_SIZE + 1024,
        7 * MAX_CHUNK_SIZE + 12345,
    ];
    for len in lengths {
        let all = sizes(len);
        assert!(all.len() >= 3);
        assert_eq!(all.iter().sum::<usize>(), len);
        let mut start = 0;
        for (i, size) in all.iter().enumerate() {
            assert_eq!(chunk_start(len, i), start);
            assert!(*size >= MIN_CHUNK_SIZE);
            if i + 1 < all.len() {
                assert!(*size <= MAX_CHUNK_SIZE);
            }
            start += size;
        }
    }
}
