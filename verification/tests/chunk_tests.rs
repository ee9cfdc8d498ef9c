use tg_storage::chunk::{merge_chunks, split_bytes, Chunk, CoreError, DEFAULT_CHUNK_SIZE};

fn numbered(n: usize) -> Vec<u8> {
    (0..n).map(|i| (i % 251) as u8).collect()
}

#[test]
fn chunk_size_is_nineteen_mebibytes() {
    assert_eq!(DEFAULT_CHUNK_SIZE, 19 * 1024 * 1024);
}

#[test]
fn new_chunk_carries_the_sha256_of_its_data() {
    let chunk = Chunk::new(3, 7, b"abc".to_vec());
    assert_eq!(chunk.index, 3);
    assert_eq!(chunk.total, 7);
    assert_eq!(chunk.data, b"abc".to_vec());
    let expected: [u8; 32] = [
        0xba, 0x78, 0x16, 0xbf, 0x8f, 0x01, 0xcf, 0xea, 0x41, 0x41, 0x40, 0xde, 0x5d, 0xae, 0x22,
        0x23, 0xb0, 0x03, 0x61, 0xa3, 0x96, 0x17, 0x7a, 0x9c, 0xb4, 0x10, 0xff, 0x61, 0xf2, 0x00,
        0x15, 0xad,
    ];
    assert_eq!(chunk.hash, expected);
}

#[test]
fn split_cuts_into_full_pieces_and_a_rest() {
    let data = numbered(10);
    let chunks = split_bytes(&data, 4);
    assert_eq!(chunks.len(), 3);
    assert_eq!(chunks[0].data, vec![0, 1, 2, 3]);
    assert_eq!(chunks[1].data, vec![4, 5, 6, 7]);
    assert_eq!(chunks[2].data, vec![8, 9]);
    for (i, c) in chunks.iter().enumerate() {
        assert_eq!(c.index, i as u32);
        assert_eq!(c.total, 3);
        assert_eq!(c.hash, Chunk::new(0, 0, c.data.clone()).hash);
    }
}

#[test]
fn split_of_a_whole_number_of_pieces_has_no_rest() {
    let chunks = split_bytes(&numbered(8), 4);
    assert_eq!(chunks.len(), 2);
    assert_eq!(chunks[1].data.len(), 4);
    assert_eq!(chunks[1].total, 2);
}

#[test]
fn split_of_nothing_is_nothing_and_merges_to_nothing() {
    let chunks = split_bytes(&[], 4);
    assert!(chunks.is_empty());
    assert_eq!(merge_chunks(chunks).unwrap(), Vec::<u8>::new());
}

#[test]
fn split_then_merge_for_many_sizes() {
    for n in [0usize, 1, 2, 3, 4, 5, 63, 64, 65] {
        for size in [1usize, 2, 3, 64, 100] {
            let data = numbered(n);
            assert_eq!(merge_chunks(split_bytes(&data, size)).unwrap(), data);
        }
    }
}

#[test]
fn merge_ignores_the_order_of_the_chunks() {
    let data = numbered(10);
    let mut chunks = split_bytes(&data, 3);
    chunks.reverse();
    assert_eq!(merge_chunks(chunks).unwrap(), data);
    let mut chunks = split_bytes(&data, 3);
    chunks.swap(0, 2);
    assert_eq!(merge_chunks(chunks).unwrap(), data);
}

#[test]
fn merge_refuses_a_missing_chunk() {
    let mut chunks = split_bytes(&numbered(10), 3);
    chunks.pop();
    assert!(matches!(merge_chunks(chunks), Err(CoreError::BadChunks)));
}

#[test]
fn merge_refuses_a_changed_byte() {
    let mut chunks = split_bytes(&numbered(10), 3);
    chunks[1].data[0] ^= 1;
    assert!(matches!(merge_chunks(chunks), Err(CoreError::BadChunks)));
}

#[test]
fn merge_goes_by_the_total_of_the_first_chunk_alone() {
    let mut chunks = split_bytes(&numbered(10), 5);
    chunks[1].total = 99;
    assert_eq!(merge_chunks(chunks).unwrap(), numbered(10));
    let mut chunks = split_bytes(&numbered(10), 5);
    chunks[0].total = 99;
    assert!(matches!(merge_chunks(chunks), Err(CoreError::BadChunks)));
}

#[test]
fn merge_refuses_two_chunks_of_one_number() {
    let chunks = vec![Chunk::new(0, 2, b"first".to_vec()), Chunk::new(0, 2, b"second".to_vec())];
    assert!(matches!(merge_chunks(chunks), Err(CoreError::BadChunks)));
}

#[test]
fn merge_refuses_numbers_with_a_gap() {
    let chunks = vec![Chunk::new(0, 2, b"first".to_vec()), Chunk::new(2, 2, b"second".to_vec())];
    assert!(matches!(merge_chunks(chunks), Err(CoreError::BadChunks)));
    let chunks = vec![Chunk::new(1, 1, b"first".to_vec())];
    assert!(matches!(merge_chunks(chunks), Err(CoreError::BadChunks)));
    let chunks = vec![Chunk::new(1, 2, b"second".to_vec()), Chunk::new(0, 2, b"first".to_vec())];
    assert_eq!(merge_chunks(chunks).unwrap(), b"firstsecond".to_vec());
}

#[test]
fn core_errors_in_words() {
    assert_eq!(CoreError::Crypto("x".to_string()).message(), "cryptography error: x");
    assert_eq!(CoreError::Argon2("y".to_string()).message(), "argon2 error: y");
    assert_eq!(CoreError::BadChunks.message(), "chunk index / hash mismatch");
}
