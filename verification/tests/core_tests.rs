use tg_storage::chunk::{merge_chunks, split_bytes, Chunk, DEFAULT_CHUNK_SIZE};
use tg_storage::crypto::{decrypt_chunk, derive_key, encrypt_chunk};

#[test]
fn split_merge_roundtrip() {
    let data = vec![42u8; 123_456];
    let chunks = split_bytes(&data, DEFAULT_CHUNK_SIZE);
    let merged = merge_chunks(chunks).unwrap();
    assert_eq!(merged, data);
}

#[test]
fn crypto_roundtrip() {
    let chunk = Chunk::new(0, 1, b"hello world".to_vec());
    let salt = b"rand-salt-123";
    let key = derive_key("password", salt).unwrap();
    let (ct, nonce) = encrypt_chunk(&chunk, &key).unwrap();
    let out = decrypt_chunk(chunk.index, chunk.total, &ct, &nonce, &key).unwrap();
    assert_eq!(out.data, chunk.data);
}
