use aes_gcm::aead::{Aead, Payload};
use aes_gcm::{Aes256Gcm, KeyInit};
use argon2::password_hash::{PasswordHasher, SaltString};
use argon2::Argon2;

use tg_storage::chunk::{Chunk, CoreError};
use tg_storage::crypto::{
    decrypt_chunk, derive_key, encrypt_chunk, encrypt_chunk_with_nonce, key_from_digest,
    open_chunk, seal_chunk, KEY_LEN, NONCE_LEN,
};

fn text_of(r: Result<[u8; 32], CoreError>) -> String {
    match r {
        Err(CoreError::Argon2(text)) => text,
        other => panic!("{:?}", other),
    }
}

#[test]
fn derived_key_is_the_argon2_digest() {
    let salt = b"0123456789abcdef";
    let encoded = SaltString::encode_b64(salt).unwrap();
    let hash = Argon2::default().hash_password(b"secret", &encoded).unwrap();
    let digest = hash.hash.unwrap();
    let key = derive_key("secret", salt).unwrap();
    assert_eq!(&key[..], digest.as_bytes());
    assert_eq!(key.len(), KEY_LEN);
}

#[test]
fn derived_key_depends_on_password_and_salt() {
    let key = derive_key("secret", b"0123456789abcdef").unwrap();
    assert_eq!(key, derive_key("secret", b"0123456789abcdef").unwrap());
    assert_ne!(key, derive_key("Secret", b"0123456789abcdef").unwrap());
    assert_ne!(key, derive_key("secret", b"0123456789abcdeg").unwrap());
}

#[test]
fn salts_that_are_too_short_or_too_long_are_refused() {
    assert!(derive_key("p", &[7u8; 8]).is_ok());
    assert!(derive_key("p", &[7u8; 48]).is_ok());
    assert!(!text_of(derive_key("p", &[7u8; 7])).is_empty());
    assert!(!text_of(derive_key("p", &[7u8; 49])).is_empty());
}

#[test]
fn key_of_a_digest() {
    assert_eq!(text_of(key_from_digest(None)), "missing digest");
    assert_eq!(text_of(key_from_digest(Some(vec![1u8; 31]))), "digest too short");
    let long: Vec<u8> = (0..40).collect();
    assert_eq!(key_from_digest(Some(long.clone())).unwrap()[..], long[..32]);
    assert_eq!(key_from_digest(Some(long[..32].to_vec())).unwrap()[..], long[..32]);
}

#[test]
fn encryption_is_aes_gcm_over_the_number_of_the_chunk() {
    let key = [9u8; 32];
    let nonce = [5u8; 12];
    let chunk = Chunk::new(0x0102_0304, 1, b"some bytes".to_vec());
    let ct = encrypt_chunk_with_nonce(&chunk, &key, &nonce).unwrap();
    let cipher = Aes256Gcm::new(&key.into());
    let expected = cipher
        .encrypt(&nonce.into(), Payload { msg: b"some bytes", aad: &[1, 2, 3, 4] })
        .unwrap();
    assert_eq!(ct, expected);
    assert_eq!(ct.len(), 10 + 16);
}

#[test]
fn each_encryption_draws_a_nonce() {
    let key = [1u8; 32];
    let chunk = Chunk::new(0, 1, b"abc".to_vec());
    let (ct1, nonce1) = encrypt_chunk(&chunk, &key).unwrap();
    let (ct2, nonce2) = encrypt_chunk(&chunk, &key).unwrap();
    assert_ne!(nonce1, nonce2);
    assert_ne!(ct1, ct2);
    assert_eq!(decrypt_chunk(0, 1, &ct1, &nonce1, &key).unwrap().data, b"abc".to_vec());
    assert_eq!(decrypt_chunk(0, 1, &ct2, &nonce2, &key).unwrap().data, b"abc".to_vec());
}

#[test]
fn decryption_gives_the_whole_chunk() {
    let key = [1u8; 32];
    let chunk = Chunk::new(6, 9, Vec::new());
    let (ct, nonce) = encrypt_chunk(&chunk, &key).unwrap();
    assert_eq!(ct.len(), 16);
    let out = decrypt_chunk(6, 9, &ct, &nonce, &key).unwrap();
    assert_eq!((out.index, out.total), (6, 9));
    assert_eq!(out.data, chunk.data);
    assert_eq!(out.hash, chunk.hash);
}

#[test]
fn decryption_refuses_what_was_not_sealed_so() {
    let key = [1u8; 32];
    let chunk = Chunk::new(0, 1, b"abc".to_vec());
    let (ct, nonce) = encrypt_chunk(&chunk, &key).unwrap();
    let mut changed = ct.clone();
    changed[0] ^= 1;
    let outcomes = vec![
        decrypt_chunk(1, 1, &ct, &nonce, &key),
        decrypt_chunk(0, 1, &changed, &nonce, &key),
        decrypt_chunk(0, 1, &ct, &[0u8; 12], &key),
        decrypt_chunk(0, 1, &ct, &nonce, &[2u8; 32]),
        decrypt_chunk(0, 1, &ct[..15], &nonce, &key),
        decrypt_chunk(0, 1, &[], &nonce, &key),
    ];
    for outcome in outcomes {
        match outcome {
            Err(CoreError::Crypto(text)) => assert_eq!(text, "aead::Error"),
            other => panic!("{:?}", other),
        }
    }
}

#[test]
fn sealed_chunks_open() {
    let key = [3u8; 32];
    let chunk = Chunk::new(2, 4, b"payload".to_vec());
    let sealed = seal_chunk(&chunk, &key).unwrap();
    assert_eq!(sealed.len(), NONCE_LEN + 7 + 16);
    let out = open_chunk(2, 4, &sealed, &key).unwrap();
    assert_eq!(out.data, b"payload".to_vec());
    assert!(matches!(open_chunk(3, 4, &sealed, &key), Err(CoreError::Crypto(_))));
    assert!(matches!(open_chunk(2, 4, &sealed[..12], &key), Err(CoreError::Crypto(_))));
}

#[test]
fn a_sealed_chunk_with_an_altered_nonce_or_tag_is_refused() {
    let key = [3u8; 32];
    let sealed = seal_chunk(&Chunk::new(2, 4, b"payload".to_vec()), &key).unwrap();
    for place in (0..NONCE_LEN).chain(sealed.len() - 16..sealed.len()) {
        for bit in [1u8, 128] {
            let mut altered = sealed.clone();
            altered[place] ^= bit;
            assert!(matches!(open_chunk(2, 4, &altered, &key), Err(CoreError::Crypto(_))));
        }
    }
}

#[test]
fn a_salt_may_hold_any_bytes() {
    let salt = [0u8, 255, 128, 10, 61, 47, 43, 7, 200];
    let encoded = SaltString::encode_b64(&salt).unwrap();
    let hash = Argon2::default().hash_password(b"secret", &encoded).unwrap();
    assert_eq!(&derive_key("secret", &salt).unwrap()[..], hash.hash.unwrap().as_bytes());
}
