//! Deriving a key from a password, and sealing chunks under it.

use vstd::prelude::*;

use crate::chunk::{chunk_of, Chunk, ChunkView, CoreError, CoreErrorView};
use crate::external::{
    aead_open, aead_seal, aes256gcm_decrypt, aes256gcm_encrypt, argon2_digest,
    argon2_hash_password, hashable, opens_alone, random_bytes, sha256, MAX_MESSAGE_LEN, TAG_LEN,
};

verus! {

/// The length of a key.
pub const KEY_LEN: usize = 32;

/// The length of a nonce.
pub const NONCE_LEN: usize = 12;

/// The associated data under which a chunk is sealed: its number, most significant byte first.
pub open spec fn index_bytes(index: u32) -> Seq<u8> {
    seq![
        (index / 0x100_0000) as u8,
        (index / 0x1_0000 % 0x100) as u8,
        (index / 0x100 % 0x100) as u8,
        (index % 0x100) as u8,
    ]
}

/// The key in a digest: its first bytes, if there are enough of them.
pub open spec fn key_of_digest(digest: Option<Seq<u8>>) -> Result<Seq<u8>, CoreErrorView> {
    match digest {
        None => Err(CoreErrorView::Argon2("missing digest"@)),
        Some(d) => if d.len() < KEY_LEN {
            Err(CoreErrorView::Argon2("digest too short"@))
        } else {
            Ok(d.take(KEY_LEN as int))
        },
    }
}

/// The key that a password and a salt give.
pub open spec fn derived_key(password: Seq<char>, salt: Seq<u8>) -> Result<
    Seq<u8>,
    CoreErrorView,
> {
    match argon2_digest(password, salt) {
        Err(text) => Err(CoreErrorView::Argon2(text)),
        Ok(digest) => key_of_digest(digest),
    }
}

/// The one error that sealing and opening have.
pub open spec fn crypto_error() -> CoreErrorView {
    CoreErrorView::Crypto("aead::Error"@)
}

/// A result with the view of its key or of its error.
pub open spec fn key_result_view(r: Result<[u8; 32], CoreError>) -> Result<
    Seq<u8>,
    CoreErrorView,
> {
    match r {
        Ok(key) => Ok(key@),
        Err(e) => Err(e@),
    }
}

/// A result with the view of its chunk or of its error.
pub open spec fn chunk_result_view(r: Result<Chunk, CoreError>) -> Result<ChunkView, CoreErrorView> {
    match r {
        Ok(chunk) => Ok(chunk@),
        Err(e) => Err(e@),
    }
}

/// `payload` is a nonce, and behind it `data` as it is sealed under the key, that nonce and the
/// number of a chunk; and it can be opened, with no other nonce and no other tag.
pub open spec fn seals(payload: Seq<u8>, key: Seq<u8>, index: u32, data: Seq<u8>) -> bool {
    let nonce = payload.take(NONCE_LEN as int);
    let ct = payload.skip(NONCE_LEN as int);
    &&& payload.len() == NONCE_LEN + data.len() + TAG_LEN
    &&& ct == aead_seal(key, nonce, data, index_bytes(index))
    &&& aead_open(key, nonce, ct, index_bytes(index)) == Some(data)
    &&& opens_alone(key, nonce, ct, index_bytes(index))
}

/// The chunk that a ciphertext holds, if it opens.
pub open spec fn decrypted(
    index: u32,
    total: u32,
    ct: Seq<u8>,
    nonce: Seq<u8>,
    key: Seq<u8>,
) -> Result<ChunkView, CoreErrorView> {
    match aead_open(key, nonce, ct, index_bytes(index)) {
        Some(data) => Ok(chunk_of(index, total, data)),
        None => Err(crypto_error()),
    }
}

/// The chunk that a nonce and a ciphertext behind it hold, if it opens.
pub open spec fn opened(index: u32, total: u32, payload: Seq<u8>, key: Seq<u8>) -> Result<
    ChunkView,
    CoreErrorView,
> {
    decrypted(
        index,
        total,
        payload.skip(NONCE_LEN as int),
        payload.take(NONCE_LEN as int),
        key,
    )
}

/// Copies the first bytes of a slice into an array.
pub(crate) fn head_array<const N: usize>(bytes: &[u8]) -> (head: [u8; N])
    requires
        bytes@.len() >= N,
    ensures
        head@ == bytes@.take(N as int),
{
    let mut head: [u8; N] = [0u8;N];
    let mut i: usize = 0;
    while i < N
        invariant
            0 <= i <= N,
            bytes@.len() >= N,
            forall|j: int| 0 <= j < i ==> head@[j] == bytes@[j],
        decreases N - i,
    {
        head[i] = bytes[i];
        i = i + 1;
    }
    assert(head@ =~= bytes@.take(N as int));
    head
}

/// The number of a chunk, most significant byte first.
fn encode_index(index: u32) -> (bytes: [u8; 4])
    ensures
        bytes@ == index_bytes(index),
{
    let bytes: [u8; 4] = [
        (index / 0x100_0000) as u8,
        (index / 0x1_0000 % 0x100) as u8,
        (index / 0x100 % 0x100) as u8,
        (index % 0x100) as u8,
    ];
    assert(bytes@ =~= index_bytes(index));
    bytes
}

/// Takes the key out of a digest.
pub fn key_from_digest(digest: Option<Vec<u8>>) -> (r: Result<[u8; 32], CoreError>)
    ensures
        key_result_view(r) == key_of_digest(
            match digest {
                Some(d) => Some(d@),
                None => None,
            },
        ),
{
    match digest {
        None => Err(CoreError::Argon2("missing digest".to_string())),
        Some(bytes) => {
            if bytes.len() < KEY_LEN {
                return Err(CoreError::Argon2("digest too short".to_string()));
            }
            Ok(head_array::<32>(bytes.as_slice()))
        },
    }
}

/// Derives a 32-byte key from a password and a salt.
///
/// A key comes out exactly when the salt has between 8 and 48 bytes and the password has fewer
/// than 2^32 bytes, and it is the whole digest that Argon2 makes of them. A salt of fewer than three
/// bytes is outside of what can be asked.
pub fn derive_key(password: &str, salt: &[u8]) -> (r: Result<[u8; 32], CoreError>)
    requires
        salt@.len() >= 3,
    ensures
        key_result_view(r) == derived_key(password@, salt@),
        r is Ok <==> hashable(password@, salt@),
        r matches Ok(key) ==> argon2_digest(password@, salt@) == Ok::<_, Seq<char>>(Some(key@)),
{
    match argon2_hash_password(password, salt) {
        Err(text) => Err(CoreError::Argon2(text)),
        Ok(digest) => {
            assert(digest matches Some(bytes) && bytes@.take(KEY_LEN as int) =~= bytes@);
            key_from_digest(digest)
        },
    }
}

/// Encrypts the bytes of a chunk under a key and a nonce.
pub fn encrypt_chunk_with_nonce(chunk: &Chunk, key: &[u8; 32], nonce: &[u8; 12]) -> (r: Result<
    Vec<u8>,
    CoreError,
>)
    ensures
        match r {
            Ok(ct) => {
                &&& chunk.data@.len() <= MAX_MESSAGE_LEN
                &&& ct@ == aead_seal(key@, nonce@, chunk.data@, index_bytes(chunk.index))
                &&& seals(nonce@ + ct@, key@, chunk.index, chunk.data@)
            },
            Err(e) => {
                &&& chunk.data@.len() > MAX_MESSAGE_LEN
                &&& e@ == crypto_error()
            },
        },
{
    let aad: [u8; 4] = encode_index(chunk.index);
    match aes256gcm_encrypt(key, nonce, chunk.data.as_slice(), aad.as_slice()) {
        Ok(ct) => {
            assert((nonce@ + ct@).take(NONCE_LEN as int) =~= nonce@);
            assert((nonce@ + ct@).skip(NONCE_LEN as int) =~= ct@);
            Ok(ct)
        },
        Err(text) => Err(CoreError::Crypto(text)),
    }
}

/// Encrypts the bytes of a chunk under a nonce that is drawn anew. Returns the ciphertext and the
/// nonce.
pub fn encrypt_chunk(chunk: &Chunk, key: &[u8; 32]) -> (r: Result<(Vec<u8>, [u8; 12]), CoreError>)
    ensures
        match r {
            Ok((ct, nonce)) => {
                &&& chunk.data@.len() <= MAX_MESSAGE_LEN
                &&& ct@ == aead_seal(key@, nonce@, chunk.data@, index_bytes(chunk.index))
                &&& seals(nonce@ + ct@, key@, chunk.index, chunk.data@)
            },
            Err(e) => {
                &&& chunk.data@.len() > MAX_MESSAGE_LEN
                &&& e@ == crypto_error()
            },
        },
{
    let nonce: [u8; 12] = random_bytes::<12>();
    match encrypt_chunk_with_nonce(chunk, key, &nonce) {
        Ok(ct) => Ok((ct, nonce)),
        Err(e) => Err(e),
    }
}

/// Decrypts one chunk.
pub fn decrypt_chunk(
    index: u32,
    total: u32,
    ciphertext: &[u8],
    nonce: &[u8; 12],
    key: &[u8; 32],
) -> (r: Result<Chunk, CoreError>)
    ensures
        chunk_result_view(r) == decrypted(index, total, ciphertext@, nonce@, key@),
        r matches Ok(chunk) ==> chunk.data@.len() + TAG_LEN == ciphertext@.len(),
{
    let aad: [u8; 4] = encode_index(index);
    match aes256gcm_decrypt(key, nonce, ciphertext, aad.as_slice()) {
        Ok(data) => Ok(Chunk::new(index, total, data)),
        Err(text) => Err(CoreError::Crypto(text)),
    }
}

/// Encrypts a chunk under a nonce that is drawn anew, and puts the nonce before the ciphertext.
pub fn seal_chunk(chunk: &Chunk, key: &[u8; 32]) -> (r: Result<Vec<u8>, CoreError>)
    ensures
        match r {
            Ok(payload) => {
                &&& chunk.data@.len() <= MAX_MESSAGE_LEN
                &&& seals(payload@, key@, chunk.index, chunk.data@)
            },
            Err(e) => {
                &&& chunk.data@.len() > MAX_MESSAGE_LEN
                &&& e@ == crypto_error()
            },
        },
{
    match encrypt_chunk(chunk, key) {
        Ok((ct, nonce)) => {
            let mut payload: Vec<u8> = Vec::new();
            payload.extend_from_slice(nonce.as_slice());
            payload.extend_from_slice(ct.as_slice());
            assert(payload@ =~= nonce@ + ct@);
            Ok(payload)
        },
        Err(e) => Err(e),
    }
}

/// Takes apart a nonce and a ciphertext behind it, and decrypts the chunk. There has to be a whole
/// nonce.
pub fn open_chunk(index: u32, total: u32, buf: &[u8], key: &[u8; 32]) -> (r: Result<
    Chunk,
    CoreError,
>)
    requires
        buf@.len() >= NONCE_LEN,
    ensures
        chunk_result_view(r) == opened(index, total, buf@, key@),
        r matches Ok(chunk) ==> chunk.data@.len() + NONCE_LEN + TAG_LEN == buf@.len(),
{
    let nonce: [u8; 12] = head_array::<12>(buf);
    let ct: &[u8] = vstd::slice::slice_subrange(buf, NONCE_LEN, buf.len());
    assert(ct@ =~= buf@.skip(NONCE_LEN as int));
    decrypt_chunk(index, total, ct, &nonce, key)
}

/// What `seal_chunk` sealed, `open_chunk` gives back, under the same key and chunk number.
pub proof fn law_open_undoes_seal(
    payload: Seq<u8>,
    key: Seq<u8>,
    index: u32,
    total: u32,
    data: Seq<u8>,
)
    requires
        seals(payload, key, index, data),
    ensures
        opened(index, total, payload, key) == Ok::<_, CoreErrorView>(chunk_of(index, total, data)),
{
}

/// What `encrypt_chunk` made of a chunk, `decrypt_chunk` gives back, under the same key and nonce.
pub proof fn law_decrypt_undoes_encrypt(
    ct: Seq<u8>,
    nonce: Seq<u8>,
    key: Seq<u8>,
    index: u32,
    total: u32,
    data: Seq<u8>,
)
    requires
        nonce.len() == NONCE_LEN,
        seals(nonce + ct, key, index, data),
    ensures
        decrypted(index, total, ct, nonce, key) == Ok::<_, CoreErrorView>(
            chunk_of(index, total, data),
        ),
{
    assert((nonce + ct).take(NONCE_LEN as int) =~= nonce);
    assert((nonce + ct).skip(NONCE_LEN as int) =~= ct);
}

/// A sealed chunk whose tag was altered, and nothing else, is refused.
pub proof fn law_altered_tag_is_refused(
    payload: Seq<u8>,
    altered: Seq<u8>,
    key: Seq<u8>,
    index: u32,
    total: u32,
    data: Seq<u8>,
)
    requires
        seals(payload, key, index, data),
        altered != payload,
        altered.len() == payload.len(),
        altered.take(payload.len() - TAG_LEN) == payload.take(payload.len() - TAG_LEN),
    ensures
        opened(index, total, altered, key) == Err::<ChunkView, _>(crypto_error()),
{
    let cut = payload.len() - TAG_LEN;
    let ct = payload.skip(NONCE_LEN as int);
    let other = altered.skip(NONCE_LEN as int);
    assert forall|i: int| 0 <= i < cut implies altered[i] == payload[i] by {
        assert(altered.take(cut)[i] == payload.take(cut)[i]);
    }
    assert(altered.take(NONCE_LEN as int) =~= payload.take(NONCE_LEN as int));
    assert(other.take(ct.len() - TAG_LEN) =~= ct.take(ct.len() - TAG_LEN));
    if other == ct {
        assert(payload =~= payload.take(NONCE_LEN as int) + ct);
        assert(altered =~= altered.take(NONCE_LEN as int) + other);
    }
}

/// A sealed chunk whose nonce was altered, and nothing else, is refused.
pub proof fn law_altered_nonce_is_refused(
    payload: Seq<u8>,
    altered: Seq<u8>,
    key: Seq<u8>,
    index: u32,
    total: u32,
    data: Seq<u8>,
)
    requires
        seals(payload, key, index, data),
        altered != payload,
        altered.len() == payload.len(),
        altered.skip(NONCE_LEN as int) == payload.skip(NONCE_LEN as int),
    ensures
        opened(index, total, altered, key) == Err::<ChunkView, _>(crypto_error()),
{
    if altered.take(NONCE_LEN as int) == payload.take(NONCE_LEN as int) {
        assert(payload =~= payload.take(NONCE_LEN as int) + payload.skip(NONCE_LEN as int));
        assert(altered =~= altered.take(NONCE_LEN as int) + altered.skip(NONCE_LEN as int));
    }
}

/// The numbers of two chunks are written differently.
pub proof fn law_index_bytes_distinct(a: u32, b: u32)
    requires
        index_bytes(a) == index_bytes(b),
    ensures
        a == b,
{
    assert(index_bytes(a)[0] == index_bytes(b)[0]);
    assert(index_bytes(a)[1] == index_bytes(b)[1]);
    assert(index_bytes(a)[2] == index_bytes(b)[2]);
    assert(index_bytes(a)[3] == index_bytes(b)[3]);
}

/// The number of a chunk goes into its seal as four bytes, the most significant first.
pub proof fn law_index_bytes_are_the_number(index: u32)
    ensures
        index_bytes(index).len() == 4,
        index_bytes(index)[0] * 0x100_0000 + index_bytes(index)[1] * 0x1_0000
            + index_bytes(index)[2] * 0x100 + index_bytes(index)[3] == index,
{
}

/// There is one way to write a number as four bytes, the most significant first.
proof fn lemma_number_bytes(index: u32, number: Seq<u8>)
    requires
        number.len() == 4,
        number[0] * 0x100_0000 + number[1] * 0x1_0000 + number[2] * 0x100 + number[3] == index,
    ensures
        number == index_bytes(index),
{
    let (a, b, c, d) = (number[0] as int, number[1] as int, number[2] as int, number[3] as int);
    let n = index as int;
    assert(n / 0x100_0000 == a && n / 0x1_0000 == a * 0x100 + b && n / 0x100 == a * 0x1_0000 + b
        * 0x100 + c);
    assert(index_bytes(index)[0] == number[0]);
    assert(index_bytes(index)[1] == number[1]);
    assert(index_bytes(index)[2] == number[2]);
    assert(index_bytes(index)[3] == number[3]);
    assert(number =~= index_bytes(index));
}

/// The key is the digest: where Argon2 makes one of 32 bytes, the key is that digest; where it fails,
/// there is no key, and its error is handed on.
pub proof fn law_key_is_the_digest(password: Seq<char>, salt: Seq<u8>)
    ensures
        match argon2_digest(password, salt) {
            Ok(Some(digest)) => digest.len() == 32 ==> derived_key(password, salt) == Ok::<
                _,
                CoreErrorView,
            >(digest),
            Ok(None) => derived_key(password, salt) is Err,
            Err(text) => derived_key(password, salt) == Err::<Seq<u8>, _>(
                CoreErrorView::Argon2(text),
            ),
        },
{
    match argon2_digest(password, salt) {
        Ok(Some(digest)) => {
            if digest.len() == 32 {
                assert(digest.take(32) =~= digest);
            }
        },
        _ => {},
    }
}

/// A sealed chunk is a nonce of twelve bytes and what AES-256-GCM makes of its bytes under the key,
/// that nonce and its number, which ends in a tag of sixteen bytes.
pub proof fn law_seal_is_a_nonce_and_a_ciphertext(
    payload: Seq<u8>,
    key: Seq<u8>,
    index: u32,
    data: Seq<u8>,
    number: Seq<u8>,
)
    requires
        seals(payload, key, index, data),
        number.len() == 4,
        number[0] * 0x100_0000 + number[1] * 0x1_0000 + number[2] * 0x100 + number[3] == index,
    ensures
        payload.len() == 12 + data.len() + 16,
        payload.skip(12) == aead_seal(key, payload.take(12), data, number),
{
    lemma_number_bytes(index, number);
}

/// A payload opens exactly if AES-256-GCM opens what stands behind the first twelve bytes, with
/// these as the nonce and the number of the chunk as associated data. The chunk then has the number
/// and the count that were asked for, the bytes that AES-256-GCM gave, and their digest. Otherwise
/// there is an error and no chunk.
pub proof fn law_open_is_what_the_cipher_opens(
    index: u32,
    total: u32,
    payload: Seq<u8>,
    key: Seq<u8>,
    number: Seq<u8>,
)
    requires
        payload.len() >= 12,
        number.len() == 4,
        number[0] * 0x100_0000 + number[1] * 0x1_0000 + number[2] * 0x100 + number[3] == index,
    ensures
        match aead_open(key, payload.take(12), payload.skip(12), number) {
            Some(data) => {
                &&& opened(index, total, payload, key) matches Ok(chunk)
                &&& chunk.index == index
                &&& chunk.total == total
                &&& chunk.data == data
                &&& chunk.hash == sha256(data)
            },
            None => opened(index, total, payload, key) == Err::<ChunkView, _>(
                CoreErrorView::Crypto("aead::Error"@),
            ),
        },
        opened(index, total, payload, key) == decrypted(
            index,
            total,
            payload.skip(12),
            payload.take(12),
            key,
        ),
{
    lemma_number_bytes(index, number);
}

}
