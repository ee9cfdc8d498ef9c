//! The calls into other crates that the library rests on: hashing, key derivation, authenticated
//! encryption, randomness and pictures.

use vstd::prelude::*;
use vstd::utf8::encode_utf8;

verus! {

/// The longest message that AES-GCM takes, in bytes.
pub const MAX_MESSAGE_LEN: u64 = 0x10_0000_0000;

/// The length of the tag that AES-GCM puts behind a ciphertext.
pub const TAG_LEN: usize = 16;

/// The SHA-256 digest of a byte string.
pub uninterp spec fn sha256(data: Seq<u8>) -> Seq<u8>;

/// What Argon2 with its default parameters makes of a password and a salt: the digest, if the hash
/// carries one, or the text of the error.
pub uninterp spec fn argon2_digest(password: Seq<char>, salt: Seq<u8>) -> Result<
    Option<Seq<u8>>,
    Seq<char>,
>;

/// The ciphertext, with its tag, that AES-256-GCM makes of a message under a key, a nonce and
/// associated data.
pub uninterp spec fn aead_seal(key: Seq<u8>, nonce: Seq<u8>, msg: Seq<u8>, aad: Seq<u8>) -> Seq<u8>;

/// The message that AES-256-GCM finds in a ciphertext with its tag; `None` where it refuses the
/// ciphertext.
pub uninterp spec fn aead_open(key: Seq<u8>, nonce: Seq<u8>, ct: Seq<u8>, aad: Seq<u8>) -> Option<
    Seq<u8>,
>;

/// Under a key and associated data, a ciphertext opens with no nonce but this one, and what stands
/// before its tag opens with no tag but its own.
pub open spec fn opens_alone(key: Seq<u8>, nonce: Seq<u8>, ct: Seq<u8>, aad: Seq<u8>) -> bool {
    &&& forall|other: Seq<u8>|
        other.len() == nonce.len() && other != nonce ==> (#[trigger] aead_open(
            key,
            other,
            ct,
            aad,
        )) is None
    &&& forall|other: Seq<u8>|
        other.len() == ct.len() && other != ct && other.take(ct.len() - TAG_LEN) == ct.take(
            ct.len() - TAG_LEN,
        ) ==> (#[trigger] aead_open(key, nonce, other, aad)) is None
}

/// The view of a digest, or of the text of an error.
pub open spec fn digest_view(r: Result<Option<Vec<u8>>, String>) -> Result<
    Option<Seq<u8>>,
    Seq<char>,
> {
    match r {
        Ok(Some(d)) => Ok(Some(d@)),
        Ok(None) => Ok(None),
        Err(e) => Err(e@),
    }
}

/// The passwords and salts that Argon2 hashes: the salt has between 8 and 48 bytes, the password
/// fewer than 2^32.
pub open spec fn hashable(password: Seq<char>, salt: Seq<u8>) -> bool {
    8 <= salt.len() <= 48 && encode_utf8(password).len() <= u32::MAX
}

/// Calls `sha2::Sha256::digest`. The result is a function of the bytes alone, named `sha256`.
#[verifier::external_body]
pub(crate) fn sha256_digest(data: &[u8]) -> (hash: [u8; 32])
    ensures
        hash@ == sha256(data@),
{
    <sha2::Sha256 as sha2::Digest>::digest(data).into()
}

/// Calls `hash_password` of `argon2::Argon2::default()`, on the salt as
/// `password_hash::SaltString::encode_b64` writes it.
///
/// The result is a function of the password and the salt, named `argon2_digest`. The salt has to
/// hold three bytes at least: on a shorter one the call panics. It succeeds exactly when the salt
/// has between 8 and 48 bytes and the password has fewer than 2^32 bytes, and then gives a digest
/// of 32 bytes.
#[verifier::external_body]
pub(crate) fn argon2_hash_password(password: &str, salt: &[u8]) -> (r: Result<
    Option<Vec<u8>>,
    String,
>)
    requires
        salt@.len() >= 3,
    ensures
        digest_view(r) == argon2_digest(password@, salt@),
        match r {
            Ok(d) => hashable(password@, salt@) && (d matches Some(bytes) && bytes@.len() == 32),
            Err(_) => !hashable(password@, salt@),
        },
{
    let salt = match argon2::password_hash::SaltString::encode_b64(salt) {
        Ok(s) => s,
        Err(e) => return Err(e.to_string()),
    };
    let hasher = argon2::Argon2::default();
    match argon2::PasswordHasher::hash_password(&hasher, password.as_bytes(), &salt) {
        Ok(hash) => Ok(hash.hash.map(|digest| digest.as_bytes().to_vec())),
        Err(e) => Err(e.to_string()),
    }
}

/// Calls `Aead::encrypt` of `aes_gcm::Aes256Gcm`.
///
/// The result is a function of the arguments, named `aead_seal`: as long as the message and a tag
/// together, and opened by the same key, nonce and associated data. The call fails exactly when
/// the message or the associated data is longer than `MAX_MESSAGE_LEN`, always with the same text.
///
/// With another tag or another nonce alone the ciphertext does not open. The tag that is asked for
/// is a hash, under the key, of the associated data and of what stands before the tag, masked with
/// the AES block of the nonce and compared whole; and under one key AES makes no one block of two.
/// That it does not open under another key, with other associated data or with other bytes before
/// the tag is a matter of likelihood, and is not claimed.
#[verifier::external_body]
pub(crate) fn aes256gcm_encrypt(
    key: &[u8; 32],
    nonce: &[u8; 12],
    msg: &[u8],
    aad: &[u8],
) -> (r: Result<Vec<u8>, String>)
    ensures
        match r {
            Ok(ct) => {
                &&& msg@.len() <= MAX_MESSAGE_LEN && aad@.len() <= MAX_MESSAGE_LEN
                &&& ct@ == aead_seal(key@, nonce@, msg@, aad@)
                &&& ct@.len() == msg@.len() + TAG_LEN
                &&& aead_open(key@, nonce@, ct@, aad@) == Some(msg@)
                &&& opens_alone(key@, nonce@, ct@, aad@)
            },
            Err(e) => {
                &&& msg@.len() > MAX_MESSAGE_LEN || aad@.len() > MAX_MESSAGE_LEN
                &&& e@ == "aead::Error"@
            },
        },
{
    let cipher = <aes_gcm::Aes256Gcm as aes_gcm::KeyInit>::new(key.into());
    aes_gcm::aead::Aead::encrypt(&cipher, nonce.into(), aes_gcm::aead::Payload { msg, aad })
        .map_err(|e| e.to_string())
}

/// Calls `Aead::decrypt` of `aes_gcm::Aes256Gcm`.
///
/// The result is a function of the arguments, named `aead_open`; a message is as long as the
/// ciphertext without its tag, so nothing shorter than a tag opens. Where the call fails, the text
/// is always the same.
#[verifier::external_body]
pub(crate) fn aes256gcm_decrypt(
    key: &[u8; 32],
    nonce: &[u8; 12],
    ct: &[u8],
    aad: &[u8],
) -> (r: Result<Vec<u8>, String>)
    ensures
        match r {
            Ok(msg) => {
                &&& aead_open(key@, nonce@, ct@, aad@) == Some(msg@)
                &&& ct@.len() == msg@.len() + TAG_LEN
            },
            Err(e) => {
                &&& aead_open(key@, nonce@, ct@, aad@) is None
                &&& e@ == "aead::Error"@
            },
        },
{
    let cipher = <aes_gcm::Aes256Gcm as aes_gcm::KeyInit>::new(key.into());
    aes_gcm::aead::Aead::decrypt(&cipher, nonce.into(), aes_gcm::aead::Payload { msg: ct, aad })
        .map_err(|e| e.to_string())
}

/// Calls `fill_bytes` of `rand::thread_rng()` on an array. Nothing is claimed of the bytes: they
/// are drawn at random.
#[verifier::external_body]
pub(crate) fn random_bytes<const N: usize>() -> (bytes: [u8; N]) {
    let mut bytes = [0u8; N];
    rand::RngCore::fill_bytes(&mut rand::thread_rng(), &mut bytes);
    bytes
}

/// What the bytes of a picture stand for, pixel by pixel: brightness, or red, green and blue, and
/// opacity behind them or not.
#[derive(Debug, PartialEq, Eq, Structural, Clone, Copy)]
pub enum Layout {
    Luma,
    LumaAlpha,
    Rgb,
    Rgba,
}

impl Layout {
    /// How many bytes a pixel has.
    pub open spec fn pixel_len(self) -> u8 {
        match self {
            Layout::Luma => 1,
            Layout::LumaAlpha => 2,
            Layout::Rgb => 3,
            Layout::Rgba => 4,
        }
    }
}

/// The most pixels that a picture may have for its thumbnail to be made: a byte for each fills the
/// memory that the `image` crate allows a picture.
pub const MAX_PIXELS: u64 = 0x2000_0000;

/// The bytes are those of a picture of this layout, width and height.
pub open spec fn fills(layout: Layout, width: u32, height: u32, samples: Seq<u8>) -> bool {
    samples.len() == width * height * layout.pixel_len()
}

/// The width, the height and the bytes of a picture, given by the bytes of its pixels, its width,
/// its height and its bytes, that was made to fit a width and a height.
pub uninterp spec fn shrunk(
    pixel_len: u8,
    width: u32,
    height: u32,
    samples: Seq<u8>,
    to_width: u32,
    to_height: u32,
) -> (u32, u32, Seq<u8>);

/// The JPEG, in a quality, of a picture given by the bytes of its pixels, its width, its height and
/// its bytes.
pub uninterp spec fn jpeg_of(
    pixel_len: u8,
    width: u32,
    height: u32,
    samples: Seq<u8>,
    quality: u8,
) -> Seq<u8>;

/// Calls `image::DynamicImage::thumbnail` on a picture of one byte for each sample.
///
/// What comes back is a function of the arguments, named `shrunk`. It has the layout of the picture,
/// lies within the bounds, and no side of it is zero. The call adds up the samples of a cell in 32
/// bits. No cell has more than a 128th of the pixels, and a little, where neither bound is less than
/// 128; so bytes of up to `MAX_PIXELS` pixels stay within the 32 bits. The upper limit on the bounds
/// keeps the size of the result within what can be counted.
#[verifier::external_body]
pub(crate) fn shrink_picture(
    layout: Layout,
    width: u32,
    height: u32,
    samples: Vec<u8>,
    to_width: u32,
    to_height: u32,
) -> (r: (u32, u32, Vec<u8>))
    requires
        fills(layout, width, height, samples@),
        width * height <= MAX_PIXELS,
        128 <= to_width <= 4096,
        128 <= to_height <= 4096,
    ensures
        (r.0, r.1, r.2@) == shrunk(
            layout.pixel_len(),
            width,
            height,
            samples@,
            to_width,
            to_height,
        ),
        1 <= r.0 <= to_width,
        1 <= r.1 <= to_height,
        fills(layout, r.0, r.1, r.2@),
{
    let (w, h) = (width, height);
    let picture = match layout {
        Layout::Luma => image::GrayImage::from_raw(w, h, samples).map(image::DynamicImage::from),
        Layout::LumaAlpha => {
            image::GrayAlphaImage::from_raw(w, h, samples).map(image::DynamicImage::from)
        },
        Layout::Rgb => image::RgbImage::from_raw(w, h, samples).map(image::DynamicImage::from),
        Layout::Rgba => image::RgbaImage::from_raw(w, h, samples).map(image::DynamicImage::from),
    };
    let small = picture.unwrap().thumbnail(to_width, to_height);
    (small.width(), small.height(), small.into_bytes())
}

/// Calls `image::DynamicImage::write_to` for a JPEG, on a picture of one byte for each sample.
///
/// The bytes are a function of the arguments, named `jpeg_of`. The call succeeds on every layout and
/// every size that a JPEG can state.
#[verifier::external_body]
pub(crate) fn encode_jpeg(
    layout: Layout,
    width: u32,
    height: u32,
    samples: Vec<u8>,
    quality: u8,
) -> (jpeg: Vec<u8>)
    requires
        fills(layout, width, height, samples@),
        1 <= width <= 0xffff,
        1 <= height <= 0xffff,
        1 <= quality <= 100,
    ensures
        jpeg@ == jpeg_of(layout.pixel_len(), width, height, samples@, quality),
{
    let (w, h, mut bytes) = (width, height, Vec::new());
    let picture = match layout {
        Layout::Luma => image::GrayImage::from_raw(w, h, samples).map(image::DynamicImage::from),
        Layout::LumaAlpha => {
            image::GrayAlphaImage::from_raw(w, h, samples).map(image::DynamicImage::from)
        },
        Layout::Rgb => image::RgbImage::from_raw(w, h, samples).map(image::DynamicImage::from),
        Layout::Rgba => image::RgbaImage::from_raw(w, h, samples).map(image::DynamicImage::from),
    };
    let format = image::ImageOutputFormat::Jpeg(quality);
    picture.unwrap().write_to(&mut std::io::Cursor::new(&mut bytes), format).unwrap();
    bytes
}

}
