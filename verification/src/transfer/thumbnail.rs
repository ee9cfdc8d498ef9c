//! Small pictures of image files: making, sealing and opening them.

use vstd::prelude::*;

use super::download::{file_key, file_key_spec};
use super::upload::{carries, SALT_LEN};
use crate::chunk::{chunk_of, Chunk, CoreError, CoreErrorView};
use crate::crypto::{
    crypto_error, derive_key, derived_key, law_seal_is_a_nonce_and_a_ciphertext, open_chunk,
    opened, seal_chunk, seals, NONCE_LEN,
};
use crate::external::{
    aead_seal, encode_jpeg, fills, hashable, jpeg_of, shrink_picture, shrunk, Layout,
    MAX_MESSAGE_LEN, MAX_PIXELS,
};
use crate::storage::models::{FilePart, Thumbnail, ThumbnailView};
use crate::text::{
    append_signed, is_lowered, law_lowered_letters, law_signed_decimal_tells, lowered,
    signed_decimal, to_chars,
};

verus! {

/// The folder in which sealed thumbnails are kept at hand.
pub const TEMP_FOLDER: &'static str = "temp";

/// The greatest width and height of a thumbnail.
pub const THUMBNAIL_SIDE: u32 = 128;

/// The quality of a thumbnail's JPEG.
pub const THUMBNAIL_QUALITY: u8 = 80;

/// A file extension, if there is one, stands for an image: case does not matter.
pub open spec fn image_extension(extension: Option<Seq<char>>) -> bool {
    match extension {
        None => false,
        Some(text) => {
            let word = lowered(text);
            ||| word == "jpg"@
            ||| word == "jpeg"@
            ||| word == "png"@
            ||| word == "gif"@
            ||| word == "bmp"@
            ||| word == "webp"@
        },
    }
}

/// The view of an optional text.
pub open spec fn extension_view(extension: Option<&str>) -> Option<Seq<char>> {
    match extension {
        Some(text) => Some(text@),
        None => None,
    }
}

/// Whether a file extension stands for an image.
pub fn is_image(extension: Option<&str>) -> (image: bool)
    ensures
        image == image_extension(extension_view(extension)),
{
    match extension {
        None => false,
        Some(text) => {
            let chars: Vec<char> = to_chars(text);
            is_lowered(&chars, "jpg") || is_lowered(&chars, "jpeg") || is_lowered(&chars, "png")
                || is_lowered(&chars, "gif") || is_lowered(&chars, "bmp") || is_lowered(
                &chars,
                "webp",
            )
        },
    }
}

/// A thumbnail that is to be sent: a JPEG and its size.
#[derive(Debug)]
pub struct Picture {
    pub width: i32,
    pub height: i32,
    pub jpeg: Vec<u8>,
}

/// A `Picture` as mathematical values.
pub struct PictureView {
    pub width: i32,
    pub height: i32,
    pub jpeg: Seq<u8>,
}

impl View for Picture {
    type V = PictureView;

    open spec fn view(&self) -> PictureView {
        PictureView { width: self.width, height: self.height, jpeg: self.jpeg@ }
    }
}

/// The view of a thumbnail, if there is one.
pub open spec fn optional_picture(picture: Option<Picture>) -> Option<PictureView> {
    match picture {
        Some(picture) => Some(picture@),
        None => None,
    }
}

/// A picture with one byte for each sample.
pub struct Raster {
    layout: Layout,
    width: u32,
    height: u32,
    samples: Vec<u8>,
}

/// A `Raster` as mathematical values.
pub struct RasterView {
    pub layout: Layout,
    pub width: u32,
    pub height: u32,
    pub samples: Seq<u8>,
}

impl View for Raster {
    type V = RasterView;

    closed spec fn view(&self) -> RasterView {
        RasterView {
            layout: self.layout,
            width: self.width,
            height: self.height,
            samples: self.samples@,
        }
    }
}

impl Raster {
    /// The bytes are those of a picture of the layout and the size.
    #[verifier::type_invariant]
    spec fn inv(self) -> bool {
        fills(self.layout, self.width, self.height, self.samples@)
    }

    /// A picture, if the bytes are as many as its layout and its size ask for.
    pub fn new(layout: Layout, width: u32, height: u32, samples: Vec<u8>) -> (r: Option<Raster>)
        ensures
            match r {
                Some(raster) => {
                    &&& fills(layout, width, height, samples@)
                    &&& raster@ == (RasterView { layout, width, height, samples: samples@ })
                },
                None => !fills(layout, width, height, samples@),
            },
    {
        let pixel_len: u128 = match layout {
            Layout::Luma => 1,
            Layout::LumaAlpha => 2,
            Layout::Rgb => 3,
            Layout::Rgba => 4,
        };
        assert(width * height <= 0xffff_ffff * 0xffff_ffff) by (nonlinear_arith)
            requires
                width <= 0xffff_ffff,
                height <= 0xffff_ffff,
        ;
        let pixels: u128 = width as u128 * height as u128;
        assert(pixels * pixel_len == width * height * layout.pixel_len()) by (nonlinear_arith)
            requires
                pixels == width * height,
                pixel_len == layout.pixel_len(),
        ;
        assert(pixels * pixel_len <= pixels * 4) by (nonlinear_arith)
            requires
                pixel_len <= 4,
        ;
        if samples.len() as u128 == pixels * pixel_len {
            Some(Raster { layout, width, height, samples })
        } else {
            None
        }
    }
}

/// What came of reading a file as an image.
pub enum Decoded {
    /// It is none, or not one that can be read.
    Unreadable,
    /// It is one with samples of more than a byte, which no JPEG can hold.
    Deep,
    /// It is one with a byte for each sample.
    Bytes(Raster),
}

/// A `Decoded` as mathematical values.
pub enum DecodedView {
    Unreadable,
    Deep,
    Bytes(RasterView),
}

impl View for Decoded {
    type V = DecodedView;

    open spec fn view(&self) -> DecodedView {
        match self {
            Decoded::Unreadable => DecodedView::Unreadable,
            Decoded::Deep => DecodedView::Deep,
            Decoded::Bytes(raster) => DecodedView::Bytes(raster@),
        }
    }
}

/// The thumbnail of a picture: made small, and written as a JPEG.
pub open spec fn thumbnail_of(raster: RasterView) -> PictureView {
    let pixel_len = raster.layout.pixel_len();
    let (width, height, samples) = shrunk(
        pixel_len,
        raster.width,
        raster.height,
        raster.samples,
        THUMBNAIL_SIDE,
        THUMBNAIL_SIDE,
    );
    PictureView {
        width: width as i32,
        height: height as i32,
        jpeg: jpeg_of(pixel_len, width, height, samples, THUMBNAIL_QUALITY),
    }
}

/// The thumbnail of a file: none of a file that is not called an image or does not hold one with a
/// byte for each sample, nor of one that is too large.
pub open spec fn thumbnail_spec(extension: Option<Seq<char>>, decoded: DecodedView) -> Option<
    PictureView,
> {
    match decoded {
        DecodedView::Bytes(raster) => if image_extension(extension) && raster.width * raster.height
            <= MAX_PIXELS {
            Some(thumbnail_of(raster))
        } else {
            None
        },
        _ => None,
    }
}

/// Makes the thumbnail of a file from what came of reading it as an image. What the pixels of the
/// thumbnail and the bytes of its JPEG are is up to the `image` crate.
pub fn make_thumbnail(extension: Option<&str>, decoded: Decoded) -> (picture: Option<Picture>)
    ensures
        optional_picture(picture) == thumbnail_spec(extension_view(extension), decoded@),
        picture is Some <==> {
            &&& image_extension(extension_view(extension))
            &&& decoded@ matches DecodedView::Bytes(raster)
            &&& raster.width * raster.height <= MAX_PIXELS
        },
        picture matches Some(p) ==> {
            &&& 1 <= p.width <= THUMBNAIL_SIDE
            &&& 1 <= p.height <= THUMBNAIL_SIDE
        },
{
    if !is_image(extension) {
        return None;
    }
    match decoded {
        Decoded::Unreadable => None,
        Decoded::Deep => None,
        Decoded::Bytes(raster) => {
            proof {
                use_type_invariant(&raster);
            }
            assert(raster.width * raster.height <= 0xffff_ffff * 0xffff_ffff) by (nonlinear_arith)
                requires
                    raster.width <= 0xffff_ffff,
                    raster.height <= 0xffff_ffff,
            ;
            if raster.width as u64 * raster.height as u64 > MAX_PIXELS {
                return None;
            }
            let layout: Layout = raster.layout;
            let (width, height, samples) = shrink_picture(
                layout,
                raster.width,
                raster.height,
                raster.samples,
                THUMBNAIL_SIDE,
                THUMBNAIL_SIDE,
            );
            let jpeg: Vec<u8> = encode_jpeg(layout, width, height, samples, THUMBNAIL_QUALITY);
            Some(Picture { width: width as i32, height: height as i32, jpeg })
        },
    }
}

/// `payload` is a thumbnail sealed as the only chunk of its own, under the key of its file.
pub open spec fn seals_thumbnail(
    payload: Seq<u8>,
    password: Seq<char>,
    salt: Seq<u8>,
    jpeg: Seq<u8>,
) -> bool {
    match derived_key(password, salt) {
        Ok(key) => seals(payload, key, 0, jpeg),
        Err(_) => false,
    }
}

/// Seals a thumbnail under the password and the salt of its file.
pub fn seal_thumbnail(password: &str, salt: &[u8; 16], jpeg: Vec<u8>) -> (r: Result<
    Vec<u8>,
    CoreError,
>)
    ensures
        match r {
            Ok(payload) => {
                &&& jpeg@.len() <= MAX_MESSAGE_LEN
                &&& seals_thumbnail(payload@, password@, salt@, jpeg@)
            },
            Err(e) => match derived_key(password@, salt@) {
                Err(cause) => e@ == cause,
                Ok(_) => jpeg@.len() > MAX_MESSAGE_LEN && e@ == crypto_error(),
            },
        },
        r is Ok <==> hashable(password@, salt@) && jpeg@.len() <= MAX_MESSAGE_LEN,
{
    match derive_key(password, salt.as_slice()) {
        Err(e) => Err(e),
        Ok(key) => {
            let chunk: Chunk = Chunk::new(0, 1, jpeg);
            seal_chunk(&chunk, &key)
        },
    }
}

/// The record of a thumbnail that was sent. Its number comes from the catalogue.
pub fn thumbnail_row(file_id: i64, file_id_tg: String, width: i32, height: i32) -> (row: Thumbnail)
    ensures
        row@ == (ThumbnailView {
            id: 0,
            file_id,
            file_id_tg: file_id_tg@,
            width: Some(width),
            height: Some(height),
        }),
        row.file_id == file_id,
        row.file_id_tg@ == file_id_tg@,
        row.width == Some(width),
        row.height == Some(height),
{
    Thumbnail { id: 0, file_id, file_id_tg, width: Some(width), height: Some(height) }
}

/// The name of the file in which the sealed thumbnail of a file is kept at hand.
pub open spec fn cache_name_spec(file_id: i64) -> Seq<char> {
    "thumbnail_"@ + signed_decimal(file_id as int) + ".bin"@
}

/// The name of the file in which the sealed thumbnail of a file is kept at hand.
pub fn cache_name(file_id: i64) -> (name: String)
    ensures
        name@ == cache_name_spec(file_id),
{
    let mut name: String = "thumbnail_".to_string();
    append_signed(&mut name, file_id);
    name.append(".bin");
    name
}

/// What is to be done next for a thumbnail.
pub enum ThumbnailStep {
    /// Fetch the first part of the file, which the chat service keeps under this name: it holds
    /// the salt.
    FetchFirst(String),
    /// Look up the record of the thumbnail; this is the key of the file.
    LookUp([u8; 32]),
    /// See whether there is a file of this name at hand; the name that comes last is the one under
    /// which the chat service keeps the sealed thumbnail.
    Seek([u8; 32], String, String),
    /// Read the sealed thumbnail from the file of this name at hand.
    ReadAtHand([u8; 32], String),
    /// Fetch the sealed thumbnail, which the chat service keeps under the first name, and keep it at
    /// hand in a file of the second.
    FetchAndKeep([u8; 32], String, String),
    /// This is the thumbnail, if there is one.
    Done(Option<Vec<u8>>),
    /// The thumbnail cannot be had.
    Failed(CoreError),
}

/// Starts to fetch the thumbnail of a file with the given parts. A file without parts has none.
pub fn start(parts: &Vec<FilePart>) -> (step: ThumbnailStep)
    ensures
        if parts@.len() == 0 {
            step == ThumbnailStep::Done(None)
        } else {
            step matches ThumbnailStep::FetchFirst(name) && name@ == parts@[0].file_id_tg@
        },
{
    if parts.is_empty() {
        ThumbnailStep::Done(None)
    } else {
        ThumbnailStep::FetchFirst(parts[0].file_id_tg.clone())
    }
}

/// Takes in the first part of the file, which has to hold a whole salt and a whole nonce.
pub fn first_received(password: &str, first: &[u8]) -> (step: ThumbnailStep)
    requires
        first@.len() >= SALT_LEN + NONCE_LEN,
    ensures
        match file_key_spec(password@, first@) {
            Ok(key) => step matches ThumbnailStep::LookUp(k) && k@ == key,
            Err(cause) => step matches ThumbnailStep::Failed(e) && e@ == cause,
        },
        step is LookUp <==> vstd::utf8::encode_utf8(password@).len() <= u32::MAX,
{
    match file_key(password, first) {
        Ok(key) => ThumbnailStep::LookUp(key),
        Err(e) => ThumbnailStep::Failed(e),
    }
}

/// Takes in the record of the thumbnail, if there is one.
pub fn looked_up(key: [u8; 32], row: Option<Thumbnail>) -> (step: ThumbnailStep)
    ensures
        match row {
            None => step == ThumbnailStep::Done(None),
            Some(thumb) => {
                &&& step matches ThumbnailStep::Seek(k, cached, name)
                &&& k == key
                &&& cached@ == cache_name_spec(thumb.file_id)
                &&& name@ == thumb.file_id_tg@
            },
        },
{
    match row {
        None => ThumbnailStep::Done(None),
        Some(thumb) => ThumbnailStep::Seek(key, cache_name(thumb.file_id), thumb.file_id_tg),
    }
}

/// Takes in whether there is a file at hand: then it is read, and nothing is fetched.
pub fn sought(key: [u8; 32], cached: String, file_id_tg: String, at_hand: bool) -> (step:
    ThumbnailStep)
    ensures
        if at_hand {
            step == ThumbnailStep::ReadAtHand(key, cached)
        } else {
            step == ThumbnailStep::FetchAndKeep(key, file_id_tg, cached)
        },
{
    if at_hand {
        ThumbnailStep::ReadAtHand(key, cached)
    } else {
        ThumbnailStep::FetchAndKeep(key, file_id_tg, cached)
    }
}

/// Takes in the sealed thumbnail, which has to hold a whole nonce.
pub fn loaded(key: &[u8; 32], payload: &[u8]) -> (step: ThumbnailStep)
    requires
        payload@.len() >= NONCE_LEN,
    ensures
        match opened(0, 1, payload@, key@) {
            Ok(chunk) => {
                &&& step matches ThumbnailStep::Done(Some(jpeg))
                &&& jpeg@ == chunk.data
            },
            Err(cause) => step matches ThumbnailStep::Failed(e) && e@ == cause,
        },
{
    match open_chunk(0, 1, payload, key) {
        Ok(chunk) => ThumbnailStep::Done(Some(chunk.data)),
        Err(e) => ThumbnailStep::Failed(e),
    }
}

/// A thumbnail that was sealed for a file comes back as it was: the first part of the file gives
/// the key, and under that key the sealed thumbnail opens.
pub proof fn law_thumbnail_comes_back(
    payload: Seq<u8>,
    password: Seq<char>,
    salt: Seq<u8>,
    jpeg: Seq<u8>,
    first: Seq<u8>,
    key: Seq<u8>,
    piece: Seq<u8>,
)
    requires
        seals_thumbnail(payload, password, salt, jpeg),
        derived_key(password, salt) == Ok::<_, CoreErrorView>(key),
        carries(first, salt, key, 0, piece),
    ensures
        first.len() >= SALT_LEN + NONCE_LEN,
        file_key_spec(password, first) == Ok::<_, CoreErrorView>(key),
        payload.len() >= NONCE_LEN,
        opened(0, 1, payload, key) == Ok::<_, CoreErrorView>(chunk_of(0, 1, jpeg)),
{
}

/// A text has the letters of a word in small letters, each of them small or capital.
pub open spec fn spells(text: Seq<char>, word: Seq<char>) -> bool {
    &&& text.len() == word.len()
    &&& forall|i: int|
        0 <= i < word.len() ==> {
            ||| #[trigger] text[i] == word[i]
            ||| text[i] as nat + 32 == word[i] as nat
        }
}

/// A text in small letters is a word exactly if it spells the word.
proof fn lemma_spells(text: Seq<char>, word: Seq<char>)
    requires
        forall|i: int| 0 <= i < word.len() ==> 'a' <= #[trigger] word[i] <= 'z',
    ensures
        lowered(text) == word <==> spells(text, word),
{
    if lowered(text) == word {
        assert forall|i: int| 0 <= i < word.len() implies {
            ||| #[trigger] text[i] == word[i]
            ||| text[i] as nat + 32 == word[i] as nat
        } by {
            law_lowered_letters(text, i);
        }
    }
    if spells(text, word) {
        assert forall|i: int| 0 <= i < word.len() implies lowered(text)[i] == word[i] by {
            law_lowered_letters(text, i);
            assert('a' <= word[i] <= 'z');
            assert(text[i] == word[i] || text[i] as nat + 32 == word[i] as nat);
        }
        assert(lowered(text) =~= word);
    }
}

/// The extensions of images are these six, in letters of either case.
pub proof fn law_image_extensions(text: Seq<char>)
    ensures
        image_extension(Some(text)) <==> {
            ||| spells(text, seq!['j', 'p', 'g'])
            ||| spells(text, seq!['j', 'p', 'e', 'g'])
            ||| spells(text, seq!['p', 'n', 'g'])
            ||| spells(text, seq!['g', 'i', 'f'])
            ||| spells(text, seq!['b', 'm', 'p'])
            ||| spells(text, seq!['w', 'e', 'b', 'p'])
        },
        !image_extension(None),
{
    reveal_strlit("jpg");
    reveal_strlit("jpeg");
    reveal_strlit("png");
    reveal_strlit("gif");
    reveal_strlit("bmp");
    reveal_strlit("webp");
    lemma_spells(text, seq!['j', 'p', 'g']);
    lemma_spells(text, seq!['j', 'p', 'e', 'g']);
    lemma_spells(text, seq!['p', 'n', 'g']);
    lemma_spells(text, seq!['g', 'i', 'f']);
    lemma_spells(text, seq!['b', 'm', 'p']);
    lemma_spells(text, seq!['w', 'e', 'b', 'p']);
    assert("jpg"@ =~= seq!['j', 'p', 'g']);
    assert("jpeg"@ =~= seq!['j', 'p', 'e', 'g']);
    assert("png"@ =~= seq!['p', 'n', 'g']);
    assert("gif"@ =~= seq!['g', 'i', 'f']);
    assert("bmp"@ =~= seq!['b', 'm', 'p']);
    assert("webp"@ =~= seq!['w', 'e', 'b', 'p']);
}

/// Every picture that could be read, with a byte for each sample and no more than 2^29 pixels, in a
/// file with the extension of an image, has a thumbnail: what the picture is when it is made to fit
/// 128 by 128 pixels, as a JPEG of quality 80.
pub proof fn law_every_picture_has_a_thumbnail(extension: Seq<char>, raster: RasterView)
    requires
        image_extension(Some(extension)),
        raster.width * raster.height <= 0x2000_0000,
    ensures
        ({
            let pixel_len = raster.layout.pixel_len();
            let small = shrunk(
                pixel_len,
                raster.width,
                raster.height,
                raster.samples,
                128,
                128,
            );
            &&& thumbnail_spec(Some(extension), DecodedView::Bytes(raster)) matches Some(picture)
            &&& picture.width == small.0 as i32
            &&& picture.height == small.1 as i32
            &&& picture.jpeg == jpeg_of(pixel_len, small.0, small.1, small.2, 80)
        }),
{
}

/// Nothing else has a thumbnail: no file without the extension of an image, and none that could not
/// be read as one with a byte for each sample.
pub proof fn law_nothing_else_has_a_thumbnail(extension: Option<Seq<char>>, decoded: DecodedView)
    ensures
        thumbnail_spec(extension, decoded) is Some ==> {
            &&& image_extension(extension)
            &&& decoded matches DecodedView::Bytes(raster)
            &&& raster.width * raster.height <= 0x2000_0000
        },
{
}

/// A sealed thumbnail is a nonce of twelve bytes and what AES-256-GCM makes of the JPEG, under the key
/// of the file, that nonce and the number zero.
pub proof fn law_sealed_thumbnail_layout(
    payload: Seq<u8>,
    password: Seq<char>,
    salt: Seq<u8>,
    jpeg: Seq<u8>,
)
    requires
        seals_thumbnail(payload, password, salt, jpeg),
    ensures
        derived_key(password, salt) matches Ok(key) && payload.skip(12) == aead_seal(
            key,
            payload.take(12),
            jpeg,
            seq![0u8, 0u8, 0u8, 0u8],
        ),
        payload.len() == 12 + jpeg.len() + 16,
{
    let key = derived_key(password, salt)->Ok_0;
    law_seal_is_a_nonce_and_a_ciphertext(payload, key, 0, jpeg, seq![0u8, 0u8, 0u8, 0u8]);
}

/// The thumbnails of two files are not kept at hand under one name; and the name has the number of
/// the file in it.
pub proof fn law_cache_names_tell(a: i64, b: i64)
    ensures
        cache_name_spec(a) == "thumbnail_"@ + signed_decimal(a as int) + ".bin"@,
        cache_name_spec(a) == cache_name_spec(b) ==> a == b,
{
    let head = "thumbnail_"@;
    let tail = ".bin"@;
    let x = signed_decimal(a as int);
    let y = signed_decimal(b as int);
    if head + x + tail == head + y + tail {
        assert(x.len() == y.len()) by {
            assert((head + x + tail).len() == head.len() + x.len() + tail.len());
            assert((head + y + tail).len() == head.len() + y.len() + tail.len());
        }
        assert forall|i: int| 0 <= i < x.len() implies x[i] == y[i] by {
            assert((head + x + tail)[head.len() + i] == x[i]);
            assert((head + y + tail)[head.len() + i] == y[i]);
        }
        assert(x =~= y);
        law_signed_decimal_tells(a as int, b as int);
    }
}

/// The bytes of a picture are as many as its pixels, times one for each of brightness, red, green,
/// blue and opacity that a pixel has.
pub proof fn law_samples_of_a_picture(layout: Layout, width: u32, height: u32, samples: Seq<u8>)
    ensures
        fills(layout, width, height, samples) <==> samples.len() == width * height * match layout {
            Layout::Luma => 1int,
            Layout::LumaAlpha => 2int,
            Layout::Rgb => 3int,
            Layout::Rgba => 4int,
        },
{
}

}
