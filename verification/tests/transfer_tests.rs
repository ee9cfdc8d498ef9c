use tg_storage::chunk::{Chunk, CoreError, DEFAULT_CHUNK_SIZE};
use tg_storage::crypto::derive_key;
use tg_storage::external::Layout;
use tg_storage::storage::models::{FilePart, Thumbnail};
use tg_storage::transfer::download::{file_key, Download, DownloadStep};
use tg_storage::transfer::thumbnail;
use tg_storage::transfer::thumbnail::{
    cache_name, is_image, make_thumbnail, seal_thumbnail, thumbnail_row, Decoded, Picture, Raster,
    ThumbnailStep, TEMP_FOLDER,
};
use tg_storage::transfer::upload::{
    file_row, total_parts, Upload, UploadStart, UploadStep, SALT_LEN,
};

fn sent(step: UploadStep) -> (Upload, FilePart, Vec<u8>) {
    match step {
        UploadStep::Send(part, payload) => {
            let name = format!("tg{}", part.index());
            let (row, upload) = part.sent(name);
            (upload, row, payload)
        }
        UploadStep::Read(_) => panic!("more is to be read"),
        UploadStep::Finished(_) => panic!("finished"),
    }
}

fn more(step: UploadStep) -> Upload {
    match step {
        UploadStep::Read(upload) => upload,
        UploadStep::Send(_, _) => panic!("a part is to be sent"),
        UploadStep::Finished(_) => panic!("finished"),
    }
}

fn next(upload: Upload, piece: &[u8]) -> (Upload, FilePart, Vec<u8>) {
    sent(more(upload.read(piece.to_vec())).read(Vec::new()))
}

fn send(password: &str, pieces: &[&[u8]]) -> (Vec<FilePart>, Vec<Vec<u8>>, [u8; 16]) {
    let mut upload = UploadStart::start(password, 100).unwrap().recorded(5);
    let mut rows = Vec::new();
    let mut payloads = Vec::new();
    for piece in pieces {
        let (later, row, payload) = next(upload, piece);
        upload = later;
        rows.push(row);
        payloads.push(payload);
    }
    match upload.read(Vec::new()) {
        UploadStep::Finished(salt) => (rows, payloads, salt),
        _ => panic!("not finished"),
    }
}

fn fetch(parts: Vec<FilePart>, payloads: &[Vec<u8>], password: &str) -> Result<Vec<u8>, CoreError> {
    let mut step = Download::start(parts);
    let mut i = 0;
    loop {
        match step {
            DownloadStep::Save(bytes) => return Ok(bytes),
            DownloadStep::Failed(e) => return Err(e),
            DownloadStep::Fetch(download) => {
                assert!(payloads[i].len() >= download.least_len());
                step = download.received(password, &payloads[i]);
                i += 1;
            }
        }
    }
}

#[test]
fn parts_of_a_file() {
    assert_eq!(total_parts(0), 0);
    assert_eq!(total_parts(1), 1);
    assert_eq!(total_parts(19_922_944), 1);
    assert_eq!(total_parts(19_922_945), 2);
    assert_eq!(total_parts(19_922_944 * 7), 7);
}

#[test]
fn the_record_of_a_file() {
    let row = file_row(Some(3), "a.bin".to_string(), 1234, 77);
    assert_eq!(row.id, 0);
    assert_eq!(row.folder_id, Some(3));
    assert_eq!(row.orig_name, "a.bin");
    assert_eq!(row.size, 1234);
    assert_eq!(row.mime, None);
    assert!(row.hash_full.is_empty());
    assert_eq!(row.created_at, 77);
    assert_eq!(file_row(None, String::new(), u64::MAX, 0).size, -1);
}

#[test]
fn a_file_comes_back_as_it_was_sent() {
    let (parts, payloads, _) = send("pw", &[b"first ", b"second ", b"third"]);
    assert_eq!(fetch(parts, &payloads, "pw").unwrap(), b"first second third".to_vec());
}

#[test]
fn a_file_of_one_part_comes_back() {
    let (parts, payloads, _) = send("pw", &[b"only"]);
    assert_eq!(fetch(parts, &payloads, "pw").unwrap(), b"only".to_vec());
}

#[test]
fn a_file_without_parts_is_empty() {
    let (parts, payloads, _) = send("pw", &[]);
    assert!(parts.is_empty());
    assert_eq!(fetch(parts, &payloads, "pw").unwrap(), Vec::<u8>::new());
}

#[test]
fn the_salt_stands_before_the_first_part_alone() {
    let (_, payloads, salt) = send("pw", &[b"aaa", b"bbb"]);
    assert_eq!(payloads[0][..SALT_LEN], salt[..]);
    assert_eq!(payloads[0].len(), 16 + 12 + 3 + 16);
    assert_eq!(payloads[1].len(), 12 + 3 + 16);
    assert_ne!(send("pw", &[b"aaa"]).2, salt);
}

#[test]
fn the_records_of_parts() {
    let (parts, _, _) = send("pw", &[b"aaa", b"bb"]);
    assert_eq!(parts[0].part_no, 0);
    assert_eq!(parts[1].part_no, 1);
    assert_eq!(parts[1].id, 0);
    assert_eq!(parts[1].file_id, 5);
    assert_eq!(parts[1].size, 2);
    assert_eq!(parts[1].file_id_tg, "tg1");
    assert_eq!(parts[1].sha256, Chunk::new(0, 0, b"bb".to_vec()).hash.to_vec());
}

#[test]
fn an_upload_counts_its_parts() {
    let upload = UploadStart::with_salt("pw", [4u8; 16], 40_000_000).unwrap().recorded(1);
    assert_eq!((upload.index(), upload.total()), (0, 3));
    let (upload, _, payload) = next(upload, b"x");
    assert_eq!((upload.index(), upload.total()), (1, 3));
    assert_eq!(payload[..16], [4u8; 16]);
}

#[test]
fn a_part_is_sent_once_it_is_full() {
    let upload = UploadStart::with_salt("pw", [4u8; 16], 20_000_000).unwrap().recorded(1);
    assert_eq!(upload.wanted(), DEFAULT_CHUNK_SIZE);
    let upload = more(upload.read(vec![1u8; 10_000_000]));
    assert_eq!(upload.wanted(), DEFAULT_CHUNK_SIZE - 10_000_000);
    let upload = more(upload.read(vec![2u8; 9_000_000]));
    assert_eq!((upload.wanted(), upload.index()), (922_944, 0));
    let (upload, row, payload) = sent(upload.read(vec![3u8; 922_944]));
    assert_eq!((row.part_no, row.size), (0, 19_922_944));
    assert_eq!(payload.len(), 16 + 12 + 19_922_944 + 16);
    let mut part = vec![1u8; 10_000_000];
    part.extend(vec![2u8; 9_000_000]);
    part.extend(vec![3u8; 922_944]);
    assert_eq!(row.sha256, Chunk::new(0, 2, part).hash.to_vec());
    let (upload, row, payload) = next(upload, &[5u8; 77_056]);
    assert_eq!((row.part_no, row.size, payload.len()), (1, 77_056, 12 + 77_056 + 16));
    assert_eq!((upload.index(), upload.total()), (2, 2));
    assert!(matches!(upload.read(Vec::new()), UploadStep::Finished(salt) if salt == [4u8; 16]));
}

#[test]
fn another_password_does_not_open_a_file() {
    let (parts, payloads, _) = send("pw", &[b"secret"]);
    assert!(matches!(fetch(parts, &payloads, "wp"), Err(CoreError::Crypto(_))));
}

#[test]
fn parts_in_another_order_do_not_open() {
    let (parts, mut payloads, _) = send("pw", &[b"aaa", b"bbb", b"ccc"]);
    payloads.swap(1, 2);
    assert!(matches!(fetch(parts, &payloads, "pw"), Err(CoreError::Crypto(_))));
}

#[test]
fn a_download_names_the_part_that_is_due() {
    let (parts, payloads, _) = send("pw", &[b"aaa", b"bbb"]);
    let download = match Download::start(parts) {
        DownloadStep::Fetch(download) => download,
        _ => panic!("no part is due"),
    };
    assert_eq!((download.due(), download.due_number()), ("tg0", 0));
    assert_eq!(download.least_len(), 28);
    let download = match download.received("pw", &payloads[0]) {
        DownloadStep::Fetch(download) => download,
        _ => panic!("no part is due"),
    };
    assert_eq!((download.due(), download.due_number()), ("tg1", 1));
    assert_eq!(download.least_len(), 12);
}

#[test]
fn the_key_of_a_file_comes_from_its_first_part() {
    let (_, payloads, salt) = send("pw", &[b"aaa"]);
    assert_eq!(file_key("pw", &payloads[0]).unwrap(), derive_key("pw", &salt).unwrap());
}

#[test]
fn extensions_of_images() {
    for extension in ["jpg", "JPEG", "Png", "gif", "bmp", "webp"] {
        assert!(is_image(Some(extension)));
    }
    for extension in ["tiff", "jp", "jpgg", "", "png "] {
        assert!(!is_image(Some(extension)));
    }
    assert!(!is_image(None));
}

fn shades(len: usize) -> Vec<u8> {
    (0..len).map(|i| (i * 7 % 253) as u8).collect()
}

fn thumbnail_of(layout: Layout, width: u32, height: u32, samples: Vec<u8>) -> Picture {
    let raster = Raster::new(layout, width, height, samples).unwrap();
    make_thumbnail(Some("png"), Decoded::Bytes(raster)).unwrap()
}

fn small_jpeg(picture: image::DynamicImage) -> Vec<u8> {
    let mut jpeg = Vec::new();
    picture
        .thumbnail(128, 128)
        .write_to(&mut std::io::Cursor::new(&mut jpeg), image::ImageOutputFormat::Jpeg(80))
        .unwrap();
    jpeg
}

#[test]
fn the_thumbnail_of_an_image() {
    let samples = shades(256 * 64 * 3);
    let picture = thumbnail_of(Layout::Rgb, 256, 64, samples.clone());
    assert_eq!((picture.width, picture.height), (128, 32));
    let back = image::load_from_memory_with_format(&picture.jpeg, image::ImageFormat::Jpeg).unwrap();
    assert_eq!((back.width(), back.height()), (128, 32));
    let full = image::RgbImage::from_raw(256, 64, samples).unwrap();
    assert_eq!(picture.jpeg, small_jpeg(image::DynamicImage::ImageRgb8(full)));
    let small = thumbnail_of(Layout::Rgb, 10, 20, shades(600));
    assert_eq!((small.width, small.height), (64, 128));
}

#[test]
fn thumbnails_of_every_layout() {
    let grey = thumbnail_of(Layout::Luma, 300, 200, shades(60_000));
    assert_eq!((grey.width, grey.height), (128, 85));
    let full = image::GrayImage::from_raw(300, 200, shades(60_000)).unwrap();
    assert_eq!(grey.jpeg, small_jpeg(image::DynamicImage::ImageLuma8(full)));
    let clear = thumbnail_of(Layout::LumaAlpha, 200, 300, shades(120_000));
    assert_eq!((clear.width, clear.height), (85, 128));
    let full = image::GrayAlphaImage::from_raw(200, 300, shades(120_000)).unwrap();
    assert_eq!(clear.jpeg, small_jpeg(image::DynamicImage::ImageLumaA8(full)));
    let colour = thumbnail_of(Layout::Rgba, 128, 128, shades(65_536));
    assert_eq!((colour.width, colour.height), (128, 128));
    let full = image::RgbaImage::from_raw(128, 128, shades(65_536)).unwrap();
    assert_eq!(colour.jpeg, small_jpeg(image::DynamicImage::ImageRgba8(full)));
}

#[test]
fn a_thumbnail_is_at_least_one_pixel_high() {
    let line = thumbnail_of(Layout::Luma, 3000, 1, shades(3000));
    assert_eq!((line.width, line.height), (128, 1));
}

#[test]
fn a_picture_has_as_many_samples_as_its_size_asks_for() {
    assert!(Raster::new(Layout::Rgb, 2, 2, vec![0; 12]).is_some());
    assert!(Raster::new(Layout::Rgb, 2, 2, vec![0; 11]).is_none());
    assert!(Raster::new(Layout::Rgba, 2, 2, vec![0; 12]).is_none());
    assert!(Raster::new(Layout::Luma, u32::MAX, u32::MAX, vec![0; 1]).is_none());
}

fn dot() -> Decoded {
    Decoded::Bytes(Raster::new(Layout::Luma, 1, 1, vec![9]).unwrap())
}

#[test]
fn files_without_a_thumbnail() {
    assert!(make_thumbnail(Some("PNG"), dot()).is_some());
    assert!(make_thumbnail(Some("txt"), dot()).is_none());
    assert!(make_thumbnail(None, dot()).is_none());
    assert!(make_thumbnail(Some("png"), Decoded::Unreadable).is_none());
    assert!(make_thumbnail(Some("png"), Decoded::Deep).is_none());
}

#[test]
fn a_thumbnail_comes_back() {
    let (parts, payloads, salt) = send("pw", &[b"aaa"]);
    let sealed = seal_thumbnail("pw", &salt, b"tiny".to_vec()).unwrap();
    match thumbnail::start(&parts) {
        ThumbnailStep::FetchFirst(name) => assert_eq!(name, "tg0"),
        _ => panic!("the first part was not asked for"),
    }
    let key = match thumbnail::first_received("pw", &payloads[0]) {
        ThumbnailStep::LookUp(key) => key,
        _ => panic!("no key"),
    };
    let row = thumbnail_row(5, "th".to_string(), 3, 4);
    assert_eq!((row.id, row.file_id, row.width, row.height), (0, 5, Some(3), Some(4)));
    let (key, cached, name) = match thumbnail::looked_up(key, Some(row)) {
        ThumbnailStep::Seek(key, cached, name) => (key, cached, name),
        _ => panic!("the thumbnail was not sought"),
    };
    let key = match thumbnail::sought(key, cached, name, false) {
        ThumbnailStep::FetchAndKeep(key, name, cached) => {
            assert_eq!(name, "th");
            assert_eq!(cached, "thumbnail_5.bin");
            key
        }
        _ => panic!("the thumbnail was not asked for"),
    };
    match thumbnail::loaded(&key, &sealed) {
        ThumbnailStep::Done(Some(jpeg)) => assert_eq!(jpeg, b"tiny".to_vec()),
        _ => panic!("no thumbnail"),
    }
    assert!(matches!(thumbnail::loaded(&[0u8; 32], &sealed), ThumbnailStep::Failed(_)));
}

#[test]
fn a_thumbnail_at_hand_is_not_fetched() {
    match thumbnail::sought([7u8; 32], "thumbnail_5.bin".to_string(), "th".to_string(), true) {
        ThumbnailStep::ReadAtHand(key, cached) => {
            assert_eq!((key, cached), ([7u8; 32], "thumbnail_5.bin".to_string()));
        }
        _ => panic!("the thumbnail at hand was not read"),
    }
}

#[test]
fn no_thumbnail_of_a_file_without_parts_or_record() {
    assert!(matches!(thumbnail::start(&Vec::new()), ThumbnailStep::Done(None)));
    assert!(matches!(
        thumbnail::looked_up([0u8; 32], None::<Thumbnail>),
        ThumbnailStep::Done(None)
    ));
}

#[test]
fn where_thumbnails_are_kept_at_hand() {
    assert_eq!(TEMP_FOLDER, "temp");
    assert_eq!(cache_name(0), "thumbnail_0.bin");
    assert_eq!(cache_name(1234567890), "thumbnail_1234567890.bin");
    assert_eq!(cache_name(i64::MIN), "thumbnail_-9223372036854775808.bin");
}
