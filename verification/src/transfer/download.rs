//! Fetching a file: its parts are fetched and opened one after the other, and put together.

use vstd::prelude::*;

use super::upload::{
    carries, law_parts_are_full, part_number, parts_read, pieces_of, SALT_LEN,
};
use crate::chunk::{
    all_intact, chunk_of, chunk_views, concat_data, index_ordered, law_merge_goes_by_the_numbers,
    law_merge_wants_each_number, lemma_piece_count, low32, merge_chunks, mergeable, merged, piece_count, truncate32, Chunk, ChunkView, CoreError,
    CoreErrorView, DEFAULT_CHUNK_SIZE,
};
use crate::crypto::{
    derive_key, derived_key, index_bytes, law_open_is_what_the_cipher_opens, open_chunk, opened,
    NONCE_LEN,
};
use crate::external::{aead_open, hashable};
use crate::storage::models::{FilePart, FilePartView};

verus! {

/// The number under which a part is sealed: the number in the catalogue, read without a sign.
pub open spec fn part_index(part_no: i32) -> u32 {
    if part_no >= 0 {
        part_no as u32
    } else {
        (part_no + 0x1_0000_0000) as u32
    }
}

/// The key of a file: that of the password and the salt before the first part.
pub open spec fn file_key_spec(password: Seq<char>, first: Seq<u8>) -> Result<
    Seq<u8>,
    CoreErrorView,
> {
    derived_key(password, first.take(SALT_LEN as int))
}

/// The views of a list of parts.
pub open spec fn part_views(parts: Seq<FilePart>) -> Seq<FilePartView> {
    parts.map_values(|p: FilePart| p@)
}

/// A download as mathematical values: the parts of the file, the key once the first part has come,
/// and the chunks that have been opened.
#[verifier::ext_equal]
pub struct DownloadView {
    pub parts: Seq<FilePartView>,
    pub key: Option<Seq<u8>>,
    pub chunks: Seq<ChunkView>,
}

/// A `DownloadStep` as mathematical values.
pub enum DownloadStepView {
    Fetch(DownloadView),
    Save(Seq<u8>),
    Failed(CoreErrorView),
}

impl DownloadView {
    /// A download of which nothing has come yet.
    pub open spec fn fresh(parts: Seq<FilePartView>) -> DownloadView {
        DownloadView { parts, key: None, chunks: Seq::empty() }
    }

    /// The least length that the part which is due can have: the first holds the salt and a nonce,
    /// every other a nonce.
    pub open spec fn least_len(self) -> nat {
        if self.chunks.len() == 0 {
            (SALT_LEN + NONCE_LEN) as nat
        } else {
            NONCE_LEN as nat
        }
    }

    /// While parts are missing they are fetched; then the chunks are put together.
    pub open spec fn step(self) -> DownloadStepView {
        if self.chunks.len() < self.parts.len() {
            DownloadStepView::Fetch(self)
        } else if mergeable(self.chunks) {
            DownloadStepView::Save(merged(self.chunks))
        } else {
            DownloadStepView::Failed(CoreErrorView::BadChunks)
        }
    }

    /// The download with one more part opened under a key.
    pub open spec fn with_part(self, index: u32, payload: Seq<u8>, key: Seq<u8>) -> DownloadStepView {
        match opened(index, low32(self.parts.len() as int), payload, key) {
            Err(e) => DownloadStepView::Failed(e),
            Ok(chunk) => DownloadView {
                parts: self.parts,
                key: Some(key),
                chunks: self.chunks.push(chunk),
            }.step(),
        }
    }

    /// What comes of the part that was due. The first part has the number zero whatever the
    /// catalogue says.
    pub open spec fn received(self, password: Seq<char>, data: Seq<u8>) -> DownloadStepView {
        if self.chunks.len() == 0 {
            match file_key_spec(password, data) {
                Err(e) => DownloadStepView::Failed(e),
                Ok(key) => self.with_part(0, data.skip(SALT_LEN as int), key),
            }
        } else {
            self.with_part(
                part_index(self.parts[self.chunks.len() as int].part_no),
                data,
                self.key.unwrap(),
            )
        }
    }
}

/// A file that is being fetched. At least one of its parts is missing.
pub struct Download {
    parts: Vec<FilePart>,
    key: Option<[u8; 32]>,
    chunks: Vec<Chunk>,
}

/// What is to be done next for a file.
pub enum DownloadStep {
    /// Fetch the part that is due.
    Fetch(Download),
    /// Write these bytes: the file is complete.
    Save(Vec<u8>),
    /// The file cannot be had.
    Failed(CoreError),
}

impl View for Download {
    type V = DownloadView;

    closed spec fn view(&self) -> DownloadView {
        DownloadView {
            parts: part_views(self.parts@),
            key: match self.key {
                Some(key) => Some(key@),
                None => None,
            },
            chunks: chunk_views(self.chunks@),
        }
    }
}

impl View for DownloadStep {
    type V = DownloadStepView;

    open spec fn view(&self) -> DownloadStepView {
        match self {
            DownloadStep::Fetch(download) => DownloadStepView::Fetch(download@),
            DownloadStep::Save(bytes) => DownloadStepView::Save(bytes@),
            DownloadStep::Failed(e) => DownloadStepView::Failed(e@),
        }
    }
}

/// Derives the key of a file from the password and what came for its first part, which has to hold
/// a whole salt and a whole nonce.
pub fn file_key(password: &str, first: &[u8]) -> (r: Result<[u8; 32], CoreError>)
    requires
        first@.len() >= SALT_LEN + NONCE_LEN,
    ensures
        crate::crypto::key_result_view(r) == file_key_spec(password@, first@),
        r is Ok <==> vstd::utf8::encode_utf8(password@).len() <= u32::MAX,
{
    let salt: &[u8] = vstd::slice::slice_subrange(first, 0, SALT_LEN);
    assert(salt@ =~= first@.take(SALT_LEN as int));
    derive_key(password, salt)
}

impl Download {
    #[verifier::type_invariant]
    spec fn inv(self) -> bool {
        &&& self.chunks@.len() < self.parts@.len()
        &&& self.chunks@.len() > 0 <==> self.key is Some
    }

    /// Starts to fetch a file with the given parts. A file without parts is empty.
    pub fn start(parts: Vec<FilePart>) -> (step: DownloadStep)
        ensures
            step@ == DownloadView::fresh(part_views(parts@)).step(),
    {
        if parts.is_empty() {
            let bytes: Vec<u8> = Vec::new();
            assert(bytes@ =~= merged(Seq::empty()));
            return DownloadStep::Save(bytes);
        }
        let download: Download = Download { parts, key: None, chunks: Vec::new() };
        assert(download@ =~= DownloadView::fresh(part_views(parts@)));
        DownloadStep::Fetch(download)
    }

    /// The name under which the chat service keeps the part that is due.
    pub fn due(&self) -> (file_id_tg: &str)
        ensures
            self@.chunks.len() < self@.parts.len(),
            file_id_tg@ == self@.parts[self@.chunks.len() as int].file_id_tg,
    {
        proof {
            use_type_invariant(self);
        }
        self.parts[self.chunks.len()].file_id_tg.as_str()
    }

    /// The number, in the catalogue, of the part that is due.
    pub fn due_number(&self) -> (part_no: i32)
        ensures
            self@.chunks.len() < self@.parts.len(),
            part_no == self@.parts[self@.chunks.len() as int].part_no,
    {
        proof {
            use_type_invariant(self);
        }
        self.parts[self.chunks.len()].part_no
    }

    /// The least length that the part which is due can have.
    pub fn least_len(&self) -> (len: usize)
        ensures
            len == self@.least_len(),
    {
        if self.chunks.is_empty() {
            SALT_LEN + NONCE_LEN
        } else {
            NONCE_LEN
        }
    }

    /// Takes in the part that was due. It may not be shorter than what stands before the
    /// ciphertext.
    pub fn received(self, password: &str, data: &[u8]) -> (step: DownloadStep)
        requires
            data@.len() >= self@.least_len(),
        ensures
            step@ == self@.received(password@, data@),
    {
        proof {
            use_type_invariant(&self);
        }
        let total: u32 = truncate32(self.parts.len());
        match self.key {
            None => {
                let key: [u8; 32] = match file_key(password, data) {
                    Ok(key) => key,
                    Err(e) => {
                        return DownloadStep::Failed(e);
                    },
                };
                let payload: &[u8] = vstd::slice::slice_subrange(data, SALT_LEN, data.len());
                assert(payload@ =~= data@.skip(SALT_LEN as int));
                self.with_part(0, total, payload, key)
            },
            Some(key) => {
                let part_no: i32 = self.parts[self.chunks.len()].part_no;
                let index: u32 = #[verifier::truncate] (part_no as u32);
                assert(part_no >= 0 ==> part_no as u32 == part_no) by (bit_vector);
                assert(part_no < 0 ==> part_no as u32 == part_no + 0x1_0000_0000) by (bit_vector);
                self.with_part(index, total, data, key)
            },
        }
    }

    /// Opens the part that was due.
    fn with_part(self, index: u32, total: u32, payload: &[u8], key: [u8; 32]) -> (step:
        DownloadStep)
        requires
            payload@.len() >= NONCE_LEN,
            total == low32(self@.parts.len() as int),
        ensures
            step@ == self@.with_part(index, payload@, key@),
    {
        proof {
            use_type_invariant(&self);
        }
        let chunk: Chunk = match open_chunk(index, total, payload, &key) {
            Ok(chunk) => chunk,
            Err(e) => {
                return DownloadStep::Failed(e);
            },
        };
        let ghost before = self.chunks@;
        let mut chunks: Vec<Chunk> = self.chunks;
        chunks.push(chunk);
        assert(chunk_views(chunks@) =~= chunk_views(before).push(chunk@));
        if chunks.len() < self.parts.len() {
            return DownloadStep::Fetch(Download { parts: self.parts, key: Some(key), chunks });
        }
        match merge_chunks(chunks) {
            Ok(bytes) => DownloadStep::Save(bytes),
            Err(e) => DownloadStep::Failed(e),
        }
    }
}

/// What sending a file leaves behind: for each piece that was read a payload that carries it, and a
/// record with its number.
pub open spec fn uploaded(
    pieces: Seq<Seq<u8>>,
    payloads: Seq<Seq<u8>>,
    parts: Seq<FilePartView>,
    salt: Seq<u8>,
    key: Seq<u8>,
) -> bool {
    &&& pieces.len() == payloads.len() == parts.len()
    &&& forall|i: int|
        0 <= i < pieces.len() ==> carries(#[trigger] payloads[i], salt, key, i as u32, pieces[i])
    &&& forall|i: int|
        0 <= i < pieces.len() ==> (#[trigger] parts[i]).part_no == part_number(i as u32)
}

/// The pieces, one behind the other.
pub open spec fn all_bytes(pieces: Seq<Seq<u8>>) -> Seq<u8>
    decreases pieces.len(),
{
    if pieces.len() == 0 {
        Seq::empty()
    } else {
        all_bytes(pieces.drop_last()) + pieces.last()
    }
}

/// How a download stands when the first `n` parts have come, each as it was sent.
pub open spec fn fetched(
    parts: Seq<FilePartView>,
    password: Seq<char>,
    payloads: Seq<Seq<u8>>,
    n: nat,
) -> DownloadStepView
    decreases n,
{
    if n == 0 {
        DownloadView::fresh(parts).step()
    } else {
        match fetched(parts, password, payloads, (n - 1) as nat) {
            DownloadStepView::Fetch(download) => download.received(password, payloads[n - 1]),
            other => other,
        }
    }
}

/// The chunks that the first `n` pieces are opened to.
spec fn opened_chunks(pieces: Seq<Seq<u8>>, n: nat) -> Seq<ChunkView> {
    Seq::new(n, |i: int| chunk_of(i as u32, pieces.len() as u32, pieces[i]))
}

/// While parts are missing, a download of what was uploaded holds the pieces that have come.
proof fn lemma_fetched(
    pieces: Seq<Seq<u8>>,
    payloads: Seq<Seq<u8>>,
    parts: Seq<FilePartView>,
    salt: Seq<u8>,
    key: Seq<u8>,
    password: Seq<char>,
    n: nat,
)
    requires
        uploaded(pieces, payloads, parts, salt, key),
        derived_key(password, salt) == Ok::<_, CoreErrorView>(key),
        pieces.len() <= u32::MAX,
        n <= pieces.len(),
    ensures
        fetched(parts, password, payloads, n) == (DownloadView {
            parts,
            key: if n == 0 {
                None
            } else {
                Some(key)
            },
            chunks: opened_chunks(pieces, n),
        }).step(),
    decreases n,
{
    if n == 0 {
        assert(opened_chunks(pieces, 0) =~= Seq::empty());
    } else {
        let k = (n - 1) as nat;
        lemma_fetched(pieces, payloads, parts, salt, key, password, k);
        assert(carries(payloads[k as int], salt, key, k as u32, pieces[k as int]));
        assert(parts[k as int].part_no == part_number(k as u32));
        assert(opened_chunks(pieces, k).push(
            chunk_of(k as u32, pieces.len() as u32, pieces[k as int]),
        ) =~= opened_chunks(pieces, n));
    }
}

/// The bytes of the opened chunks are those of the pieces.
proof fn lemma_opened_bytes(pieces: Seq<Seq<u8>>, n: nat)
    requires
        n <= pieces.len(),
    ensures
        concat_data(opened_chunks(pieces, n)) == all_bytes(pieces.take(n as int)),
    decreases n,
{
    if n == 0 {
        assert(opened_chunks(pieces, 0) =~= Seq::empty());
    } else {
        let k = (n - 1) as nat;
        lemma_opened_bytes(pieces, k);
        assert(opened_chunks(pieces, n).drop_last() =~= opened_chunks(pieces, k));
        assert(pieces.take(n as int).drop_last() =~= pieces.take(k as int));
    }
}

/// A file that was sent comes back as it was: with the parts as they were sent, in their order,
/// and the password they were sealed under, a download ends with the bytes that the upload read.
/// The number of the parts has to fit in 32 bits.
pub proof fn law_download_undoes_upload(
    pieces: Seq<Seq<u8>>,
    payloads: Seq<Seq<u8>>,
    parts: Seq<FilePartView>,
    salt: Seq<u8>,
    key: Seq<u8>,
    password: Seq<char>,
)
    requires
        uploaded(pieces, payloads, parts, salt, key),
        derived_key(password, salt) == Ok::<_, CoreErrorView>(key),
        pieces.len() <= u32::MAX,
    ensures
        fetched(parts, password, payloads, pieces.len()) == DownloadStepView::Save(
            all_bytes(pieces),
        ),
        forall|i: int|
            0 <= i < payloads.len() ==> (#[trigger] payloads[i]).len() >= (if i == 0 {
                SALT_LEN + NONCE_LEN
            } else {
                NONCE_LEN as int
            }),
{
    let n = pieces.len();
    let chunks = opened_chunks(pieces, n);
    lemma_fetched(pieces, payloads, parts, salt, key, password, n);
    lemma_opened_bytes(pieces, n);
    assert(pieces.take(n as int) =~= pieces);
    assert(index_ordered(chunks));
    assert(all_intact(chunks));
    crate::chunk::lemma_sort_ordered(chunks);
    assert forall|i: int| 0 <= i < payloads.len() implies (#[trigger] payloads[i]).len() >= (if i
        == 0 {
        SALT_LEN + NONCE_LEN
    } else {
        NONCE_LEN as int
    }) by {
        assert(carries(payloads[i], salt, key, i as u32, pieces[i]));
    }
}

/// The first pieces of a file are its first bytes.
proof fn lemma_pieces_bytes(file: Seq<u8>, n: nat)
    requires
        n <= pieces_of(file).len(),
    ensures
        all_bytes(pieces_of(file).take(n as int)) == if n * DEFAULT_CHUNK_SIZE <= file.len() {
            file.take(n * DEFAULT_CHUNK_SIZE)
        } else {
            file
        },
    decreases n,
{
    let pieces = pieces_of(file);
    lemma_piece_count(file.len(), DEFAULT_CHUNK_SIZE as nat);
    if n == 0 {
        assert(all_bytes(pieces.take(0)) =~= file.take(0));
    } else {
        let k = (n - 1) as nat;
        lemma_pieces_bytes(file, k);
        assert(pieces.take(n as int).drop_last() =~= pieces.take(k as int));
        assert(pieces.take(n as int).last() == pieces[k as int]);
        if n * DEFAULT_CHUNK_SIZE <= file.len() {
            assert(file.take(k * DEFAULT_CHUNK_SIZE) + pieces[k as int] =~= file.take(
                n * DEFAULT_CHUNK_SIZE,
            ));
        } else {
            assert(file.take(k * DEFAULT_CHUNK_SIZE) + pieces[k as int] =~= file);
        }
    }
}

/// A file comes back as it was, however it was read: from the payloads and the records that sending
/// its parts leaves behind, a download with the same password ends with the bytes of the file. The
/// number of the parts has to fit in 32 bits.
pub proof fn law_file_comes_back(
    file: Seq<u8>,
    likes: spec_fn(nat) -> nat,
    payloads: Seq<Seq<u8>>,
    parts: Seq<FilePartView>,
    salt: Seq<u8>,
    key: Seq<u8>,
    password: Seq<char>,
)
    requires
        uploaded(parts_read(file, 0, Seq::empty(), likes), payloads, parts, salt, key),
        derived_key(password, salt) == Ok::<_, CoreErrorView>(key),
        piece_count(file.len(), DEFAULT_CHUNK_SIZE as nat) <= u32::MAX,
    ensures
        fetched(
            parts,
            password,
            payloads,
            piece_count(file.len(), DEFAULT_CHUNK_SIZE as nat),
        ) == DownloadStepView::Save(file),
{
    let pieces = pieces_of(file);
    law_parts_are_full(file, likes);
    law_download_undoes_upload(pieces, payloads, parts, salt, key, password);
    lemma_pieces_bytes(file, pieces.len());
    lemma_piece_count(file.len(), DEFAULT_CHUNK_SIZE as nat);
    assert(pieces.take(pieces.len() as int) =~= pieces);
    if pieces.len() * DEFAULT_CHUNK_SIZE <= file.len() {
        assert(file.take(pieces.len() * DEFAULT_CHUNK_SIZE) =~= file);
    }
}

/// The numbers in the records rise with the parts, so that listing by number lists the parts as
/// they were sent. The numbers have to fit in 31 bits.
pub proof fn law_part_numbers_rise(
    pieces: Seq<Seq<u8>>,
    payloads: Seq<Seq<u8>>,
    parts: Seq<FilePartView>,
    salt: Seq<u8>,
    key: Seq<u8>,
    i: int,
    j: int,
)
    requires
        uploaded(pieces, payloads, parts, salt, key),
        pieces.len() <= 0x8000_0000,
        0 <= i < j < parts.len(),
    ensures
        parts[i].part_no < parts[j].part_no,
{
}

/// Sending one more piece adds one more payload and record to what sending leaves behind.
pub proof fn law_upload_extends(
    pieces: Seq<Seq<u8>>,
    payloads: Seq<Seq<u8>>,
    parts: Seq<FilePartView>,
    salt: Seq<u8>,
    key: Seq<u8>,
    piece: Seq<u8>,
    payload: Seq<u8>,
    part: FilePartView,
)
    requires
        uploaded(pieces, payloads, parts, salt, key),
        pieces.len() <= u32::MAX,
        carries(payload, salt, key, pieces.len() as u32, piece),
        part.part_no == part_number(pieces.len() as u32),
    ensures
        uploaded(pieces.push(piece), payloads.push(payload), parts.push(part), salt, key),
        all_bytes(pieces.push(piece)) == all_bytes(pieces) + piece,
{
    assert(pieces.push(piece).drop_last() =~= pieces);
}

/// The number under which a part is sealed is the one in its record, read without a sign; so it is the
/// place that the part had when it was recorded.
pub proof fn law_part_is_opened_under_its_number(index: u32, part_no: i32)
    ensures
        part_no >= 0 ==> part_index(part_no) == part_no,
        part_no < 0 ==> part_index(part_no) == part_no + 0x1_0000_0000,
        part_index(part_number(index)) == index,
{
}

/// The key of a file comes from the password and the sixteen bytes that its first part begins with.
pub proof fn law_key_comes_from_the_first_part(password: Seq<char>, first: Seq<u8>)
    requires
        first.len() >= 16,
    ensures
        file_key_spec(password, first) == derived_key(password, first.subrange(0, 16)),
{
    assert(first.subrange(0, 16) =~= first.take(16));
}

/// What is asked of a payload before it is looked at is that the salt, where one is due, and the nonce
/// are there.
pub proof fn law_least_payload(download: DownloadView)
    ensures
        download.least_len() == (if download.chunks.len() == 0 {
            28nat
        } else {
            12nat
        }),
{
}

/// What comes of the first part. Where no key can be had, the download fails. Where AES-256-GCM does
/// not open what stands behind the salt and the nonce, the password is wrong or the part is damaged,
/// and the download fails. Otherwise the bytes are kept as the first chunk, and while parts are
/// missing they are fetched; where it is the only part, its bytes are the file.
pub proof fn law_first_part(download: DownloadView, password: Seq<char>, data: Seq<u8>)
    requires
        download.chunks.len() == 0,
        download.parts.len() > 0,
        data.len() >= 28,
    ensures
        match derived_key(password, data.take(16)) {
            Err(e) => download.received(password, data) == DownloadStepView::Failed(e),
            Ok(key) => match aead_open(
                key,
                data.subrange(16, 28),
                data.skip(28),
                seq![0u8, 0u8, 0u8, 0u8],
            ) {
                None => download.received(password, data) == DownloadStepView::Failed(
                    CoreErrorView::Crypto("aead::Error"@),
                ),
                Some(plain) => if download.parts.len() > 1 {
                    &&& download.received(password, data) matches DownloadStepView::Fetch(next)
                    &&& next.parts == download.parts
                    &&& next.key == Some(key)
                    &&& next.chunks.len() == 1
                    &&& next.chunks[0].index == 0
                    &&& next.chunks[0].data == plain
                } else {
                    download.received(password, data) == DownloadStepView::Save(plain)
                },
            },
        },
{
    match derived_key(password, data.take(16)) {
        Err(_) => {},
        Ok(key) => {
            let payload = data.skip(16);
            assert(payload.take(12) =~= data.subrange(16, 28));
            assert(payload.skip(12) =~= data.skip(28));
            law_open_is_what_the_cipher_opens(
                0,
                low32(download.parts.len() as int),
                payload,
                key,
                seq![0u8, 0u8, 0u8, 0u8],
            );
            match opened(0, low32(download.parts.len() as int), payload, key) {
                Ok(chunk) => {
                    let chunks = download.chunks.push(chunk);
                    assert(chunks =~= seq![chunk]);
                    if download.parts.len() == 1 {
                        law_merge_goes_by_the_numbers(chunks, chunks);
                        chunks.lemma_flat_map_singleton(|c: ChunkView| c.data);
                    }
                },
                Err(_) => {},
            }
        },
    }
}

/// What comes of any other part. Where AES-256-GCM does not open what stands behind the nonce, under
/// the key of the file and the number of the part, the download fails, however many parts have come.
/// Otherwise the bytes are kept as one more chunk, and while parts are missing they are fetched; after
/// the last there is a file, or the parts do not belong together.
pub proof fn law_later_part(
    download: DownloadView,
    password: Seq<char>,
    data: Seq<u8>,
    key: Seq<u8>,
    number: Seq<u8>,
)
    requires
        0 < download.chunks.len() < download.parts.len(),
        download.key == Some(key),
        data.len() >= 12,
        number.len() == 4,
        number[0] * 0x100_0000 + number[1] * 0x1_0000 + number[2] * 0x100 + number[3] == part_index(
            download.parts[download.chunks.len() as int].part_no,
        ),
    ensures
        match aead_open(key, data.take(12), data.skip(12), number) {
            None => download.received(password, data) == DownloadStepView::Failed(
                CoreErrorView::Crypto("aead::Error"@),
            ),
            Some(plain) => if download.chunks.len() + 1 == download.parts.len() {
                ||| download.received(password, data) is Save
                ||| download.received(password, data) == DownloadStepView::Failed(
                    CoreErrorView::BadChunks,
                )
            } else {
                &&& download.received(password, data) matches DownloadStepView::Fetch(next)
                &&& next.parts == download.parts
                &&& next.key == Some(key)
                &&& next.chunks.len() == download.chunks.len() + 1
                &&& next.chunks.drop_last() == download.chunks
                &&& next.chunks.last().index == part_index(
                    download.parts[download.chunks.len() as int].part_no,
                )
                &&& next.chunks.last().data == plain
            },
        },
{
    let index = part_index(download.parts[download.chunks.len() as int].part_no);
    let total = low32(download.parts.len() as int);
    law_open_is_what_the_cipher_opens(index, total, data, key, number);
    match opened(index, total, data, key) {
        Ok(chunk) => {
            assert(download.chunks.push(chunk).drop_last() =~= download.chunks);
        },
        Err(_) => {},
    }
}

/// The number under which part `i` of a file is opened: zero for the first, and for any other the one
/// in its record.
pub open spec fn number_of(parts: Seq<FilePartView>, i: int) -> u32 {
    if i == 0 {
        0
    } else {
        part_index(parts[i].part_no)
    }
}

/// What AES-256-GCM makes of payload `i` of a file, under a key and the number of the part.
pub open spec fn plain_of(
    parts: Seq<FilePartView>,
    payloads: Seq<Seq<u8>>,
    key: Seq<u8>,
    i: int,
) -> Option<Seq<u8>> {
    let sealed = if i == 0 {
        payloads[i].skip(16)
    } else {
        payloads[i]
    };
    aead_open(key, sealed.take(12), sealed.skip(12), index_bytes(number_of(parts, i)))
}

/// The chunks are those to which the first parts of a file have opened.
spec fn opened_to(
    parts: Seq<FilePartView>,
    password: Seq<char>,
    payloads: Seq<Seq<u8>>,
    key: Seq<u8>,
    chunks: Seq<ChunkView>,
) -> bool {
    &&& derived_key(password, payloads[0].take(16)) == Ok::<_, CoreErrorView>(key)
    &&& forall|i: int|
        0 <= i < chunks.len() ==> {
            &&& (#[trigger] chunks[i]).index == number_of(parts, i)
            &&& plain_of(parts, payloads, key, i) == Some(chunks[i].data)
        }
}

/// The bytes are made up of chunks to which the parts of a file have opened, one for each part.
spec fn saved_from(
    parts: Seq<FilePartView>,
    password: Seq<char>,
    payloads: Seq<Seq<u8>>,
    key: Seq<u8>,
    chunks: Seq<ChunkView>,
    bytes: Seq<u8>,
) -> bool {
    &&& opened_to(parts, password, payloads, key, chunks)
    &&& chunks.len() == parts.len()
    &&& mergeable(chunks)
    &&& bytes == merged(chunks)
}

/// How a download stands when all that came have opened.
spec fn stands(
    parts: Seq<FilePartView>,
    password: Seq<char>,
    payloads: Seq<Seq<u8>>,
    n: nat,
    step: DownloadStepView,
) -> bool {
    match step {
        DownloadStepView::Fetch(download) => {
            &&& n < parts.len()
            &&& download.parts == parts
            &&& download.chunks.len() == n
            &&& n > 0 ==> (download.key matches Some(key) && opened_to(
                parts,
                password,
                payloads,
                key,
                download.chunks,
            ))
        },
        DownloadStepView::Save(bytes) => n >= parts.len() && exists|
            key: Seq<u8>,
            chunks: Seq<ChunkView>,
        |
            #[trigger] saved_from(parts, password, payloads, key, chunks, bytes),
        DownloadStepView::Failed(_) => true,
    }
}

/// One more part leaves a download as it should stand.
proof fn lemma_one_more_part(
    parts: Seq<FilePartView>,
    password: Seq<char>,
    payloads: Seq<Seq<u8>>,
    k: nat,
    download: DownloadView,
)
    requires
        stands(parts, password, payloads, k, DownloadStepView::Fetch(download)),
    ensures
        stands(
            parts,
            password,
            payloads,
            k + 1,
            download.received(password, payloads[k as int]),
        ),
{
    let data = payloads[k as int];
    let total = low32(parts.len() as int);
    let index = number_of(parts, k as int);
    let (key, payload) = if k == 0 {
        (derived_key(password, data.take(16)), data.skip(16))
    } else {
        (Ok::<Seq<u8>, CoreErrorView>(download.key.unwrap()), data)
    };
    match key {
        Err(_) => {
            assert(download.received(password, data) is Failed);
        },
        Ok(key) => match opened(index, total, payload, key) {
            Err(_) => {
                assert(download.received(password, data) is Failed);
            },
            Ok(chunk) => {
                let chunks = download.chunks.push(chunk);
                let next = DownloadView { parts, key: Some(key), chunks };
                assert(download.received(password, data) == next.step());
                assert(plain_of(parts, payloads, key, k as int) == Some(chunk.data));
                assert forall|i: int| 0 <= i < chunks.len() implies {
                    &&& (#[trigger] chunks[i]).index == number_of(parts, i)
                    &&& plain_of(parts, payloads, key, i) == Some(chunks[i].data)
                } by {
                    if i < k {
                        assert(chunks[i] == download.chunks[i]);
                    }
                }
                assert(opened_to(parts, password, payloads, key, chunks));
                if k + 1 == parts.len() && mergeable(chunks) {
                    let bytes = download.received(password, data)->Save_0;
                    assert(saved_from(parts, password, payloads, key, chunks, bytes));
                }
            },
        },
    }
}

/// While parts are fetched, all that came before have opened; and so they have once there are bytes to
/// write.
proof fn lemma_opened_so_far(
    parts: Seq<FilePartView>,
    password: Seq<char>,
    payloads: Seq<Seq<u8>>,
    n: nat,
)
    requires
        parts.len() > 0,
    ensures
        stands(parts, password, payloads, n, fetched(parts, password, payloads, n)),
    decreases n,
{
    if n > 0 {
        let k = (n - 1) as nat;
        lemma_opened_so_far(parts, password, payloads, k);
        match fetched(parts, password, payloads, k) {
            DownloadStepView::Fetch(download) => {
                lemma_one_more_part(parts, password, payloads, k, download);
            },
            _ => {},
        }
    }
}

/// A file is saved only whole: where a download of a file with parts ends with bytes to write, every
/// part has opened, under the key of the password and the salt before the first part and under its
/// own number; the numbers are those from zero on, each once; and the bytes are what the parts opened
/// to, in the order of the numbers.
pub proof fn law_saved_file_is_whole(
    parts: Seq<FilePartView>,
    password: Seq<char>,
    payloads: Seq<Seq<u8>>,
    n: nat,
    bytes: Seq<u8>,
)
    requires
        parts.len() > 0,
        fetched(parts, password, payloads, n) == DownloadStepView::Save(bytes),
    ensures
        n >= parts.len(),
        derived_key(password, payloads[0].take(16)) is Ok,
        ({
            let key = derived_key(password, payloads[0].take(16))->Ok_0;
            exists|plain: Seq<Seq<u8>>|
                {
                    &&& plain.len() == parts.len()
                    &&& bytes == #[trigger] plain.flatten()
                    &&& forall|i: int|
                        0 <= i < parts.len() ==> {
                            &&& (#[trigger] number_of(parts, i)) < parts.len()
                            &&& plain_of(parts, payloads, key, i) == Some(
                                plain[number_of(parts, i) as int],
                            )
                        }
                }
        }),
        forall|i: int, j: int|
            0 <= i < j < parts.len() ==> #[trigger] number_of(parts, i) != #[trigger] number_of(
                parts,
                j,
            ),
{
    broadcast use vstd::seq_lib::group_to_multiset_ensures;

    lemma_opened_so_far(parts, password, payloads, n);
    let (key, chunks) = choose|key: Seq<u8>, chunks: Seq<ChunkView>| #[trigger]
        saved_from(parts, password, payloads, key, chunks, bytes);
    let sorted = crate::chunk::sort_by_index(chunks);
    crate::chunk::lemma_sort_permutes(chunks);
    let data = |c: ChunkView| c.data;
    let plain = sorted.map_values(data);
    crate::chunk::lemma_concat_flat(sorted);
    assert(bytes == plain.flatten());
    assert forall|i: int| 0 <= i < parts.len() implies {
        &&& (#[trigger] number_of(parts, i)) < parts.len()
        &&& plain_of(parts, payloads, key, i) == Some(plain[number_of(parts, i) as int])
    } by {
        let c = chunks[i];
        assert(chunks.to_multiset().count(c) > 0);
        assert(sorted.contains(c));
        let k = choose|k: int| 0 <= k < sorted.len() && sorted[k] == c;
        assert(sorted[k].index == k);
    }
    assert forall|i: int, j: int| 0 <= i < j < parts.len() implies #[trigger] number_of(parts, i)
        != #[trigger] number_of(parts, j) by {
        assert(chunks[i].index == number_of(parts, i));
        assert(chunks[j].index == number_of(parts, j));
        law_merge_wants_each_number(chunks, number_of(parts, i) as int);
    }
}

/// A download starts by fetching, unless there is nothing to fetch: a file without parts is empty.
pub proof fn law_download_start(parts: Seq<FilePartView>)
    ensures
        parts.len() == 0 ==> fetched(parts, Seq::empty(), Seq::empty(), 0)
            == DownloadStepView::Save(Seq::empty()),
        parts.len() > 0 ==> {
            &&& DownloadView::fresh(parts).step() matches DownloadStepView::Fetch(download)
            &&& download.parts == parts
            &&& download.chunks.len() == 0
        },
{
    assert(merged(Seq::empty()) =~= Seq::empty());
}

}
