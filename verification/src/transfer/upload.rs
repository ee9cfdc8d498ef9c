//! Sending a file: its parts are read, sealed, sent and recorded one after the other.

use vstd::prelude::*;

use crate::chunk::{
    chunk_of, lemma_piece_count, low32, piece, piece_count, Chunk, ChunkView, CoreError,
    CoreErrorView, DEFAULT_CHUNK_SIZE,
};
use crate::crypto::{
    derive_key, derived_key, law_seal_is_a_nonce_and_a_ciphertext, seal_chunk, seals,
};
use crate::external::{aead_seal, hashable, random_bytes};
use crate::storage::models::{FileMeta, FileMetaView, FilePart, FilePartView};

verus! {

/// The length of the salt that stands before the first part of a file.
pub const SALT_LEN: usize = 16;

/// What is sent for a part: the salt, before the first part alone, and the sealed bytes.
pub open spec fn carries(
    payload: Seq<u8>,
    salt: Seq<u8>,
    key: Seq<u8>,
    index: u32,
    data: Seq<u8>,
) -> bool {
    if index == 0 {
        &&& payload.len() >= SALT_LEN
        &&& payload.take(SALT_LEN as int) == salt
        &&& seals(payload.skip(SALT_LEN as int), key, index, data)
    } else {
        seals(payload, key, index, data)
    }
}

/// A number of 64 bits read as a signed one.
pub open spec fn as_signed(n: u64) -> i64 {
    if n <= i64::MAX {
        n as i64
    } else {
        (n - 0x1_0000_0000_0000_0000) as i64
    }
}

/// The number of a part as the catalogue keeps it: 32 bits read as a signed number.
pub open spec fn part_number(index: u32) -> i32 {
    if index <= i32::MAX {
        index as i32
    } else {
        (index - 0x1_0000_0000) as i32
    }
}

/// How many parts a file of `len` bytes is sent in, when every part but the last is full. The size
/// of a part may not reach beyond 64 bits when it is added to the length.
pub fn total_parts(len: u64) -> (total: u32)
    requires
        len + DEFAULT_CHUNK_SIZE <= u64::MAX,
    ensures
        total == low32(piece_count(len as nat, DEFAULT_CHUNK_SIZE as nat) as int),
        len <= u32::MAX * DEFAULT_CHUNK_SIZE ==> {
            &&& len <= total * DEFAULT_CHUNK_SIZE
            &&& total > 0 ==> (total - 1) * DEFAULT_CHUNK_SIZE < len
        },
{
    proof {
        if len <= u32::MAX * DEFAULT_CHUNK_SIZE {
            law_parts_foreseen(len as nat);
        }
    }
    let size: u64 = DEFAULT_CHUNK_SIZE as u64;
    let count: u64 = (len + size - 1) / size;
    let total: u32 = #[verifier::truncate] (count as u32);
    assert(count as u32 == count % 0x1_0000_0000) by (bit_vector);
    total
}

/// The record of a file that is about to be sent. Its number comes from the catalogue.
pub fn file_row(folder: Option<i64>, name: String, len: u64, now: i64) -> (row: FileMeta)
    ensures
        row@ == (FileMetaView {
            id: 0,
            folder_id: folder,
            orig_name: name@,
            size: as_signed(len),
            mime: None,
            hash_full: Seq::empty(),
            created_at: now,
        }),
        len <= i64::MAX ==> row.size == len,
        row.folder_id == folder,
        row.orig_name@ == name@,
        row.created_at == now,
{
    let size: i64 = #[verifier::truncate] (len as i64);
    assert(len <= 0x7fff_ffff_ffff_ffff ==> len as i64 == len) by (bit_vector);
    assert(len > 0x7fff_ffff_ffff_ffff ==> len as i64 == len - 0x1_0000_0000_0000_0000)
        by (bit_vector);
    let row: FileMeta = FileMeta {
        id: 0,
        folder_id: folder,
        orig_name: name,
        size,
        mime: None,
        hash_full: Vec::new(),
        created_at: now,
    };
    assert(row@.hash_full =~= Seq::empty());
    row
}

/// A file that is about to be sent: its salt and key, and the parts that are foreseen.
pub struct UploadStart {
    salt: [u8; 16],
    key: [u8; 32],
    total: u32,
}

/// An `UploadStart` as mathematical values.
pub struct UploadStartView {
    pub salt: Seq<u8>,
    pub key: Seq<u8>,
    pub total: u32,
}

/// A file that is being sent: its number in the catalogue, the number of the part that is due, and
/// what has been read of that part.
pub struct Upload {
    start: UploadStart,
    file_id: i64,
    index: u32,
    pending: Vec<u8>,
}

/// An `Upload` as mathematical values.
#[verifier::ext_equal]
pub struct UploadView {
    pub salt: Seq<u8>,
    pub key: Seq<u8>,
    pub total: u32,
    pub file_id: i64,
    pub index: u32,
    pub pending: Seq<u8>,
}

/// A part that has been sealed and is on its way.
pub struct PartInFlight {
    upload: Upload,
    chunk: Chunk,
}

/// A `PartInFlight` as mathematical values.
pub struct PartInFlightView {
    pub upload: UploadView,
    pub chunk: ChunkView,
}

/// What is to be done after a read.
pub enum UploadStep {
    /// Read on: the part is not full yet.
    Read(Upload),
    /// Send these bytes, and then record the part.
    Send(PartInFlight, Vec<u8>),
    /// The file has been sent; its salt serves its thumbnail too.
    Finished([u8; 16]),
}

/// What comes of a read.
pub enum Taken {
    /// The part holds this so far, and is not full.
    More(Seq<u8>),
    /// This is a part.
    Part(Seq<u8>),
    /// The file has ended.
    End,
}

/// What comes of reading `bytes` behind what has been read of a part. A part is what fills the size
/// of a part, or what there is when the file ends, which a read of nothing shows.
pub open spec fn taken(pending: Seq<u8>, bytes: Seq<u8>) -> Taken {
    let all = pending + bytes;
    if bytes.len() == 0 {
        if pending.len() == 0 {
            Taken::End
        } else {
            Taken::Part(pending)
        }
    } else if all.len() < DEFAULT_CHUNK_SIZE {
        Taken::More(all)
    } else {
        Taken::Part(all)
    }
}

impl View for UploadStart {
    type V = UploadStartView;

    closed spec fn view(&self) -> UploadStartView {
        UploadStartView { salt: self.salt@, key: self.key@, total: self.total }
    }
}

impl View for Upload {
    type V = UploadView;

    closed spec fn view(&self) -> UploadView {
        UploadView {
            salt: self.start@.salt,
            key: self.start@.key,
            total: self.start@.total,
            file_id: self.file_id,
            index: self.index,
            pending: self.pending@,
        }
    }
}

impl View for PartInFlight {
    type V = PartInFlightView;

    closed spec fn view(&self) -> PartInFlightView {
        PartInFlightView { upload: self.upload@, chunk: self.chunk@ }
    }
}

impl UploadStart {
    /// Starts to send a file of `len` bytes, under a key from the password and a salt.
    pub fn with_salt(password: &str, salt: [u8; 16], len: u64) -> (r: Result<UploadStart, CoreError>)
        requires
            len + DEFAULT_CHUNK_SIZE <= u64::MAX,
        ensures
            match r {
                Ok(start) => {
                    &&& derived_key(password@, salt@) == Ok::<_, CoreErrorView>(start@.key)
                    &&& start@.salt == salt@
                    &&& start@.total == low32(
                        piece_count(len as nat, DEFAULT_CHUNK_SIZE as nat) as int,
                    )
                },
                Err(e) => derived_key(password@, salt@) == Err::<Seq<u8>, _>(e@),
            },
            r is Ok <==> hashable(password@, salt@),
    {
        let total: u32 = total_parts(len);
        match derive_key(password, salt.as_slice()) {
            Ok(key) => Ok(UploadStart { salt, key, total }),
            Err(e) => Err(e),
        }
    }

    /// Starts to send a file of `len` bytes, under a salt that is drawn anew.
    pub fn start(password: &str, len: u64) -> (r: Result<UploadStart, CoreError>)
        requires
            len + DEFAULT_CHUNK_SIZE <= u64::MAX,
        ensures
            match r {
                Ok(start) => {
                    &&& start@.salt.len() == SALT_LEN
                    &&& derived_key(password@, start@.salt) == Ok::<_, CoreErrorView>(start@.key)
                    &&& start@.total == low32(
                        piece_count(len as nat, DEFAULT_CHUNK_SIZE as nat) as int,
                    )
                },
                Err(e) => exists|salt: Seq<u8>|
                    salt.len() == SALT_LEN && #[trigger] derived_key(password@, salt) == Err::<
                        Seq<u8>,
                        _,
                    >(e@),
            },
            r is Ok <==> vstd::utf8::encode_utf8(password@).len() <= u32::MAX,
    {
        let salt: [u8; 16] = random_bytes::<16>();
        UploadStart::with_salt(password, salt, len)
    }

    /// Takes in the number that the catalogue gave the file.
    pub fn recorded(self, file_id: i64) -> (upload: Upload)
        ensures
            upload@ == (UploadView {
                salt: self@.salt,
                key: self@.key,
                total: self@.total,
                file_id,
                index: 0,
                pending: Seq::empty(),
            }),
    {
        let upload: Upload = Upload { start: self, file_id, index: 0, pending: Vec::new() };
        assert(upload@.pending =~= Seq::empty());
        upload
    }
}

impl Upload {
    /// The part that is due is not full.
    #[verifier::type_invariant]
    spec fn inv(self) -> bool {
        self.pending@.len() < DEFAULT_CHUNK_SIZE
    }

    /// The number of the part that is due.
    pub fn index(&self) -> (index: u32)
        ensures
            index == self@.index,
    {
        self.index
    }

    /// How many parts were foreseen.
    pub fn total(&self) -> (total: u32)
        ensures
            total == self@.total,
    {
        self.start.total
    }

    /// How many bytes the part that is due has room for.
    pub fn wanted(&self) -> (len: usize)
        ensures
            len == DEFAULT_CHUNK_SIZE - self@.pending.len(),
            len > 0,
    {
        proof {
            use_type_invariant(self);
        }
        DEFAULT_CHUNK_SIZE - self.pending.len()
    }

    /// Takes in what was read from the file, which is no more than was wanted. Nothing at all means
    /// that the file has ended.
    pub fn read(self, bytes: Vec<u8>) -> (step: UploadStep)
        requires
            self@.pending.len() + bytes@.len() <= DEFAULT_CHUNK_SIZE,
        ensures
            match taken(self@.pending, bytes@) {
                Taken::More(data) => {
                    &&& step matches UploadStep::Read(upload)
                    &&& upload@ == (UploadView { pending: data, ..self@ })
                },
                Taken::Part(data) => {
                    &&& step matches UploadStep::Send(part, payload)
                    &&& part@.upload == (UploadView { pending: Seq::empty(), ..self@ })
                    &&& part@.chunk == chunk_of(self@.index, self@.total, data)
                    &&& carries(payload@, self@.salt, self@.key, self@.index, data)
                },
                Taken::End => {
                    &&& step matches UploadStep::Finished(salt)
                    &&& salt@ == self@.salt
                },
            },
    {
        proof {
            use_type_invariant(&self);
        }
        let ended: bool = bytes.is_empty();
        let mut data: Vec<u8> = self.pending;
        data.extend_from_slice(bytes.as_slice());
        assert(data@ =~= self@.pending + bytes@);
        assert(ended ==> data@ =~= self@.pending);
        if ended && data.is_empty() {
            return UploadStep::Finished(self.start.salt);
        }
        if !ended && data.len() < DEFAULT_CHUNK_SIZE {
            return UploadStep::Read(
                Upload {
                    start: self.start,
                    file_id: self.file_id,
                    index: self.index,
                    pending: data,
                },
            );
        }
        let chunk: Chunk = Chunk::new(self.index, self.start.total, data);
        let sealed: Vec<u8> = match seal_chunk(&chunk, &self.start.key) {
            Ok(sealed) => sealed,
            Err(_) => vstd::pervasive::unreached(),
        };
        let mut payload: Vec<u8> = Vec::new();
        if self.index == 0 {
            payload.extend_from_slice(self.start.salt.as_slice());
        }
        payload.extend_from_slice(sealed.as_slice());
        proof {
            if self@.index == 0 {
                assert(payload@.take(SALT_LEN as int) =~= self@.salt);
                assert(payload@.skip(SALT_LEN as int) =~= sealed@);
            } else {
                assert(payload@ =~= sealed@);
            }
        }
        let upload: Upload = Upload {
            start: self.start,
            file_id: self.file_id,
            index: self.index,
            pending: Vec::new(),
        };
        assert(upload@ =~= UploadView { pending: Seq::empty(), ..self@ });
        UploadStep::Send(PartInFlight { upload, chunk }, payload)
    }
}

impl PartInFlight {
    /// The part holds no more than the size of a part.
    #[verifier::type_invariant]
    spec fn inv(self) -> bool {
        self.chunk.data@.len() <= DEFAULT_CHUNK_SIZE
    }

    /// The number of the part.
    pub fn index(&self) -> (index: u32)
        ensures
            index == self@.upload.index,
    {
        self.upload.index
    }

    /// Takes in the name under which the chat service keeps the part. Gives the record of the
    /// part, and the upload with the next part due. The number of the next part has to fit in 32
    /// bits.
    pub fn sent(self, file_id_tg: String) -> (r: (FilePart, Upload))
        requires
            self@.upload.index < u32::MAX,
        ensures
            r.0@ == (FilePartView {
                id: 0,
                file_id: self@.upload.file_id,
                part_no: part_number(self@.upload.index),
                size: self@.chunk.data.len() as i64,
                file_id_tg: file_id_tg@,
                sha256: self@.chunk.hash,
            }),
            r.1@ == (UploadView { index: (self@.upload.index + 1) as u32, ..self@.upload }),
            r.0.file_id == self@.upload.file_id,
            r.0.size == self@.chunk.data.len(),
            r.0.file_id_tg@ == file_id_tg@,
            r.0.sha256@ == self@.chunk.hash,
            self@.upload.index <= i32::MAX ==> r.0.part_no == self@.upload.index,
    {
        proof {
            use_type_invariant(&self);
            use_type_invariant(&self.upload);
        }
        let index: u32 = self.upload.index;
        let part_no: i32 = #[verifier::truncate] (index as i32);
        assert(index <= 0x7fff_ffff ==> index as i32 == index) by (bit_vector);
        assert(index > 0x7fff_ffff ==> index as i32 == index - 0x1_0000_0000) by (bit_vector);
        let size: i64 = self.chunk.data.len() as i64;
        let row: FilePart = FilePart {
            id: 0,
            file_id: self.upload.file_id,
            part_no,
            size,
            file_id_tg,
            sha256: vstd::slice::slice_to_vec(self.chunk.hash.as_slice()),
        };
        let upload: Upload = Upload {
            start: self.upload.start,
            file_id: self.upload.file_id,
            index: index + 1,
            pending: self.upload.pending,
        };
        (row, upload)
    }
}

/// How many bytes a read at a place in a file gives: what the reader likes, but something while the
/// file goes on, and no more than was wanted or is there.
pub open spec fn read_len(len: nat, at: nat, wanted: nat, liked: nat) -> nat {
    if at >= len {
        0
    } else {
        let most = if wanted <= len - at {
            wanted
        } else {
            (len - at) as nat
        };
        if liked < 1 {
            1
        } else if liked > most {
            most
        } else {
            liked
        }
    }
}

/// The parts that come of a file from a place on, behind what has been read of a part, with a reader
/// that likes to give so many bytes at each place.
pub open spec fn parts_read(
    file: Seq<u8>,
    at: nat,
    pending: Seq<u8>,
    likes: spec_fn(nat) -> nat,
) -> Seq<Seq<u8>>
    decreases file.len() - at, pending.len(),
    when at <= file.len() && pending.len() < DEFAULT_CHUNK_SIZE
{
    let n = read_len(file.len(), at, (DEFAULT_CHUNK_SIZE - pending.len()) as nat, likes(at));
    match taken(pending, file.subrange(at as int, (at + n) as int)) {
        Taken::More(all) => parts_read(file, at + n, all, likes),
        Taken::Part(data) => seq![data] + parts_read(file, at + n, Seq::empty(), likes),
        Taken::End => Seq::empty(),
    }
}

/// The pieces of a file, of which all but the last fill the size of a part.
pub open spec fn pieces_of(file: Seq<u8>) -> Seq<Seq<u8>> {
    Seq::new(
        piece_count(file.len(), DEFAULT_CHUNK_SIZE as nat),
        |i: int| piece(file, DEFAULT_CHUNK_SIZE as nat, i),
    )
}

/// What is read from within a piece on are that piece and those behind it.
proof fn lemma_parts_read(
    file: Seq<u8>,
    at: nat,
    pending: Seq<u8>,
    likes: spec_fn(nat) -> nat,
    k: nat,
)
    requires
        k * DEFAULT_CHUNK_SIZE <= at <= file.len(),
        pending == file.subrange(k * DEFAULT_CHUNK_SIZE, at as int),
        pending.len() < DEFAULT_CHUNK_SIZE,
    ensures
        k <= pieces_of(file).len(),
        parts_read(file, at, pending, likes) == pieces_of(file).skip(k as int),
    decreases file.len() - at,
{
    let size = DEFAULT_CHUNK_SIZE as nat;
    let count = piece_count(file.len(), size);
    let n = read_len(file.len(), at, (size - pending.len()) as nat, likes(at));
    let bytes = file.subrange(at as int, (at + n) as int);
    lemma_piece_count(file.len(), size);
    if n == 0 {
        if pending.len() == 0 {
            assert(count == k);
            assert(pieces_of(file).skip(k as int) =~= Seq::empty());
        } else {
            assert(count == k + 1);
            assert(piece(file, size, k as int) =~= pending);
            assert(parts_read(file, at, Seq::empty(), likes) =~= Seq::<Seq<u8>>::empty());
            assert(pieces_of(file).skip(k as int) =~= seq![pending] + Seq::<Seq<u8>>::empty());
        }
    } else {
        let all = pending + bytes;
        assert(all =~= file.subrange((k * size) as int, (at + n) as int));
        assert(k < count);
        if all.len() < size {
            lemma_parts_read(file, at + n, all, likes, k);
        } else {
            assert(at + n == (k + 1) * size);
            assert(piece(file, size, k as int) =~= all);
            assert(file.subrange(((k + 1) * size) as int, (at + n) as int) =~= Seq::empty());
            lemma_parts_read(file, at + n, Seq::empty(), likes, k + 1);
            assert(pieces_of(file).skip(k as int) =~= seq![all] + pieces_of(file).skip(
                (k + 1) as int,
            ));
        }
    }
}

/// However a file is read, its parts are its pieces: as many as are needed to cover it, and every
/// one but the last of the full size.
pub proof fn law_parts_are_full(file: Seq<u8>, likes: spec_fn(nat) -> nat)
    ensures
        ({
            let parts = parts_read(file, 0, Seq::empty(), likes);
            &&& parts == pieces_of(file)
            &&& parts.len() == piece_count(file.len(), DEFAULT_CHUNK_SIZE as nat)
            &&& forall|i: int|
                0 <= i < parts.len() - 1 ==> (#[trigger] parts[i]).len() == DEFAULT_CHUNK_SIZE
            &&& parts.len() > 0 ==> 0 < parts.last().len() <= DEFAULT_CHUNK_SIZE
        }),
{
    let size = DEFAULT_CHUNK_SIZE as nat;
    assert(file.subrange(0, 0) =~= Seq::empty());
    lemma_parts_read(file, 0, Seq::empty(), likes, 0);
    assert(pieces_of(file).skip(0) =~= pieces_of(file));
    lemma_piece_count(file.len(), size);
}

/// The size in the record of a file is its length, as long as 63 bits can count it; beyond that it is
/// the length less two to the power of 64.
pub proof fn law_recorded_size_is_the_length(len: u64)
    ensures
        len <= i64::MAX ==> as_signed(len) == len,
        len > i64::MAX ==> as_signed(len) == len - 0x1_0000_0000_0000_0000,
{
}

/// The number in the record of a part is its place, as long as 31 bits can count it; beyond that it
/// is the place less two to the power of 32.
pub proof fn law_recorded_number_is_the_place(index: u32)
    ensures
        index <= i32::MAX ==> part_number(index) == index,
        index > i32::MAX ==> part_number(index) == index - 0x1_0000_0000,
{
}

/// As many parts are foreseen as are needed to hold the file and no more, as long as 32 bits can
/// count them.
pub proof fn law_parts_foreseen(len: nat)
    requires
        len <= u32::MAX * DEFAULT_CHUNK_SIZE,
    ensures
        ({
            let total = low32(piece_count(len, DEFAULT_CHUNK_SIZE as nat) as int);
            &&& len <= total * DEFAULT_CHUNK_SIZE
            &&& total > 0 ==> (total - 1) * DEFAULT_CHUNK_SIZE < len
        }),
{
    lemma_piece_count(len, DEFAULT_CHUNK_SIZE as nat);
}

/// What is sent for a part is a nonce of twelve bytes and behind it what AES-256-GCM makes of the
/// bytes of the part, under the key, that nonce and the number of the part. The salt of sixteen bytes
/// stands before that of the first part, and of no other.
pub proof fn law_payload_layout(
    payload: Seq<u8>,
    salt: Seq<u8>,
    key: Seq<u8>,
    index: u32,
    data: Seq<u8>,
    number: Seq<u8>,
)
    requires
        carries(payload, salt, key, index, data),
        number.len() == 4,
        number[0] * 0x100_0000 + number[1] * 0x1_0000 + number[2] * 0x100 + number[3] == index,
    ensures
        index == 0 ==> {
            &&& payload.len() == 16 + 12 + data.len() + 16
            &&& payload.take(16) == salt
            &&& payload.skip(28) == aead_seal(key, payload.subrange(16, 28), data, number)
        },
        index > 0 ==> {
            &&& payload.len() == 12 + data.len() + 16
            &&& payload.skip(12) == aead_seal(key, payload.take(12), data, number)
        },
{
    if index == 0 {
        let sealed = payload.skip(16);
        law_seal_is_a_nonce_and_a_ciphertext(sealed, key, index, data, number);
        assert(sealed.take(12) =~= payload.subrange(16, 28));
        assert(sealed.skip(12) =~= payload.skip(28));
    } else {
        law_seal_is_a_nonce_and_a_ciphertext(payload, key, index, data, number);
    }
}

}
