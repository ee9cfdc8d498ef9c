//! Cutting a file into numbered, hashed chunks, and putting the chunks together again.

use vstd::prelude::*;

use crate::external::{sha256, sha256_digest};

verus! {

/// The size of the pieces that a file is cut into: 19 MiB, which one message of the chat service
/// carries.
pub const DEFAULT_CHUNK_SIZE: usize = 19_922_944;

/// What can go wrong with chunks and their encryption.
#[derive(Debug)]
pub enum CoreError {
    /// Encryption or decryption failed.
    Crypto(String),
    /// No key could be derived.
    Argon2(String),
    /// The chunks of a file do not belong together.
    BadChunks,
}

/// A `CoreError` with its text.
pub enum CoreErrorView {
    Crypto(Seq<char>),
    Argon2(Seq<char>),
    BadChunks,
}

impl View for CoreError {
    type V = CoreErrorView;

    open spec fn view(&self) -> CoreErrorView {
        match self {
            CoreError::Crypto(text) => CoreErrorView::Crypto(text@),
            CoreError::Argon2(text) => CoreErrorView::Argon2(text@),
            CoreError::BadChunks => CoreErrorView::BadChunks,
        }
    }
}

impl CoreError {
    /// The error in words.
    pub fn message(&self) -> (text: String)
        ensures
            text@ == match self@ {
                CoreErrorView::Crypto(cause) => "cryptography error: "@ + cause,
                CoreErrorView::Argon2(cause) => "argon2 error: "@ + cause,
                CoreErrorView::BadChunks => "chunk index / hash mismatch"@,
            },
    {
        match self {
            CoreError::Crypto(cause) => {
                let mut text: String = "cryptography error: ".to_string();
                text.append(cause.as_str());
                text
            },
            CoreError::Argon2(cause) => {
                let mut text: String = "argon2 error: ".to_string();
                text.append(cause.as_str());
                text
            },
            CoreError::BadChunks => "chunk index / hash mismatch".to_string(),
        }
    }
}

/// One piece of a file.
#[derive(Clone, Debug)]
pub struct Chunk {
    /// The place of the piece in the file, from zero.
    pub index: u32,
    /// How many pieces the file has.
    pub total: u32,
    /// The bytes of the piece.
    pub data: Vec<u8>,
    /// The SHA-256 digest of the bytes.
    pub hash: [u8; 32],
}

/// A chunk as mathematical values.
#[verifier::ext_equal]
pub struct ChunkView {
    pub index: u32,
    pub total: u32,
    pub data: Seq<u8>,
    pub hash: Seq<u8>,
}

impl View for Chunk {
    type V = ChunkView;

    open spec fn view(&self) -> ChunkView {
        ChunkView { index: self.index, total: self.total, data: self.data@, hash: self.hash@ }
    }
}

/// The low 32 bits of a count.
pub open spec fn low32(n: int) -> u32 {
    (n % 0x1_0000_0000) as u32
}

/// The chunk that carries `data`, with the digest of it.
pub open spec fn chunk_of(index: u32, total: u32, data: Seq<u8>) -> ChunkView {
    ChunkView { index, total, data, hash: sha256(data) }
}

/// The views of a list of chunks.
pub open spec fn chunk_views(chunks: Seq<Chunk>) -> Seq<ChunkView> {
    chunks.map_values(|c: Chunk| c@)
}

/// How many pieces of `size` bytes cover `len` bytes.
pub open spec fn piece_count(len: nat, size: nat) -> nat
    recommends
        size > 0,
{
    ((len + size - 1) / size as int) as nat
}

/// Where piece `i` ends.
pub open spec fn piece_end(len: nat, size: nat, i: int) -> int {
    if (i + 1) * size <= len {
        (i + 1) * size
    } else {
        len as int
    }
}

/// Piece `i` of a byte string.
pub open spec fn piece(buf: Seq<u8>, size: nat, i: int) -> Seq<u8> {
    buf.subrange(i * size, piece_end(buf.len(), size, i))
}

/// The chunks of a byte string: its pieces in order, each with its number and their count.
pub open spec fn split(buf: Seq<u8>, size: nat) -> Seq<ChunkView> {
    let total = low32(piece_count(buf.len(), size) as int);
    Seq::new(piece_count(buf.len(), size), |i: int| chunk_of(low32(i), total, piece(buf, size, i)))
}

/// Puts a chunk behind the last one whose number is not greater.
pub open spec fn insert_by_index(sorted: Seq<ChunkView>, c: ChunkView) -> Seq<ChunkView>
    decreases sorted.len(),
{
    if sorted.len() == 0 || sorted.last().index <= c.index {
        sorted.push(c)
    } else {
        insert_by_index(sorted.drop_last(), c).push(sorted.last())
    }
}

/// The chunks in the order of their numbers; those of one number stay in the order they came in.
pub open spec fn sort_by_index(chunks: Seq<ChunkView>) -> Seq<ChunkView>
    decreases chunks.len(),
{
    if chunks.len() == 0 {
        chunks
    } else {
        insert_by_index(sort_by_index(chunks.drop_last()), chunks.last())
    }
}

/// The bytes of the chunks, one behind the other.
pub open spec fn concat_data(chunks: Seq<ChunkView>) -> Seq<u8>
    decreases chunks.len(),
{
    if chunks.len() == 0 {
        Seq::empty()
    } else {
        concat_data(chunks.drop_last()) + chunks.last().data
    }
}

/// Each chunk's digest is that of its bytes.
pub open spec fn all_intact(chunks: Seq<ChunkView>) -> bool {
    forall|i: int| 0 <= i < chunks.len() ==> (#[trigger] chunks[i]).hash == sha256(chunks[i].data)
}

/// The chunks in their order have the numbers from zero on, with none missing and none twice.
pub open spec fn numbered(sorted: Seq<ChunkView>) -> bool {
    forall|i: int| 0 <= i < sorted.len() ==> (#[trigger] sorted[i]).index == i
}

/// The chunks belong together: there are as many of them as the first says, with the numbers from
/// zero on, and all are intact. No chunks at all belong together too.
pub open spec fn mergeable(chunks: Seq<ChunkView>) -> bool {
    chunks.len() == 0 || {
        &&& chunks.len() == sort_by_index(chunks)[0].total
        &&& numbered(sort_by_index(chunks))
        &&& all_intact(chunks)
    }
}

/// The bytes that chunks which belong together make up.
pub open spec fn merged(chunks: Seq<ChunkView>) -> Seq<u8> {
    concat_data(sort_by_index(chunks))
}

impl Chunk {
    /// A chunk that carries `data`, with the digest of it.
    pub fn new(index: u32, total: u32, data: Vec<u8>) -> (chunk: Self)
        ensures
            chunk@ == chunk_of(index, total, data@),
            chunk.index == index,
            chunk.total == total,
            chunk.data@ == data@,
            chunk.hash@ == sha256(data@),
    {
        let hash: [u8; 32] = sha256_digest(data.as_slice());
        Chunk { index, total, data, hash }
    }
}

/// The low 32 bits of a count.
pub(crate) fn truncate32(n: usize) -> (low: u32)
    ensures
        low == low32(n as int),
{
    let wide: u64 = n as u64;
    let low: u32 = #[verifier::truncate] (wide as u32);
    assert(wide as u32 == wide % 0x1_0000_0000) by (bit_vector);
    low
}

/// Cuts a buffer into chunks of a fixed size; the last one may be shorter.
///
/// There is no way to cut into pieces of size zero, and the size may not reach beyond `usize` when
/// it is added to the length.
pub fn split_bytes(buf: &[u8], chunk_size: usize) -> (chunks: Vec<Chunk>)
    requires
        chunk_size > 0,
        buf@.len() + chunk_size <= usize::MAX,
    ensures
        chunk_views(chunks@) == split(buf@, chunk_size as nat),
{
    let count: usize = (buf.len() + chunk_size - 1) / chunk_size;
    let total: u32 = truncate32(count);
    let mut chunks: Vec<Chunk> = Vec::new();
    let mut start: usize = 0;
    let mut i: usize = 0;
    proof {
        lemma_piece_count(buf@.len(), chunk_size as nat);
    }
    while i < count
        invariant
            0 <= i <= count,
            chunk_size > 0,
            buf@.len() + chunk_size <= usize::MAX,
            count == piece_count(buf@.len(), chunk_size as nat),
            count > 0 ==> (count - 1) * chunk_size < buf@.len() <= count * chunk_size,
            total == low32(count as int),
            start == i * chunk_size || i == count,
            i < count ==> start < buf@.len(),
            chunks@.len() == i,
            forall|j: int|
                0 <= j < i ==> (#[trigger] chunks@[j])@ == chunk_of(
                    low32(j),
                    total,
                    piece(buf@, chunk_size as nat, j),
                ),
        decreases count - i,
    {
        let rest: usize = buf.len() - start;
        let end: usize = if rest < chunk_size { buf.len() } else { start + chunk_size };
        proof {
            let s = chunk_size as int;
            let k = i as int;
            assert((k + 1) * s == k * s + s) by (nonlinear_arith);
            assert(end == piece_end(buf@.len(), chunk_size as nat, k));
        }
        let data: Vec<u8> = vstd::slice::slice_to_vec(vstd::slice::slice_subrange(buf, start, end));
        assert(data@ == piece(buf@, chunk_size as nat, i as int));
        chunks.push(Chunk::new(truncate32(i), total, data));
        start = end;
        i = i + 1;
        proof {
            let s = chunk_size as int;
            let k = i as int;
            if k < count {
                assert(k * s <= (count - 1) * s) by (nonlinear_arith)
                    requires
                        k <= count - 1,
                        s > 0,
                ;
            }
        }
    }
    assert(chunk_views(chunks@) =~= split(buf@, chunk_size as nat));
    chunks
}

/// The last piece is not empty, and the pieces reach to the end.
pub proof fn lemma_piece_count(len: nat, size: nat)
    requires
        size > 0,
    ensures
        piece_count(len, size) > 0 ==> (piece_count(len, size) - 1) * size < len,
        len <= piece_count(len, size) * size,
        len == 0 <==> piece_count(len, size) == 0,
{
    let x = len + size - 1;
    let s = size as int;
    let q = x / s;
    vstd::arithmetic::div_mod::lemma_fundamental_div_mod(x as int, s);
    assert(s * q == q * s) by (nonlinear_arith);
    assert((q - 1) * s == q * s - s) by (nonlinear_arith);
    assert(0 <= x % s < s);
    if len == 0 {
        vstd::arithmetic::div_mod::lemma_basic_div(x as int, s);
    } else {
        assert(q >= 1) by (nonlinear_arith)
            requires
                x == q * s + (x % s),
                x % s < s,
                x >= s,
                s > 0,
        ;
    }
}

/// Puts the chunks of a file together, whatever order they come in.
pub fn merge_chunks(chunks: Vec<Chunk>) -> (r: Result<Vec<u8>, CoreError>)
    ensures
        match r {
            Ok(bytes) => {
                &&& mergeable(chunk_views(chunks@))
                &&& bytes@ == merged(chunk_views(chunks@))
                &&& forall|i: int|
                    0 <= i < chunks@.len() ==> (#[trigger] chunks@[i]).hash@ == sha256(
                        chunks@[i].data@,
                    )
            },
            Err(e) => {
                &&& !mergeable(chunk_views(chunks@))
                &&& e is BadChunks
            },
        },
{
    if chunks.is_empty() {
        assert(chunk_views(chunks@) =~= Seq::empty());
        return Ok(Vec::new());
    }
    let ghost given = chunk_views(chunks@);
    let sorted: Vec<Chunk> = sort_chunks(chunks);
    proof {
        lemma_sort_permutes(given);
        lemma_intact_multiset(given, chunk_views(sorted@));
    }
    let expected: usize = sorted[0].total as usize;
    assert(sorted@[0].total == chunk_views(sorted@)[0].total);
    if sorted.len() != expected {
        return Err(CoreError::BadChunks);
    }
    let mut bytes: Vec<u8> = Vec::new();
    let mut i: usize = 0;
    while i < sorted.len()
        invariant
            0 <= i <= sorted@.len(),
            given == chunk_views(chunks@),
            given.len() > 0,
            chunk_views(sorted@) == sort_by_index(given),
            sorted@.len() == given.len(),
            given.len() == sort_by_index(given)[0].total,
            all_intact(given) <==> all_intact(sort_by_index(given)),
            bytes@ == concat_data(chunk_views(sorted@).take(i as int)),
            all_intact(chunk_views(sorted@).take(i as int)),
            sorted@.len() <= u32::MAX,
            forall|j: int| 0 <= j < i ==> (#[trigger] chunk_views(sorted@)[j]).index == j,
        decreases sorted@.len() - i,
    {
        let ghost views = chunk_views(sorted@);
        assert(views[i as int] == sorted@[i as int]@);
        if sorted[i].index != i as u32 {
            assert(!numbered(views));
            return Err(CoreError::BadChunks);
        }
        let hash: [u8; 32] = sha256_digest(sorted[i].data.as_slice());
        if !same_hash(&hash, &sorted[i].hash) {
            assert(!all_intact(views));
            return Err(CoreError::BadChunks);
        }
        bytes.extend_from_slice(sorted[i].data.as_slice());
        proof {
            let next = views.take(i + 1);
            assert(next.drop_last() =~= views.take(i as int));
            assert(next.last() == views[i as int]);
            assert forall|j: int| 0 <= j < next.len() implies (#[trigger] next[j]).hash == sha256(
                next[j].data,
            ) by {
                if j < i {
                    assert(next[j] == views.take(i as int)[j]);
                }
            }
        }
        i = i + 1;
    }
    proof {
        if all_intact(given) {
            assert forall|j: int| 0 <= j < chunks@.len() implies (#[trigger] chunks@[j]).hash@
                == sha256(chunks@[j].data@) by {
                assert(given[j] == chunks@[j]@);
            }
        }
    }
    assert(chunk_views(sorted@).take(i as int) =~= chunk_views(sorted@));
    Ok(bytes)
}

/// Whether two digests are equal.
fn same_hash(a: &[u8; 32], b: &[u8; 32]) -> (same: bool)
    ensures
        same == (a@ == b@),
{
    let mut i: usize = 0;
    while i < 32
        invariant
            0 <= i <= 32,
            forall|j: int| 0 <= j < i ==> a@[j] == b@[j],
        decreases 32 - i,
    {
        if a[i] != b[i] {
            assert(a@[i as int] != b@[i as int]);
            return false;
        }
        i = i + 1;
    }
    assert(a@ =~= b@);
    true
}

/// Sorts chunks by their numbers, keeping the order of those of one number.
fn sort_chunks(chunks: Vec<Chunk>) -> (sorted: Vec<Chunk>)
    ensures
        chunk_views(sorted@) == sort_by_index(chunk_views(chunks@)),
{
    let ghost given = chunk_views(chunks@);
    let mut sorted: Vec<Chunk> = chunks;
    let mut i: usize = 0;
    assert(given.take(0) =~= Seq::empty());
    assert(chunk_views(sorted@) =~= sort_by_index(given.take(0)) + given.skip(0));
    while i < sorted.len()
        invariant
            0 <= i <= sorted@.len(),
            sorted@.len() == given.len(),
            chunk_views(sorted@) == sort_by_index(given.take(i as int)) + given.skip(i as int),
        decreases given.len() - i,
    {
        let ghost done = sort_by_index(given.take(i as int));
        let ghost before = sorted@;
        let ghost views = chunk_views(before);
        let ghost c = given[i as int];
        proof {
            lemma_sort_permutes(given.take(i as int));
            assert(views[i as int] == c);
            assert(views.take(i as int) =~= done);
        }
        let index: u32 = sorted[i].index;
        assert(index == views[i as int].index);
        let mut at: usize = i;
        assert(done.take(at as int) =~= done);
        assert(done.skip(at as int) =~= Seq::empty());
        assert(insert_by_index(done, c) =~= insert_by_index(done.take(at as int), c) + done.skip(
            at as int,
        ));
        while at > 0 && sorted[at - 1].index > index
            invariant
                0 <= at <= i,
                i < sorted@.len(),
                sorted@ == before,
                views == chunk_views(before),
                done == views.take(i as int),
                done.len() == i,
                index == c.index,
                insert_by_index(done, c) == insert_by_index(done.take(at as int), c) + done.skip(
                    at as int,
                ),
            decreases at,
        {
            proof {
                let head = done.take(at as int);
                assert(head.last() == views[at - 1]);
                assert(views[at - 1] == sorted@[at - 1]@);
                assert(head.drop_last() =~= done.take(at - 1));
                assert(insert_by_index(done.take(at - 1), c) + done.skip(at - 1) =~= insert_by_index(
                    done.take(at - 1),
                    c,
                ).push(head.last()) + done.skip(at as int));
            }
            at = at - 1;
        }
        proof {
            let head = done.take(at as int);
            if at > 0 {
                assert(head.last() == views[at - 1]);
                assert(views[at - 1] == sorted@[at - 1]@);
            }
            assert(insert_by_index(head, c) == head.push(c));
            let next = given.take(i + 1);
            assert(next.drop_last() =~= given.take(i as int));
            assert(next.last() == c);
        }
        if at < i {
            let moved: Chunk = sorted.remove(i);
            sorted.insert(at, moved);
        }
        assert(chunk_views(sorted@) =~= done.take(at as int).push(c) + done.skip(at as int)
            + given.skip(i + 1)) by {
            assert(forall|k: int|
                i < k < given.len() ==> views[k] == #[trigger] given[k]);
        }
        i = i + 1;
    }
    assert(given.take(i as int) =~= given);
    assert(given.skip(i as int) =~= Seq::empty());
    assert(chunk_views(sorted@) =~= sort_by_index(given));
    sorted
}

/// Inserting a chunk adds that chunk and nothing else.
proof fn lemma_insert_permutes(sorted: Seq<ChunkView>, c: ChunkView)
    ensures
        insert_by_index(sorted, c).to_multiset() == sorted.push(c).to_multiset(),
        insert_by_index(sorted, c).len() == sorted.len() + 1,
    decreases sorted.len(),
{
    broadcast use vstd::seq_lib::group_to_multiset_ensures;

    if sorted.len() == 0 || sorted.last().index <= c.index {
    } else {
        lemma_insert_permutes(sorted.drop_last(), c);
        let last = sorted.last();
        assert(sorted =~= sorted.drop_last().push(last));
        assert(sorted.push(c).to_multiset() =~= sorted.drop_last().to_multiset().insert(
            last,
        ).insert(c));
        assert(insert_by_index(sorted, c).to_multiset() =~= sorted.drop_last().to_multiset().insert(
            c,
        ).insert(last));
    }
}

/// Sorting keeps every chunk.
pub proof fn lemma_sort_permutes(chunks: Seq<ChunkView>)
    ensures
        sort_by_index(chunks).to_multiset() == chunks.to_multiset(),
        sort_by_index(chunks).len() == chunks.len(),
    decreases chunks.len(),
{
    broadcast use vstd::seq_lib::group_to_multiset_ensures;

    if chunks.len() > 0 {
        let init = chunks.drop_last();
        lemma_sort_permutes(init);
        lemma_insert_permutes(sort_by_index(init), chunks.last());
        assert(chunks =~= init.push(chunks.last()));
        assert(sort_by_index(init).push(chunks.last()).to_multiset() =~= init.push(
            chunks.last(),
        ).to_multiset());
    }
}

/// Whether chunks are intact does not depend on their order.
proof fn lemma_intact_multiset(a: Seq<ChunkView>, b: Seq<ChunkView>)
    requires
        a.to_multiset() == b.to_multiset(),
    ensures
        all_intact(a) <==> all_intact(b),
{
    broadcast use vstd::seq_lib::group_to_multiset_ensures;

    if all_intact(a) {
        assert forall|i: int| 0 <= i < b.len() implies (#[trigger] b[i]).hash == sha256(
            b[i].data,
        ) by {
            assert(b.to_multiset().count(b[i]) > 0);
            assert(a.contains(b[i]));
        }
    }
    if all_intact(b) {
        assert forall|i: int| 0 <= i < a.len() implies (#[trigger] a[i]).hash == sha256(
            a[i].data,
        ) by {
            assert(a.to_multiset().count(a[i]) > 0);
            assert(b.contains(a[i]));
        }
    }
}

/// The numbers of the chunks do not fall.
pub open spec fn index_ordered(chunks: Seq<ChunkView>) -> bool {
    forall|i: int, j: int|
        0 <= i < j < chunks.len() ==> (#[trigger] chunks[i]).index <= (#[trigger] chunks[j]).index
}

/// Chunks that have the same number are the same in all else.
pub open spec fn index_tells(chunks: Seq<ChunkView>) -> bool {
    forall|i: int, j: int|
        0 <= i < chunks.len() && 0 <= j < chunks.len() && (#[trigger] chunks[i]).index == (
        #[trigger] chunks[j]).index ==> chunks[i] == chunks[j]
}

/// Inserting into ordered chunks keeps them ordered, and below any bound that held before.
proof fn lemma_insert_ordered(sorted: Seq<ChunkView>, c: ChunkView, bound: u32)
    requires
        index_ordered(sorted),
        forall|i: int| 0 <= i < sorted.len() ==> (#[trigger] sorted[i]).index <= bound,
        c.index <= bound,
    ensures
        index_ordered(insert_by_index(sorted, c)),
        forall|i: int|
            0 <= i < insert_by_index(sorted, c).len() ==> (#[trigger] insert_by_index(
                sorted,
                c,
            )[i]).index <= bound,
    decreases sorted.len(),
{
    if sorted.len() == 0 || sorted.last().index <= c.index {
    } else {
        lemma_insert_ordered(sorted.drop_last(), c, sorted.last().index);
    }
}

/// Sorting orders chunks by their numbers.
pub proof fn lemma_sort_orders(chunks: Seq<ChunkView>)
    ensures
        index_ordered(sort_by_index(chunks)),
    decreases chunks.len(),
{
    if chunks.len() > 0 {
        lemma_sort_orders(chunks.drop_last());
        lemma_insert_ordered(sort_by_index(chunks.drop_last()), chunks.last(), u32::MAX);
    }
}

/// Rearranging chunks leaves those of one number the same.
proof fn lemma_tells_multiset(a: Seq<ChunkView>, b: Seq<ChunkView>)
    requires
        a.to_multiset() == b.to_multiset(),
        index_tells(a),
    ensures
        index_tells(b),
{
    broadcast use vstd::seq_lib::group_to_multiset_ensures;

    assert forall|i: int, j: int|
        0 <= i < b.len() && 0 <= j < b.len() && (#[trigger] b[i]).index == (#[trigger] b[j]).index
        implies b[i] == b[j] by {
        assert(b.to_multiset().count(b[i]) > 0 && b.to_multiset().count(b[j]) > 0);
        assert(a.contains(b[i]) && a.contains(b[j]));
    }
}

/// There is one way to order chunks of which those of one number are the same.
proof fn lemma_order_unique(a: Seq<ChunkView>, b: Seq<ChunkView>)
    requires
        a.to_multiset() == b.to_multiset(),
        index_ordered(a),
        index_ordered(b),
        index_tells(a),
        index_tells(b),
    ensures
        a == b,
    decreases a.len(),
{
    broadcast use vstd::seq_lib::group_to_multiset_ensures;

    vstd::seq_lib::to_multiset_len(a);
    vstd::seq_lib::to_multiset_len(b);
    if a.len() > 0 {
        assert(a.last() == b.last()) by {
            assert(a.to_multiset().count(a.last()) > 0 && b.to_multiset().count(b.last()) > 0);
            assert(b.contains(a.last()) && a.contains(b.last()));
            let k = choose|k: int| 0 <= k < b.len() && b[k] == a.last();
            let l = choose|l: int| 0 <= l < a.len() && a[l] == b.last();
            assert(b[k].index <= b.last().index);
            assert(a[l].index <= a.last().index);
        }
        let last = a.last();
        assert(a =~= a.drop_last().push(last));
        assert(b =~= b.drop_last().push(last));
        assert(a.drop_last().to_multiset() =~= a.to_multiset().remove(last));
        assert(b.drop_last().to_multiset() =~= b.to_multiset().remove(last));
        lemma_order_unique(a.drop_last(), b.drop_last());
    } else {
        assert(a =~= b);
    }
}

/// What belongs together in one order belongs together in any other, and sorts to the same.
proof fn lemma_mergeable_reordered(a: Seq<ChunkView>, b: Seq<ChunkView>)
    requires
        a.to_multiset() == b.to_multiset(),
        mergeable(a),
    ensures
        mergeable(b),
        sort_by_index(a) == sort_by_index(b),
{
    let sorted = sort_by_index(a);
    lemma_sort_permutes(a);
    lemma_sort_permutes(b);
    lemma_sort_orders(a);
    lemma_sort_orders(b);
    vstd::seq_lib::to_multiset_len(a);
    vstd::seq_lib::to_multiset_len(b);
    assert(numbered(sorted));
    assert(index_tells(sorted)) by {
        assert forall|i: int, j: int|
            0 <= i < sorted.len() && 0 <= j < sorted.len() && (#[trigger] sorted[i]).index == (
            #[trigger] sorted[j]).index implies sorted[i] == sorted[j] by {
            assert(sorted[i].index == i && sorted[j].index == j);
        }
    }
    lemma_tells_multiset(sorted, sort_by_index(b));
    lemma_order_unique(sorted, sort_by_index(b));
    lemma_intact_multiset(a, b);
}

/// Chunks merge in the same way whatever order they come in.
pub proof fn law_merge_ignores_order(a: Seq<ChunkView>, b: Seq<ChunkView>)
    requires
        a.to_multiset() == b.to_multiset(),
    ensures
        mergeable(a) <==> mergeable(b),
        mergeable(a) ==> merged(a) == merged(b),
{
    if mergeable(a) {
        lemma_mergeable_reordered(a, b);
    }
    if mergeable(b) {
        lemma_mergeable_reordered(b, a);
    }
}

/// A number that is missing and a number that comes twice are found: chunks belong together only if
/// each number from zero on is that of exactly one of them.
pub proof fn law_merge_wants_each_number(chunks: Seq<ChunkView>, number: int)
    requires
        mergeable(chunks),
        0 <= number < chunks.len(),
    ensures
        exists|i: int|
            0 <= i < chunks.len() && (#[trigger] chunks[i]).index == number && forall|j: int|
                0 <= j < chunks.len() && (#[trigger] chunks[j]).index == number ==> j == i,
{
    broadcast use vstd::seq_lib::group_to_multiset_ensures;

    let sorted = sort_by_index(chunks);
    lemma_sort_permutes(chunks);
    assert(sorted.no_duplicates()) by {
        assert forall|i: int, j: int|
            0 <= i < sorted.len() && 0 <= j < sorted.len() && i != j implies sorted[i]
            != sorted[j] by {
            assert(sorted[i].index == i && sorted[j].index == j);
        }
    }
    sorted.lemma_multiset_has_no_duplicates();
    chunks.lemma_multiset_has_no_duplicates_conv();
    assert(sorted[number].index == number);
    assert(sorted.to_multiset().count(sorted[number]) > 0);
    assert(chunks.contains(sorted[number]));
    let i = choose|i: int| 0 <= i < chunks.len() && chunks[i] == sorted[number];
    assert forall|j: int| 0 <= j < chunks.len() && (#[trigger] chunks[j]).index == number implies j
        == i by {
        assert(chunks.to_multiset().count(chunks[j]) > 0);
        assert(sorted.contains(chunks[j]));
        let k = choose|k: int| 0 <= k < sorted.len() && sorted[k] == chunks[j];
        assert(sorted[k].index == k);
        assert(chunks[j] == chunks[i]);
    }
}

/// Chunks whose numbers do not fall are in order already.
pub proof fn lemma_sort_ordered(chunks: Seq<ChunkView>)
    requires
        index_ordered(chunks),
    ensures
        sort_by_index(chunks) == chunks,
    decreases chunks.len(),
{
    if chunks.len() > 0 {
        let init = chunks.drop_last();
        lemma_sort_ordered(init);
        if init.len() > 0 {
            assert(init.last() == chunks[chunks.len() - 2]);
        }
        assert(chunks =~= init.push(chunks.last()));
    }
}

/// The first `n` pieces, one behind the other, are the beginning of the byte string.
proof fn lemma_concat_pieces(buf: Seq<u8>, size: nat, n: nat)
    requires
        size > 0,
        n <= piece_count(buf.len(), size),
    ensures
        concat_data(split(buf, size).take(n as int)) == (if n * size <= buf.len() {
            buf.take((n * size) as int)
        } else {
            buf
        }),
    decreases n,
{
    let chunks = split(buf, size);
    let s = size as int;
    if n == 0 {
        assert(chunks.take(0) =~= Seq::empty());
        assert(buf.take(0) =~= Seq::empty());
        assert(0 * s == 0);
    } else {
        let k = n - 1;
        lemma_piece_count(buf.len(), size);
        let count = piece_count(buf.len(), size);
        assert(k * s <= (count - 1) * s) by (nonlinear_arith)
            requires
                k <= count - 1,
                s > 0,
        ;
        assert(n * s == k * s + s) by (nonlinear_arith)
            requires
                k == n - 1,
        ;
        assert(0 <= k * s) by (nonlinear_arith)
            requires
                0 <= k,
                s > 0,
        ;
        lemma_concat_pieces(buf, size, k as nat);
        assert(chunks.take(n as int).drop_last() =~= chunks.take(k));
        assert(chunks.take(n as int).last() == chunks[k]);
        assert(chunks[k].data == piece(buf, size, k));
        if n * s <= buf.len() {
            assert(buf.take(k * s) + piece(buf, size, k) =~= buf.take(n * s));
        } else {
            assert(buf.take(k * s) + piece(buf, size, k) =~= buf);
        }
    }
}

/// What `split_bytes` cuts, `merge_chunks` puts together again, in whatever order the chunks
/// arrive, as long as their number fits in the 32 bits in which a chunk states it.
pub proof fn law_split_then_merge(buf: Seq<u8>, size: nat, arrived: Seq<ChunkView>)
    requires
        size > 0,
        piece_count(buf.len(), size) <= u32::MAX,
        arrived.to_multiset() == split(buf, size).to_multiset(),
    ensures
        mergeable(arrived),
        merged(arrived) == buf,
{
    let chunks = split(buf, size);
    assert(index_ordered(chunks));
    lemma_sort_ordered(chunks);
    assert(numbered(chunks));
    lemma_piece_count(buf.len(), size);
    lemma_concat_pieces(buf, size, chunks.len());
    assert(chunks.take(chunks.len() as int) =~= chunks);
    if chunks.len() * size <= buf.len() {
        assert(buf.take((chunks.len() * size) as int) =~= buf);
    }
    law_merge_ignores_order(chunks, arrived);
}

/// A damaged chunk is found: chunks belong together only if the digest that each of them carries is
/// that of its bytes.
pub proof fn law_merge_wants_intact_chunks(chunks: Seq<ChunkView>, i: int)
    requires
        mergeable(chunks),
        0 <= i < chunks.len(),
    ensures
        chunks[i].hash == sha256(chunks[i].data),
{
}

/// The bytes of chunks, one behind the other, are those that `flat_map` puts together.
pub proof fn lemma_concat_flat(chunks: Seq<ChunkView>)
    ensures
        concat_data(chunks) == chunks.flat_map(|c: ChunkView| c.data),
    decreases chunks.len(),
{
    let data = |c: ChunkView| c.data;
    if chunks.len() == 0 {
        assert(chunks.map_values(data).len() == 0);
        assert(chunks.flat_map(data) =~= Seq::empty());
    } else {
        lemma_concat_flat(chunks.drop_last());
        chunks.drop_last().lemma_flat_map_push(data, chunks.last());
        assert(chunks.drop_last().push(chunks.last()) =~= chunks);
    }
}

/// Whatever order chunks arrive in, where they are those with the numbers from zero on, they belong
/// together exactly if the first states how many there are and every digest is that of the bytes.
/// They then make up their bytes in the order of their numbers.
pub proof fn law_merge_goes_by_the_numbers(arrived: Seq<ChunkView>, ordered: Seq<ChunkView>)
    requires
        arrived.to_multiset() == ordered.to_multiset(),
        ordered.len() > 0,
        forall|i: int| 0 <= i < ordered.len() ==> (#[trigger] ordered[i]).index == i,
    ensures
        mergeable(arrived) <==> {
            &&& ordered[0].total == ordered.len()
            &&& forall|i: int|
                0 <= i < ordered.len() ==> (#[trigger] ordered[i]).hash == sha256(ordered[i].data)
        },
        mergeable(arrived) ==> merged(arrived) == ordered.flat_map(|c: ChunkView| c.data),
{
    assert(index_ordered(ordered));
    lemma_sort_ordered(ordered);
    assert(numbered(ordered));
    law_merge_ignores_order(arrived, ordered);
    lemma_concat_flat(ordered);
}

/// No chunks at all make up no bytes.
pub proof fn law_nothing_merges_to_nothing()
    ensures
        mergeable(Seq::empty()),
        merged(Seq::empty()).len() == 0,
{
}

/// The numbers and the count that chunks state, and the digests that they carry: each chunk of a byte
/// string has the number of its place, states how many there are, and carries the bytes from its
/// place on and the digest of these. Every chunk but the last is of the full size, and the last is
/// not empty.
pub proof fn law_split_states_places(buf: Seq<u8>, size: nat, i: int)
    requires
        size > 0,
        piece_count(buf.len(), size) <= u32::MAX,
        0 <= i < split(buf, size).len(),
    ensures
        ({
            let chunks = split(buf, size);
            let c = chunks[i];
            &&& c.index == i
            &&& c.total == chunks.len()
            &&& c.hash == sha256(c.data)
            &&& 0 < c.data.len() <= size
            &&& i < chunks.len() - 1 ==> c.data.len() == size
            &&& i * size + c.data.len() <= buf.len()
            &&& forall|k: int| 0 <= k < c.data.len() ==> #[trigger] c.data[k] == buf[i * size + k]
        }),
{
    let count = piece_count(buf.len(), size);
    let s = size as int;
    lemma_piece_count(buf.len(), size);
    assert((i + 1) * s == i * s + s) by (nonlinear_arith);
    assert(0 <= i * s <= (count - 1) * s) by (nonlinear_arith)
        requires
            0 <= i <= count - 1,
            s > 0,
    ;
    if i < count - 1 {
        assert((i + 1) * s <= (count - 1) * s) by (nonlinear_arith)
            requires
                i + 1 <= count - 1,
                s > 0,
        ;
    }
}

/// A byte string is cut into as few chunks as cover it: there are so many that they reach to its
/// end, and with one fewer they would not.
pub proof fn law_split_is_as_short_as_can_be(buf: Seq<u8>, size: nat)
    requires
        size > 0,
    ensures
        buf.len() <= split(buf, size).len() * size,
        split(buf, size).len() > 0 ==> (split(buf, size).len() - 1) * size < buf.len(),
{
    lemma_piece_count(buf.len(), size);
}

/// A count that 32 bits can hold is stated as it is, and a greater one without what is beyond them.
pub proof fn law_counts_are_stated_in_32_bits(n: int)
    requires
        n >= 0,
    ensures
        n <= u32::MAX ==> low32(n) == n,
        low32(n + 0x1_0000_0000) == low32(n),
{
}

}
