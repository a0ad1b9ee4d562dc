//! Splitting bytes into fixed-size chunks, each named by its SHA-256 hash.

use sha2::{Digest, Sha256};
use vstd::prelude::*;

use crate::text::{hex_digit, hex_digit_char, push_char};

verus! {

/// 256 KB chunk size
pub const CHUNK_SIZE: usize = 262144;

/// What SHA-256 gives for `data`.
pub uninterp spec fn sha256_digest(data: Seq<u8>) -> Seq<u8>;

/// SHA-256 hash some bytes. Returns 32 bytes.
///
/// Trusted: `sha2::Sha256` (`new`, `update`, `finalize`). The contract claims
/// that the result is the SHA-256 digest of the input, a function of the input
/// alone, and that it is 32 bytes long (the output size of `Sha256`).
#[verifier::external_body]
pub fn sha256_hash(data: &[u8]) -> (hash: Vec<u8>)
    ensures
        hash@ == sha256_digest(data@),
        hash@.len() == 32,
{
    let mut hasher = Sha256::new();
    hasher.update(data);
    hasher.finalize().to_vec()
}

/// Lower-case hexadecimal text of `bytes`: two digits per byte, high nibble first.
pub open spec fn hex_lower(bytes: Seq<u8>) -> Seq<char> {
    Seq::new(
        2 * bytes.len(),
        |i: int|
            if i % 2 == 0 {
                hex_digit((bytes[i / 2] / 16) as int)
            } else {
                hex_digit((bytes[i / 2] % 16) as int)
            },
    )
}

/// Turn bytes into a hex string.
pub fn hex_encode(bytes: &[u8]) -> (s: String)
    ensures
        s@ == hex_lower(bytes@),
{
    let mut s = String::new();
    let n = bytes.len();
    for i in 0..n
        invariant
            n == bytes@.len(),
            s@ =~= hex_lower(bytes@.take(i as int)),
    {
        let b = bytes[i];
        push_char(&mut s, hex_digit_char(b / 16));
        push_char(&mut s, hex_digit_char(b % 16));
        assert(s@ =~= hex_lower(bytes@.take(i + 1)));
    }
    assert(bytes@.take(n as int) =~= bytes@);
    s
}


/// A piece of a file, identified by its SHA-256 hash.
pub struct Chunk {
    /// raw 32-byte SHA-256 hash
    pub hash: Vec<u8>,
    /// hex-encoded hash (for filenames, display)
    pub hash_hex: String,
    /// raw bytes of this chunk
    pub data: Vec<u8>,
    pub size: usize,
}

/// Number of pieces that `len` bytes are split into: one piece for no bytes,
/// otherwise one per started `CHUNK_SIZE` bytes.
pub open spec fn piece_count(len: nat) -> nat {
    if len == 0 {
        1
    } else {
        ((len + CHUNK_SIZE - 1) / (CHUNK_SIZE as int)) as nat
    }
}

/// The `k`-th piece of `data`: bytes `k * CHUNK_SIZE` up to the next boundary or the end.
pub open spec fn piece(data: Seq<u8>, k: int) -> Seq<u8> {
    let start = k * CHUNK_SIZE;
    let end = if (k + 1) * CHUNK_SIZE < data.len() {
        (k + 1) * CHUNK_SIZE
    } else {
        data.len() as int
    };
    data.subrange(start, end)
}

/// The pieces that `data` is split into, in order.
pub open spec fn pieces(data: Seq<u8>) -> Seq<Seq<u8>> {
    Seq::new(piece_count(data.len()), |k: int| piece(data, k))
}

/// `c` is the chunk made of the bytes `bytes`.
pub open spec fn chunk_of(c: Chunk, bytes: Seq<u8>) -> bool {
    &&& c.data@ == bytes
    &&& c.size == bytes.len()
    &&& c.hash@ == sha256_digest(bytes)
    &&& c.hash@.len() == 32
    &&& c.hash_hex@ == hex_lower(c.hash@)
}

proof fn lemma_piece_bounds(len: nat, k: int)
    requires
        len > 0,
        0 <= k < piece_count(len),
    ensures
        k * CHUNK_SIZE < len,
{
    assert(k * CHUNK_SIZE < len) by (nonlinear_arith)
        requires
            len > 0,
            0 <= k,
            k < (len + CHUNK_SIZE - 1) / (CHUNK_SIZE as int),
            CHUNK_SIZE == 262144,
    ;
}

/// End of the first `k` pieces of a `len`-byte input.
spec fn boundary(len: nat, k: int) -> int {
    if k * CHUNK_SIZE < len {
        k * CHUNK_SIZE
    } else {
        len as int
    }
}

proof fn lemma_pieces_prefix(data: Seq<u8>, k: int)
    requires
        0 <= k <= pieces(data).len(),
    ensures
        pieces(data).take(k).flatten() =~= data.take(boundary(data.len(), k)),
    decreases k,
{
    let ps = pieces(data);
    if k == 0 {
        assert(ps.take(0) =~= Seq::<Seq<u8>>::empty());
    } else {
        lemma_pieces_prefix(data, k - 1);
        assert(ps.take(k) =~= ps.take(k - 1).push(ps[k - 1]));
        ps.take(k - 1).lemma_flatten_push(ps[k - 1]);
        if data.len() > 0 {
            lemma_piece_bounds(data.len(), k - 1);
        }
        assert(k * CHUNK_SIZE == (k - 1) * CHUNK_SIZE + CHUNK_SIZE) by (nonlinear_arith);
        assert(data.take(boundary(data.len(), k - 1)) + ps[k - 1] =~= data.take(
            boundary(data.len(), k),
        ));
    }
}

/// Chunking loses nothing: the pieces of `data`, concatenated in order, are `data`.
pub proof fn lemma_pieces_reassemble(data: Seq<u8>)
    ensures
        pieces(data).flatten() == data,
{
    let n = pieces(data).len() as int;
    lemma_pieces_prefix(data, n);
    assert(pieces(data).take(n) =~= pieces(data));
    if data.len() > 0 {
        assert(n * CHUNK_SIZE >= data.len()) by (nonlinear_arith)
            requires
                data.len() > 0,
                n == (data.len() + CHUNK_SIZE - 1) / (CHUNK_SIZE as int),
                CHUNK_SIZE == 262144,
        ;
    }
    assert(data.take(boundary(data.len(), n)) =~= data);
}

/// Every piece but the last holds exactly `CHUNK_SIZE` bytes; the last holds
/// between one and `CHUNK_SIZE` bytes, or none when `data` is empty.
pub proof fn lemma_piece_sizes(data: Seq<u8>)
    ensures
        pieces(data).len() >= 1,
        forall|k: int| 0 <= k < pieces(data).len() - 1 ==> #[trigger] pieces(data)[k].len() == CHUNK_SIZE,
        data.len() == 0 ==> pieces(data).len() == 1 && pieces(data)[0].len() == 0,
        data.len() > 0 ==> 0 < pieces(data).last().len() <= CHUNK_SIZE,
{
    let n = pieces(data).len() as int;
    assert forall|k: int| 0 <= k < n - 1 implies #[trigger] pieces(data)[k].len() == CHUNK_SIZE by {
        lemma_piece_bounds(data.len(), k + 1);
        assert((k + 1) * CHUNK_SIZE == k * CHUNK_SIZE + CHUNK_SIZE) by (nonlinear_arith);
    }
    if data.len() > 0 {
        assert(n >= 1) by (nonlinear_arith)
            requires
                data.len() > 0,
                n == (data.len() + CHUNK_SIZE - 1) / (CHUNK_SIZE as int),
                CHUNK_SIZE == 262144,
        ;
        lemma_piece_bounds(data.len(), n - 1);
        assert(n * CHUNK_SIZE >= data.len()) by (nonlinear_arith)
            requires
                data.len() > 0,
                n == (data.len() + CHUNK_SIZE - 1) / (CHUNK_SIZE as int),
                CHUNK_SIZE == 262144,
        ;
        assert(n * CHUNK_SIZE == (n - 1) * CHUNK_SIZE + CHUNK_SIZE) by (nonlinear_arith);
    }
}

fn make_chunk(bytes: &[u8]) -> (c: Chunk)
    ensures
        chunk_of(c, bytes@),
{
    let hash = sha256_hash(bytes);
    let hash_hex = hex_encode(hash.as_slice());
    Chunk { hash, hash_hex, data: vstd::slice::slice_to_vec(bytes), size: bytes.len() }
}

/// Split raw bytes into 256KB chunks with SHA-256 hashes.
///
/// No bytes give one empty chunk; otherwise every chunk but the last holds
/// exactly `CHUNK_SIZE` bytes and the last holds the rest.
pub fn chunk_bytes(data: &[u8]) -> (chunks: Vec<Chunk>)
    ensures
        chunks@.len() == pieces(data@).len(),
        forall|k: int| 0 <= k < chunks@.len() ==> chunk_of(#[trigger] chunks@[k], pieces(data@)[k]),
{
    let mut chunks: Vec<Chunk> = Vec::new();
    let len = data.len();
    if len == 0 {
        chunks.push(make_chunk(data));
        assert(pieces(data@)[0] =~= data@);
        return chunks;
    }
    let mut start: usize = 0;
    let ghost mut k: int = 0;
    while start < len
        invariant
            len == data@.len(),
            len > 0,
            start <= len,
            start < len ==> start == k * CHUNK_SIZE,
            0 <= k,
            k <= piece_count(len as nat),
            start < len ==> k < piece_count(len as nat),
            start >= len ==> k == piece_count(len as nat),
            chunks@.len() == k,
            forall|j: int| 0 <= j < k ==> chunk_of(#[trigger] chunks@[j], piece(data@, j)),
        decreases len - start,
    {
        let end = if len - start > CHUNK_SIZE { start + CHUNK_SIZE } else { len };
        let bytes = vstd::slice::slice_subrange(data, start, end);
        let c = make_chunk(bytes);
        assert(bytes@ =~= piece(data@, k));
        chunks.push(c);
        proof {
            let n = piece_count(len as nat) as int;
            assert((k + 1) * CHUNK_SIZE == k * CHUNK_SIZE + CHUNK_SIZE) by (nonlinear_arith);
            if end < len {
                assert(k + 1 < n) by (nonlinear_arith)
                    requires
                        (k + 1) * CHUNK_SIZE < len,
                        n == (len + CHUNK_SIZE - 1) / (CHUNK_SIZE as int),
                        CHUNK_SIZE == 262144,
                ;
            } else {
                assert(k + 1 >= n) by (nonlinear_arith)
                    requires
                        (k + 1) * CHUNK_SIZE >= len,
                        n == (len + CHUNK_SIZE - 1) / (CHUNK_SIZE as int),
                        CHUNK_SIZE == 262144,
                ;
            }
            k = k + 1;
        }
        start = end;
    }
    chunks
}

} // verus!
