//! Content identifiers (CIDv1, SHA-256 multihash, base32) for chunks and DAG nodes.

use ::cid::Cid;
use multihash_codetable::{Code, MultihashDigest};
use vstd::arithmetic::power2::pow2;
use vstd::prelude::*;

use crate::content::chunker::sha256_digest;

verus! {

/// Multicodec code for raw bytes (used for file chunks).
pub const RAW: u64 = 0x55;

/// Multicodec code for a JSON structure (used for DAG nodes).
pub const DAG_JSON: u64 = 0x0129;

/// The unsigned LEB128 varint of `n`, as multiformats write numbers: seven
/// bits per byte, least significant first, the high bit set on all but the last.
pub open spec fn varint(n: nat) -> Seq<u8>
    decreases n,
{
    if n < 128 {
        seq![n as u8]
    } else {
        seq![(n % 128 + 128) as u8] + varint(n / 128)
    }
}

/// The bytes of the CIDv1 with multicodec `codec` whose multihash is the
/// SHA-256 multihash of `data`: the version 1, the codec, the SHA-256 code
/// 0x12, the digest size 0x20 and the digest, each number as a varint.
pub open spec fn cid_v1_sha256_bytes(codec: u64, data: Seq<u8>) -> Seq<u8> {
    seq![1u8] + varint(codec as nat) + seq![0x12u8, 0x20u8] + sha256_digest(data)
}

/// Bit `j` of `bytes`, the most significant bit of each byte first; 0 past the end.
pub open spec fn bit_at(bytes: Seq<u8>, j: int) -> nat {
    if 0 <= j < 8 * bytes.len() {
        ((bytes[j / 8] as nat) / pow2((7 - j % 8) as nat)) % 2
    } else {
        0
    }
}

/// The `i`-th group of five bits of `bytes`, as a number below 32.
pub open spec fn quintet(bytes: Seq<u8>, i: int) -> nat {
    16 * bit_at(bytes, 5 * i) + 8 * bit_at(bytes, 5 * i + 1) + 4 * bit_at(bytes, 5 * i + 2) + 2 * bit_at(
        bytes,
        5 * i + 3,
    ) + bit_at(bytes, 5 * i + 4)
}

/// The base32 letter (RFC 4648 alphabet, lower case) of `v < 32`: `a` to `z`, then `2` to `7`.
pub open spec fn base32_letter(v: nat) -> char {
    if v < 26 {
        (97 + v) as char
    } else {
        (24 + v) as char
    }
}

/// `bytes` in base32 (RFC 4648, lower case) without padding: one letter per
/// five bits, the last group filled up with zero bits.
pub open spec fn base32_lower(bytes: Seq<u8>) -> Seq<char> {
    Seq::new(((8 * bytes.len() + 4) / 5) as nat, |i: int| base32_letter(quintet(bytes, i)))
}

/// The text of the CIDv1 with multicodec `codec` whose multihash is the
/// SHA-256 multihash of `data`: `b`, the multibase prefix of base32 in lower
/// case, then the base32 of the CID's bytes.
pub open spec fn cid_v1_sha256_text(codec: u64, data: Seq<u8>) -> Seq<char> {
    seq!['b'] + base32_lower(cid_v1_sha256_bytes(codec, data))
}

/// Trusted: `Code::Sha2_256.digest` of multihash-codetable, `Cid::new_v1` of
/// cid and the `Display` of `Cid` (multibase base32 in lower case of the CID's
/// bytes). The contract claims that the text is `b` followed by the base32 of
/// version 1, the codec, the SHA-256 code and size, and the SHA-256 digest of
/// the bytes, and that its length is that of 35 bytes and the codec's varint
/// in base32, plus one (the digest being 32 bytes).
#[verifier::external_body]
fn cid_v1_sha256(codec: u64, data: &[u8]) -> (text: String)
    ensures
        text@ == cid_v1_sha256_text(codec, data@),
        text@.len() == 1 + (8 * (varint(codec as nat).len() + 35) + 4) / 5,
{
    Cid::new_v1(codec, Code::Sha2_256.digest(data)).to_string()
}

/// The first letters of a CID: `b`, then the letters of its first ten bits.
proof fn lemma_cid_head(codec: u64, data: Seq<u8>)
    ensures
        cid_v1_sha256_text(codec, data)[0] == 'b',
        cid_v1_sha256_text(codec, data).len() >= 3,
        cid_v1_sha256_text(codec, data)[1] == 'a',
        cid_v1_sha256_text(codec, data)[2] == base32_letter(
            4 * bit_at(cid_v1_sha256_bytes(codec, data), 7) + 2 * bit_at(cid_v1_sha256_bytes(codec, data), 8)
                + bit_at(cid_v1_sha256_bytes(codec, data), 9),
        ),
{
    let b = cid_v1_sha256_bytes(codec, data);
    vstd::arithmetic::power2::lemma2_to64();
    assert(b[0] == 1u8);
    assert(b.len() >= 4);
    assert(8 * b.len() + 4 >= 36);
    assert((8 * b.len() + 4) / 5 >= 7);
    assert forall|j: int| 0 <= j < 7 implies #[trigger] bit_at(b, j) == 0 by {
        assert(j / 8 == 0 && j % 8 == j);
        assert(pow2((7 - j) as nat) >= 2) by {
            vstd::arithmetic::power2::lemma_pow2_strictly_increases(0, (7 - j) as nat);
        }
        assert((b[0] as nat) / pow2((7 - j) as nat) == 0) by (nonlinear_arith)
            requires
                b[0] == 1u8,
                pow2((7 - j) as nat) >= 2,
        ;
    }
    assert(quintet(b, 0) == 0);
    assert(quintet(b, 1) == 4 * bit_at(b, 7) + 2 * bit_at(b, 8) + bit_at(b, 9));
}

/// A raw CID begins with `baf`, a DAG-JSON CID with `bag`: the CIDs of a chunk
/// and of a DAG node never coincide.
pub proof fn lemma_cid_prefixes(a: Seq<u8>, b: Seq<u8>)
    ensures
        cid_v1_sha256_text(RAW, a).take(3) == "baf"@,
        cid_v1_sha256_text(DAG_JSON, b).take(3) == "bag"@,
        cid_v1_sha256_text(RAW, a) != cid_v1_sha256_text(DAG_JSON, b),
{
    lemma_cid_head(RAW, a);
    lemma_cid_head(DAG_JSON, b);
    vstd::arithmetic::power2::lemma2_to64();
    let ra = cid_v1_sha256_bytes(RAW, a);
    let db = cid_v1_sha256_bytes(DAG_JSON, b);
    assert(varint(RAW as nat) == seq![0x55u8]);
    assert(varint(2) == seq![2u8]);
    assert(varint(DAG_JSON as nat) == seq![0xa9u8] + seq![2u8]);
    assert(ra[0] == 1u8 && ra[1] == 0x55u8);
    assert(db[0] == 1u8 && db[1] == 0xa9u8);
    assert(7int / 8 == 0 && 7int % 8 == 7 && 8int / 8 == 1 && 8int % 8 == 0 && 9int / 8 == 1 && 9int % 8 == 1);
    assert(pow2(0) == 1 && pow2(7) == 128 && pow2(6) == 64);
    assert(1nat / 1nat == 1 && 85nat / 128nat == 0 && 85nat / 64nat == 1);
    assert(169nat / 128nat == 1 && 169nat / 64nat == 2);
    assert(bit_at(ra, 7) == 1 && bit_at(ra, 8) == 0 && bit_at(ra, 9) == 1);
    assert(bit_at(db, 7) == 1 && bit_at(db, 8) == 1 && bit_at(db, 9) == 0);
    reveal_strlit("baf");
    reveal_strlit("bag");
    assert(cid_v1_sha256_text(RAW, a).take(3) =~= "baf"@);
    assert(cid_v1_sha256_text(DAG_JSON, b).take(3) =~= "bag"@);
}

/// Create a CID string for a raw chunk.
/// Takes the raw bytes of a chunk, hashes them, returns a CID string.
///
/// Example: "bafkreigdyrzt5sfp7udm7hu76uh7y26nf3efuylqabf3oclgtqy55fbzdi"
pub fn cid_from_bytes(data: &[u8]) -> (cid: String)
    ensures
        cid@ == cid_v1_sha256_text(RAW, data@),
        cid@.len() == 59,
        cid@.take(3) == "baf"@,
{
    proof {
        lemma_cid_prefixes(data@, data@);
        assert(varint(RAW as nat) == seq![0x55u8]);
    }
    cid_v1_sha256(RAW, data)
}

/// Create a CID string for a DAG node (JSON structure).
/// Takes the serialized JSON bytes of a DAG node, returns a CID string.
pub fn cid_from_dag_json(json_bytes: &[u8]) -> (cid: String)
    ensures
        cid@ == cid_v1_sha256_text(DAG_JSON, json_bytes@),
        cid@.len() == 61,
        cid@.take(3) == "bag"@,
{
    proof {
        lemma_cid_prefixes(json_bytes@, json_bytes@);
        assert(varint(2) == seq![2u8]);
        assert(varint(DAG_JSON as nat) == seq![0xa9u8] + seq![2u8]);
    }
    cid_v1_sha256(DAG_JSON, json_bytes)
}

} // verus!
