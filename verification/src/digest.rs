//! Content hashes: SHA-256 digests written as lowercase hex.

use vstd::prelude::*;

verus! {

/// The SHA-256 digest of a byte sequence.
pub uninterp spec fn sha256_of(data: Seq<u8>) -> Seq<u8>;

/// The lowercase hex digit for a value below 16.
pub open spec fn hex_digit(v: int) -> char {
    if v < 10 {
        (48 + v) as char
    } else {
        (87 + v) as char
    }
}

/// Each byte written as two lowercase hex digits, high nibble first.
pub open spec fn hex_lower(data: Seq<u8>) -> Seq<char>
    decreases data.len(),
{
    if data.len() == 0 {
        seq![]
    } else {
        hex_lower(data.drop_last()) + seq![
            hex_digit(data.last() as int / 16),
            hex_digit(data.last() as int % 16),
        ]
    }
}

/// A character that `hex_lower` can produce.
pub open spec fn is_lower_hex_char(c: char) -> bool {
    ('0' <= c <= '9') || ('a' <= c <= 'f')
}

/// The hex form of `n` bytes has `2 n` characters, each a lowercase hex digit.
pub proof fn lemma_hex_lower_shape(data: Seq<u8>)
    ensures
        hex_lower(data).len() == 2 * data.len(),
        forall|i: int| 0 <= i < hex_lower(data).len() ==> is_lower_hex_char(#[trigger] hex_lower(data)[i]),
    decreases data.len(),
{
    if data.len() > 0 {
        lemma_hex_lower_shape(data.drop_last());
        let h = hex_lower(data.drop_last());
        let hi = data.last() as int / 16;
        let lo = data.last() as int % 16;
        assert(0 <= hi < 16 && 0 <= lo < 16);
        assert(is_lower_hex_char(hex_digit(hi)));
        assert(is_lower_hex_char(hex_digit(lo)));
        assert forall|i: int| 0 <= i < hex_lower(data).len() implies is_lower_hex_char(#[trigger] hex_lower(data)[i]) by {
            if i < h.len() {
                assert(hex_lower(data)[i] == h[i]);
            }
        }
    }
}

/// SHA-256 of `data`.
///
/// Calls `sha2::Sha256::digest` (the `Digest` trait of the `digest` crate):
/// the result is the 32-byte digest of the input, and the same input always
/// gives the same digest.
#[verifier::external_body]
fn sha256(data: &[u8]) -> (r: Vec<u8>)
    ensures
        r@ == sha256_of(data@),
        r@.len() == 32,
{
    <sha2::Sha256 as sha2::Digest>::digest(data).to_vec()
}

/// Lowercase hex encoding of `data`.
///
/// Calls `hex::encode`, which writes each byte as two characters from
/// `0123456789abcdef`, high nibble first.
#[verifier::external_body]
fn hex_encode(data: &[u8]) -> (r: String)
    ensures
        r@ == hex_lower(data@),
{
    hex::encode(data)
}

/// The hex form of the first `n` bytes of the SHA-256 digest of `data`.
pub open spec fn short_hash(data: Seq<u8>, n: nat) -> Seq<char> {
    hex_lower(sha256_of(data).take(n as int))
}

/// `2 n` lowercase hex characters: the form of an `n`-byte hash.
pub open spec fn is_hex_hash(s: Seq<char>, n: nat) -> bool {
    &&& s.len() == 2 * n
    &&& forall|i: int| 0 <= i < s.len() ==> is_lower_hex_char(#[trigger] s[i])
}

/// The hex form of the first `n` bytes of the SHA-256 digest of `data`:
/// `2 n` lowercase hex characters.
pub fn hash_prefix_hex(data: &[u8], n: usize) -> (r: String)
    requires
        n <= 32,
    ensures
        r@ == short_hash(data@, n as nat),
        is_hex_hash(r@, n as nat),
{
    let digest = sha256(data);
    let head = vstd::slice::slice_subrange(digest.as_slice(), 0, n);
    assert(head@ =~= sha256_of(data@).take(n as int));
    proof {
        lemma_hex_lower_shape(head@);
    }
    hex_encode(head)
}

} // verus!
