//! Base64 payload handling and reinterpretation of decoded audio bytes as
//! 32-bit little-endian sample words.

use vstd::prelude::*;

verus! {

use crate::wav::read_u32_le;

/// The base64 encoding (standard alphabet, with padding) of a byte sequence.
pub uninterp spec fn b64_encode_of(b: Seq<u8>) -> Seq<char>;

/// The bytes a base64 payload decodes to under the standard padded
/// alphabet: the decoded bytes for a valid payload, the empty sequence for
/// an invalid one.
pub uninterp spec fn b64_decode_of(s: Seq<char>) -> Seq<u8>;

/// Relies on base64's `Engine::encode` with the standard padded engine: the
/// result is a function of the input bytes alone, four output characters
/// for every three input bytes, rounded up by padding; decoding with the
/// same engine gives the bytes back, as the crate documents.
#[verifier::external_body]
pub fn b64_encode(b: &[u8]) -> (r: String)
    ensures
        r@ == b64_encode_of(b@),
        r@.len() == 4 * ((b@.len() + 2) / 3),
        b64_decode_of(r@) == b@,
{
    base64::Engine::encode(&base64::engine::general_purpose::STANDARD, b)
}

/// Relies on base64's `Engine::decode` with the standard padded engine: the
/// result is a function of the payload alone; an invalid payload is mapped
/// to the empty byte sequence, and an empty payload decodes to one.
#[verifier::external_body]
pub fn b64_decode_or_empty(s: &str) -> (r: Vec<u8>)
    ensures
        r@ == b64_decode_of(s@),
        s@.len() == 0 ==> r@.len() == 0,
{
    base64::Engine::decode(&base64::engine::general_purpose::STANDARD, s).unwrap_or_default()
}

/// The 32-bit little-endian words packed in a byte sequence; trailing bytes
/// short of a full word are discarded.
pub open spec fn le_words_of(b: Seq<u8>) -> Seq<u32> {
    Seq::new((b.len() / 4) as nat, |k: int| read_u32_le(b, 4 * k))
}

/// Reinterpret decoded audio bytes as consecutive 4-byte little-endian
/// sample words: a payload of `4k + r` bytes (`0 <= r < 4`) yields exactly
/// `k` words, discarding the remainder.
pub fn samples_from_bytes(b: &Vec<u8>) -> (r: Vec<u32>)
    ensures
        r@ == le_words_of(b@),
        r@.len() == b@.len() / 4,
{
    let n = b.len() / 4;
    let mut out: Vec<u32> = Vec::new();
    let mut k: usize = 0;
    while k < n
        invariant
            n == b@.len() / 4,
            b@.len() <= usize::MAX,
            k <= n,
            out@.len() == k,
            forall|j: int| 0 <= j < k ==> out@[j] == read_u32_le(b@, 4 * j),
        decreases n - k,
    {
        proof {
            vstd::arithmetic::div_mod::lemma_fundamental_div_mod(b@.len() as int, 4);
            vstd::arithmetic::div_mod::lemma_mod_division_less_than_divisor(b@.len() as int, 4);
            assert(4 * k + 4 <= 4 * n);
        }
        let w = (b[4 * k] as u32) | ((b[4 * k + 1] as u32) << 8) | ((b[4 * k + 2] as u32) << 16) | (
        (b[4 * k + 3] as u32) << 24);
        out.push(w);
        k = k + 1;
    }
    proof {
        assert(out@ =~= le_words_of(b@));
    }
    out
}

} // verus!
