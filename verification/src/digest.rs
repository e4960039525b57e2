//! The checksum of a document: the SHA-256 digest of its serialized bytes,
//! written as lower-case hexadecimal digits.

use vstd::prelude::*;
use vstd::utf8::encode_utf8;
use crate::text::string_from_utf8;

verus! {

/// The SHA-256 digest of `data`.
pub uninterp spec fn sha256(data: Seq<u8>) -> Seq<u8>;

/// `Digest::digest` of the sha2 crate for `Sha256`: the digest of `data`,
/// which depends on `data` alone and has 32 bytes.
#[verifier::external_body]
fn sha256_digest(data: &[u8]) -> (digest: Vec<u8>)
    ensures
        digest@ == sha256(data@),
        digest@.len() == 32,
{
    <sha2::Sha256 as sha2::Digest>::digest(data).to_vec()
}

/// The lower-case hexadecimal digit of a value below 16.
pub open spec fn hex_digit(value: u8) -> char {
    if value < 10 {
        ('0' as u8 + value) as char
    } else {
        ('a' as u8 + (value - 10)) as char
    }
}

/// The lower-case hexadecimal digits of `bytes`: two for each byte, the
/// high half first.
pub open spec fn hex_lower(bytes: Seq<u8>) -> Seq<char> {
    Seq::new(
        2 * bytes.len(),
        |i: int|
            if i % 2 == 0 {
                hex_digit(bytes[i / 2] / 16)
            } else {
                hex_digit(bytes[i / 2] % 16)
            },
    )
}

/// The checksum of a document with the serialized bytes `serialized`.
pub open spec fn checksum_text(serialized: Seq<u8>) -> Seq<char> {
    hex_lower(sha256(serialized))
}

/// The ASCII code of the lower-case hexadecimal digit of a value below 16.
fn hex_code(value: u8) -> (code: u8)
    requires
        value < 16,
    ensures
        code < 128,
        code as char == hex_digit(value),
{
    if value < 10 {
        '0' as u8 + value
    } else {
        'a' as u8 + (value - 10)
    }
}

/// Writes `bytes` as lower-case hexadecimal digits.
pub fn to_hex_lower(bytes: &[u8]) -> (text: String)
    ensures
        text@ == hex_lower(bytes@),
{
    let ghost digits = hex_lower(bytes@);
    let mut codes: Vec<u8> = Vec::new();
    let mut i: usize = 0;
    while i < bytes.len()
        invariant
            i <= bytes.len(),
            digits == hex_lower(bytes@),
            codes@.len() == 2 * i,
            forall|k: int|
                0 <= k < 2 * i ==> (#[trigger] codes@[k]) < 128 && codes@[k] as char == digits[k],
        decreases bytes.len() - i,
    {
        let byte: u8 = bytes[i];
        assert(digits[2 * i] == hex_digit(byte / 16) && digits[2 * i + 1] == hex_digit(byte % 16));
        let ghost before = codes@;
        codes.push(hex_code(byte / 16));
        codes.push(hex_code(byte % 16));
        assert forall|k: int| 0 <= k < 2 * i + 2 implies (#[trigger] codes@[k]) < 128 && codes@[k]
            as char == digits[k] by {
            if k < 2 * i {
                assert(codes@[k] == before[k]);
            }
        }
        i += 1;
    }
    proof {
        assert forall|k: int| 0 <= k < digits.len() implies '\0' <= #[trigger] digits[k]
            <= '\u{7f}' by {
            assert(codes@[k] as char == digits[k]);
        }
        vstd::utf8::is_ascii_chars_encode_utf8(digits);
        assert forall|k: int| 0 <= k < digits.len() implies encode_utf8(digits)[k]
            == codes@[k] by {
            assert(codes@[k] as char == digits[k]);
        }
        assert(encode_utf8(digits) =~= codes@);
        vstd::utf8::encode_utf8_valid_utf8(digits);
        vstd::utf8::encode_utf8_decode_utf8(digits);
    }
    match string_from_utf8(codes) {
        Some(text) => text,
        None => vstd::pervasive::unreached(),
    }
}

/// The checksum of a document with the serialized bytes `serialized`: their
/// SHA-256 digest in lower-case hexadecimal digits.
pub fn checksum(serialized: &[u8]) -> (text: String)
    ensures
        text@ == checksum_text(serialized@),
        text@.len() == 64,
{
    let digest = sha256_digest(serialized);
    to_hex_lower(digest.as_slice())
}

/// The checksum depends on the serialized bytes alone: a document that
/// serializes to the same bytes has the same checksum.
pub proof fn lemma_checksum_deterministic(first: Seq<u8>, second: Seq<u8>)
    requires
        first == second,
    ensures
        checksum_text(first) == checksum_text(second),
{
}

} // verus!
