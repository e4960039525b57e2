//! Decoding of PDF text strings.
//!
//! A text string is UTF-16 when it starts with a byte-order mark and UTF-8
//! otherwise. The mark is looked for before anything else is decided.

use vstd::prelude::*;
use vstd::utf8::{decode_utf8, valid_utf8};
use crate::error::PdfLibError;

verus! {

/// The encoding that the leading bytes of a text string select.
#[derive(Debug, Clone, Copy, PartialEq, Eq, Structural)]
pub enum TextEncoding {
    Utf8,
    Utf16BigEndian,
    Utf16LittleEndian,
}

/// The encoding of `bytes`: UTF-16 where the first two bytes are a byte-order
/// mark, UTF-8 otherwise (also where fewer than two bytes are present).
pub open spec fn text_encoding(bytes: Seq<u8>) -> TextEncoding {
    if bytes.len() >= 2 && bytes[0] == 0xfe && bytes[1] == 0xff {
        TextEncoding::Utf16BigEndian
    } else if bytes.len() >= 2 && bytes[0] == 0xff && bytes[1] == 0xfe {
        TextEncoding::Utf16LittleEndian
    } else {
        TextEncoding::Utf8
    }
}

/// The 16-bit unit made of a high and a low byte.
pub open spec fn code_unit(high: u8, low: u8) -> u16 {
    (high as int * 256 + low as int) as u16
}

/// The code units that follow the byte-order mark of an even-length text
/// string, two bytes each.
pub open spec fn code_units(bytes: Seq<u8>, big_endian: bool) -> Seq<u16> {
    Seq::new(
        ((bytes.len() - 2) / 2) as nat,
        |i: int|
            if big_endian {
                code_unit(bytes[2 + 2 * i], bytes[3 + 2 * i])
            } else {
                code_unit(bytes[3 + 2 * i], bytes[2 + 2 * i])
            },
    )
}

/// `u` is the first half of a surrogate pair.
pub open spec fn is_high_surrogate(u: u16) -> bool {
    0xD800 <= u <= 0xDBFF
}

/// `u` is the second half of a surrogate pair.
pub open spec fn is_low_surrogate(u: u16) -> bool {
    0xDC00 <= u <= 0xDFFF
}

/// The scalar value that a surrogate pair encodes.
pub open spec fn surrogate_scalar(high: u16, low: u16) -> u32 {
    (0x10000 + (high - 0xD800) * 0x400 + (low - 0xDC00)) as u32
}

/// `units` is well-formed UTF-16: every surrogate is half of a pair, high
/// half first.
pub open spec fn valid_utf16(units: Seq<u16>) -> bool
    decreases units.len(),
{
    if units.len() == 0 {
        true
    } else if is_high_surrogate(units[0]) {
        units.len() >= 2 && is_low_surrogate(units[1]) && valid_utf16(units.skip(2))
    } else {
        !is_low_surrogate(units[0]) && valid_utf16(units.skip(1))
    }
}

/// The characters that well-formed UTF-16 encodes.
pub open spec fn decode_utf16(units: Seq<u16>) -> Seq<char>
    decreases units.len(),
{
    if units.len() == 0 {
        seq![]
    } else if is_high_surrogate(units[0]) {
        if units.len() >= 2 {
            seq![surrogate_scalar(units[0], units[1]) as char] + decode_utf16(units.skip(2))
        } else {
            seq![]
        }
    } else {
        seq![units[0] as char] + decode_utf16(units.skip(1))
    }
}

/// What a text string decodes to: its characters, or the error that tells a
/// UTF-8 failure from a UTF-16 failure. After a byte-order mark a trailing
/// single byte is no code unit, and is a UTF-16 failure.
pub open spec fn decode_text_string(bytes: Seq<u8>) -> Result<Seq<char>, PdfLibError> {
    match text_encoding(bytes) {
        TextEncoding::Utf8 => {
            if valid_utf8(bytes) {
                Ok(decode_utf8(bytes))
            } else {
                Err(PdfLibError::NDConvError)
            }
        },
        TextEncoding::Utf16BigEndian => {
            if bytes.len() % 2 == 0 && valid_utf16(code_units(bytes, true)) {
                Ok(decode_utf16(code_units(bytes, true)))
            } else {
                Err(PdfLibError::NDConvError16)
            }
        },
        TextEncoding::Utf16LittleEndian => {
            if bytes.len() % 2 == 0 && valid_utf16(code_units(bytes, false)) {
                Ok(decode_utf16(code_units(bytes, false)))
            } else {
                Err(PdfLibError::NDConvError16)
            }
        },
    }
}

/// `String::from_utf8` of std: the string whose UTF-8 encoding is `bytes`, or
/// nothing where `bytes` is not valid UTF-8.
#[verifier::external_body]
pub(crate) fn string_from_utf8(bytes: Vec<u8>) -> (r: Option<String>)
    ensures
        valid_utf8(bytes@) ==> r.is_some() && r.unwrap()@ == decode_utf8(bytes@),
        !valid_utf8(bytes@) ==> r.is_none(),
{
    String::from_utf8(bytes).ok()
}

/// `String::from_utf16` of std: the string that the code units encode, or
/// nothing where they hold a surrogate that is not half of a pair.
#[verifier::external_body]
fn string_from_utf16(units: &Vec<u16>) -> (r: Option<String>)
    ensures
        valid_utf16(units@) ==> r.is_some() && r.unwrap()@ == decode_utf16(units@),
        !valid_utf16(units@) ==> r.is_none(),
{
    String::from_utf16(units).ok()
}

/// Regroups the bytes after the byte-order mark into 16-bit code units.
fn regroup(s: &[u8], big_endian: bool) -> (units: Vec<u16>)
    requires
        s.len() >= 2,
        s.len() % 2 == 0,
    ensures
        units@ == code_units(s@, big_endian),
{
    let count: usize = (s.len() - 2) / 2;
    let mut units: Vec<u16> = Vec::new();
    let mut i: usize = 0;
    while i < count
        invariant
            count == (s.len() - 2) / 2,
            s.len() >= 2,
            i <= count,
            units.len() == i,
            forall|k: int| 0 <= k < i ==> units[k] == code_units(s@, big_endian)[k],
        decreases count - i,
    {
        let first: u8 = s[2 + 2 * i];
        let second: u8 = s[3 + 2 * i];
        let unit: u16 = if big_endian {
            (first as u16) * 256 + (second as u16)
        } else {
            (second as u16) * 256 + (first as u16)
        };
        units.push(unit);
        i += 1;
    }
    units
}

/// Decodes the bytes of a PDF text string.
///
/// A leading `FE FF` selects UTF-16 big-endian, a leading `FF FE` UTF-16
/// little-endian, and the bytes after the mark are taken two at a time as
/// code units. Anything else, a string shorter than two bytes included, is
/// read as UTF-8.
pub fn parse_text_string(s: &[u8]) -> (r: Result<String, PdfLibError>)
    ensures
        match decode_text_string(s@) {
            Ok(chars) => r.is_ok() && r.unwrap()@ == chars,
            Err(e) => r == Err::<String, PdfLibError>(e),
        },
{
    if s.len() >= 2 && s[0] == 0xfe && s[1] == 0xff {
        decode_units(s, true)
    } else if s.len() >= 2 && s[0] == 0xff && s[1] == 0xfe {
        decode_units(s, false)
    } else {
        match string_from_utf8(vstd::slice::slice_to_vec(s)) {
            Some(text) => Ok(text),
            None => Err(PdfLibError::NDConvError),
        }
    }
}

/// Decodes what follows a byte-order mark as UTF-16.
fn decode_units(s: &[u8], big_endian: bool) -> (r: Result<String, PdfLibError>)
    requires
        s.len() >= 2,
    ensures
        s.len() % 2 == 0 && valid_utf16(code_units(s@, big_endian)) ==> r.is_ok() && r.unwrap()@
            == decode_utf16(code_units(s@, big_endian)),
        !(s.len() % 2 == 0 && valid_utf16(code_units(s@, big_endian))) ==> r == Err::<
            String,
            PdfLibError,
        >(PdfLibError::NDConvError16),
{
    if s.len() % 2 != 0 {
        return Err(PdfLibError::NDConvError16);
    }
    let units = regroup(s, big_endian);
    match string_from_utf16(&units) {
        Some(text) => Ok(text),
        None => Err(PdfLibError::NDConvError16),
    }
}

/// A text string of fewer than two bytes has no byte-order mark: it is read
/// as UTF-8.
pub proof fn lemma_short_text_is_utf8(bytes: Seq<u8>)
    requires
        bytes.len() < 2,
    ensures
        text_encoding(bytes) == TextEncoding::Utf8,
        decode_text_string(bytes) == if valid_utf8(bytes) {
            Ok::<Seq<char>, PdfLibError>(decode_utf8(bytes))
        } else {
            Err::<Seq<char>, PdfLibError>(PdfLibError::NDConvError)
        },
{
}

/// A text string of ASCII bytes decodes to the characters that its bytes are.
pub proof fn lemma_ascii_text_is_unchanged(bytes: Seq<u8>)
    requires
        forall|i: int| 0 <= i < bytes.len() ==> bytes[i] < 128,
    ensures
        decode_text_string(bytes) == Ok::<Seq<char>, PdfLibError>(
            Seq::new(bytes.len(), |i: int| bytes[i] as char),
        ),
{
    let chars = Seq::new(bytes.len(), |i: int| bytes[i] as char);
    vstd::utf8::is_ascii_chars_encode_utf8(chars);
    assert(vstd::utf8::encode_utf8(chars) =~= bytes) by {
        assert forall|i: int| 0 <= i < bytes.len() implies vstd::utf8::encode_utf8(chars)[i]
            == bytes[i] by {
            assert(chars[i] as u8 == vstd::utf8::encode_utf8(chars)[i]);
        }
    }
    vstd::utf8::encode_utf8_valid_utf8(chars);
    vstd::utf8::encode_utf8_decode_utf8(chars);
    if bytes.len() >= 2 {
        assert(bytes[0] < 128 && bytes[1] < 128);
    }
}

/// Valid UTF-8 never starts with a byte-order mark: it is read as UTF-8 and
/// decodes to the characters it encodes.
pub proof fn lemma_utf8_has_no_mark(bytes: Seq<u8>)
    requires
        valid_utf8(bytes),
    ensures
        text_encoding(bytes) == TextEncoding::Utf8,
        decode_text_string(bytes) == Ok::<Seq<char>, PdfLibError>(decode_utf8(bytes)),
{
}

} // verus!
