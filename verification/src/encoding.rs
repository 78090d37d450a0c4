//! Percent-encoding of link targets and percent-decoding of request paths,
//! both done by the `percent_encoding` crate.

use vstd::prelude::*;
use vstd::utf8::{decode_utf8, encode_utf8, valid_utf8};

verus! {

/// An ASCII letter or digit: the only bytes that `NON_ALPHANUMERIC` leaves
/// unencoded.
pub open spec fn is_alphanumeric_byte(b: u8) -> bool {
    (48 <= b <= 57) || (65 <= b <= 90) || (97 <= b <= 122)
}

/// The upper-case hexadecimal digit for `d < 16`.
pub open spec fn hex_digit(d: int) -> char {
    if d < 10 {
        (d + 48) as char
    } else {
        (d + 55) as char
    }
}

/// How one byte is written: itself when it is an ASCII letter or digit,
/// otherwise `%` and two upper-case hexadecimal digits.
pub open spec fn percent_encoded_byte(b: u8) -> Seq<char> {
    if is_alphanumeric_byte(b) {
        seq![b as char]
    } else {
        seq!['%', hex_digit(b as int / 16), hex_digit(b as int % 16)]
    }
}

pub open spec fn percent_encoded_bytes(bytes: Seq<u8>) -> Seq<char>
    decreases bytes.len(),
{
    if bytes.len() == 0 {
        seq![]
    } else {
        percent_encoded_bytes(bytes.drop_last()) + percent_encoded_byte(bytes.last())
    }
}

/// `utf8_percent_encode(s, NON_ALPHANUMERIC)`: every byte of the UTF-8
/// encoding of `s` that is not an ASCII letter or digit becomes `%XX`.
pub open spec fn percent_encoded(s: Seq<char>) -> Seq<char> {
    percent_encoded_bytes(encode_utf8(s))
}

/// Calls `percent_encoding::utf8_percent_encode` with the set
/// `NON_ALPHANUMERIC` and renders the result. The contract states what the
/// crate documents and its source shows: each UTF-8 byte outside
/// `[A-Za-z0-9]` is written as `%` and two upper-case hex digits, every other
/// byte as itself.
#[verifier::external_body]
pub(crate) fn percent_encode_all(s: &str) -> (r: String)
    ensures
        r@ == percent_encoded(s@),
{
    percent_encoding::utf8_percent_encode(s, percent_encoding::NON_ALPHANUMERIC).to_string()
}

/// Name for what `percent_decode_str(s).decode_utf8_lossy()` returns: the
/// `%XX` sequences of `s` decoded to bytes, then read as UTF-8 with invalid
/// sequences replaced by U+FFFD.
pub uninterp spec fn percent_decoded_lossy(s: Seq<char>) -> Seq<char>;

/// The value of a hexadecimal digit byte (`char::to_digit(16)`).
pub open spec fn hex_value(b: u8) -> Option<u8> {
    if 48 <= b <= 57 {
        Some((b - 48) as u8)
    } else if 65 <= b <= 70 {
        Some((b - 55) as u8)
    } else if 97 <= b <= 102 {
        Some((b - 87) as u8)
    } else {
        None
    }
}

/// `percent_decode`: each `%` followed by two hexadecimal digits becomes
/// the byte they write; every other byte stays.
pub open spec fn percent_decoded_bytes(b: Seq<u8>) -> Seq<u8>
    decreases b.len(),
{
    if b.len() == 0 {
        seq![]
    } else if b[0] == 37 && b.len() >= 3 && hex_value(b[1]) is Some && hex_value(b[2]) is Some {
        seq![(hex_value(b[1])->0 * 16 + hex_value(b[2])->0) as u8] + percent_decoded_bytes(b.skip(3))
    } else {
        seq![b[0]] + percent_decoded_bytes(b.drop_first())
    }
}

/// Calls `percent_encoding::percent_decode_str` and `decode_utf8_lossy`.
/// The result is named. Stated besides, as the source shows: the `%XX`
/// sequences are decoded to bytes as `percent_decoded_bytes` says, and when
/// those bytes are valid UTF-8 the text is read from them unchanged; text
/// without `%` passes through unchanged.
#[verifier::external_body]
pub(crate) fn percent_decode_lossy(s: &str) -> (r: String)
    ensures
        r@ == percent_decoded_lossy(s@),
        !s@.contains('%') ==> r@ == s@,
        valid_utf8(percent_decoded_bytes(encode_utf8(s@)))
            ==> r@ == decode_utf8(percent_decoded_bytes(encode_utf8(s@))),
{
    percent_encoding::percent_decode_str(s).decode_utf8_lossy().into_owned()
}

/// A character that may appear in percent-encoded text.
pub open spec fn is_encoded_char(c: char) -> bool {
    c == '%' || ('0' <= c <= '9') || ('A' <= c <= 'Z') || ('a' <= c <= 'z')
}

/// Percent-encoded text holds only ASCII letters, digits and `%`: in
/// particular no quote, angle bracket, slash or space.
pub proof fn lemma_percent_encoded_charset(bytes: Seq<u8>)
    ensures
        forall|i: int| 0 <= i < percent_encoded_bytes(bytes).len()
            ==> is_encoded_char(#[trigger] percent_encoded_bytes(bytes)[i]),
    decreases bytes.len(),
{
    if bytes.len() > 0 {
        lemma_percent_encoded_charset(bytes.drop_last());
        let a = percent_encoded_bytes(bytes.drop_last());
        let b = percent_encoded_byte(bytes.last());
        let t = percent_encoded_bytes(bytes);
        assert(t == a + b);
        let x = bytes.last();
        assert(0 <= x as int / 16 < 16);
        assert(0 <= x as int % 16 < 16);
        assert forall|i: int| 0 <= i < t.len() implies is_encoded_char(#[trigger] t[i]) by {
            if i < a.len() {
                assert(t[i] == a[i]);
            } else {
                assert(t[i] == b[i - a.len()]);
            }
        }
    }
}

} // verus!
