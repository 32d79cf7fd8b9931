//! Hashing and hexadecimal decoding through the `blake3` and `hex` crates.
use crate::json::hex_digit_char;
use vstd::prelude::*;

verus! {

/// The 32-byte BLAKE3 digest of a byte string.
pub uninterp spec fn blake3_digest(input: Seq<u8>) -> Seq<u8>;

/// Two lowercase hexadecimal digits per byte, high nibble first.
pub open spec fn lower_hex(bytes: Seq<u8>) -> Seq<char>
    decreases bytes.len(),
{
    if bytes.len() == 0 {
        Seq::empty()
    } else {
        lower_hex(bytes.drop_last()) + seq![
            hex_digit_char((bytes.last() / 16) as nat),
            hex_digit_char((bytes.last() % 16) as nat),
        ]
    }
}

/// The lowercase hexadecimal BLAKE3 digest of a byte string.
///
/// Trusted: `blake3::hash` computes the digest, whose bytes are a function
/// of the input alone, and `Hash::to_hex` writes each byte as two lowercase
/// hexadecimal digits, high nibble first (64 characters in all).
#[verifier::external_body]
pub(crate) fn blake3_hex(input: &[u8]) -> (r: String)
    ensures
        r@ == lower_hex(blake3_digest(input@)),
        r@.len() == 64,
{
    blake3::hash(input).to_hex().to_string()
}

/// Whether a character is a hexadecimal digit of either case.
pub open spec fn is_hex_digit(c: char) -> bool {
    ('0' <= c && c <= '9') || ('a' <= c && c <= 'f') || ('A' <= c && c <= 'F')
}

/// The value of a hexadecimal digit.
pub open spec fn hex_value(c: char) -> int {
    if '0' <= c && c <= '9' {
        (c as int) - ('0' as int)
    } else if 'a' <= c && c <= 'f' {
        (c as int) - ('a' as int) + 10
    } else {
        (c as int) - ('A' as int) + 10
    }
}

/// Whether a text is an even number of hexadecimal digits.
pub open spec fn is_hex(s: Seq<char>) -> bool {
    s.len() % 2 == 0 && forall|i: int| 0 <= i < s.len() ==> is_hex_digit(#[trigger] s[i])
}

/// The bytes that a hexadecimal text denotes, two digits per byte.
pub open spec fn hex_bytes(s: Seq<char>) -> Seq<u8> {
    Seq::new((s.len() / 2) as nat, |i: int| (hex_value(s[2 * i]) * 16 + hex_value(s[2 * i + 1])) as u8)
}

/// Decodes hexadecimal text.
///
/// Trusted: `hex::decode` succeeds exactly when the text has an even length
/// and every character is a hexadecimal digit of either case, and then
/// returns one byte per pair of digits, the first digit being the high
/// nibble.
#[verifier::external_body]
pub(crate) fn hex_decode(s: &str) -> (r: Option<Vec<u8>>)
    ensures
        r is Some <==> is_hex(s@),
        r matches Some(b) ==> b@ == hex_bytes(s@),
{
    hex::decode(s).ok()
}

} // verus!
