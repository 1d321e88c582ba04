//! Hexadecimal text through the `hex` crate.

use vstd::prelude::*;
use vstd::string::StringSliceAdditionalSpecFns;

verus! {

#[verifier::external_type_specification]
#[verifier::external_body]
pub struct ExFromHexError(hex::FromHexError);

/// The value of a hexadecimal digit, either case.
pub open spec fn hex_digit(c: u8) -> Option<u8> {
    if 48 <= c <= 57 {
        Some((c - 48) as u8)
    } else if 97 <= c <= 102 {
        Some((c - 87) as u8)
    } else if 65 <= c <= 70 {
        Some((c - 55) as u8)
    } else {
        None
    }
}

/// Text of even length made of hexadecimal digits.
pub open spec fn is_hex(s: Seq<u8>) -> bool {
    &&& s.len() % 2 == 0
    &&& forall|i: int| 0 <= i < s.len() ==> #[trigger] hex_digit(s[i]) is Some
}

/// The bytes that hexadecimal text denotes, two digits a byte, high digit first.
pub open spec fn hex_value(s: Seq<u8>) -> Seq<u8> {
    Seq::new(
        s.len() / 2,
        |i: int| (hex_digit(s[2 * i]).unwrap() * 16 + hex_digit(s[2 * i + 1]).unwrap()) as u8,
    )
}

/// The lowercase hexadecimal digit of a value below 16.
pub open spec fn hex_char(d: u8) -> char {
    if d < 10 {
        (48 + d) as char
    } else {
        (87 + d) as char
    }
}

/// Lowercase hexadecimal text of bytes, high digit first.
pub open spec fn hex_text(data: Seq<u8>) -> Seq<char> {
    Seq::new(
        2 * data.len(),
        |i: int|
            if i % 2 == 0 {
                hex_char(data[i / 2] / 16)
            } else {
                hex_char(data[i / 2] % 16)
            },
    )
}

/// Calls `hex::decode`.
///
/// Trusted: it succeeds exactly on text of even length made of hexadecimal
/// digits of either case, and gives the bytes `hex_value` describes (the
/// crate's `FromHex for Vec<u8>` checks the length, then decodes each pair).
#[verifier::external_body]
pub(crate) fn hex_decode(s: &str) -> (r: Result<Vec<u8>, hex::FromHexError>)
    ensures
        r is Ok <==> is_hex(s.spec_bytes()),
        r matches Ok(v) ==> v@ == hex_value(s.spec_bytes()),
{
    hex::decode(s)
}

/// Calls `hex::decode_to_slice` into a 32-byte array.
///
/// Trusted: it succeeds exactly on 64 hexadecimal digits of either case, and
/// gives the bytes `hex_value` describes (the crate checks an even length,
/// then twice the output length, then each digit).
#[verifier::external_body]
pub(crate) fn hex_decode_32(s: &str) -> (r: Result<[u8; 32], hex::FromHexError>)
    ensures
        r is Ok <==> (is_hex(s.spec_bytes()) && s.spec_bytes().len() == 64),
        r matches Ok(a) ==> a@ == hex_value(s.spec_bytes()),
{
    let mut out = [0u8; 32];
    hex::decode_to_slice(s, &mut out).map(|_| out)
}

/// Calls `hex::encode`.
///
/// Trusted: the text is the lowercase digits of each byte, high digit first
/// (the crate's `encode` uses the table `0123456789abcdef`).
#[verifier::external_body]
pub(crate) fn hex_encode(data: &[u8]) -> (s: String)
    ensures
        s@ == hex_text(data@),
{
    hex::encode(data)
}

} // verus!
