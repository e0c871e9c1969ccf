//! Hex-string decoding for externally supplied IV and nonce values.
use vstd::prelude::*;

use crate::Reason;

verus! {

/// True of a character that is a hexadecimal digit, either case.
pub open spec fn is_hex_digit(c: char) -> bool {
    ('0' <= c && c <= '9') || ('a' <= c && c <= 'f') || ('A' <= c && c <= 'F')
}

/// The value of one hexadecimal digit.
pub open spec fn hex_val(c: char) -> u8 {
    if '0' <= c && c <= '9' {
        (c as int - '0' as int) as u8
    } else if 'a' <= c && c <= 'f' {
        (c as int - 'a' as int + 10) as u8
    } else {
        (c as int - 'A' as int + 10) as u8
    }
}

/// True of a string that decodes as hex: an even number of characters,
/// all of them hex digits.
pub open spec fn is_valid_hex(s: Seq<char>) -> bool {
    s.len() % 2 == 0 && forall|i: int| 0 <= i < s.len() ==> is_hex_digit(#[trigger] s[i])
}

/// The bytes a valid hex string decodes to: one byte per character pair,
/// high digit first.
pub open spec fn hex_bytes(s: Seq<char>) -> Seq<u8> {
    Seq::new((s.len() / 2) as nat, |i: int| (hex_val(s[2 * i]) * 16 + hex_val(s[2 * i + 1])) as u8)
}

#[verifier::external_type_specification]
#[verifier::external_body]
pub struct ExFromHexError(hex::FromHexError);

/// Relies on hex::decode: it returns `Ok` exactly for an even-length
/// string of hex digits (upper or lower case mixed freely), and decodes
/// each character pair to one byte, high digit first; every other input
/// gives an error. A character outside ASCII encodes to bytes that are
/// no hex digits, so it too is rejected.
#[verifier::external_body]
fn hex_decode(data: &str) -> (r: Result<Vec<u8>, hex::FromHexError>)
    ensures
        r is Ok <==> is_valid_hex(data@),
        r matches Ok(v) ==> v@ == hex_bytes(data@),
{
    hex::decode(data)
}

/// Decode a hex string, mapping any failure to [`Reason::ParseHex`].
pub fn decode_hex(data: &str) -> (r: Result<Vec<u8>, Reason>)
    ensures
        r is Ok <==> is_valid_hex(data@),
        r matches Ok(v) ==> v@ == hex_bytes(data@),
        !is_valid_hex(data@) ==> r == Err::<Vec<u8>, Reason>(Reason::ParseHex),
{
    match hex_decode(data) {
        Ok(v) => Ok(v),
        Err(_) => Err(Reason::ParseHex),
    }
}

} // verus!
