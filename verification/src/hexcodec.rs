//! Decoding of the hex-encoded nonce prefix of a challenge.

use vstd::prelude::*;
use vstd::string::StringSliceAdditionalSpecFns;

verus! {

#[verifier::external_type_specification]
#[verifier::external_body]
pub struct ExFromHexError(hex::FromHexError);

/// `c` is one of `0-9`, `a-f`, `A-F`.
pub open spec fn is_hex_digit(c: u8) -> bool {
    (0x30 <= c <= 0x39) || (0x61 <= c <= 0x66) || (0x41 <= c <= 0x46)
}

/// Value of the hex digit `c`.
pub open spec fn hex_digit_value(c: u8) -> int {
    if 0x30 <= c <= 0x39 {
        c - 0x30
    } else if 0x61 <= c <= 0x66 {
        c - 0x61 + 10
    } else {
        c - 0x41 + 10
    }
}

/// `text` is an even number of hex digits.
pub open spec fn is_hex_text(text: Seq<u8>) -> bool {
    &&& text.len() % 2 == 0
    &&& forall|i: int| 0 <= i < text.len() ==> is_hex_digit(#[trigger] text[i])
}

/// The bytes that the hex text `text` encodes, two digits per byte, high
/// digit first.
pub open spec fn hex_decoded(text: Seq<u8>) -> Seq<u8> {
    Seq::new(
        text.len() / 2,
        |i: int| (16 * hex_digit_value(text[2 * i]) + hex_digit_value(text[2 * i + 1])) as u8,
    )
}

/// Calls `hex::decode` on raw bytes. Claimed of it, as its source shows:
/// it succeeds exactly when `text` has an even length and every byte is a
/// hex digit of either case, and then yields one byte per digit pair, the
/// first digit giving the high four bits.
#[verifier::external_body]
fn hex_decode(text: &[u8]) -> (decoded: Result<Vec<u8>, hex::FromHexError>)
    ensures
        decoded is Ok <==> is_hex_text(text@),
        decoded matches Ok(bytes) ==> bytes@ == hex_decoded(text@),
{
    hex::decode(text)
}

/// A nonce prefix that is not valid hex.
#[derive(Debug, Clone, Copy, PartialEq, Eq, Structural)]
pub enum NoncePrefixError {
    InvalidHex,
}

/// Decodes the hex nonce prefix of a challenge into the bytes that every
/// candidate message starts with.
pub fn decode_nonce_prefix(text: &str) -> (decoded: Result<Vec<u8>, NoncePrefixError>)
    ensures
        decoded is Ok <==> is_hex_text(text.spec_bytes()),
        decoded matches Ok(bytes) ==> bytes@ == hex_decoded(text.spec_bytes()),
        decoded matches Err(e) ==> e == NoncePrefixError::InvalidHex,
{
    match hex_decode(text.as_bytes()) {
        Ok(bytes) => Ok(bytes),
        Err(_) => Err(NoncePrefixError::InvalidHex),
    }
}

/// ASCII lower case of a byte: `A-Z` become `a-z`, other bytes stay.
pub open spec fn ascii_lower(c: u8) -> u8 {
    if 0x41 <= c <= 0x5a {
        (c + 32) as u8
    } else {
        c
    }
}

/// Letter case does not matter in hex: two texts that agree byte by byte
/// up to ASCII case are both valid or both invalid, and decode to the same
/// bytes.
pub proof fn lemma_hex_ignores_case(a: Seq<u8>, b: Seq<u8>)
    requires
        a.len() == b.len(),
        forall|i: int| 0 <= i < a.len() ==> ascii_lower(#[trigger] a[i]) == ascii_lower(b[i]),
    ensures
        is_hex_text(a) <==> is_hex_text(b),
        is_hex_text(a) ==> hex_decoded(a) == hex_decoded(b),
{
    assert forall|i: int| 0 <= i < a.len() implies (is_hex_digit(#[trigger] a[i]) <==> is_hex_digit(b[i]))
        && (is_hex_digit(a[i]) ==> hex_digit_value(a[i]) == hex_digit_value(b[i])) by {
        assert(ascii_lower(a[i]) == ascii_lower(b[i]));
    }
    if is_hex_text(a) {
        assert forall|i: int| 0 <= i < b.len() implies is_hex_digit(#[trigger] b[i]) by {
            assert(is_hex_digit(a[i]));
        }
        assert forall|i: int| 0 <= i < hex_decoded(a).len() implies hex_decoded(a)[i] == hex_decoded(b)[i] by {
            assert(is_hex_digit(a[2 * i]));
            assert(is_hex_digit(a[2 * i + 1]));
        }
        assert(hex_decoded(a) =~= hex_decoded(b));
    }
    if is_hex_text(b) {
        assert forall|i: int| 0 <= i < a.len() implies is_hex_digit(#[trigger] a[i]) by {
            assert(is_hex_digit(b[i]));
        }
    }
}

} // verus!
