use vstd::prelude::*;

verus! {

/// Why a candidate signature was turned away.
#[derive(Clone, Copy, Debug, PartialEq, Eq, Structural)]
pub enum SignatureError {
    /// The text is not an even number of hexadecimal digits.
    NotHex,
}

#[verifier::external_type_specification]
#[verifier::external_body]
pub struct ExFromHexError(hex::FromHexError);

/// `c` is one of `0-9`, `a-f`, `A-F`.
pub open spec fn is_hex_digit(c: char) -> bool {
    ('0' as int <= c as int && c as int <= '9' as int)
        || ('a' as int <= c as int && c as int <= 'f' as int)
        || ('A' as int <= c as int && c as int <= 'F' as int)
}

/// The number that a hexadecimal digit stands for.
pub open spec fn hex_digit_value(c: char) -> int {
    if c as int <= '9' as int {
        c as int - '0' as int
    } else if c as int <= 'F' as int {
        c as int - 'A' as int + 10
    } else {
        c as int - 'a' as int + 10
    }
}

/// The text is an even number of hexadecimal digits and nothing else.
pub open spec fn is_hex_text(text: Seq<char>) -> bool {
    text.len() % 2 == 0 && forall|i: int| 0 <= i < text.len() ==> is_hex_digit(#[trigger] text[i])
}

/// The bytes that a hexadecimal text spells, two digits to a byte, the high
/// digit first.
pub open spec fn hex_bytes(text: Seq<char>) -> Seq<u8> {
    Seq::new(
        text.len() / 2,
        |i: int| (16 * hex_digit_value(text[2 * i]) + hex_digit_value(text[2 * i + 1])) as u8,
    )
}

/// Calls `hex::decode`. Trusted: the call succeeds exactly on an even number
/// of hexadecimal digits of either case, and then yields one byte for each
/// pair of digits, the first digit of a pair in the high four bits.
#[verifier::external_body]
fn hex_decode(text: &str) -> (r: Result<Vec<u8>, hex::FromHexError>)
    ensures
        r.is_ok() == is_hex_text(text@),
        r.is_ok() ==> r.unwrap()@ == hex_bytes(text@),
{
    hex::decode(text)
}

/// Reads a candidate signature. A text that is not well-formed hexadecimal
/// is refused, so that no identity is ever built from it.
pub fn parse_signature(text: &str) -> (r: Result<Vec<u8>, SignatureError>)
    ensures
        r.is_ok() == is_hex_text(text@),
        r.is_ok() ==> r.unwrap()@ == hex_bytes(text@),
        r.is_err() ==> r.unwrap_err() == SignatureError::NotHex,
{
    match hex_decode(text) {
        Ok(bytes) => Ok(bytes),
        Err(_) => Err(SignatureError::NotHex),
    }
}

} // verus!
