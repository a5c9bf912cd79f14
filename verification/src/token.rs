use vstd::prelude::*;
use vstd::string::*;
use base64::Engine;

verus! {

/// Field number of the package name inside the application record.
pub const PACKAGE_NAME_FIELD: u32 = 1;

/// Field number of the framed signature inside the application record.
pub const SIGNATURE_FIELD: u32 = 3;

/// Field number of the application record inside the outer record.
pub const APP_INFO_FIELD: u32 = 1;

/// Field number of the sentinel inside the outer record.
pub const SENTINEL_FIELD: u32 = 3;

/// The sentinel that every token carries. The remote protocol owns this
/// value; it is reproduced as it is.
pub const SENTINEL: u64 = 3959931537119515576;

/// The character that stands for a group of six bits in the standard
/// base64 alphabet: `A-Z`, `a-z`, `0-9`, `+`, `/`.
pub open spec fn base64_symbol(six: int) -> u8 {
    if six < 26 {
        (65 + six) as u8
    } else if six < 52 {
        (97 + six - 26) as u8
    } else if six < 62 {
        (48 + six - 52) as u8
    } else if six == 62 {
        43u8
    } else {
        47u8
    }
}

/// The standard base64 text of a run of bytes, as ASCII bytes: four
/// characters for every three bytes, the last group padded with `=`.
pub open spec fn base64_standard(bytes: Seq<u8>) -> Seq<u8>
    decreases bytes.len(),
{
    if bytes.len() == 0 {
        Seq::empty()
    } else if bytes.len() == 1 {
        seq![base64_symbol((bytes[0] / 4) as int), base64_symbol((bytes[0] % 4) * 16), 61u8, 61u8]
    } else if bytes.len() == 2 {
        seq![
            base64_symbol((bytes[0] / 4) as int),
            base64_symbol((bytes[0] % 4) * 16 + bytes[1] / 16),
            base64_symbol((bytes[1] % 16) * 4),
            61u8,
        ]
    } else {
        seq![
            base64_symbol((bytes[0] / 4) as int),
            base64_symbol((bytes[0] % 4) * 16 + bytes[1] / 16),
            base64_symbol((bytes[1] % 16) * 4 + bytes[2] / 64),
            base64_symbol((bytes[2] % 64) as int),
        ] + base64_standard(bytes.skip(3))
    }
}

/// Calls `Engine::encode` of the base64 crate on its `STANDARD` engine.
/// Trusted: the text returned is the standard base64 encoding of the input,
/// with padding. The call panics only where the encoded length overflows
/// `usize`, which no slice in memory can cause.
#[verifier::external_body]
fn base64_encode(input: &[u8]) -> (text: Vec<u8>)
    ensures
        text@ == base64_standard(input@),
{
    base64::engine::general_purpose::STANDARD.encode(input).into_bytes()
}

/// A number in base 128, least significant group first, each byte but the
/// last with its high bit set.
pub open spec fn varint(n: nat) -> Seq<u8>
    decreases n,
{
    if n < 128 {
        seq![n as u8]
    } else {
        seq![(n % 128 + 128) as u8] + varint(n / 128)
    }
}

/// A field that carries bytes: its key, the payload's length, the payload.
pub open spec fn length_delimited(field: nat, payload: Seq<u8>) -> Seq<u8> {
    varint(field * 8 + 2) + varint(payload.len()) + payload
}

/// A text field: left out when the text is empty.
pub open spec fn text_field(field: nat, text: Seq<u8>) -> Seq<u8> {
    if text.len() == 0 {
        Seq::empty()
    } else {
        length_delimited(field, text)
    }
}

/// A numeric field: left out when the number is zero.
pub open spec fn number_field(field: nat, value: nat) -> Seq<u8> {
    if value == 0 {
        Seq::empty()
    } else {
        varint(field * 8) + varint(value)
    }
}

/// The application record: package name, then framed signature.
pub open spec fn app_info_record(package_name: Seq<u8>, framed_signature: Seq<u8>) -> Seq<u8> {
    text_field(PACKAGE_NAME_FIELD as nat, package_name) + text_field(
        SIGNATURE_FIELD as nat,
        framed_signature,
    )
}

/// The outer record: the application record, then the sentinel.
pub open spec fn spatula_record(package_name: Seq<u8>, framed_signature: Seq<u8>) -> Seq<u8> {
    length_delimited(APP_INFO_FIELD as nat, app_info_record(package_name, framed_signature))
        + number_field(SENTINEL_FIELD as nat, SENTINEL as nat)
}

/// The token of an identity: the base64 text of the outer record that holds
/// the package name and the base64 text of the signature.
pub open spec fn token_of(package_name: Seq<u8>, signature: Seq<u8>) -> Seq<u8> {
    base64_standard(spatula_record(package_name, base64_standard(signature)))
}

fn put_varint(buf: &mut Vec<u8>, value: u64)
    ensures
        final(buf)@ == old(buf)@ + varint(value as nat),
{
    let ghost start = buf@;
    let mut rest: u64 = value;
    while rest >= 128
        invariant
            start + varint(value as nat) == buf@ + varint(rest as nat),
        decreases rest,
    {
        let ghost before = buf@;
        buf.push((rest % 128 + 128) as u8);
        proof {
            assert(before + varint(rest as nat) =~= buf@ + varint((rest / 128) as nat));
        }
        rest = rest / 128;
    }
    let ghost before = buf@;
    buf.push(rest as u8);
    proof {
        assert(before + varint(rest as nat) =~= buf@);
    }
}

fn put_length_delimited(buf: &mut Vec<u8>, field: u32, payload: &[u8])
    ensures
        final(buf)@ == old(buf)@ + length_delimited(field as nat, payload@),
{
    let ghost start = buf@;
    put_varint(buf, field as u64 * 8 + 2);
    put_varint(buf, payload.len() as u64);
    buf.extend_from_slice(payload);
    proof {
        assert(buf@ =~= start + length_delimited(field as nat, payload@));
    }
}

fn put_text_field(buf: &mut Vec<u8>, field: u32, text: &[u8])
    ensures
        final(buf)@ == old(buf)@ + text_field(field as nat, text@),
{
    if text.len() != 0 {
        put_length_delimited(buf, field, text);
    } else {
        proof {
            assert(buf@ =~= buf@ + Seq::<u8>::empty());
        }
    }
}

fn put_number_field(buf: &mut Vec<u8>, field: u32, value: u64)
    ensures
        final(buf)@ == old(buf)@ + number_field(field as nat, value as nat),
{
    let ghost start = buf@;
    if value != 0 {
        put_varint(buf, field as u64 * 8);
        put_varint(buf, value);
        proof {
            assert(buf@ =~= start + number_field(field as nat, value as nat));
        }
    } else {
        proof {
            assert(buf@ =~= buf@ + Seq::<u8>::empty());
        }
    }
}

/// Serialises the outer record for a package name and a signature that is
/// already framed as base64 text.
pub fn encode_record(package_name: &[u8], framed_signature: &[u8]) -> (record: Vec<u8>)
    ensures
        record@ == spatula_record(package_name@, framed_signature@),
{
    let mut inner: Vec<u8> = Vec::new();
    put_text_field(&mut inner, PACKAGE_NAME_FIELD, package_name);
    put_text_field(&mut inner, SIGNATURE_FIELD, framed_signature);
    let mut record: Vec<u8> = Vec::new();
    put_length_delimited(&mut record, APP_INFO_FIELD, inner.as_slice());
    put_number_field(&mut record, SENTINEL_FIELD, SENTINEL);
    proof {
        assert(inner@ =~= app_info_record(package_name@, framed_signature@));
        assert(record@ =~= spatula_record(package_name@, framed_signature@));
    }
    record
}

/// Mints the token of an identity. The result is a function of the package
/// name and the signature bytes alone, so the same identity always yields
/// the same token.
pub fn generate_spatula(package_name: &str, signature: &[u8]) -> (token: Vec<u8>)
    ensures
        token@ == token_of(package_name.spec_bytes(), signature@),
{
    let framed = base64_encode(signature);
    let record = encode_record(package_name.as_bytes(), framed.as_slice());
    base64_encode(record.as_slice())
}

} // verus!
