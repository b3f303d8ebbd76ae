//! Identifier rules. Request IDs are canonical version 7 UUIDs whose embedded
//! time bounds admission; project, card and epoch IDs are canonical version 4
//! UUIDs. Parsing and formatting are the `uuid` crate's own.
use crate::text::{all_ascii, ascii_chars, text_eq};
use vstd::prelude::*;
use vstd::string::StringSliceAdditionalSpecFns;
use vstd::utf8::encode_utf8;

verus! {

/// The value of one hexadecimal digit, in either case, as `uuid` decodes it.
pub open spec fn hex_nibble(c: u8) -> Option<u8> {
    if 48 <= c <= 57 {
        Some((c - 48) as u8)
    } else if 97 <= c <= 102 {
        Some((c - 87) as u8)
    } else if 65 <= c <= 70 {
        Some((c - 55) as u8)
    } else {
        None
    }
}

/// Thirty-two hexadecimal digits decoded into sixteen bytes.
pub open spec fn decode_hex32(h: Seq<u8>) -> Option<Seq<u8>> {
    if h.len() == 32 && forall|i: int| 0 <= i < 32 ==> (#[trigger] hex_nibble(h[i])) is Some {
        Some(
            Seq::new(
                16,
                |j: int| (hex_nibble(h[2 * j])->0 * 16 + hex_nibble(h[2 * j + 1])->0) as u8,
            ),
        )
    } else {
        None
    }
}

/// The digits of a hyphenated spelling, with its four hyphens removed.
pub open spec fn hyphenated_digits(s: Seq<u8>) -> Seq<u8> {
    s.subrange(0, 8) + s.subrange(9, 13) + s.subrange(14, 18) + s.subrange(19, 23) + s.subrange(
        24,
        36,
    )
}

pub open spec fn parse_hyphenated(s: Seq<u8>) -> Option<Seq<u8>> {
    if s.len() == 36 && s[8] == 45u8 && s[13] == 45u8 && s[18] == 45u8 && s[23] == 45u8 {
        decode_hex32(hyphenated_digits(s))
    } else {
        None
    }
}

pub open spec fn lower_ascii(c: u8) -> u8 {
    if 65 <= c <= 90 {
        (c + 32) as u8
    } else {
        c
    }
}

/// `urn:uuid:` in any letter case.
pub open spec fn is_urn_prefix(s: Seq<u8>) -> bool {
    s.len() == 9 && lower_ascii(s[0]) == 117u8 && lower_ascii(s[1]) == 114u8 && lower_ascii(s[2])
        == 110u8 && s[3] == 58u8 && lower_ascii(s[4]) == 117u8 && lower_ascii(s[5]) == 117u8
        && lower_ascii(s[6]) == 105u8 && lower_ascii(s[7]) == 100u8 && s[8] == 58u8
}

/// The spellings that `uuid::Uuid::parse_str` accepts and the bytes it reads
/// from each: 32 bare digits, the 36-character hyphenated form, that form in
/// braces, or that form behind a `urn:uuid:` prefix.
pub open spec fn uuid_parse_spec(s: Seq<u8>) -> Option<Seq<u8>> {
    if s.len() == 32 {
        decode_hex32(s)
    } else if s.len() == 36 {
        parse_hyphenated(s)
    } else if s.len() == 38 && s[0] == 123u8 && s[37] == 125u8 {
        parse_hyphenated(s.subrange(1, 37))
    } else if s.len() == 45 && is_urn_prefix(s.subrange(0, 9)) {
        parse_hyphenated(s.subrange(9, 45))
    } else {
        None
    }
}

pub open spec fn lower_hex_digit(n: int) -> u8 {
    if n < 10 {
        (48 + n) as u8
    } else {
        (87 + n) as u8
    }
}

/// The lowercase digits of sixteen bytes, two per byte.
pub open spec fn simple_lower(b: Seq<u8>) -> Seq<u8> {
    Seq::new(
        32,
        |i: int|
            if i % 2 == 0 {
                lower_hex_digit((b[i / 2] / 16) as int)
            } else {
                lower_hex_digit((b[i / 2] % 16) as int)
            },
    )
}

/// The 8-4-4-4-12 lowercase spelling that a `Uuid` displays as.
pub open spec fn hyphenated_lower(b: Seq<u8>) -> Seq<u8> {
    let d = simple_lower(b);
    d.subrange(0, 8) + seq![45u8] + d.subrange(8, 12) + seq![45u8] + d.subrange(12, 16) + seq![
        45u8,
    ] + d.subrange(16, 20) + seq![45u8] + d.subrange(20, 32)
}

/// `Uuid::get_version_num`: the high nibble of byte six.
pub open spec fn version_num(b: Seq<u8>) -> nat {
    (b[6] / 16) as nat
}

/// `Uuid::get_variant() == Variant::RFC4122`: the top two bits of byte eight are `10`.
pub open spec fn is_rfc4122(b: Seq<u8>) -> bool {
    b[8] / 64 == 2
}

/// A canonical UUID of the given version: `uuid` parses it, it has that
/// version and the RFC 4122 variant, and it displays as exactly the text given.
pub open spec fn canonical_uuid_spec(text: Seq<char>, version: nat) -> bool {
    match uuid_parse_spec(encode_utf8(text)) {
        Some(b) => version_num(b) == version && is_rfc4122(b) && ascii_chars(hyphenated_lower(b))
            == text,
        None => false,
    }
}

/// A UUID of the given version in its canonical spelling, whatever its
/// variant: `uuid` parses it, it has that version, and it displays as
/// exactly the text given.
pub open spec fn uuid_spelling_spec(text: Seq<char>, version: nat) -> bool {
    match uuid_parse_spec(encode_utf8(text)) {
        Some(b) => version_num(b) == version && ascii_chars(hyphenated_lower(b)) == text,
        None => false,
    }
}

/// The milliseconds since the Unix epoch that a version 7 UUID carries in its
/// first six bytes, big-endian.
pub open spec fn v7_millis(b: Seq<u8>) -> int {
    ((((b[0] as int * 256 + b[1]) * 256 + b[2]) * 256 + b[3]) * 256 + b[4]) * 256 + b[5]
}

/// `uuid::Uuid::parse_str`, reduced to the parsed bytes. The claimed contract
/// is the crate's parser: which spellings it accepts and how it decodes them.
#[verifier::external_body]
fn uuid_parse(text: &str) -> (res: Option<[u8; 16]>)
    ensures
        res is Some <==> uuid_parse_spec(text.spec_bytes()) is Some,
        res matches Some(b) ==> b@ == uuid_parse_spec(text.spec_bytes())->0,
{
    uuid::Uuid::parse_str(text).ok().map(|id| *id.as_bytes())
}

/// `Uuid::to_string` on the UUID with these bytes: the crate displays a
/// `Uuid` as its lowercase hyphenated spelling.
#[verifier::external_body]
fn uuid_text(bytes: [u8; 16]) -> (res: String)
    ensures
        res@ == ascii_chars(hyphenated_lower(bytes@)),
{
    uuid::Uuid::from_bytes(bytes).to_string()
}

/// Whether `value` is a canonical UUID of `version`.
pub fn canonical_uuid(value: &str, version: usize) -> (res: bool)
    ensures
        res == canonical_uuid_spec(value@, version as nat),
{
    match uuid_parse(value) {
        Some(bytes) => {
            let b6: u8 = bytes[6];
            let b8: u8 = bytes[8];
            let v = (b6 >> 4u8) as usize;
            let w = b8 >> 6u8;
            assert(b6 >> 4u8 == b6 / 16) by (bit_vector);
            assert(b8 >> 6u8 == b8 / 64) by (bit_vector);
            if v != version || w != 2 {
                return false;
            }
            let text = uuid_text(bytes);
            text_eq(text.as_str(), value)
        },
        None => false,
    }
}

/// Whether `value` spells a UUID of `version` canonically, whatever its
/// variant.
pub fn uuid_spelling(value: &str, version: usize) -> (res: bool)
    ensures
        res == uuid_spelling_spec(value@, version as nat),
{
    match uuid_parse(value) {
        Some(bytes) => {
            let b6: u8 = bytes[6];
            let v = (b6 >> 4u8) as usize;
            assert(b6 >> 4u8 == b6 / 16) by (bit_vector);
            if v != version {
                return false;
            }
            let text = uuid_text(bytes);
            text_eq(text.as_str(), value)
        },
        None => false,
    }
}

/// Whether `uuid` parses the text in any spelling it accepts.
pub fn uuid_parses(text: &str) -> (res: bool)
    ensures
        res == (uuid_parse_spec(text.spec_bytes()) is Some),
{
    uuid_parse(text).is_some()
}

/// Request IDs are canonical version 7 UUIDs.
pub fn valid_request_id(text: &str) -> (res: bool)
    ensures
        res == canonical_uuid_spec(text@, 7),
{
    canonical_uuid(text, 7)
}

/// The time embedded in a valid request ID.
pub open spec fn request_millis_spec(text: Seq<char>) -> int {
    v7_millis(uuid_parse_spec(encode_utf8(text))->0)
}

/// The creation time, in milliseconds, of a valid request ID.
pub fn request_millis(text: &str) -> (res: i64)
    requires
        canonical_uuid_spec(text@, 7),
    ensures
        res == request_millis_spec(text@),
        0 <= res < 0x1_0000_0000_0000,
{
    match uuid_parse(text) {
        Some(b) => {
            let m: u64 = ((((((b[0] as u64) * 256 + b[1] as u64) * 256 + b[2] as u64) * 256
                + b[3] as u64) * 256 + b[4] as u64) * 256 + b[5] as u64);
            m as i64
        },
        None => 0,
    }
}

} // verus!
