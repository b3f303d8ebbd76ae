//! Byte-level text rules shared by the stores: the ordering of keys and
//! timestamps, decimal sequence numbers, and the conversions between bytes and
//! strings that every parser relies on.
use vstd::prelude::*;
use vstd::string::StringSliceAdditionalSpecFns;
use vstd::utf8::{decode_utf8, encode_utf8, is_ascii_chars, valid_utf8};

verus! {

/// Lexicographic order of byte strings, as `Ord` orders slices: a proper
/// prefix sorts first, otherwise the first differing byte decides.
pub open spec fn bytes_lt(a: Seq<u8>, b: Seq<u8>) -> bool
    decreases a.len(),
{
    if a.len() == 0 {
        b.len() > 0
    } else if b.len() == 0 {
        false
    } else if a[0] < b[0] {
        true
    } else if a[0] == b[0] {
        bytes_lt(a.drop_first(), b.drop_first())
    } else {
        false
    }
}

/// The order of `str` and `String`: the byte order of their UTF-8 encodings.
pub open spec fn text_lt(a: Seq<char>, b: Seq<char>) -> bool {
    bytes_lt(encode_utf8(a), encode_utf8(b))
}

pub proof fn lemma_bytes_lt_irreflexive(a: Seq<u8>)
    ensures
        !bytes_lt(a, a),
    decreases a.len(),
{
    if a.len() > 0 {
        lemma_bytes_lt_irreflexive(a.drop_first());
    }
}

pub proof fn lemma_bytes_lt_transitive(a: Seq<u8>, b: Seq<u8>, c: Seq<u8>)
    requires
        bytes_lt(a, b),
        bytes_lt(b, c),
    ensures
        bytes_lt(a, c),
    decreases a.len(),
{
    if a.len() > 0 && b.len() > 0 && c.len() > 0 && a[0] == b[0] && b[0] == c[0] {
        lemma_bytes_lt_transitive(a.drop_first(), b.drop_first(), c.drop_first());
    }
}

pub proof fn lemma_bytes_lt_total(a: Seq<u8>, b: Seq<u8>)
    ensures
        a == b || bytes_lt(a, b) || bytes_lt(b, a),
    decreases a.len(),
{
    if a.len() > 0 && b.len() > 0 && a[0] == b[0] {
        lemma_bytes_lt_total(a.drop_first(), b.drop_first());
        if a.drop_first() == b.drop_first() {
            assert(a =~= seq![a[0]] + a.drop_first());
            assert(b =~= seq![b[0]] + b.drop_first());
        }
    } else if a.len() == 0 && b.len() == 0 {
        assert(a =~= b);
    }
}

pub proof fn lemma_bytes_lt_asymmetric(a: Seq<u8>, b: Seq<u8>)
    requires
        bytes_lt(a, b),
    ensures
        !bytes_lt(b, a),
{
    if bytes_lt(b, a) {
        lemma_bytes_lt_transitive(a, b, a);
        lemma_bytes_lt_irreflexive(a);
    }
}

/// Distinct texts have distinct encodings.
pub proof fn lemma_encode_injective(a: Seq<char>, b: Seq<char>)
    requires
        encode_utf8(a) == encode_utf8(b),
    ensures
        a == b,
{
    vstd::utf8::encode_utf8_decode_utf8(a);
    vstd::utf8::encode_utf8_decode_utf8(b);
}

pub proof fn lemma_text_lt_total(a: Seq<char>, b: Seq<char>)
    ensures
        a == b || text_lt(a, b) || text_lt(b, a),
{
    lemma_bytes_lt_total(encode_utf8(a), encode_utf8(b));
    if encode_utf8(a) == encode_utf8(b) {
        lemma_encode_injective(a, b);
    }
}

pub proof fn lemma_text_lt_irreflexive(a: Seq<char>)
    ensures
        !text_lt(a, a),
{
    lemma_bytes_lt_irreflexive(encode_utf8(a));
}

pub proof fn lemma_text_lt_transitive(a: Seq<char>, b: Seq<char>, c: Seq<char>)
    requires
        text_lt(a, b),
        text_lt(b, c),
    ensures
        text_lt(a, c),
{
    lemma_bytes_lt_transitive(encode_utf8(a), encode_utf8(b), encode_utf8(c));
}

/// Compares two byte strings in slice order.
pub fn bytes_less(a: &[u8], b: &[u8]) -> (res: bool)
    ensures
        res == bytes_lt(a@, b@),
{
    let mut i: usize = 0;
    assert(a@.skip(0) =~= a@);
    assert(b@.skip(0) =~= b@);
    while i < a.len() && i < b.len()
        invariant
            i <= a.len(),
            i <= b.len(),
            bytes_lt(a@, b@) == bytes_lt(a@.skip(i as int), b@.skip(i as int)),
        decreases a.len() - i,
    {
        if a[i] < b[i] {
            return true;
        }
        if a[i] > b[i] {
            return false;
        }
        assert(a@.skip(i as int).drop_first() =~= a@.skip(i + 1));
        assert(b@.skip(i as int).drop_first() =~= b@.skip(i + 1));
        i = i + 1;
    }
    i == a.len() && i < b.len()
}

/// Compares two texts in `str` order.
pub fn text_less(a: &str, b: &str) -> (res: bool)
    ensures
        res == text_lt(a@, b@),
{
    bytes_less(a.as_bytes(), b.as_bytes())
}

/// Two texts are equal; byte comparison of their encodings.
pub fn text_eq(a: &str, b: &str) -> (res: bool)
    ensures
        res == (a@ == b@),
{
    let x = a.as_bytes();
    let y = b.as_bytes();
    proof {
        if a@ == b@ {
            assert(x@ == y@);
        }
    }
    if x.len() != y.len() {
        return false;
    }
    let mut i: usize = 0;
    while i < x.len()
        invariant
            x@ == a.spec_bytes(),
            y@ == b.spec_bytes(),
            x.len() == y.len(),
            i <= x.len(),
            forall|j: int| 0 <= j < i ==> x@[j] == y@[j],
        decreases x.len() - i,
    {
        if x[i] != y[i] {
            return false;
        }
        i = i + 1;
    }
    proof {
        assert(x@ =~= y@);
        lemma_encode_injective(a@, b@);
    }
    true
}

pub open spec fn is_digit(b: u8) -> bool {
    48 <= b <= 57
}

pub open spec fn all_digits(s: Seq<u8>) -> bool {
    forall|i: int| 0 <= i < s.len() ==> is_digit(#[trigger] s[i])
}

/// The value of a string of decimal digits.
pub open spec fn digits_value(s: Seq<u8>) -> nat
    decreases s.len(),
{
    if s.len() == 0 {
        0
    } else {
        digits_value(s.drop_last()) * 10 + (s.last() - 48) as nat
    }
}

/// What `str::parse::<i64>` accepts: an optional `+` or `-`, then at least
/// one decimal digit and nothing else, with the value inside `i64`.
pub open spec fn parse_i64_spec(s: Seq<u8>) -> Option<int> {
    if s.len() > 0 && s[0] == 45u8 {
        let r = s.drop_first();
        if r.len() > 0 && all_digits(r) && digits_value(r) <= 0x8000_0000_0000_0000 {
            Some(-(digits_value(r) as int))
        } else {
            None
        }
    } else {
        let r = if s.len() > 0 && s[0] == 43u8 {
            s.drop_first()
        } else {
            s
        };
        if r.len() > 0 && all_digits(r) && digits_value(r) <= 0x7fff_ffff_ffff_ffff {
            Some(digits_value(r) as int)
        } else {
            None
        }
    }
}

proof fn lemma_digits_prefix_monotone(s: Seq<u8>, i: int)
    requires
        0 <= i <= s.len(),
        all_digits(s),
    ensures
        digits_value(s.take(i)) <= digits_value(s),
    decreases s.len() - i,
{
    if i < s.len() {
        lemma_digits_prefix_monotone(s, i + 1);
        assert(s.take(i + 1).drop_last() =~= s.take(i));
    } else {
        assert(s.take(i) =~= s);
    }
}

/// Reads an unsigned run of decimal digits, giving `None` when a byte is not
/// a digit, the run is empty, or its value exceeds `limit`.
fn digits_up_to(s: &[u8], start: usize, limit: u64) -> (res: Option<u64>)
    requires
        start <= s.len(),
        limit >= 9,
    ensures
        ({
            let r = s@.skip(start as int);
            match res {
                Some(v) => r.len() > 0 && all_digits(r) && digits_value(r) <= limit && v
                    == digits_value(r),
                None => !(r.len() > 0 && all_digits(r) && digits_value(r) <= limit),
            }
        }),
{
    let ghost r = s@.skip(start as int);
    if start == s.len() {
        return None;
    }
    let mut value: u64 = 0;
    let mut i: usize = start;
    while i < s.len()
        invariant
            start <= i <= s.len(),
            r == s@.skip(start as int),
            all_digits(r.take(i - start)),
            value == digits_value(r.take(i - start)),
            value <= limit,
            limit >= 9,
        decreases s.len() - i,
    {
        let b = s[i];
        assert(r[i - start] == b);
        if b < 48 || b > 57 {
            assert(!is_digit(r[i - start]));
            return None;
        }
        let d = (b - 48) as u64;
        assert(r.take(i + 1 - start).drop_last() =~= r.take(i - start));
        assert(r.take(i + 1 - start).last() == b);
        if value > (limit - d) / 10 {
            proof {
                assert(value * 10 + d > limit) by (nonlinear_arith)
                    requires
                        value > (limit - d) / 10,
                        d <= 9,
                        d <= limit,
                ;
                if all_digits(r) {
                    lemma_digits_prefix_monotone(r, i + 1 - start);
                }
            }
            return None;
        }
        assert(value * 10 + d <= limit) by (nonlinear_arith)
            requires
                value <= (limit - d) / 10,
                d <= limit,
        ;
        value = value * 10 + d;
        assert(all_digits(r.take(i + 1 - start))) by {
            assert forall|j: int| 0 <= j < i + 1 - start implies is_digit(#[trigger] r.take(i + 1 - start)[j]) by {
                if j < i - start {
                    assert(r.take(i + 1 - start)[j] == r.take(i - start)[j]);
                }
            }
        }
        i = i + 1;
    }
    assert(r.take(i - start) =~= r);
    Some(value)
}

/// Parses a decimal `i64` exactly as `str::parse::<i64>` does.
pub fn parse_i64(s: &[u8]) -> (res: Option<i64>)
    ensures
        match res {
            Some(v) => parse_i64_spec(s@) == Some(v as int),
            None => parse_i64_spec(s@) is None,
        },
{
    if s.len() > 0 && s[0] == 45u8 {
        assert(s@.skip(1) =~= s@.drop_first());
        match digits_up_to(s, 1, 0x8000_0000_0000_0000u64) {
            Some(v) => {
                if v == 0x8000_0000_0000_0000u64 {
                    Some(i64::MIN)
                } else {
                    Some(-(v as i64))
                }
            },
            None => None,
        }
    } else {
        let start: usize = if s.len() > 0 && s[0] == 43u8 {
            1
        } else {
            0
        };
        assert(start == 1 ==> s@.skip(1) =~= s@.drop_first());
        assert(s@.skip(0) =~= s@);
        match digits_up_to(s, start, 0x7fff_ffff_ffff_ffffu64) {
            Some(v) => Some(v as i64),
            None => None,
        }
    }
}

/// The characters that a run of ASCII bytes spells.
pub open spec fn ascii_chars(bytes: Seq<u8>) -> Seq<char> {
    Seq::new(bytes.len(), |i: int| bytes[i] as char)
}

pub open spec fn all_ascii(bytes: Seq<u8>) -> bool {
    forall|i: int| 0 <= i < bytes.len() ==> #[trigger] bytes[i] < 128
}

pub proof fn lemma_ascii_encoding(bytes: Seq<u8>)
    requires
        all_ascii(bytes),
    ensures
        encode_utf8(ascii_chars(bytes)) == bytes,
        valid_utf8(bytes),
        decode_utf8(bytes) == ascii_chars(bytes),
{
    let chars = ascii_chars(bytes);
    assert(is_ascii_chars(chars)) by {
        assert forall|i: int| 0 <= i < chars.len() implies '\0' <= #[trigger] chars[i] <= '\u{7f}' by {
            assert(chars[i] == bytes[i] as char);
        }
    }
    vstd::utf8::is_ascii_chars_encode_utf8(chars);
    assert(encode_utf8(chars) =~= bytes) by {
        assert forall|i: int| 0 <= i < bytes.len() implies encode_utf8(chars)[i] == bytes[i] by {
            let b: u8 = bytes[i];
            assert(chars[i] == b as char);
            assert((b as char) as u8 == b);
        }
    }
    vstd::utf8::encode_utf8_valid_utf8(chars);
    vstd::utf8::encode_utf8_decode_utf8(chars);
}

/// `std::str::from_utf8`, owned: `Some` exactly when the bytes are valid
/// UTF-8, holding the characters they decode to. This is std's documented
/// contract for the function.
#[verifier::external_body]
pub fn utf8_text(bytes: &[u8]) -> (res: Option<String>)
    ensures
        res is Some <==> valid_utf8(bytes@),
        res matches Some(s) ==> s@ == decode_utf8(bytes@),
{
    std::str::from_utf8(bytes).ok().map(|s| s.to_owned())
}

/// Builds the string that a run of ASCII bytes spells.
pub fn ascii_string(bytes: &[u8]) -> (res: String)
    requires
        all_ascii(bytes@),
    ensures
        res@ == ascii_chars(bytes@),
{
    proof {
        lemma_ascii_encoding(bytes@);
    }
    match utf8_text(bytes) {
        Some(s) => s,
        None => String::new(),
    }
}

pub open spec fn hex_digit(n: int) -> u8 {
    if n < 10 {
        (48 + n) as u8
    } else {
        (87 + n) as u8
    }
}

/// The lowercase hexadecimal spelling of `value` in `width` digits, most
/// significant first, as `format!("{:0width$x}")` writes a value that fits.
pub open spec fn hex_fixed(value: nat, width: nat) -> Seq<u8>
    decreases width,
{
    if width == 0 {
        seq![]
    } else {
        hex_fixed(value / 16, (width - 1) as nat).push(hex_digit((value % 16) as int))
    }
}

/// Whether two byte strings are equal.
pub fn same_bytes(a: &[u8], b: &[u8]) -> (res: bool)
    ensures
        res == (a@ == b@),
{
    if a.len() != b.len() {
        return false;
    }
    let mut i: usize = 0;
    while i < a.len()
        invariant
            i <= a.len(),
            a.len() == b.len(),
            forall|j: int| 0 <= j < i ==> a@[j] == b@[j],
        decreases a.len() - i,
    {
        if a[i] != b[i] {
            return false;
        }
        i = i + 1;
    }
    assert(a@ =~= b@);
    true
}

/// Unicode's `White_Space` property, by which `str::split_whitespace` and
/// `str::trim` split and trim.
pub open spec fn is_space(c: char) -> bool {
    ||| ('\u{9}' <= c && c <= '\u{d}')
    ||| c == ' '
    ||| c == '\u{85}'
    ||| c == '\u{a0}'
    ||| c == '\u{1680}'
    ||| ('\u{2000}' <= c && c <= '\u{200a}')
    ||| c == '\u{2028}'
    ||| c == '\u{2029}'
    ||| c == '\u{202f}'
    ||| c == '\u{205f}'
    ||| c == '\u{3000}'
}

pub fn space_char(c: char) -> (res: bool)
    ensures
        res == is_space(c),
{
    ('\u{9}' <= c && c <= '\u{d}') || c == ' ' || c == '\u{85}' || c == '\u{a0}' || c == '\u{1680}'
        || ('\u{2000}' <= c && c <= '\u{200a}') || c == '\u{2028}' || c == '\u{2029}' || c == '\u{202f}'
        || c == '\u{205f}' || c == '\u{3000}'
}

} // verus!
