//! Message authentication, text encodings and random identifiers.

use base64::Engine as _;
use hmac::{Hmac, Mac};
use vstd::prelude::*;

verus! {

/// The HMAC of the message under the key with SHA-1.
pub uninterp spec fn hmac_sha1(key: Seq<u8>, message: Seq<u8>) -> Seq<u8>;

/// The HMAC of the message under the key with SHA-256.
pub uninterp spec fn hmac_sha256(key: Seq<u8>, message: Seq<u8>) -> Seq<u8>;

/// How Rust prints the text with `{:?}`.
pub uninterp spec fn debug_text(s: Seq<char>) -> Seq<char>;

/// `hmac::Hmac` over `sha1::Sha1`: takes a key of any length and gives 20 bytes.
#[verifier::external_body]
pub(crate) fn mac_sha1(key: &[u8], message: &[u8]) -> (r: Vec<u8>)
    ensures
        r@ == hmac_sha1(key@, message@),
        r@.len() == 20,
{
    let mut mac = Hmac::<sha1::Sha1>::new_from_slice(key).unwrap();
    mac.update(message);
    mac.finalize().into_bytes().to_vec()
}

/// `hmac::Hmac` over `sha2::Sha256`: takes a key of any length and gives 32 bytes.
#[verifier::external_body]
pub(crate) fn mac_sha256(key: &[u8], message: &[u8]) -> (r: Vec<u8>)
    ensures
        r@ == hmac_sha256(key@, message@),
        r@.len() == 32,
{
    let mut mac = Hmac::<sha2::Sha256>::new_from_slice(key).unwrap();
    mac.update(message);
    mac.finalize().into_bytes().to_vec()
}

/// `{:?}` of `str`: the text in double quotes, with what cannot be shown escaped.
#[verifier::external_body]
pub(crate) fn quote(s: &str) -> (r: String)
    ensures
        r@ == debug_text(s@),
{
    format!("{s:?}")
}

// ---------------------------------------------------------------------------
// Base64
// ---------------------------------------------------------------------------

/// The character for six bits.
pub open spec fn base64_char(v: int) -> char {
    if v < 26 {
        (65 + v) as char
    } else if v < 52 {
        (97 + v - 26) as char
    } else if v < 62 {
        (48 + v - 52) as char
    } else if v == 62 {
        '+'
    } else {
        '/'
    }
}

/// The bytes in the standard Base64 alphabet: each three bytes as four characters, a last group of
/// one or two bytes filled up with `=`.
pub open spec fn base64(bytes: Seq<u8>) -> Seq<char>
    decreases bytes.len(),
{
    if bytes.len() == 0 {
        Seq::empty()
    } else {
        let a = bytes[0] as int;
        let b = if bytes.len() > 1 {
            bytes[1] as int
        } else {
            0
        };
        let c = if bytes.len() > 2 {
            bytes[2] as int
        } else {
            0
        };
        let group = seq![
            base64_char(a / 4),
            base64_char((a % 4) * 16 + b / 16),
            if bytes.len() > 1 {
                base64_char((b % 16) * 4 + c / 64)
            } else {
                '='
            },
            if bytes.len() > 2 {
                base64_char(c % 64)
            } else {
                '='
            },
        ];
        if bytes.len() <= 3 {
            group
        } else {
            group + base64(bytes.skip(3))
        }
    }
}

/// `base64::engine::general_purpose::STANDARD`: the bytes in Base64, with padding.
#[verifier::external_body]
pub(crate) fn encode_base64(bytes: &[u8]) -> (r: String)
    requires
        4 * bytes@.len() <= usize::MAX,
    ensures
        r@ == base64(bytes@),
{
    base64::engine::general_purpose::STANDARD.encode(bytes)
}

// ---------------------------------------------------------------------------
// Identifiers
// ---------------------------------------------------------------------------

/// A hexadecimal digit in small letters.
pub open spec fn is_hex(c: char) -> bool {
    '0' <= c <= '9' || 'a' <= c <= 'f'
}

/// Thirty-two hexadecimal digits.
pub open spec fn plain_id(s: Seq<char>) -> bool {
    s.len() == 32 && forall|i: int| 0 <= i < 32 ==> is_hex(#[trigger] s[i])
}

/// Thirty-two hexadecimal digits, with hyphens behind the 8th, 12th, 16th and 20th.
pub open spec fn hyphenated_id(s: Seq<char>) -> bool {
    s.len() == 36 && forall|i: int|
        0 <= i < 36 ==> if i == 8 || i == 13 || i == 18 || i == 23 {
            #[trigger] s[i] == '-'
        } else {
            is_hex(s[i])
        }
}

/// `uuid::Uuid::new_v4` in its simple form: random, so nothing is said but its shape.
#[verifier::external_body]
pub(crate) fn new_plain_id() -> (s: String)
    ensures
        plain_id(s@),
{
    uuid::Uuid::new_v4().simple().to_string()
}

/// `uuid::Uuid::new_v4` in its hyphenated form: random, so nothing is said but its shape.
#[verifier::external_body]
pub(crate) fn new_hyphenated_id() -> (s: String)
    ensures
        hyphenated_id(s@),
{
    uuid::Uuid::new_v4().to_string()
}

// ---------------------------------------------------------------------------
// Percent-encoding
// ---------------------------------------------------------------------------

/// Characters that stand for themselves in RFC 3986.
pub open spec fn unreserved(b: u8) -> bool {
    65 <= b <= 90 || 97 <= b <= 122 || 48 <= b <= 57 || b == 45 || b == 95 || b == 46 || b == 126
}

/// The capital hexadecimal digit of `v < 16`.
pub open spec fn hex_upper(v: int) -> char {
    if v < 10 {
        (48 + v) as char
    } else {
        (65 + v - 10) as char
    }
}

/// One byte, as itself or as `%` and two hexadecimal digits.
pub open spec fn percent_byte(b: u8) -> Seq<char> {
    if unreserved(b) {
        seq![b as char]
    } else {
        seq!['%', hex_upper(b as int / 16), hex_upper(b as int % 16)]
    }
}

/// The bytes one after the other.
pub open spec fn percent_bytes(bytes: Seq<u8>) -> Seq<char>
    decreases bytes.len(),
{
    if bytes.len() == 0 {
        Seq::empty()
    } else {
        percent_bytes(bytes.drop_last()) + percent_byte(bytes.last())
    }
}

/// The UTF-8 bytes of the text, percent-encoded.
pub open spec fn percent_encoded(s: Seq<char>) -> Seq<char> {
    percent_bytes(vstd::utf8::encode_utf8(s))
}

/// The capital hexadecimal digit.
fn hex_char(v: u8) -> (c: char)
    requires
        v < 16,
    ensures
        c == hex_upper(v as int),
{
    if v < 10 {
        (48u8 + v) as char
    } else {
        (55u8 + v) as char
    }
}

/// Percent-encodes the text by RFC 3986: letters, digits and `-_.~` stay as they are.
pub fn percent_encode(s: &str) -> (r: String)
    ensures
        r@ == percent_encoded(s@),
{
    let bytes = s.as_bytes();
    let mut out = String::new();
    let mut i: usize = 0;
    while i < bytes.len()
        invariant
            i <= bytes.len(),
            out@ == percent_bytes(bytes@.take(i as int)),
        decreases bytes.len() - i,
    {
        let b: u8 = bytes[i];
        let ghost before = out@;
        assert(bytes@.take(i + 1).drop_last() =~= bytes@.take(i as int));
        assert(bytes@.take(i + 1).last() == b);
        if (65 <= b && b <= 90) || (97 <= b && b <= 122) || (48 <= b && b <= 57) || b == 45 || b == 95
            || b == 46 || b == 126 {
            out.push(b as char);
        } else {
            out.push('%');
            out.push(hex_char(b / 16));
            out.push(hex_char(b % 16));
        }
        assert(out@ =~= before + percent_byte(b));
        i = i + 1;
    }
    assert(bytes@.take(i as int) =~= bytes@);
    out
}

/// A character that stands for itself, or `%`.
pub open spec fn url_safe(c: char) -> bool {
    c == '%' || (c as u32 <= 127 && unreserved(c as u8))
}

/// A percent-encoded text holds only unreserved characters and `%`: it needs no further quoting.
pub proof fn law_percent_encoded_is_safe(s: Seq<char>)
    ensures
        forall|i: int| 0 <= i < percent_encoded(s).len() ==> url_safe(#[trigger] percent_encoded(s)[i]),
{
    lemma_percent_bytes_safe(vstd::utf8::encode_utf8(s));
}

/// The same of bytes.
proof fn lemma_percent_bytes_safe(bytes: Seq<u8>)
    ensures
        forall|i: int|
            0 <= i < percent_bytes(bytes).len() ==> url_safe(#[trigger] percent_bytes(bytes)[i]),
    decreases bytes.len(),
{
    if bytes.len() > 0 {
        lemma_percent_bytes_safe(bytes.drop_last());
        let a = percent_bytes(bytes.drop_last());
        let b = percent_byte(bytes.last());
        assert forall|i: int| 0 <= i < percent_bytes(bytes).len() implies url_safe(
            #[trigger] percent_bytes(bytes)[i],
        ) by {
            if i < a.len() {
                assert(url_safe(a[i]));
            } else {
                assert(percent_bytes(bytes)[i] == b[i - a.len()]);
            }
        }
    }
}

/// The value of a capital hexadecimal digit.
pub open spec fn hex_value(c: char) -> int {
    if '0' <= c <= '9' {
        c as int - 48
    } else {
        c as int - 55
    }
}

/// The bytes that a percent-encoded text stands for.
pub open spec fn percent_decoded(s: Seq<char>) -> Seq<u8>
    decreases s.len(),
{
    if s.len() == 0 {
        Seq::empty()
    } else if s[0] == '%' && s.len() >= 3 {
        seq![(hex_value(s[1]) * 16 + hex_value(s[2])) as u8] + percent_decoded(s.skip(3))
    } else {
        seq![s[0] as u8] + percent_decoded(s.skip(1))
    }
}

/// Percent-encoding loses nothing: the bytes of the text can be read back, so that two texts have
/// the same encoding only where they are the same.
pub proof fn law_percent_encoding_is_faithful(s: Seq<char>, t: Seq<char>)
    ensures
        percent_decoded(percent_encoded(s)) == vstd::utf8::encode_utf8(s),
        percent_encoded(s) == percent_encoded(t) ==> s == t,
{
    lemma_percent_decoded(vstd::utf8::encode_utf8(s), Seq::empty());
    lemma_percent_decoded(vstd::utf8::encode_utf8(t), Seq::empty());
    assert(percent_encoded(s) + Seq::<char>::empty() =~= percent_encoded(s));
    assert(percent_encoded(t) + Seq::<char>::empty() =~= percent_encoded(t));
    assert(vstd::utf8::encode_utf8(s) + Seq::<u8>::empty() =~= vstd::utf8::encode_utf8(s));
    assert(vstd::utf8::encode_utf8(t) + Seq::<u8>::empty() =~= vstd::utf8::encode_utf8(t));
    vstd::utf8::encode_utf8_decode_utf8(s);
    vstd::utf8::encode_utf8_decode_utf8(t);
}

/// The bytes are read back, whatever follows.
proof fn lemma_percent_decoded(bytes: Seq<u8>, rest: Seq<char>)
    ensures
        percent_decoded(percent_bytes(bytes) + rest) == bytes + percent_decoded(rest),
    decreases bytes.len(),
{
    if bytes.len() == 0 {
        assert(percent_bytes(bytes) + rest =~= rest);
        assert(bytes + percent_decoded(rest) =~= percent_decoded(rest));
    } else {
        let init = bytes.drop_last();
        let b = bytes.last();
        let tail = percent_byte(b) + rest;
        lemma_percent_decoded(init, tail);
        assert(percent_bytes(bytes) + rest =~= percent_bytes(init) + tail);
        if unreserved(b) {
            assert(tail[0] == b as char);
            assert(tail.skip(1) =~= rest);
            assert(b as char != '%');
            assert((b as char) as u8 == b);
        } else {
            assert(tail[0] == '%');
            assert(tail[1] == hex_upper(b as int / 16));
            assert(tail[2] == hex_upper(b as int % 16));
            assert(tail.skip(3) =~= rest);
            assert(hex_value(hex_upper(b as int / 16)) == b as int / 16);
            assert(hex_value(hex_upper(b as int % 16)) == b as int % 16);
        }
        assert(percent_decoded(tail) =~= seq![b] + percent_decoded(rest));
        assert(init + (seq![b] + percent_decoded(rest)) =~= bytes + percent_decoded(rest));
    }
}

} // verus!
