//! Requests to the provider and what becomes of the replies.

use vstd::prelude::*;
use crate::cloud::aliyun::rpc;
use crate::cloud::aliyun::sign;
use crate::codec;
use crate::json;
use crate::sort;
use crate::text;
use crate::time;
use crate::time::UtcTime;

verus! {

// ---------------------------------------------------------------------------
// Percent-encoding
// ---------------------------------------------------------------------------

/// The capital hexadecimal digits in their order.
pub open spec fn hex_digits() -> Seq<char> {
    seq!['0', '1', '2', '3', '4', '5', '6', '7', '8', '9', 'A', 'B', 'C', 'D', 'E', 'F']
}

/// Each byte is encoded by itself: letters and digits of ASCII and `-`, `_`, `.`, `~` as they are,
/// every other one as `%` and its two hexadecimal digits.
pub proof fn law_percent_encoding_of_bytes(bytes: Seq<u8>, b: u8)
    ensures
        codec::percent_bytes(Seq::empty()) == Seq::<char>::empty(),
        65 <= b <= 90 || 97 <= b <= 122 || 48 <= b <= 57 || b == 45 || b == 46 || b == 95 || b == 126
            ==> codec::percent_bytes(bytes.push(b)) == codec::percent_bytes(bytes).push(b as char),
        !(65 <= b <= 90 || 97 <= b <= 122 || 48 <= b <= 57 || b == 45 || b == 46 || b == 95 || b == 126)
            ==> codec::percent_bytes(bytes.push(b)) == codec::percent_bytes(bytes) + seq![
            '%',
            hex_digits()[b as int / 16],
            hex_digits()[b as int % 16],
        ],
{
    assert(bytes.push(b).drop_last() =~= bytes);
    if codec::unreserved(b) {
        assert(codec::percent_bytes(bytes.push(b)) =~= codec::percent_bytes(bytes).push(b as char));
    } else {
        let h = b as int / 16;
        let l = b as int % 16;
        assert(codec::hex_upper(h) == hex_digits()[h]);
        assert(codec::hex_upper(l) == hex_digits()[l]);
    }
}

/// A text is encoded by its UTF-8 bytes, all of them.
pub proof fn law_percent_encoding_of_texts(s: Seq<char>)
    ensures
        codec::percent_encoded(s) == codec::percent_bytes(vstd::utf8::encode_utf8(s)),
{
}

/// The sixty-four characters of Base64 in their order.
pub open spec fn base64_digits() -> Seq<char> {
    "ABCDEFGHIJKLMNOPQRSTUVWXYZabcdefghijklmnopqrstuvwxyz0123456789+/"@
}

/// Base64: each three bytes are four digits of six bits each; one or two bytes at the end are filled up
/// with zeros, and with equals signs to four characters.
pub proof fn law_base64(a: u8, b: u8, c: u8, rest: Seq<u8>)
    ensures
        ({
            let d = base64_digits();
            let n = a * 65536 + b * 256 + c;
            &&& d.len() == 64
            &&& codec::base64(Seq::empty()).len() == 0
            &&& codec::base64(seq![a, b, c] + rest) == seq![
                d[n / 262144],
                d[n / 4096 % 64],
                d[n / 64 % 64],
                d[n % 64],
            ] + codec::base64(rest)
            &&& codec::base64(seq![a, b]) == seq![
                d[a as int / 4],
                d[a as int % 4 * 16 + b as int / 16],
                d[b as int % 16 * 4],
                '=',
            ]
            &&& codec::base64(seq![a]) == seq![d[a as int / 4], d[a as int % 4 * 16], '=', '=']
        }),
{
    let d = base64_digits();
    let n = a * 65536 + b * 256 + c;
    let x = a as int;
    let y = b as int;
    let z = c as int;
    lemma_six_bits(x, y, z);
    lemma_base64_digit(x / 4);
    lemma_base64_digit((x % 4) * 16 + y / 16);
    lemma_base64_digit((y % 16) * 4 + z / 64);
    lemma_base64_digit(z % 64);
    lemma_base64_digit((y % 16) * 4);
    lemma_base64_digit((x % 4) * 16);
    let s = seq![a, b, c] + rest;
    assert(s[0] == a && s[1] == b && s[2] == c);
    assert(s.skip(3) =~= rest);
    let group = seq![d[n / 262144], d[n / 4096 % 64], d[n / 64 % 64], d[n % 64]];
    if rest.len() == 0 {
        assert(codec::base64(rest) =~= Seq::<char>::empty());
    }
    assert(codec::base64(s) =~= group + codec::base64(rest));
    assert(codec::base64(seq![a, b]) =~= seq![
        d[x / 4],
        d[x % 4 * 16 + y / 16],
        d[y % 16 * 4],
        '=',
    ]);
    assert(codec::base64(seq![a]) =~= seq![d[x / 4], d[x % 4 * 16], '=', '=']);
}

/// Three bytes as four numbers of six bits.
proof fn lemma_six_bits(x: int, y: int, z: int)
    requires
        0 <= x < 256,
        0 <= y < 256,
        0 <= z < 256,
    ensures
        ({
            let n = x * 65536 + y * 256 + z;
            &&& n / 262144 == x / 4
            &&& n / 4096 % 64 == (x % 4) * 16 + y / 16
            &&& n / 64 % 64 == (y % 16) * 4 + z / 64
            &&& n % 64 == z % 64
        }),
{
    let n = x * 65536 + y * 256 + z;
    let k = 64 * (x / 4) + (16 * (x % 4) + y / 16);
    let m = 64 * k + (4 * (y % 16) + z / 64);
    assert(n == 64 * m + z % 64);
    lemma_quotient(n, m, z % 64, 64);
    lemma_quotient(m, k, 4 * (y % 16) + z / 64, 64);
    lemma_quotient(k, x / 4, 16 * (x % 4) + y / 16, 64);
    lemma_quotient(n, k, 64 * (4 * (y % 16) + z / 64) + z % 64, 4096);
    lemma_quotient(n, x / 4, 4096 * (16 * (x % 4) + y / 16) + 64 * (4 * (y % 16) + z / 64) + z % 64, 262144);
}

/// Quotient and remainder.
proof fn lemma_quotient(n: int, q: int, r: int, d: int)
    requires
        d > 0,
        n == d * q + r,
        0 <= r < d,
    ensures
        n / d == q,
        n % d == r,
{
    assert(d * q == q * d) by (nonlinear_arith);
    vstd::arithmetic::div_mod::lemma_fundamental_div_mod_converse(n, d, q, r);
}

/// The digit for six bits.
proof fn lemma_base64_digit(v: int)
    requires
        0 <= v < 64,
    ensures
        base64_digits().len() == 64,
        codec::base64_char(v) == base64_digits()[v],
{
    reveal_strlit("ABCDEFGHIJKLMNOPQRSTUVWXYZabcdefghijklmnopqrstuvwxyz0123456789+/");
}

// ---------------------------------------------------------------------------
// Signatures
// ---------------------------------------------------------------------------

/// The parts of the canonical query: each parameter, name and value encoded, with an equals sign
/// between.
pub open spec fn canonical_parts(params: Seq<(Seq<char>, Seq<char>)>) -> Seq<Seq<char>> {
    Seq::new(
        params.len(),
        |i: int| codec::percent_encoded(params[i].0) + "="@ + codec::percent_encoded(params[i].1),
    )
}

/// The signature stands last, encoded, and is the Base64 of the HMAC-SHA1 under the whole secret with
/// an ampersand behind it, however long the secret is, over the method, the path and the query of all
/// parameters in the order of their names.
pub proof fn law_signature(secret: Seq<char>, params: Seq<(Seq<char>, Seq<char>)>)
    ensures
        ({
            let sorted = sort::stable_sort(
                params,
                |a: (Seq<char>, Seq<char>), b: (Seq<char>, Seq<char>)| text::text_le(a.0, b.0),
            );
            let message = "GET&"@ + codec::percent_encoded("/"@) + "&"@ + codec::percent_encoded(
                text::join(canonical_parts(sorted), "&"@),
            );
            let mac = codec::hmac_sha1(
                vstd::utf8::encode_utf8(secret + "&"@),
                vstd::utf8::encode_utf8(message),
            );
            let r = sign::signed(secret, params);
            &&& r.len() == params.len() + 1
            &&& r.last() == ("Signature"@, codec::percent_encoded(codec::base64(mac)))
            &&& forall|i: int|
                0 <= i < params.len() ==> #[trigger] r[i] == (
                    sorted[i].0,
                    codec::percent_encoded(sorted[i].1),
                )
        }),
{
    let sorted = sign::sorted_params(params);
    assert(sign::query_pieces(sorted) =~= canonical_parts(sorted));
    sign::law_signed_request(secret, params);
}

/// A request has the nine parameters that every one has, each with its value, and then those of the
/// call, all of them in their order.
pub proof fn law_parameters_of_a_request(
    id: Seq<char>,
    action: Seq<char>,
    version: Seq<char>,
    region: Seq<char>,
    extra: Seq<(Seq<char>, Seq<char>)>,
    timestamp: Seq<char>,
    nonce: Seq<char>,
)
    ensures
        ({
            let r = sign::request_params(id, action, version, region, extra, timestamp, nonce);
            &&& r.len() == 9 + extra.len()
            &&& r.contains(("Action"@, action))
            &&& r.contains(("Version"@, version))
            &&& r.contains(("Format"@, "JSON"@))
            &&& r.contains(("AccessKeyId"@, id))
            &&& r.contains(("SignatureMethod"@, "HMAC-SHA1"@))
            &&& r.contains(("SignatureNonce"@, nonce))
            &&& r.contains(("SignatureVersion"@, "1.0"@))
            &&& r.contains(("Timestamp"@, timestamp))
            &&& r.contains(("RegionId"@, region))
            &&& r.skip(9) == extra
        }),
{
    let r = sign::request_params(id, action, version, region, extra, timestamp, nonce);
    assert(r[0] == ("Action"@, action));
    assert(r[1] == ("Version"@, version));
    assert(r[2] == ("Format"@, "JSON"@));
    assert(r[3] == ("AccessKeyId"@, id));
    assert(r[4] == ("SignatureMethod"@, "HMAC-SHA1"@));
    assert(r[5] == ("SignatureNonce"@, nonce));
    assert(r[6] == ("SignatureVersion"@, "1.0"@));
    assert(r[7] == ("Timestamp"@, timestamp));
    assert(r[8] == ("RegionId"@, region));
    assert(r.skip(9) =~= extra);
}

/// The address of a request: the product's host in its region, or the global one without a region,
/// and behind the question mark all parameters, name and value with an equals sign between, the time
/// being that in UTC.
pub proof fn law_address_of_a_request(
    c: rpc::RpcView,
    call: rpc::CallView,
    t: UtcTime,
    nonce: Seq<char>,
)
    ensures
        ({
            let params = sign::signed(
                c.access_key_secret,
                sign::request_params(
                    c.access_key_id,
                    call.action,
                    call.version,
                    c.region,
                    call.params,
                    time::strftime(t.secs, t.nanos, 0, "%Y-%m-%dT%H:%M:%SZ"@),
                    nonce,
                ),
            );
            let query = text::join(
                Seq::new(params.len(), |i: int| params[i].0 + "="@ + params[i].1),
                "&"@,
            );
            rpc::request_url(c, rpc::signed_call(c, call, t, nonce)) == if c.region.len() == 0 {
                "https://"@ + c.product + ".aliyuncs.com/?"@ + query
            } else {
                "https://"@ + c.product + "."@ + c.region + ".aliyuncs.com/?"@ + query
            }
        }),
{
    let params = rpc::signed_call(c, call, t, nonce);
    assert(rpc::assignments(params) =~= Seq::new(
        params.len(),
        |i: int| params[i].0 + "="@ + params[i].1,
    ));
}

// ---------------------------------------------------------------------------
// Replies
// ---------------------------------------------------------------------------

/// The value of a key in a record is that of the first field with the key.
pub proof fn law_looking_up(fields: Seq<json::FieldView>, key: Seq<char>, k: int)
    requires
        0 <= k <= fields.len(),
        forall|j: int| 0 <= j < k ==> (#[trigger] fields[j]).key != key,
        k < fields.len() ==> fields[k].key == key,
    ensures
        json::lookup(fields, key) == if k < fields.len() {
            Some(fields[k].value)
        } else {
            None
        },
    decreases fields.len(),
{
    if fields.len() > 0 && k > 0 {
        assert(fields[0].key != key);
        let rest = fields.drop_first();
        assert forall|j: int| 0 <= j < k - 1 implies (#[trigger] rest[j]).key != key by {
            assert(fields[j + 1].key != key);
        }
        law_looking_up(rest, key, k - 1);
    }
}

/// A document has fields just where it is an object; a value is a text, a whole number or a number
/// just where it is one.
pub proof fn law_documents(fields: Seq<json::FieldView>, items: Seq<json::ItemView>, v: json::ScalarView)
    ensures
        json::document_fields(json::JsonView::One(json::ItemView::Record(fields))) == fields,
        json::document_fields(json::JsonView::List(items)).len() == 0,
        json::document_fields(json::JsonView::One(json::ItemView::Scalar(v))).len() == 0,
        json::as_text(Some(v)) == (match v {
            json::ScalarView::Text(s) => Some(s),
            _ => None,
        }),
        json::as_int(Some(v)) == (match v {
            json::ScalarView::Number { whole, bits } => whole,
            _ => None,
        }),
        json::as_text(None) is None,
        json::as_int(None) is None,
        json::as_real(None) is None,
        v matches json::ScalarView::Number { whole, bits: Some(b) } ==> json::as_real(Some(v)) == Some(
            crate::real64::Real64 { bits: b },
        ),
        !(v is Number) ==> json::as_real(Some(v)) is None,
{
}

/// A reply is accepted just where its status is one of 200 to 299, its body is JSON, and its code, if
/// it has one that is a text, is empty, `Success` or one that says success. Else what is told names
/// what went wrong, with no more than so many characters of the body.
pub proof fn law_replies(
    product: Seq<char>,
    action: Seq<char>,
    status: u16,
    body: Seq<char>,
    document: Result<json::JsonView, Seq<char>>,
    ok_codes: Seq<Seq<char>>,
)
    ensures
        ({
            let r = rpc::reply_outcome(product, action, status, body, document, ok_codes);
            let first = |n: int| if body.len() <= n { body } else { body.take(n) + "..."@ };
            if status < 200 || status > 299 {
                r == Err::<(), Seq<char>>(
                    "阿里云 "@ + product + " API HTTP "@ + text::dec(status as nat) + " ("@ + action + "): "@
                        + first(500),
                )
            } else {
                match document {
                    Err(e) => r == Err::<(), Seq<char>>(
                        "响应解析失败 ("@ + action + "): "@ + e + " => "@ + first(300),
                    ),
                    Ok(d) => {
                        let code = json::as_text(json::lookup(json::document_fields(d), "Code"@));
                        let message = json::as_text(
                            json::lookup(json::document_fields(d), "Message"@),
                        );
                        match code {
                            None => r is Ok,
                            Some(c) => if c.len() == 0 || c == "Success"@ || ok_codes.contains(c) {
                                r is Ok
                            } else if message matches Some(m) && m.len() > 0 {
                                r == Err::<(), Seq<char>>(
                                    "阿里云 "@ + product + " 业务错误 "@ + (c + ": "@ + message->0),
                                )
                            } else {
                                r == Err::<(), Seq<char>>("阿里云 "@ + product + " 业务错误 "@ + c)
                            },
                        }
                    },
                }
            }
        }),
{
}

/// An expiry is read as RFC 3339, the whole text of it; an empty one is none.
pub proof fn law_reading_expiries(s: Seq<char>)
    ensures
        rpc::expiry_time(s) == if s.len() == 0 {
            None
        } else {
            time::rfc3339_instant(s)
        },
        crate::cloud::aliyun::domain::domain_expiry(s) == if s.len() == 0 {
            None
        } else {
            time::pattern_instant(s + " +08:00"@, "%Y-%m-%d %H:%M:%S %z"@)
        },
{
}

/// What a document was read as, what a reply comes to, and what a value is, are taken as they are.
pub proof fn law_taken_as_read(
    d: Result<json::Json, String>,
    r: Result<(), crate::error::OpsError>,
    v: &json::Scalar,
    j: json::Json,
    i: json::Item,
    s: json::Scalar,
)
    ensures
        json::read_view(d) == (match d {
            Ok(x) => Ok::<json::JsonView, Seq<char>>(x@),
            Err(e) => Err::<json::JsonView, Seq<char>>(e@),
        }),
        rpc::outcome(r) == (match r {
            Ok(_) => Ok::<(), Seq<char>>(()),
            Err(e) => Err::<(), Seq<char>>(e.message@),
        }),
        json::opt_scalar(Some(v)) == Some(v@),
        json::opt_scalar(None) is None,
        j@ == (match j {
            json::Json::List(x) => json::JsonView::List(text::views(x@)),
            json::Json::One(x) => json::JsonView::One(x@),
        }),
        i@ == (match i {
            json::Item::Record(f) => json::ItemView::Record(text::views(f@)),
            json::Item::Scalar(x) => json::ItemView::Scalar(x@),
        }),
        s@ == (match s {
            json::Scalar::Text(t) => json::ScalarView::Text(t@),
            json::Scalar::Number { whole, bits } => json::ScalarView::Number { whole, bits },
            json::Scalar::Other => json::ScalarView::Other,
        }),
{
}

/// Whole seconds between two instants that lie in no leap second, a fraction dropped.
pub proof fn law_seconds_between(a: UtcTime, b: UtcTime)
    requires
        a.nanos < 1_000_000_000,
        b.nanos < 1_000_000_000,
    ensures
        ({
            let n = (a.secs - b.secs) * 1_000_000_000 + a.nanos - b.nanos;
            let s = time::seconds_between(a, b);
            &&& n >= 0 ==> s * 1_000_000_000 <= n < (s + 1) * 1_000_000_000
            &&& n < 0 ==> (s - 1) * 1_000_000_000 < n <= s * 1_000_000_000
        }),
        a.wf() <==> -8_334_601_228_800 <= a.secs <= 8_210_266_876_799,
{
}

} // verus!
