//! Request signatures of the RPC interface: HMAC-SHA1 over the sorted parameters.

use vstd::prelude::*;
use crate::codec;
use crate::error::OpsError;
use crate::sort;
use crate::text;
use crate::time;

verus! {

impl sort::Ranked for (String, String) {
    open spec fn ranks() -> spec_fn((Seq<char>, Seq<char>), (Seq<char>, Seq<char>)) -> bool {
        |a: (Seq<char>, Seq<char>), b: (Seq<char>, Seq<char>)| text::text_le(a.0, b.0)
    }

    fn at_most(&self, other: &Self) -> (r: bool) {
        text::at_most(self.0.as_str(), other.0.as_str())
    }

    proof fn lemma_ranking() {
        let le = Self::ranks();
        assert forall|a: (Seq<char>, Seq<char>), b: (Seq<char>, Seq<char>)| #[trigger] le(a, b) || le(b, a) by {
            text::lemma_bytes_le_total(
                vstd::utf8::encode_utf8(a.0),
                vstd::utf8::encode_utf8(b.0),
            );
        }
        assert forall|a: (Seq<char>, Seq<char>), b: (Seq<char>, Seq<char>), c: (Seq<char>, Seq<char>)| #[trigger]
            le(a, b) && #[trigger] le(b, c) implies le(a, c) by {
            text::lemma_bytes_le_trans(
                vstd::utf8::encode_utf8(a.0),
                vstd::utf8::encode_utf8(b.0),
                vstd::utf8::encode_utf8(c.0),
            );
        }
    }
}

/// The extra parameters of a request.
pub open spec fn pairs(extra: Seq<(&str, &str)>) -> Seq<(Seq<char>, Seq<char>)> {
    Seq::new(extra.len(), |i: int| (extra[i].0@, extra[i].1@))
}

/// All parameters of a request, before they are sorted.
pub open spec fn request_params(
    access_key_id: Seq<char>,
    action: Seq<char>,
    api_version: Seq<char>,
    region_id: Seq<char>,
    extra: Seq<(Seq<char>, Seq<char>)>,
    timestamp: Seq<char>,
    nonce: Seq<char>,
) -> Seq<(Seq<char>, Seq<char>)> {
    seq![
        ("Action"@, action),
        ("Version"@, api_version),
        ("Format"@, "JSON"@),
        ("AccessKeyId"@, access_key_id),
        ("SignatureMethod"@, "HMAC-SHA1"@),
        ("SignatureNonce"@, nonce),
        ("SignatureVersion"@, "1.0"@),
        ("Timestamp"@, timestamp),
        ("RegionId"@, region_id),
    ] + extra
}

/// The parameter as a piece of the query.
pub open spec fn query_piece(p: (Seq<char>, Seq<char>)) -> Seq<char> {
    codec::percent_encoded(p.0) + "="@ + codec::percent_encoded(p.1)
}

/// The pieces of the query.
pub open spec fn query_pieces(params: Seq<(Seq<char>, Seq<char>)>) -> Seq<Seq<char>> {
    Seq::new(params.len(), |i: int| query_piece(params[i]))
}

/// The query that is signed.
pub open spec fn canonical_query(params: Seq<(Seq<char>, Seq<char>)>) -> Seq<char> {
    text::join(query_pieces(params), "&"@)
}

/// What is signed.
pub open spec fn string_to_sign(params: Seq<(Seq<char>, Seq<char>)>) -> Seq<char> {
    "GET&"@ + codec::percent_encoded("/"@) + "&"@ + codec::percent_encoded(canonical_query(params))
}

/// The signature over the sorted parameters.
pub open spec fn signature(access_key_secret: Seq<char>, params: Seq<(Seq<char>, Seq<char>)>) -> Seq<char> {
    codec::base64(
        codec::hmac_sha1(
            vstd::utf8::encode_utf8(access_key_secret + "&"@),
            vstd::utf8::encode_utf8(string_to_sign(params)),
        ),
    )
}

/// The values percent-encoded, ready for a query.
pub open spec fn encoded_values(params: Seq<(Seq<char>, Seq<char>)>) -> Seq<(Seq<char>, Seq<char>)> {
    Seq::new(
        params.len(),
        |i: int| (params[i].0, codec::percent_encoded(params[i].1)),
    )
}

/// The parameters in the order in which they are signed.
pub open spec fn sorted_params(params: Seq<(Seq<char>, Seq<char>)>) -> Seq<(Seq<char>, Seq<char>)> {
    sort::stable_sort(params, |a: (Seq<char>, Seq<char>), b: (Seq<char>, Seq<char>)| text::text_le(a.0, b.0))
}

/// The signed parameters: sorted by name, with the values percent-encoded, the signature last.
pub open spec fn signed(access_key_secret: Seq<char>, params: Seq<(Seq<char>, Seq<char>)>) -> Seq<(Seq<char>, Seq<char>)> {
    encoded_values(sorted_params(params)).push(
        (
            "Signature"@,
            codec::percent_encoded(signature(access_key_secret, sorted_params(params))),
        ),
    )
}

/// A signed request holds the parameters of the request and nothing else but the signature, which
/// comes last; the parameters come in the order of their names; and the values hold only
/// characters that can stand in a query.
pub proof fn law_signed_request(access_key_secret: Seq<char>, params: Seq<(Seq<char>, Seq<char>)>)
    ensures
        ({
            let r = signed(access_key_secret, params);
            &&& r.len() == params.len() + 1
            &&& r.last().0 == "Signature"@
            &&& sorted_params(params).to_multiset() == params.to_multiset()
            &&& forall|i: int|
                0 <= i < params.len() ==> #[trigger] r[i] == (
                    sorted_params(params)[i].0,
                    codec::percent_encoded(sorted_params(params)[i].1),
                )
            &&& forall|i: int, j: int|
                0 <= i < j < params.len() ==> text::text_le((#[trigger] r[i]).0, (#[trigger] r[j]).0)
            &&& forall|i: int, k: int|
                0 <= i < r.len() && 0 <= k < r[i].1.len() ==> codec::url_safe(#[trigger] r[i].1[k])
        }),
{
    let le = |a: (Seq<char>, Seq<char>), b: (Seq<char>, Seq<char>)| text::text_le(a.0, b.0);
    <(String, String) as sort::Ranked>::lemma_ranking();
    sort::law_sort_ascending(params, le);
    sort::law_sort_permutes(params, le);
    let r = signed(access_key_secret, params);
    let sorted = sorted_params(params);
    assert(sorted == sort::stable_sort(params, le));
    assert forall|i: int, j: int| 0 <= i < j < params.len() implies text::text_le(
        (#[trigger] r[i]).0,
        (#[trigger] r[j]).0,
    ) by {
        assert(le(sorted[i], sorted[j]));
    }
    assert forall|i: int, k: int| 0 <= i < r.len() && 0 <= k < r[i].1.len() implies codec::url_safe(
        #[trigger] r[i].1[k],
    ) by {
        if i < params.len() {
            codec::law_percent_encoded_is_safe(sorted[i].1);
        } else {
            codec::law_percent_encoded_is_safe(signature(access_key_secret, sorted));
        }
    }
}

/// Percent-encodes the text by RFC 3986.
pub fn percent_encode(s: &str) -> (r: String)
    ensures
        r@ == codec::percent_encoded(s@),
{
    codec::percent_encode(s)
}

/// A parameter.
fn param(key: &str, value: &str) -> (p: (String, String))
    ensures
        p@ == (key@, value@),
{
    (key.to_owned(), value.to_owned())
}

/// Signs a request that is sent at the given time under the given nonce.
pub fn sign_params_at(
    access_key_id: &str,
    access_key_secret: &str,
    action: &str,
    api_version: &str,
    region_id: &str,
    extra: &[(&str, &str)],
    timestamp: &str,
    nonce: &str,
) -> (r: Vec<(String, String)>)
    ensures
        text::views(r@) == signed(
            access_key_secret@,
            request_params(
                access_key_id@,
                action@,
                api_version@,
                region_id@,
                pairs(extra@),
                timestamp@,
                nonce@,
            ),
        ),
{
    let mut params: Vec<(String, String)> = Vec::new();
    params.push(param("Action", action));
    params.push(param("Version", api_version));
    params.push(param("Format", "JSON"));
    params.push(param("AccessKeyId", access_key_id));
    params.push(param("SignatureMethod", "HMAC-SHA1"));
    params.push(param("SignatureNonce", nonce));
    params.push(param("SignatureVersion", "1.0"));
    params.push(param("Timestamp", timestamp));
    params.push(param("RegionId", region_id));
    let ghost all = request_params(
        access_key_id@,
        action@,
        api_version@,
        region_id@,
        pairs(extra@),
        timestamp@,
        nonce@,
    );
    assert(text::views(params@) =~= all.take(9));
    let mut i: usize = 0;
    while i < extra.len()
        invariant
            i <= extra.len(),
            all.len() == 9 + extra@.len(),
            forall|k: int| 9 <= k < all.len() ==> #[trigger] all[k] == pairs(extra@)[k - 9],
            text::views(params@) == all.take(9 + i),
        decreases extra.len() - i,
    {
        let p = param(extra[i].0, extra[i].1);
        proof {
            text::lemma_views_push(params@, p);
            assert(all[9 + i] == p@);
            assert(all.take(9 + i + 1) =~= all.take(9 + i).push(p@));
        }
        params.push(p);
        i = i + 1;
    }
    assert(all.take(9 + i) =~= all);
    let sorted = sort::sort_ranked(params);
    let ghost sv = text::views(sorted@);
    assert(sv == sorted_params(all));
    let mut pieces: Vec<String> = Vec::new();
    let mut out: Vec<(String, String)> = Vec::new();
    let mut j: usize = 0;
    while j < sorted.len()
        invariant
            j <= sorted.len(),
            sv == text::views(sorted@),
            text::views(pieces@) == query_pieces(sv).take(j as int),
            text::views(out@) == encoded_values(sv).take(j as int),
        decreases sorted.len() - j,
    {
        assert(sv[j as int] == sorted@[j as int]@);
        let value = percent_encode(sorted[j].1.as_str());
        let mut piece = percent_encode(sorted[j].0.as_str());
        piece.append("=");
        piece.append(value.as_str());
        let p: (String, String) = (sorted[j].0.clone(), value);
        proof {
            text::lemma_views_push(pieces@, piece);
            text::lemma_views_push(out@, p);
            assert(query_pieces(sv).take(j + 1) =~= query_pieces(sv).take(j as int).push(piece@));
            assert(encoded_values(sv).take(j + 1) =~= encoded_values(sv).take(j as int).push(p@));
        }
        pieces.push(piece);
        out.push(p);
        j = j + 1;
    }
    assert(query_pieces(sv).take(j as int) =~= query_pieces(sv));
    assert(encoded_values(sv).take(j as int) =~= encoded_values(sv));
    let canonical = text::join_strings(&pieces, "&");
    let mut to_sign = "GET&".to_owned();
    let slash = percent_encode("/");
    to_sign.append(slash.as_str());
    to_sign.append("&");
    let query = percent_encode(canonical.as_str());
    to_sign.append(query.as_str());
    let mut key = access_key_secret.to_owned();
    key.append("&");
    let mac = codec::mac_sha1(key.as_str().as_bytes(), to_sign.as_str().as_bytes());
    let digest = codec::encode_base64(mac.as_slice());
    let last: (String, String) = ("Signature".to_owned(), percent_encode(digest.as_str()));
    proof {
        text::lemma_views_push(out@, last);
    }
    out.push(last);
    out
}

/// Signs a request that is sent now: the parameters, ready to be put into the query. It always
/// succeeds.
pub fn sign_params(
    access_key_id: &str,
    access_key_secret: &str,
    action: &str,
    api_version: &str,
    region_id: &str,
    extra: &[(&str, &str)],
) -> (r: Result<Vec<(String, String)>, OpsError>)
    ensures
        r is Ok,
        exists|t: time::UtcTime, nonce: Seq<char>|
            t.wf() && codec::hyphenated_id(nonce) && text::views(r->Ok_0@) == #[trigger] signed(
                access_key_secret@,
                request_params(
                    access_key_id@,
                    action@,
                    api_version@,
                    region_id@,
                    pairs(extra@),
                    time::strftime(t.secs, t.nanos, 0, "%Y-%m-%dT%H:%M:%SZ"@),
                    nonce,
                ),
            ),
{
    let t = time::now();
    let timestamp = time::print_by_pattern(t, 0, "%Y-%m-%dT%H:%M:%SZ");
    let nonce = codec::new_hyphenated_id();
    Ok(
        sign_params_at(
            access_key_id,
            access_key_secret,
            action,
            api_version,
            region_id,
            extra,
            timestamp.as_str(),
            nonce.as_str(),
        ),
    )
}

} // verus!
