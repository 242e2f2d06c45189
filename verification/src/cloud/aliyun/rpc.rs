//! The RPC interface that all products share: signed requests, replies, pages.

use vstd::prelude::*;
use crate::cloud::aliyun::sign;
use crate::codec;
use crate::error::OpsError;
use crate::json;
use crate::json::{Field, Json};
use crate::text;
use crate::time;
use crate::time::UtcTime;

verus! {

/// One call of the interface.
#[derive(Debug)]
pub struct ApiCall<'a> {
    pub action: &'static str,
    pub version: &'static str,
    pub params: Vec<(&'a str, &'a str)>,
}

/// What a call asks for.
pub struct CallView {
    pub action: Seq<char>,
    pub version: Seq<char>,
    pub params: Seq<(Seq<char>, Seq<char>)>,
}

impl<'a> View for ApiCall<'a> {
    type V = CallView;

    open spec fn view(&self) -> CallView {
        CallView {
            action: self.action@,
            version: self.version@,
            params: sign::pairs(self.params@),
        }
    }
}

impl<'a> ApiCall<'a> {
    /// A call without parameters.
    pub fn plain(action: &'static str, version: &'static str) -> (c: ApiCall<'a>)
        ensures
            c@ == (CallView { action: action@, version: version@, params: Seq::empty() }),
    {
        let c = ApiCall { action, version, params: Vec::new() };
        assert(c@.params =~= Seq::<(Seq<char>, Seq<char>)>::empty());
        c
    }

    /// The call with one more parameter.
    pub fn with(self, key: &'a str, value: &'a str) -> (c: ApiCall<'a>)
        ensures
            c@ == (CallView { params: self@.params.push((key@, value@)), ..self@ }),
    {
        let ghost before = self@.params;
        let mut params = self.params;
        params.push((key, value));
        let c = ApiCall { action: self.action, version: self.version, params };
        assert(c@.params =~= before.push((key@, value@)));
        c
    }
}

/// A client of one product in one region.
#[derive(Debug)]
pub struct RpcClient {
    pub access_key_id: String,
    pub access_key_secret: String,
    pub region: String,
    /// What the host name begins with.
    pub product: String,
}

/// What a client knows.
pub struct RpcView {
    pub access_key_id: Seq<char>,
    pub access_key_secret: Seq<char>,
    pub region: Seq<char>,
    pub product: Seq<char>,
}

impl View for RpcClient {
    type V = RpcView;

    open spec fn view(&self) -> RpcView {
        RpcView {
            access_key_id: self.access_key_id@,
            access_key_secret: self.access_key_secret@,
            region: self.region@,
            product: self.product@,
        }
    }
}

/// The host of the product: in the region, or without a region the global one.
pub open spec fn endpoint(c: RpcView) -> Seq<char> {
    if c.region.len() == 0 {
        "https://"@ + c.product + ".aliyuncs.com/?"@
    } else {
        "https://"@ + c.product + "."@ + c.region + ".aliyuncs.com/?"@
    }
}

/// Name and value with an equals sign between.
pub open spec fn assignments(params: Seq<(Seq<char>, Seq<char>)>) -> Seq<Seq<char>> {
    Seq::new(params.len(), |i: int| params[i].0 + "="@ + params[i].1)
}

/// The address of a request with these parameters.
pub open spec fn request_url(c: RpcView, params: Seq<(Seq<char>, Seq<char>)>) -> Seq<char> {
    endpoint(c) + text::join(assignments(params), "&"@)
}

/// The parameters of the call as signed at the instant under the nonce.
pub open spec fn signed_call(c: RpcView, call: CallView, t: UtcTime, nonce: Seq<char>) -> Seq<
    (Seq<char>, Seq<char>),
> {
    sign::signed(
        c.access_key_secret,
        sign::request_params(
            c.access_key_id,
            call.action,
            call.version,
            c.region,
            call.params,
            time::strftime(t.secs, t.nanos, 0, "%Y-%m-%dT%H:%M:%SZ"@),
            nonce,
        ),
    )
}

/// Whether the status says that the request succeeded.
pub open spec fn http_ok(status: u16) -> bool {
    200 <= status <= 299
}

/// At most `max` characters of the text, dots behind where some are left out.
pub open spec fn shortened(s: Seq<char>, max: nat) -> Seq<char> {
    if s.len() <= max {
        s
    } else {
        s.take(max as int) + "..."@
    }
}

/// At most `max` characters of the text.
pub fn truncate(s: &str, max: usize) -> (r: String)
    ensures
        r@ == shortened(s@, max as nat),
{
    if s.unicode_len() <= max {
        s.to_owned()
    } else {
        let mut t = text::first_chars(s, max);
        t.append("...");
        t
    }
}

/// What a reply says went wrong, unless its code is absent, empty, `Success` or one of those that
/// say success.
pub open spec fn business_failure(
    fields: Seq<json::FieldView>,
    ok_codes: Seq<Seq<char>>,
) -> Option<Seq<char>> {
    match json::as_text(json::lookup(fields, "Code"@)) {
        None => None,
        Some(code) => if code.len() == 0 || code == "Success"@ || ok_codes.contains(code) {
            None
        } else {
            match json::as_text(json::lookup(fields, "Message"@)) {
                Some(msg) => if msg.len() == 0 {
                    Some(code)
                } else {
                    Some(code + ": "@ + msg)
                },
                None => Some(code),
            }
        },
    }
}

/// What a reply says went wrong.
pub fn business_error(fields: &Vec<Field>, ok_codes: &[&str]) -> (r: Option<String>)
    ensures
        text::opt_view(r) == business_failure(text::views(fields@), text::views(ok_codes@)),
{
    let code = match json::text_value(json::get(fields, "Code")) {
        Some(c) => c,
        None => {
            return None;
        },
    };
    if code.is_empty() || text::same(code, "Success") || text::contains_str(ok_codes, code) {
        return None;
    }
    let mut out = code.to_owned();
    if let Some(msg) = json::text_value(json::get(fields, "Message")) {
        if !msg.is_empty() {
            out.append(": ");
            out.append(msg);
        }
    }
    Some(out)
}

/// What becomes of a reply: whether it is accepted, or the message that says why not.
pub open spec fn reply_outcome(
    product: Seq<char>,
    action: Seq<char>,
    status: u16,
    body: Seq<char>,
    document: Result<json::JsonView, Seq<char>>,
    ok_codes: Seq<Seq<char>>,
) -> Result<(), Seq<char>> {
    if !http_ok(status) {
        Err(
            "阿里云 "@ + product + " API HTTP "@ + text::dec(status as nat) + " ("@ + action + "): "@
                + shortened(body, 500),
        )
    } else {
        match document {
            Err(e) => Err("响应解析失败 ("@ + action + "): "@ + e + " => "@ + shortened(body, 300)),
            Ok(d) => match business_failure(json::document_fields(d), ok_codes) {
                Some(m) => Err("阿里云 "@ + product + " 业务错误 "@ + m),
                None => Ok(()),
            },
        }
    }
}

/// What an outcome says.
pub open spec fn outcome(r: Result<(), OpsError>) -> Result<(), Seq<char>> {
    match r {
        Ok(u) => Ok(u),
        Err(e) => Err(e@),
    }
}

impl RpcClient {
    /// A client of the product in the region.
    pub fn new(access_key_id: &str, access_key_secret: &str, region: &str, product: &str) -> (c:
        RpcClient)
        ensures
            c@ == (RpcView {
                access_key_id: access_key_id@,
                access_key_secret: access_key_secret@,
                region: region@,
                product: product@,
            }),
    {
        RpcClient {
            access_key_id: access_key_id.to_owned(),
            access_key_secret: access_key_secret.to_owned(),
            region: region.to_owned(),
            product: product.to_owned(),
        }
    }

    /// The region.
    pub fn region(&self) -> (r: &str)
        ensures
            r@ == self@.region,
    {
        self.region.as_str()
    }

    /// The address of a request with these parameters.
    pub fn url_of(&self, params: &Vec<(String, String)>) -> (r: String)
        ensures
            r@ == request_url(self@, text::views(params@)),
    {
        let mut url = "https://".to_owned();
        url.append(self.product.as_str());
        if !self.region.as_str().is_empty() {
            url.append(".");
            url.append(self.region.as_str());
        }
        url.append(".aliyuncs.com/?");
        let ghost all = assignments(text::views(params@));
        let mut pieces: Vec<String> = Vec::new();
        let mut i: usize = 0;
        while i < params.len()
            invariant
                i <= params.len(),
                all == assignments(text::views(params@)),
                text::views(pieces@) == all.take(i as int),
            decreases params.len() - i,
        {
            assert(text::views(params@)[i as int] == params@[i as int]@);
            let mut piece = params[i].0.clone();
            piece.append("=");
            piece.append(params[i].1.as_str());
            proof {
                text::lemma_views_push(pieces@, piece);
                assert(all.take(i + 1) =~= all.take(i as int).push(piece@));
            }
            pieces.push(piece);
            i = i + 1;
        }
        assert(all.take(i as int) =~= all);
        let query = text::join_strings(&pieces, "&");
        url.append(query.as_str());
        url
    }

    /// The address of a signed request for the call, sent now. It always succeeds.
    pub fn call_url(&self, call: &ApiCall) -> (r: Result<String, OpsError>)
        ensures
            r is Ok,
            exists|t: UtcTime, nonce: Seq<char>|
                t.wf() && codec::hyphenated_id(nonce) && r->Ok_0@ == request_url(
                    self@,
                    #[trigger] signed_call(self@, call@, t, nonce),
                ),
    {
        let signed = sign::sign_params(
            self.access_key_id.as_str(),
            self.access_key_secret.as_str(),
            call.action,
            call.version,
            self.region.as_str(),
            call.params.as_slice(),
        );
        match signed {
            Ok(params) => {
                let url = self.url_of(&params);
                proof {
                    let (t, nonce) = choose|t: UtcTime, nonce: Seq<char>|
                        t.wf() && codec::hyphenated_id(nonce) && text::views(params@)
                            == #[trigger] sign::signed(
                            self@.access_key_secret,
                            sign::request_params(
                                self@.access_key_id,
                                call@.action,
                                call@.version,
                                self@.region,
                                call@.params,
                                time::strftime(t.secs, t.nanos, 0, "%Y-%m-%dT%H:%M:%SZ"@),
                                nonce,
                            ),
                        );
                    assert(text::views(params@) == signed_call(self@, call@, t, nonce));
                }
                Ok(url)
            },
            Err(e) => Err(e),
        }
    }

    /// Whether a reply is accepted, given what its body was read as.
    pub fn accept_document(
        &self,
        action: &str,
        status: u16,
        body: &str,
        document: Result<Json, String>,
        ok_codes: &[&str],
    ) -> (r: Result<(), OpsError>)
        ensures
            outcome(r) == reply_outcome(
                self@.product,
                action@,
                status,
                body@,
                json::read_view(document),
                text::views(ok_codes@),
            ),
    {
        if !(200 <= status && status <= 299) {
            let mut m = "阿里云 ".to_owned();
            m.append(self.product.as_str());
            m.append(" API HTTP ");
            let code = text::print_u64(status as u64);
            m.append(code.as_str());
            m.append(" (");
            m.append(action);
            m.append("): ");
            let t = truncate(body, 500);
            m.append(t.as_str());
            return Err(OpsError::new(m));
        }
        match document {
            Err(e) => {
                let mut m = "响应解析失败 (".to_owned();
                m.append(action);
                m.append("): ");
                m.append(e.as_str());
                m.append(" => ");
                let t = truncate(body, 300);
                m.append(t.as_str());
                Err(OpsError::new(m))
            },
            Ok(d) => {
                let fields = json::fields_of_document(d);
                match business_error(&fields, ok_codes) {
                    Some(err) => {
                        let mut m = "阿里云 ".to_owned();
                        m.append(self.product.as_str());
                        m.append(" 业务错误 ");
                        m.append(err.as_str());
                        Err(OpsError::new(m))
                    },
                    None => Ok(()),
                }
            },
        }
    }

    /// Whether the reply is accepted: a successful status, a JSON body, and a code that says
    /// success.
    pub fn accept_reply(&self, action: &str, status: u16, body: &str, ok_codes: &[&str]) -> (r:
        Result<(), OpsError>)
        ensures
            outcome(r) == reply_outcome(
                self@.product,
                action@,
                status,
                body@,
                json::json_document(body@),
                text::views(ok_codes@),
            ),
    {
        let document = json::read_json(body);
        self.accept_document(action, status, body, document, ok_codes)
    }
}

// ---------------------------------------------------------------------------
// Pages
// ---------------------------------------------------------------------------

/// How many items a page holds.
pub const PAGE_SIZE_TEXT: &'static str = "100";

/// The length as a 32-bit number, beyond which it wraps around.
pub open spec fn wrapped_len(n: nat) -> int {
    if n % 0x1_0000_0000 < 0x8000_0000 {
        (n % 0x1_0000_0000) as int
    } else {
        (n % 0x1_0000_0000) - 0x1_0000_0000
    }
}

/// The length as a 32-bit number.
pub fn len_i32(n: usize) -> (r: i32)
    ensures
        r == wrapped_len(n as nat),
{
    let m: u64 = n as u64 % 0x1_0000_0000;
    if m < 0x8000_0000 {
        m as i32
    } else {
        (m as i64 - 0x1_0000_0000) as i32
    }
}

/// What is read page by page.
pub trait Paged: Sized {
    /// What a page brings.
    type Page;

    /// What has been read with one more page.
    spec fn after(self, page: Self::Page) -> Self;

    /// Whether the page is the last.
    spec fn last(self, page: Self::Page) -> bool;
}

/// What has been read with all of the pages.
pub open spec fn after_all<S: Paged>(start: S, pages: Seq<S::Page>) -> S
    decreases pages.len(),
{
    if pages.len() == 0 {
        start
    } else {
        after_all(start, pages.drop_last()).after(pages.last())
    }
}

/// What has been read when the pages are taken one after the other until one is the last, and
/// whether one was.
pub open spec fn read_pages<S: Paged>(start: S, pages: Seq<S::Page>) -> (S, bool)
    decreases pages.len(),
{
    if pages.len() == 0 {
        (start, false)
    } else {
        let (before, done) = read_pages(start, pages.drop_last());
        if done {
            (before, true)
        } else {
            (before.after(pages.last()), before.last(pages.last()))
        }
    }
}

/// Whether the reading ends with the page.
pub open spec fn ends_at<S: Paged>(start: S, pages: Seq<S::Page>, k: int) -> bool {
    after_all(start, pages.take(k)).last(pages[k])
}

/// The reading takes the pages up to the first with which it ends, and no other; where there is
/// none, it takes them all and has not ended.
pub proof fn law_reading_ends<S: Paged>(start: S, pages: Seq<S::Page>, k: int)
    requires
        0 <= k <= pages.len(),
        forall|j: int| 0 <= j < k ==> !#[trigger] ends_at(start, pages, j),
        k < pages.len() ==> ends_at(start, pages, k),
    ensures
        read_pages(start, pages) == if k < pages.len() {
            (after_all(start, pages.take(k + 1)), true)
        } else {
            (after_all(start, pages), false)
        },
    decreases pages.len(),
{
    if pages.len() > 0 {
        let init = pages.drop_last();
        let n = if k < init.len() {
            k
        } else {
            init.len() as int
        };
        assert forall|j: int| 0 <= j < n implies !#[trigger] ends_at(start, init, j) by {
            assert(init.take(j) =~= pages.take(j));
            assert(!ends_at(start, pages, j));
        }
        if k < init.len() {
            assert(init.take(k) =~= pages.take(k));
            assert(init.take(k + 1) =~= pages.take(k + 1));
        } else {
            assert(pages.take(init.len() as int) =~= init);
            assert(pages.take(pages.len() as int) =~= pages);
            if k == pages.len() {
                assert(!ends_at(start, pages, init.len() as int));
            }
        }
        law_reading_ends(start, init, n);
    }
}

/// The items of the pages, one page after the other.
pub open spec fn items_of_pages<T>(pages: Seq<(Seq<T>, i32)>) -> Seq<T>
    decreases pages.len(),
{
    if pages.len() == 0 {
        Seq::empty()
    } else {
        items_of_pages(pages.drop_last()) + pages.last().0
    }
}

/// The items that came so far, and the page to ask for next.
pub struct Pager<T> {
    pub page: i32,
    pub items: Vec<T>,
}

/// What has come so far.
pub struct PagerView<T> {
    pub page: int,
    pub items: Seq<T>,
}

impl<T> View for Pager<T> {
    type V = PagerView<T>;

    open spec fn view(&self) -> PagerView<T> {
        PagerView { page: self.page as int, items: self.items@ }
    }
}

/// Before the first page.
pub open spec fn first_page<T>() -> PagerView<T> {
    PagerView { page: 1, items: Seq::empty() }
}

impl<T> Paged for PagerView<T> {
    type Page = (Seq<T>, i32);

    open spec fn after(self, page: (Seq<T>, i32)) -> PagerView<T> {
        PagerView {
            page: if self.last(page) {
                self.page
            } else {
                self.page + 1
            },
            items: self.items + page.0,
        }
    }

    open spec fn last(self, page: (Seq<T>, i32)) -> bool {
        wrapped_len((self.items + page.0).len()) >= page.1
    }
}

/// Whether with the page as many items have come as it says that there are.
pub open spec fn total_reached<T>(pages: Seq<(Seq<T>, i32)>, k: int) -> bool {
    wrapped_len(items_of_pages(pages.take(k + 1)).len()) >= pages[k].1
}

/// What has been read with all of the pages.
proof fn lemma_pages_read<T>(pages: Seq<(Seq<T>, i32)>)
    ensures
        after_all(first_page::<T>(), pages).items == items_of_pages(pages),
        (forall|j: int| 0 <= j < pages.len() ==> !#[trigger] total_reached(pages, j)) ==> after_all(
            first_page::<T>(),
            pages,
        ).page == pages.len() + 1,
    decreases pages.len(),
{
    if pages.len() > 0 {
        let init = pages.drop_last();
        lemma_pages_read(init);
        if forall|j: int| 0 <= j < pages.len() ==> !#[trigger] total_reached(pages, j) {
            assert forall|j: int| 0 <= j < init.len() implies !#[trigger] total_reached(init, j) by {
                assert(init.take(j + 1) =~= pages.take(j + 1));
                assert(!total_reached(pages, j));
            }
            assert(pages.take(pages.len() as int) =~= pages);
            assert(!total_reached(pages, pages.len() - 1));
        }
    }
}

/// Reading page by page gives the items of the pages in their order, and ends with the first page
/// with which as many have come as it says that there are. The pages are asked for by number, from
/// one on. Up to 2^31 - 1 items the count is exact.
pub proof fn law_pages<T>(pages: Seq<(Seq<T>, i32)>, k: int)
    requires
        0 <= k <= pages.len(),
        forall|j: int| 0 <= j < k ==> !#[trigger] total_reached(pages, j),
        k < pages.len() ==> total_reached(pages, k),
    ensures
        read_pages(first_page::<T>(), pages) == if k < pages.len() {
            (PagerView { page: k + 1, items: items_of_pages(pages.take(k + 1)) }, true)
        } else {
            (PagerView { page: k + 1, items: items_of_pages(pages) }, false)
        },
        forall|j: int|
            0 <= j < pages.len() && items_of_pages(pages.take(j + 1)).len() < 0x8000_0000 ==> (
            #[trigger] total_reached(pages, j) <==> items_of_pages(pages.take(j + 1)).len()
                >= pages[j].1),
{
    let start = first_page::<T>();
    assert forall|j: int| 0 <= j < pages.len() implies #[trigger] ends_at(start, pages, j)
        == total_reached(pages, j) by {
        lemma_pages_read(pages.take(j));
        assert(pages.take(j + 1).drop_last() =~= pages.take(j));
    }
    law_reading_ends(start, pages, k);
    let before = pages.take(k);
    assert forall|j: int| 0 <= j < before.len() implies !#[trigger] total_reached(before, j) by {
        assert(before.take(j + 1) =~= pages.take(j + 1));
        assert(!total_reached(pages, j));
    }
    lemma_pages_read(before);
    if k < pages.len() {
        assert(pages.take(k + 1).drop_last() =~= before);
        assert(ends_at(start, pages, k));
    } else {
        assert(before =~= pages);
    }
}

impl<T> Pager<T> {
    /// Before the first page.
    pub fn new() -> (p: Pager<T>)
        ensures
            p@ == first_page::<T>(),
    {
        Pager { page: 1, items: Vec::new() }
    }

    /// The number of the page to ask for.
    pub fn page_text(&self) -> (r: String)
        ensures
            r@ == text::dec_int(self.page as int),
    {
        text::print_i64(self.page as i64)
    }

    /// Takes a page in. True where it was the last: as many items have come as there are.
    pub fn take_page(&mut self, items: Vec<T>, total: i32) -> (done: bool)
        requires
            old(self).page < i32::MAX,
        ensures
            final(self)@ == old(self)@.after((items@, total)),
            done == old(self)@.last((items@, total)),
    {
        let mut items = items;
        self.items.append(&mut items);
        if len_i32(self.items.len()) >= total {
            true
        } else {
            self.page = self.page + 1;
            false
        }
    }
}

/// The parameters of a call followed by those that name the page.
pub fn page_call<'a>(call: ApiCall<'a>, page: &'a str) -> (c: ApiCall<'a>)
    ensures
        c@ == (CallView {
            params: call@.params.push(("PageNumber"@, page@)).push(("PageSize"@, PAGE_SIZE_TEXT@)),
            ..call@
        }),
{
    call.with("PageNumber", page).with("PageSize", PAGE_SIZE_TEXT)
}

// ---------------------------------------------------------------------------
// Times
// ---------------------------------------------------------------------------

/// The expiry that a reply states: nothing of an empty text or of one that is no time.
pub open spec fn expiry_time(s: Seq<char>) -> Option<(i64, u32)> {
    if s.len() == 0 {
        None
    } else {
        time::rfc3339_instant(s)
    }
}

/// Reads an expiry.
pub fn parse_expired_time(s: &str) -> (r: Option<UtcTime>)
    ensures
        time::opt_instant(r) == expiry_time(s@),
        r matches Some(t) ==> t.wf(),
{
    if s.is_empty() {
        None
    } else {
        time::parse_rfc3339(s)
    }
}

} // verus!
