//! Domains.

use vstd::prelude::*;
use crate::cloud::aliyun::rpc;
use crate::cloud::aliyun::rpc::{ApiCall, Paged, RpcClient};
use crate::text;
use crate::time;
use crate::time::UtcTime;

verus! {

/// The version of the interface.
pub const DOMAIN_API_VERSION: &'static str = "2018-01-29";

/// A client of the product, which knows no regions.
#[derive(Debug)]
pub struct DomainClient {
    pub rpc: RpcClient,
}

/// A domain as the provider lists it.
#[derive(Debug)]
pub struct DomainItem {
    pub domain_name: String,
    /// When it expires, in Beijing time.
    pub expiration_date: String,
    pub auto_renew_enabled: bool,
}

/// A domain.
#[derive(Debug)]
pub struct DomainInfo {
    pub domain_name: String,
    /// When it expires, where that is known.
    pub expired_at: Option<UtcTime>,
    pub auto_renew: bool,
}

/// What is known of a domain.
pub struct DomainView {
    pub domain_name: Seq<char>,
    pub expired_at: Option<UtcTime>,
    pub auto_renew: bool,
}

impl View for DomainInfo {
    type V = DomainView;

    open spec fn view(&self) -> DomainView {
        DomainView {
            domain_name: self.domain_name@,
            expired_at: self.expired_at,
            auto_renew: self.auto_renew,
        }
    }
}

impl DomainInfo {
    /// Whether the expiry is an instant.
    pub open spec fn wf(&self) -> bool {
        self.expired_at matches Some(t) ==> t.wf()
    }
}

/// The instant of an expiry in Beijing time: nothing of an empty text or of one that is no time.
pub open spec fn domain_expiry(s: Seq<char>) -> Option<(i64, u32)> {
    if s.len() == 0 {
        None
    } else {
        time::pattern_instant(s + " +08:00"@, "%Y-%m-%d %H:%M:%S %z"@)
    }
}

/// Reads an expiry in Beijing time.
pub fn parse_domain_expiration(s: &str) -> (r: Option<UtcTime>)
    ensures
        time::opt_instant(r) == domain_expiry(s@),
        r matches Some(t) ==> t.wf(),
{
    if s.is_empty() {
        return None;
    }
    let mut t = s.to_owned();
    t.append(" +08:00");
    time::parse_by_pattern(t.as_str(), "%Y-%m-%d %H:%M:%S %z")
}

/// What is known of a listed domain.
pub struct DomainItemView {
    pub domain_name: Seq<char>,
    pub expiration_date: Seq<char>,
    pub auto_renew_enabled: bool,
}

impl View for DomainItem {
    type V = DomainItemView;

    open spec fn view(&self) -> DomainItemView {
        DomainItemView {
            domain_name: self.domain_name@,
            expiration_date: self.expiration_date@,
            auto_renew_enabled: self.auto_renew_enabled,
        }
    }
}

/// The listed domain.
pub open spec fn domain_of(i: DomainItemView) -> DomainView {
    DomainView {
        domain_name: i.domain_name,
        expired_at: time::instant(domain_expiry(i.expiration_date)),
        auto_renew: i.auto_renew_enabled,
    }
}

/// The listed domains.
pub open spec fn domains_of(items: Seq<DomainItemView>) -> Seq<DomainView> {
    Seq::new(items.len(), |k: int| domain_of(items[k]))
}

/// The domains that came so far, and the page to ask for next.
pub struct DomainPager {
    pub page: i32,
    pub domains: Vec<DomainInfo>,
}

/// What has come so far.
pub struct DomainPagerView {
    pub page: int,
    pub domains: Seq<DomainView>,
}

impl View for DomainPager {
    type V = DomainPagerView;

    open spec fn view(&self) -> DomainPagerView {
        DomainPagerView { page: self.page as int, domains: text::views(self.domains@) }
    }
}

/// Before the first page.
pub open spec fn first_page() -> DomainPagerView {
    DomainPagerView { page: 1, domains: Seq::empty() }
}

impl rpc::Paged for DomainPagerView {
    type Page = (Seq<DomainItemView>, i32);

    open spec fn after(self, page: (Seq<DomainItemView>, i32)) -> DomainPagerView {
        DomainPagerView {
            page: if self.last(page) {
                self.page
            } else {
                self.page + 1
            },
            domains: self.domains + domains_of(page.0),
        }
    }

    open spec fn last(self, page: (Seq<DomainItemView>, i32)) -> bool {
        rpc::wrapped_len(self.domains.len() + page.0.len()) >= page.1 || rpc::wrapped_len(
            page.0.len(),
        ) == 0
    }
}

/// Whether the page is the last: as many domains have come as it says that there are, or it brings
/// none.
pub open spec fn is_last_page(pages: Seq<(Seq<DomainItemView>, i32)>, k: int) -> bool {
    rpc::wrapped_len(rpc::items_of_pages(pages.take(k + 1)).len()) >= pages[k].1 || rpc::wrapped_len(
        pages[k].0.len(),
    ) == 0
}

/// What has been read with all of the pages.
proof fn lemma_pages_read(pages: Seq<(Seq<DomainItemView>, i32)>)
    ensures
        rpc::after_all(first_page(), pages).domains == domains_of(rpc::items_of_pages(pages)),
        (forall|j: int| 0 <= j < pages.len() ==> !#[trigger] is_last_page(pages, j))
            ==> rpc::after_all(first_page(), pages).page == pages.len() + 1,
    decreases pages.len(),
{
    if pages.len() > 0 {
        let init = pages.drop_last();
        lemma_pages_read(init);
        assert(domains_of(rpc::items_of_pages(pages)) =~= domains_of(rpc::items_of_pages(init))
            + domains_of(pages.last().0));
        if forall|j: int| 0 <= j < pages.len() ==> !#[trigger] is_last_page(pages, j) {
            assert forall|j: int| 0 <= j < init.len() implies !#[trigger] is_last_page(init, j) by {
                assert(init.take(j + 1) =~= pages.take(j + 1));
                assert(!is_last_page(pages, j));
            }
            assert(pages.take(pages.len() as int) =~= pages);
            assert(!is_last_page(pages, pages.len() - 1));
        }
    } else {
        assert(domains_of(rpc::items_of_pages(pages)) =~= Seq::<DomainView>::empty());
    }
}

/// Reading page by page gives the domains of the pages in their order, and ends with the first page
/// with which as many have come as it says that there are, or that brings none. The pages are asked
/// for by number, from one on.
pub proof fn law_domain_pages(pages: Seq<(Seq<DomainItemView>, i32)>, k: int)
    requires
        0 <= k <= pages.len(),
        forall|j: int| 0 <= j < k ==> !#[trigger] is_last_page(pages, j),
        k < pages.len() ==> is_last_page(pages, k),
    ensures
        rpc::read_pages(first_page(), pages) == if k < pages.len() {
            (
                DomainPagerView {
                    page: k + 1,
                    domains: domains_of(rpc::items_of_pages(pages.take(k + 1))),
                },
                true,
            )
        } else {
            (
                DomainPagerView { page: k + 1, domains: domains_of(rpc::items_of_pages(pages)) },
                false,
            )
        },
{
    let start = first_page();
    assert forall|j: int| 0 <= j < pages.len() implies #[trigger] rpc::ends_at(start, pages, j)
        == is_last_page(pages, j) by {
        lemma_pages_read(pages.take(j));
        assert(pages.take(j + 1).drop_last() =~= pages.take(j));
    }
    rpc::law_reading_ends(start, pages, k);
    let before = pages.take(k);
    assert forall|j: int| 0 <= j < before.len() implies !#[trigger] is_last_page(before, j) by {
        assert(before.take(j + 1) =~= pages.take(j + 1));
        assert(!is_last_page(pages, j));
    }
    lemma_pages_read(before);
    if k < pages.len() {
        lemma_pages_read(pages.take(k + 1));
        assert(pages.take(k + 1).drop_last() =~= before);
        assert(rpc::ends_at(start, pages, k));
    } else {
        assert(before =~= pages);
    }
}

impl DomainPager {
    /// Before the first page.
    pub fn new() -> (p: DomainPager)
        ensures
            p@ == first_page(),
            p.domains@.len() == 0,
    {
        let p = DomainPager { page: 1, domains: Vec::new() };
        assert(p@.domains =~= Seq::<DomainView>::empty());
        p
    }

    /// The number of the page to ask for.
    pub fn page_text(&self) -> (r: String)
        ensures
            r@ == text::dec_int(self.page as int),
    {
        text::print_i64(self.page as i64)
    }

    /// Takes a page in. True where it was the last: as many domains have come as there are, or
    /// none came.
    pub fn take_page(&mut self, items: Vec<DomainItem>, total: i32) -> (done: bool)
        requires
            old(self).page < i32::MAX,
        ensures
            final(self)@ == old(self)@.after((text::views(items@), total)),
            done == old(self)@.last((text::views(items@), total)),
            (forall|k: int| 0 <= k < old(self).domains@.len() ==> (#[trigger] old(self).domains@[k]).wf())
                ==> (forall|k: int|
                0 <= k < final(self).domains@.len() ==> (#[trigger] final(self).domains@[k]).wf()),
    {
        let fetched: i32 = rpc::len_i32(items.len());
        let ghost before = text::views(self.domains@);
        let ghost all = domains_of(text::views(items@));
        let ghost sound = forall|k: int| 0 <= k < self.domains@.len() ==> (#[trigger] self.domains@[k]).wf();
        assert(before + all.take(0) =~= before);
        for item in it: items
            invariant
                it.seq() == items@,
                self.page == old(self).page,
                all == domains_of(text::views(items@)),
                text::views(self.domains@) == before + all.take(it.index() as int),
                sound ==> forall|k: int|
                    0 <= k < self.domains@.len() ==> (#[trigger] self.domains@[k]).wf(),
        {
            let ghost n = it.index() as int;
            assert(text::views(items@)[n] == item@);
            let expired_at = parse_domain_expiration(item.expiration_date.as_str());
            let d = DomainInfo {
                domain_name: item.domain_name,
                expired_at,
                auto_renew: item.auto_renew_enabled,
            };
            proof {
                text::lemma_views_push(self.domains@, d);
                assert(before + all.take(n + 1) =~= (before + all.take(n)).push(d@));
            }
            self.domains.push(d);
        }
        assert(all.take(items@.len() as int) =~= all);
        if rpc::len_i32(self.domains.len()) >= total || fetched == 0 {
            true
        } else {
            self.page = self.page + 1;
            false
        }
    }
}

impl DomainClient {
    /// A client. Domains belong to no region.
    pub fn new(access_key_id: &str, access_key_secret: &str) -> (c: DomainClient)
        ensures
            c.rpc@ == (rpc::RpcView {
                access_key_id: access_key_id@,
                access_key_secret: access_key_secret@,
                region: ""@,
                product: "domain"@,
            }),
    {
        DomainClient { rpc: RpcClient::new(access_key_id, access_key_secret, "", "domain") }
    }

    /// The call for a page of the domains.
    pub fn list_domains<'a>(&self, page: &'a str) -> (c: ApiCall<'a>)
        ensures
            c@ == (rpc::CallView {
                action: "QueryDomainList"@,
                version: DOMAIN_API_VERSION@,
                params: seq![("PageNum"@, page@), ("PageSize"@, rpc::PAGE_SIZE_TEXT@)],
            }),
    {
        let c = ApiCall::plain("QueryDomainList", DOMAIN_API_VERSION).with("PageNum", page).with(
            "PageSize",
            rpc::PAGE_SIZE_TEXT,
        );
        assert(c@.params =~= seq![("PageNum"@, page@), ("PageSize"@, rpc::PAGE_SIZE_TEXT@)]);
        c
    }
}

} // verus!
