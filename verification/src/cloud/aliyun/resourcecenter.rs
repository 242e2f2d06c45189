//! Resource Center: the catalogue of what the account has in every region.

use vstd::prelude::*;
use crate::cloud::aliyun::rpc;
use crate::cloud::aliyun::rpc::{ApiCall, Paged, RpcClient};
use crate::text;

verus! {

/// The version of the interface.
pub const RC_API_VERSION: &'static str = "2022-12-01";

/// The type of ECS instances.
pub const TYPE_ECS_INSTANCE: &'static str = "ACS::ECS::Instance";

/// The type of SWAS instances.
pub const TYPE_SWAS_INSTANCE: &'static str = "ACS::SWAS::Instance";

/// A client of the product, which knows no regions.
#[derive(Debug)]
pub struct ResourceCenterClient {
    pub rpc: RpcClient,
}

/// A resource of the wanted type.
#[derive(Debug)]
pub struct CatalogResource {
    pub region_id: String,
}

impl View for CatalogResource {
    type V = Seq<char>;

    open spec fn view(&self) -> Seq<char> {
        self.region_id@
    }
}

/// A resource as the catalogue lists it.
#[derive(Debug)]
pub struct SearchResource {
    pub resource_type: String,
    pub region_id: String,
}

/// What the catalogue says of a resource.
pub struct ResourceView {
    pub resource_type: Seq<char>,
    pub region_id: Seq<char>,
}

impl View for SearchResource {
    type V = ResourceView;

    open spec fn view(&self) -> ResourceView {
        ResourceView { resource_type: self.resource_type@, region_id: self.region_id@ }
    }
}

/// The regions of the resources that are of the type. The catalogue lists others too, whatever
/// type it was asked for.
pub open spec fn regions_of_type(resources: Seq<ResourceView>, resource_type: Seq<char>) -> Seq<
    Seq<char>,
>
    decreases resources.len(),
{
    if resources.len() == 0 {
        Seq::empty()
    } else if resources.last().resource_type == resource_type {
        regions_of_type(resources.drop_last(), resource_type).push(resources.last().region_id)
    } else {
        regions_of_type(resources.drop_last(), resource_type)
    }
}

/// What has come of a search so far.
pub struct SearchView {
    pub resource_type: Seq<char>,
    pub next_token: Option<Seq<char>>,
    pub found: Seq<Seq<char>>,
}

impl View for CatalogSearch {
    type V = SearchView;

    open spec fn view(&self) -> SearchView {
        SearchView {
            resource_type: self.resource_type@,
            next_token: text::opt_view(self.next_token),
            found: text::views(self.found@),
        }
    }
}

/// Before the first page of a search for the type.
pub open spec fn new_search(resource_type: Seq<char>) -> SearchView {
    SearchView { resource_type, next_token: None, found: Seq::empty() }
}

/// Whether the page is the last: it has no token for another, or it is empty.
pub open spec fn is_last_page(page: (Seq<ResourceView>, Option<Seq<char>>)) -> bool {
    !(page.1 matches Some(t) && t.len() > 0 && page.0.len() > 0)
}

impl rpc::Paged for SearchView {
    type Page = (Seq<ResourceView>, Option<Seq<char>>);

    open spec fn after(self, page: (Seq<ResourceView>, Option<Seq<char>>)) -> SearchView {
        SearchView {
            resource_type: self.resource_type,
            next_token: if self.last(page) {
                self.next_token
            } else {
                page.1
            },
            found: self.found + regions_of_type(page.0, self.resource_type),
        }
    }

    open spec fn last(self, page: (Seq<ResourceView>, Option<Seq<char>>)) -> bool {
        is_last_page(page)
    }
}

/// The regions of the resources of the type, one page after the other.
pub open spec fn regions_of_pages(
    pages: Seq<(Seq<ResourceView>, Option<Seq<char>>)>,
    resource_type: Seq<char>,
) -> Seq<Seq<char>>
    decreases pages.len(),
{
    if pages.len() == 0 {
        Seq::empty()
    } else {
        regions_of_pages(pages.drop_last(), resource_type) + regions_of_type(
            pages.last().0,
            resource_type,
        )
    }
}

/// What has been read with all of the pages.
proof fn lemma_pages_read(
    pages: Seq<(Seq<ResourceView>, Option<Seq<char>>)>,
    resource_type: Seq<char>,
)
    ensures
        ({
            let r = rpc::after_all(new_search(resource_type), pages);
            &&& r.resource_type == resource_type
            &&& r.found == regions_of_pages(pages, resource_type)
            &&& pages.len() > 0 && !is_last_page(pages.last()) ==> r.next_token == pages.last().1
        }),
    decreases pages.len(),
{
    if pages.len() > 0 {
        lemma_pages_read(pages.drop_last(), resource_type);
    }
}

/// A search gives the regions of the resources of the type, page by page in their order, and ends
/// with the first page that has no token for another or is empty. The first page is asked for
/// without a token, each other one with the token of the page before it.
pub proof fn law_search_pages(
    resource_type: Seq<char>,
    pages: Seq<(Seq<ResourceView>, Option<Seq<char>>)>,
    k: int,
)
    requires
        0 <= k <= pages.len(),
        forall|j: int| 0 <= j < k ==> !is_last_page(#[trigger] pages[j]),
        k < pages.len() ==> is_last_page(pages[k]),
    ensures
        read_token(resource_type, pages, k) == if k == 0 {
            None
        } else {
            pages[k - 1].1
        },
        rpc::read_pages(new_search(resource_type), pages).1 == (k < pages.len()),
        rpc::read_pages(new_search(resource_type), pages).0.found == if k < pages.len() {
            regions_of_pages(pages.take(k + 1), resource_type)
        } else {
            regions_of_pages(pages, resource_type)
        },
{
    let start = new_search(resource_type);
    assert forall|j: int| 0 <= j < k implies !#[trigger] rpc::ends_at(start, pages, j) by {
        assert(!is_last_page(pages[j]));
    }
    rpc::law_reading_ends(start, pages, k);
    let before = pages.take(k);
    lemma_pages_read(before, resource_type);
    assert forall|j: int| 0 <= j < before.len() implies !#[trigger] rpc::ends_at(
        start,
        before,
        j,
    ) by {
        assert(!is_last_page(pages[j]));
    }
    rpc::law_reading_ends(start, before, k);
    if k > 0 {
        assert(before.last() == pages[k - 1]);
    }
    if k < pages.len() {
        lemma_pages_read(pages.take(k + 1), resource_type);
    } else {
        lemma_pages_read(pages, resource_type);
    }
}

/// The token that the page with the index is asked for with.
pub open spec fn read_token(
    resource_type: Seq<char>,
    pages: Seq<(Seq<ResourceView>, Option<Seq<char>>)>,
    k: int,
) -> Option<Seq<char>> {
    rpc::read_pages(new_search(resource_type), pages.take(k)).0.next_token
}

/// A search in progress: what was found, and the token of the page to ask for next.
pub struct CatalogSearch {
    pub resource_type: String,
    pub next_token: Option<String>,
    pub found: Vec<CatalogResource>,
}

impl CatalogSearch {
    /// A search for the type.
    pub fn new(resource_type: &str) -> (s: CatalogSearch)
        ensures
            s@ == new_search(resource_type@),
    {
        let s = CatalogSearch {
            resource_type: resource_type.to_owned(),
            next_token: None,
            found: Vec::new(),
        };
        assert(s@.found =~= Seq::<Seq<char>>::empty());
        s
    }

    /// Takes a page in. True where it was the last: it has no token for another, or it is empty.
    pub fn take_page(&mut self, resources: Vec<SearchResource>, next_token: Option<String>) -> (done:
        bool)
        ensures
            final(self)@ == old(self)@.after((text::views(resources@), text::opt_view(next_token))),
            done == is_last_page((text::views(resources@), text::opt_view(next_token))),
    {
        let count: usize = resources.len();
        let ghost all = text::views(resources@);
        let ghost before = text::views(self.found@);
        let ghost wanted = self.resource_type@;
        assert(before + regions_of_type(all.take(0), wanted) =~= before);
        for r in it: resources
            invariant
                it.seq() == resources@,
                all == text::views(resources@),
                self.resource_type@ == wanted,
                self.next_token == old(self).next_token,
                text::views(self.found@) == before + regions_of_type(
                    all.take(it.index() as int),
                    wanted,
                ),
        {
            let ghost i = it.index() as int;
            assert(all.take(i + 1).drop_last() =~= all.take(i));
            assert(all.take(i + 1).last() == r@);
            if text::same(r.resource_type.as_str(), self.resource_type.as_str()) {
                let c = CatalogResource { region_id: r.region_id };
                proof {
                    text::lemma_views_push(self.found@, c);
                    assert((before + regions_of_type(all.take(i), wanted)).push(c@) =~= before
                        + regions_of_type(all.take(i), wanted).push(c@));
                }
                self.found.push(c);
            }
        }
        assert(all.take(count as int) =~= all);
        match next_token {
            Some(t) => if !t.as_str().is_empty() && count > 0 {
                self.next_token = Some(t);
                false
            } else {
                true
            },
            None => true,
        }
    }
}

impl ResourceCenterClient {
    /// A client. The catalogue belongs to no region.
    pub fn new(access_key_id: &str, access_key_secret: &str) -> (c: ResourceCenterClient)
        ensures
            c.rpc@ == (rpc::RpcView {
                access_key_id: access_key_id@,
                access_key_secret: access_key_secret@,
                region: ""@,
                product: "resourcecenter"@,
            }),
    {
        ResourceCenterClient {
            rpc: RpcClient::new(access_key_id, access_key_secret, "", "resourcecenter"),
        }
    }

    /// The call for the next page of a search.
    pub fn search_resources<'a>(&self, search: &'a CatalogSearch) -> (c: ApiCall<'a>)
        ensures
            c@ == (rpc::CallView {
                action: "SearchResources"@,
                version: RC_API_VERSION@,
                params: match search@.next_token {
                    Some(t) => seq![
                        ("ResourceType"@, search.resource_type@),
                        ("MaxResults"@, "100"@),
                        ("NextToken"@, t),
                    ],
                    None => seq![
                        ("ResourceType"@, search.resource_type@),
                        ("MaxResults"@, "100"@),
                    ],
                },
            }),
    {
        let c = ApiCall::plain("SearchResources", RC_API_VERSION).with(
            "ResourceType",
            search.resource_type.as_str(),
        ).with("MaxResults", "100");
        assert(c@.params =~= seq![
            ("ResourceType"@, search.resource_type@),
            ("MaxResults"@, "100"@),
        ]);
        match &search.next_token {
            Some(t) => {
                let c = c.with("NextToken", t.as_str());
                assert(c@.params =~= seq![
                    ("ResourceType"@, search.resource_type@),
                    ("MaxResults"@, "100"@),
                    ("NextToken"@, t@),
                ]);
                c
            },
            None => c,
        }
    }
}

} // verus!
