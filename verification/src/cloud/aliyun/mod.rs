//! Alibaba Cloud: the regions of an account, and what is asked of all of them.

use vstd::prelude::*;
use crate::config::REGION_GLOBAL;
use crate::cloud::{Server, ServerView};
use crate::error::OpsError;
use crate::text;
use self::cms::CmsClient;
use self::ecs::EcsClient;
use self::resourcecenter::CatalogResource;
use self::swas::{servers_of, SwasClient, SwasInstance, SwasInstanceView};

pub mod cms;
pub mod domain;
pub mod driver;
pub mod ecs;
pub mod resourcecenter;
pub mod rpc;
pub mod sign;
pub mod swas;

verus! {

/// The region that is asked for the list of regions, which is the same everywhere.
pub const DISCOVERY_REGION: &'static str = "cn-hangzhou";

/// The clients of one region.
#[derive(Debug)]
pub struct RegionGroup {
    pub region: String,
    pub swas: SwasClient,
    pub ecs: EcsClient,
    pub cms: CmsClient,
}

impl RegionGroup {
    /// Whether the clients are those of the region, with the given keys.
    pub open spec fn serves(&self, id: Seq<char>, secret: Seq<char>, region: Seq<char>) -> bool {
        &&& self.region@ == region
        &&& self.swas.rpc@ == (rpc::RpcView {
            access_key_id: id,
            access_key_secret: secret,
            region,
            product: "swas"@,
        })
        &&& self.ecs.rpc@ == (rpc::RpcView {
            access_key_id: id,
            access_key_secret: secret,
            region,
            product: "ecs"@,
        })
        &&& self.cms.rpc@ == (rpc::RpcView {
            access_key_id: id,
            access_key_secret: secret,
            region,
            product: "metrics"@,
        })
    }

    /// The clients of the region.
    pub fn new(access_key_id: &str, access_key_secret: &str, region: &str) -> (g: RegionGroup)
        ensures
            g.serves(access_key_id@, access_key_secret@, region@),
    {
        RegionGroup {
            region: region.to_owned(),
            swas: SwasClient::new(access_key_id, access_key_secret, region),
            ecs: EcsClient::new(access_key_id, access_key_secret, region),
            cms: CmsClient::new(access_key_id, access_key_secret, region),
        }
    }
}

/// The account, in one region or in several.
#[derive(Debug)]
pub struct AliyunProvider {
    pub groups: Vec<RegionGroup>,
}

impl AliyunProvider {
    /// Whether the clients are those of the regions, in their order, with the given keys.
    pub open spec fn serves(&self, id: Seq<char>, secret: Seq<char>, regions: Seq<Seq<char>>) -> bool {
        &&& self.groups@.len() == regions.len()
        &&& forall|i: int|
            0 <= i < regions.len() ==> (#[trigger] self.groups@[i]).serves(id, secret, regions[i])
    }

    /// The account in the region, or, where that stands for all, in those that were discovered.
    pub fn new(
        access_key_id: &str,
        access_key_secret: &str,
        region: &str,
        discovered: &Vec<String>,
    ) -> (p: AliyunProvider)
        ensures
            p.serves(
                access_key_id@,
                access_key_secret@,
                regions_meant(region@, text::views(discovered@)),
            ),
    {
        let mut groups: Vec<RegionGroup> = Vec::new();
        if !is_global_region(region) {
            groups.push(RegionGroup::new(access_key_id, access_key_secret, region));
            return AliyunProvider { groups };
        }
        let mut i: usize = 0;
        while i < discovered.len()
            invariant
                i <= discovered.len(),
                groups@.len() == i,
                forall|k: int|
                    0 <= k < i ==> (#[trigger] groups@[k]).serves(
                        access_key_id@,
                        access_key_secret@,
                        discovered@[k]@,
                    ),
            decreases discovered.len() - i,
        {
            groups.push(RegionGroup::new(access_key_id, access_key_secret, discovered[i].as_str()));
            i = i + 1;
        }
        AliyunProvider { groups }
    }

    /// The clients, region by region.
    pub fn groups(&self) -> (r: &[RegionGroup])
        ensures
            r@ == self.groups@,
    {
        self.groups.as_slice()
    }

    /// The servers of all regions, given what each region answered. A region that fails is passed
    /// over, with a notice; only where every region fails does the whole fail.
    pub fn list_servers(&self, outcomes: Vec<Result<Vec<SwasInstance>, OpsError>>) -> (r: (
        Result<Vec<Server>, OpsError>,
        Vec<String>,
    ))
        requires
            outcomes@.len() == self.groups@.len(),
        ensures
            ({
                let regions = region_names(self.groups@);
                let listed = instances_listed(outcomes@);
                &&& match r.0 {
                    Ok(v) => !total_failure(listed) && text::views(v@) == servers_listed(
                        regions,
                        listed,
                    ),
                    Err(e) => total_failure(listed) && e@ == total_failure_text("SWAS 查询"@, listed),
                }
                &&& text::views(r.1@) == notices_of(
                    "SWAS"@,
                    "SWAS 查询"@,
                    refused(regions, listed),
                    broken(regions, listed),
                )
            }),
            r.0 matches Ok(v) ==> forall|k: int| 0 <= k < v@.len() ==> (#[trigger] v@[k]).wf(),
    {
        let ghost regions = region_names(self.groups@);
        let ghost listed = instances_listed(outcomes@);
        let count: usize = self.groups.len();
        let mut scan: RegionScan<Vec<Server>> = RegionScan::new();
        let mut i: usize = 0;
        proof {
            assert(listed.take(0) =~= Seq::<Result<Seq<SwasInstanceView>, Seq<char>>>::empty());
            assert(text::views(scan.no_perm@) =~= Seq::<Seq<char>>::empty());
            assert(text::views(scan.failed@) =~= Seq::<(Seq<char>, Seq<char>)>::empty());
            assert(text::views(chained(scan.items@)) =~= Seq::<ServerView>::empty());
        }
        for outcome in it: outcomes
            invariant
                it.seq() == outcomes@,
                i == it.index(),
                count == self.groups@.len(),
                outcomes@.len() == count,
                regions == region_names(self.groups@),
                listed == instances_listed(outcomes@),
                scan.items@.len() == answered(listed.take(i as int)).len(),
                text::views(scan.no_perm@) == refused(regions, listed.take(i as int)),
                text::views(scan.failed@) == broken(regions, listed.take(i as int)),
                text::views(chained(scan.items@)) == servers_listed(regions, listed.take(i as int)),
                forall|k: int|
                    0 <= k < chained(scan.items@).len() ==> (#[trigger] chained(scan.items@)[k]).wf(),
        {
            let ghost before = scan.items@;
            let region = self.groups[i].region.as_str();
            assert(regions[i as int] == region@);
            assert(listed.take(i + 1).drop_last() =~= listed.take(i as int));
            assert(listed.take(i + 1).last() == instances_answered(outcome));
            match outcome {
                Ok(instances) => {
                    let servers = servers_of(instances, region);
                    scan.record(region, Ok(servers));
                    proof {
                        assert(scan.items@ == before.push(servers));
                        assert(before.push(servers).drop_last() =~= before);
                        assert(chained(scan.items@) == chained(before) + servers@);
                        assert(text::views(chained(scan.items@)) =~= text::views(chained(before))
                            + text::views(servers@));
                    }
                },
                Err(e) => {
                    scan.record(region, Err(e));
                },
            }
            i = i + 1;
        }
        proof {
            assert(listed.take(i as int) =~= listed);
            law_total_failure(regions, listed);
        }
        let notices = scan.notices("SWAS", "SWAS 查询");
        assert(scan.all_failed() ==> text::views(scan.failed@)[0] == scan.failed@[0]@);
        (merged(scan, "SWAS 查询"), notices)
    }
}

/// The names of the regions.
pub open spec fn region_names(groups: Seq<RegionGroup>) -> Seq<Seq<char>> {
    Seq::new(groups.len(), |i: int| groups[i].region@)
}

/// What a region answered when asked for its instances.
pub open spec fn instances_answered(outcome: Result<Vec<SwasInstance>, OpsError>) -> Result<
    Seq<SwasInstanceView>,
    Seq<char>,
> {
    match outcome {
        Ok(v) => Ok(text::views(v@)),
        Err(e) => Err(e@),
    }
}

/// What the regions answered when asked for their instances.
pub open spec fn instances_listed(outcomes: Seq<Result<Vec<SwasInstance>, OpsError>>) -> Seq<
    Result<Seq<SwasInstanceView>, Seq<char>>,
> {
    Seq::new(outcomes.len(), |i: int| instances_answered(outcomes[i]))
}

/// The servers of the regions that answered, one region after the other.
pub open spec fn servers_listed(
    regions: Seq<Seq<char>>,
    listed: Seq<Result<Seq<SwasInstanceView>, Seq<char>>>,
) -> Seq<ServerView>
    decreases listed.len(),
{
    if listed.len() == 0 {
        Seq::empty()
    } else {
        let before = servers_listed(regions, listed.drop_last());
        match listed.last() {
            Ok(v) => before + swas::servers_in(v, regions[listed.len() - 1]),
            Err(_) => before,
        }
    }
}

// ---------------------------------------------------------------------------
// Which regions
// ---------------------------------------------------------------------------

/// Whether the region stands for all: it is blank, or the word for it in any case.
pub open spec fn means_all_regions(region: Seq<char>) -> bool {
    text::trim(region).len() == 0 || text::lower(region) == text::lower(REGION_GLOBAL@)
}

/// The regions that a setting means: the one that it names, or all that were discovered.
pub open spec fn regions_meant(region: Seq<char>, discovered: Seq<Seq<char>>) -> Seq<Seq<char>> {
    if means_all_regions(region) {
        discovered
    } else {
        seq![region]
    }
}

/// Whether the region stands for all.
pub fn is_global_region(region: &str) -> (r: bool)
    ensures
        r == means_all_regions(region@),
{
    text::trim_text(region).as_str().is_empty() || text::same_ignore_case(region, REGION_GLOBAL)
}

/// The regions, followed by those of the list that are not yet among them.
pub open spec fn with_new(regions: Seq<Seq<char>>, list: Seq<Seq<char>>) -> Seq<Seq<char>>
    decreases list.len(),
{
    if list.len() == 0 {
        regions
    } else {
        let before = with_new(regions, list.drop_last());
        if before.contains(list.last()) {
            before
        } else {
            before.push(list.last())
        }
    }
}

/// Adds the regions of the list that are not yet there.
pub fn push_unique(regions: &mut Vec<String>, list: Vec<String>)
    ensures
        text::views(final(regions)@) == with_new(text::views(old(regions)@), text::views(list@)),
{
    let ghost start = text::views(regions@);
    let ghost all = text::views(list@);
    assert(all.take(0) =~= Seq::<Seq<char>>::empty());
    for r in it: list
        invariant
            it.seq() == list@,
            all == text::views(list@),
            text::views(regions@) == with_new(start, all.take(it.index() as int)),
    {
        let ghost i = it.index() as int;
        assert(all.take(i + 1).drop_last() =~= all.take(i));
        assert(all.take(i + 1).last() == r@);
        if !text::contains_text(regions, r.as_str()) {
            proof {
                text::lemma_views_push(regions@, r);
            }
            regions.push(r);
        }
    }
    assert(all.take(list@.len() as int) =~= all);
}

/// Adding new regions keeps those that were there in front, brings all of the list in, brings
/// nothing else in, and makes no duplicates.
pub proof fn law_push_unique(regions: Seq<Seq<char>>, list: Seq<Seq<char>>)
    ensures
        regions.len() <= with_new(regions, list).len(),
        with_new(regions, list).take(regions.len() as int) == regions,
        forall|x: Seq<char>|
            with_new(regions, list).contains(x) <==> regions.contains(x) || list.contains(x),
        regions.no_duplicates() ==> with_new(regions, list).no_duplicates(),
    decreases list.len(),
{
    if list.len() == 0 {
        assert(regions.take(regions.len() as int) =~= regions);
        assert forall|x: Seq<char>| !list.contains(x) by {}
    } else {
        let init = list.drop_last();
        let last = list.last();
        law_push_unique(regions, init);
        let before = with_new(regions, init);
        let after = with_new(regions, list);
        assert forall|x: Seq<char>| list.contains(x) <==> init.contains(x) || x == last by {
            if list.contains(x) {
                let k = choose|k: int| 0 <= k < list.len() && list[k] == x;
                if k < init.len() {
                    assert(init[k] == x);
                }
            }
            if init.contains(x) {
                let k = choose|k: int| 0 <= k < init.len() && init[k] == x;
                assert(list[k] == x);
            }
            assert(list[list.len() - 1] == last);
        }
        if !before.contains(last) {
            assert(after.take(regions.len() as int) =~= before.take(regions.len() as int));
            assert forall|x: Seq<char>| after.contains(x) <==> before.contains(x) || x == last by {
                if after.contains(x) {
                    let k = choose|k: int| 0 <= k < after.len() && after[k] == x;
                    if k < before.len() {
                        assert(before[k] == x);
                    }
                }
                if before.contains(x) {
                    let k = choose|k: int| 0 <= k < before.len() && before[k] == x;
                    assert(after[k] == x);
                }
                assert(after[before.len() as int] == last);
            }
        }
    }
}

/// What was found of one product.
pub enum Found {
    /// The catalogue lists these resources.
    Catalog(Vec<CatalogResource>),
    /// The catalogue failed; these are all regions of the product.
    Regions(Vec<String>),
    /// Both failed.
    Nothing,
}

/// What was found of one product.
pub enum FoundView {
    Catalog(Seq<Seq<char>>),
    Regions(Seq<Seq<char>>),
    Nothing,
}

impl View for Found {
    type V = FoundView;

    open spec fn view(&self) -> FoundView {
        match *self {
            Found::Catalog(v) => FoundView::Catalog(text::views(v@)),
            Found::Regions(v) => FoundView::Regions(text::views(v@)),
            Found::Nothing => FoundView::Nothing,
        }
    }
}

/// What a look into the catalogue comes to.
pub enum Look {
    /// The catalogue answered.
    Found(Found),
    /// It failed, with the message; all regions of the product are to be asked for.
    AskRegions(OpsError),
}

/// What a look into the catalogue comes to.
pub enum LookView {
    Found(FoundView),
    AskRegions(Seq<char>),
}

impl View for Look {
    type V = LookView;

    open spec fn view(&self) -> LookView {
        match *self {
            Look::Found(f) => LookView::Found(f@),
            Look::AskRegions(e) => LookView::AskRegions(e@),
        }
    }
}

/// What an answer lists.
pub open spec fn listing<T: View>(r: Result<Vec<T>, OpsError>) -> Result<Seq<T::V>, Seq<char>> {
    match r {
        Ok(v) => Ok(text::views(v@)),
        Err(e) => Err(e@),
    }
}

/// What the catalogue's answer comes to: it is taken, even where it lists nothing; only where it
/// failed are the regions asked for.
pub open spec fn looked(catalog: Result<Seq<Seq<char>>, Seq<char>>) -> LookView {
    match catalog {
        Ok(v) => LookView::Found(FoundView::Catalog(v)),
        Err(e) => LookView::AskRegions(e),
    }
}

/// What is found when the regions were asked for.
pub open spec fn fallen_back(regions: Result<Seq<Seq<char>>, Seq<char>>) -> FoundView {
    match regions {
        Ok(v) => FoundView::Regions(v),
        Err(_) => FoundView::Nothing,
    }
}

/// What is found of a product, by the catalogue's answer and, where that failed, by the regions'.
pub open spec fn found_by(
    catalog: Result<Seq<Seq<char>>, Seq<char>>,
    regions: Result<Seq<Seq<char>>, Seq<char>>,
) -> FoundView {
    match looked(catalog) {
        LookView::Found(f) => f,
        LookView::AskRegions(_) => fallen_back(regions),
    }
}

/// Takes the catalogue's answer.
pub fn after_catalog(r: Result<Vec<CatalogResource>, OpsError>) -> (l: Look)
    ensures
        l@ == looked(listing(r)),
{
    match r {
        Ok(v) => Look::Found(Found::Catalog(v)),
        Err(e) => Look::AskRegions(e),
    }
}

/// Takes the answer when all regions of the product were asked for.
pub fn after_regions(r: Result<Vec<String>, OpsError>) -> (f: Found)
    ensures
        f@ == fallen_back(listing(r)),
{
    match r {
        Ok(v) => Found::Regions(v),
        Err(_) => Found::Nothing,
    }
}

/// The regions with those that were found.
pub open spec fn with_found(regions: Seq<Seq<char>>, f: FoundView) -> Seq<Seq<char>> {
    match f {
        FoundView::Catalog(v) => with_new(regions, v),
        FoundView::Regions(v) => with_new(regions, v),
        FoundView::Nothing => regions,
    }
}

/// The regions to look into: those of the servers, then those of the instances.
pub open spec fn found_regions(swas: FoundView, ecs: FoundView) -> Seq<Seq<char>> {
    with_found(with_found(Seq::empty(), swas), ecs)
}

/// Adds what was found.
fn push_found(regions: &mut Vec<String>, f: Found)
    ensures
        text::views(final(regions)@) == with_found(text::views(old(regions)@), f@),
{
    match f {
        Found::Catalog(list) => {
            let mut ids: Vec<String> = Vec::new();
            let ghost all = text::views(list@);
            for r in it: list
                invariant
                    it.seq() == list@,
                    all == text::views(list@),
                    text::views(ids@) == all.take(it.index() as int),
            {
                let id = r.region_id;
                proof {
                    text::lemma_views_push(ids@, id);
                    assert(all.take(it.index() + 1) =~= all.take(it.index() as int).push(id@));
                }
                ids.push(id);
            }
            assert(all.take(list@.len() as int) =~= all);
            push_unique(regions, ids);
        },
        Found::Regions(list) => {
            push_unique(regions, list);
        },
        Found::Nothing => {},
    }
}

/// The regions to look into, each once. That the catalogue lists nothing is no failure; that
/// neither it nor the lists of regions gave anything is.
pub fn discover_regions(swas: Found, ecs: Found) -> (r: Result<Vec<String>, OpsError>)
    ensures
        match r {
            Ok(v) => text::views(v@) == found_regions(swas@, ecs@) && (v@.len() > 0 || swas@
                is Catalog || ecs@ is Catalog),
            Err(e) => found_regions(swas@, ecs@).len() == 0 && !(swas@ is Catalog) && !(ecs@
                is Catalog) && e@
                == "自动发现地域失败：资源中心与 ListRegions/DescribeRegions 均未返回地域，请检查 RAM 权限（resourcecenter:SearchResources）"@,
        },
{
    let catalog_ok = matches!(swas, Found::Catalog(_)) || matches!(ecs, Found::Catalog(_));
    let mut regions: Vec<String> = Vec::new();
    assert(text::views(regions@) =~= Seq::<Seq<char>>::empty());
    push_found(&mut regions, swas);
    push_found(&mut regions, ecs);
    if regions.is_empty() && !catalog_ok {
        return Err(
            OpsError::new(
                "自动发现地域失败：资源中心与 ListRegions/DescribeRegions 均未返回地域，请检查 RAM 权限（resourcecenter:SearchResources）".to_owned(),
            ),
        );
    }
    Ok(regions)
}

/// Discovery fails just where the catalogue failed for both products and neither list of regions
/// gave one.
pub proof fn law_discovery_fails(
    swas_catalog: Result<Seq<Seq<char>>, Seq<char>>,
    swas_regions: Result<Seq<Seq<char>>, Seq<char>>,
    ecs_catalog: Result<Seq<Seq<char>>, Seq<char>>,
    ecs_regions: Result<Seq<Seq<char>>, Seq<char>>,
)
    ensures
        ({
            let swas = found_by(swas_catalog, swas_regions);
            let ecs = found_by(ecs_catalog, ecs_regions);
            (found_regions(swas, ecs).len() == 0 && !(swas is Catalog) && !(ecs is Catalog)) <==> (
            swas_catalog is Err && ecs_catalog is Err && (swas_regions matches Ok(v) ==> v.len()
                == 0) && (ecs_regions matches Ok(v) ==> v.len() == 0))
        }),
{
    let swas = found_by(swas_catalog, swas_regions);
    let ecs = found_by(ecs_catalog, ecs_regions);
    let a = with_found(Seq::empty(), swas);
    if let FoundView::Regions(v) = swas {
        law_push_unique(Seq::empty(), v);
        if v.len() > 0 {
            assert(v.contains(v[0]));
            assert(a.contains(v[0]));
        }
    }
    if let FoundView::Regions(v) = ecs {
        law_push_unique(a, v);
        if v.len() > 0 {
            assert(v.contains(v[0]));
            assert(found_regions(swas, ecs).contains(v[0]));
        }
    }
}

/// No region is looked into twice.
pub proof fn law_discovered_once(swas: FoundView, ecs: FoundView)
    ensures
        found_regions(swas, ecs).no_duplicates(),
{
    let a = with_found(Seq::empty(), swas);
    match swas {
        FoundView::Catalog(v) => law_push_unique(Seq::empty(), v),
        FoundView::Regions(v) => law_push_unique(Seq::empty(), v),
        FoundView::Nothing => {},
    }
    match ecs {
        FoundView::Catalog(v) => law_push_unique(a, v),
        FoundView::Regions(v) => law_push_unique(a, v),
        FoundView::Nothing => {},
    }
}

// ---------------------------------------------------------------------------
// Asking every region
// ---------------------------------------------------------------------------

/// Whether the message tells of a missing permission.
pub open spec fn tells_no_permission(message: Seq<char>) -> bool {
    text::contains(message, "NoPermission"@) || text::contains(message, "Forbidden"@)
}

/// Whether the failure is a missing permission, as of a product that the account does not have.
pub fn is_permission_error(e: &OpsError) -> (r: bool)
    ensures
        r == tells_no_permission(e@),
{
    text::text_contains(e.message(), "NoPermission") || text::text_contains(
        e.message(),
        "Forbidden",
    )
}

/// What asking the regions one after the other gave.
pub struct RegionScan<T> {
    /// Of each region that answered, its answer.
    pub items: Vec<T>,
    /// The regions without permission.
    pub no_perm: Vec<String>,
    /// The regions that failed otherwise, with the message.
    pub failed: Vec<(String, String)>,
}

/// What a region answered.
pub open spec fn answer<T>(outcome: Result<T, OpsError>) -> Result<T, Seq<char>> {
    match outcome {
        Ok(v) => Ok(v),
        Err(e) => Err(e@),
    }
}

/// What the regions answered that did.
pub open spec fn answered<T>(outcomes: Seq<Result<T, Seq<char>>>) -> Seq<T>
    decreases outcomes.len(),
{
    if outcomes.len() == 0 {
        Seq::empty()
    } else {
        match outcomes.last() {
            Ok(v) => answered(outcomes.drop_last()).push(v),
            Err(_) => answered(outcomes.drop_last()),
        }
    }
}

/// The regions without permission.
pub open spec fn refused<T>(regions: Seq<Seq<char>>, outcomes: Seq<Result<T, Seq<char>>>) -> Seq<
    Seq<char>,
>
    decreases outcomes.len(),
{
    if outcomes.len() == 0 {
        Seq::empty()
    } else {
        let before = refused(regions, outcomes.drop_last());
        match outcomes.last() {
            Err(m) => if tells_no_permission(m) {
                before.push(regions[outcomes.len() - 1])
            } else {
                before
            },
            Ok(_) => before,
        }
    }
}

/// The regions that failed otherwise, with the message.
pub open spec fn broken<T>(regions: Seq<Seq<char>>, outcomes: Seq<Result<T, Seq<char>>>) -> Seq<
    (Seq<char>, Seq<char>),
>
    decreases outcomes.len(),
{
    if outcomes.len() == 0 {
        Seq::empty()
    } else {
        let before = broken(regions, outcomes.drop_last());
        match outcomes.last() {
            Err(m) => if tells_no_permission(m) {
                before
            } else {
                before.push((regions[outcomes.len() - 1], m))
            },
            Ok(_) => before,
        }
    }
}

/// Whether every region failed, and none for want of permission.
pub open spec fn total_failure<T>(outcomes: Seq<Result<T, Seq<char>>>) -> bool {
    &&& outcomes.len() > 0
    &&& forall|i: int|
        0 <= i < outcomes.len() ==> (#[trigger] outcomes[i] matches Err(m) && !tells_no_permission(m))
}

/// What is said where every region failed.
pub open spec fn total_failure_text<T>(label: Seq<char>, outcomes: Seq<Result<T, Seq<char>>>) -> Seq<
    char,
> {
    "全部 "@ + text::dec(outcomes.len()) + " 个地域 "@ + label + " 失败（首个错误: "@ + outcomes[0]->Err_0
        + "）"@
}

/// Every region either answered, or lacked permission, or failed otherwise; and the regions failed
/// altogether where each one failed otherwise, and only there.
pub proof fn law_total_failure<T>(regions: Seq<Seq<char>>, outcomes: Seq<Result<T, Seq<char>>>)
    requires
        regions.len() == outcomes.len(),
    ensures
        answered(outcomes).len() + refused(regions, outcomes).len() + broken(
            regions,
            outcomes,
        ).len() == outcomes.len(),
        total_failure(outcomes) <==> (broken(regions, outcomes).len() > 0 && answered(
            outcomes,
        ).len() == 0 && refused(regions, outcomes).len() == 0),
        total_failure(outcomes) ==> broken(regions, outcomes)[0] == (
            regions[0],
            outcomes[0]->Err_0,
        ),
{
    lemma_total_failure(regions, outcomes);
}

/// The same of a prefix of the regions.
proof fn lemma_total_failure<T>(regions: Seq<Seq<char>>, outcomes: Seq<Result<T, Seq<char>>>)
    requires
        regions.len() >= outcomes.len(),
    ensures
        answered(outcomes).len() + refused(regions, outcomes).len() + broken(
            regions,
            outcomes,
        ).len() == outcomes.len(),
        total_failure(outcomes) <==> (broken(regions, outcomes).len() > 0 && answered(
            outcomes,
        ).len() == 0 && refused(regions, outcomes).len() == 0),
        total_failure(outcomes) ==> broken(regions, outcomes)[0] == (
            regions[0],
            outcomes[0]->Err_0,
        ),
    decreases outcomes.len(),
{
    if outcomes.len() > 0 {
        let init = outcomes.drop_last();
        lemma_total_failure(regions, init);
        let all_ok = broken(regions, outcomes).len() > 0 && answered(outcomes).len() == 0
            && refused(regions, outcomes).len() == 0;
        if total_failure(outcomes) {
            assert(outcomes[outcomes.len() - 1] matches Err(m) && !tells_no_permission(m));
            if init.len() > 0 {
                assert forall|i: int| 0 <= i < init.len() implies (#[trigger] init[i] matches Err(m)
                    && !tells_no_permission(m)) by {
                    assert(outcomes[i] == init[i]);
                }
                assert(total_failure(init));
            }
        }
        if all_ok {
            assert forall|i: int| 0 <= i < outcomes.len() implies (#[trigger] outcomes[i] matches Err(m)
                && !tells_no_permission(m)) by {
                if i < init.len() {
                    assert(init[i] == outcomes[i]);
                    assert(total_failure(init));
                }
            }
        }
    }
}

/// The names of the pairs.
pub open spec fn firsts(v: Seq<(Seq<char>, Seq<char>)>) -> Seq<Seq<char>> {
    Seq::new(v.len(), |i: int| v[i].0)
}

/// That regions were passed over for want of permission, where there are such.
pub open spec fn no_perm_text(product: Seq<char>, no_perm: Seq<Seq<char>>) -> Option<Seq<char>> {
    if no_perm.len() == 0 {
        None
    } else {
        Some(
            "  跳过 "@ + text::dec(no_perm.len()) + " 个地域（无 "@ + product
                + " 权限，可能未购买/未授权）: "@ + text::join(no_perm, ", "@),
        )
    }
}

/// That regions were passed over because they failed, where there are such.
pub open spec fn failed_text(label: Seq<char>, failed: Seq<(Seq<char>, Seq<char>)>) -> Option<
    Seq<char>,
> {
    if failed.len() == 0 {
        None
    } else {
        Some(
            "  跳过 "@ + text::dec(failed.len()) + " 个地域（"@ + label + "失败）: "@ + text::join(
                firsts(failed),
                ", "@,
            ),
        )
    }
}

/// An optional text as a list.
pub open spec fn as_list(s: Option<Seq<char>>) -> Seq<Seq<char>> {
    match s {
        Some(t) => seq![t],
        None => Seq::empty(),
    }
}

/// The notices on regions that were passed over.
pub open spec fn notices_of(
    product: Seq<char>,
    label: Seq<char>,
    no_perm: Seq<Seq<char>>,
    failed: Seq<(Seq<char>, Seq<char>)>,
) -> Seq<Seq<char>> {
    as_list(no_perm_text(product, no_perm)) + as_list(failed_text(label, failed))
}

impl<T> RegionScan<T> {
    /// Before the first region.
    pub fn new() -> (s: RegionScan<T>)
        ensures
            s.items@ == Seq::<T>::empty(),
            s.no_perm@ == Seq::<String>::empty(),
            s.failed@ == Seq::<(String, String)>::empty(),
    {
        RegionScan { items: Vec::new(), no_perm: Vec::new(), failed: Vec::new() }
    }

    /// Notes what a region answered.
    pub fn record(&mut self, region: &str, outcome: Result<T, OpsError>)
        ensures
            match answer(outcome) {
                Ok(v) => {
                    &&& final(self).items@ == old(self).items@.push(v)
                    &&& final(self).no_perm@ == old(self).no_perm@
                    &&& final(self).failed@ == old(self).failed@
                },
                Err(m) => if tells_no_permission(m) {
                    &&& final(self).items@ == old(self).items@
                    &&& text::views(final(self).no_perm@) == text::views(old(self).no_perm@).push(
                        region@,
                    )
                    &&& final(self).failed@ == old(self).failed@
                } else {
                    &&& final(self).items@ == old(self).items@
                    &&& final(self).no_perm@ == old(self).no_perm@
                    &&& text::views(final(self).failed@) == text::views(old(self).failed@).push(
                        (region@, m),
                    )
                },
            },
    {
        match outcome {
            Ok(v) => {
                self.items.push(v);
            },
            Err(e) => if is_permission_error(&e) {
                let r = region.to_owned();
                proof {
                    text::lemma_views_push(self.no_perm@, r);
                }
                self.no_perm.push(r);
            } else {
                let f: (String, String) = (region.to_owned(), e.message);
                proof {
                    text::lemma_views_push(self.failed@, f);
                }
                self.failed.push(f);
            },
        }
    }

    /// The notices on regions that were passed over.
    pub fn notices(&self, product: &str, label: &str) -> (r: Vec<String>)
        ensures
            text::views(r@) == notices_of(
                product@,
                label@,
                text::views(self.no_perm@),
                text::views(self.failed@),
            ),
    {
        let mut out: Vec<String> = Vec::new();
        assert(text::views(out@) =~= Seq::<Seq<char>>::empty());
        if let Some(m) = self.no_perm_notice(product) {
            proof {
                text::lemma_views_push(out@, m);
            }
            out.push(m);
        }
        if let Some(m) = self.failed_notice(label) {
            proof {
                text::lemma_views_push(out@, m);
            }
            out.push(m);
        }
        assert(text::views(out@) =~= notices_of(
            product@,
            label@,
            text::views(self.no_perm@),
            text::views(self.failed@),
        ));
        out
    }

    /// That regions were passed over for want of permission, where there are such.
    pub fn no_perm_notice(&self, product: &str) -> (r: Option<String>)
        ensures
            text::opt_view(r) == no_perm_text(product@, text::views(self.no_perm@)),
    {
        if self.no_perm.is_empty() {
            return None;
        }
        let mut m = "  跳过 ".to_owned();
        let n = text::print_usize(self.no_perm.len());
        m.append(n.as_str());
        m.append(" 个地域（无 ");
        m.append(product);
        m.append(" 权限，可能未购买/未授权）: ");
        let j = text::join_strings(&self.no_perm, ", ");
        m.append(j.as_str());
        Some(m)
    }

    /// That regions were passed over because they failed, where there are such.
    pub fn failed_notice(&self, label: &str) -> (r: Option<String>)
        ensures
            text::opt_view(r) == failed_text(label@, text::views(self.failed@)),
    {
        if self.failed.is_empty() {
            return None;
        }
        let mut m = "  跳过 ".to_owned();
        let n = text::print_usize(self.failed.len());
        m.append(n.as_str());
        m.append(" 个地域（");
        m.append(label);
        m.append("失败）: ");
        let ghost all = firsts(text::views(self.failed@));
        let mut names: Vec<String> = Vec::new();
        let mut i: usize = 0;
        while i < self.failed.len()
            invariant
                i <= self.failed.len(),
                all == firsts(text::views(self.failed@)),
                text::views(names@) == all.take(i as int),
            decreases self.failed.len() - i,
        {
            assert(text::views(self.failed@)[i as int] == self.failed@[i as int]@);
            let r = self.failed[i].0.clone();
            proof {
                text::lemma_views_push(names@, r);
                assert(all.take(i + 1) =~= all.take(i as int).push(r@));
            }
            names.push(r);
            i = i + 1;
        }
        assert(all.take(i as int) =~= all);
        let j = text::join_strings(&names, ", ");
        m.append(j.as_str());
        Some(m)
    }

    /// Whether every region failed: some did, none answered, and none lacked permission.
    pub open spec fn all_failed(&self) -> bool {
        self.failed@.len() > 0 && self.items@.len() == 0 && self.no_perm@.len() == 0
    }

    /// The failure of all regions, where every one failed.
    pub fn all_failed_err(&self, label: &str) -> (r: Option<OpsError>)
        ensures
            match r {
                Some(e) => self.all_failed() && e@ == "全部 "@ + text::dec(self.failed@.len())
                    + " 个地域 "@ + label@ + " 失败（首个错误: "@ + self.failed@[0].1@ + "）"@,
                None => !self.all_failed(),
            },
    {
        if !self.failed.is_empty() && self.items.is_empty() && self.no_perm.is_empty() {
            let mut m = "全部 ".to_owned();
            let n = text::print_usize(self.failed.len());
            m.append(n.as_str());
            m.append(" 个地域 ");
            m.append(label);
            m.append(" 失败（首个错误: ");
            m.append(self.failed[0].1.as_str());
            m.append("）");
            Some(OpsError::new(m))
        } else {
            None
        }
    }
}

/// What the regions answered.
pub open spec fn answers<T>(outcomes: Seq<Result<T, OpsError>>) -> Seq<Result<T, Seq<char>>> {
    Seq::new(outcomes.len(), |i: int| answer(outcomes[i]))
}

/// Sorts out what the regions answered.
pub fn scan_regions<T>(groups: &[RegionGroup], outcomes: Vec<Result<T, OpsError>>) -> (s: RegionScan<T>)
    requires
        outcomes@.len() == groups@.len(),
    ensures
        s.items@ == answered(answers(outcomes@)),
        text::views(s.no_perm@) == refused(region_names(groups@), answers(outcomes@)),
        text::views(s.failed@) == broken(region_names(groups@), answers(outcomes@)),
        s.all_failed() <==> total_failure(answers(outcomes@)),
{
    let ghost regions = region_names(groups@);
    let ghost all = answers(outcomes@);
    let mut scan: RegionScan<T> = RegionScan::new();
    let mut i: usize = 0;
    proof {
        assert(all.take(0) =~= Seq::<Result<T, Seq<char>>>::empty());
        assert(text::views(scan.no_perm@) =~= Seq::<Seq<char>>::empty());
        assert(text::views(scan.failed@) =~= Seq::<(Seq<char>, Seq<char>)>::empty());
    }
    for outcome in it: outcomes
        invariant
            it.seq() == outcomes@,
            i == it.index(),
            outcomes@.len() == groups@.len(),
            regions == region_names(groups@),
            all == answers(outcomes@),
            scan.items@ == answered(all.take(i as int)),
            text::views(scan.no_perm@) == refused(regions, all.take(i as int)),
            text::views(scan.failed@) == broken(regions, all.take(i as int)),
    {
        assert(all.take(i + 1).drop_last() =~= all.take(i as int));
        assert(all.take(i + 1).last() == answer(outcome));
        let region = groups[i].region.as_str();
        assert(regions[i as int] == region@);
        scan.record(region, outcome);
        i = i + 1;
    }
    proof {
        assert(all.take(i as int) =~= all);
        law_total_failure(regions, all);
    }
    scan
}

/// The lists one after the other.
pub open spec fn chained<T>(lists: Seq<Vec<T>>) -> Seq<T>
    decreases lists.len(),
{
    if lists.len() == 0 {
        Seq::empty()
    } else {
        chained(lists.drop_last()) + lists.last()@
    }
}

/// What the regions listed, one after the other; a failure only where every region failed.
pub fn merged<T>(scan: RegionScan<Vec<T>>, label: &str) -> (r: Result<Vec<T>, OpsError>)
    ensures
        match r {
            Ok(v) => !scan.all_failed() && v@ == chained(scan.items@),
            Err(e) => scan.all_failed() && e@ == "全部 "@ + text::dec(scan.failed@.len()) + " 个地域 "@
                + label@ + " 失败（首个错误: "@ + scan.failed@[0].1@ + "）"@,
        },
{
    if let Some(e) = scan.all_failed_err(label) {
        return Err(e);
    }
    let mut out: Vec<T> = Vec::new();
    let lists = scan.items;
    assert(chained(lists@.take(0)) =~= Seq::<T>::empty());
    for list in it: lists
        invariant
            it.seq() == lists@,
            out@ == chained(lists@.take(it.index() as int)),
    {
        let ghost i = it.index() as int;
        assert(lists@.take(i + 1).drop_last() =~= lists@.take(i));
        let mut list = list;
        out.append(&mut list);
    }
    assert(lists@.take(lists@.len() as int) =~= lists@);
    Ok(out)
}

// ---------------------------------------------------------------------------
// Finding the region of something
// ---------------------------------------------------------------------------

/// Trying the regions until one takes a request. Where there is but one, it is not tried.
pub struct RegionProbe {
    pub count: usize,
    pub next: usize,
    pub last_error: Option<OpsError>,
}

impl RegionProbe {
    /// Before the first of so many regions.
    pub fn new(count: usize) -> (p: RegionProbe)
        ensures
            p.count == count,
            p.next == 0,
            p.last_error is None,
    {
        RegionProbe { count, next: 0, last_error: None }
    }

    /// Whether there is nothing to try, because there is but one region.
    pub fn only_one(&self) -> (r: bool)
        ensures
            r == (self.count == 1),
    {
        self.count == 1
    }

    /// The region to try next, if one is left.
    pub fn candidate(&self) -> (r: Option<usize>)
        ensures
            match r {
                Some(i) => i == self.next && self.next < self.count,
                None => self.next >= self.count,
            },
    {
        if self.next < self.count {
            Some(self.next)
        } else {
            None
        }
    }

    /// Notes that the region did not take the request.
    pub fn rejected(&mut self, e: OpsError)
        requires
            old(self).next < old(self).count,
        ensures
            final(self).count == old(self).count,
            final(self).next == old(self).next + 1,
            final(self).last_error == Some(e),
    {
        self.next = self.next + 1;
        self.last_error = Some(e);
    }

    /// That no region took it: what the last one said, or that there was none.
    pub fn exhausted(self, what: &str, id: &str) -> (e: OpsError)
        ensures
            match self.last_error {
                Some(last) => e == last,
                None => e@ == what@ + " "@ + id@ + " 在任何地域均未找到"@,
            },
    {
        match self.last_error {
            Some(e) => e,
            None => {
                let mut m = what.to_owned();
                m.append(" ");
                m.append(id);
                m.append(" 在任何地域均未找到");
                OpsError::new(m)
            },
        }
    }
}

} // verus!
