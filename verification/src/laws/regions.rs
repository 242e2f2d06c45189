//! The regions of an account: which are looked into, and what is made of their answers.

use vstd::prelude::*;
use crate::cloud::aliyun;
use crate::cloud::aliyun::FoundView;
use crate::cloud::aliyun::resourcecenter;
use crate::cloud::aliyun::resourcecenter::ResourceView;
use crate::cloud::aliyun::rpc;
use crate::cloud::aliyun::swas;
use crate::cloud::aliyun::swas::SwasInstanceView;
use crate::cloud::aliyun::{domain, ecs};
use crate::text;
use crate::time;

verus! {

/// A setting means all regions just where it is blank or is the word `global`, capitals or not;
/// every other one means the region of that name and no other.
pub proof fn law_settings_of_regions(region: Seq<char>, discovered: Seq<Seq<char>>)
    ensures
        aliyun::means_all_regions(region) <==> (forall|i: int|
            0 <= i < region.len() ==> super::words::white(#[trigger] region[i])) || text::lower(region)
            == "global"@,
        aliyun::means_all_regions(region) ==> aliyun::regions_meant(region, discovered) == discovered,
        !aliyun::means_all_regions(region) ==> aliyun::regions_meant(region, discovered) == seq![region],
{
    reveal_strlit("global");
    assert(text::lower("global"@) =~= "global"@);
    super::words::law_trimming(region);
    let (i, j) = choose|i: int, j: int|
        0 <= i <= j <= region.len() && text::trim(region) == #[trigger] region.subrange(i, j) && (forall|
            k: int,
        |
            0 <= k < region.len() && !(i <= k < j) ==> super::words::white(#[trigger] region[k])) && (i
            < j ==> !super::words::white(region[i]) && !super::words::white(region[j - 1]));
    if i < j {
        assert(!super::words::white(region[i]));
    }
}

/// Regions are collected one by one: one that is not there yet comes last, one that is there already
/// changes nothing.
pub proof fn law_collecting_regions(regions: Seq<Seq<char>>, list: Seq<Seq<char>>, x: Seq<char>)
    ensures
        aliyun::with_new(regions, Seq::empty()) == regions,
        aliyun::with_new(regions, list.push(x)) == if aliyun::with_new(regions, list).contains(x) {
            aliyun::with_new(regions, list)
        } else {
            aliyun::with_new(regions, list).push(x)
        },
{
    assert(list.push(x).drop_last() =~= list);
}

/// Discovered are the regions of the servers, then those of the instances; of each product those in
/// the catalogue or, where that failed, all, or none.
pub proof fn law_discovered_regions(swas: FoundView, ecs: FoundView)
    ensures
        ({
            let listed = |f: FoundView|
                match f {
                    FoundView::Catalog(v) => v,
                    FoundView::Regions(v) => v,
                    FoundView::Nothing => Seq::empty(),
                };
            aliyun::found_regions(swas, ecs) == aliyun::with_new(
                aliyun::with_new(Seq::empty(), listed(swas)),
                listed(ecs),
            )
        }),
{
    let none = Seq::<Seq<char>>::empty();
    assert(aliyun::with_new(none, none) == none);
    let a = aliyun::with_found(none, swas);
    assert(aliyun::with_new(a, none) == a);
}

/// The catalogue counts just the resources of the type that was looked for.
pub proof fn law_resources_of_a_type(resources: Seq<ResourceView>, x: ResourceView, t: Seq<char>)
    ensures
        resourcecenter::regions_of_type(Seq::empty(), t) == Seq::<Seq<char>>::empty(),
        x.resource_type == t ==> resourcecenter::regions_of_type(resources.push(x), t)
            == resourcecenter::regions_of_type(resources, t).push(x.region_id),
        x.resource_type != t ==> resourcecenter::regions_of_type(resources.push(x), t)
            == resourcecenter::regions_of_type(resources, t),
{
    assert(resources.push(x).drop_last() =~= resources);
}

/// A message tells of a missing permission just where `NoPermission` or `Forbidden` occurs in it.
pub proof fn law_missing_permission(m: Seq<char>)
    ensures
        aliyun::tells_no_permission(m) <==> text::contains(m, "NoPermission"@) || text::contains(
            m,
            "Forbidden"@,
        ),
{
}

/// What the answers of the regions come to, region by region: an answer is kept; a region without
/// permission is noted as such; one that failed otherwise is noted with what it said.
pub proof fn law_answers_of_regions<T>(
    regions: Seq<Seq<char>>,
    outcomes: Seq<Result<T, Seq<char>>>,
    o: Result<T, Seq<char>>,
)
    ensures
        ({
            let all = outcomes.push(o);
            let here = regions[outcomes.len() as int];
            match o {
                Ok(v) => {
                    &&& aliyun::answered(all) == aliyun::answered(outcomes).push(v)
                    &&& aliyun::refused(regions, all) == aliyun::refused(regions, outcomes)
                    &&& aliyun::broken(regions, all) == aliyun::broken(regions, outcomes)
                },
                Err(m) => {
                    &&& aliyun::answered(all) == aliyun::answered(outcomes)
                    &&& text::contains(m, "NoPermission"@) || text::contains(m, "Forbidden"@) ==> {
                        &&& aliyun::refused(regions, all) == aliyun::refused(regions, outcomes).push(here)
                        &&& aliyun::broken(regions, all) == aliyun::broken(regions, outcomes)
                    }
                    &&& !text::contains(m, "NoPermission"@) && !text::contains(m, "Forbidden"@) ==> {
                        &&& aliyun::refused(regions, all) == aliyun::refused(regions, outcomes)
                        &&& aliyun::broken(regions, all) == aliyun::broken(regions, outcomes).push(
                            (here, m),
                        )
                    }
                },
            }
        }),
        aliyun::answered(Seq::<Result<T, Seq<char>>>::empty()).len() == 0,
        aliyun::refused(regions, Seq::<Result<T, Seq<char>>>::empty()).len() == 0,
        aliyun::broken(regions, Seq::<Result<T, Seq<char>>>::empty()).len() == 0,
{
    assert(outcomes.push(o).drop_last() =~= outcomes);
}

/// All fail together just where there is a region and each one failed, none for want of permission;
/// what is then told names how many there are and what the first one said.
pub proof fn law_all_regions_fail<T>(label: Seq<char>, outcomes: Seq<Result<T, Seq<char>>>)
    ensures
        aliyun::total_failure(outcomes) <==> outcomes.len() > 0 && (forall|i: int|
            0 <= i < outcomes.len() ==> (#[trigger] outcomes[i] matches Err(m) && !text::contains(
                m,
                "NoPermission"@,
            ) && !text::contains(m, "Forbidden"@))),
        outcomes.len() > 0 ==> (outcomes[0] matches Err(m) ==> aliyun::total_failure_text(label, outcomes)
            == "全部 "@ + text::dec(outcomes.len()) + " 个地域 "@ + label + " 失败（首个错误: "@ + m + "）"@),
{
}

/// What is told of regions that were passed over: how many and which, those without permission first,
/// and nothing where there are none.
pub proof fn law_notices_on_regions(
    product: Seq<char>,
    label: Seq<char>,
    no_perm: Seq<Seq<char>>,
    failed: Seq<(Seq<char>, Seq<char>)>,
)
    ensures
        ({
            let a = "  跳过 "@ + text::dec(no_perm.len()) + " 个地域（无 "@ + product
                + " 权限，可能未购买/未授权）: "@ + text::join(no_perm, ", "@);
            let b = "  跳过 "@ + text::dec(failed.len()) + " 个地域（"@ + label + "失败）: "@ + text::join(
                Seq::new(failed.len(), |i: int| failed[i].0),
                ", "@,
            );
            aliyun::notices_of(product, label, no_perm, failed) == (if no_perm.len() > 0 {
                seq![a]
            } else {
                Seq::empty()
            }) + (if failed.len() > 0 {
                seq![b]
            } else {
                Seq::empty()
            })
        }),
{
    assert(aliyun::firsts(failed) =~= Seq::new(failed.len(), |i: int| failed[i].0));
}

/// An instance as a server of its region: its identifier, its name or, where that is empty, the
/// identifier for it, its state and its expiry.
pub proof fn law_instances_as_servers(
    i: SwasInstanceView,
    e: ecs::EcsInstanceView,
    region: Seq<char>,
)
    ensures
        ({
            let s = swas::server_of(i, region);
            let t = ecs::server_of(e, region);
            &&& s.id == i.instance_id && s.region == region && s.status == i.status
            &&& s.name == if i.instance_name.len() > 0 {
                i.instance_name
            } else {
                i.instance_id
            }
            &&& s.expired_at == time::instant(rpc::expiry_time(i.expired_time))
            &&& t.id == e.instance_id && t.region == region && t.status == e.status
            &&& t.name == if e.instance_name.len() > 0 {
                e.instance_name
            } else {
                e.instance_id
            }
            &&& t.expired_at == time::instant(rpc::expiry_time(e.expired_time))
        }),
{
}

/// An instant is what was read of it.
pub proof fn law_instants(secs: i64, nanos: u32)
    ensures
        time::instant(None) is None,
        time::instant(Some((secs, nanos))) matches Some(t) && t.secs == secs && t.nanos == nanos,
{
}

/// The servers of all regions: those of a region that answered come behind those of the regions before
/// it, each as a server of its own region; a region that failed brings none.
pub proof fn law_servers_of_all_regions(
    regions: Seq<Seq<char>>,
    listed: Seq<Result<Seq<SwasInstanceView>, Seq<char>>>,
    o: Result<Seq<SwasInstanceView>, Seq<char>>,
)
    ensures
        aliyun::servers_listed(regions, Seq::empty()).len() == 0,
        o is Err ==> aliyun::servers_listed(regions, listed.push(o)) == aliyun::servers_listed(
            regions,
            listed,
        ),
        o matches Ok(v) ==> aliyun::servers_listed(regions, listed.push(o)) == aliyun::servers_listed(
            regions,
            listed,
        ) + Seq::new(v.len(), |k: int| swas::server_of(v[k], regions[listed.len() as int])),
{
    assert(listed.push(o).drop_last() =~= listed);
    if let Ok(v) = o {
        assert(swas::servers_in(v, regions[listed.len() as int]) =~= Seq::new(
            v.len(),
            |k: int| swas::server_of(v[k], regions[listed.len() as int]),
        ));
    }
}

/// The ECS instances of a region and the domains of a page are taken over one by one; the lists of
/// several regions come one after the other.
pub proof fn law_lists_are_taken_over<T>(
    instances: Seq<ecs::EcsInstanceView>,
    region: Seq<char>,
    items: Seq<domain::DomainItemView>,
    lists: Seq<Vec<T>>,
    v: Vec<T>,
)
    ensures
        ecs::servers_in(instances, region).len() == instances.len(),
        forall|k: int|
            0 <= k < instances.len() ==> #[trigger] ecs::servers_in(instances, region)[k]
                == ecs::server_of(instances[k], region),
        domain::domains_of(items).len() == items.len(),
        forall|k: int|
            0 <= k < items.len() ==> (#[trigger] domain::domains_of(items)[k]).domain_name
                == items[k].domain_name && domain::domains_of(items)[k].auto_renew
                == items[k].auto_renew_enabled && domain::domains_of(items)[k].expired_at
                == time::instant(domain::domain_expiry(items[k].expiration_date)),
        aliyun::chained(Seq::<Vec<T>>::empty()).len() == 0,
        aliyun::chained(lists.push(v)) == aliyun::chained(lists) + v@,
{
    assert(lists.push(v).drop_last() =~= lists);
}

/// The items of pages come one page after the other; and up to 2^31 - 1 of them are counted as they
/// are.
pub proof fn law_items_of_pages<T>(pages: Seq<(Seq<T>, i32)>, p: (Seq<T>, i32), n: nat)
    ensures
        rpc::items_of_pages(Seq::<(Seq<T>, i32)>::empty()).len() == 0,
        rpc::items_of_pages(pages.push(p)) == rpc::items_of_pages(pages) + p.0,
        n < 0x8000_0000 ==> rpc::wrapped_len(n) == n,
{
    assert(pages.push(p).drop_last() =~= pages);
}

/// A page is the last where with it as many items have come as it says that there are; of domains also
/// where it brings none; of a search where it has no token for another, or brings nothing.
pub proof fn law_last_pages<T>(
    v: rpc::PagerView<T>,
    page: (Seq<T>, i32),
    d: domain::DomainPagerView,
    items: (Seq<domain::DomainItemView>, i32),
    found: (Seq<ResourceView>, Option<Seq<char>>),
)
    ensures
        taken_over(v, page),
        items.0.len() < 0x8000_0000 && d.domains.len() + items.0.len() < 0x8000_0000 ==> (rpc::Paged::last(
            d,
            items,
        ) <==> d.domains.len() + items.0.len() >= items.1 || items.0.len() == 0),
        resourcecenter::is_last_page(found) <==> found.0.len() == 0 || found.1 is None
            || found.1->0.len() == 0,
{
}

/// Whether a page of items ends the reading as it should, and is taken over as it is.
pub open spec fn taken_over<T>(v: rpc::PagerView<T>, page: (Seq<T>, i32)) -> bool {
    let n = v.items.len() + page.0.len();
    &&& n < 0x8000_0000 ==> (rpc::Paged::last(v, page) <==> n >= page.1)
    &&& rpc::Paged::after(v, page).items == v.items + page.0
    &&& rpc::Paged::after(v, page).page == if rpc::Paged::last(v, page) {
        v.page
    } else {
        v.page + 1
    }
}

/// The clients of a region have its name and the keys of the account, each for its own product; and an
/// account has the clients of its regions, in their order.
pub proof fn law_clients_of_an_account(
    g: aliyun::RegionGroup,
    p: aliyun::AliyunProvider,
    id: Seq<char>,
    secret: Seq<char>,
    region: Seq<char>,
    regions: Seq<Seq<char>>,
    i: int,
)
    ensures
        g.serves(id, secret, region) ==> {
            &&& g.region@ == region
            &&& g.swas.rpc@.product == "swas"@ && g.ecs.rpc@.product == "ecs"@ && g.cms.rpc@.product
                == "metrics"@
            &&& g.swas.rpc@.region == region && g.ecs.rpc@.region == region && g.cms.rpc@.region
                == region
            &&& g.swas.rpc@.access_key_id == id && g.ecs.rpc@.access_key_id == id
                && g.cms.rpc@.access_key_id == id
            &&& g.swas.rpc@.access_key_secret == secret && g.ecs.rpc@.access_key_secret == secret
                && g.cms.rpc@.access_key_secret == secret
        },
        p.serves(id, secret, regions) ==> p.groups@.len() == regions.len() && (0 <= i < regions.len()
            ==> p.groups@[i].serves(id, secret, regions[i])),
{
}

/// What the regions answered is taken as it was given, region by region.
pub proof fn law_answers_as_given<T>(
    groups: Seq<aliyun::RegionGroup>,
    outcomes: Seq<Result<Vec<swas::SwasInstance>, crate::error::OpsError>>,
    others: Seq<Result<T, crate::error::OpsError>>,
    i: int,
)
    ensures
        aliyun::region_names(groups).len() == groups.len(),
        0 <= i < groups.len() ==> aliyun::region_names(groups)[i] == groups[i].region@,
        aliyun::instances_listed(outcomes).len() == outcomes.len(),
        0 <= i < outcomes.len() ==> (match outcomes[i] {
            Ok(v) => aliyun::instances_listed(outcomes)[i] == Ok::<
                Seq<SwasInstanceView>,
                Seq<char>,
            >(text::views(v@)),
            Err(e) => aliyun::instances_listed(outcomes)[i] == Err::<
                Seq<SwasInstanceView>,
                Seq<char>,
            >(e.message@),
        }),
        aliyun::answers(others).len() == others.len(),
        0 <= i < others.len() ==> (match others[i] {
            Ok(v) => aliyun::answers(others)[i] == Ok::<T, Seq<char>>(v),
            Err(e) => aliyun::answers(others)[i] == Err::<T, Seq<char>>(e.message@),
        }),
{
}

/// A scan in which every region failed: some did, none answered and none lacked permission.
pub proof fn law_failed_scans<T>(s: aliyun::RegionScan<T>)
    ensures
        s.all_failed() <==> s.failed@.len() > 0 && s.items@.len() == 0 && s.no_perm@.len() == 0,
{
}

/// The catalogue's answer is taken where there is one, even an empty one; only where it failed are all
/// regions of the product asked for, and where that failed too, nothing is found.
pub proof fn law_where_regions_come_from(
    catalog: Result<Seq<Seq<char>>, Seq<char>>,
    all: Result<Seq<Seq<char>>, Seq<char>>,
)
    ensures
        aliyun::looked(catalog) == (match catalog {
            Ok(v) => aliyun::LookView::Found(FoundView::Catalog(v)),
            Err(e) => aliyun::LookView::AskRegions(e),
        }),
        aliyun::fallen_back(all) == (match all {
            Ok(v) => FoundView::Regions(v),
            Err(_) => FoundView::Nothing,
        }),
        aliyun::found_by(catalog, all) == (match (catalog, all) {
            (Ok(v), _) => FoundView::Catalog(v),
            (Err(_), Ok(v)) => FoundView::Regions(v),
            (Err(_), Err(_)) => FoundView::Nothing,
        }),
{
}

/// What was found is known by its regions.
pub proof fn law_what_was_found(f: aliyun::Found, l: aliyun::Look)
    ensures
        f@ == (match f {
            aliyun::Found::Catalog(v) => FoundView::Catalog(text::views(v@)),
            aliyun::Found::Regions(v) => FoundView::Regions(text::views(v@)),
            aliyun::Found::Nothing => FoundView::Nothing,
        }),
        l@ == (match l {
            aliyun::Look::Found(x) => aliyun::LookView::Found(x@),
            aliyun::Look::AskRegions(e) => aliyun::LookView::AskRegions(e.message@),
        }),
{
}

/// Waiting: the clock is looked at first, and only before the end is the list asked for; the list ends
/// it where the snapshot is ready or has failed, and else the clock is looked at again.
pub proof fn law_rounds_of_waiting(
    v: swas::WaitView,
    elapsed: time::Span,
    snaps: Seq<swas::SwasSnapshotView>,
)
    ensures
        ({
            let over = elapsed.secs * 1_000_000_000 + elapsed.nanos >= v.timeout.secs * 1_000_000_000
                + v.timeout.nanos;
            &&& v.is_over(elapsed) == over
            &&& v.after_clock(elapsed).phase == if over {
                swas::WaitPhase::Ended
            } else {
                swas::WaitPhase::Polling
            }
            &&& v.after_list(snaps).phase == if swas::readiness_of(snaps, v.snapshot_id) is Pending {
                swas::WaitPhase::Due
            } else {
                swas::WaitPhase::Ended
            }
            &&& v.after_clock(elapsed).snapshot_id == v.snapshot_id && v.after_clock(elapsed).timeout
                == v.timeout
            &&& v.after_list(snaps).snapshot_id == v.snapshot_id && v.after_list(snaps).timeout
                == v.timeout
        }),
{
}

} // verus!
