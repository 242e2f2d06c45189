//! What is known of a value is all that it holds.

use vstd::prelude::*;
use crate::cloud::aliyun::cms::MetricPoint;
use crate::cloud::aliyun::domain::{DomainInfo, DomainItem};
use crate::cloud::aliyun::ecs::{EcsAutoSnapshotPolicy, EcsDisk, EcsInstance};
use crate::cloud::aliyun::resourcecenter::{CatalogResource, CatalogSearch, SearchResource};
use crate::cloud::aliyun::rpc::{ApiCall, Pager, RpcClient};
use crate::cloud::aliyun::swas::{SnapshotWait, SwasDisk, SwasInstance, SwasSnapshot};
use crate::cloud::{Server, Snapshot};
use crate::config::{Config, DingTalkConfig, EnvOverrides, NotifyConfig, Project, ProviderConfig, ProviderEntry};
use crate::error::OpsError;
use crate::json::Field;
use crate::notify::dingtalk::DingTalkNotifier;
use crate::ops::disk::{DiskStatus, InstanceUsage};
use crate::ops::ecs::{AutoSnapshotStatus, DiskSnapshotStatus};
use crate::ops::expiry::{DomainAlert, ExpiryAlert};
use crate::ops::snapshot::{RotateSummary, Rotation};
use crate::real64::Real64;
use crate::serve::api::{ShownProject, ShownProvider, SubmittedProject, SubmittedProvider};
use crate::serve::tasks::{CommandSpec, TaskMeta, TaskStore};
use crate::text;

verus! {

/// Of a list each element is known, and of an optional text whether it is there and what it is.
pub proof fn law_lists_and_options<T: View>(v: Seq<T>, i: int, s: String, t: &str)
    ensures
        text::views(v).len() == v.len(),
        0 <= i < v.len() ==> text::views(v)[i] == v[i]@,
        text::opt_view(Some(s)) == Some(s@),
        text::opt_view(None) is None,
        text::opt_str_view(Some(t)) == Some(t@),
        text::opt_str_view(None) is None,
{
}

/// Servers and snapshots.
pub proof fn law_servers_and_snapshots(s: Server, x: Snapshot, e: OpsError, r: Real64)
    ensures
        s@.id == s.id@ && s@.name == s.name@ && s@.region == s.region@ && s@.status == s.status@
            && s@.expired_at == s.expired_at,
        x@.id == x.id@ && x@.name == x.name@ && x@.status == x.status,
        x.created_at matches Some(t) ==> x@.created_at == Some(t@),
        x.created_at is None ==> x@.created_at is None,
        e@ == e.message@,
        r@ == r,
{
}

/// Configurations.
pub proof fn law_configurations(
    p: ProviderConfig,
    e: ProviderEntry,
    q: Project,
    d: DingTalkConfig,
    n: NotifyConfig,
    c: Config,
    v: EnvOverrides,
)
    ensures
        p@.region == p.region@ && p@.access_key_id == text::opt_view(p.access_key_id)
            && p@.access_key_secret == text::opt_view(p.access_key_secret),
        e@.kind == e.kind@ && e@.config == e.config@,
        q@.name == q.name@ && q@.description == text::opt_view(q.description) && q@.providers
            == text::views(q.providers.entries@),
        d@.webhook == d.webhook@ && d@.secret == d.secret@,
        n@.kind == n.kind@ && n@.prefix == n.prefix@ && n@.dingtalk == n.dingtalk@,
        c@.projects == text::views(c.projects@) && c@.notify == c.notify@,
        v@.access_key_id == text::opt_view(v.access_key_id) && v@.access_key_secret == text::opt_view(
            v.access_key_secret,
        ) && v@.webhook == text::opt_view(v.webhook) && v@.secret == text::opt_view(v.secret),
{
}

/// What the provider lists.
pub proof fn law_what_the_provider_lists(
    i: SwasInstance,
    d: SwasDisk,
    s: SwasSnapshot,
    e: EcsInstance,
    k: EcsDisk,
    p: EcsAutoSnapshotPolicy,
)
    ensures
        i@.instance_id == i.instance_id@ && i@.instance_name == i.instance_name@ && i@.status == i.status@
            && i@.expired_time == i.expired_time@,
        d@.disk_id == d.disk_id@ && d@.disk_type == d.disk_type@ && d@.disk_name == d.disk_name@,
        s@.snapshot_id == s.snapshot_id@ && s@.snapshot_name == s.snapshot_name@ && s@.status == s.status@
            && s@.progress == s.progress@ && s@.creation_time == s.creation_time@,
        e@.instance_id == e.instance_id@ && e@.instance_name == e.instance_name@ && e@.status == e.status@
            && e@.expired_time == e.expired_time@,
        k@.disk_id == k.disk_id@ && k@.disk_type == k.disk_type@ && k@.auto_snapshot_policy_id
            == k.auto_snapshot_policy_id@,
        p@.policy_id == p.policy_id@ && p@.name == p.name@ && p@.time_points == p.time_points@
            && p@.repeat_weekdays == p.repeat_weekdays@ && p@.retention_days == p.retention_days,
{
}

/// Points, domains and resources.
pub proof fn law_points_domains_and_resources(
    m: MetricPoint,
    d: DomainInfo,
    i: DomainItem,
    c: CatalogResource,
    r: SearchResource,
    f: Field,
)
    ensures
        m@.instance_id == m.instance_id@ && m@.device == m.device@ && m@.average == m.average,
        d@.domain_name == d.domain_name@ && d@.expired_at == d.expired_at && d@.auto_renew
            == d.auto_renew,
        i@.domain_name == i.domain_name@ && i@.expiration_date == i.expiration_date@
            && i@.auto_renew_enabled == i.auto_renew_enabled,
        c@ == c.region_id@,
        r@.resource_type == r.resource_type@ && r@.region_id == r.region_id@,
        f@.key == f.key@ && f@.value == f.value@,
{
}

/// Requests, readings and channels.
pub proof fn law_requests_and_channels<T>(
    a: ApiCall,
    c: RpcClient,
    p: Pager<T>,
    s: CatalogSearch,
    w: SnapshotWait,
    n: DingTalkNotifier,
)
    ensures
        a@.action == a.action@ && a@.version == a.version@ && a@.params.len() == a.params@.len(),
        forall|i: int|
            0 <= i < a.params@.len() ==> #[trigger] a@.params[i] == (a.params@[i].0@, a.params@[i].1@),
        c@.access_key_id == c.access_key_id@ && c@.access_key_secret == c.access_key_secret@ && c@.region
            == c.region@ && c@.product == c.product@,
        p@.page == p.page && p@.items == p.items@,
        s@.resource_type == s.resource_type@ && s@.next_token == text::opt_view(s.next_token) && s@.found
            == text::views(s.found@),
        w@.snapshot_id == w.snapshot_id@ && w@.timeout == w.timeout && w@.phase == w.phase,
        n@.webhook == n.webhook@ && n@.secret == n.secret@ && n@.prefix == n.prefix@,
{
}

/// Disks, alerts and policies.
pub proof fn law_disks_and_alerts(
    d: DiskStatus,
    u: InstanceUsage,
    k: DiskSnapshotStatus,
    a: AutoSnapshotStatus,
    e: ExpiryAlert,
    m: DomainAlert,
)
    ensures
        d@.server == d.server@ && d@.utilization == d.utilization && d@.used_bytes == d.used_bytes
            && d@.total_bytes == d.total_bytes && d@.detail == d.detail@,
        u@.max == u.max && u@.devices == text::views(u.devices@),
        k@.disk_id == k.disk_id@ && k@.disk_type == k.disk_type@ && k@.policy_id == k.policy_id@,
        a@.server == a.server@ && a@.disks == text::views(a.disks@) && a@.policy_summaries
            == text::views(a.policy_summaries@),
        e@.server == e.server@ && e@.expired_at == e.expired_at && e@.days_left == e.days_left,
        m@.domain == m.domain@ && m@.expired_at == m.expired_at && m@.days_left == m.days_left
            && m@.auto_renew == m.auto_renew,
{
}

/// Rotations.
pub proof fn law_rotations(s: RotateSummary, r: Rotation)
    ensures
        s@.server_name == s.server_name@ && s@.deleted == text::views(s.deleted@) && s@.created_id
            == text::opt_view(s.created_id) && s@.created_name == text::opt_view(s.created_name)
            && s@.remaining == s.remaining,
        r@.server_id == r.server_id@ && r@.keep == r.keep && r@.phase == r.phase && r@.summary
            == r.summary@ && r@.victims == text::views(r.victims@) && r@.failed == text::views(r.failed@)
            && r@.creating == r.creating,
{
}

/// The form and the tasks.
pub proof fn law_forms_and_tasks(
    a: ShownProvider,
    b: ShownProject,
    c: SubmittedProvider,
    d: SubmittedProject,
    s: CommandSpec,
    t: TaskMeta,
    q: TaskStore,
)
    ensures
        a@.kind == a.kind@ && a@.path == a.path@ && a@.config == a.config@,
        b@.path == b.path@ && b@.name == b.name@ && b@.description == text::opt_view(b.description)
            && b@.providers == text::views(b.providers@),
        c@.path == text::opt_view(c.path) && c@.entry == c.entry@,
        d@.path == text::opt_view(d.path) && d@.name == d.name@ && d@.description == text::opt_view(
            d.description,
        ) && d@.providers == text::views(d.providers@),
        s@.command == s.command@ && s@.project == text::opt_view(s.project) && s@.provider
            == text::opt_view(s.provider) && s@.extra == text::views(s.extra@),
        t@.id == t.id@ && t@.submitted_at == t.submitted_at@ && t@.command == t.command@ && t@.args
            == text::views(t.args@) && t@.status == t.status@ && t@.exit_code == t.exit_code
            && t@.duration_secs == t.duration_secs && t@.output_file == t.output_file@,
        q@.queue == text::views(q.queue@) && q@.history == text::views(q.history@),
        q.current matches Some(x) ==> q@.current == Some(x@),
        q.current is None ==> q@.current is None,
{
}

/// The names and versions that the provider goes by.
pub proof fn law_names_and_versions()
    ensures
        crate::config::REGION_GLOBAL@ == "global"@,
        crate::config::ALIYUN_KIND@ == "aliyun"@,
        crate::cloud::aliyun::DISCOVERY_REGION@ == "cn-hangzhou"@,
        crate::cloud::aliyun::swas::SWAS_API_VERSION@ == "2020-06-01"@,
        crate::cloud::aliyun::ecs::ECS_API_VERSION@ == "2014-05-26"@,
        crate::cloud::aliyun::cms::CMS_API_VERSION@ == "2019-01-01"@,
        crate::cloud::aliyun::cms::CMS_OK_CODE@ == "200"@,
        crate::cloud::aliyun::domain::DOMAIN_API_VERSION@ == "2018-01-29"@,
        crate::cloud::aliyun::resourcecenter::RC_API_VERSION@ == "2022-12-01"@,
        crate::cloud::aliyun::resourcecenter::TYPE_ECS_INSTANCE@ == "ACS::ECS::Instance"@,
        crate::cloud::aliyun::resourcecenter::TYPE_SWAS_INSTANCE@ == "ACS::SWAS::Instance"@,
        crate::cloud::aliyun::rpc::PAGE_SIZE_TEXT@ == "100"@,
        crate::time::BEIJING_OFFSET == 8 * 3600,
        crate::serve::tasks::TAIL_LINES == 200,
        crate::serve::tasks::STATUS_MARK@ == "__status__ "@,
        crate::serve::api::SECRET_MASK@ == "••••••••"@,
{
}

} // verus!
