//! Elastic Compute Service.

use vstd::prelude::*;
use crate::cloud;
use crate::cloud::aliyun::rpc;
use crate::cloud::aliyun::rpc::{ApiCall, RpcClient};
use crate::cloud::Server;
use crate::json;
use crate::text;
use crate::time;

verus! {

/// The version of the interface.
pub const ECS_API_VERSION: &'static str = "2014-05-26";

/// A client of the product in one region.
#[derive(Debug)]
pub struct EcsClient {
    pub rpc: RpcClient,
}

/// An instance.
#[derive(Debug)]
pub struct EcsInstance {
    pub instance_id: String,
    pub instance_name: String,
    pub status: String,
    /// When it expires, in RFC 3339; empty where it is paid by use.
    pub expired_time: String,
}

/// A disk.
#[derive(Debug)]
pub struct EcsDisk {
    pub disk_id: String,
    /// `system` or `data`.
    pub disk_type: String,
    /// The automatic snapshot policy of the disk; empty where it has none.
    pub auto_snapshot_policy_id: String,
}

/// An automatic snapshot policy.
#[derive(Debug)]
pub struct EcsAutoSnapshotPolicy {
    pub policy_id: String,
    pub name: String,
    /// The hours, as a JSON array of strings.
    pub time_points: String,
    /// The days of the week, as a JSON array of strings, Monday being 1.
    pub repeat_weekdays: String,
    pub retention_days: i32,
}

/// What is known of an instance.
pub struct EcsInstanceView {
    pub instance_id: Seq<char>,
    pub instance_name: Seq<char>,
    pub status: Seq<char>,
    pub expired_time: Seq<char>,
}

impl View for EcsInstance {
    type V = EcsInstanceView;

    open spec fn view(&self) -> EcsInstanceView {
        EcsInstanceView {
            instance_id: self.instance_id@,
            instance_name: self.instance_name@,
            status: self.status@,
            expired_time: self.expired_time@,
        }
    }
}

/// What is known of a disk.
pub struct EcsDiskView {
    pub disk_id: Seq<char>,
    pub disk_type: Seq<char>,
    pub auto_snapshot_policy_id: Seq<char>,
}

impl View for EcsDisk {
    type V = EcsDiskView;

    open spec fn view(&self) -> EcsDiskView {
        EcsDiskView {
            disk_id: self.disk_id@,
            disk_type: self.disk_type@,
            auto_snapshot_policy_id: self.auto_snapshot_policy_id@,
        }
    }
}

/// What is known of a policy.
pub struct PolicyView {
    pub policy_id: Seq<char>,
    pub name: Seq<char>,
    pub time_points: Seq<char>,
    pub repeat_weekdays: Seq<char>,
    pub retention_days: i32,
}

impl View for EcsAutoSnapshotPolicy {
    type V = PolicyView;

    open spec fn view(&self) -> PolicyView {
        PolicyView {
            policy_id: self.policy_id@,
            name: self.name@,
            time_points: self.time_points@,
            repeat_weekdays: self.repeat_weekdays@,
            retention_days: self.retention_days,
        }
    }
}

// ---------------------------------------------------------------------------
// Policies in words
// ---------------------------------------------------------------------------

/// The hour as a time of day.
pub open spec fn time_point(hour: Seq<char>) -> Seq<char> {
    text::pad_left(hour, '0', 2) + ":00"@
}

/// The hours as times of day; where they are no list of strings, what stands there.
pub open spec fn time_points_text(hours: Option<Seq<Seq<char>>>, raw: Seq<char>) -> Seq<char> {
    match hours {
        Some(v) => text::join(Seq::new(v.len(), |i: int| time_point(v[i])), ","@),
        None => raw,
    }
}

/// The name of a day, which is a number from 1 to 7; anything else as it stands.
pub open spec fn weekday(day: Seq<char>) -> Seq<char> {
    match text::parse_nat(day) {
        Some(n) => if n == 1 {
            "周一"@
        } else if n == 2 {
            "周二"@
        } else if n == 3 {
            "周三"@
        } else if n == 4 {
            "周四"@
        } else if n == 5 {
            "周五"@
        } else if n == 6 {
            "周六"@
        } else if n == 7 {
            "周日"@
        } else {
            day
        },
        None => day,
    }
}

/// The names of the days; where they are no list of strings, what stands there.
pub open spec fn weekdays_text(days: Option<Seq<Seq<char>>>, raw: Seq<char>) -> Seq<char> {
    match days {
        Some(v) => text::join(Seq::new(v.len(), |i: int| weekday(v[i])), ","@),
        None => raw,
    }
}

/// The parts of a policy's summary, given its hours and days in words.
pub open spec fn summary_parts(p: PolicyView, hours: Seq<char>, days: Seq<char>) -> Seq<Seq<char>> {
    let a = if p.time_points.len() > 0 {
        seq!["触发 "@ + hours]
    } else {
        Seq::empty()
    };
    let b = if p.repeat_weekdays.len() > 0 {
        a.push(days)
    } else {
        a
    };
    if p.retention_days > 0 {
        b.push("保留 "@ + text::dec(p.retention_days as nat) + " 天"@)
    } else {
        b
    }
}

/// The summary, given the hours and days in words.
pub open spec fn summary_with(p: PolicyView, hours: Seq<char>, days: Seq<char>) -> Seq<char> {
    let parts = summary_parts(p, hours, days);
    if parts.len() == 0 {
        p.name
    } else {
        p.name + ("（"@ + text::join(parts, "，"@) + "）"@)
    }
}

/// The summary of a policy.
pub open spec fn policy_summary(p: PolicyView) -> Seq<char> {
    summary_with(
        p,
        time_points_text(json::string_array(json::json_document(p.time_points)), p.time_points),
        weekdays_text(
            json::string_array(json::json_document(p.repeat_weekdays)),
            p.repeat_weekdays,
        ),
    )
}

/// The hours as times of day, given what they were read as.
pub fn time_points_in_words(hours: Option<Vec<String>>, raw: &str) -> (r: String)
    ensures
        r@ == time_points_text(json::opt_strings(hours), raw@),
{
    match hours {
        Some(v) => {
            let ghost all = Seq::new(v@.len(), |i: int| time_point(text::views(v@)[i]));
            let mut parts: Vec<String> = Vec::new();
            let mut i: usize = 0;
            while i < v.len()
                invariant
                    i <= v.len(),
                    all == Seq::new(v@.len(), |k: int| time_point(text::views(v@)[k])),
                    text::views(parts@) == all.take(i as int),
                decreases v.len() - i,
            {
                assert(text::views(v@)[i as int] == v@[i as int]@);
                let mut p = text::padded_left(v[i].as_str(), '0', 2);
                p.append(":00");
                proof {
                    text::lemma_views_push(parts@, p);
                    assert(all.take(i + 1) =~= all.take(i as int).push(p@));
                }
                parts.push(p);
                i = i + 1;
            }
            assert(all.take(i as int) =~= all);
            text::join_strings(&parts, ",")
        },
        None => raw.to_owned(),
    }
}

/// The hours of a JSON array as times of day.
pub fn fmt_time_points(s: &str) -> (r: String)
    ensures
        r@ == time_points_text(json::string_array(json::json_document(s@)), s@),
{
    let hours = json::strings_of(json::read_json(s));
    time_points_in_words(hours, s)
}

/// The name of a day.
fn weekday_name(day: &str) -> (r: String)
    ensures
        r@ == weekday(day@),
{
    let n: usize = match text::parse_usize(day) {
        Some(n) => n,
        None => 0,
    };
    if n == 1 {
        "周一".to_owned()
    } else if n == 2 {
        "周二".to_owned()
    } else if n == 3 {
        "周三".to_owned()
    } else if n == 4 {
        "周四".to_owned()
    } else if n == 5 {
        "周五".to_owned()
    } else if n == 6 {
        "周六".to_owned()
    } else if n == 7 {
        "周日".to_owned()
    } else {
        day.to_owned()
    }
}

/// The names of the days, given what they were read as.
pub fn weekdays_in_words(days: Option<Vec<String>>, raw: &str) -> (r: String)
    ensures
        r@ == weekdays_text(json::opt_strings(days), raw@),
{
    match days {
        Some(v) => {
            let ghost all = Seq::new(v@.len(), |i: int| weekday(text::views(v@)[i]));
            let mut parts: Vec<String> = Vec::new();
            let mut i: usize = 0;
            while i < v.len()
                invariant
                    i <= v.len(),
                    all == Seq::new(v@.len(), |k: int| weekday(text::views(v@)[k])),
                    text::views(parts@) == all.take(i as int),
                decreases v.len() - i,
            {
                assert(text::views(v@)[i as int] == v@[i as int]@);
                let p = weekday_name(v[i].as_str());
                proof {
                    text::lemma_views_push(parts@, p);
                    assert(all.take(i + 1) =~= all.take(i as int).push(p@));
                }
                parts.push(p);
                i = i + 1;
            }
            assert(all.take(i as int) =~= all);
            text::join_strings(&parts, ",")
        },
        None => raw.to_owned(),
    }
}

/// The names of the days of a JSON array.
pub fn fmt_weekdays(s: &str) -> (r: String)
    ensures
        r@ == weekdays_text(json::string_array(json::json_document(s@)), s@),
{
    let days = json::strings_of(json::read_json(s));
    weekdays_in_words(days, s)
}

impl EcsAutoSnapshotPolicy {
    /// The summary, given the hours and days in words.
    pub fn summary_of(&self, hours: &str, days: &str) -> (r: String)
        ensures
            r@ == summary_with(self@, hours@, days@),
    {
        let mut parts: Vec<String> = Vec::new();
        assert(text::views(parts@) =~= Seq::<Seq<char>>::empty());
        if !self.time_points.as_str().is_empty() {
            let mut p = "触发 ".to_owned();
            p.append(hours);
            proof {
                text::lemma_views_push(parts@, p);
            }
            parts.push(p);
            assert(text::views(parts@) =~= seq!["触发 "@ + hours@]);
        }
        if !self.repeat_weekdays.as_str().is_empty() {
            let p = days.to_owned();
            proof {
                text::lemma_views_push(parts@, p);
            }
            parts.push(p);
        }
        if self.retention_days > 0 {
            let mut p = "保留 ".to_owned();
            let n = text::print_u64(self.retention_days as u64);
            p.append(n.as_str());
            p.append(" 天");
            proof {
                text::lemma_views_push(parts@, p);
            }
            parts.push(p);
        }
        assert(text::views(parts@) == summary_parts(self@, hours@, days@));
        let mut s = self.name.clone();
        if !parts.is_empty() {
            let mut tail = "（".to_owned();
            let j = text::join_strings(&parts, "，");
            tail.append(j.as_str());
            tail.append("）");
            s.append(tail.as_str());
        }
        s
    }

    /// The policy in words: its name, and in brackets when it runs and how long snapshots are kept.
    pub fn summary(&self) -> (r: String)
        ensures
            r@ == policy_summary(self@),
    {
        let hours = fmt_time_points(self.time_points.as_str());
        let days = fmt_weekdays(self.repeat_weekdays.as_str());
        self.summary_of(hours.as_str(), days.as_str())
    }
}

// ---------------------------------------------------------------------------
// Calls and replies
// ---------------------------------------------------------------------------

impl EcsClient {
    /// A client in the region.
    pub fn new(access_key_id: &str, access_key_secret: &str, region: &str) -> (c: EcsClient)
        ensures
            c.rpc@ == (rpc::RpcView {
                access_key_id: access_key_id@,
                access_key_secret: access_key_secret@,
                region: region@,
                product: "ecs"@,
            }),
    {
        EcsClient { rpc: RpcClient::new(access_key_id, access_key_secret, region, "ecs") }
    }

    /// The call, page by page, for the instances.
    pub fn list_instances<'a>(&self) -> (c: ApiCall<'a>)
        ensures
            c@ == (rpc::CallView {
                action: "DescribeInstances"@,
                version: ECS_API_VERSION@,
                params: Seq::empty(),
            }),
    {
        ApiCall::plain("DescribeInstances", ECS_API_VERSION)
    }

    /// The call, page by page, for the disks of an instance.
    pub fn list_disks<'a>(&self, instance_id: &'a str) -> (c: ApiCall<'a>)
        ensures
            c@ == (rpc::CallView {
                action: "DescribeDisks"@,
                version: ECS_API_VERSION@,
                params: seq![("InstanceId"@, instance_id@)],
            }),
    {
        let c = ApiCall::plain("DescribeDisks", ECS_API_VERSION).with("InstanceId", instance_id);
        assert(c@.params =~= seq![("InstanceId"@, instance_id@)]);
        c
    }

    /// The call, page by page, for the automatic snapshot policies.
    pub fn list_auto_snapshot_policies<'a>(&self) -> (c: ApiCall<'a>)
        ensures
            c@ == (rpc::CallView {
                action: "DescribeAutoSnapshotPolicyEx"@,
                version: ECS_API_VERSION@,
                params: Seq::empty(),
            }),
    {
        ApiCall::plain("DescribeAutoSnapshotPolicyEx", ECS_API_VERSION)
    }

    /// The call for all regions of the product.
    pub fn describe_regions<'a>(&self) -> (c: ApiCall<'a>)
        ensures
            c@ == (rpc::CallView {
                action: "DescribeRegions"@,
                version: ECS_API_VERSION@,
                params: Seq::empty(),
            }),
    {
        ApiCall::plain("DescribeRegions", ECS_API_VERSION)
    }

    /// The instances as servers of the client's region.
    pub fn list_servers(&self, instances: Vec<EcsInstance>) -> (r: Vec<Server>)
        ensures
            text::views(r@) == servers_in(text::views(instances@), self.rpc@.region),
            forall|k: int| 0 <= k < r@.len() ==> (#[trigger] r@[k]).wf(),
    {
        let ghost all = servers_in(text::views(instances@), self.rpc@.region);
        let mut out: Vec<Server> = Vec::new();
        for i in it: instances
            invariant
                it.seq() == instances@,
                all == servers_in(text::views(instances@), self.rpc@.region),
                text::views(out@) == all.take(it.index() as int),
                forall|k: int| 0 <= k < out@.len() ==> (#[trigger] out@[k]).wf(),
        {
            let ghost n = it.index() as int;
            assert(text::views(instances@)[n] == i@);
            let expired_at = rpc::parse_expired_time(i.expired_time.as_str());
            let name = if i.instance_name.as_str().is_empty() {
                i.instance_id.clone()
            } else {
                i.instance_name
            };
            let s = Server {
                id: i.instance_id,
                name,
                region: self.rpc.region().to_owned(),
                status: i.status,
                expired_at,
            };
            proof {
                text::lemma_views_push(out@, s);
                assert(all.take(n + 1) =~= all.take(n).push(s@));
            }
            out.push(s);
        }
        assert(all.take(instances@.len() as int) =~= all);
        out
    }
}

/// The instance as a server of the region.
pub open spec fn server_of(i: EcsInstanceView, region: Seq<char>) -> cloud::ServerView {
    cloud::ServerView {
        id: i.instance_id,
        name: cloud::name_or(i.instance_name, i.instance_id),
        region,
        status: i.status,
        expired_at: time::instant(rpc::expiry_time(i.expired_time)),
    }
}

/// The instances as servers of the region.
pub open spec fn servers_in(instances: Seq<EcsInstanceView>, region: Seq<char>) -> Seq<
    cloud::ServerView,
> {
    Seq::new(instances.len(), |k: int| server_of(instances[k], region))
}

} // verus!
