//! Whether the disks of ECS instances have an automatic snapshot policy.

use vstd::prelude::*;
use crate::cloud;
use crate::cloud::aliyun::ecs;
use crate::cloud::aliyun::ecs::{EcsAutoSnapshotPolicy, EcsDisk};
use crate::cloud::Server;
use crate::text;

verus! {

/// The policy of a disk.
#[derive(Debug)]
pub struct DiskSnapshotStatus {
    pub disk_id: String,
    /// `system` or `data`.
    pub disk_type: String,
    /// The policy; empty where the disk has none.
    pub policy_id: String,
}

/// What is known of a disk.
pub struct DiskPolicyView {
    pub disk_id: Seq<char>,
    pub disk_type: Seq<char>,
    pub policy_id: Seq<char>,
}

impl View for DiskSnapshotStatus {
    type V = DiskPolicyView;

    open spec fn view(&self) -> DiskPolicyView {
        DiskPolicyView {
            disk_id: self.disk_id@,
            disk_type: self.disk_type@,
            policy_id: self.policy_id@,
        }
    }
}

/// The disks of an instance and their policies.
#[derive(Debug)]
pub struct AutoSnapshotStatus {
    pub server: Server,
    pub disks: Vec<DiskSnapshotStatus>,
    /// The policies in words, each once.
    pub policy_summaries: Vec<String>,
}

/// What is known of the disks of an instance.
pub struct AutoSnapshotView {
    pub server: cloud::ServerView,
    pub disks: Seq<DiskPolicyView>,
    pub policy_summaries: Seq<Seq<char>>,
}

impl View for AutoSnapshotStatus {
    type V = AutoSnapshotView;

    open spec fn view(&self) -> AutoSnapshotView {
        AutoSnapshotView {
            server: self.server@,
            disks: text::views(self.disks@),
            policy_summaries: text::views(self.policy_summaries@),
        }
    }
}

impl AutoSnapshotView {
    /// Whether a disk has a policy.
    pub open spec fn is_protected(self) -> bool {
        exists|i: int| 0 <= i < self.disks.len() && (#[trigger] self.disks[i]).policy_id.len() > 0
    }
}

impl AutoSnapshotStatus {
    /// Whether a disk has a policy.
    pub fn protected(&self) -> (r: bool)
        ensures
            r == self@.is_protected(),
    {
        let mut i: usize = 0;
        while i < self.disks.len()
            invariant
                i <= self.disks.len(),
                forall|k: int| 0 <= k < i ==> (#[trigger] self@.disks[k]).policy_id.len() == 0,
            decreases self.disks.len() - i,
        {
            assert(self@.disks[i as int] == self.disks@[i as int]@);
            if !self.disks[i].policy_id.as_str().is_empty() {
                return true;
            }
            i = i + 1;
        }
        false
    }
}

/// The first policy with the identifier.
pub open spec fn policy_by_id(policies: Seq<ecs::PolicyView>, id: Seq<char>) -> Option<
    ecs::PolicyView,
>
    decreases policies.len(),
{
    if policies.len() == 0 {
        None
    } else if policies[0].policy_id == id {
        Some(policies[0])
    } else {
        policy_by_id(policies.drop_first(), id)
    }
}

/// The disk and its policy.
pub open spec fn disk_policy(d: ecs::EcsDiskView) -> DiskPolicyView {
    DiskPolicyView {
        disk_id: d.disk_id,
        disk_type: d.disk_type,
        policy_id: d.auto_snapshot_policy_id,
    }
}

/// The policy of the disk in words, where it has one that is known.
pub open spec fn disk_summary(d: ecs::EcsDiskView, policies: Seq<ecs::PolicyView>) -> Option<
    Seq<char>,
> {
    if d.auto_snapshot_policy_id.len() == 0 {
        None
    } else {
        match policy_by_id(policies, d.auto_snapshot_policy_id) {
            Some(p) => Some(ecs::policy_summary(p)),
            None => None,
        }
    }
}

/// The policies of the disks in words, each once, in the order of the disks.
pub open spec fn summaries_of(disks: Seq<ecs::EcsDiskView>, policies: Seq<ecs::PolicyView>) -> Seq<
    Seq<char>,
>
    decreases disks.len(),
{
    if disks.len() == 0 {
        Seq::empty()
    } else {
        let before = summaries_of(disks.drop_last(), policies);
        match disk_summary(disks.last(), policies) {
            Some(s) => if before.contains(s) {
                before
            } else {
                before.push(s)
            },
            None => before,
        }
    }
}

/// The disks of the server and their policies.
pub open spec fn status_of(
    server: cloud::ServerView,
    disks: Seq<ecs::EcsDiskView>,
    policies: Seq<ecs::PolicyView>,
) -> AutoSnapshotView {
    AutoSnapshotView {
        server,
        disks: Seq::new(disks.len(), |i: int| disk_policy(disks[i])),
        policy_summaries: summaries_of(disks, policies),
    }
}

/// The policy with the identifier in words.
fn summary_by_id(policies: &Vec<EcsAutoSnapshotPolicy>, id: &str) -> (r: Option<String>)
    ensures
        match policy_by_id(text::views(policies@), id@) {
            Some(p) => r matches Some(s) && s@ == ecs::policy_summary(p),
            None => r is None,
        },
{
    let ghost all = text::views(policies@);
    let mut i: usize = 0;
    assert(all.skip(0) =~= all);
    while i < policies.len()
        invariant
            i <= policies.len(),
            all == text::views(policies@),
            policy_by_id(all, id@) == policy_by_id(all.skip(i as int), id@),
        decreases policies.len() - i,
    {
        assert(all.skip(i as int)[0] == policies@[i as int]@);
        if text::same(policies[i].policy_id.as_str(), id) {
            return Some(policies[i].summary());
        }
        assert(all.skip(i as int).drop_first() =~= all.skip(i + 1));
        i = i + 1;
    }
    None
}

/// The disks of one server and their policies.
pub fn auto_snapshot_status(
    server: Server,
    disks: Vec<EcsDisk>,
    policies: &Vec<EcsAutoSnapshotPolicy>,
) -> (r: AutoSnapshotStatus)
    ensures
        r@ == status_of(server@, text::views(disks@), text::views(policies@)),
{
    let ghost dv = text::views(disks@);
    let ghost pv = text::views(policies@);
    let mut disk_status: Vec<DiskSnapshotStatus> = Vec::new();
    let mut summaries: Vec<String> = Vec::new();
    assert(text::views(summaries@) =~= summaries_of(dv.take(0), pv));
    for d in it: disks
        invariant
            it.seq() == disks@,
            dv == text::views(disks@),
            pv == text::views(policies@),
            text::views(disk_status@) == Seq::new(it.index() as nat, |k: int| disk_policy(dv[k])),
            text::views(summaries@) == summaries_of(dv.take(it.index() as int), pv),
    {
        let ghost i = it.index() as int;
        let ghost v = d@;
        assert(dv[i] == v);
        assert(dv.take(i + 1).drop_last() =~= dv.take(i));
        assert(dv.take(i + 1).last() == v);
        if !d.auto_snapshot_policy_id.as_str().is_empty() {
            if let Some(s) = summary_by_id(policies, d.auto_snapshot_policy_id.as_str()) {
                if !text::contains_text(&summaries, s.as_str()) {
                    proof {
                        text::lemma_views_push(summaries@, s);
                    }
                    summaries.push(s);
                }
            }
        }
        let x = DiskSnapshotStatus {
            disk_id: d.disk_id,
            disk_type: d.disk_type,
            policy_id: d.auto_snapshot_policy_id,
        };
        proof {
            text::lemma_views_push(disk_status@, x);
        }
        disk_status.push(x);
        assert(text::views(disk_status@) =~= Seq::new(
            (i + 1) as nat,
            |k: int| disk_policy(dv[k]),
        ));
    }
    assert(dv.take(disks@.len() as int) =~= dv);
    assert(text::views(disk_status@) =~= Seq::new(dv.len(), |k: int| disk_policy(dv[k])));
    AutoSnapshotStatus { server, disks: disk_status, policy_summaries: summaries }
}

/// The disks of the servers and their policies.
pub open spec fn statuses_of(
    servers: Seq<(Server, Vec<EcsDisk>)>,
    policies: Seq<ecs::PolicyView>,
) -> Seq<AutoSnapshotView> {
    Seq::new(
        servers.len(),
        |i: int| status_of(servers[i].0@, text::views(servers[i].1@), policies),
    )
}

/// The disks of all servers of a region and their policies.
pub fn check_auto_snapshot(
    servers: Vec<(Server, Vec<EcsDisk>)>,
    policies: &Vec<EcsAutoSnapshotPolicy>,
) -> (r: Vec<AutoSnapshotStatus>)
    ensures
        text::views(r@) == statuses_of(servers@, text::views(policies@)),
{
    let ghost pv = text::views(policies@);
    let mut out: Vec<AutoSnapshotStatus> = Vec::new();
    for x in it: servers
        invariant
            it.seq() == servers@,
            pv == text::views(policies@),
            text::views(out@) == statuses_of(servers@, pv).take(it.index() as int),
    {
        let ghost i = it.index() as int;
        let (server, disks) = x;
        let s = auto_snapshot_status(server, disks, policies);
        proof {
            text::lemma_views_push(out@, s);
            assert(statuses_of(servers@, pv).take(i + 1) =~= statuses_of(servers@, pv).take(i).push(
                s@,
            ));
        }
        out.push(s);
    }
    assert(statuses_of(servers@, pv).take(servers@.len() as int) =~= statuses_of(servers@, pv));
    out
}

/// Each policy is told once, and only policies that a disk has.
pub proof fn law_summaries_are_unique(
    disks: Seq<ecs::EcsDiskView>,
    policies: Seq<ecs::PolicyView>,
)
    ensures
        summaries_of(disks, policies).no_duplicates(),
        forall|s: Seq<char>| #[trigger]
            summaries_of(disks, policies).contains(s) <==> exists|i: int|
                0 <= i < disks.len() && disk_summary(#[trigger] disks[i], policies) == Some(s),
    decreases disks.len(),
{
    let after = summaries_of(disks, policies);
    if disks.len() > 0 {
        let init = disks.drop_last();
        law_summaries_are_unique(init, policies);
        let before = summaries_of(init, policies);
        assert forall|s: Seq<char>| #[trigger]
            after.contains(s) <==> exists|i: int|
                0 <= i < disks.len() && disk_summary(#[trigger] disks[i], policies) == Some(s) by {
            if after.contains(s) {
                let k = choose|k: int| 0 <= k < after.len() && after[k] == s;
                if k < before.len() {
                    assert(before[k] == s);
                    assert(before.contains(s));
                    let i = choose|i: int|
                        0 <= i < init.len() && disk_summary(#[trigger] init[i], policies) == Some(s);
                    assert(disks[i] == init[i]);
                } else {
                    assert(disk_summary(disks[disks.len() - 1], policies) == Some(s));
                }
            }
            if exists|i: int|
                0 <= i < disks.len() && disk_summary(#[trigger] disks[i], policies) == Some(s) {
                let i = choose|i: int|
                    0 <= i < disks.len() && disk_summary(#[trigger] disks[i], policies) == Some(s);
                if i < init.len() {
                    assert(init[i] == disks[i]);
                    assert(before.contains(s));
                    let k = choose|k: int| 0 <= k < before.len() && before[k] == s;
                    assert(after[k] == s);
                } else if !before.contains(s) {
                    assert(after[before.len() as int] == s);
                }
            }
        }
    } else {
        assert forall|s: Seq<char>| !(#[trigger] after.contains(s)) by {}
    }
}

// ---------------------------------------------------------------------------
// In words
// ---------------------------------------------------------------------------

/// A disk in words.
pub open spec fn disk_text(d: DiskPolicyView) -> Seq<char> {
    d.disk_id + " ("@ + d.disk_type + ")"@
}

/// What is said of an instance behind its mark.
pub open spec fn detail_text(s: AutoSnapshotView) -> Seq<char> {
    if s.is_protected() {
        "策略: "@ + text::join(s.policy_summaries, "，"@)
    } else {
        "磁盘: "@ + text::join(Seq::new(s.disks.len(), |i: int| disk_text(s.disks[i])), ", "@)
    }
}

/// The line for an instance.
pub open spec fn status_line(x: (Seq<char>, Seq<char>, AutoSnapshotView)) -> Seq<char> {
    "- "@ + x.0 + "/"@ + x.1 + ": "@ + x.2.server.name + " ("@ + x.2.server.id + ") ["@ + (
    if x.2.is_protected() {
        "已开启"@
    } else {
        "未开启"@
    }) + "] "@ + detail_text(x.2) + "\n"@
}

/// The report.
pub open spec fn autosnapshot_report(items: Seq<(Seq<char>, Seq<char>, AutoSnapshotView)>) -> Seq<
    char,
> {
    "=== ECS 自动快照检查 ===\n"@ + text::concat(
        Seq::new(items.len(), |i: int| status_line(items[i])),
    )
}

/// The line for an instance.
fn print_status_line(project: &str, kind: &str, s: &AutoSnapshotStatus) -> (r: String)
    ensures
        r@ == status_line((project@, kind@, s@)),
{
    let protected = s.protected();
    let mut detail = String::new();
    if protected {
        detail = "策略: ".to_owned();
        let j = text::join_strings(&s.policy_summaries, "，");
        detail.append(j.as_str());
    } else {
        let ghost all = Seq::new(s@.disks.len(), |k: int| disk_text(s@.disks[k]));
        let mut disks: Vec<String> = Vec::new();
        let mut i: usize = 0;
        while i < s.disks.len()
            invariant
                i <= s.disks.len(),
                all == Seq::new(s@.disks.len(), |k: int| disk_text(s@.disks[k])),
                text::views(disks@) == all.take(i as int),
            decreases s.disks.len() - i,
        {
            assert(s@.disks[i as int] == s.disks@[i as int]@);
            let mut d = s.disks[i].disk_id.clone();
            d.append(" (");
            d.append(s.disks[i].disk_type.as_str());
            d.append(")");
            proof {
                text::lemma_views_push(disks@, d);
                assert(all.take(i + 1) =~= all.take(i as int).push(d@));
            }
            disks.push(d);
            i = i + 1;
        }
        assert(all.take(i as int) =~= all);
        detail = "磁盘: ".to_owned();
        let j = text::join_strings(&disks, ", ");
        detail.append(j.as_str());
    }
    let mut m = "- ".to_owned();
    m.append(project);
    m.append("/");
    m.append(kind);
    m.append(": ");
    m.append(s.server.name.as_str());
    m.append(" (");
    m.append(s.server.id.as_str());
    m.append(") [");
    if protected {
        m.append("已开启");
    } else {
        m.append("未开启");
    }
    m.append("] ");
    m.append(detail.as_str());
    m.append("\n");
    m
}

/// The report: a line for each instance, with its policies or, where it has none, its disks.
pub fn render_autosnapshot(items: &[(String, String, AutoSnapshotStatus)]) -> (r: String)
    ensures
        r@ == autosnapshot_report(text::views(items@)),
{
    let ghost all = text::views(items@);
    let ghost lines = Seq::new(all.len(), |k: int| status_line(all[k]));
    let ghost head = "=== ECS 自动快照检查 ===\n"@;
    let mut out = "=== ECS 自动快照检查 ===\n".to_owned();
    let mut i: usize = 0;
    assert(head + text::concat(lines.take(0)) =~= head);
    while i < items.len()
        invariant
            i <= items.len(),
            all == text::views(items@),
            lines == Seq::new(all.len(), |k: int| status_line(all[k])),
            out@ == head + text::concat(lines.take(i as int)),
        decreases items.len() - i,
    {
        assert(all[i as int] == items@[i as int]@);
        let line = print_status_line(items[i].0.as_str(), items[i].1.as_str(), &items[i].2);
        out.append(line.as_str());
        proof {
            assert(lines.take(i + 1) =~= lines.take(i as int).push(line@));
            text::lemma_concat_push(lines.take(i as int), line@);
            assert(head + text::concat(lines.take(i as int)) + line@ =~= head + (text::concat(
                lines.take(i as int),
            ) + line@));
        }
        i = i + 1;
    }
    assert(lines.take(i as int) =~= lines);
    out
}

/// The instances without a policy.
pub open spec fn unprotected_of(items: Seq<(Seq<char>, Seq<char>, AutoSnapshotView)>) -> Seq<
    (Seq<char>, Seq<char>, AutoSnapshotView),
>
    decreases items.len(),
{
    if items.len() == 0 {
        Seq::empty()
    } else if items.last().2.is_protected() {
        unprotected_of(items.drop_last())
    } else {
        unprotected_of(items.drop_last()).push(items.last())
    }
}

/// The instances without a policy.
pub fn unprotected(items: Vec<(String, String, AutoSnapshotStatus)>) -> (r: Vec<
    (String, String, AutoSnapshotStatus),
>)
    ensures
        text::views(r@) == unprotected_of(text::views(items@)),
{
    let ghost all = text::views(items@);
    let mut out: Vec<(String, String, AutoSnapshotStatus)> = Vec::new();
    assert(text::views(out@) =~= unprotected_of(all.take(0)));
    for x in it: items
        invariant
            it.seq() == items@,
            all == text::views(items@),
            text::views(out@) == unprotected_of(all.take(it.index() as int)),
    {
        let ghost i = it.index() as int;
        assert(all.take(i + 1).drop_last() =~= all.take(i));
        assert(all.take(i + 1).last() == x@);
        if !x.2.protected() {
            proof {
                text::lemma_views_push(out@, x);
            }
            out.push(x);
        }
    }
    assert(all.take(items@.len() as int) =~= all);
    out
}

/// The title of the notice on instances without a policy.
pub fn unprotected_title(count: usize) -> (r: String)
    ensures
        r@ == "ECS 自动快照检查: "@ + text::dec(count as nat) + " 台未开启"@,
{
    let mut m = "ECS 自动快照检查: ".to_owned();
    let n = text::print_usize(count);
    m.append(n.as_str());
    m.append(" 台未开启");
    m
}

} // verus!
