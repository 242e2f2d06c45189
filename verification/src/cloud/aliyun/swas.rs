//! Simple Application Servers.

use vstd::prelude::*;
use crate::cloud::aliyun::rpc;
use crate::cloud::aliyun::rpc::{ApiCall, RpcClient};
use crate::cloud;
use crate::cloud::{Server, Snapshot, SnapshotStatus};
use crate::error::OpsError;
use crate::sort;
use crate::text;
use crate::time;
use crate::time::Span;

verus! {

/// The version of the interface.
pub const SWAS_API_VERSION: &'static str = "2020-06-01";

/// A client of the product in one region.
#[derive(Debug)]
pub struct SwasClient {
    pub rpc: RpcClient,
}

/// A page of instances.
#[derive(Debug)]
pub struct ListInstancesResponse {
    pub instances: Vec<SwasInstance>,
    pub total_count: i32,
}

/// An instance.
#[derive(Debug)]
pub struct SwasInstance {
    pub instance_id: String,
    pub instance_name: String,
    pub status: String,
    /// When it expires, in RFC 3339; empty where it is paid by use.
    pub expired_time: String,
}

/// The disks of an instance.
#[derive(Debug)]
pub struct ListDisksResponse {
    pub disks: Vec<SwasDisk>,
    pub total_count: i32,
}

/// A disk.
#[derive(Debug)]
pub struct SwasDisk {
    pub disk_id: String,
    /// `System` or `Data`.
    pub disk_type: String,
    pub disk_name: String,
}

/// A page of snapshots.
#[derive(Debug)]
pub struct ListSnapshotsResponse {
    pub snapshots: Vec<SwasSnapshot>,
    pub total_count: i32,
}

/// A snapshot.
#[derive(Debug)]
pub struct SwasSnapshot {
    pub snapshot_id: String,
    pub snapshot_name: String,
    pub status: String,
    /// How far it has come, in percent.
    pub progress: String,
    pub creation_time: String,
}

/// The snapshot that was begun.
#[derive(Debug)]
pub struct CreateSnapshotResponse {
    pub snapshot_id: String,
}

/// What is known of an instance.
pub struct SwasInstanceView {
    pub instance_id: Seq<char>,
    pub instance_name: Seq<char>,
    pub status: Seq<char>,
    pub expired_time: Seq<char>,
}

impl View for SwasInstance {
    type V = SwasInstanceView;

    open spec fn view(&self) -> SwasInstanceView {
        SwasInstanceView {
            instance_id: self.instance_id@,
            instance_name: self.instance_name@,
            status: self.status@,
            expired_time: self.expired_time@,
        }
    }
}

/// What is known of a disk.
pub struct SwasDiskView {
    pub disk_id: Seq<char>,
    pub disk_type: Seq<char>,
    pub disk_name: Seq<char>,
}

impl View for SwasDisk {
    type V = SwasDiskView;

    open spec fn view(&self) -> SwasDiskView {
        SwasDiskView {
            disk_id: self.disk_id@,
            disk_type: self.disk_type@,
            disk_name: self.disk_name@,
        }
    }
}

/// What is known of a snapshot.
pub struct SwasSnapshotView {
    pub snapshot_id: Seq<char>,
    pub snapshot_name: Seq<char>,
    pub status: Seq<char>,
    pub progress: Seq<char>,
    pub creation_time: Seq<char>,
}

impl View for SwasSnapshot {
    type V = SwasSnapshotView;

    open spec fn view(&self) -> SwasSnapshotView {
        SwasSnapshotView {
            snapshot_id: self.snapshot_id@,
            snapshot_name: self.snapshot_name@,
            status: self.status@,
            progress: self.progress@,
            creation_time: self.creation_time@,
        }
    }
}

// ---------------------------------------------------------------------------
// Calls
// ---------------------------------------------------------------------------

/// The disk that a snapshot is taken of: the first system disk, else the first one.
pub open spec fn snapshot_disk(disks: Seq<SwasDiskView>) -> Option<SwasDiskView> {
    match first_of_type(disks, "System"@) {
        Some(d) => Some(d),
        None => if disks.len() > 0 {
            Some(disks[0])
        } else {
            None
        },
    }
}

/// The first disk of the type.
pub open spec fn first_of_type(disks: Seq<SwasDiskView>, disk_type: Seq<char>) -> Option<
    SwasDiskView,
>
    decreases disks.len(),
{
    if disks.len() == 0 {
        None
    } else if disks[0].disk_type == disk_type {
        Some(disks[0])
    } else {
        first_of_type(disks.drop_first(), disk_type)
    }
}

/// Where the disk stands that a snapshot is taken of.
fn find_snapshot_disk(disks: &Vec<SwasDisk>) -> (r: Option<usize>)
    ensures
        match r {
            Some(i) => i < disks@.len() && snapshot_disk(text::views(disks@)) == Some(
                disks@[i as int]@,
            ),
            None => snapshot_disk(text::views(disks@)) is None,
        },
{
    let ghost all = text::views(disks@);
    let mut i: usize = 0;
    assert(all.skip(0) =~= all);
    while i < disks.len()
        invariant
            i <= disks.len(),
            all == text::views(disks@),
            first_of_type(all, "System"@) == first_of_type(all.skip(i as int), "System"@),
        decreases disks.len() - i,
    {
        assert(all.skip(i as int)[0] == disks@[i as int]@);
        if text::same(disks[i].disk_type.as_str(), "System") {
            return Some(i);
        }
        assert(all.skip(i as int).drop_first() =~= all.skip(i + 1));
        i = i + 1;
    }
    if disks.len() > 0 {
        assert(all[0] == disks@[0]@);
        Some(0)
    } else {
        None
    }
}

impl SwasClient {
    /// A client in the region.
    pub fn new(access_key_id: &str, access_key_secret: &str, region: &str) -> (c: SwasClient)
        ensures
            c.rpc@ == (rpc::RpcView {
                access_key_id: access_key_id@,
                access_key_secret: access_key_secret@,
                region: region@,
                product: "swas"@,
            }),
    {
        SwasClient { rpc: RpcClient::new(access_key_id, access_key_secret, region, "swas") }
    }

    /// The call, page by page, for the instances.
    pub fn list_instances<'a>(&self) -> (c: ApiCall<'a>)
        ensures
            c@ == (rpc::CallView {
                action: "ListInstances"@,
                version: SWAS_API_VERSION@,
                params: Seq::empty(),
            }),
    {
        ApiCall::plain("ListInstances", SWAS_API_VERSION)
    }

    /// The call for all regions of the product.
    pub fn list_regions<'a>(&self) -> (c: ApiCall<'a>)
        ensures
            c@ == (rpc::CallView {
                action: "ListRegions"@,
                version: SWAS_API_VERSION@,
                params: Seq::empty(),
            }),
    {
        ApiCall::plain("ListRegions", SWAS_API_VERSION)
    }

    /// The call, page by page, for the snapshots of an instance.
    pub fn list_snapshots<'a>(&self, instance_id: &'a str) -> (c: ApiCall<'a>)
        ensures
            c@ == (rpc::CallView {
                action: "ListSnapshots"@,
                version: SWAS_API_VERSION@,
                params: seq![("InstanceId"@, instance_id@)],
            }),
    {
        let c = ApiCall::plain("ListSnapshots", SWAS_API_VERSION).with("InstanceId", instance_id);
        assert(c@.params =~= seq![("InstanceId"@, instance_id@)]);
        c
    }

    /// The call for the disks of an instance.
    pub fn list_disks<'a>(&self, instance_id: &'a str) -> (c: ApiCall<'a>)
        ensures
            c@ == (rpc::CallView {
                action: "ListDisks"@,
                version: SWAS_API_VERSION@,
                params: seq![("InstanceId"@, instance_id@)],
            }),
    {
        let c = ApiCall::plain("ListDisks", SWAS_API_VERSION).with("InstanceId", instance_id);
        assert(c@.params =~= seq![("InstanceId"@, instance_id@)]);
        c
    }

    /// The call that begins a snapshot of the instance, given its disks.
    pub fn create_snapshot<'a>(
        &self,
        instance_id: &str,
        disks: &'a Vec<SwasDisk>,
        name: &'a str,
    ) -> (r: Result<ApiCall<'a>, OpsError>)
        ensures
            match r {
                Ok(c) => snapshot_disk(text::views(disks@)) matches Some(d) && c@ == (
                rpc::CallView {
                    action: "CreateSnapshot"@,
                    version: SWAS_API_VERSION@,
                    params: seq![("DiskId"@, d.disk_id), ("SnapshotName"@, name@)],
                }),
                Err(e) => disks@.len() == 0 && e@ == "实例 "@ + instance_id@ + " 没有可用的磁盘"@,
            },
    {
        match find_snapshot_disk(disks) {
            Some(i) => {
                let c = ApiCall::plain("CreateSnapshot", SWAS_API_VERSION).with(
                    "DiskId",
                    disks[i].disk_id.as_str(),
                ).with("SnapshotName", name);
                assert(c@.params =~= seq![
                    ("DiskId"@, disks@[i as int]@.disk_id),
                    ("SnapshotName"@, name@),
                ]);
                Ok(c)
            },
            None => {
                let mut m = "实例 ".to_owned();
                m.append(instance_id);
                m.append(" 没有可用的磁盘");
                Err(OpsError::new(m))
            },
        }
    }

    /// The call that deletes a snapshot.
    pub fn delete_snapshot<'a>(&self, snapshot_id: &'a str) -> (c: ApiCall<'a>)
        ensures
            c@ == (rpc::CallView {
                action: "DeleteSnapshot"@,
                version: SWAS_API_VERSION@,
                params: seq![("SnapshotId"@, snapshot_id@)],
            }),
    {
        let c = ApiCall::plain("DeleteSnapshot", SWAS_API_VERSION).with("SnapshotId", snapshot_id);
        assert(c@.params =~= seq![("SnapshotId"@, snapshot_id@)]);
        c
    }
}

// ---------------------------------------------------------------------------
// Replies
// ---------------------------------------------------------------------------

/// The state that the provider's word stands for.
pub open spec fn status_of(s: Seq<char>) -> SnapshotStatus {
    if s == "Creating"@ || s == "progressing"@ {
        SnapshotStatus::Creating
    } else if s == "accomplished"@ || s == "Available"@ {
        SnapshotStatus::Available
    } else if s == "Failed"@ {
        SnapshotStatus::Failed
    } else {
        SnapshotStatus::Unknown
    }
}

/// The state that the provider's word stands for.
pub fn map_status(s: &str) -> (r: SnapshotStatus)
    ensures
        r == status_of(s@),
{
    if text::same(s, "Creating") || text::same(s, "progressing") {
        SnapshotStatus::Creating
    } else if text::same(s, "accomplished") || text::same(s, "Available") {
        SnapshotStatus::Available
    } else if text::same(s, "Failed") {
        SnapshotStatus::Failed
    } else {
        SnapshotStatus::Unknown
    }
}

/// The instance as a server of the region.
pub open spec fn server_of(i: SwasInstanceView, region: Seq<char>) -> cloud::ServerView {
    cloud::ServerView {
        id: i.instance_id,
        name: cloud::name_or(i.instance_name, i.instance_id),
        region,
        status: i.status,
        expired_at: time::instant(rpc::expiry_time(i.expired_time)),
    }
}

/// The instances as servers of the region.
pub open spec fn servers_in(instances: Seq<SwasInstanceView>, region: Seq<char>) -> Seq<
    cloud::ServerView,
> {
    Seq::new(instances.len(), |k: int| server_of(instances[k], region))
}

/// The instances as servers of the region.
pub fn servers_of(instances: Vec<SwasInstance>, region: &str) -> (r: Vec<Server>)
    ensures
        text::views(r@) == servers_in(text::views(instances@), region@),
        forall|k: int| 0 <= k < r@.len() ==> (#[trigger] r@[k]).wf(),
{
    let ghost all = servers_in(text::views(instances@), region@);
    let mut out: Vec<Server> = Vec::new();
    for i in it: instances
        invariant
            it.seq() == instances@,
            all == servers_in(text::views(instances@), region@),
            text::views(out@) == all.take(it.index() as int),
            forall|k: int| 0 <= k < out@.len() ==> (#[trigger] out@[k]).wf(),
    {
        let ghost n = it.index() as int;
        assert(text::views(instances@)[n] == i@);
        let expired_at = rpc::parse_expired_time(i.expired_time.as_str());
        let name = if i.instance_name.as_str().is_empty() {
            i.instance_id.clone()
        } else {
            i.instance_name
        };
        let s = Server {
            id: i.instance_id,
            name,
            region: region.to_owned(),
            status: i.status,
            expired_at,
        };
        proof {
            text::lemma_views_push(out@, s);
            assert(all.take(n + 1) =~= all.take(n).push(s@));
        }
        out.push(s);
    }
    assert(all.take(instances@.len() as int) =~= all);
    out
}

/// The snapshot as every provider has it.
pub open spec fn snapshot_of(s: SwasSnapshotView) -> cloud::SnapshotView {
    cloud::SnapshotView {
        id: s.snapshot_id,
        name: cloud::name_or(s.snapshot_name, s.snapshot_id),
        status: status_of(s.status),
        created_at: if s.creation_time.len() == 0 {
            None
        } else {
            Some(s.creation_time)
        },
    }
}

/// The snapshots, the oldest first.
pub open spec fn snapshots_by_age(snaps: Seq<SwasSnapshotView>) -> Seq<cloud::SnapshotView> {
    sort::stable_sort(
        Seq::new(snaps.len(), |i: int| snapshot_of(snaps[i])),
        |a: cloud::SnapshotView, b: cloud::SnapshotView| cloud::as_old_as(a, b),
    )
}

/// The snapshots as every provider has them, the oldest first.
pub fn snapshots_of(snaps: Vec<SwasSnapshot>) -> (r: Vec<Snapshot>)
    ensures
        text::views(r@) == snapshots_by_age(text::views(snaps@)),
{
    let ghost all = text::views(snaps@);
    let mut out: Vec<Snapshot> = Vec::new();
    for s in it: snaps
        invariant
            it.seq() == snaps@,
            all == text::views(snaps@),
            text::views(out@) == Seq::new(it.index() as nat, |i: int| snapshot_of(all[i])),
    {
        let ghost sv = s@;
        let status = map_status(s.status.as_str());
        let name = if s.snapshot_name.as_str().is_empty() {
            s.snapshot_id.clone()
        } else {
            s.snapshot_name
        };
        let created_at = if s.creation_time.as_str().is_empty() {
            None
        } else {
            Some(s.creation_time)
        };
        let x = Snapshot { id: s.snapshot_id, name, status, created_at };
        proof {
            assert(all[it.index() as int] == sv);
            text::lemma_views_push(out@, x);
        }
        out.push(x);
        assert(text::views(out@) =~= Seq::new(
            (it.index() + 1) as nat,
            |i: int| snapshot_of(all[i]),
        ));
    }
    assert(text::views(out@) =~= Seq::new(all.len(), |i: int| snapshot_of(all[i])));
    sort::sort_ranked(out)
}

// ---------------------------------------------------------------------------
// Waiting for a snapshot
// ---------------------------------------------------------------------------

/// How a snapshot that is waited for stands.
#[derive(Debug)]
pub enum Readiness {
    /// It can be used.
    Ready,
    /// It will never be.
    Broken(OpsError),
    /// Not yet; the text says how far it is.
    Pending(String),
}

/// How a snapshot stands, and what is said of it.
pub enum ReadinessView {
    Ready,
    Broken(Seq<char>),
    Pending(Seq<char>),
}

impl View for Readiness {
    type V = ReadinessView;

    open spec fn view(&self) -> ReadinessView {
        match *self {
            Readiness::Ready => ReadinessView::Ready,
            Readiness::Broken(e) => ReadinessView::Broken(e@),
            Readiness::Pending(s) => ReadinessView::Pending(s@),
        }
    }
}

/// The first snapshot with the identifier.
pub open spec fn find_snapshot(snaps: Seq<SwasSnapshotView>, id: Seq<char>) -> Option<
    SwasSnapshotView,
>
    decreases snaps.len(),
{
    if snaps.len() == 0 {
        None
    } else if snaps[0].snapshot_id == id {
        Some(snaps[0])
    } else {
        find_snapshot(snaps.drop_first(), id)
    }
}

/// How the snapshot stands, by the list of them.
pub open spec fn readiness_of(snaps: Seq<SwasSnapshotView>, id: Seq<char>) -> ReadinessView {
    match find_snapshot(snaps, id) {
        Some(s) => match status_of(s.status) {
            SnapshotStatus::Available => ReadinessView::Ready,
            SnapshotStatus::Failed => ReadinessView::Broken("快照 "@ + id + " 创建失败（Failed）"@),
            _ => ReadinessView::Pending(
                "等待快照 "@ + id + "... 当前: "@ + s.status + " ("@ + s.progress + ")"@,
            ),
        },
        None => ReadinessView::Pending("等待快照 "@ + id + "... 未在列表中"@),
    }
}

/// How the snapshot stands, by the list of them.
pub fn readiness(snaps: &Vec<SwasSnapshot>, snapshot_id: &str) -> (r: Readiness)
    ensures
        r@ == readiness_of(text::views(snaps@), snapshot_id@),
{
    let ghost all = text::views(snaps@);
    let mut i: usize = 0;
    assert(all.skip(0) =~= all);
    while i < snaps.len()
        invariant
            i <= snaps.len(),
            all == text::views(snaps@),
            find_snapshot(all, snapshot_id@) == find_snapshot(all.skip(i as int), snapshot_id@),
        decreases snaps.len() - i,
    {
        assert(all.skip(i as int)[0] == snaps@[i as int]@);
        if text::same(snaps[i].snapshot_id.as_str(), snapshot_id) {
            match map_status(snaps[i].status.as_str()) {
                SnapshotStatus::Available => {
                    return Readiness::Ready;
                },
                SnapshotStatus::Failed => {
                    let mut m = "快照 ".to_owned();
                    m.append(snapshot_id);
                    m.append(" 创建失败（Failed）");
                    return Readiness::Broken(OpsError::new(m));
                },
                _ => {
                    let mut m = "等待快照 ".to_owned();
                    m.append(snapshot_id);
                    m.append("... 当前: ");
                    m.append(snaps[i].status.as_str());
                    m.append(" (");
                    m.append(snaps[i].progress.as_str());
                    m.append(")");
                    return Readiness::Pending(m);
                },
            }
        }
        assert(all.skip(i as int).drop_first() =~= all.skip(i + 1));
        i = i + 1;
    }
    let mut m = "等待快照 ".to_owned();
    m.append(snapshot_id);
    m.append("... 未在列表中");
    Readiness::Pending(m)
}

/// That the snapshot was not ready in time.
pub open spec fn timed_out_text(id: Seq<char>, timeout_secs: nat) -> Seq<char> {
    "等待快照 "@ + id + " 就绪超时（"@ + text::dec(timeout_secs / 60) + " 分钟）"@
}

/// That the snapshot was not ready in time.
pub fn wait_timed_out(snapshot_id: &str, timeout_secs: u64) -> (e: OpsError)
    ensures
        e@ == timed_out_text(snapshot_id@, timeout_secs as nat),
{
    let mut m = "等待快照 ".to_owned();
    m.append(snapshot_id);
    m.append(" 就绪超时（");
    let n = text::print_u64(timeout_secs / 60);
    m.append(n.as_str());
    m.append(" 分钟）");
    OpsError::new(m)
}

/// How far the waiting has come.
#[derive(Debug, Clone, Copy, PartialEq, Eq, Structural)]
pub enum WaitPhase {
    /// The clock is to be looked at.
    Due,
    /// The snapshots are to be listed.
    Polling,
    /// It is over.
    Ended,
}

/// Waiting for a snapshot: before each look at the list the clock is looked at.
#[derive(Debug)]
pub struct SnapshotWait {
    pub snapshot_id: String,
    pub timeout: Span,
    pub phase: WaitPhase,
}

/// What is known of the waiting.
pub struct WaitView {
    pub snapshot_id: Seq<char>,
    pub timeout: Span,
    pub phase: WaitPhase,
}

impl View for SnapshotWait {
    type V = WaitView;

    open spec fn view(&self) -> WaitView {
        WaitView { snapshot_id: self.snapshot_id@, timeout: self.timeout, phase: self.phase }
    }
}

impl WaitView {
    /// Whether the time is over.
    pub open spec fn is_over(self, elapsed: Span) -> bool {
        elapsed.total() >= self.timeout.total()
    }

    /// The waiting in the phase.
    pub open spec fn at(self, phase: WaitPhase) -> WaitView {
        WaitView { phase, ..self }
    }

    /// After a look at the clock.
    pub open spec fn after_clock(self, elapsed: Span) -> WaitView {
        if self.is_over(elapsed) {
            self.at(WaitPhase::Ended)
        } else {
            self.at(WaitPhase::Polling)
        }
    }

    /// After a look at the list.
    pub open spec fn after_list(self, snaps: Seq<SwasSnapshotView>) -> WaitView {
        match readiness_of(snaps, self.snapshot_id) {
            ReadinessView::Pending(_) => self.at(WaitPhase::Due),
            _ => self.at(WaitPhase::Ended),
        }
    }
}

impl SnapshotWait {
    /// Begins to wait for the snapshot, for no longer than the timeout.
    pub fn start(snapshot_id: &str, timeout: Span) -> (w: SnapshotWait)
        ensures
            w@ == (WaitView { snapshot_id: snapshot_id@, timeout, phase: WaitPhase::Due }),
    {
        SnapshotWait { snapshot_id: snapshot_id.to_owned(), timeout, phase: WaitPhase::Due }
    }

    /// Takes how much time has gone by. Where it is over, the waiting has failed; else the
    /// snapshots are to be listed.
    pub fn on_clock(&mut self, elapsed: Span) -> (r: Result<(), OpsError>)
        requires
            old(self)@.phase == WaitPhase::Due,
        ensures
            final(self)@ == old(self)@.after_clock(elapsed),
            match r {
                Ok(_) => !old(self)@.is_over(elapsed),
                Err(e) => old(self)@.is_over(elapsed) && e@ == timed_out_text(
                    old(self)@.snapshot_id,
                    old(self)@.timeout.secs as nat,
                ),
            },
    {
        if elapsed.lasts(&self.timeout) {
            self.phase = WaitPhase::Ended;
            Err(wait_timed_out(self.snapshot_id.as_str(), self.timeout.secs))
        } else {
            self.phase = WaitPhase::Polling;
            Ok(())
        }
    }

    /// Takes the list of snapshots. The waiting is over where the snapshot can be used, has failed
    /// where it never will be, and else goes on, with a text that says how far it is.
    pub fn on_list(&mut self, snaps: &Vec<SwasSnapshot>) -> (r: Result<Option<String>, OpsError>)
        requires
            old(self)@.phase == WaitPhase::Polling,
        ensures
            final(self)@ == old(self)@.after_list(text::views(snaps@)),
            match readiness_of(text::views(snaps@), old(self)@.snapshot_id) {
                ReadinessView::Ready => r matches Ok(None),
                ReadinessView::Broken(m) => r matches Err(e) && e@ == m,
                ReadinessView::Pending(m) => r matches Ok(Some(p)) && p@ == m,
            },
    {
        match readiness(snaps, self.snapshot_id.as_str()) {
            Readiness::Ready => {
                self.phase = WaitPhase::Ended;
                Ok(None)
            },
            Readiness::Broken(e) => {
                self.phase = WaitPhase::Ended;
                Err(e)
            },
            Readiness::Pending(m) => {
                self.phase = WaitPhase::Due;
                Ok(Some(m))
            },
        }
    }
}

/// A round of waiting: how much time has gone by, and what the list then says.
pub struct WaitRound {
    pub elapsed: Span,
    pub snaps: Seq<SwasSnapshotView>,
}

/// How a round ends the waiting, if it does.
pub open spec fn round_outcome(v: WaitView, round: WaitRound) -> Option<Result<(), Seq<char>>> {
    if v.is_over(round.elapsed) {
        Some(Err(timed_out_text(v.snapshot_id, v.timeout.secs as nat)))
    } else {
        match readiness_of(round.snaps, v.snapshot_id) {
            ReadinessView::Ready => Some(Ok(())),
            ReadinessView::Broken(m) => Some(Err(m)),
            ReadinessView::Pending(_) => None,
        }
    }
}

/// How the rounds end the waiting, if they do: as the first one that ends it.
pub open spec fn wait_outcome(v: WaitView, rounds: Seq<WaitRound>) -> Option<Result<(), Seq<char>>>
    decreases rounds.len(),
{
    if rounds.len() == 0 {
        None
    } else {
        match wait_outcome(v, rounds.drop_last()) {
            Some(o) => Some(o),
            None => round_outcome(v, rounds.last()),
        }
    }
}

/// Whether the snapshot can be used, by the list of the round.
pub open spec fn shows_ready(v: WaitView, round: WaitRound) -> bool {
    readiness_of(round.snaps, v.snapshot_id) is Ready
}

/// Whether the snapshot has failed, by the list of the round.
pub open spec fn shows_broken(v: WaitView, round: WaitRound) -> bool {
    readiness_of(round.snaps, v.snapshot_id) is Broken
}

/// Whether no round goes back in time.
pub open spec fn time_goes_on(rounds: Seq<WaitRound>) -> bool {
    forall|i: int, j: int|
        0 <= i < j < rounds.len() ==> (#[trigger] rounds[i]).elapsed.total() <= (
        #[trigger] rounds[j]).elapsed.total()
}

/// The first round that ends the waiting decides it; where there is none, it goes on.
proof fn lemma_first_round_decides(v: WaitView, rounds: Seq<WaitRound>, k: int)
    requires
        0 <= k <= rounds.len(),
        forall|j: int| 0 <= j < k ==> round_outcome(v, #[trigger] rounds[j]) is None,
        k < rounds.len() ==> round_outcome(v, rounds[k]) is Some,
    ensures
        wait_outcome(v, rounds) == if k < rounds.len() {
            round_outcome(v, rounds[k])
        } else {
            None
        },
    decreases rounds.len(),
{
    if rounds.len() > 0 {
        let init = rounds.drop_last();
        let n = if k < init.len() {
            k
        } else {
            init.len() as int
        };
        assert forall|j: int| 0 <= j < n implies round_outcome(v, #[trigger] init[j]) is None by {
            assert(init[j] == rounds[j]);
        }
        lemma_first_round_decides(v, init, n);
    }
}

/// Which round is the first that ends the waiting.
proof fn lemma_first_round(v: WaitView, rounds: Seq<WaitRound>) -> (k: int)
    ensures
        0 <= k <= rounds.len(),
        forall|j: int| 0 <= j < k ==> round_outcome(v, #[trigger] rounds[j]) is None,
        k < rounds.len() ==> round_outcome(v, rounds[k]) is Some,
    decreases rounds.len(),
{
    if rounds.len() == 0 {
        0
    } else {
        let init = rounds.drop_last();
        let k = lemma_first_round(v, init);
        assert forall|j: int| 0 <= j < k implies round_outcome(v, #[trigger] rounds[j]) is None by {
            assert(init[j] == rounds[j]);
        }
        if k < init.len() {
            assert(init[k] == rounds[k]);
            k
        } else if round_outcome(v, rounds.last()) is Some {
            k
        } else {
            rounds.len() as int
        }
    }
}

/// A round leaves the waiting where it was just where it does not end it: the clock is then to be
/// looked at again.
pub proof fn law_round(v: WaitView, round: WaitRound)
    requires
        v.phase == WaitPhase::Due,
    ensures
        v.is_over(round.elapsed) ==> v.after_clock(round.elapsed).phase == WaitPhase::Ended,
        !v.is_over(round.elapsed) ==> v.after_clock(round.elapsed).phase == WaitPhase::Polling,
        round_outcome(v, round) is None <==> !v.is_over(round.elapsed) && v.after_clock(
            round.elapsed,
        ).after_list(round.snaps) == v,
{
}

/// Waiting succeeds just where a list that was asked for in time shows that the snapshot can be
/// used and no earlier one shows that it has failed. It fails at once with the first list, asked
/// for in time, that shows it has failed, where none before shows it can be used. Where the time is
/// over before any list has decided, it fails for that; with no time to wait, in the first round.
/// Where no list decides and the time is not over, it goes on.
pub proof fn law_waiting(v: WaitView, rounds: Seq<WaitRound>)
    requires
        time_goes_on(rounds),
    ensures
        wait_outcome(v, rounds) == Some(Ok::<(), Seq<char>>(())) <==> exists|k: int|
            0 <= k < rounds.len() && !v.is_over(rounds[k].elapsed) && shows_ready(
                v,
                #[trigger] rounds[k],
            ) && forall|j: int| 0 <= j < k ==> !shows_broken(v, #[trigger] rounds[j]),
        forall|k: int|
            0 <= k < rounds.len() && !v.is_over(rounds[k].elapsed) && shows_broken(
                v,
                #[trigger] rounds[k],
            ) && (forall|j: int|
                0 <= j < k ==> !shows_ready(v, #[trigger] rounds[j]) && !shows_broken(
                    v,
                    rounds[j],
                )) ==> wait_outcome(v, rounds) == Some(
                Err::<(), Seq<char>>(readiness_of(rounds[k].snaps, v.snapshot_id)->Broken_0),
            ),
        forall|k: int|
            0 <= k < rounds.len() && v.is_over((#[trigger] rounds[k]).elapsed) && (forall|j: int|
                0 <= j < k ==> !shows_ready(v, #[trigger] rounds[j]) && !shows_broken(
                    v,
                    rounds[j],
                )) ==> wait_outcome(v, rounds) == Some(
                Err::<(), Seq<char>>(timed_out_text(v.snapshot_id, v.timeout.secs as nat)),
            ),
        v.timeout.total() == 0 && rounds.len() > 0 ==> wait_outcome(v, rounds) == Some(
            Err::<(), Seq<char>>(timed_out_text(v.snapshot_id, v.timeout.secs as nat)),
        ),
        wait_outcome(v, rounds) is None <==> forall|j: int|
            0 <= j < rounds.len() ==> !v.is_over((#[trigger] rounds[j]).elapsed) && !shows_ready(
                v,
                rounds[j],
            ) && !shows_broken(v, rounds[j]),
{
    let f = lemma_first_round(v, rounds);
    lemma_first_round_decides(v, rounds, f);
    assert forall|j: int| 0 <= j < f implies !v.is_over((#[trigger] rounds[j]).elapsed)
        && !shows_ready(v, rounds[j]) && !shows_broken(v, rounds[j]) by {
        assert(round_outcome(v, rounds[j]) is None);
    }
    if wait_outcome(v, rounds) == Some(Ok::<(), Seq<char>>(())) {
        assert(shows_ready(v, rounds[f]));
        assert(!v.is_over(rounds[f].elapsed));
    }
    assert forall|k: int|
        0 <= k < rounds.len() && !v.is_over(rounds[k].elapsed) && shows_ready(v, #[trigger] rounds[k])
            && (forall|j: int| 0 <= j < k ==> !shows_broken(
            v,
            #[trigger] rounds[j],
        )) implies wait_outcome(v, rounds) == Some(Ok::<(), Seq<char>>(())) by {
        assert(round_outcome(v, rounds[k]) is Some);
        assert(f <= k);
        assert(rounds[f].elapsed.total() <= rounds[k].elapsed.total());
        if f < k {
            assert(!shows_broken(v, rounds[f]));
        }
    }
    assert forall|k: int|
        0 <= k < rounds.len() && !v.is_over(rounds[k].elapsed) && shows_broken(v, #[trigger] rounds[k])
            && (forall|j: int|
            0 <= j < k ==> !shows_ready(v, #[trigger] rounds[j]) && !shows_broken(
                v,
                rounds[j],
            )) implies wait_outcome(v, rounds) == Some(
        Err::<(), Seq<char>>(readiness_of(rounds[k].snaps, v.snapshot_id)->Broken_0),
    ) by {
        assert(round_outcome(v, rounds[k]) is Some);
        assert(f <= k);
        if f < k {
            assert(rounds[f].elapsed.total() <= rounds[k].elapsed.total());
            assert(!shows_ready(v, rounds[f]));
        }
    }
    assert forall|k: int|
        0 <= k < rounds.len() && v.is_over((#[trigger] rounds[k]).elapsed) && (forall|j: int|
            0 <= j < k ==> !shows_ready(v, #[trigger] rounds[j]) && !shows_broken(
                v,
                rounds[j],
            )) implies wait_outcome(v, rounds) == Some(
        Err::<(), Seq<char>>(timed_out_text(v.snapshot_id, v.timeout.secs as nat)),
    ) by {
        assert(round_outcome(v, rounds[k]) is Some);
        assert(f <= k);
        if f < k {
            assert(!shows_ready(v, rounds[f]));
        }
    }
    if v.timeout.total() == 0 && rounds.len() > 0 {
        assert(v.is_over(rounds[0].elapsed));
        assert(round_outcome(v, rounds[0]) is Some);
    }
    if f < rounds.len() {
        assert(v.is_over(rounds[f].elapsed) || shows_ready(v, rounds[f]) || shows_broken(
            v,
            rounds[f],
        ));
    }
}

} // verus!
