//! Rotating the snapshots of a server: the oldest go, a new one comes.

use vstd::prelude::*;
use crate::cloud;
use crate::cloud::{Server, Snapshot, SnapshotStatus, SnapshotView};
use crate::error::OpsError;
use crate::sort;
use crate::text;
use crate::time;
use crate::time::{Span, UtcTime};

verus! {

/// What a rotation did.
#[derive(Debug)]
pub struct RotateSummary {
    pub server_name: String,
    /// The names of the snapshots that were deleted.
    pub deleted: Vec<String>,
    pub created_id: Option<String>,
    pub created_name: Option<String>,
    /// How many snapshots there are now.
    pub remaining: usize,
}

/// What is known of a rotation.
pub struct SummaryView {
    pub server_name: Seq<char>,
    pub deleted: Seq<Seq<char>>,
    pub created_id: Option<Seq<char>>,
    pub created_name: Option<Seq<char>>,
    pub remaining: nat,
}

impl View for RotateSummary {
    type V = SummaryView;

    open spec fn view(&self) -> SummaryView {
        SummaryView {
            server_name: self.server_name@,
            deleted: text::views(self.deleted@),
            created_id: text::opt_view(self.created_id),
            created_name: text::opt_view(self.created_name),
            remaining: self.remaining as nat,
        }
    }
}

/// A rotation that has done nothing yet.
pub open spec fn blank_summary() -> SummaryView {
    SummaryView {
        server_name: Seq::empty(),
        deleted: Seq::empty(),
        created_id: None,
        created_name: None,
        remaining: 0,
    }
}

impl Default for RotateSummary {
    fn default() -> (r: RotateSummary)
        ensures
            r@ == blank_summary(),
    {
        let r = RotateSummary {
            server_name: String::new(),
            deleted: Vec::new(),
            created_id: None,
            created_name: None,
            remaining: 0,
        };
        assert(r@.deleted =~= Seq::<Seq<char>>::empty());
        r
    }
}

/// What was deleted, in words.
pub open spec fn deleted_text(s: SummaryView) -> Seq<char> {
    if s.deleted.len() == 0 {
        "  删除: 无（无需清理）\n"@
    } else {
        "  删除: "@ + text::join(s.deleted, ", "@) + "\n"@
    }
}

/// What was created, in words; nothing where nothing was.
pub open spec fn created_text(s: SummaryView) -> Seq<char> {
    match (s.created_id, s.created_name) {
        (Some(id), Some(name)) => "  新建: "@ + id + " ("@ + name + ")\n"@,
        _ => ""@,
    }
}

/// The rotation in words.
pub open spec fn summary_text(s: SummaryView) -> Seq<char> {
    "=== 快照轮转完成: "@ + s.server_name + " ===\n"@ + deleted_text(s) + created_text(s)
        + "  当前快照总数: "@ + text::dec(s.remaining) + "\n"@
}

impl RotateSummary {
    /// The rotation in words: what was deleted, what was created, how many there are.
    pub fn render(&self) -> (r: String)
        ensures
            r@ == summary_text(self@),
    {
        let mut out = "=== 快照轮转完成: ".to_owned();
        out.append(self.server_name.as_str());
        out.append(" ===\n");
        if self.deleted.is_empty() {
            out.append("  删除: 无（无需清理）\n");
        } else {
            let mut p = "  删除: ".to_owned();
            let j = text::join_strings(&self.deleted, ", ");
            p.append(j.as_str());
            p.append("\n");
            out.append(p.as_str());
        }
        match (&self.created_id, &self.created_name) {
            (Some(id), Some(name)) => {
                let mut p = "  新建: ".to_owned();
                p.append(id.as_str());
                p.append(" (");
                p.append(name.as_str());
                p.append(")\n");
                out.append(p.as_str());
            },
            _ => {
                out.append("");
            },
        }
        out.append("  当前快照总数: ");
        let n = text::print_usize(self.remaining);
        out.append(n.as_str());
        out.append("\n");
        out
    }
}

// ---------------------------------------------------------------------------
// Names
// ---------------------------------------------------------------------------

/// The name of a snapshot that is taken at the instant: the prefix and the time in Beijing.
pub open spec fn name_at(prefix: Seq<char>, t: UtcTime) -> Seq<char> {
    prefix + "-"@ + time::strftime(t.secs, t.nanos, time::BEIJING_OFFSET, "%Y%m%d-%H%M%S"@)
}

/// The name of a snapshot that is taken at the instant.
pub fn snapshot_name_at(prefix: &str, t: UtcTime) -> (r: String)
    requires
        t.wf(),
    ensures
        r@ == name_at(prefix@, t),
{
    let mut m = prefix.to_owned();
    m.append("-");
    let ts = time::print_by_pattern(t, time::BEIJING_OFFSET, "%Y%m%d-%H%M%S");
    m.append(ts.as_str());
    m
}

/// The name of a snapshot that is taken now.
pub fn default_snapshot_name(prefix: &str) -> (r: String)
    ensures
        exists|t: UtcTime| t.wf() && r@ == #[trigger] name_at(prefix@, t),
{
    let t = time::now();
    snapshot_name_at(prefix, t)
}

// ---------------------------------------------------------------------------
// Which snapshots go
// ---------------------------------------------------------------------------

/// The snapshots, the oldest first.
pub open spec fn by_age(snapshots: Seq<SnapshotView>) -> Seq<SnapshotView> {
    sort::stable_sort(snapshots, |a: SnapshotView, b: SnapshotView| cloud::as_old_as(a, b))
}

/// The snapshots in the state.
pub open spec fn with_status(snapshots: Seq<SnapshotView>, status: SnapshotStatus) -> Seq<
    SnapshotView,
>
    decreases snapshots.len(),
{
    if snapshots.len() == 0 {
        Seq::empty()
    } else if snapshots.last().status == status {
        with_status(snapshots.drop_last(), status).push(snapshots.last())
    } else {
        with_status(snapshots.drop_last(), status)
    }
}

/// The usable snapshots, the oldest first.
pub open spec fn usable(snapshots: Seq<SnapshotView>) -> Seq<SnapshotView> {
    with_status(by_age(snapshots), SnapshotStatus::Available)
}

/// How many usable snapshots go, so that with the new one there are `keep`.
pub open spec fn surplus(snapshots: Seq<SnapshotView>, keep: int) -> int {
    if usable(snapshots).len() > keep - 1 {
        usable(snapshots).len() - (keep - 1)
    } else {
        0
    }
}

/// The usable snapshots that go: the oldest.
pub open spec fn victims_of(snapshots: Seq<SnapshotView>, keep: int) -> Seq<SnapshotView> {
    usable(snapshots).take(surplus(snapshots, keep))
}

/// The usable snapshots that stay: the newest.
pub open spec fn kept_of(snapshots: Seq<SnapshotView>, keep: int) -> Seq<SnapshotView> {
    usable(snapshots).skip(surplus(snapshots, keep))
}

/// The failed snapshots, which go too.
pub open spec fn failed_of(snapshots: Seq<SnapshotView>) -> Seq<SnapshotView> {
    with_status(by_age(snapshots), SnapshotStatus::Failed)
}

/// How many snapshots are being created.
pub open spec fn creating_count(snapshots: Seq<SnapshotView>) -> nat {
    with_status(snapshots, SnapshotStatus::Creating).len()
}

/// What is in the state is in it, and comes in the same order.
proof fn lemma_with_status(s: Seq<SnapshotView>, status: SnapshotStatus)
    ensures
        forall|i: int|
            0 <= i < with_status(s, status).len() ==> (#[trigger] with_status(s, status)[i]).status
                == status && s.contains(with_status(s, status)[i]),
        with_status(s, status).len() <= s.len(),
    decreases s.len(),
{
    if s.len() > 0 {
        let t = s.drop_last();
        lemma_with_status(t, status);
        let after = with_status(s, status);
        let before = with_status(t, status);
        assert forall|i: int| 0 <= i < after.len() implies (#[trigger] after[i]).status == status
            && s.contains(after[i]) by {
            if i < before.len() {
                assert(after[i] == before[i]);
                let k = choose|k: int| 0 <= k < t.len() && t[k] == before[i];
                assert(s[k] == before[i]);
            } else {
                assert(s[s.len() - 1] == after[i]);
            }
        }
    }
}

/// A part of ascending snapshots ascends.
proof fn lemma_with_status_ascends(s: Seq<SnapshotView>, status: SnapshotStatus)
    requires
        sort::ascending(s, |a: SnapshotView, b: SnapshotView| cloud::as_old_as(a, b)),
    ensures
        sort::ascending(
            with_status(s, status),
            |a: SnapshotView, b: SnapshotView| cloud::as_old_as(a, b),
        ),
    decreases s.len(),
{
    let le = |a: SnapshotView, b: SnapshotView| cloud::as_old_as(a, b);
    if s.len() > 0 {
        let t = s.drop_last();
        assert forall|i: int, j: int| 0 <= i < j < t.len() implies le(
            #[trigger] t[i],
            #[trigger] t[j],
        ) by {
            assert(le(s[i], s[j]));
        }
        lemma_with_status_ascends(t, status);
        lemma_with_status(t, status);
        let before = with_status(t, status);
        let after = with_status(s, status);
        assert forall|i: int, j: int| 0 <= i < j < after.len() implies le(
            #[trigger] after[i],
            #[trigger] after[j],
        ) by {
            if j < before.len() {
                assert(le(before[i], before[j]));
            } else {
                assert(after[i] == before[i]);
                let k = choose|k: int| 0 <= k < t.len() && t[k] == before[i];
                assert(le(s[k], s[s.len() - 1]));
            }
        }
    }
}

/// The usable snapshots ascend.
pub proof fn lemma_usable_ascends(snapshots: Seq<SnapshotView>)
    ensures
        sort::ascending(
            usable(snapshots),
            |a: SnapshotView, b: SnapshotView| cloud::as_old_as(a, b),
        ),
{
    <Snapshot as sort::Ranked>::lemma_ranking();
    sort::law_sort_ascending(
        snapshots,
        |a: SnapshotView, b: SnapshotView| cloud::as_old_as(a, b),
    );
    lemma_with_status_ascends(by_age(snapshots), SnapshotStatus::Available);
}

/// Of the usable snapshots just the newest `keep - 1` stay, or all where there are fewer. What goes
/// is usable or failed, never being created, and no snapshot that stays is older than one that
/// goes.
pub proof fn law_rotation_keeps_the_newest(snapshots: Seq<SnapshotView>, keep: int)
    requires
        keep >= 1,
    ensures
        victims_of(snapshots, keep) + kept_of(snapshots, keep) == usable(snapshots),
        kept_of(snapshots, keep).len() == if usable(snapshots).len() < keep - 1 {
            usable(snapshots).len() as int
        } else {
            keep - 1
        },
        forall|i: int|
            0 <= i < victims_of(snapshots, keep).len() ==> (
            #[trigger] victims_of(snapshots, keep)[i]).status == SnapshotStatus::Available,
        forall|i: int|
            0 <= i < failed_of(snapshots).len() ==> (#[trigger] failed_of(snapshots)[i]).status
                == SnapshotStatus::Failed,
        forall|i: int, j: int|
            0 <= i < victims_of(snapshots, keep).len() && 0 <= j < kept_of(snapshots, keep).len()
                ==> cloud::as_old_as(
                #[trigger] victims_of(snapshots, keep)[i],
                #[trigger] kept_of(snapshots, keep)[j],
            ),
{
    let le = |a: SnapshotView, b: SnapshotView| cloud::as_old_as(a, b);
    let all = usable(snapshots);
    let n = surplus(snapshots, keep);
    assert(0 <= n <= all.len());
    assert(all.take(n) + all.skip(n) =~= all);
    <Snapshot as sort::Ranked>::lemma_ranking();
    sort::law_sort_ascending(snapshots, le);
    lemma_with_status(by_age(snapshots), SnapshotStatus::Available);
    lemma_with_status(by_age(snapshots), SnapshotStatus::Failed);
    lemma_with_status_ascends(by_age(snapshots), SnapshotStatus::Available);
    assert forall|i: int, j: int|
        0 <= i < victims_of(snapshots, keep).len() && 0 <= j < kept_of(
            snapshots,
            keep,
        ).len() implies cloud::as_old_as(
        #[trigger] victims_of(snapshots, keep)[i],
        #[trigger] kept_of(snapshots, keep)[j],
    ) by {
        assert(le(all[i], all[n + j]));
    }
}

// ---------------------------------------------------------------------------
// The course of a rotation
// ---------------------------------------------------------------------------

/// How far a rotation has come.
#[derive(Debug, Clone, Copy, PartialEq, Eq, Structural)]
pub enum RotatePhase {
    /// Asking for the servers, to learn the name of this one.
    Servers,
    /// Asking for the snapshots.
    Snapshots,
    /// Deleting the surplus.
    Deleting,
    /// Waiting until no snapshot is being created any more.
    Draining,
    /// Deleting the failed ones.
    Clearing,
    /// Naming the new one.
    Naming,
    /// Creating the new one.
    Creating,
    /// Waiting until the new one can be used.
    Waiting,
    /// Counting what there is.
    Counting,
    /// Done.
    Finished,
}

/// What is to be done next.
#[derive(Debug)]
pub enum RotateAction {
    ListServers,
    ListSnapshots,
    /// Delete the snapshot with the identifier.
    Delete(String),
    /// List the snapshots to see whether one is still being created.
    Poll,
    /// Name the new snapshot by the clock.
    Name,
    /// Create a snapshot of the server under the name.
    Create(String),
    /// Wait until the snapshot with the identifier can be used.
    Await(String),
    /// Nothing: the summary is there.
    Done,
}

/// What is to be done next.
pub enum ActionView {
    ListServers,
    ListSnapshots,
    Delete(Seq<char>),
    Poll,
    Name,
    Create(Seq<char>),
    Await(Seq<char>),
    Done,
}

impl View for RotateAction {
    type V = ActionView;

    open spec fn view(&self) -> ActionView {
        match *self {
            RotateAction::ListServers => ActionView::ListServers,
            RotateAction::ListSnapshots => ActionView::ListSnapshots,
            RotateAction::Delete(id) => ActionView::Delete(id@),
            RotateAction::Poll => ActionView::Poll,
            RotateAction::Name => ActionView::Name,
            RotateAction::Create(name) => ActionView::Create(name@),
            RotateAction::Await(id) => ActionView::Await(id@),
            RotateAction::Done => ActionView::Done,
        }
    }
}

/// A rotation in progress.
#[derive(Debug)]
pub struct Rotation {
    pub server_id: String,
    pub keep: usize,
    pub phase: RotatePhase,
    pub summary: RotateSummary,
    /// The surplus that is still to be deleted.
    pub victims: Vec<Snapshot>,
    /// The failed snapshots that are still to be deleted.
    pub failed: Vec<Snapshot>,
    /// Whether a snapshot was being created when they were listed.
    pub creating: bool,
}

/// What is known of a rotation in progress.
pub struct RotationView {
    pub server_id: Seq<char>,
    pub keep: nat,
    pub phase: RotatePhase,
    pub summary: SummaryView,
    pub victims: Seq<SnapshotView>,
    pub failed: Seq<SnapshotView>,
    pub creating: bool,
}

impl View for Rotation {
    type V = RotationView;

    open spec fn view(&self) -> RotationView {
        RotationView {
            server_id: self.server_id@,
            keep: self.keep as nat,
            phase: self.phase,
            summary: self.summary@,
            victims: text::views(self.victims@),
            failed: text::views(self.failed@),
            creating: self.creating,
        }
    }
}

impl RotationView {
    /// Whether what is left to do fits how far it has come.
    pub open spec fn wf(self) -> bool {
        &&& self.keep >= 1
        &&& match self.phase {
            RotatePhase::Servers | RotatePhase::Snapshots => self.victims.len() == 0
                && self.failed.len() == 0,
            RotatePhase::Deleting => self.victims.len() > 0,
            RotatePhase::Draining => self.victims.len() == 0,
            RotatePhase::Clearing => self.victims.len() == 0 && self.failed.len() > 0,
            RotatePhase::Naming => self.victims.len() == 0 && self.failed.len() == 0,
            RotatePhase::Creating => self.victims.len() == 0 && self.failed.len() == 0
                && self.summary.created_name is Some,
            _ => self.victims.len() == 0 && self.failed.len() == 0 && self.summary.created_id
                is Some && self.summary.created_name is Some,
        }
    }

    /// What is to be done next.
    pub open spec fn next_action(self) -> ActionView {
        match self.phase {
            RotatePhase::Servers => ActionView::ListServers,
            RotatePhase::Snapshots => ActionView::ListSnapshots,
            RotatePhase::Deleting => ActionView::Delete(self.victims[0].id),
            RotatePhase::Draining => ActionView::Poll,
            RotatePhase::Clearing => ActionView::Delete(self.failed[0].id),
            RotatePhase::Naming => ActionView::Name,
            RotatePhase::Creating => ActionView::Create(self.summary.created_name->0),
            RotatePhase::Waiting => ActionView::Await(self.summary.created_id->0),
            RotatePhase::Counting => ActionView::ListSnapshots,
            RotatePhase::Finished => ActionView::Done,
        }
    }

    /// The rotation in the phase.
    pub open spec fn at(self, phase: RotatePhase) -> RotationView {
        RotationView { phase, ..self }
    }

    /// Past the waiting: failed snapshots are deleted where there are some.
    pub open spec fn past_draining(self) -> RotationView {
        if self.failed.len() > 0 {
            self.at(RotatePhase::Clearing)
        } else {
            self.at(RotatePhase::Naming)
        }
    }

    /// Past the deleting of the surplus: waits where a snapshot was being created.
    pub open spec fn past_deleting(self) -> RotationView {
        if self.creating {
            self.at(RotatePhase::Draining)
        } else {
            self.past_draining()
        }
    }

    /// After the servers were listed: the name is known; where the server is not listed, its
    /// identifier serves.
    pub open spec fn after_servers(self, servers: Seq<cloud::ServerView>) -> RotationView {
        RotationView {
            phase: RotatePhase::Snapshots,
            summary: SummaryView {
                server_name: server_name_of(servers, self.server_id),
                ..self.summary
            },
            ..self
        }
    }

    /// After the snapshots were listed: what is to go is known.
    pub open spec fn after_snapshots(self, snapshots: Seq<SnapshotView>) -> RotationView {
        let planned = RotationView {
            victims: victims_of(snapshots, self.keep as int),
            failed: failed_of(snapshots),
            creating: creating_count(by_age(snapshots)) > 0,
            ..self
        };
        if planned.victims.len() > 0 {
            planned.at(RotatePhase::Deleting)
        } else {
            planned.past_deleting()
        }
    }

    /// The summary with the name among those deleted, if it was.
    pub open spec fn noted(self, name: Seq<char>, ok: bool) -> SummaryView {
        if ok {
            SummaryView { deleted: self.summary.deleted.push(name), ..self.summary }
        } else {
            self.summary
        }
    }

    /// After an attempt to delete a snapshot. One that failed is passed over.
    pub open spec fn after_delete(self, ok: bool) -> RotationView {
        if self.phase == RotatePhase::Deleting {
            let rest = RotationView {
                summary: self.noted(self.victims[0].name, ok),
                victims: self.victims.drop_first(),
                ..self
            };
            if rest.victims.len() > 0 {
                rest
            } else {
                rest.past_deleting()
            }
        } else {
            let rest = RotationView {
                summary: self.noted(self.failed[0].name, ok),
                failed: self.failed.drop_first(),
                ..self
            };
            if rest.failed.len() > 0 {
                rest
            } else {
                rest.at(RotatePhase::Naming)
            }
        }
    }

    /// After the new snapshot was named at the instant: the server's name and the time in Beijing.
    pub open spec fn after_name(self, t: UtcTime) -> RotationView {
        RotationView {
            phase: RotatePhase::Creating,
            summary: SummaryView {
                created_name: Some(name_at(self.summary.server_name, t)),
                ..self.summary
            },
            ..self
        }
    }

    /// After the snapshot was begun.
    pub open spec fn after_create(self, id: Seq<char>) -> RotationView {
        RotationView {
            phase: RotatePhase::Waiting,
            summary: SummaryView { created_id: Some(id), ..self.summary },
            ..self
        }
    }

    /// After the snapshots were counted.
    pub open spec fn after_count(self, remaining: nat) -> RotationView {
        RotationView {
            phase: RotatePhase::Finished,
            summary: SummaryView { remaining, ..self.summary },
            ..self
        }
    }
}

/// The first server with the identifier.
pub open spec fn server_by_id(servers: Seq<cloud::ServerView>, id: Seq<char>) -> Option<
    cloud::ServerView,
>
    decreases servers.len(),
{
    if servers.len() == 0 {
        None
    } else if servers[0].id == id {
        Some(servers[0])
    } else {
        server_by_id(servers.drop_first(), id)
    }
}

/// The name of the server with the identifier; where it is not listed, the identifier.
pub open spec fn server_name_of(servers: Seq<cloud::ServerView>, id: Seq<char>) -> Seq<char> {
    match server_by_id(servers, id) {
        Some(s) => s.name,
        None => id,
    }
}

/// The snapshots in the state.
fn select_status(snapshots: &Vec<Snapshot>, status: SnapshotStatus) -> (r: Vec<Snapshot>)
    ensures
        text::views(r@) == with_status(text::views(snapshots@), status),
{
    let ghost all = text::views(snapshots@);
    let mut out: Vec<Snapshot> = Vec::new();
    let mut i: usize = 0;
    assert(text::views(out@) =~= with_status(all.take(0), status));
    while i < snapshots.len()
        invariant
            i <= snapshots.len(),
            all == text::views(snapshots@),
            text::views(out@) == with_status(all.take(i as int), status),
        decreases snapshots.len() - i,
    {
        assert(all.take(i + 1).drop_last() =~= all.take(i as int));
        assert(all.take(i + 1).last() == snapshots@[i as int]@);
        if snapshots[i].status == status {
            let x = Snapshot {
                id: snapshots[i].id.clone(),
                name: snapshots[i].name.clone(),
                status,
                created_at: match &snapshots[i].created_at {
                    Some(t) => Some(t.clone()),
                    None => None,
                },
            };
            proof {
                text::lemma_views_push(out@, x);
            }
            out.push(x);
        }
        i = i + 1;
    }
    assert(all.take(i as int) =~= all);
    out
}

/// How many snapshots are being created.
pub fn count_creating(snapshots: &Vec<Snapshot>) -> (r: usize)
    ensures
        r == creating_count(text::views(snapshots@)),
{
    let list = select_status(snapshots, SnapshotStatus::Creating);
    assert(text::views(list@).len() == list@.len());
    list.len()
}

/// That snapshots were still being created when the time was over.
pub open spec fn drain_timed_out(creating: nat) -> Seq<char> {
    "等待 "@ + text::dec(creating) + " 个创建中的快照完成超时"@
}

/// A round of waiting for snapshots that are being created: the list, and how much time had gone by
/// when it had come.
pub struct PollRound {
    pub elapsed: Span,
    pub snapshots: Seq<SnapshotView>,
}

/// How a round ends the waiting, if it does: well where none is being created any more, and else
/// where the time is over.
pub open spec fn poll_outcome(timeout: Span, round: PollRound) -> Option<Result<(), Seq<char>>> {
    let n = creating_count(round.snapshots);
    if n == 0 {
        Some(Ok(()))
    } else if round.elapsed.total() >= timeout.total() {
        Some(Err(drain_timed_out(n)))
    } else {
        None
    }
}

/// How the rounds end the waiting, if they do: as the first one that ends it.
pub open spec fn drain_outcome(timeout: Span, rounds: Seq<PollRound>) -> Option<
    Result<(), Seq<char>>,
>
    decreases rounds.len(),
{
    if rounds.len() == 0 {
        None
    } else {
        match drain_outcome(timeout, rounds.drop_last()) {
            Some(o) => Some(o),
            None => poll_outcome(timeout, rounds.last()),
        }
    }
}

/// Waiting for snapshots that are being created goes by the first round in which none is, or in
/// which the time is over: it then ends as that round says. As long as neither is so, it goes on.
pub proof fn law_draining(timeout: Span, rounds: Seq<PollRound>, k: int)
    requires
        0 <= k <= rounds.len(),
        forall|j: int|
            0 <= j < k ==> creating_count((#[trigger] rounds[j]).snapshots) > 0
                && rounds[j].elapsed.total() < timeout.total(),
        k < rounds.len() ==> creating_count(rounds[k].snapshots) == 0
            || rounds[k].elapsed.total() >= timeout.total(),
    ensures
        drain_outcome(timeout, rounds) == if k == rounds.len() {
            None
        } else if creating_count(rounds[k].snapshots) == 0 {
            Some(Ok::<(), Seq<char>>(()))
        } else {
            Some(Err::<(), Seq<char>>(drain_timed_out(creating_count(rounds[k].snapshots))))
        },
    decreases rounds.len(),
{
    if rounds.len() > 0 {
        let init = rounds.drop_last();
        let n = if k < init.len() {
            k
        } else {
            init.len() as int
        };
        assert forall|j: int| 0 <= j < n implies creating_count((#[trigger] init[j]).snapshots) > 0
            && init[j].elapsed.total() < timeout.total() by {
            assert(init[j] == rounds[j]);
        }
        law_draining(timeout, init, n);
    }
}

impl Rotation {
    /// Begins a rotation that leaves `keep` usable snapshots, of which there has to be at least one.
    pub fn start(server_id: &str, keep: usize) -> (r: Result<Rotation, OpsError>)
        ensures
            match r {
                Ok(x) => keep >= 1 && x@ == (RotationView {
                    server_id: server_id@,
                    keep: keep as nat,
                    phase: RotatePhase::Servers,
                    summary: blank_summary(),
                    victims: Seq::empty(),
                    failed: Seq::empty(),
                    creating: false,
                }) && x@.wf(),
                Err(e) => keep == 0 && e@ == "keep 必须 >= 1"@,
            },
    {
        if keep == 0 {
            return Err(OpsError::new("keep 必须 >= 1".to_owned()));
        }
        let x = Rotation {
            server_id: server_id.to_owned(),
            keep,
            phase: RotatePhase::Servers,
            summary: RotateSummary::default(),
            victims: Vec::new(),
            failed: Vec::new(),
            creating: false,
        };
        assert(x@.victims =~= Seq::<SnapshotView>::empty());
        assert(x@.failed =~= Seq::<SnapshotView>::empty());
        Ok(x)
    }

    /// What is to be done next.
    pub fn action(&self) -> (r: RotateAction)
        requires
            self@.wf(),
        ensures
            r@ == self@.next_action(),
    {
        match self.phase {
            RotatePhase::Servers => RotateAction::ListServers,
            RotatePhase::Snapshots => RotateAction::ListSnapshots,
            RotatePhase::Deleting => {
                assert(self@.victims[0] == self.victims@[0]@);
                RotateAction::Delete(self.victims[0].id.clone())
            },
            RotatePhase::Draining => RotateAction::Poll,
            RotatePhase::Clearing => {
                assert(self@.failed[0] == self.failed@[0]@);
                RotateAction::Delete(self.failed[0].id.clone())
            },
            RotatePhase::Naming => RotateAction::Name,
            RotatePhase::Creating => match &self.summary.created_name {
                Some(name) => RotateAction::Create(name.clone()),
                None => RotateAction::Name,
            },
            RotatePhase::Waiting => match &self.summary.created_id {
                Some(id) => RotateAction::Await(id.clone()),
                None => RotateAction::Done,
            },
            RotatePhase::Counting => RotateAction::ListSnapshots,
            RotatePhase::Finished => RotateAction::Done,
        }
    }

    /// Takes the list of servers.
    pub fn on_servers(&mut self, servers: &Vec<Server>)
        requires
            old(self)@.wf(),
            old(self)@.phase == RotatePhase::Servers,
        ensures
            final(self)@ == old(self)@.after_servers(text::views(servers@)),
            final(self)@.wf(),
    {
        let ghost all = text::views(servers@);
        let ghost before = self@;
        let mut name = self.server_id.clone();
        let mut i: usize = 0;
        let mut found = false;
        assert(all.skip(0) =~= all);
        while i < servers.len() && !found
            invariant
                i <= servers.len(),
                all == text::views(servers@),
                self@ == before,
                if found {
                    server_by_id(all, before.server_id) matches Some(s) && s.name == name@
                } else {
                    name@ == before.server_id && server_by_id(all, before.server_id)
                        == server_by_id(all.skip(i as int), before.server_id)
                },
            decreases servers.len() - i,
        {
            assert(all.skip(i as int)[0] == servers@[i as int]@);
            if text::same(servers[i].id.as_str(), self.server_id.as_str()) {
                name = servers[i].name.clone();
                found = true;
            } else {
                assert(all.skip(i as int).drop_first() =~= all.skip(i + 1));
            }
            i = i + 1;
        }
        self.summary.server_name = name;
        self.phase = RotatePhase::Snapshots;
    }

    /// Goes on behind the surplus.
    fn pass_deleting(&mut self)
        requires
            old(self)@.keep >= 1,
            old(self)@.victims.len() == 0,
        ensures
            final(self)@ == old(self)@.past_deleting(),
            final(self)@.wf(),
    {
        if self.creating {
            self.phase = RotatePhase::Draining;
        } else {
            self.pass_draining();
        }
    }

    /// Goes on behind the waiting.
    fn pass_draining(&mut self)
        requires
            old(self)@.keep >= 1,
            old(self)@.victims.len() == 0,
        ensures
            final(self)@ == old(self)@.past_draining(),
            final(self)@.wf(),
    {
        assert(self@.failed.len() == self.failed@.len());
        if self.failed.len() > 0 {
            self.phase = RotatePhase::Clearing;
        } else {
            self.phase = RotatePhase::Naming;
        }
    }

    /// Takes the list of snapshots and settles what is to go.
    pub fn on_snapshots(&mut self, snapshots: Vec<Snapshot>)
        requires
            old(self)@.wf(),
            old(self)@.phase == RotatePhase::Snapshots,
        ensures
            final(self)@ == old(self)@.after_snapshots(text::views(snapshots@)),
            final(self)@.wf(),
    {
        let ghost before = self@;
        let ghost given = text::views(snapshots@);
        let sorted = sort::sort_ranked(snapshots);
        assert(text::views(sorted@) == by_age(given));
        let mut usable_ones = select_status(&sorted, SnapshotStatus::Available);
        let failed_ones = select_status(&sorted, SnapshotStatus::Failed);
        let creating: usize = count_creating(&sorted);
        let ghost all = text::views(usable_ones@);
        assert(all == usable(given));
        assert(all.len() == usable_ones@.len());
        let count: usize = if usable_ones.len() > self.keep - 1 {
            usable_ones.len() - (self.keep - 1)
        } else {
            0
        };
        assert(count == surplus(given, before.keep as int));
        usable_ones.truncate(count);
        assert(text::views(usable_ones@) =~= victims_of(given, before.keep as int));
        self.victims = usable_ones;
        self.failed = failed_ones;
        self.creating = creating > 0;
        assert(self@.victims.len() == self.victims@.len());
        if self.victims.len() > 0 {
            self.phase = RotatePhase::Deleting;
        } else {
            self.pass_deleting();
        }
    }

    /// Takes what became of deleting a snapshot. That it failed does not stop the rotation.
    pub fn on_deleted(&mut self, ok: bool)
        requires
            old(self)@.wf(),
            old(self)@.phase == RotatePhase::Deleting || old(self)@.phase == RotatePhase::Clearing,
        ensures
            final(self)@ == old(self)@.after_delete(ok),
            final(self)@.wf(),
    {
        let ghost before = self@;
        if self.phase == RotatePhase::Deleting {
            assert(before.victims[0] == self.victims@[0]@);
            let victim = self.victims.remove(0);
            assert(text::views(self.victims@) =~= before.victims.drop_first());
            if ok {
                proof {
                    text::lemma_views_push(self.summary.deleted@, victim.name);
                }
                self.summary.deleted.push(victim.name);
            }
            assert(self@.victims.len() == self.victims@.len());
            if self.victims.len() == 0 {
                self.pass_deleting();
            }
        } else {
            assert(before.failed[0] == self.failed@[0]@);
            let f = self.failed.remove(0);
            assert(text::views(self.failed@) =~= before.failed.drop_first());
            if ok {
                proof {
                    text::lemma_views_push(self.summary.deleted@, f.name);
                }
                self.summary.deleted.push(f.name);
            }
            assert(self@.failed.len() == self.failed@.len());
            if self.failed.len() == 0 {
                self.phase = RotatePhase::Naming;
            }
        }
    }

    /// Takes the list of snapshots while waiting: goes on where none is being created any more,
    /// gives up where time is over, and else stays.
    pub fn on_poll(&mut self, snapshots: &Vec<Snapshot>, time_is_over: bool) -> (r: Result<
        (),
        OpsError,
    >)
        requires
            old(self)@.wf(),
            old(self)@.phase == RotatePhase::Draining,
        ensures
            final(self)@.wf(),
            ({
                let n = creating_count(text::views(snapshots@));
                if n == 0 {
                    r is Ok && final(self)@ == old(self)@.past_draining()
                } else if time_is_over {
                    final(self)@ == old(self)@ && (r matches Err(e) && e@ == drain_timed_out(n))
                } else {
                    r is Ok && final(self)@ == old(self)@
                }
            }),
    {
        let n: usize = count_creating(snapshots);
        if n == 0 {
            self.pass_draining();
            Ok(())
        } else if time_is_over {
            let mut m = "等待 ".to_owned();
            let d = text::print_usize(n);
            m.append(d.as_str());
            m.append(" 个创建中的快照完成超时");
            Err(OpsError::new(m))
        } else {
            Ok(())
        }
    }

    /// Takes the list of snapshots while waiting, and how much of the time has gone by.
    pub fn on_poll_within(&mut self, snapshots: &Vec<Snapshot>, elapsed: Span, timeout: Span) -> (r:
        Result<(), OpsError>)
        requires
            old(self)@.wf(),
            old(self)@.phase == RotatePhase::Draining,
        ensures
            final(self)@.wf(),
            match poll_outcome(
                timeout,
                PollRound { elapsed, snapshots: text::views(snapshots@) },
            ) {
                Some(Ok(_)) => r is Ok && final(self)@ == old(self)@.past_draining(),
                Some(Err(m)) => final(self)@ == old(self)@ && (r matches Err(e) && e@ == m),
                None => r is Ok && final(self)@ == old(self)@,
            },
    {
        self.on_poll(snapshots, elapsed.lasts(&timeout))
    }

    /// The name for a snapshot of the server that is taken at the instant.
    pub fn new_name(&self, now: UtcTime) -> (r: String)
        requires
            now.wf(),
        ensures
            r@ == name_at(self@.summary.server_name, now),
    {
        snapshot_name_at(self.summary.server_name.as_str(), now)
    }

    /// Names the new snapshot by the instant.
    pub fn on_time(&mut self, now: UtcTime)
        requires
            old(self)@.wf(),
            old(self)@.phase == RotatePhase::Naming,
            now.wf(),
        ensures
            final(self)@ == old(self)@.after_name(now),
            final(self)@.wf(),
    {
        let name = self.new_name(now);
        self.summary.created_name = Some(name);
        self.phase = RotatePhase::Creating;
    }

    /// Names the new snapshot by the clock.
    pub fn on_clock(&mut self)
        requires
            old(self)@.wf(),
            old(self)@.phase == RotatePhase::Naming,
        ensures
            exists|t: UtcTime| t.wf() && final(self)@ == #[trigger] old(self)@.after_name(t),
            final(self)@.wf(),
    {
        let now = time::now();
        self.on_time(now);
    }

    /// Takes the identifier of the snapshot that was begun under the name.
    pub fn on_created(&mut self, id: String)
        requires
            old(self)@.wf(),
            old(self)@.phase == RotatePhase::Creating,
        ensures
            final(self)@ == old(self)@.after_create(id@),
            final(self)@.wf(),
    {
        self.summary.created_id = Some(id);
        self.phase = RotatePhase::Waiting;
    }

    /// Takes that the new snapshot can be used.
    pub fn on_ready(&mut self)
        requires
            old(self)@.wf(),
            old(self)@.phase == RotatePhase::Waiting,
        ensures
            final(self)@ == old(self)@.at(RotatePhase::Counting),
            final(self)@.wf(),
    {
        self.phase = RotatePhase::Counting;
    }

    /// Takes how many snapshots there are.
    pub fn on_counted(&mut self, remaining: usize)
        requires
            old(self)@.wf(),
            old(self)@.phase == RotatePhase::Counting,
        ensures
            final(self)@ == old(self)@.after_count(remaining as nat),
            final(self)@.wf(),
    {
        self.summary.remaining = remaining;
        self.phase = RotatePhase::Finished;
    }

    /// The summary of a rotation that is done.
    pub fn into_summary(self) -> (r: RotateSummary)
        ensures
            r@ == self@.summary,
    {
        self.summary
    }
}

// ---------------------------------------------------------------------------
// What a whole rotation does
// ---------------------------------------------------------------------------

/// After so many attempts to delete, with their outcomes.
pub open spec fn after_deletes(v: RotationView, oks: Seq<bool>) -> RotationView
    decreases oks.len(),
{
    if oks.len() == 0 {
        v
    } else {
        after_deletes(v.after_delete(oks[0]), oks.drop_first())
    }
}

/// The names of those that were deleted.
pub open spec fn deleted_names(list: Seq<SnapshotView>, oks: Seq<bool>) -> Seq<Seq<char>>
    decreases list.len(),
{
    if list.len() == 0 || oks.len() == 0 {
        Seq::empty()
    } else if oks[0] {
        seq![list[0].name] + deleted_names(list.drop_first(), oks.drop_first())
    } else {
        deleted_names(list.drop_first(), oks.drop_first())
    }
}

/// With one attempt for each of the surplus, the surplus is worked off: the rotation is past
/// deleting it, and has noted the names of just those that were deleted.
pub proof fn law_surplus_is_worked_off(v: RotationView, oks: Seq<bool>)
    requires
        v.wf(),
        v.phase == RotatePhase::Deleting,
        oks.len() == v.victims.len(),
    ensures
        after_deletes(v, oks) == (RotationView {
            victims: Seq::empty(),
            summary: SummaryView {
                deleted: v.summary.deleted + deleted_names(v.victims, oks),
                ..v.summary
            },
            ..v
        }).past_deleting(),
    decreases oks.len(),
{
    let next = v.after_delete(oks[0]);
    let rest = oks.drop_first();
    let list = v.victims.drop_first();
    let tail = deleted_names(list, rest);
    if oks[0] {
        assert(v.summary.deleted.push(v.victims[0].name) + tail =~= v.summary.deleted + (seq![
            v.victims[0].name,
        ] + tail));
    }
    if list.len() > 0 {
        law_surplus_is_worked_off(next, rest);
    } else {
        assert(rest =~= Seq::<bool>::empty());
        assert(list =~= Seq::<SnapshotView>::empty());
        assert(after_deletes(next, rest) == next);
        assert(v.summary.deleted + Seq::<Seq<char>>::empty() =~= v.summary.deleted);
        assert(v.summary.deleted.push(v.victims[0].name) =~= v.summary.deleted + deleted_names(
            v.victims,
            oks,
        ) || !oks[0]);
    }
}

/// With one attempt for each of the failed snapshots, they are worked off: the rotation is about to
/// name the new one, and has noted the names of just those that were deleted.
pub proof fn law_failed_are_worked_off(v: RotationView, oks: Seq<bool>)
    requires
        v.wf(),
        v.phase == RotatePhase::Clearing,
        oks.len() == v.failed.len(),
    ensures
        after_deletes(v, oks) == (RotationView {
            failed: Seq::empty(),
            phase: RotatePhase::Naming,
            summary: SummaryView {
                deleted: v.summary.deleted + deleted_names(v.failed, oks),
                ..v.summary
            },
            ..v
        }),
    decreases oks.len(),
{
    let next = v.after_delete(oks[0]);
    let rest = oks.drop_first();
    let list = v.failed.drop_first();
    let tail = deleted_names(list, rest);
    if oks[0] {
        assert(v.summary.deleted.push(v.failed[0].name) + tail =~= v.summary.deleted + (seq![
            v.failed[0].name,
        ] + tail));
    }
    if list.len() > 0 {
        law_failed_are_worked_off(next, rest);
    } else {
        assert(rest =~= Seq::<bool>::empty());
        assert(list =~= Seq::<SnapshotView>::empty());
        assert(after_deletes(next, rest) == next);
        assert(v.summary.deleted + Seq::<Seq<char>>::empty() =~= v.summary.deleted);
        assert(v.summary.deleted.push(v.failed[0].name) =~= v.summary.deleted + deleted_names(
            v.failed,
            oks,
        ) || !oks[0]);
    }
}

/// Past the waiting, where there is any.
pub open spec fn drained(v: RotationView) -> RotationView {
    if v.phase == RotatePhase::Draining {
        v.past_draining()
    } else {
        v
    }
}

/// A rotation from its start to its end: with one attempt for each snapshot that is to go, it comes
/// to the new one, which it creates after all the deleting, once, under the server's name and the
/// time in Beijing, and then waits for. Its summary tells of just those that were deleted, the
/// surplus first, of the new one and of how many there are.
pub proof fn law_whole_rotation(
    v: RotationView,
    servers: Seq<cloud::ServerView>,
    snapshots: Seq<SnapshotView>,
    surplus_oks: Seq<bool>,
    failed_oks: Seq<bool>,
    t: UtcTime,
    id: Seq<char>,
    remaining: nat,
)
    requires
        v.wf(),
        v.phase == RotatePhase::Servers,
        surplus_oks.len() == victims_of(snapshots, v.keep as int).len(),
        failed_oks.len() == failed_of(snapshots).len(),
    ensures
        ({
            let server_name = server_name_of(servers, v.server_id);
            let cleared = after_deletes(
                drained(
                    after_deletes(v.after_servers(servers).after_snapshots(snapshots), surplus_oks),
                ),
                failed_oks,
            );
            let named = cleared.after_name(t);
            let begun = named.after_create(id);
            let counting = begun.at(RotatePhase::Counting);
            let ended = counting.after_count(remaining);
            &&& v.next_action() == ActionView::ListServers
            &&& v.after_servers(servers).next_action() == ActionView::ListSnapshots
            &&& cleared.next_action() == ActionView::Name
            &&& named.next_action() == ActionView::Create(name_at(server_name, t))
            &&& begun.next_action() == ActionView::Await(id)
            &&& counting.next_action() == ActionView::ListSnapshots
            &&& ended.next_action() == ActionView::Done
            &&& ended.wf()
            &&& ended.summary == (SummaryView {
                server_name,
                deleted: v.summary.deleted + deleted_names(
                    victims_of(snapshots, v.keep as int),
                    surplus_oks,
                ) + deleted_names(failed_of(snapshots), failed_oks),
                created_id: Some(id),
                created_name: Some(name_at(server_name, t)),
                remaining,
            })
        }),
{
    let planned = v.after_servers(servers).after_snapshots(snapshots);
    let victims = victims_of(snapshots, v.keep as int);
    let failed = failed_of(snapshots);
    let rest = after_deletes(planned, surplus_oks);
    let told = v.summary.deleted + deleted_names(victims, surplus_oks);
    if victims.len() > 0 {
        law_surplus_is_worked_off(planned, surplus_oks);
    } else {
        assert(rest == planned);
        assert(victims =~= Seq::empty());
        assert(told =~= v.summary.deleted);
    }
    let ready = drained(rest);
    assert(ready.failed == failed && ready.summary.deleted == told);
    if failed.len() > 0 {
        law_failed_are_worked_off(ready, failed_oks);
    } else {
        assert(told + deleted_names(failed, failed_oks) =~= told);
    }
}

/// A snapshot that is being created, or whose state is unknown, is never deleted: whatever a
/// rotation asks to delete was listed as usable or failed.
pub proof fn law_only_planned_deletes(v: RotationView, snapshots: Seq<SnapshotView>)
    requires
        v.wf(),
        v.phase == RotatePhase::Snapshots,
    ensures
        ({
            let p = v.after_snapshots(snapshots);
            &&& p.wf()
            &&& forall|i: int|
                0 <= i < p.victims.len() ==> (#[trigger] p.victims[i]).status
                    == SnapshotStatus::Available && snapshots.contains(p.victims[i])
            &&& forall|i: int|
                0 <= i < p.failed.len() ==> (#[trigger] p.failed[i]).status
                    == SnapshotStatus::Failed && snapshots.contains(p.failed[i])
        }),
{
    let le = |a: SnapshotView, b: SnapshotView| cloud::as_old_as(a, b);
    let p = v.after_snapshots(snapshots);
    let sorted = by_age(snapshots);
    lemma_with_status(sorted, SnapshotStatus::Available);
    lemma_with_status(sorted, SnapshotStatus::Failed);
    sort::law_sort_permutes(snapshots, le);
    broadcast use vstd::seq_lib::group_to_multiset_ensures;

    assert forall|x: SnapshotView| sorted.contains(x) implies snapshots.contains(x) by {
        assert(sorted.to_multiset().contains(x));
    }
    assert forall|i: int| 0 <= i < p.victims.len() implies (#[trigger] p.victims[i]).status
        == SnapshotStatus::Available && snapshots.contains(p.victims[i]) by {
        assert(p.victims[i] == usable(snapshots)[i]);
    }
    assert forall|i: int| 0 <= i < p.failed.len() implies (#[trigger] p.failed[i]).status
        == SnapshotStatus::Failed && snapshots.contains(p.failed[i]) by {
        assert(p.failed[i] == failed_of(snapshots)[i]);
    }
}

// ---------------------------------------------------------------------------
// All servers of a provider
// ---------------------------------------------------------------------------

/// The title of the notice on a rotation that succeeded.
pub fn success_title(server_name: &str) -> (r: String)
    ensures
        r@ == "快照轮转: "@ + server_name@ + " 成功"@,
{
    let mut m = "快照轮转: ".to_owned();
    m.append(server_name);
    m.append(" 成功");
    m
}

/// The title of the notice on a rotation that failed.
pub fn failure_title(server_name: &str) -> (r: String)
    ensures
        r@ == "快照轮转失败: "@ + server_name@,
{
    let mut m = "快照轮转失败: ".to_owned();
    m.append(server_name);
    m
}

/// The text of the notice on a rotation that failed.
pub fn failure_text(server: &Server, e: &OpsError) -> (r: String)
    ensures
        r@ == "实例 "@ + server.name@ + " ("@ + server.id@ + ") 快照轮转失败:\n"@ + e@,
{
    let mut m = "实例 ".to_owned();
    m.append(server.name.as_str());
    m.append(" (");
    m.append(server.id.as_str());
    m.append(") 快照轮转失败:\n");
    m.append(e.message());
    m
}

/// Fails where a server failed, and names those that did.
pub fn rotation_outcome(failed: &Vec<String>) -> (r: Result<(), OpsError>)
    ensures
        match r {
            Ok(_) => failed@.len() == 0,
            Err(e) => failed@.len() > 0 && e@ == "以下实例轮转失败: "@ + text::join(
                text::views(failed@),
                ", "@,
            ),
        },
{
    if failed.is_empty() {
        return Ok(());
    }
    let mut m = "以下实例轮转失败: ".to_owned();
    let j = text::join_strings(failed, ", ");
    m.append(j.as_str());
    Err(OpsError::new(m))
}

} // verus!
