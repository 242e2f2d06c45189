//! Rotating snapshots: which go, in what order things are done, and what is told of it.

use vstd::prelude::*;
use crate::cloud::{ServerView, SnapshotStatus, SnapshotView};
use crate::cloud::aliyun::swas;
use crate::cloud::aliyun::swas::{ReadinessView, SwasDiskView, SwasSnapshotView};
use crate::ops::snapshot;
use crate::ops::snapshot::{ActionView, RotatePhase, RotationView, SummaryView};
use crate::sort;
use crate::text;
use crate::time;
use crate::time::UtcTime;

verus! {

// ---------------------------------------------------------------------------
// Which go
// ---------------------------------------------------------------------------

/// Whether the first creation time comes before the second or equals it, the whole text counting; one
/// that is not known comes first.
pub open spec fn not_later(a: Option<Seq<char>>, b: Option<Seq<char>>) -> bool {
    match (a, b) {
        (Some(x), Some(y)) => text::text_le(x, y),
        (None, _) => true,
        (Some(_), None) => false,
    }
}

/// The snapshots of a state are those that are in it.
proof fn lemma_with_status(
    s: Seq<SnapshotView>,
    status: SnapshotStatus,
    in_it: spec_fn(SnapshotView) -> bool,
)
    requires
        forall|x: SnapshotView| #[trigger] in_it(x) == (x.status == status),
    ensures
        snapshot::with_status(s, status) == s.filter(in_it),
    decreases s.len(),
{
    reveal(Seq::filter);
    if s.len() > 0 {
        lemma_with_status(s.drop_last(), status, in_it);
    } else {
        assert(snapshot::with_status(s, status) =~= s.filter(in_it));
    }
}

/// Where a snapshot is put in does not matter for which are in the state.
proof fn lemma_status_of_inserted(
    s: Seq<SnapshotView>,
    x: SnapshotView,
    le: spec_fn(SnapshotView, SnapshotView) -> bool,
    status: SnapshotStatus,
)
    ensures
        snapshot::with_status(sort::insert_ranked(s, x, le), status).to_multiset()
            == snapshot::with_status(s.push(x), status).to_multiset(),
    decreases s.len(),
{
    broadcast use vstd::seq_lib::group_to_multiset_ensures;

    assert(s.push(x).drop_last() =~= s);
    if s.len() > 0 && !le(s.last(), x) {
        let t = s.drop_last();
        let inner = sort::insert_ranked(t, x, le);
        lemma_status_of_inserted(t, x, le, status);
        assert(inner.push(s.last()).drop_last() =~= inner);
        assert(t.push(x).drop_last() =~= t);
        let a = snapshot::with_status(t, status);
        let b = snapshot::with_status(inner, status);
        let c = snapshot::with_status(s, status);
        assert(snapshot::with_status(sort::insert_ranked(s, x, le), status).to_multiset()
            =~= snapshot::with_status(s.push(x), status).to_multiset());
    }
}

/// Sorting does not change which are in the state.
proof fn lemma_status_of_sorted(
    s: Seq<SnapshotView>,
    le: spec_fn(SnapshotView, SnapshotView) -> bool,
    status: SnapshotStatus,
)
    ensures
        snapshot::with_status(sort::stable_sort(s, le), status).to_multiset()
            == snapshot::with_status(s, status).to_multiset(),
    decreases s.len(),
{
    broadcast use vstd::seq_lib::group_to_multiset_ensures;

    if s.len() > 0 {
        let t = s.drop_last();
        let sorted = sort::stable_sort(t, le);
        lemma_status_of_sorted(t, le, status);
        lemma_status_of_inserted(sorted, s.last(), le, status);
        assert(sorted.push(s.last()).drop_last() =~= sorted);
        assert(snapshot::with_status(sorted.push(s.last()), status).to_multiset()
            =~= snapshot::with_status(s, status).to_multiset());
    }
}

/// Which go: so many of the usable ones that `keep - 1` of them stay, or none where there are not
/// more. No one that goes was created later than one that stays, by the whole text of the creation
/// times, and they go in the order of their creation. All that have failed go, and nothing else. The
/// rotation waits where one is being created.
pub proof fn law_which_snapshots_go(v: RotationView, snapshots: Seq<SnapshotView>)
    requires
        v.wf(),
        v.phase == RotatePhase::Snapshots,
    ensures
        ({
            let p = v.after_snapshots(snapshots);
            let usable = snapshots.filter(|s: SnapshotView| s.status == SnapshotStatus::Available);
            let failed = snapshots.filter(|s: SnapshotView| s.status == SnapshotStatus::Failed);
            let kept = snapshot::kept_of(snapshots, v.keep as int);
            &&& p.victims.len() == if usable.len() >= v.keep {
                usable.len() - (v.keep - 1)
            } else {
                0
            }
            &&& p.victims.to_multiset().add(kept.to_multiset()) == usable.to_multiset()
            &&& forall|i: int, j: int|
                0 <= i < p.victims.len() && 0 <= j < kept.len() ==> not_later(
                    (#[trigger] p.victims[i]).created_at,
                    (#[trigger] kept[j]).created_at,
                )
            &&& forall|i: int, j: int|
                0 <= i < j < p.victims.len() ==> not_later(
                    (#[trigger] p.victims[i]).created_at,
                    (#[trigger] p.victims[j]).created_at,
                )
            &&& p.failed.to_multiset() == failed.to_multiset()
            &&& p.creating <==> exists|i: int|
                0 <= i < snapshots.len() && (#[trigger] snapshots[i]).status
                    == SnapshotStatus::Creating
        }),
{
    let p = v.after_snapshots(snapshots);
    let keep = v.keep as int;
    let up = |s: SnapshotView| s.status == SnapshotStatus::Available;
    let fp = |s: SnapshotView| s.status == SnapshotStatus::Failed;
    let cp = |s: SnapshotView| s.status == SnapshotStatus::Creating;
    let le = |a: SnapshotView, b: SnapshotView| crate::cloud::as_old_as(a, b);
    lemma_with_status(snapshots, SnapshotStatus::Available, up);
    lemma_with_status(snapshots, SnapshotStatus::Failed, fp);
    lemma_status_of_sorted(snapshots, le, SnapshotStatus::Available);
    lemma_status_of_sorted(snapshots, le, SnapshotStatus::Failed);
    lemma_status_of_sorted(snapshots, le, SnapshotStatus::Creating);
    let all = snapshot::usable(snapshots);
    let usable = snapshots.filter(up);
    let kept = snapshot::kept_of(snapshots, keep);
    broadcast use vstd::seq_lib::group_to_multiset_ensures;

    assert(all.to_multiset() == usable.to_multiset());
    assert(all.len() == all.to_multiset().len());
    assert(usable.len() == usable.to_multiset().len());
    snapshot::law_rotation_keeps_the_newest(snapshots, keep);
    assert(p.victims == snapshot::victims_of(snapshots, keep));
    vstd::seq_lib::lemma_multiset_commutative(p.victims, kept);
    assert forall|i: int, j: int| 0 <= i < p.victims.len() && 0 <= j < kept.len() implies not_later(
        (#[trigger] p.victims[i]).created_at,
        (#[trigger] kept[j]).created_at,
    ) by {
        assert(crate::cloud::as_old_as(
            snapshot::victims_of(snapshots, keep)[i],
            snapshot::kept_of(snapshots, keep)[j],
        ));
    }
    snapshot::lemma_usable_ascends(snapshots);
    assert forall|i: int, j: int| 0 <= i < j < p.victims.len() implies not_later(
        (#[trigger] p.victims[i]).created_at,
        (#[trigger] p.victims[j]).created_at,
    ) by {
        assert(le(all[i], all[j]));
    }
    let by_age = snapshot::by_age(snapshots);
    let creating = snapshot::with_status(snapshots, SnapshotStatus::Creating);
    let sorted_creating = snapshot::with_status(by_age, SnapshotStatus::Creating);
    assert(sorted_creating.to_multiset() == creating.to_multiset());
    assert(sorted_creating.len() == sorted_creating.to_multiset().len());
    assert(creating.len() == creating.to_multiset().len());
    lemma_with_status(snapshots, SnapshotStatus::Creating, cp);
    if creating.len() > 0 {
        snapshots.lemma_filter_pred(cp, 0);
        snapshots.lemma_filter_contains_rev(cp, creating[0]);
        let i = choose|i: int| 0 <= i < snapshots.len() && snapshots[i] == creating[0];
        assert(snapshots[i].status == SnapshotStatus::Creating);
    }
    if exists|i: int|
        0 <= i < snapshots.len() && (#[trigger] snapshots[i]).status == SnapshotStatus::Creating {
        let i = choose|i: int|
            0 <= i < snapshots.len() && (#[trigger] snapshots[i]).status == SnapshotStatus::Creating;
        snapshots.lemma_filter_contains(cp, i);
    }
}

// ---------------------------------------------------------------------------
// What is done
// ---------------------------------------------------------------------------

/// What comes behind the surplus: waiting where one is being created, then the failed ones, then the
/// new one.
pub open spec fn behind_surplus(v: RotationView) -> ActionView {
    if v.creating {
        ActionView::Poll
    } else if v.failed.len() > 0 {
        ActionView::Delete(v.failed[0].id)
    } else {
        ActionView::Name
    }
}

/// What is done first: the surplus goes from its first one on; without surplus it is waited, or the
/// failed ones go, or the new one is named.
pub proof fn law_first_action(v: RotationView, snapshots: Seq<SnapshotView>)
    requires
        v.wf(),
        v.phase == RotatePhase::Snapshots,
    ensures
        ({
            let p = v.after_snapshots(snapshots);
            p.next_action() == if p.victims.len() > 0 {
                ActionView::Delete(p.victims[0].id)
            } else {
                behind_surplus(p)
            }
        }),
{
}

/// The surplus goes one by one, each asked for once, whether it could be deleted or not, and what
/// comes behind it comes when it has all been asked for. A name is noted just where the snapshot was
/// deleted.
pub proof fn law_surplus_in_order(v: RotationView, oks: Seq<bool>)
    requires
        v.wf(),
        v.phase == RotatePhase::Deleting,
        oks.len() <= v.victims.len(),
    ensures
        snapshot::after_deletes(v, oks).next_action() == if oks.len() < v.victims.len() {
            ActionView::Delete(v.victims[oks.len() as int].id)
        } else {
            behind_surplus(v)
        },
    decreases oks.len(),
{
    if oks.len() > 0 {
        let next = v.after_delete(oks[0]);
        let rest = oks.drop_first();
        if v.victims.len() > 1 {
            law_surplus_in_order(next, rest);
            if oks.len() < v.victims.len() {
                assert(next.victims[rest.len() as int] == v.victims[oks.len() as int]);
            }
        } else {
            assert(rest =~= Seq::<bool>::empty());
            assert(snapshot::after_deletes(next, rest) == next);
        }
    }
}

/// The failed ones go one by one in the same way, and then the new one is named.
pub proof fn law_failed_in_order(v: RotationView, oks: Seq<bool>)
    requires
        v.wf(),
        v.phase == RotatePhase::Clearing,
        oks.len() <= v.failed.len(),
    ensures
        snapshot::after_deletes(v, oks).next_action() == if oks.len() < v.failed.len() {
            ActionView::Delete(v.failed[oks.len() as int].id)
        } else {
            ActionView::Name
        },
    decreases oks.len(),
{
    if oks.len() > 0 {
        let next = v.after_delete(oks[0]);
        let rest = oks.drop_first();
        if v.failed.len() > 1 {
            law_failed_in_order(next, rest);
            if oks.len() < v.failed.len() {
                assert(next.failed[rest.len() as int] == v.failed[oks.len() as int]);
            }
        } else {
            assert(rest =~= Seq::<bool>::empty());
            assert(snapshot::after_deletes(next, rest) == next);
        }
    }
}

/// A snapshot's name is noted just where it was deleted, behind those noted before; nothing else of
/// the summary changes, nor what it is about.
pub proof fn law_deleted_names_are_noted(v: RotationView, ok: bool)
    requires
        v.wf(),
        v.phase == RotatePhase::Deleting || v.phase == RotatePhase::Clearing,
    ensures
        ({
            let w = v.after_delete(ok);
            let name = if v.phase == RotatePhase::Deleting {
                v.victims[0].name
            } else {
                v.failed[0].name
            };
            &&& w.summary.deleted == if ok {
                v.summary.deleted.push(name)
            } else {
                v.summary.deleted
            }
            &&& w.summary.server_name == v.summary.server_name
            &&& w.summary.created_id == v.summary.created_id
            &&& w.summary.created_name == v.summary.created_name
            &&& w.summary.remaining == v.summary.remaining
            &&& w.server_id == v.server_id && w.keep == v.keep && w.creating == v.creating
        }),
{
}

/// After the waiting the failed ones go, or the new one is named.
pub proof fn law_behind_the_waiting(v: RotationView)
    requires
        v.wf(),
        v.phase == RotatePhase::Draining,
    ensures
        v.past_draining().next_action() == if v.failed.len() > 0 {
            ActionView::Delete(v.failed[0].id)
        } else {
            ActionView::Name
        },
        v.past_draining().summary == v.summary,
        v.past_draining().failed == v.failed,
{
}

/// A poll ends the waiting just where none is being created, and fails where the time is over and
/// some are, of which it tells how many.
pub proof fn law_polling(round: snapshot::PollRound, timeout: time::Span)
    ensures
        ({
            let n = round.snapshots.filter(
                |s: SnapshotView| s.status == SnapshotStatus::Creating,
            ).len();
            let over = round.elapsed.secs * 1_000_000_000 + round.elapsed.nanos >= timeout.secs
                * 1_000_000_000 + timeout.nanos;
            snapshot::poll_outcome(timeout, round) == if n == 0 {
                Some(Ok::<(), Seq<char>>(()))
            } else if over {
                Some(Err::<(), Seq<char>>("等待 "@ + text::dec(n) + " 个创建中的快照完成超时"@))
            } else {
                None
            }
        }),
{
    lemma_with_status(
        round.snapshots,
        SnapshotStatus::Creating,
        |s: SnapshotView| s.status == SnapshotStatus::Creating,
    );
}

/// The new snapshot is created under the name of the first server listed with the identifier, or the
/// identifier where none is, with a hyphen and the time in Beijing behind it.
pub proof fn law_name_of_the_new_snapshot(
    v: RotationView,
    servers: Seq<ServerView>,
    k: int,
    w: RotationView,
    t: UtcTime,
)
    requires
        0 <= k <= servers.len(),
        forall|j: int| 0 <= j < k ==> (#[trigger] servers[j]).id != v.server_id,
        k < servers.len() ==> servers[k].id == v.server_id,
        w.summary.server_name == v.after_servers(servers).summary.server_name,
    ensures
        ({
            let server_name = if k < servers.len() {
                servers[k].name
            } else {
                v.server_id
            };
            let name = server_name + "-"@ + time::strftime(t.secs, t.nanos, 28_800, "%Y%m%d-%H%M%S"@);
            &&& v.after_servers(servers).summary.server_name == server_name
            &&& w.after_name(t).next_action() == ActionView::Create(name)
            &&& w.after_name(t).summary.created_name == Some(name)
        }),
{
    lemma_server_by_id(servers, v.server_id, k);
}

/// The first server with the identifier.
proof fn lemma_server_by_id(servers: Seq<ServerView>, id: Seq<char>, k: int)
    requires
        0 <= k <= servers.len(),
        forall|j: int| 0 <= j < k ==> (#[trigger] servers[j]).id != id,
        k < servers.len() ==> servers[k].id == id,
    ensures
        snapshot::server_by_id(servers, id) == if k < servers.len() {
            Some(servers[k])
        } else {
            None
        },
    decreases servers.len(),
{
    if servers.len() > 0 && k > 0 {
        assert(servers[0].id != id);
        let rest = servers.drop_first();
        assert forall|j: int| 0 <= j < k - 1 implies (#[trigger] rest[j]).id != id by {
            assert(servers[j + 1].id != id);
        }
        lemma_server_by_id(rest, id, k - 1);
    }
}

/// The summary in words: the server, what was deleted or that nothing was, what was created, and how
/// many there are.
pub proof fn law_summary_in_words(s: SummaryView)
    ensures
        snapshot::summary_text(s) == "=== 快照轮转完成: "@ + s.server_name + " ===\n"@ + (
        if s.deleted.len() == 0 {
            "  删除: 无（无需清理）\n"@
        } else {
            "  删除: "@ + text::join(s.deleted, ", "@) + "\n"@
        }) + (if s.created_id is Some && s.created_name is Some {
            "  新建: "@ + s.created_id->0 + " ("@ + s.created_name->0 + ")\n"@
        } else {
            ""@
        }) + "  当前快照总数: "@ + text::dec(s.remaining) + "\n"@,
{
}

// ---------------------------------------------------------------------------
// Snapshots and disks of the provider
// ---------------------------------------------------------------------------

/// The provider's words for a state.
pub proof fn law_words_for_states(s: Seq<char>)
    ensures
        swas::status_of(s) == SnapshotStatus::Creating <==> s == "Creating"@ || s == "progressing"@,
        swas::status_of(s) == SnapshotStatus::Available <==> s == "accomplished"@ || s == "Available"@,
        swas::status_of(s) == SnapshotStatus::Failed <==> s == "Failed"@,
{
    reveal_strlit("Creating");
    reveal_strlit("progressing");
    reveal_strlit("accomplished");
    reveal_strlit("Available");
    reveal_strlit("Failed");
    assert("Creating"@.len() == 8 && "progressing"@.len() == 11 && "accomplished"@.len() == 12
        && "Available"@.len() == 9 && "Failed"@.len() == 6);
}

/// A listed snapshot keeps its identifier, its name or, where that is empty, the identifier for it,
/// and its creation time, where there is one. All are listed, in the order of their creation, by the
/// whole text of the creation times.
pub proof fn law_listed_snapshots(snaps: Seq<SwasSnapshotView>)
    ensures
        ({
            let given = Seq::new(snaps.len(), |i: int| swas::snapshot_of(snaps[i]));
            let r = swas::snapshots_by_age(snaps);
            &&& r.to_multiset() == given.to_multiset()
            &&& forall|i: int, j: int|
                0 <= i < j < r.len() ==> not_later(
                    (#[trigger] r[i]).created_at,
                    (#[trigger] r[j]).created_at,
                )
            &&& forall|i: int|
                0 <= i < given.len() ==> (#[trigger] given[i]).id == snaps[i].snapshot_id
                    && given[i].name == (if snaps[i].snapshot_name.len() > 0 {
                    snaps[i].snapshot_name
                } else {
                    snaps[i].snapshot_id
                }) && given[i].status == swas::status_of(snaps[i].status) && given[i].created_at == (
                if snaps[i].creation_time.len() > 0 {
                    Some(snaps[i].creation_time)
                } else {
                    None
                })
        }),
{
    let given = Seq::new(snaps.len(), |i: int| swas::snapshot_of(snaps[i]));
    let r = swas::snapshots_by_age(snaps);
    let le = |a: SnapshotView, b: SnapshotView| crate::cloud::as_old_as(a, b);
    <crate::cloud::Snapshot as sort::Ranked>::lemma_ranking();
    sort::law_sort_ascending(given, le);
    sort::law_sort_permutes(given, le);
    assert(r == sort::stable_sort(given, le));
    assert forall|i: int, j: int| 0 <= i < j < r.len() implies not_later(
        (#[trigger] r[i]).created_at,
        (#[trigger] r[j]).created_at,
    ) by {
        assert(le(r[i], r[j]));
    }
}

/// A snapshot is taken of the first system disk; where there is none, of the first disk; where there
/// is none at all, of none.
pub proof fn law_disk_of_a_snapshot(disks: Seq<SwasDiskView>, k: int)
    requires
        0 <= k <= disks.len(),
        forall|j: int| 0 <= j < k ==> (#[trigger] disks[j]).disk_type != "System"@,
        k < disks.len() ==> disks[k].disk_type == "System"@,
    ensures
        swas::snapshot_disk(disks) == if k < disks.len() {
            Some(disks[k])
        } else if disks.len() > 0 {
            Some(disks[0])
        } else {
            None
        },
{
    lemma_first_of_type(disks, "System"@, k);
}

/// The first disk of the type.
proof fn lemma_first_of_type(disks: Seq<SwasDiskView>, t: Seq<char>, k: int)
    requires
        0 <= k <= disks.len(),
        forall|j: int| 0 <= j < k ==> (#[trigger] disks[j]).disk_type != t,
        k < disks.len() ==> disks[k].disk_type == t,
    ensures
        swas::first_of_type(disks, t) == if k < disks.len() {
            Some(disks[k])
        } else {
            None
        },
    decreases disks.len(),
{
    if disks.len() > 0 && k > 0 {
        assert(disks[0].disk_type != t);
        let rest = disks.drop_first();
        assert forall|j: int| 0 <= j < k - 1 implies (#[trigger] rest[j]).disk_type != t by {
            assert(disks[j + 1].disk_type != t);
        }
        lemma_first_of_type(rest, t, k - 1);
    }
}

/// A snapshot that is waited for is ready, has failed or is under way as its state in the list says,
/// and under way where it is not in the list; what is told names it, its state and how far it is.
pub proof fn law_readiness(snaps: Seq<SwasSnapshotView>, id: Seq<char>, k: int)
    requires
        0 <= k <= snaps.len(),
        forall|j: int| 0 <= j < k ==> (#[trigger] snaps[j]).snapshot_id != id,
        k < snaps.len() ==> snaps[k].snapshot_id == id,
    ensures
        swas::readiness_of(snaps, id) == if k == snaps.len() {
            ReadinessView::Pending("等待快照 "@ + id + "... 未在列表中"@)
        } else if snaps[k].status == "accomplished"@ || snaps[k].status == "Available"@ {
            ReadinessView::Ready
        } else if snaps[k].status == "Failed"@ {
            ReadinessView::Broken("快照 "@ + id + " 创建失败（Failed）"@)
        } else {
            ReadinessView::Pending(
                "等待快照 "@ + id + "... 当前: "@ + snaps[k].status + " ("@ + snaps[k].progress + ")"@,
            )
        },
{
    lemma_find_snapshot(snaps, id, k);
    if k < snaps.len() {
        law_words_for_states(snaps[k].status);
    }
}

/// The first snapshot with the identifier.
proof fn lemma_find_snapshot(snaps: Seq<SwasSnapshotView>, id: Seq<char>, k: int)
    requires
        0 <= k <= snaps.len(),
        forall|j: int| 0 <= j < k ==> (#[trigger] snaps[j]).snapshot_id != id,
        k < snaps.len() ==> snaps[k].snapshot_id == id,
    ensures
        swas::find_snapshot(snaps, id) == if k < snaps.len() {
            Some(snaps[k])
        } else {
            None
        },
    decreases snaps.len(),
{
    if snaps.len() > 0 && k > 0 {
        assert(snaps[0].snapshot_id != id);
        let rest = snaps.drop_first();
        assert forall|j: int| 0 <= j < k - 1 implies (#[trigger] rest[j]).snapshot_id != id by {
            assert(snaps[j + 1].snapshot_id != id);
        }
        lemma_find_snapshot(rest, id, k - 1);
    }
}

/// Waiting for one snapshot is over when as much time has gone by as was given, to the nanosecond;
/// what is then told names the whole minutes.
pub proof fn law_end_of_the_waiting(v: swas::WaitView, elapsed: time::Span)
    requires
        elapsed.nanos < 1_000_000_000,
        v.timeout.nanos < 1_000_000_000,
    ensures
        v.is_over(elapsed) <==> elapsed.secs > v.timeout.secs || (elapsed.secs == v.timeout.secs
            && elapsed.nanos >= v.timeout.nanos),
        swas::timed_out_text(v.snapshot_id, v.timeout.secs as nat) == "等待快照 "@ + v.snapshot_id
            + " 就绪超时（"@ + text::dec((v.timeout.secs / 60) as nat) + " 分钟）"@,
{
}

/// A rotation begins with nothing done, and after the new snapshot was begun, waited for and counted
/// its summary tells of it; nothing else of the summary changes on the way.
pub proof fn law_end_of_a_rotation(v: RotationView, id: Seq<char>, n: nat)
    ensures
        snapshot::blank_summary().server_name.len() == 0,
        snapshot::blank_summary().deleted.len() == 0,
        snapshot::blank_summary().created_id is None && snapshot::blank_summary().created_name is None
            && snapshot::blank_summary().remaining == 0,
        v.after_create(id).summary == (SummaryView { created_id: Some(id), ..v.summary }),
        v.after_create(id).next_action() == ActionView::Await(id),
        v.at(RotatePhase::Counting).summary == v.summary,
        v.at(RotatePhase::Counting).next_action() == ActionView::ListSnapshots,
        v.after_count(n).summary == (SummaryView { remaining: n, ..v.summary }),
        v.after_count(n).next_action() == ActionView::Done,
        v.server_id == v.after_create(id).server_id && v.server_id == v.after_count(n).server_id,
{
}

/// An action is known by what it asks for.
pub proof fn law_actions(a: snapshot::RotateAction)
    ensures
        a@ == (match a {
            snapshot::RotateAction::ListServers => ActionView::ListServers,
            snapshot::RotateAction::ListSnapshots => ActionView::ListSnapshots,
            snapshot::RotateAction::Delete(id) => ActionView::Delete(id@),
            snapshot::RotateAction::Poll => ActionView::Poll,
            snapshot::RotateAction::Name => ActionView::Name,
            snapshot::RotateAction::Create(name) => ActionView::Create(name@),
            snapshot::RotateAction::Await(id) => ActionView::Await(id@),
            snapshot::RotateAction::Done => ActionView::Done,
        }),
{
}

} // verus!
