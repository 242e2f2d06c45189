//! Automatic snapshots and measured points: what is read of them and what is told.

use vstd::prelude::*;
use crate::cloud::aliyun::cms;
use crate::cloud::aliyun::ecs;
use crate::cloud::aliyun::ecs::{EcsDiskView, PolicyView};
use crate::cloud::ServerView;
use crate::json;
use crate::json::{FieldView, ItemView};
use crate::ops::ecs as check;
use crate::ops::ecs::AutoSnapshotView;
use crate::text;

verus! {

// ---------------------------------------------------------------------------
// Policies in words
// ---------------------------------------------------------------------------

/// The names of the days, Monday first.
pub open spec fn day_names() -> Seq<Seq<char>> {
    seq!["周一"@, "周二"@, "周三"@, "周四"@, "周五"@, "周六"@, "周日"@]
}

/// A number from one to seven is told as its day, anything else as it stands; an hour is filled with
/// zeros to two characters and told as a full hour.
pub proof fn law_days_and_hours(s: Seq<char>)
    ensures
        text::parse_nat(s) matches Some(n) && 1 <= n <= 7 ==> ecs::weekday(s) == day_names()[(text::parse_nat(
            s,
        )->0) - 1],
        !(text::parse_nat(s) matches Some(n) && 1 <= n <= 7) ==> ecs::weekday(s) == s,
        s.len() >= 2 ==> ecs::time_point(s) == s + ":00"@,
        s.len() == 1 ==> ecs::time_point(s) == seq!['0'] + s + ":00"@,
        s.len() == 0 ==> ecs::time_point(s) == seq!['0', '0'] + ":00"@,
{
    super::words::law_widths(s, '0', 2);
    if s.len() == 1 {
        assert(text::pad_left(s, '0', 2) =~= seq!['0'] + s);
    }
    if s.len() == 0 {
        assert(text::pad_left(s, '0', 2) =~= seq!['0', '0']);
    }
}

/// A list of days or hours is told with commas between; what is no list is told as it stands.
pub proof fn law_lists_of_days_and_hours(v: Seq<Seq<char>>, raw: Seq<char>)
    ensures
        ecs::weekdays_text(Some(v), raw) == text::join(
            Seq::new(v.len(), |i: int| ecs::weekday(v[i])),
            ","@,
        ),
        ecs::time_points_text(Some(v), raw) == text::join(
            Seq::new(v.len(), |i: int| ecs::time_point(v[i])),
            ","@,
        ),
        ecs::weekdays_text(None, raw) == raw,
        ecs::time_points_text(None, raw) == raw,
{
}

/// A document is a list of strings just where it is an array and each of its items is a string.
pub proof fn law_lists_of_strings(items: Seq<ItemView>, x: ItemView, e: Seq<char>)
    ensures
        json::string_items(Seq::empty()) == Some(Seq::<Seq<char>>::empty()),
        json::string_items(items.push(x)) == (match (json::string_items(items), x) {
            (Some(v), ItemView::Scalar(json::ScalarView::Text(s))) => Some(v.push(s)),
            _ => None,
        }),
        json::string_array(Ok(json::JsonView::List(items))) == json::string_items(items),
        json::string_array(Ok(json::JsonView::One(x))) is None,
        json::string_array(Err(e)) is None,
{
    assert(items.push(x).drop_last() =~= items);
}

/// A policy is told by its name and, in brackets, its hours, its days and how long snapshots are kept,
/// each where it has them; the hours and days are read as JSON.
pub proof fn law_policies_in_words(p: PolicyView)
    ensures
        ({
            let hours = "触发 "@ + ecs::time_points_text(
                json::string_array(json::json_document(p.time_points)),
                p.time_points,
            );
            let days = ecs::weekdays_text(
                json::string_array(json::json_document(p.repeat_weekdays)),
                p.repeat_weekdays,
            );
            let keep = "保留 "@ + text::dec(p.retention_days as nat) + " 天"@;
            let parts = (if p.time_points.len() > 0 {
                seq![hours]
            } else {
                Seq::empty()
            }) + (if p.repeat_weekdays.len() > 0 {
                seq![days]
            } else {
                Seq::empty()
            }) + (if p.retention_days > 0 {
                seq![keep]
            } else {
                Seq::empty()
            });
            ecs::policy_summary(p) == if parts.len() > 0 {
                p.name + ("（"@ + text::join(parts, "，"@) + "）"@)
            } else {
                p.name
            }
        }),
{
    let h = ecs::time_points_text(
        json::string_array(json::json_document(p.time_points)),
        p.time_points,
    );
    let days = ecs::weekdays_text(
        json::string_array(json::json_document(p.repeat_weekdays)),
        p.repeat_weekdays,
    );
    let hours = "触发 "@ + h;
    let keep = "保留 "@ + text::dec(p.retention_days as nat) + " 天"@;
    let parts = (if p.time_points.len() > 0 {
        seq![hours]
    } else {
        Seq::empty()
    }) + (if p.repeat_weekdays.len() > 0 {
        seq![days]
    } else {
        Seq::empty()
    }) + (if p.retention_days > 0 {
        seq![keep]
    } else {
        Seq::empty()
    });
    assert(ecs::summary_parts(p, h, days) =~= parts);
}

// ---------------------------------------------------------------------------
// Who has them
// ---------------------------------------------------------------------------

/// An instance is protected just where one of its disks, whichever, has a policy.
pub proof fn law_protected(s: AutoSnapshotView)
    ensures
        s.is_protected() <==> exists|i: int|
            0 <= i < s.disks.len() && (#[trigger] s.disks[i]).policy_id != Seq::<char>::empty(),
{
    assert forall|i: int| 0 <= i < s.disks.len() implies ((#[trigger] s.disks[i]).policy_id.len() > 0)
        == (s.disks[i].policy_id != Seq::<char>::empty()) by {
        if s.disks[i].policy_id.len() == 0 {
            assert(s.disks[i].policy_id =~= Seq::<char>::empty());
        }
    }
    if s.is_protected() {
        let i = choose|i: int| 0 <= i < s.disks.len() && (#[trigger] s.disks[i]).policy_id.len() > 0;
        assert(s.disks[i].policy_id != Seq::<char>::empty());
    }
    if exists|i: int|
        0 <= i < s.disks.len() && (#[trigger] s.disks[i]).policy_id != Seq::<char>::empty() {
        let i = choose|i: int|
            0 <= i < s.disks.len() && (#[trigger] s.disks[i]).policy_id != Seq::<char>::empty();
        assert(s.disks[i].policy_id.len() > 0);
    }
}

/// The first policy with the identifier.
proof fn lemma_policy_by_id(policies: Seq<PolicyView>, id: Seq<char>, k: int)
    requires
        0 <= k <= policies.len(),
        forall|j: int| 0 <= j < k ==> (#[trigger] policies[j]).policy_id != id,
        k < policies.len() ==> policies[k].policy_id == id,
    ensures
        check::policy_by_id(policies, id) == if k < policies.len() {
            Some(policies[k])
        } else {
            None
        },
    decreases policies.len(),
{
    if policies.len() > 0 && k > 0 {
        assert(policies[0].policy_id != id);
        let rest = policies.drop_first();
        assert forall|j: int| 0 <= j < k - 1 implies (#[trigger] rest[j]).policy_id != id by {
            assert(policies[j + 1].policy_id != id);
        }
        lemma_policy_by_id(rest, id, k - 1);
    }
}

/// Of each instance all disks are listed with their kinds and policies; and a disk's policy, the first
/// with its identifier, is told behind those of the disks before it, unless it was told already.
pub proof fn law_status_of_an_instance(
    server: ServerView,
    disks: Seq<EcsDiskView>,
    d: EcsDiskView,
    policies: Seq<PolicyView>,
    k: int,
)
    requires
        0 <= k <= policies.len(),
        forall|j: int| 0 <= j < k ==> (#[trigger] policies[j]).policy_id != d.auto_snapshot_policy_id,
        k < policies.len() ==> policies[k].policy_id == d.auto_snapshot_policy_id,
    ensures
        ({
            let before = check::status_of(server, disks, policies);
            let after = check::status_of(server, disks.push(d), policies);
            let known = d.auto_snapshot_policy_id.len() > 0 && k < policies.len();
            &&& after.server == server
            &&& after.disks == before.disks.push(
                check::DiskPolicyView {
                    disk_id: d.disk_id,
                    disk_type: d.disk_type,
                    policy_id: d.auto_snapshot_policy_id,
                },
            )
            &&& after.policy_summaries == if known && !before.policy_summaries.contains(
                ecs::policy_summary(policies[k]),
            ) {
                before.policy_summaries.push(ecs::policy_summary(policies[k]))
            } else {
                before.policy_summaries
            }
            &&& check::status_of(server, Seq::empty(), policies).disks.len() == 0
            &&& check::status_of(server, Seq::empty(), policies).policy_summaries.len() == 0
        }),
{
    lemma_policy_by_id(policies, d.auto_snapshot_policy_id, k);
    let all = disks.push(d);
    assert(all.drop_last() =~= disks);
    assert(check::status_of(server, all, policies).disks =~= check::status_of(
        server,
        disks,
        policies,
    ).disks.push(check::disk_policy(d)));
}

/// Those told of as not protected are all that are not, in their order.
pub proof fn law_unprotected_instances(
    items: Seq<(Seq<char>, Seq<char>, AutoSnapshotView)>,
    x: (Seq<char>, Seq<char>, AutoSnapshotView),
)
    ensures
        check::unprotected_of(Seq::empty()).len() == 0,
        check::unprotected_of(items.push(x)) == if exists|i: int|
            0 <= i < x.2.disks.len() && (#[trigger] x.2.disks[i]).policy_id.len() > 0 {
            check::unprotected_of(items)
        } else {
            check::unprotected_of(items).push(x)
        },
{
    assert(items.push(x).drop_last() =~= items);
}

/// The report has a headline and a line for each instance: project, kind, name, identifier, whether it
/// is protected, and its policies or, where it is not, its disks.
pub proof fn law_autosnapshot_report(
    items: Seq<(Seq<char>, Seq<char>, AutoSnapshotView)>,
    x: (Seq<char>, Seq<char>, AutoSnapshotView),
)
    ensures
        check::autosnapshot_report(Seq::empty()) == "=== ECS 自动快照检查 ===\n"@,
        check::autosnapshot_report(items.push(x)) == check::autosnapshot_report(items) + ("- "@ + x.0
            + "/"@ + x.1 + ": "@ + x.2.server.name + " ("@ + x.2.server.id + ") ["@ + (
        if x.2.is_protected() {
            "已开启"@
        } else {
            "未开启"@
        }) + "] "@ + (if x.2.is_protected() {
            "策略: "@ + text::join(x.2.policy_summaries, "，"@)
        } else {
            "磁盘: "@ + text::join(
                Seq::new(
                    x.2.disks.len(),
                    |i: int| x.2.disks[i].disk_id + " ("@ + x.2.disks[i].disk_type + ")"@,
                ),
                ", "@,
            )
        }) + "\n"@),
{
    let lines = Seq::new(items.len(), |i: int| check::status_line(items[i]));
    let all = items.push(x);
    let more = Seq::new(all.len(), |i: int| check::status_line(all[i]));
    assert(more =~= lines.push(check::status_line(x)));
    text::lemma_concat_push(lines, check::status_line(x));
    let none = Seq::<(Seq<char>, Seq<char>, AutoSnapshotView)>::empty();
    assert(Seq::new(none.len(), |i: int| check::status_line(none[i])) =~= Seq::<Seq<char>>::empty());
    assert(check::autosnapshot_report(none) =~= "=== ECS 自动快照检查 ===\n"@);
    assert(Seq::new(x.2.disks.len(), |i: int| check::disk_text(x.2.disks[i])) =~= Seq::new(
        x.2.disks.len(),
        |i: int| x.2.disks[i].disk_id + " ("@ + x.2.disks[i].disk_type + ")"@,
    ));
    assert(check::autosnapshot_report(all) =~= check::autosnapshot_report(items) + check::status_line(
        x,
    ));
}

// ---------------------------------------------------------------------------
// Points
// ---------------------------------------------------------------------------

/// What stands under the first of two keys that there is.
pub open spec fn under(
    fields: Seq<FieldView>,
    a: Seq<char>,
    b: Seq<char>,
) -> Option<json::ScalarView> {
    if json::lookup(fields, a) is Some {
        json::lookup(fields, a)
    } else {
        json::lookup(fields, b)
    }
}

/// A record is a point just where it names an instance by a text that is not empty and has a number:
/// the average, in either spelling, or else the maximum. The device is empty where none is named.
pub proof fn law_points(fields: Seq<FieldView>)
    ensures
        ({
            let id = json::as_text(under(fields, "instanceId"@, "InstanceId"@));
            let device = json::as_text(under(fields, "device"@, "Device"@));
            let number = json::as_real(
                if under(fields, "Average"@, "average"@) is Some {
                    under(fields, "Average"@, "average"@)
                } else {
                    json::lookup(fields, "Maximum"@)
                },
            );
            match cms::point_of(fields) {
                Some(p) => id == Some(p.instance_id) && p.instance_id.len() > 0 && number == Some(
                    p.average,
                ) && p.device == (match device {
                    Some(d) => d,
                    None => Seq::empty(),
                }),
                None => number is None || id is None || id->0.len() == 0,
            }
        }),
{
}

/// The points of an array are those of its items in their order, and every other document has none.
pub proof fn law_points_of_documents(
    items: Seq<ItemView>,
    x: ItemView,
    fields: Seq<FieldView>,
    e: Seq<char>,
)
    ensures
        cms::points_of(Seq::empty()).len() == 0,
        cms::points_of(items.push(ItemView::Record(fields))) == (match cms::point_of(fields) {
            Some(p) => cms::points_of(items).push(p),
            None => cms::points_of(items),
        }),
        !(x is Record) ==> cms::points_of(items.push(x)) == cms::points_of(items),
        cms::document_points(Ok(json::JsonView::List(items))) == cms::points_of(items),
        cms::document_points(Ok(json::JsonView::One(x))).len() == 0,
        cms::document_points(Err(e)).len() == 0,
{
    assert(items.push(x).drop_last() =~= items);
    assert(items.push(ItemView::Record(fields)).drop_last() =~= items);
}

/// All instances are looked at, in their order, each with its own disks.
pub proof fn law_all_instances_are_looked_at(
    servers: Seq<(crate::cloud::Server, Vec<ecs::EcsDisk>)>,
    policies: Seq<PolicyView>,
    i: int,
)
    ensures
        check::statuses_of(servers, policies).len() == servers.len(),
        0 <= i < servers.len() ==> check::statuses_of(servers, policies)[i] == check::status_of(
            servers[i].0@,
            text::views(servers[i].1@),
            policies,
        ),
{
}

} // verus!
