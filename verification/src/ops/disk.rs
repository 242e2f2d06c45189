//! How full the disks are.

use vstd::prelude::*;
use vstd::arithmetic::power2::*;
use crate::cloud;
use crate::cloud::aliyun::cms;
use crate::cloud::aliyun::cms::MetricPoint;
use crate::cloud::Server;
use crate::error::OpsError;
use crate::real64;
use crate::real64::Real64;
use crate::sort;
use crate::text;

verus! {

/// The disk of a server.
#[derive(Debug)]
pub struct DiskStatus {
    pub server: Server,
    /// Per cent in use; nothing where there is no measurement.
    pub utilization: Option<Real64>,
    pub used_bytes: u64,
    pub total_bytes: u64,
    /// What was measured.
    pub detail: String,
}

/// What is known of a disk.
pub struct DiskView {
    pub server: cloud::ServerView,
    pub utilization: Option<Real64>,
    pub used_bytes: u64,
    pub total_bytes: u64,
    pub detail: Seq<char>,
}

impl View for DiskStatus {
    type V = DiskView;

    open spec fn view(&self) -> DiskView {
        DiskView {
            server: self.server@,
            utilization: self.utilization,
            used_bytes: self.used_bytes,
            total_bytes: self.total_bytes,
            detail: self.detail@,
        }
    }
}

impl DiskView {
    /// Whether there is no measurement.
    pub open spec fn is_missing(self) -> bool {
        self.utilization is None
    }

    /// Whether as much as the threshold is in use.
    pub open spec fn is_over(self, threshold: Real64) -> bool {
        self.utilization matches Some(u) && u.ge(threshold)
    }
}

impl DiskStatus {
    /// Whether there is no measurement.
    pub fn missing(&self) -> (r: bool)
        ensures
            r == self@.is_missing(),
    {
        self.utilization.is_none()
    }

    /// Whether as much as the threshold is in use.
    pub fn over(&self, threshold: Real64) -> (r: bool)
        ensures
            r == self@.is_over(threshold),
    {
        match self.utilization {
            Some(u) => u.at_least(&threshold),
            None => false,
        }
    }
}

/// A disk without a measurement is over no threshold.
pub proof fn law_missing_is_not_over(d: DiskView, threshold: Real64)
    ensures
        d.is_missing() ==> !d.is_over(threshold),
{
}

/// A disk that is over a threshold is over every lower one.
pub proof fn law_over_lower_threshold(d: DiskView, high: Real64, low: Real64)
    requires
        d.is_over(high),
        high.ge(low),
    ensures
        d.is_over(low),
{
}

// ---------------------------------------------------------------------------
// Thresholds
// ---------------------------------------------------------------------------

/// Whether the threshold is a percentage above zero.
pub open spec fn valid_threshold(t: Real64) -> bool {
    !t.is_nan() && 0 < t.scaled() <= 100 * pow2(1074)
}

/// The bits of one hundred.
pub proof fn lemma_hundred(h: Real64)
    requires
        h.bits == 0x4059_0000_0000_0000,
    ensures
        !h.is_nan(),
        h.scaled() == 100 * pow2(1074),
{
    assert(h.significand() == 0x19_0000_0000_0000);
    assert(h.shift() == 1028);
    lemma_pow2_adds(46, 1028);
    lemma2_to64_rest();
    lemma2_to64();
    let p = pow2(1028);
    assert(0x19_0000_0000_0000 * p == 100 * (0x4000_0000_0000 * p)) by (nonlinear_arith);
}

/// Accepts a percentage above zero and up to one hundred. `shown` is the threshold as the user
/// gave it.
pub fn check_threshold(threshold: Real64, shown: &str) -> (r: Result<(), OpsError>)
    ensures
        match r {
            Ok(_) => valid_threshold(threshold),
            Err(e) => !valid_threshold(threshold) && e@ == "--threshold 参数无效: "@ + shown@
                + "（范围 0 < 阈值 <= 100）"@,
        },
{
    let none = Real64 { bits: 0 };
    let all = Real64 { bits: 0x4059_0000_0000_0000 };
    proof {
        lemma_hundred(all);
        assert(none.scaled() == 0) by {
            assert(none.significand() == 0);
            assert(0 * pow2(none.shift()) == 0);
        }
    }
    if !threshold.nan() && !none.key_at_least(&threshold) && all.key_at_least(&threshold) {
        Ok(())
    } else {
        let mut m = "--threshold 参数无效: ".to_owned();
        m.append(shown);
        m.append("（范围 0 < 阈值 <= 100）");
        Err(OpsError::new(m))
    }
}

// ---------------------------------------------------------------------------
// Measurements by instance
// ---------------------------------------------------------------------------

/// How full the disks of an instance are.
#[derive(Debug)]
pub struct InstanceUsage {
    /// The fullest disk.
    pub max: Real64,
    /// The disks, the fullest first.
    pub devices: Vec<(String, Real64)>,
}

/// What is known of the disks of an instance.
pub struct UsageView {
    pub max: Real64,
    pub devices: Seq<(Seq<char>, Real64)>,
}

impl View for InstanceUsage {
    type V = UsageView;

    open spec fn view(&self) -> UsageView {
        UsageView { max: self.max, devices: text::views(self.devices@) }
    }
}

/// Whether the first disk is as full as the second or fuller.
pub open spec fn fuller(a: (Seq<char>, Real64), b: (Seq<char>, Real64)) -> bool {
    a.1.scaled() >= b.1.scaled()
}

impl sort::Ranked for (String, Real64) {
    open spec fn ranks() -> spec_fn((Seq<char>, Real64), (Seq<char>, Real64)) -> bool {
        |a: (Seq<char>, Real64), b: (Seq<char>, Real64)| fuller(a, b)
    }

    fn at_most(&self, other: &Self) -> (r: bool) {
        self.1.key_at_least(&other.1)
    }

    proof fn lemma_ranking() {
    }
}

/// The disks of the instance in the order of the points.
pub open spec fn devices_of(points: Seq<cms::PointView>, id: Seq<char>) -> Seq<(Seq<char>, Real64)>
    decreases points.len(),
{
    if points.len() == 0 {
        Seq::empty()
    } else if points.last().instance_id == id {
        devices_of(points.drop_last(), id).push((points.last().device, points.last().average))
    } else {
        devices_of(points.drop_last(), id)
    }
}

/// The disks of the instance, the fullest first.
pub open spec fn ranked_devices(points: Seq<cms::PointView>, id: Seq<char>) -> Seq<
    (Seq<char>, Real64),
> {
    sort::stable_sort(
        devices_of(points, id),
        |a: (Seq<char>, Real64), b: (Seq<char>, Real64)| fuller(a, b),
    )
}

/// The value of the first disk, zero where there is none.
pub open spec fn first_value(devices: Seq<(Seq<char>, Real64)>) -> Real64 {
    if devices.len() == 0 {
        real64::zero()
    } else {
        devices[0].1
    }
}

/// How full the disks of the instance are.
pub open spec fn usage_of(points: Seq<cms::PointView>, id: Seq<char>) -> UsageView {
    let devices = ranked_devices(points, id);
    UsageView { max: first_value(devices), devices }
}

/// Whether a point is of the instance.
pub open spec fn measured(points: Seq<cms::PointView>, id: Seq<char>) -> bool {
    exists|i: int| 0 <= i < points.len() && (#[trigger] points[i]).instance_id == id
}

/// Whether all values are numbers.
pub open spec fn all_numbers(points: Seq<cms::PointView>) -> bool {
    forall|i: int| 0 <= i < points.len() ==> !(#[trigger] points[i]).average.is_nan()
}

/// Collects the disks of the instance.
fn usage_of_instance(points: &Vec<MetricPoint>, id: &str) -> (r: InstanceUsage)
    ensures
        r@ == usage_of(text::views(points@), id@),
{
    let ghost all = text::views(points@);
    let mut devices: Vec<(String, Real64)> = Vec::new();
    let mut i: usize = 0;
    assert(text::views(devices@) =~= devices_of(all.take(0), id@));
    while i < points.len()
        invariant
            i <= points.len(),
            all == text::views(points@),
            text::views(devices@) == devices_of(all.take(i as int), id@),
        decreases points.len() - i,
    {
        assert(all.take(i + 1).drop_last() =~= all.take(i as int));
        assert(all.take(i + 1).last() == points@[i as int]@);
        if text::same(points[i].instance_id.as_str(), id) {
            let d: (String, Real64) = (points[i].device.clone(), points[i].average);
            proof {
                text::lemma_views_push(devices@, d);
            }
            devices.push(d);
        }
        i = i + 1;
    }
    assert(all.take(i as int) =~= all);
    let devices = sort::sort_ranked(devices);
    let max = if devices.is_empty() {
        Real64 { bits: 0 }
    } else {
        assert(text::views(devices@)[0] == devices@[0]@);
        devices[0].1
    };
    InstanceUsage { max, devices }
}

/// How full the disks are, instance by instance: of each the fullest disk counts.
pub fn aggregate_by_instance(points: Vec<MetricPoint>) -> (r: vstd::hash_map::StringHashMap<
    InstanceUsage,
>)
    requires
        all_numbers(text::views(points@)),
    ensures
        forall|id: Seq<char>| #[trigger] r@.contains_key(id) <==> measured(
            text::views(points@),
            id,
        ),
        forall|id: Seq<char>| #[trigger]
            r@.contains_key(id) ==> r@[id]@ == usage_of(text::views(points@), id),
{
    let ghost all = text::views(points@);
    let mut map: vstd::hash_map::StringHashMap<InstanceUsage> =
        vstd::hash_map::StringHashMap::new();
    let mut i: usize = 0;
    while i < points.len()
        invariant
            i <= points.len(),
            all == text::views(points@),
            forall|id: Seq<char>| #[trigger] map@.contains_key(id) <==> measured(
                all.take(i as int),
                id,
            ),
            forall|id: Seq<char>| #[trigger] map@.contains_key(id) ==> map@[id]@ == usage_of(all, id),
        decreases points.len() - i,
    {
        let ghost before = map@;
        let ghost here = all[i as int].instance_id;
        assert(here == points@[i as int].instance_id@);
        if !map.contains_key(points[i].instance_id.as_str()) {
            let u = usage_of_instance(&points, points[i].instance_id.as_str());
            map.insert(points[i].instance_id.clone(), u);
        }
        assert forall|id: Seq<char>| #[trigger] map@.contains_key(id) <==> measured(
            all.take(i + 1),
            id,
        ) by {
            if measured(all.take(i as int), id) {
                let k = choose|k: int|
                    0 <= k < all.take(i as int).len() && (#[trigger] all.take(
                        i as int,
                    )[k]).instance_id == id;
                assert(all.take(i + 1)[k].instance_id == id);
            }
            if measured(all.take(i + 1), id) {
                let k = choose|k: int|
                    0 <= k < all.take(i + 1).len() && (#[trigger] all.take(i + 1)[k]).instance_id
                        == id;
                if k < i {
                    assert(all.take(i as int)[k].instance_id == id);
                }
            }
            assert(all.take(i + 1)[i as int].instance_id == here);
        }
        i = i + 1;
    }
    assert(all.take(i as int) =~= all);
    map
}

/// An instance has disks just where a point is of it, and as many disks as points.
proof fn lemma_devices_of(points: Seq<cms::PointView>, id: Seq<char>)
    ensures
        devices_of(points, id).len() > 0 <==> measured(points, id),
        forall|d: (Seq<char>, Real64)| #[trigger]
            devices_of(points, id).contains(d) <==> exists|i: int|
                0 <= i < points.len() && (#[trigger] points[i]) == (cms::PointView {
                    instance_id: id,
                    device: d.0,
                    average: d.1,
                }),
    decreases points.len(),
{
    if points.len() > 0 {
        let init = points.drop_last();
        let last = points.last();
        lemma_devices_of(init, id);
        let before = devices_of(init, id);
        let after = devices_of(points, id);
        if measured(init, id) {
            let i = choose|i: int| 0 <= i < init.len() && (#[trigger] init[i]).instance_id == id;
            assert(points[i].instance_id == id);
        }
        if measured(points, id) && last.instance_id != id {
            let i = choose|i: int| 0 <= i < points.len() && (#[trigger] points[i]).instance_id == id;
            assert(init[i].instance_id == id);
        }
        if last.instance_id == id {
            assert(points[points.len() - 1].instance_id == id);
        }
        assert forall|d: (Seq<char>, Real64)| #[trigger]
            after.contains(d) <==> exists|i: int|
                0 <= i < points.len() && (#[trigger] points[i]) == (cms::PointView {
                    instance_id: id,
                    device: d.0,
                    average: d.1,
                }) by {
            let p = cms::PointView { instance_id: id, device: d.0, average: d.1 };
            if after.contains(d) {
                let k = choose|k: int| 0 <= k < after.len() && after[k] == d;
                if k < before.len() {
                    assert(before[k] == d);
                    assert(before.contains(d));
                    let i = choose|i: int| 0 <= i < init.len() && (#[trigger] init[i]) == p;
                    assert(points[i] == p);
                } else {
                    assert(points[points.len() - 1] == p);
                }
            }
            if exists|i: int| 0 <= i < points.len() && (#[trigger] points[i]) == p {
                let i = choose|i: int| 0 <= i < points.len() && (#[trigger] points[i]) == p;
                if i < init.len() {
                    assert(init[i] == p);
                    assert(before.contains(d));
                    let k = choose|k: int| 0 <= k < before.len() && before[k] == d;
                    assert(after[k] == d);
                } else {
                    assert(after[after.len() - 1] == d);
                }
            }
        }
    } else {
        assert forall|d: (Seq<char>, Real64)| !(#[trigger] devices_of(points, id).contains(d)) by {}
    }
}

/// What counts for an instance is its fullest disk: a value that was measured, and none measured
/// is above it.
pub proof fn law_fullest_disk_counts(points: Seq<cms::PointView>, id: Seq<char>)
    requires
        measured(points, id),
    ensures
        forall|i: int|
            0 <= i < points.len() && (#[trigger] points[i]).instance_id == id ==> usage_of(
                points,
                id,
            ).max.scaled() >= points[i].average.scaled(),
        exists|i: int|
            0 <= i < points.len() && (#[trigger] points[i]).instance_id == id && points[i].average
                == usage_of(points, id).max,
{
    let le = |a: (Seq<char>, Real64), b: (Seq<char>, Real64)| fuller(a, b);
    let ds = devices_of(points, id);
    let ranked = ranked_devices(points, id);
    lemma_devices_of(points, id);
    sort::law_sort_ascending(ds, le);
    sort::law_sort_permutes(ds, le);
    broadcast use vstd::seq_lib::group_to_multiset_ensures;

    assert(ranked.len() == ds.len());
    assert(ranked.contains(ranked[0]));
    assert(ds.to_multiset().contains(ranked[0]));
    assert(ds.contains(ranked[0]));
    let top = ranked[0];
    let j = choose|j: int|
        0 <= j < points.len() && (#[trigger] points[j]) == (cms::PointView {
            instance_id: id,
            device: top.0,
            average: top.1,
        });
    assert(points[j].instance_id == id && points[j].average == usage_of(points, id).max);
    assert forall|i: int|
        0 <= i < points.len() && (#[trigger] points[i]).instance_id == id implies usage_of(
        points,
        id,
    ).max.scaled() >= points[i].average.scaled() by {
        let d = (points[i].device, points[i].average);
        assert(points[i] == (cms::PointView { instance_id: id, device: d.0, average: d.1 }));
        assert(ds.contains(d));
        assert(ranked.to_multiset().contains(d));
        assert(ranked.contains(d));
        let k = choose|k: int| 0 <= k < ranked.len() && ranked[k] == d;
        if k > 0 {
            assert(le(ranked[0], ranked[k]));
        }
    }
}

// ---------------------------------------------------------------------------
// In words
// ---------------------------------------------------------------------------

/// A disk with its value.
pub open spec fn device_text(d: (Seq<char>, Real64)) -> Seq<char> {
    d.0 + " "@ + d.1.one_decimal() + "%"@
}

/// The disks that have a name, with their values.
pub open spec fn named_devices(devices: Seq<(Seq<char>, Real64)>) -> Seq<Seq<char>>
    decreases devices.len(),
{
    if devices.len() == 0 {
        Seq::empty()
    } else if devices.last().0.len() == 0 {
        named_devices(devices.drop_last())
    } else {
        named_devices(devices.drop_last()).push(device_text(devices.last()))
    }
}

/// The disks in words: those that have a name; where none has, the value of the first.
pub open spec fn devices_text(devices: Seq<(Seq<char>, Real64)>) -> Seq<char> {
    let parts = named_devices(devices);
    if parts.len() == 0 {
        "系统盘 "@ + first_value(devices).one_decimal() + "%"@
    } else {
        "设备: "@ + text::join(parts, ", "@)
    }
}

/// The disks in words.
pub fn format_devices(devices: &[(String, Real64)]) -> (r: String)
    ensures
        r@ == devices_text(text::views(devices@)),
{
    let ghost all = text::views(devices@);
    let mut parts: Vec<String> = Vec::new();
    let mut i: usize = 0;
    assert(text::views(parts@) =~= named_devices(all.take(0)));
    while i < devices.len()
        invariant
            i <= devices.len(),
            all == text::views(devices@),
            text::views(parts@) == named_devices(all.take(i as int)),
        decreases devices.len() - i,
    {
        assert(all.take(i + 1).drop_last() =~= all.take(i as int));
        assert(all.take(i + 1).last() == devices@[i as int]@);
        if !devices[i].0.as_str().is_empty() {
            let mut p = devices[i].0.clone();
            p.append(" ");
            let v = devices[i].1.print_one_decimal();
            p.append(v.as_str());
            p.append("%");
            proof {
                text::lemma_views_push(parts@, p);
            }
            parts.push(p);
        }
        i = i + 1;
    }
    assert(all.take(i as int) =~= all);
    if parts.is_empty() {
        let v = if devices.len() == 0 {
            Real64 { bits: 0 }
        } else {
            assert(all[0] == devices@[0]@);
            devices[0].1
        };
        let mut m = "系统盘 ".to_owned();
        let t = v.print_one_decimal();
        m.append(t.as_str());
        m.append("%");
        m
    } else {
        let mut m = "设备: ".to_owned();
        let j = text::join_strings(&parts, ", ");
        m.append(j.as_str());
        m
    }
}

/// Which unit a number of bytes is shown in: each is 1024 of the one before.
pub open spec fn unit_index(v: nat) -> nat {
    if v < 0x400 {
        0
    } else if v < 0x10_0000 {
        1
    } else if v < 0x4000_0000 {
        2
    } else if v < 0x100_0000_0000 {
        3
    } else {
        4
    }
}

/// The bytes in a unit.
pub open spec fn unit_size(i: nat) -> nat {
    if i == 0 {
        1
    } else if i == 1 {
        0x400
    } else if i == 2 {
        0x10_0000
    } else if i == 3 {
        0x4000_0000
    } else {
        0x100_0000_0000
    }
}

/// The name of a unit.
pub open spec fn unit_name(i: nat) -> Seq<char> {
    if i == 0 {
        "B"@
    } else if i == 1 {
        "KB"@
    } else if i == 2 {
        "MB"@
    } else if i == 3 {
        "GB"@
    } else {
        "TB"@
    }
}

/// A number of bytes in the largest unit that fits, with one decimal place. The number goes
/// through binary64, so beyond 2^53 it is the nearest that the format has.
pub open spec fn bytes_text(n: nat) -> Seq<char> {
    let v = real64::nearest(n);
    let i = unit_index(v);
    if i == 0 {
        text::dec(n) + " B"@
    } else {
        real64::tenths_text(real64::round_half_even(10 * v, unit_size(i))) + " "@ + unit_name(i)
    }
}

/// The number of bytes in words.
pub fn format_bytes(n: u64) -> (r: String)
    ensures
        r@ == bytes_text(n as nat),
{
    let v: u128 = real64::nearest_real(n);
    if v < 0x400 {
        let mut s = text::print_u64(n);
        s.append(" B");
        return s;
    }
    let size: u128 = if v < 0x10_0000 {
        0x400
    } else if v < 0x4000_0000 {
        0x10_0000
    } else if v < 0x100_0000_0000 {
        0x4000_0000
    } else {
        0x100_0000_0000
    };
    let name: &'static str = if v < 0x10_0000 {
        "KB"
    } else if v < 0x4000_0000 {
        "MB"
    } else if v < 0x100_0000_0000 {
        "GB"
    } else {
        "TB"
    };
    let t: u128 = real64::rounded(10 * v, size);
    assert(t / 10 <= u64::MAX) by {
        assert(t <= (10 * v) / (size as int) + 1);
        assert((10 * v) / (size as int) <= 10 * v / 0x400) by (nonlinear_arith)
            requires
                size >= 0x400,
                v >= 0,
        ;
    }
    let mut s = real64::print_tenths(t);
    s.append(" ");
    s.append(name);
    s
}

/// The line for a disk over the threshold.
pub open spec fn over_line(x: (Seq<char>, Seq<char>, DiskView)) -> Seq<char> {
    let pct = match x.2.utilization {
        Some(u) => u,
        None => real64::zero(),
    };
    "- "@ + x.0 + "/"@ + x.1 + ": "@ + x.2.server.name + " ("@ + x.2.server.id + ") "@
        + pct.one_decimal() + "% (已用 "@ + bytes_text(x.2.used_bytes as nat) + "/"@ + bytes_text(
        x.2.total_bytes as nat,
    ) + " "@ + x.2.detail + ")\n"@
}

/// The line for a disk without a measurement.
pub open spec fn missing_line(x: (Seq<char>, Seq<char>, DiskView)) -> Seq<char> {
    "- "@ + x.0 + "/"@ + x.1 + ": "@ + x.2.server.name + " ("@ + x.2.server.id
        + ") 无磁盘监控数据（疑似未装云监控插件）\n"@
}

/// The list of disks over the threshold, empty where there are none.
pub open spec fn over_part(over: Seq<(Seq<char>, Seq<char>, DiskView)>) -> Seq<char> {
    if over.len() == 0 {
        Seq::empty()
    } else {
        "=== 磁盘占用检查 ===\n"@ + text::concat(Seq::new(over.len(), |i: int| over_line(over[i])))
    }
}

/// The list of disks without a measurement, empty where there are none.
pub open spec fn missing_part(missing: Seq<(Seq<char>, Seq<char>, DiskView)>) -> Seq<char> {
    if missing.len() == 0 {
        Seq::empty()
    } else {
        "=== 数据缺失 ===\n"@ + text::concat(
            Seq::new(missing.len(), |i: int| missing_line(missing[i])),
        )
    }
}

/// Both lists, a line between them where there are both.
pub open spec fn disk_report(
    over: Seq<(Seq<char>, Seq<char>, DiskView)>,
    missing: Seq<(Seq<char>, Seq<char>, DiskView)>,
) -> Seq<char> {
    if over.len() > 0 && missing.len() > 0 {
        over_part(over) + "\n"@ + missing_part(missing)
    } else {
        over_part(over) + missing_part(missing)
    }
}

/// The line for a disk over the threshold.
fn print_over_line(project: &str, kind: &str, s: &DiskStatus) -> (r: String)
    ensures
        r@ == over_line((project@, kind@, s@)),
{
    let pct = match s.utilization {
        Some(u) => u,
        None => Real64 { bits: 0 },
    };
    let mut m = "- ".to_owned();
    m.append(project);
    m.append("/");
    m.append(kind);
    m.append(": ");
    m.append(s.server.name.as_str());
    m.append(" (");
    m.append(s.server.id.as_str());
    m.append(") ");
    let p = pct.print_one_decimal();
    m.append(p.as_str());
    m.append("% (已用 ");
    let used = format_bytes(s.used_bytes);
    m.append(used.as_str());
    m.append("/");
    let total = format_bytes(s.total_bytes);
    m.append(total.as_str());
    m.append(" ");
    m.append(s.detail.as_str());
    m.append(")\n");
    m
}

/// The line for a disk without a measurement.
fn print_missing_line(project: &str, kind: &str, s: &DiskStatus) -> (r: String)
    ensures
        r@ == missing_line((project@, kind@, s@)),
{
    let mut m = "- ".to_owned();
    m.append(project);
    m.append("/");
    m.append(kind);
    m.append(": ");
    m.append(s.server.name.as_str());
    m.append(" (");
    m.append(s.server.id.as_str());
    m.append(") 无磁盘监控数据（疑似未装云监控插件）\n");
    m
}

/// The report: the disks over the threshold, then those without a measurement. A list that is
/// empty is left out.
pub fn render_disk(
    over: &[(String, String, DiskStatus)],
    missing: &[(String, String, DiskStatus)],
) -> (r: String)
    ensures
        r@ == disk_report(text::views(over@), text::views(missing@)),
{
    let ghost ov = text::views(over@);
    let ghost mv = text::views(missing@);
    let mut out = String::new();
    if over.len() > 0 {
        out = "=== 磁盘占用检查 ===\n".to_owned();
        let ghost head = "=== 磁盘占用检查 ===\n"@;
        let ghost lines = Seq::new(ov.len(), |k: int| over_line(ov[k]));
        let mut i: usize = 0;
        assert(head + text::concat(lines.take(0)) =~= head);
        while i < over.len()
            invariant
                i <= over.len(),
                ov == text::views(over@),
                lines == Seq::new(ov.len(), |k: int| over_line(ov[k])),
                out@ == head + text::concat(lines.take(i as int)),
            decreases over.len() - i,
        {
            assert(ov[i as int] == over@[i as int]@);
            let line = print_over_line(over[i].0.as_str(), over[i].1.as_str(), &over[i].2);
            out.append(line.as_str());
            proof {
                assert(lines.take(i + 1) =~= lines.take(i as int).push(line@));
                text::lemma_concat_push(lines.take(i as int), line@);
                assert(head + text::concat(lines.take(i as int)) + line@ =~= head + (text::concat(
                    lines.take(i as int),
                ) + line@));
            }
            i = i + 1;
        }
        assert(lines.take(i as int) =~= lines);
    }
    assert(out@ =~= over_part(ov));
    if missing.len() > 0 {
        if over.len() > 0 {
            out.append("\n");
        }
        let mut part = "=== 数据缺失 ===\n".to_owned();
        let ghost head = "=== 数据缺失 ===\n"@;
        let ghost lines = Seq::new(mv.len(), |k: int| missing_line(mv[k]));
        let mut i: usize = 0;
        assert(head + text::concat(lines.take(0)) =~= head);
        while i < missing.len()
            invariant
                i <= missing.len(),
                mv == text::views(missing@),
                lines == Seq::new(mv.len(), |k: int| missing_line(mv[k])),
                part@ == head + text::concat(lines.take(i as int)),
            decreases missing.len() - i,
        {
            assert(mv[i as int] == missing@[i as int]@);
            let line = print_missing_line(
                missing[i].0.as_str(),
                missing[i].1.as_str(),
                &missing[i].2,
            );
            part.append(line.as_str());
            proof {
                assert(lines.take(i + 1) =~= lines.take(i as int).push(line@));
                text::lemma_concat_push(lines.take(i as int), line@);
                assert(head + text::concat(lines.take(i as int)) + line@ =~= head + (text::concat(
                    lines.take(i as int),
                ) + line@));
            }
            i = i + 1;
        }
        assert(lines.take(i as int) =~= lines);
        out.append(part.as_str());
    } else {
        assert(out@ + missing_part(mv) =~= out@);
    }
    out
}

/// The parts of the title, those left out that count nothing.
pub open spec fn title_parts(over: nat, missing: nat) -> Seq<Seq<char>> {
    let a = if over > 0 {
        seq![text::dec(over) + " 台超阈值"@]
    } else {
        Seq::empty()
    };
    if missing > 0 {
        a.push(text::dec(missing) + " 台数据缺失"@)
    } else {
        a
    }
}

/// The title of the report.
pub open spec fn title_text(over: nat, missing: nat) -> Seq<char> {
    if over == 0 && missing == 0 {
        "磁盘占用检查: 全部正常"@
    } else {
        "磁盘占用检查: "@ + text::join(title_parts(over, missing), ", "@)
    }
}

/// The title of the report: how many are over the threshold and how many have no measurement.
pub fn title(
    over: &[(String, String, DiskStatus)],
    missing: &[(String, String, DiskStatus)],
) -> (r: String)
    ensures
        r@ == title_text(over@.len(), missing@.len()),
{
    let mut parts: Vec<String> = Vec::new();
    assert(text::views(parts@) =~= Seq::<Seq<char>>::empty());
    if over.len() > 0 {
        let mut p = text::print_usize(over.len());
        p.append(" 台超阈值");
        proof {
            text::lemma_views_push(parts@, p);
        }
        parts.push(p);
        assert(text::views(parts@) =~= seq![text::dec(over@.len()) + " 台超阈值"@]);
    }
    if missing.len() > 0 {
        let mut p = text::print_usize(missing.len());
        p.append(" 台数据缺失");
        proof {
            text::lemma_views_push(parts@, p);
        }
        parts.push(p);
    }
    assert(text::views(parts@) == title_parts(over@.len(), missing@.len()));
    if parts.is_empty() {
        "磁盘占用检查: 全部正常".to_owned()
    } else {
        let mut m = "磁盘占用检查: ".to_owned();
        let j = text::join_strings(&parts, ", ");
        m.append(j.as_str());
        m
    }
}

// ---------------------------------------------------------------------------
// ECS instances
// ---------------------------------------------------------------------------

/// Whether the server runs.
pub open spec fn is_running(s: cloud::ServerView) -> bool {
    s.status == "Running"@
}

/// The disks of a server that was measured.
pub open spec fn measured_disk(s: cloud::ServerView, points: Seq<cms::PointView>) -> DiskView {
    let usage = usage_of(points, s.id);
    DiskView {
        server: s,
        utilization: Some(usage.max),
        used_bytes: 0,
        total_bytes: 0,
        detail: devices_text(usage.devices),
    }
}

/// A server without a measurement.
pub open spec fn unmeasured_disk(s: cloud::ServerView) -> DiskView {
    DiskView {
        server: s,
        utilization: None,
        used_bytes: 0,
        total_bytes: 0,
        detail: Seq::empty(),
    }
}

/// The running servers whose fullest disk is over the threshold.
pub open spec fn ecs_over(
    servers: Seq<cloud::ServerView>,
    points: Seq<cms::PointView>,
    threshold: Real64,
) -> Seq<DiskView>
    decreases servers.len(),
{
    if servers.len() == 0 {
        Seq::empty()
    } else {
        let before = ecs_over(servers.drop_last(), points, threshold);
        let s = servers.last();
        if is_running(s) && measured(points, s.id) && measured_disk(s, points).is_over(threshold) {
            before.push(measured_disk(s, points))
        } else {
            before
        }
    }
}

/// The running servers without a measurement.
pub open spec fn ecs_missing(
    servers: Seq<cloud::ServerView>,
    points: Seq<cms::PointView>,
) -> Seq<DiskView>
    decreases servers.len(),
{
    if servers.len() == 0 {
        Seq::empty()
    } else {
        let before = ecs_missing(servers.drop_last(), points);
        let s = servers.last();
        if is_running(s) && !measured(points, s.id) {
            before.push(unmeasured_disk(s))
        } else {
            before
        }
    }
}

/// Sorts the running servers of a region into those whose fullest disk is over the threshold and
/// those that were not measured.
pub fn check_ecs_disk(servers: Vec<Server>, points: Vec<MetricPoint>, threshold: Real64) -> (r: (
    Vec<DiskStatus>,
    Vec<DiskStatus>,
))
    requires
        all_numbers(text::views(points@)),
    ensures
        text::views(r.0@) == ecs_over(text::views(servers@), text::views(points@), threshold),
        text::views(r.1@) == ecs_missing(text::views(servers@), text::views(points@)),
{
    let ghost pv = text::views(points@);
    let ghost sv = text::views(servers@);
    let usage = aggregate_by_instance(points);
    let mut over: Vec<DiskStatus> = Vec::new();
    let mut missing: Vec<DiskStatus> = Vec::new();
    assert(text::views(over@) =~= ecs_over(sv.take(0), pv, threshold));
    assert(text::views(missing@) =~= ecs_missing(sv.take(0), pv));
    for server in it: servers
        invariant
            it.seq() == servers@,
            sv == text::views(servers@),
            forall|id: Seq<char>| #[trigger] usage@.contains_key(id) <==> measured(pv, id),
            forall|id: Seq<char>| #[trigger]
                usage@.contains_key(id) ==> usage@[id]@ == usage_of(pv, id),
            text::views(over@) == ecs_over(sv.take(it.index() as int), pv, threshold),
            text::views(missing@) == ecs_missing(sv.take(it.index() as int), pv),
    {
        let ghost i = it.index() as int;
        let ghost s = server@;
        assert(sv.take(i + 1).drop_last() =~= sv.take(i));
        assert(sv.take(i + 1).last() == s);
        if text::same(server.status.as_str(), "Running") {
            match usage.get(server.id.as_str()) {
                Some(u) => {
                    let d = DiskStatus {
                        utilization: Some(u.max),
                        used_bytes: 0,
                        total_bytes: 0,
                        detail: format_devices(u.devices.as_slice()),
                        server,
                    };
                    assert(d@ == measured_disk(s, pv));
                    if d.over(threshold) {
                        proof {
                            text::lemma_views_push(over@, d);
                        }
                        over.push(d);
                    }
                },
                None => {
                    let d = DiskStatus {
                        server,
                        utilization: None,
                        used_bytes: 0,
                        total_bytes: 0,
                        detail: String::new(),
                    };
                    assert(d@ == unmeasured_disk(s));
                    proof {
                        text::lemma_views_push(missing@, d);
                    }
                    missing.push(d);
                },
            }
        }
    }
    assert(sv.take(servers@.len() as int) =~= sv);
    (over, missing)
}

/// Only running servers are reported, those over the threshold as measured, the others as not; and
/// every running server that is over the threshold or was not measured is reported.
pub proof fn law_reported_disks(
    servers: Seq<cloud::ServerView>,
    points: Seq<cms::PointView>,
    threshold: Real64,
)
    ensures
        forall|i: int|
            0 <= i < ecs_over(servers, points, threshold).len() ==> {
                let d = #[trigger] ecs_over(servers, points, threshold)[i];
                is_running(d.server) && measured(points, d.server.id) && d.is_over(threshold)
            },
        forall|i: int|
            0 <= i < ecs_missing(servers, points).len() ==> {
                let d = #[trigger] ecs_missing(servers, points)[i];
                is_running(d.server) && !measured(points, d.server.id) && d.is_missing()
            },
        forall|k: int|
            0 <= k < servers.len() && is_running(#[trigger] servers[k]) ==> if measured(
                points,
                servers[k].id,
            ) {
                measured_disk(servers[k], points).is_over(threshold) ==> ecs_over(
                    servers,
                    points,
                    threshold,
                ).contains(measured_disk(servers[k], points))
            } else {
                ecs_missing(servers, points).contains(unmeasured_disk(servers[k]))
            },
    decreases servers.len(),
{
    if servers.len() > 0 {
        let init = servers.drop_last();
        law_reported_disks(init, points, threshold);
        let over = ecs_over(servers, points, threshold);
        let missing = ecs_missing(servers, points);
        assert forall|k: int|
            0 <= k < servers.len() && is_running(#[trigger] servers[k]) implies if measured(
            points,
            servers[k].id,
        ) {
            measured_disk(servers[k], points).is_over(threshold) ==> over.contains(
                measured_disk(servers[k], points),
            )
        } else {
            missing.contains(unmeasured_disk(servers[k]))
        } by {
            if k < init.len() {
                assert(init[k] == servers[k]);
                let o = ecs_over(init, points, threshold);
                let m = ecs_missing(init, points);
                if o.contains(measured_disk(servers[k], points)) {
                    let j = choose|j: int| 0 <= j < o.len() && o[j] == measured_disk(servers[k], points);
                    assert(over[j] == o[j]);
                }
                if m.contains(unmeasured_disk(servers[k])) {
                    let j = choose|j: int| 0 <= j < m.len() && m[j] == unmeasured_disk(servers[k]);
                    assert(missing[j] == m[j]);
                }
            } else if measured(points, servers[k].id) {
                if measured_disk(servers[k], points).is_over(threshold) {
                    assert(over[over.len() - 1] == measured_disk(servers[k], points));
                }
            } else {
                assert(missing[missing.len() - 1] == unmeasured_disk(servers[k]));
            }
        }
    }
}

} // verus!
