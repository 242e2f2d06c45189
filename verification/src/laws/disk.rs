//! Full disks: values, who is reported, and in what words.

use vstd::prelude::*;
use vstd::arithmetic::power2::*;
use crate::cloud::aliyun::cms::PointView;
use crate::cloud::ServerView;
use crate::ops::disk;
use crate::ops::disk::DiskView;
use crate::real64;
use crate::real64::Real64;
use crate::sort;
use crate::text;

verus! {

// ---------------------------------------------------------------------------
// Values
// ---------------------------------------------------------------------------

/// A number is its sign, its exponent and its fraction, in units of the smallest number; with all
/// bits of the exponent and one of the fraction it is none.
pub proof fn law_value(x: Real64)
    ensures
        ({
            let u = x.bits as int % 0x8000_0000_0000_0000;
            let e = u / 0x10_0000_0000_0000;
            let f = u % 0x10_0000_0000_0000;
            let m = if e == 0 {
                f
            } else {
                (0x10_0000_0000_0000 + f) * pow2((e - 1) as nat)
            };
            &&& x.is_nan() == (u > 0x7ff0_0000_0000_0000)
            &&& x.scaled() == if x.bits >= 0x8000_0000_0000_0000 { -m } else { m }
        }),
{
    let u = x.bits as int % 0x8000_0000_0000_0000;
    let e = u / 0x10_0000_0000_0000;
    let f = u % 0x10_0000_0000_0000;
    if e == 0 {
        lemma2_to64();
        assert(f * pow2(0) == f);
    }
}

/// Of positive numbers the one with the larger bits is the larger.
pub proof fn law_positive_numbers(x: Real64, y: Real64)
    requires
        x.bits <= 0x7ff0_0000_0000_0000,
        y.bits <= 0x7ff0_0000_0000_0000,
    ensures
        !x.is_nan(),
        x.scaled() >= y.scaled() <==> x.bits >= y.bits,
        x.ge(y) <==> x.bits >= y.bits,
{
    x.law_key_order(y);
    assert(x.unsigned_bits() == x.bits && y.unsigned_bits() == y.bits);
}

/// A disk is over a threshold just where it was measured, both numbers are numbers, and the measured
/// one is at least the threshold; so it is over every threshold up to what was measured.
pub proof fn law_over_a_threshold(d: DiskView, threshold: Real64)
    ensures
        d.is_over(threshold) <==> (d.utilization matches Some(u) && !u.is_nan() && !threshold.is_nan()
            && u.scaled() >= threshold.scaled()),
        d.is_missing() <==> d.utilization is None,
        d.utilization matches Some(u) ==> u.bits <= 0x7ff0_0000_0000_0000 && threshold.bits <= u.bits
            ==> d.is_over(threshold),
        d.utilization matches Some(u) ==> threshold.bits <= 0x7ff0_0000_0000_0000 && u.bits
            < threshold.bits ==> !d.is_over(threshold),
{
    if let Some(u) = d.utilization {
        if u.bits <= 0x7ff0_0000_0000_0000 && threshold.bits <= 0x7ff0_0000_0000_0000 {
            law_positive_numbers(u, threshold);
            law_positive_numbers(threshold, u);
        }
    }
}

/// A threshold is accepted just where it lies above zero and is at most one hundred.
pub proof fn law_accepted_thresholds(t: Real64)
    ensures
        disk::valid_threshold(t) <==> 0 < t.bits <= 0x4059_0000_0000_0000,
{
    let none = Real64 { bits: 0 };
    let all = Real64 { bits: 0x4059_0000_0000_0000 };
    disk::lemma_hundred(all);
    assert(none.scaled() == 0) by {
        assert(none.significand() == 0);
        assert(0 * pow2(none.shift()) == 0);
    }
    t.law_key_order(none);
    none.law_key_order(t);
    all.law_key_order(t);
    t.law_key_order(all);
    assert(all.unsigned_bits() == 0x4059_0000_0000_0000);
    if t.bits < 0x8000_0000_0000_0000 {
        assert(t.unsigned_bits() == t.bits);
    }
}

/// Whether `t` is the whole number nearest to `n / d`, the even one of two that are as near.
pub open spec fn nearest_whole(t: int, n: int, d: int) -> bool {
    &&& 2 * n <= (2 * t + 1) * d
    &&& 2 * n >= (2 * t - 1) * d
    &&& 2 * n == (2 * t + 1) * d ==> t % 2 == 0
    &&& 2 * n == (2 * t - 1) * d ==> t % 2 == 0
}

/// Rounding gives the nearest whole number.
proof fn lemma_nearest_whole(n: nat, d: nat)
    requires
        d > 0,
    ensures
        nearest_whole(real64::round_half_even(n, d) as int, n as int, d as int),
{
    let q = n / d;
    let r = n % d;
    vstd::arithmetic::div_mod::lemma_fundamental_div_mod(n as int, d as int);
    assert(n == d * q + r);
    assert((2 * q + 1) * d == 2 * (d * q) + d) by (nonlinear_arith);
    assert((2 * q - 1) * d == 2 * (d * q) - d) by (nonlinear_arith);
    assert((2 * (q + 1) + 1) * d == 2 * (d * q) + 3 * d) by (nonlinear_arith);
    assert((2 * (q + 1) - 1) * d == 2 * (d * q) + d) by (nonlinear_arith);
}

/// Whether `t` is the number of tenths nearest to the size of the value, which is in units of
/// 2^-1074.
pub open spec fn nearest_tenths(value: int, t: nat) -> bool {
    let size = if value < 0 {
        -value
    } else {
        value
    };
    nearest_whole(t as int, 10 * size, pow2(1074) as int)
}

/// A number with one decimal place: its sign, and the nearest number of tenths.
pub proof fn law_one_decimal(x: Real64)
    requires
        x.bits as int % 0x8000_0000_0000_0000 < 0x7ff0_0000_0000_0000,
    ensures
        exists|t: nat| #[trigger]
            nearest_tenths(x.scaled(), t) && x.one_decimal() == (if x.bits >= 0x8000_0000_0000_0000 {
                "-"@
            } else {
                ""@
            }) + (text::dec(t / 10) + "."@ + text::dec(t % 10)),
{
    lemma_pow2_pos(1074);
    let t = real64::round_half_even(10 * x.magnitude(), pow2(1074));
    lemma_nearest_whole(10 * x.magnitude(), pow2(1074));
    assert(nearest_tenths(x.scaled(), t));
}

/// The whole number that stands for a large one: a multiple of a power of two that is so small that
/// less than 2^53 of it make up the number, and the nearest such.
pub proof fn law_nearest_real(n: nat)
    ensures
        n < 0x20_0000_0000_0000 ==> real64::nearest(n) == n,
        exists|u: nat, q: nat|
            u > 0 && real64::nearest(n) == #[trigger] (q * u) && nearest_whole(q as int, n as int, u as int)
                && (u == 1 || 0x10_0000_0000_0000 * u <= n) && n < 0x20_0000_0000_0000 * u,
{
    lemma_spacing(n);
    let u = real64::spacing(n);
    let q = real64::round_half_even(n, u);
    lemma_nearest_whole(n, u);
    assert(real64::nearest(n) == q * u);
    if n < 0x20_0000_0000_0000 {
        assert(n / 1 == n && n % 1 == 0);
        assert(q == n);
    }
}

/// How far apart numbers of the size are.
proof fn lemma_spacing(n: nat)
    ensures
        real64::spacing(n) > 0,
        real64::spacing(n) == 1 || 0x10_0000_0000_0000 * real64::spacing(n) <= n,
        n < 0x20_0000_0000_0000 * real64::spacing(n),
        n < 0x20_0000_0000_0000 ==> real64::spacing(n) == 1,
    decreases n,
{
    if n >= 0x20_0000_0000_0000 {
        lemma_spacing(n / 2);
    }
}

// ---------------------------------------------------------------------------
// Who is reported
// ---------------------------------------------------------------------------

/// The disks of an instance are those of its points.
proof fn lemma_devices(points: Seq<PointView>, id: Seq<char>, of_it: spec_fn(PointView) -> bool)
    requires
        forall|p: PointView| #[trigger] of_it(p) == (p.instance_id == id),
    ensures
        disk::devices_of(points, id).len() == points.filter(of_it).len(),
        forall|i: int|
            0 <= i < points.filter(of_it).len() ==> #[trigger] disk::devices_of(points, id)[i] == (
                points.filter(of_it)[i].device,
                points.filter(of_it)[i].average,
            ),
    decreases points.len(),
{
    reveal(Seq::filter);
    if points.len() > 0 {
        lemma_devices(points.drop_last(), id, of_it);
    }
}

/// What is known of an instance: all its points with device and value and no others, the fullest
/// first, and the first value as the one that counts.
pub proof fn law_usage_of_an_instance(points: Seq<PointView>, id: Seq<char>)
    ensures
        ({
            let own = points.filter(|p: PointView| p.instance_id == id);
            let pairs = Seq::new(own.len(), |i: int| (own[i].device, own[i].average));
            let usage = disk::usage_of(points, id);
            &&& usage.devices.to_multiset() == pairs.to_multiset()
            &&& forall|i: int, j: int|
                0 <= i < j < usage.devices.len() ==> (#[trigger] usage.devices[i]).1.scaled() >= (
                #[trigger] usage.devices[j]).1.scaled()
            &&& usage.devices.len() > 0 ==> usage.max == usage.devices[0].1
            &&& usage.devices.len() == 0 ==> usage.max.bits == 0
        }),
{
    let p = |p: PointView| p.instance_id == id;
    lemma_devices(points, id, p);
    let own = points.filter(p);
    let pairs = Seq::new(own.len(), |i: int| (own[i].device, own[i].average));
    assert(disk::devices_of(points, id) =~= pairs);
    let le = |a: (Seq<char>, Real64), b: (Seq<char>, Real64)| disk::fuller(a, b);
    sort::law_sort_ascending(pairs, le);
    sort::law_sort_permutes(pairs, le);
    let usage = disk::usage_of(points, id);
    assert(usage.devices == sort::stable_sort(pairs, le));
    assert forall|i: int, j: int| 0 <= i < j < usage.devices.len() implies (
    #[trigger] usage.devices[i]).1.scaled() >= (#[trigger] usage.devices[j]).1.scaled() by {
        assert(le(usage.devices[i], usage.devices[j]));
    }
}

/// Whether a point of the server is at least the threshold.
pub open spec fn reaches(s: ServerView, points: Seq<PointView>, threshold: Real64) -> bool {
    exists|j: int|
        0 <= j < points.len() && (#[trigger] points[j]).instance_id == s.id
            && points[j].average.scaled() >= threshold.scaled()
}

/// Whether there is no point of the server.
pub open spec fn without_points(s: ServerView, points: Seq<PointView>) -> bool {
    forall|j: int| 0 <= j < points.len() ==> (#[trigger] points[j]).instance_id != s.id
}

/// Whether the server is over the threshold, by its points.
proof fn lemma_reaches(s: ServerView, points: Seq<PointView>, threshold: Real64)
    requires
        forall|j: int| 0 <= j < points.len() ==> !(#[trigger] points[j]).average.is_nan(),
        !threshold.is_nan(),
    ensures
        disk::measured(points, s.id) == !without_points(s, points),
        disk::measured(points, s.id) && disk::measured_disk(s, points).is_over(threshold) <==> reaches(
            s,
            points,
            threshold,
        ),
{
    if disk::measured(points, s.id) {
        disk::law_fullest_disk_counts(points, s.id);
        let max = disk::usage_of(points, s.id).max;
        let j = choose|j: int|
            0 <= j < points.len() && (#[trigger] points[j]).instance_id == s.id && points[j].average
                == max;
        assert(!points[j].average.is_nan());
        if reaches(s, points, threshold) {
            let k = choose|k: int|
                0 <= k < points.len() && (#[trigger] points[k]).instance_id == s.id
                    && points[k].average.scaled() >= threshold.scaled();
            assert(max.scaled() >= points[k].average.scaled());
        }
    }
}

/// The servers reported, by the one question asked of each.
proof fn lemma_reported(
    servers: Seq<ServerView>,
    points: Seq<PointView>,
    threshold: Real64,
    full: spec_fn(ServerView) -> bool,
    blind: spec_fn(ServerView) -> bool,
)
    requires
        forall|j: int| 0 <= j < points.len() ==> !(#[trigger] points[j]).average.is_nan(),
        !threshold.is_nan(),
        forall|s: ServerView| #[trigger]
            full(s) == (s.status == "Running"@ && reaches(s, points, threshold)),
        forall|s: ServerView| #[trigger]
            blind(s) == (s.status == "Running"@ && without_points(s, points)),
    ensures
        disk::ecs_over(servers, points, threshold).len() == servers.filter(full).len(),
        forall|i: int|
            0 <= i < servers.filter(full).len() ==> #[trigger] disk::ecs_over(
                servers,
                points,
                threshold,
            )[i] == disk::measured_disk(servers.filter(full)[i], points),
        disk::ecs_missing(servers, points).len() == servers.filter(blind).len(),
        forall|i: int|
            0 <= i < servers.filter(blind).len() ==> #[trigger] disk::ecs_missing(servers, points)[i]
                == disk::unmeasured_disk(servers.filter(blind)[i]),
    decreases servers.len(),
{
    reveal(Seq::filter);
    if servers.len() > 0 {
        lemma_reported(servers.drop_last(), points, threshold, full, blind);
        lemma_reaches(servers.last(), points, threshold);
    }
}

/// Of the servers just those that run and have a point that is at least the threshold are reported as
/// full, with the value that counts, and just those that run and have no point as not measured; in
/// their order. This holds for every threshold.
pub proof fn law_servers_reported(
    servers: Seq<ServerView>,
    points: Seq<PointView>,
    threshold: Real64,
)
    requires
        forall|j: int| 0 <= j < points.len() ==> !(#[trigger] points[j]).average.is_nan(),
        !threshold.is_nan(),
    ensures
        ({
            let full = servers.filter(
                |s: ServerView| s.status == "Running"@ && reaches(s, points, threshold),
            );
            let blind = servers.filter(
                |s: ServerView| s.status == "Running"@ && without_points(s, points),
            );
            let over = disk::ecs_over(servers, points, threshold);
            let missing = disk::ecs_missing(servers, points);
            &&& over.len() == full.len()
            &&& forall|i: int|
                0 <= i < over.len() ==> (#[trigger] over[i]).server == full[i] && over[i].utilization
                    == Some(disk::usage_of(points, full[i].id).max) && over[i].detail
                    == disk::devices_text(disk::usage_of(points, full[i].id).devices)
                    && over[i].used_bytes == 0 && over[i].total_bytes == 0
            &&& missing.len() == blind.len()
            &&& forall|i: int|
                0 <= i < missing.len() ==> (#[trigger] missing[i]).server == blind[i]
                    && missing[i].utilization is None
        }),
{
    lemma_reported(
        servers,
        points,
        threshold,
        |s: ServerView| s.status == "Running"@ && reaches(s, points, threshold),
        |s: ServerView| s.status == "Running"@ && without_points(s, points),
    );
}

// ---------------------------------------------------------------------------
// In words
// ---------------------------------------------------------------------------

/// Disks in words: one that has a name stands with its value behind those before it; where none has
/// a name, the first value is told as that of the system disk.
pub proof fn law_disks_in_words(devices: Seq<(Seq<char>, Real64)>, d: (Seq<char>, Real64))
    ensures
        d.0.len() == 0 ==> disk::named_devices(devices.push(d)) == disk::named_devices(devices),
        d.0.len() > 0 ==> disk::named_devices(devices.push(d)) == disk::named_devices(devices).push(
            d.0 + " "@ + d.1.one_decimal() + "%"@,
        ),
        disk::named_devices(Seq::empty()) == Seq::<Seq<char>>::empty(),
        disk::named_devices(devices).len() > 0 ==> disk::devices_text(devices) == "设备: "@ + text::join(
            disk::named_devices(devices),
            ", "@,
        ),
        disk::named_devices(devices).len() == 0 && devices.len() > 0 ==> disk::devices_text(devices)
            == "系统盘 "@ + devices[0].1.one_decimal() + "%"@,
{
    assert(devices.push(d).drop_last() =~= devices);
}

/// Whether the text tells of the number in the unit, which has the size: the nearest number of tenths,
/// and the unit behind it.
pub open spec fn told_in(s: Seq<char>, v: nat, size: int, unit: Seq<char>) -> bool {
    exists|t: nat| #[trigger]
        nearest_whole(t as int, 10 * v as int, size) && s == text::dec(t / 10) + "."@ + text::dec(t % 10)
            + " "@ + unit
}

/// Bytes in words: below 1024 as they are; else the nearest number of tenths of the largest unit that
/// fits, each unit being 1024 of the one before. Beyond 2^53 the nearest number that binary64 has is
/// taken for the number.
pub proof fn law_bytes_in_words(n: nat)
    ensures
        n < 1024 ==> disk::bytes_text(n) == text::dec(n) + " B"@,
        n >= 1024 ==> ({
            let v = real64::nearest(n);
            let s = disk::bytes_text(n);
            if v < 1_048_576 {
                told_in(s, v, 1024, "KB"@)
            } else if v < 1_073_741_824 {
                told_in(s, v, 1_048_576, "MB"@)
            } else if v < 1_099_511_627_776 {
                told_in(s, v, 1_073_741_824, "GB"@)
            } else {
                told_in(s, v, 1_099_511_627_776, "TB"@)
            }
        }),
{
    law_nearest_real(n);
    let v = real64::nearest(n);
    if n >= 1024 {
        assert(v >= 1024) by {
            if n >= 0x20_0000_0000_0000 {
                let (u, q) = choose|u: nat, q: nat|
                    u > 0 && v == #[trigger] (q * u) && nearest_whole(q as int, n as int, u as int) && (u
                        == 1 || 0x10_0000_0000_0000 * u <= n) && n < 0x20_0000_0000_0000 * u;
                assert(2 * (q * u) + u >= 2 * n) by (nonlinear_arith)
                    requires
                        2 * n <= (2 * q + 1) * u,
                ;
            }
        }
        let i = disk::unit_index(v);
        let t = real64::round_half_even(10 * v, disk::unit_size(i));
        lemma_nearest_whole(10 * v, disk::unit_size(i));
        assert(nearest_whole(t as int, 10 * v as int, disk::unit_size(i) as int));
        assert(told_in(disk::bytes_text(n), v, disk::unit_size(i) as int, disk::unit_name(i)));
    }
}

/// The report has, where there are such, a headline and a line for each full disk: project, label,
/// name, identifier, value, bytes and what was measured; then, where there are such, one for each that
/// was not measured, with an empty line between the two.
pub proof fn law_disk_report(
    over: Seq<(Seq<char>, Seq<char>, DiskView)>,
    missing: Seq<(Seq<char>, Seq<char>, DiskView)>,
    x: (Seq<char>, Seq<char>, DiskView),
)
    ensures
        disk::disk_report(Seq::empty(), Seq::empty()) == Seq::<char>::empty(),
        x.2.utilization matches Some(u) ==> disk::disk_report(over.push(x), Seq::empty()) == (
        if over.len() == 0 {
            "=== 磁盘占用检查 ===\n"@
        } else {
            disk::disk_report(over, Seq::empty())
        }) + ("- "@ + x.0 + "/"@ + x.1 + ": "@ + x.2.server.name + " ("@ + x.2.server.id + ") "@
            + u.one_decimal() + "% (已用 "@ + disk::bytes_text(x.2.used_bytes as nat) + "/"@
            + disk::bytes_text(x.2.total_bytes as nat) + " "@ + x.2.detail + ")\n"@),
        disk::disk_report(Seq::empty(), missing.push(x)) == (if missing.len() == 0 {
            "=== 数据缺失 ===\n"@
        } else {
            disk::disk_report(Seq::empty(), missing)
        }) + ("- "@ + x.0 + "/"@ + x.1 + ": "@ + x.2.server.name + " ("@ + x.2.server.id
            + ") 无磁盘监控数据（疑似未装云监控插件）\n"@),
        over.len() > 0 && missing.len() > 0 ==> disk::disk_report(over, missing) == disk::disk_report(
            over,
            Seq::empty(),
        ) + "\n"@ + disk::disk_report(Seq::empty(), missing),
{
    let none = Seq::<(Seq<char>, Seq<char>, DiskView)>::empty();
    let head = "=== 磁盘占用检查 ===\n"@;
    let lines = Seq::new(over.len(), |i: int| disk::over_line(over[i]));
    let all = over.push(x);
    assert(Seq::new(all.len(), |i: int| disk::over_line(all[i])) =~= lines.push(disk::over_line(x)));
    text::lemma_concat_push(lines, disk::over_line(x));
    assert(disk::over_part(all) =~= head + text::concat(lines) + disk::over_line(x));
    if over.len() == 0 {
        assert(head + text::concat(lines) =~= head);
    }
    assert(disk::over_part(over) + disk::missing_part(none) =~= disk::over_part(over));
    assert(disk::over_part(all) + disk::missing_part(none) =~= disk::over_part(all));
    let head2 = "=== 数据缺失 ===\n"@;
    let lines2 = Seq::new(missing.len(), |i: int| disk::missing_line(missing[i]));
    let all2 = missing.push(x);
    assert(Seq::new(all2.len(), |i: int| disk::missing_line(all2[i])) =~= lines2.push(
        disk::missing_line(x),
    ));
    text::lemma_concat_push(lines2, disk::missing_line(x));
    assert(disk::missing_part(all2) =~= head2 + text::concat(lines2) + disk::missing_line(x));
    if missing.len() == 0 {
        assert(head2 + text::concat(lines2) =~= head2);
    }
    assert(disk::over_part(none) + disk::missing_part(missing) =~= disk::missing_part(missing));
    assert(disk::over_part(none) + disk::missing_part(all2) =~= disk::missing_part(all2));
    assert(disk::over_part(none) + disk::missing_part(none) =~= Seq::<char>::empty());
}

/// The title counts both, and leaves out what there is none of.
pub proof fn law_disk_title(over: nat, missing: nat)
    ensures
        ({
            let n = text::dec(over) + " 台超阈值"@;
            let m = text::dec(missing) + " 台数据缺失"@;
            disk::title_text(over, missing) == if over > 0 && missing > 0 {
                "磁盘占用检查: "@ + (n + ", "@ + m)
            } else if over > 0 {
                "磁盘占用检查: "@ + n
            } else if missing > 0 {
                "磁盘占用检查: "@ + m
            } else {
                "磁盘占用检查: 全部正常"@
            }
        }),
{
    let parts = disk::title_parts(over, missing);
    if parts.len() == 2 {
        let first = parts.drop_last();
        assert(text::join(first, ", "@) == first[0]);
    }
}

} // verus!
