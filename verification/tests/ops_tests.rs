use ops_console::cli;
use ops_console::cloud::aliyun::cms::MetricPoint;
use ops_console::cloud::aliyun::domain::DomainInfo;
use ops_console::cloud::aliyun::driver::disk_group;
use ops_console::cloud::aliyun::RegionScan;
use ops_console::cloud::aliyun::ecs::{EcsAutoSnapshotPolicy, EcsDisk};
use ops_console::cloud::driver::{DiskGroup, ProviderDriver};
use ops_console::cloud::{Server, Snapshot, SnapshotStatus};
use ops_console::config::{Config, NotifyConfig, Project, ProviderConfig, ProviderMap};
use ops_console::error::OpsError;
use ops_console::ops::disk::{
    aggregate_by_instance, check_ecs_disk, check_threshold, format_bytes, format_devices, render_disk, title,
    DiskStatus,
};
use ops_console::ops::ecs::{
    check_auto_snapshot, render_autosnapshot, unprotected, unprotected_title, AutoSnapshotStatus,
    DiskSnapshotStatus,
};
use ops_console::ops::expiry::{
    all_safe, check_domain_list, check_servers, days_left, render, render_all, render_domains, DomainAlert,
    ExpiryAlert,
};
use ops_console::ops::snapshot::{
    default_snapshot_name, failure_text, failure_title, rotation_outcome, snapshot_name_at, success_title,
    RotateAction, RotateSummary, Rotation,
};
use ops_console::real64::Real64;
use ops_console::time::{Span, UtcTime};

fn bits_of(x: f64) -> Real64 {
    Real64 { bits: x.to_bits() }
}

fn mk_server(name: &str) -> Server {
    Server {
        id: format!("i-{name}"),
        name: name.to_string(),
        region: "cn-shenzhen".to_string(),
        status: "Running".to_string(),
        expired_at: None,
    }
}

fn mk_status(name: &str, utilization: Option<f64>, used: u64, total: u64, detail: &str) -> DiskStatus {
    DiskStatus {
        server: mk_server(name),
        utilization: utilization.map(bits_of),
        used_bytes: used,
        total_bytes: total,
        detail: detail.to_string(),
    }
}

fn point(id: &str, device: &str, average: f64) -> MetricPoint {
    MetricPoint { instance_id: id.into(), device: device.into(), average: bits_of(average) }
}

#[test]
fn test_over_boundary() {
    // 达到 90.0 即告警（>=）
    assert!(mk_status("a", Some(90.0), 0, 0, "").over(bits_of(90.0)));
    assert!(mk_status("a", Some(91.2), 0, 0, "").over(bits_of(90.0)));
    // 89.9 不告警
    assert!(!mk_status("a", Some(89.9), 0, 0, "").over(bits_of(90.0)));
    // 数据缺失不归入超阈值，单独走 missing()
    assert!(!mk_status("a", None, 0, 0, "").over(bits_of(90.0)));
    assert!(mk_status("a", None, 0, 0, "").missing());
}

#[test]
fn test_aggregate_by_instance() {
    let pts = vec![
        point("i-1", "/dev/vda1", 91.2),
        point("i-1", "/dev/vdb1", 30.1),
        point("i-2", "/dev/vda1", 88.0),
    ];
    let agg = aggregate_by_instance(pts);
    assert_eq!(agg.len(), 2);
    let a = agg.get("i-1").unwrap();
    assert_eq!(a.max.bits, bits_of(91.2).bits);
    assert_eq!(a.devices.len(), 2);
    // 设备按使用率降序
    assert_eq!(a.devices[0].0, "/dev/vda1");
    assert_eq!(agg.get("i-2").unwrap().max.bits, bits_of(88.0).bits);
}

#[test]
fn fullest_device_comes_first() {
    let agg = aggregate_by_instance(vec![
        point("i", "a", 1.0),
        point("j", "x", 5.0),
        point("i", "b", 3.0),
        point("i", "c", 3.0),
        point("i", "d", -1.0),
    ]);
    let names: Vec<&str> = agg.get("i").unwrap().devices.iter().map(|d| d.0.as_str()).collect();
    assert_eq!(names, vec!["b", "c", "a", "d"]);
    assert_eq!(agg.get("i").unwrap().max.bits, bits_of(3.0).bits);
    assert!(agg.get("k").is_none());
}

#[test]
fn test_format_devices() {
    let d = vec![("/dev/vda1".to_string(), bits_of(91.2)), ("/dev/vdb1".to_string(), bits_of(30.1))];
    assert_eq!(format_devices(&d), "设备: /dev/vda1 91.2%, /dev/vdb1 30.1%");
    // 设备名为空（非常规指标）→ 退化为 "系统盘 x.x%"
    let d = vec![("".to_string(), bits_of(95.0))];
    assert_eq!(format_devices(&d), "系统盘 95.0%");
    assert_eq!(format_devices(&[]), "系统盘 0.0%");
}

#[test]
fn test_format_bytes() {
    assert_eq!(format_bytes(0), "0 B");
    assert_eq!(format_bytes(1023), "1023 B");
    assert_eq!(format_bytes(1024), "1.0 KB");
    assert_eq!(format_bytes(50 * 1024 * 1024 * 1024), "50.0 GB");
}

#[test]
fn bytes_match_the_float_computation() {
    fn reference(n: u64) -> String {
        let units = ["B", "KB", "MB", "GB", "TB"];
        let mut v = n as f64;
        let mut i = 0;
        while v >= 1024.0 && i < units.len() - 1 {
            v /= 1024.0;
            i += 1;
        }
        if i == 0 {
            format!("{n} B")
        } else {
            format!("{v:.1} {}", units[i])
        }
    }
    let mut n: u64 = 1;
    for k in 0..400u64 {
        assert_eq!(format_bytes(n), reference(n), "{n}");
        n = n.wrapping_mul(6364136223846793005).wrapping_add(1442695040888963407 + k) >> (k % 60);
    }
    for n in [1075, 1076, 1126, 1127, 1280, 1048575, 1048576, 1073741823, 1 << 40, (1 << 40) - 1, u64::MAX, u64::MAX / 2] {
        assert_eq!(format_bytes(n), reference(n), "{n}");
    }
}

#[test]
fn test_render_disk() {
    let over = vec![(
        "demo".to_string(),
        "aliyun".to_string(),
        mk_status("web", Some(91.2), 45 * 1024 * 1024 * 1024, 50 * 1024 * 1024 * 1024, "系统盘"),
    )];
    let missing = vec![(
        "demo".to_string(),
        "aliyun-ecs".to_string(),
        mk_status("cache", None, 0, 0, ""),
    )];
    let text = render_disk(&over, &missing);
    assert!(text.contains("web (i-web) 91.2% (已用 45.0 GB/50.0 GB 系统盘)"));
    assert!(text.contains("=== 数据缺失 ==="));
    assert!(text.contains("cache (i-cache) 无磁盘监控数据（疑似未装云监控插件）"));
    assert_eq!(
        text,
        "=== 磁盘占用检查 ===\n- demo/aliyun: web (i-web) 91.2% (已用 45.0 GB/50.0 GB 系统盘)\n\n=== 数据缺失 ===\n- demo/aliyun-ecs: cache (i-cache) 无磁盘监控数据（疑似未装云监控插件）\n"
    );

    // 全空 → 空字符串
    assert_eq!(render_disk(&[], &[]), "");
}

#[test]
fn test_title() {
    let over = vec![("demo".into(), "aliyun".into(), mk_status("a", Some(91.0), 0, 0, ""))];
    let missing = vec![("demo".into(), "aliyun-ecs".into(), mk_status("b", None, 0, 0, ""))];
    assert_eq!(title(&over, &missing), "磁盘占用检查: 1 台超阈值, 1 台数据缺失");
    assert_eq!(title(&over, &[]), "磁盘占用检查: 1 台超阈值");
    assert_eq!(title(&[], &missing), "磁盘占用检查: 1 台数据缺失");
    assert_eq!(title(&[], &[]), "磁盘占用检查: 全部正常");
}

#[test]
fn thresholds_lie_between_zero_and_hundred() {
    for x in [5e-324, 0.1, 90.0, 100.0] {
        assert!(check_threshold(bits_of(x), "x").is_ok(), "{x}");
    }
    for x in [0.0, -0.0, -1.0, 100.00000000000001, f64::INFINITY, f64::NAN] {
        assert_eq!(
            check_threshold(bits_of(x), &format!("{x}")).unwrap_err().message(),
            format!("--threshold 参数无效: {x}（范围 0 < 阈值 <= 100）")
        );
    }
}

#[test]
fn ecs_disks_are_sorted_out() {
    let mut stopped = mk_server("off");
    stopped.status = "Stopped".to_string();
    let servers = vec![mk_server("full"), stopped, mk_server("ok"), mk_server("blind")];
    let points = vec![
        point("i-full", "/dev/vda1", 95.0),
        point("i-full", "/dev/vdb1", 10.0),
        point("i-off", "/dev/vda1", 99.0),
        point("i-ok", "/dev/vda1", 89.9),
    ];
    let (over, missing) = check_ecs_disk(servers, points, bits_of(90.0));
    assert_eq!(over.len(), 1);
    assert_eq!(over[0].server.name, "full");
    assert_eq!(over[0].detail, "设备: /dev/vda1 95.0%, /dev/vdb1 10.0%");
    assert_eq!(missing.len(), 1);
    assert_eq!(missing[0].server.name, "blind");
    assert!(missing[0].missing());
}

fn mk_disk(disk_id: &str, disk_type: &str, policy_id: &str) -> DiskSnapshotStatus {
    DiskSnapshotStatus {
        disk_id: disk_id.to_string(),
        disk_type: disk_type.to_string(),
        policy_id: policy_id.to_string(),
    }
}

#[test]
fn test_protected_any_disk() {
    let protected = AutoSnapshotStatus {
        server: mk_server("a"),
        disks: vec![mk_disk("d-1", "system", "sp-1")],
        policy_summaries: vec!["每日快照（触发 00:00，保留 7 天）".into()],
    };
    assert!(protected.protected());

    // 数据盘未绑定、系统盘已绑定 → 已开启
    let mixed = AutoSnapshotStatus {
        server: mk_server("b"),
        disks: vec![mk_disk("d-1", "system", "sp-1"), mk_disk("d-2", "data", "")],
        policy_summaries: vec!["每日快照".into()],
    };
    assert!(mixed.protected());

    let unprotected = AutoSnapshotStatus {
        server: mk_server("c"),
        disks: vec![mk_disk("d-1", "system", ""), mk_disk("d-2", "data", "")],
        policy_summaries: vec![],
    };
    assert!(!unprotected.protected());
}

fn autosnapshot_items() -> Vec<(String, String, AutoSnapshotStatus)> {
    vec![
        (
            "demo".to_string(),
            "aliyun".to_string(),
            AutoSnapshotStatus {
                server: mk_server("web"),
                disks: vec![mk_disk("d-1", "system", "sp-1")],
                policy_summaries: vec!["每日快照（触发 00:00，保留 7 天）".into()],
            },
        ),
        (
            "demo".to_string(),
            "aliyun".to_string(),
            AutoSnapshotStatus {
                server: mk_server("db"),
                disks: vec![mk_disk("d-2", "system", "")],
                policy_summaries: vec![],
            },
        ),
    ]
}

#[test]
fn test_render_autosnapshot() {
    let text = render_autosnapshot(&autosnapshot_items());
    assert!(text.contains("web (i-web) [已开启] 策略: 每日快照（触发 00:00，保留 7 天）"));
    assert!(text.contains("db (i-db) [未开启] 磁盘: d-2 (system)"));
    assert_eq!(render_autosnapshot(&[]), "=== ECS 自动快照检查 ===\n");
}

#[test]
fn only_unprotected_are_told_of() {
    let list = unprotected(autosnapshot_items());
    assert_eq!(list.len(), 1);
    assert_eq!(list[0].2.server.name, "db");
    assert_eq!(unprotected_title(list.len()), "ECS 自动快照检查: 1 台未开启");
}

#[test]
fn policies_are_told_once() {
    let policy = |id: &str, name: &str| EcsAutoSnapshotPolicy {
        policy_id: id.into(),
        name: name.into(),
        time_points: "".into(),
        repeat_weekdays: "".into(),
        retention_days: 0,
    };
    let disk = |id: &str, p: &str| EcsDisk {
        disk_id: id.into(),
        disk_type: "data".into(),
        auto_snapshot_policy_id: p.into(),
    };
    let policies = vec![policy("p1", "daily"), policy("p2", "daily"), policy("p3", "weekly")];
    let out = check_auto_snapshot(
        vec![
            (mk_server("a"), vec![disk("d1", "p3"), disk("d2", "p1"), disk("d3", "p2"), disk("d4", ""), disk("d5", "gone")]),
            (mk_server("b"), vec![]),
        ],
        &policies,
    );
    assert_eq!(out.len(), 2);
    assert_eq!(out[0].policy_summaries, vec!["weekly", "daily"]);
    assert_eq!(out[0].disks.len(), 5);
    assert_eq!(out[0].disks[4].policy_id, "gone");
    assert!(!out[1].protected());
}

fn dt(s: &str) -> UtcTime {
    let t = chrono::NaiveDateTime::parse_from_str(s, "%Y-%m-%dT%H:%M:%S").unwrap().and_utc();
    UtcTime { secs: t.timestamp(), nanos: t.timestamp_subsec_nanos() }
}

#[test]
fn test_days_left() {
    let now = dt("2026-08-01T00:00:00");
    // 正好 30 天
    assert_eq!(days_left(dt("2026-08-31T00:00:00"), now), 30);
    // 剩 29.5 天 → 向上取整 30（仍命中 30 天阈值）
    assert_eq!(days_left(dt("2026-08-30T12:00:00"), now), 30);
    // 剩 30.5 天 → 31（未到 30 天窗口，不提醒）
    assert_eq!(days_left(dt("2026-08-31T12:00:00"), now), 31);
    // 今天到期 → 0
    assert_eq!(days_left(now, now), 0);
    // 已过期 → 负数
    assert_eq!(days_left(dt("2026-07-20T00:00:00"), now), -12);
    assert_eq!(days_left(dt("2026-07-20T12:00:00"), now), -12);
}

#[test]
fn days_left_matches_the_float_computation() {
    let now = dt("2026-08-01T10:00:00");
    let reference = |e: UtcTime, n: UtcTime| -> i64 {
        let e = chrono::DateTime::from_timestamp(e.secs, e.nanos).unwrap();
        let n = chrono::DateTime::from_timestamp(n.secs, n.nanos).unwrap();
        let d = e.signed_duration_since(n).num_seconds() as f64 / 86400.0;
        if d >= 0.0 {
            d.ceil() as i64
        } else {
            d.floor() as i64
        }
    };
    for s in [-200_000i64, -86_401, -86_400, -86_399, -2, -1, 0, 1, 86_399, 86_400, 86_401, 2_592_000, 8_000_000_000_000] {
        for n in [0u32, 1, 999_999_999] {
            for m in [0u32, 500_000_000] {
                let e = UtcTime { secs: now.secs + s, nanos: n };
                let at = UtcTime { secs: now.secs, nanos: m };
                assert_eq!(days_left(e, at), reference(e, at), "{s} {n} {m}");
            }
        }
    }
    // 闰秒
    let leap = UtcTime { secs: 1483228799, nanos: 1_500_000_000 };
    for s in [1483142400i64, 1483142399, 1483228800, 1483315199, 1483315200] {
        let other = UtcTime { secs: s, nanos: 0 };
        assert_eq!(days_left(leap, other), reference(leap, other), "{s}");
        assert_eq!(days_left(other, leap), reference(other, leap), "{s}");
    }
}

#[test]
fn a_threshold_is_hit_on_one_day() {
    let expiry = dt("2026-09-15T13:37:00");
    let mut hits = 0;
    for day in 0..60i64 {
        let now = UtcTime { secs: dt("2026-08-01T03:00:00").secs + day * 86_400, nanos: 0 };
        if days_left(expiry, now) == 15 {
            hits += 1;
        }
    }
    assert_eq!(hits, 1);
}

#[test]
fn test_render_includes_region() {
    let now = dt("2026-08-01T00:00:00");
    let alert = ExpiryAlert {
        server: Server {
            id: "i-x".into(),
            name: "web".into(),
            region: "cn-hangzhou".into(),
            status: "Running".into(),
            expired_at: Some(now),
        },
        expired_at: now,
        days_left: 30,
    };
    let text = render(&[("demo".into(), "aliyun".into(), alert)]);
    assert!(text.contains("demo/aliyun: web (i-x, cn-hangzhou) 到期 2026-08-01 08:00，剩余 30 天"));
}

#[test]
fn test_check_domain_list_filters() {
    let now = dt("2026-08-01T00:00:00");
    let mk = |name: &str, expired: Option<&str>, auto_renew: bool| DomainInfo {
        domain_name: name.to_string(),
        expired_at: expired.map(|s| dt(s)),
        auto_renew,
    };
    let domains = vec![
        mk("hit-30d.com", Some("2026-08-31T00:00:00"), false), // 剩 30 天 → 命中
        mk("expired.com", Some("2026-07-20T00:00:00"), true),   // 已过期 → 命中
        mk("safe.com", Some("2027-01-01T00:00:00"), false),     // 安全期 → 跳过
        mk("no-date.com", None, false),                          // 无到期时间 → 跳过
    ];
    let alerts = check_domain_list(domains, &[30, 15, 3], now);
    assert_eq!(alerts.len(), 2);
    assert_eq!(alerts[0].domain, "hit-30d.com");
    assert_eq!(alerts[0].days_left, 30);
    assert_eq!(alerts[1].domain, "expired.com");
    assert!(alerts[1].auto_renew);
}

fn domain_alerts() -> Vec<(String, String, DomainAlert)> {
    let hit = DomainAlert {
        domain: "hit.com".into(),
        expired_at: dt("2026-08-31T00:00:00"),
        days_left: 30,
        auto_renew: false,
    };
    let expired = DomainAlert {
        domain: "expired.com".into(),
        expired_at: dt("2026-07-20T00:00:00"),
        days_left: -12,
        auto_renew: true,
    };
    vec![
        ("demo".into(), "aliyun".into(), hit),
        ("demo".into(), "aliyun".into(), expired),
    ]
}

#[test]
fn test_render_domains() {
    let text = render_domains(&domain_alerts());
    assert!(text.contains("demo/aliyun: hit.com 到期 2026-08-31 08:00，剩余 30 天"));
    assert!(text.contains("demo/aliyun: expired.com 到期 2026-07-20 08:00，已过期 12 天 [自动续费已开启]"));
}

#[test]
fn test_check_filters_by_threshold() {
    let now = dt("2026-08-01T00:00:00");
    let mk = |name: &str, expired: Option<&str>| Server {
        id: format!("id-{name}"),
        name: name.to_string(),
        region: "cn-shenzhen".to_string(),
        status: "Running".to_string(),
        expired_at: expired.map(|s| dt(s)),
    };
    let servers = vec![
        mk("exp30", Some("2026-08-31T00:00:00")), // 30 天 → 命中
        mk("exp14", Some("2026-08-15T00:00:00")), // 14 天 → 不命中
        mk("expired", Some("2026-07-10T00:00:00")), // 已过期 → 命中
        mk("nopay", None),                        // 无到期 → 跳过
    ];
    let alerts = check_servers(servers, &[30, 15, 3], now);
    let names: Vec<&str> = alerts.iter().map(|a| a.server.name.as_str()).collect();
    assert_eq!(names, vec!["exp30", "expired"]);
    assert_eq!(alerts[0].days_left, 30);
    assert!(alerts[1].days_left < 0);
}

#[test]
fn expiry_reports() {
    assert_eq!(render_all(&[], &[]), "");
    assert!(render_all(&[], &domain_alerts()).starts_with("=== 域名到期提醒 ===\n- demo/aliyun: hit.com"));
    let server = || (
        "p".to_string(),
        "k".to_string(),
        ExpiryAlert { server: mk_server("a"), expired_at: dt("2026-08-01T00:00:00"), days_left: 0 },
    );
    let both = render_all(&[server()], &domain_alerts());
    assert!(both.starts_with("=== 服务器到期提醒 ===\n- p/k: a (i-a, cn-shenzhen) 到期 2026-08-01 08:00，已过期 0 天\n\n=== 域名到期提醒 ===\n"));
    assert_eq!(all_safe(&[30, 15, 3]), "全部资源均在安全期内（30, 15, 3 天内无到期）");
}

fn snap(id: &str, status: SnapshotStatus, created: Option<&str>) -> Snapshot {
    Snapshot {
        id: id.to_string(),
        name: format!("n-{id}"),
        status,
        created_at: created.map(|s| s.to_string()),
    }
}

#[test]
fn summaries_in_words() {
    let s = RotateSummary::default();
    assert_eq!(s.render(), "=== 快照轮转完成:  ===\n  删除: 无（无需清理）\n  当前快照总数: 0\n");
    let s = RotateSummary {
        server_name: "web".into(),
        deleted: vec!["a".into(), "b".into()],
        created_id: Some("s-1".into()),
        created_name: Some("web-1".into()),
        remaining: 2,
    };
    assert_eq!(
        s.render(),
        "=== 快照轮转完成: web ===\n  删除: a, b\n  新建: s-1 (web-1)\n  当前快照总数: 2\n"
    );
}

#[test]
fn snapshot_names_carry_beijing_time() {
    assert_eq!(snapshot_name_at("web", dt("2026-08-01T20:01:02")), "web-20260802-040102");
    let n = default_snapshot_name("web");
    assert!(n.starts_with("web-2"));
    assert_eq!(n.len(), "web-20260802-040102".len());
}

#[test]
fn a_rotation_from_start_to_end() {
    assert_eq!(Rotation::start("i", 0).unwrap_err().message(), "keep 必须 >= 1");
    let mut r = Rotation::start("i-web", 2).unwrap();
    assert!(matches!(r.action(), RotateAction::ListServers));
    r.on_servers(&vec![mk_server("db"), mk_server("web")]);
    assert!(matches!(r.action(), RotateAction::ListSnapshots));
    r.on_snapshots(vec![
        snap("s3", SnapshotStatus::Available, Some("2026-03")),
        snap("s1", SnapshotStatus::Available, Some("2026-01")),
        snap("c", SnapshotStatus::Creating, Some("2026-05")),
        snap("f", SnapshotStatus::Failed, Some("2026-02")),
        snap("u", SnapshotStatus::Unknown, None),
        snap("s2", SnapshotStatus::Available, Some("2026-02")),
    ]);
    let mut asked = Vec::new();
    while let RotateAction::Delete(id) = r.action() {
        r.on_deleted(id != "s1");
        asked.push(id);
    }
    assert_eq!(asked, vec!["s1", "s2"]);
    assert!(matches!(r.action(), RotateAction::Poll));
    r.on_poll(&vec![snap("c", SnapshotStatus::Creating, None)], false).unwrap();
    assert!(matches!(r.action(), RotateAction::Poll));
    let e = r.on_poll(&vec![snap("c", SnapshotStatus::Creating, None), snap("d", SnapshotStatus::Creating, None)], true).unwrap_err();
    assert_eq!(e.message(), "等待 2 个创建中的快照完成超时");
    r.on_poll(&vec![snap("c", SnapshotStatus::Available, None)], true).unwrap();
    match r.action() {
        RotateAction::Delete(id) => assert_eq!(id, "f"),
        _ => panic!("delete the failed one"),
    }
    r.on_deleted(true);
    assert!(matches!(r.action(), RotateAction::Name));
    assert_eq!(r.new_name(dt("2026-08-01T20:01:02")), "web-20260802-040102");
    r.on_time(dt("2026-08-01T20:01:02"));
    match r.action() {
        RotateAction::Create(name) => assert_eq!(name, "web-20260802-040102"),
        _ => panic!("create"),
    }
    r.on_created("s-new".to_string());
    match r.action() {
        RotateAction::Await(id) => assert_eq!(id, "s-new"),
        _ => panic!("await"),
    }
    r.on_ready();
    assert!(matches!(r.action(), RotateAction::ListSnapshots));
    r.on_counted(4);
    assert!(matches!(r.action(), RotateAction::Done));
    assert_eq!(
        r.into_summary().render(),
        "=== 快照轮转完成: web ===\n  删除: n-s2, n-f\n  新建: s-new (web-20260802-040102)\n  当前快照总数: 4\n"
    );
}

#[test]
fn a_rotation_without_surplus_creates_at_once() {
    let mut r = Rotation::start("i-x", 3).unwrap();
    r.on_servers(&vec![]);
    r.on_snapshots(vec![snap("a", SnapshotStatus::Available, None), snap("b", SnapshotStatus::Available, None)]);
    assert!(matches!(r.action(), RotateAction::Name));
    r.on_clock();
    match r.action() {
        RotateAction::Create(name) => {
            assert!(name.starts_with("i-x-2"));
            assert_eq!(name.len(), "i-x-20260802-040102".len());
        }
        _ => panic!("create"),
    }
    assert_eq!(r.into_summary().server_name, "i-x");
    let mut r = Rotation::start("i-x", 1).unwrap();
    r.on_servers(&vec![]);
    r.on_snapshots(vec![snap("a", SnapshotStatus::Available, None)]);
    assert!(matches!(r.action(), RotateAction::Delete(_)));
    let mut r = Rotation::start("i-x", 1).unwrap();
    r.on_servers(&vec![]);
    r.on_snapshots(vec![snap("f", SnapshotStatus::Failed, None)]);
    assert!(matches!(r.action(), RotateAction::Delete(_)));
}

#[test]
fn notices_on_rotations() {
    assert_eq!(success_title("web"), "快照轮转: web 成功");
    assert_eq!(failure_title("web"), "快照轮转失败: web");
    assert_eq!(
        failure_text(&mk_server("web"), &OpsError::new("boom".into())),
        "实例 web (i-web) 快照轮转失败:\nboom"
    );
    assert!(rotation_outcome(&vec![]).is_ok());
    assert_eq!(rotation_outcome(&vec!["a".into(), "b".into()]).unwrap_err().message(), "以下实例轮转失败: a, b");
}

fn project(name: &str, kinds: &[&str]) -> Project {
    let mut providers = ProviderMap::new();
    for k in kinds {
        providers.insert(k.to_string(), ProviderConfig::default());
    }
    Project { name: name.into(), description: None, providers }
}

#[test]
fn test_drivers_for_project() {
    let cfg = Config {
        projects: vec![project("demo", &["aliyun", "tencent"])],
        notify: NotifyConfig::default(),
    };
    let p = &cfg.projects[0];

    // --provider aliyun（已配置）→ 命中
    let ds = cli::drivers_for_project(p, Some("aliyun")).unwrap();
    assert_eq!(ds.len(), 1);
    assert_eq!(ds[0].kind(), "aliyun");

    // --provider tencent（未实现）→ 报「尚未实现」
    let err = match cli::drivers_for_project(p, Some("tencent")) {
        Ok(_) => panic!("应返回错误"),
        Err(e) => e,
    };
    assert!(err.message().contains("尚未实现"));
    assert_eq!(err.message(), "服务商 \"tencent\" 尚未实现（目前仅支持: aliyun）");

    // --provider 已实现但项目未配置 → 报「未配置」
    let cfg2 = Config {
        projects: vec![project("other", &[])],
        notify: NotifyConfig::default(),
    };
    let err = match cli::drivers_for_project(&cfg2.projects[0], Some("aliyun")) {
        Ok(_) => panic!("应返回错误"),
        Err(e) => e,
    };
    assert!(err.message().contains("未配置"));

    // 未指定 --provider → 只返回已实现服务商（tencent 打印警告并跳过）
    let ds = cli::drivers_for_project(p, None).unwrap();
    let kinds: Vec<&str> = ds.iter().map(|d| d.kind()).collect();
    assert_eq!(kinds, vec!["aliyun"]);
    assert_eq!(cli::skipped_notices(p), vec!["  跳过未实现的服务商: tencent（当前仅支持: aliyun）"]);
}

#[test]
fn thresholds_of_the_command_line() {
    assert_eq!(cli::parse_thresholds("30,15,3").unwrap(), vec![30, 15, 3]);
    assert_eq!(cli::parse_thresholds(" 30 ,, -1 ,+7,").unwrap(), vec![30, -1, 7]);
    assert_eq!(cli::parse_thresholds("30, x,y").unwrap_err().message(), "--days 参数无效: \"x\"（格式如 30,15,3）");
    assert_eq!(cli::parse_thresholds(" , ").unwrap_err().message(), "--days 至少需要一个阈值（如 30,15,3）");
    assert!(cli::parse_thresholds("9223372036854775808").is_err());
}

#[test]
fn projects_of_the_command_line() {
    let cfg = Config {
        projects: vec![project("a", &["aliyun", "aws"]), project("b", &[])],
        notify: NotifyConfig::default(),
    };
    assert_eq!(cli::select_projects(&cfg, None).unwrap().len(), 2);
    assert_eq!(cli::select_projects(&cfg, Some("b")).unwrap()[0].name, "b");
    assert!(cli::select_projects(&cfg, Some("c")).is_err());
    assert_eq!(
        cli::project_line(&cfg.projects[0]),
        format!("{:<20} providers: {:<24} {}", "a", "aliyun, aws", "")
    );
}

#[test]
fn outcomes_name_what_failed() {
    assert!(cli::snapshot_outcome(&vec![]).is_ok());
    let v = vec!["a".to_string(), "b".to_string()];
    assert_eq!(cli::snapshot_outcome(&v).unwrap_err().message(), "以下项目执行失败: a, b");
    assert_eq!(cli::expiry_outcome(&v).unwrap_err().message(), "以下服务商检查失败: a, b");
    assert_eq!(cli::disk_outcome(&v).unwrap_err().message(), "以下服务商磁盘检查失败: a, b");
}

#[test]
fn disks_are_gathered() {
    let mut t = cli::DiskTally::new();
    assert!(t.notice().is_none());
    let said = t.take_group(
        "demo",
        DiskGroup { label: "aliyun".into(), over: vec![], missing: vec![], error: Some("boom".into()) },
    );
    assert_eq!(said.unwrap(), "服务商 aliyun 磁盘检查失败: boom");
    assert!(t.notice().is_none());
    let said = t.take_group(
        "demo",
        DiskGroup {
            label: "aliyun-ecs".into(),
            over: vec![mk_status("a", Some(91.0), 0, 0, "")],
            missing: vec![mk_status("b", None, 0, 0, "")],
            error: None,
        },
    );
    assert!(said.is_none());
    t.take_failure("aws");
    assert_eq!(t.errors, vec!["aliyun", "aws"]);
    let n = t.notice().unwrap();
    assert_eq!(n.title, "磁盘占用检查: 1 台超阈值, 1 台数据缺失");
    assert!(n.text.contains("- demo/aliyun-ecs: a (i-a) 91.0%"));
}

#[test]
fn expiries_are_gathered() {
    let mut t = cli::ExpiryTally::new();
    assert!(t.notice().is_none());
    t.take_servers(
        "p",
        &cli::ecs_label("aliyun"),
        vec![ExpiryAlert { server: mk_server("a"), expired_at: dt("2026-08-01T00:00:00"), days_left: 3 }],
    );
    assert_eq!(t.notice().unwrap().title, "到期提醒: 1 台服务器");
    for (_, _, a) in domain_alerts() {
        t.take_domains("p", "aliyun", vec![a]);
    }
    let n = t.notice().unwrap();
    assert_eq!(n.title, "到期提醒: 1 台服务器, 2 个域名");
    assert!(n.text.contains("- p/aliyun-ecs: a (i-a, cn-shenzhen) 到期 2026-08-01 08:00，剩余 3 天\n\n=== 域名到期提醒 ==="));
    match t.take_domain_failure("aliyun", &OpsError::new("HTTP 403: NoPermission".into())) {
        cli::DomainFailure::Skipped(m) => assert_eq!(m, "  跳过域名检查（无 domain 权限，可能未注册域名）"),
        _ => panic!("skipped"),
    }
    assert!(t.errors.is_empty());
    match t.take_domain_failure("aliyun", &OpsError::new("dns".into())) {
        cli::DomainFailure::Failed(m) => assert_eq!(m, "域名到期检查失败: dns"),
        _ => panic!("failed"),
    }
    t.take_failure("x");
    assert_eq!(t.errors, vec!["aliyun", "x"]);
}

#[test]
fn snapshots_are_gathered_project_by_project() {
    let mut t = cli::SnapshotTally::new();
    assert!(t.end_project().is_none());
    assert_eq!(t.take_failure("demo", &OpsError::new("boom".into())), "项目 demo 执行失败: boom");
    assert_eq!(
        t.take_check_failure("demo", &OpsError::new("dns".into())),
        "项目 demo ECS 自动快照检查失败: dns"
    );
    assert_eq!(t.errors, vec!["demo", "demo (ECS 检查)"]);
    let mut list = Vec::new();
    for (_, _, s) in autosnapshot_items() {
        list.push(s);
    }
    t.take_checked("demo", "aliyun", list);
    let (report, notice) = t.end_project().unwrap();
    assert_eq!(report, render_autosnapshot(&autosnapshot_items()));
    let notice = notice.unwrap();
    assert_eq!(notice.title, "ECS 自动快照检查: 1 台未开启");
    assert_eq!(notice.text, "=== ECS 自动快照检查 ===\n- demo/aliyun: db (i-db) [未开启] 磁盘: d-2 (system)\n");
    assert!(t.end_project().is_none());
    let mut protected = autosnapshot_items();
    protected.truncate(1);
    for (_, _, s) in protected {
        t.take_checked("p", "k", vec![s]);
    }
    let (_, notice) = t.end_project().unwrap();
    assert!(notice.is_none());
}

#[test]
fn over_a_threshold_is_over_every_lower_one() {
    let d = mk_status("a", Some(85.0), 0, 0, "");
    for t in [85.0, 84.9, 10.0, 0.1] {
        assert!(d.over(bits_of(t)));
    }
    assert!(!d.over(bits_of(85.1)));
}

#[test]
fn a_later_expiry_is_not_nearer() {
    let now = dt("2026-08-01T00:00:00");
    let mut last = i64::MIN;
    for h in -100..100i64 {
        let d = days_left(UtcTime { secs: now.secs + h * 3600, nanos: 0 }, now);
        assert!(d >= last);
        last = d;
    }
}

#[test]
fn draining_gives_up_when_the_time_is_over() {
    let secs = |n: u64| Span { secs: n, nanos: 0 };
    let start = || {
        let mut r = Rotation::start("i-x", 5).unwrap();
        r.on_servers(&vec![]);
        r.on_snapshots(vec![snap("c", SnapshotStatus::Creating, None)]);
        assert!(matches!(r.action(), RotateAction::Poll));
        r
    };
    let busy = vec![snap("c", SnapshotStatus::Creating, None)];
    let mut r = start();
    r.on_poll_within(&busy, secs(0), secs(60)).unwrap();
    r.on_poll_within(&busy, Span { secs: 59, nanos: 999_999_999 }, secs(60)).unwrap();
    assert!(matches!(r.action(), RotateAction::Poll));
    let e = r.on_poll_within(&busy, secs(60), secs(60)).unwrap_err();
    assert_eq!(e.message(), "等待 1 个创建中的快照完成超时");
    let mut r = start();
    r.on_poll_within(&vec![], secs(90), secs(60)).unwrap();
    assert!(matches!(r.action(), RotateAction::Name));
    let mut r = start();
    assert!(r.on_poll_within(&busy, secs(0), secs(0)).is_err());
}

#[test]
fn disks_of_all_regions() {
    let mut scan = RegionScan::new();
    scan.record("a", Ok((vec![mk_status("x", Some(91.0), 0, 0, "")], vec![])));
    scan.record("b", Err(OpsError::new("dns".into())));
    scan.record(
        "c",
        Ok((vec![mk_status("y", Some(99.0), 0, 0, "")], vec![mk_status("z", None, 0, 0, "")])),
    );
    let g = disk_group("aliyun-ecs".to_string(), scan, "ECS 磁盘检查");
    let over: Vec<&str> = g.over.iter().map(|d| d.server.name.as_str()).collect();
    assert_eq!(over, vec!["x", "y"]);
    assert_eq!(g.missing[0].server.name, "z");
    assert!(g.error.is_none());
    let mut scan = RegionScan::new();
    scan.record("b", Err(OpsError::new("dns".into())));
    let g = disk_group("aliyun-ecs".to_string(), scan, "ECS 磁盘检查");
    assert_eq!(g.label, "aliyun-ecs");
    assert_eq!(g.error.as_deref(), Some("全部 1 个地域 ECS 磁盘检查 失败（首个错误: dns）"));
}
