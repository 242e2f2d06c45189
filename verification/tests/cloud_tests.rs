use base64::Engine as _;
use hmac::Mac;
use ops_console::cloud::aliyun::cms::parse_points;
use ops_console::cloud::aliyun::domain::{parse_domain_expiration, DomainClient, DomainItem, DomainPager};
use ops_console::cloud::aliyun::driver::AliyunDriver;
use ops_console::cloud::aliyun::ecs::{
    fmt_time_points, fmt_weekdays, EcsAutoSnapshotPolicy, EcsClient, EcsInstance,
};
use ops_console::cloud::aliyun::resourcecenter::{
    CatalogResource, CatalogSearch, ResourceCenterClient, SearchResource, TYPE_ECS_INSTANCE,
};
use ops_console::cloud::aliyun::rpc::{
    business_error, page_call, parse_expired_time, truncate, ApiCall, Pager, RpcClient,
};
use ops_console::cloud::aliyun::sign::{percent_encode, sign_params, sign_params_at};
use ops_console::cloud::aliyun::swas::{
    map_status, readiness, servers_of, snapshots_of, wait_timed_out, Readiness, SnapshotWait, SwasClient,
    SwasDisk, SwasInstance, SwasSnapshot, WaitPhase,
};
use ops_console::cloud::aliyun::{
    after_catalog, after_regions, discover_regions, is_global_region, is_permission_error, merged,
    push_unique, scan_regions, AliyunProvider, Found, Look, RegionProbe, RegionScan,
};
use ops_console::cloud::driver::{
    driver, drivers, generic_credentials, supported_kinds, unsupported, Command, ProviderDriver,
};
use ops_console::cloud::{region_suffix, SnapshotStatus};
use ops_console::config::ProviderConfig;
use ops_console::error::OpsError;
use ops_console::json::{Field, Scalar};
use ops_console::real64::Real64;
use ops_console::time::{Span, UtcTime, FIRST_SECOND, LAST_SECOND};

fn bits_of(x: f64) -> Real64 {
    Real64 { bits: x.to_bits() }
}

fn text_field(key: &str, value: &str) -> Field {
    Field { key: key.to_string(), value: Scalar::Text(value.to_string()) }
}

fn err(s: &str) -> OpsError {
    OpsError::new(s.to_string())
}

#[test]
fn test_parse_points() {
    // 官方文档样例：小写 instanceId、大写 Average/Maximum、无 device
    let s = r#"[{"timestamp":1548777660000,"userId":"123456789876****","instanceId":"i-abcdefgh12****","Minimum":93.1,"Average":99.52,"Maximum":100}]"#;
    let pts = parse_points(s);
    assert_eq!(pts.len(), 1);
    assert_eq!(pts[0].instance_id, "i-abcdefgh12****");
    assert_eq!(pts[0].device, "");
    assert_eq!(pts[0].average.bits, bits_of(99.52).bits);

    // 磁盘指标带 device 维度
    let s = r#"[{"timestamp":1699219200000,"instanceId":"i-bp1xxx","device":"/dev/vda1","Average":91.2,"Maximum":93.0},{"timestamp":1699219200000,"instanceId":"i-bp1xxx","device":"/dev/vdb1","Average":30.1}]"#;
    let pts = parse_points(s);
    assert_eq!(pts.len(), 2);
    assert_eq!(pts[0].device, "/dev/vda1");
    assert_eq!(pts[0].average.bits, bits_of(91.2).bits);
    assert_eq!(pts[1].device, "/dev/vdb1");

    // 空数组 / 空串 / 非 JSON → 空
    assert!(parse_points("[]").is_empty());
    assert!(parse_points("").is_empty());
    assert!(parse_points("bad").is_empty());
    // 缺 instanceId → 跳过该点
    assert!(parse_points(r#"[{"Average": 50.0}]"#).is_empty());
    // 缺数值（Average 链取不到）→ 跳过该点，不默认为 0
    assert!(parse_points(r#"[{"instanceId":"i-1"}]"#).is_empty());
    // 数值键存在但非数值（如字符串 "91.2%"）→ 跳过
    assert!(parse_points(r#"[{"instanceId":"i-1","Average":"91.2%"}]"#).is_empty());
}

#[test]
fn points_accept_both_spellings() {
    let pts = parse_points(r#"[{"InstanceId":"i-1","Device":"/d","average":7},{"instanceId":"i-2","Maximum":8.5},3,null]"#);
    assert_eq!(pts.len(), 2);
    assert_eq!(pts[0].instance_id, "i-1");
    assert_eq!(pts[0].device, "/d");
    assert_eq!(pts[0].average.bits, bits_of(7.0).bits);
    assert_eq!(pts[1].average.bits, bits_of(8.5).bits);
    // 首个键存在但不是字符串 → 不再看另一拼写
    assert!(parse_points(r#"[{"instanceId":5,"InstanceId":"i-1","Average":1}]"#).is_empty());
    assert!(parse_points(r#"{"instanceId":"i-1","Average":1}"#).is_empty());
}

#[test]
fn test_parse_domain_expiration() {
    // 北京时间 2017-11-02 04:00:45 → UTC 2017-11-01 20:00:45
    let t = parse_domain_expiration("2017-11-02 04:00:45").unwrap();
    let want = chrono::DateTime::parse_from_rfc3339("2017-11-01T20:00:45Z").unwrap();
    assert_eq!(t, UtcTime { secs: want.timestamp(), nanos: want.timestamp_subsec_nanos() });
    // 空串 / 非法 → None
    assert!(parse_domain_expiration("").is_none());
    assert!(parse_domain_expiration("bad").is_none());
}

#[test]
fn expiry_times_are_rfc3339() {
    let t = parse_expired_time("2026-09-01T16:00:00Z").unwrap();
    assert_eq!(t, UtcTime { secs: 1788278400, nanos: 0 });
    let t = parse_expired_time("2016-12-31T23:59:60Z").unwrap();
    assert_eq!(t, UtcTime { secs: 1483228799, nanos: 1_000_000_000 });
    assert!(parse_expired_time("").is_none());
    assert!(parse_expired_time("2026-09-01").is_none());
    assert_eq!(chrono::DateTime::<chrono::Utc>::MIN_UTC.timestamp(), FIRST_SECOND);
    assert_eq!(chrono::DateTime::<chrono::Utc>::MAX_UTC.timestamp(), LAST_SECOND);
}

#[test]
fn test_kind_and_commands() {
    let d = AliyunDriver;
    assert_eq!(d.kind(), "aliyun");
    assert!(d.commands().contains(&Command::Snapshot));
    assert!(d.commands().contains(&Command::EcsExpiry));
    assert_eq!(d.commands().len(), 6);
}

#[test]
fn test_credentials_missing() {
    let pcfg = ProviderConfig::default();
    let err = AliyunDriver.credentials(&pcfg).unwrap_err();
    assert!(err.message().contains("AccessKeyId"));
}

#[test]
fn test_credentials_ok() {
    let pcfg = ProviderConfig {
        region: "cn-shenzhen".into(),
        access_key_id: Some("AKID".into()),
        access_key_secret: Some("SECRET".into()),
    };
    let (id, secret) = AliyunDriver.credentials(&pcfg).unwrap();
    assert_eq!(id, "AKID");
    assert_eq!(secret, "SECRET");
}

#[test]
fn credentials_of_other_providers() {
    let mut pcfg = ProviderConfig::default();
    assert_eq!(
        generic_credentials("aws", &pcfg).unwrap_err().message(),
        "缺少 aws 凭据 AccessKeyId：请填写 project.yml 或设置环境变量"
    );
    pcfg.access_key_id = Some("A".into());
    assert_eq!(
        generic_credentials("aws", &pcfg).unwrap_err().message(),
        "缺少 aws 凭据 AccessKeySecret：请填写 project.yml 或设置环境变量"
    );
    pcfg.access_key_secret = Some("B".into());
    assert_eq!(generic_credentials("aws", &pcfg).unwrap(), ("A".to_string(), "B".to_string()));
    assert_eq!(unsupported("aws", "磁盘检查").message(), "服务商 aws 不支持磁盘检查");
}

#[test]
fn test_fmt_time_points() {
    assert_eq!(fmt_time_points("[\"0\",\"2\"]"), "00:00,02:00");
    assert_eq!(fmt_time_points("[\"9\"]"), "09:00");
    assert_eq!(fmt_time_points("bad"), "bad");
}

#[test]
fn test_fmt_weekdays() {
    assert_eq!(fmt_weekdays("[\"1\",\"5\"]"), "周一,周五");
    assert_eq!(fmt_weekdays("[\"7\"]"), "周日");
    assert_eq!(fmt_weekdays("[\"8\"]"), "8");
}

#[test]
fn lists_that_are_not_strings_stay_as_they_are() {
    assert_eq!(fmt_weekdays("[1,2]"), "[1,2]");
    assert_eq!(fmt_weekdays("[\"+1\",\"0\",\"x\",\"99999999999999999999\"]"), "周一,0,x,99999999999999999999");
    assert_eq!(fmt_time_points("[\"23\",\"\",\"123\"]"), "23:00,00:00,123:00");
    assert_eq!(fmt_time_points("[]"), "");
}

#[test]
fn test_policy_summary() {
    let p = EcsAutoSnapshotPolicy {
        policy_id: "sp-1".into(),
        name: "每日快照".into(),
        time_points: "[\"0\"]".into(),
        repeat_weekdays: "[\"1\",\"2\",\"3\",\"4\",\"5\"]".into(),
        retention_days: 7,
    };
    assert_eq!(
        p.summary(),
        "每日快照（触发 00:00，周一,周二,周三,周四,周五，保留 7 天）"
    );
}

#[test]
fn summary_leaves_out_what_is_not_set() {
    let p = EcsAutoSnapshotPolicy {
        policy_id: "sp-1".into(),
        name: "n".into(),
        time_points: "".into(),
        repeat_weekdays: "".into(),
        retention_days: -1,
    };
    assert_eq!(p.summary(), "n");
    let p = EcsAutoSnapshotPolicy { retention_days: 3, ..p };
    assert_eq!(p.summary(), "n（保留 3 天）");
}

#[test]
fn test_is_global_region() {
    assert!(is_global_region(""));
    assert!(is_global_region("  "));
    assert!(is_global_region("global"));
    assert!(is_global_region("GLOBAL"));
    assert!(!is_global_region("cn-shenzhen"));
    assert!(!is_global_region("cn-hangzhou"));
}

#[test]
fn global_with_spaces_is_a_region_name() {
    assert!(!is_global_region(" global"));
}

#[test]
fn test_is_permission_error() {
    // SWAS 403 NoPermission / ECS 403 Forbidden.RAM：权限类 → 跳过
    assert!(is_permission_error(&err("阿里云 swas API HTTP 403 (ListInstances): NoPermission: User is not authorized.")));
    assert!(is_permission_error(&err("阿里云 ecs API HTTP 403 (DescribeInstances): Forbidden.RAM: User not authorized.")));
    assert!(is_permission_error(&err("阿里云 ecs API HTTP 403 (DescribeInstances): Forbidden.Region: region not enabled.")));
    // 网络/DNS/业务错误：非权限类 → 计入失败
    assert!(!is_permission_error(&err("client error (Connect): dns error")));
    assert!(!is_permission_error(&err("阿里云 swas 业务错误 Throttling: Request was denied")));
    assert!(!is_permission_error(&err("响应解析失败 (ListInstances)")));
}

#[test]
fn test_parse_search_resources_response() {
    let j = r#"{
            "Resources": [
                {"ResourceId":"i-bp1xxx","ResourceName":"web","ResourceType":"ACS::ECS::Instance","RegionId":"cn-shenzhen"},
                {"ResourceId":"d-bp1yyy","ResourceType":"ACS::ECS::Disk","RegionId":"cn-shenzhen"},
                {"ResourceId":"swas-2ze1xxx","ResourceType":"ACS::SWAS::Instance","RegionId":"cn-guangzhou"},
                {"ResourceId":"example.com","ResourceType":"ACS::Domain::Domain","RegionId":"global"}
            ],
            "NextToken":"eyJhbGciOi",
            "RequestId":"abc"
        }"#;
    let v: serde_json::Value = serde_json::from_str(j).unwrap();
    let resources: Vec<SearchResource> = v["Resources"]
        .as_array()
        .unwrap()
        .iter()
        .map(|r| SearchResource {
            resource_type: r["ResourceType"].as_str().unwrap_or_default().to_string(),
            region_id: r["RegionId"].as_str().unwrap_or_default().to_string(),
        })
        .collect();
    assert_eq!(resources.len(), 4);
    let next_token = v["NextToken"].as_str().map(|s| s.to_string());
    // 客户端过滤语义：ECS 搜索只保留 ECS::Instance，排除 Disk 与 Domain（RegionId=global）
    let mut search = CatalogSearch::new(TYPE_ECS_INSTANCE);
    let done = search.take_page(resources, next_token);
    assert!(!done);
    assert_eq!(search.found.len(), 1);
    assert_eq!(search.found[0].region_id, "cn-shenzhen");
    assert_eq!(search.next_token.as_deref(), Some("eyJhbGciOi"));
}

#[test]
fn search_ends_without_token_or_items() {
    let item = || SearchResource { resource_type: TYPE_ECS_INSTANCE.to_string(), region_id: "r".to_string() };
    let mut s = CatalogSearch::new(TYPE_ECS_INSTANCE);
    let rc = ResourceCenterClient::new("ak", "sk");
    assert_eq!(rc.search_resources(&s).params, vec![("ResourceType", TYPE_ECS_INSTANCE), ("MaxResults", "100")]);
    assert!(!s.take_page(vec![item()], Some("t".to_string())));
    assert_eq!(rc.search_resources(&s).params.last(), Some(&("NextToken", "t")));
    assert!(s.take_page(vec![], Some("u".to_string())));
    assert!(s.take_page(vec![item()], Some(String::new())));
    assert!(s.take_page(vec![item()], None));
    assert_eq!(s.found.len(), 3);
}

#[test]
fn test_business_error() {
    // Code=Success / 空 / 缺失 → 成功
    assert_eq!(business_error(&vec![text_field("Code", "Success")], &[]), None);
    assert_eq!(business_error(&vec![text_field("Code", "")], &[]), None);
    assert_eq!(business_error(&vec![text_field("Datapoints", "[]")], &[]), None);

    // CMS 成功返回 Code="200"：默认判错误，传 ok_codes=["200"] 则成功
    let v = vec![
        text_field("Code", "200"),
        text_field("Message", "The specified resource is not found."),
    ];
    assert_eq!(
        business_error(&v, &[]),
        Some("200: The specified resource is not found.".to_string())
    );
    assert_eq!(business_error(&v, &["200"]), None);

    // 普通业务错误
    let v = vec![text_field("Code", "InvalidParameter"), text_field("Message", "bad param")];
    assert_eq!(
        business_error(&v, &[]),
        Some("InvalidParameter: bad param".to_string())
    );

    // Message 缺失 → 只返回错误码
    assert_eq!(business_error(&vec![text_field("Code", "Forbidden")], &[]), Some("Forbidden".to_string()));
}

#[test]
fn replies_are_accepted_or_not() {
    let c = RpcClient::new("ak", "sk", "cn-a", "swas");
    assert!(c.accept_reply("A", 200, r#"{"RequestId":"x"}"#, &[]).is_ok());
    assert!(c.accept_reply("A", 200, "[1]", &[]).is_ok());
    assert!(c.accept_reply("A", 200, r#"{"Code":200}"#, &[]).is_ok());
    let e = c.accept_reply("A", 200, r#"{"Code":"Throttling","Message":"slow"}"#, &[]).unwrap_err();
    assert_eq!(e.message(), "阿里云 swas 业务错误 Throttling: slow");
    let e = c.accept_reply("A", 403, "NoPermission", &[]).unwrap_err();
    assert_eq!(e.message(), "阿里云 swas API HTTP 403 (A): NoPermission");
    let e = c.accept_reply("A", 300, &"x".repeat(501), &[]).unwrap_err();
    assert_eq!(e.message(), format!("阿里云 swas API HTTP 300 (A): {}...", "x".repeat(500)));
    let e = c.accept_reply("A", 200, "oops", &[]).unwrap_err();
    let why = serde_json::from_str::<serde_json::Value>("oops").unwrap_err().to_string();
    assert_eq!(e.message(), format!("响应解析失败 (A): {why} => oops"));
}

#[test]
fn truncated_texts() {
    assert_eq!(truncate("中文字", 3), "中文字");
    assert_eq!(truncate("中文字", 2), "中文...");
    assert_eq!(truncate("", 0), "");
}

#[test]
fn test_percent_encode() {
    assert_eq!(percent_encode("abc-_.~"), "abc-_.~");
    assert_eq!(percent_encode("a b"), "a%20b");
    assert_eq!(percent_encode("中文"), "%E4%B8%AD%E6%96%87");
    assert_eq!(percent_encode("+ /"), "%2B%20%2F");
}

#[test]
fn test_sign_stable() {
    // 固定时间与 nonce 无法注入，只验证输出结构：有 Signature 且长度正确
    let params = sign_params("LTAI-test", "secret", "ListInstances", "2020-05-06", "cn-shenzhen", &[]).unwrap();
    let sig = params.iter().find(|(k, _)| k == "Signature").unwrap().1.clone();
    // base64(HMAC-SHA1) = 28 chars，percent-encode 后不含空格
    assert!(!sig.contains(' '));
    assert!(sig.contains('%') || !sig.contains('+'));
}

#[test]
fn signature_of_a_fixed_request() {
    let params = sign_params_at(
        "testid",
        "testsecret",
        "DescribeRegions",
        "2014-05-26",
        "cn hz",
        &[("Zeta", "a/b"), ("Alpha", "中")],
        "2016-02-23T12:46:24Z",
        "3ee8c1b8-83d3-44af-a94f-4e0ad82fd6cf",
    );
    let keys: Vec<&str> = params.iter().map(|(k, _)| k.as_str()).collect();
    assert_eq!(
        keys,
        vec![
            "AccessKeyId", "Action", "Alpha", "Format", "RegionId", "SignatureMethod", "SignatureNonce",
            "SignatureVersion", "Timestamp", "Version", "Zeta", "Signature",
        ]
    );
    assert_eq!(params[2].1, "%E4%B8%AD");
    assert_eq!(params[4].1, "cn%20hz");
    assert_eq!(params[8].1, "2016-02-23T12%3A46%3A24Z");
    assert_eq!(params[10].1, "a%2Fb");
    // 与独立计算的 HMAC-SHA1 比较
    let query: Vec<String> = params[..11].iter().map(|(k, v)| format!("{k}={v}")).collect();
    let to_sign = format!("GET&%2F&{}", percent_encode(&query.join("&")));
    let mut mac = hmac::Hmac::<sha1::Sha1>::new_from_slice(b"testsecret&").unwrap();
    mac.update(to_sign.as_bytes());
    let sig = base64::engine::general_purpose::STANDARD.encode(mac.finalize().into_bytes());
    assert_eq!(params[11].1, percent_encode(&sig));
}

#[test]
fn known_signature() {
    // 阿里云文档样例（HMAC-SHA1，SignatureVersion 1.0）
    let params = sign_params_at(
        "testid",
        "testsecret",
        "DescribeRegions",
        "2014-05-26",
        "",
        &[],
        "2016-02-23T12:46:24Z",
        "n",
    );
    assert_eq!(params.len(), 10);
    assert_eq!(params[9].0, "Signature");
    assert!(params[9].1.ends_with("%3D"));
}

#[test]
fn urls_of_regional_and_global_products() {
    let call = ApiCall::plain("A", "1").with("K", "v w");
    let url = RpcClient::new("ak", "sk", "cn-a", "ecs").call_url(&call).unwrap();
    assert!(url.starts_with("https://ecs.cn-a.aliyuncs.com/?AccessKeyId=ak&Action=A&Format=JSON&K=v%20w&RegionId=cn-a&"));
    assert!(url.contains("&Signature="));
    assert!(!url.contains(' '));
    let d = DomainClient::new("ak", "sk");
    let url = d.rpc.call_url(&d.list_domains("3")).unwrap();
    assert!(url.starts_with("https://domain.aliyuncs.com/?"));
    assert!(url.contains("&PageNum=3&PageSize=100&"));
    let c = RpcClient::new("ak", "sk", "r", "p");
    assert_eq!(
        c.url_of(&vec![("a".to_string(), "1".to_string()), ("b".to_string(), "2".to_string())]),
        "https://p.r.aliyuncs.com/?a=1&b=2"
    );
}

#[test]
fn two_requests_have_two_nonces() {
    let nonce = || {
        let p = sign_params("a", "b", "c", "d", "e", &[]).unwrap();
        p.iter().find(|(k, _)| k == "SignatureNonce").unwrap().1.clone()
    };
    let (a, b) = (nonce(), nonce());
    assert_ne!(a, b);
    assert_eq!(a.len(), 36);
    let p = sign_params("a", "b", "c", "d", "e", &[]).unwrap();
    let ts = p.iter().find(|(k, _)| k == "Timestamp").unwrap().1.replace("%3A", ":");
    assert!(chrono::DateTime::parse_from_rfc3339(&ts).is_ok());
}

#[test]
fn pages_end_at_the_total() {
    let mut p: Pager<u8> = Pager::new();
    let page = p.page_text();
    let c = page_call(ApiCall::plain("A", "1").with("X", "y"), &page);
    assert_eq!(c.params, vec![("X", "y"), ("PageNumber", "1"), ("PageSize", "100")]);
    assert!(!p.take_page(vec![1, 2], 3));
    assert_eq!(p.page_text(), "2");
    assert!(p.take_page(vec![3], 3));
    assert_eq!(p.items, vec![1, 2, 3]);
    let mut p: Pager<u8> = Pager::new();
    assert!(p.take_page(vec![], 0));
}

#[test]
fn domain_pages_end_when_empty() {
    let item = || DomainItem {
        domain_name: "a.com".to_string(),
        expiration_date: "2017-11-02 04:00:45".to_string(),
        auto_renew_enabled: true,
    };
    let mut p = DomainPager::new();
    assert!(!p.take_page(vec![item()], 5));
    assert_eq!(p.page_text(), "2");
    assert!(p.take_page(vec![], 5));
    assert_eq!(p.domains.len(), 1);
    assert_eq!(p.domains[0].domain_name, "a.com");
    assert_eq!(p.domains[0].expired_at, Some(UtcTime { secs: 1509566445, nanos: 0 }));
    assert!(p.domains[0].auto_renew);
    assert!(p.take_page(vec![item()], 2));
}

#[test]
fn test_driver_lookup() {
    assert!(driver("aliyun").is_some());
    assert!(driver("tencent").is_none());
}

#[test]
fn test_supported_kinds() {
    assert_eq!(supported_kinds(), vec!["aliyun"]);
}

#[test]
fn test_drivers_unique_kinds() {
    let list = drivers();
    let mut kinds: Vec<&str> = list.iter().map(|d| d.kind()).collect();
    kinds.sort_unstable();
    let mut dedup = kinds.clone();
    dedup.dedup();
    assert_eq!(kinds, dedup, "驱动 kind 必须唯一");
}

#[test]
fn test_scan_regions_all_ok() {
    let mut scan: RegionScan<u8> = RegionScan::new();
    scan.record("cn-a", Ok(1));
    scan.record("cn-b", Ok(1));
    assert_eq!(scan.items, vec![1, 1]);
    assert!(scan.no_perm.is_empty());
    assert!(scan.failed.is_empty());
    assert!(scan.no_perm_notice("SWAS").is_none());
    assert!(scan.failed_notice("检查").is_none());
}

#[test]
fn test_scan_regions_permission_skipped() {
    let mut scan: RegionScan<u8> = RegionScan::new();
    scan.record("cn-a", Ok(1));
    scan.record("cn-b", Err(err("阿里云 swas API HTTP 403 (ListInstances): NoPermission: nope")));
    scan.record("cn-c", Ok(1));
    assert_eq!(scan.no_perm, vec!["cn-b".to_string()]);
    assert_eq!(scan.items, vec![1, 1]);
    assert!(scan.failed.is_empty());
    assert_eq!(
        scan.no_perm_notice("SWAS").unwrap(),
        "  跳过 1 个地域（无 SWAS 权限，可能未购买/未授权）: cn-b"
    );
}

#[test]
fn test_scan_regions_real_error_recorded() {
    let mut scan: RegionScan<u8> = RegionScan::new();
    scan.record("cn-a", Ok(1));
    scan.record("cn-b", Err(err("dns error")));
    assert_eq!(scan.failed.len(), 1);
    assert_eq!(scan.failed[0].0, "cn-b");
    assert!(scan.failed[0].1.contains("dns"));
    assert_eq!(scan.items, vec![1]);
    assert_eq!(scan.failed_notice("磁盘检查").unwrap(), "  跳过 1 个地域（磁盘检查失败）: cn-b");
}

#[test]
fn test_all_failed_err() {
    // 全失败 → Some，消息含 label 与首个错误
    let s: RegionScan<i32> = RegionScan {
        items: vec![],
        no_perm: vec![],
        failed: vec![("cn-a".into(), "boom".into())],
    };
    let e = s.all_failed_err("检查").unwrap();
    assert!(e.message().contains("全部 1 个地域 检查 失败"));
    assert!(e.message().contains("boom"));
    // 有成功返回（哪怕空数据）→ None（成功返回过即证明 API 通）
    let s: RegionScan<i32> = RegionScan {
        items: vec![1],
        no_perm: vec![],
        failed: vec![("cn-a".into(), "boom".into())],
    };
    assert!(s.all_failed_err("检查").is_none());
    // 有权限跳过 → None（权限跳过不算总失败）
    let s: RegionScan<i32> = RegionScan {
        items: vec![],
        no_perm: vec!["cn-a".into()],
        failed: vec![("cn-b".into(), "boom".into())],
    };
    assert!(s.all_failed_err("检查").is_none());
    // 无失败 → None
    let s: RegionScan<i32> = RegionScan { items: vec![], no_perm: vec![], failed: vec![] };
    assert!(s.all_failed_err("检查").is_none());
}

#[test]
fn merging_regions() {
    let mut scan: RegionScan<Vec<u8>> = RegionScan::new();
    scan.record("a", Ok(vec![1, 2]));
    scan.record("b", Err(err("boom")));
    scan.record("c", Ok(vec![3]));
    assert_eq!(merged(scan, "SWAS 查询").unwrap(), vec![1, 2, 3]);
    let mut scan: RegionScan<Vec<u8>> = RegionScan::new();
    scan.record("b", Err(err("boom")));
    assert_eq!(
        merged(scan, "SWAS 查询").unwrap_err().message(),
        "全部 1 个地域 SWAS 查询 失败（首个错误: boom）"
    );
}

#[test]
fn regions_are_collected_once() {
    let mut r = vec!["a".to_string()];
    push_unique(&mut r, vec!["b".to_string(), "a".to_string(), "b".to_string(), "c".to_string()]);
    assert_eq!(r, vec!["a", "b", "c"]);
}

#[test]
fn discovery_fails_only_without_any_source() {
    let s = |v: &[&str]| Found::Regions(v.iter().map(|x| x.to_string()).collect());
    assert_eq!(discover_regions(s(&["a", "b"]), s(&["b", "c"])).unwrap(), vec!["a", "b", "c"]);
    assert!(discover_regions(Found::Catalog(vec![]), Found::Nothing).unwrap().is_empty());
    assert!(discover_regions(Found::Nothing, s(&[])).is_err());
    let e = discover_regions(Found::Nothing, Found::Nothing).unwrap_err();
    assert_eq!(
        e.message(),
        "自动发现地域失败：资源中心与 ListRegions/DescribeRegions 均未返回地域，请检查 RAM 权限（resourcecenter:SearchResources）"
    );
}

#[test]
fn regions_are_asked_for_only_where_the_catalogue_failed() {
    let listed = |v: &[&str]| -> Vec<CatalogResource> {
        v.iter().map(|r| CatalogResource { region_id: r.to_string() }).collect()
    };
    let found = match after_catalog(Ok(listed(&["a", "a", "b"]))) {
        Look::Found(f) => f,
        Look::AskRegions(_) => panic!("the catalogue answered"),
    };
    match after_catalog(Err(err("NoPermission"))) {
        Look::AskRegions(e) => assert_eq!(e.message(), "NoPermission"),
        Look::Found(_) => panic!("the catalogue failed"),
    }
    let regions = discover_regions(found, after_regions(Ok(vec!["c".to_string(), "b".to_string()]))).unwrap();
    assert_eq!(regions, vec!["a", "b", "c"]);
    assert!(discover_regions(after_regions(Err(err("x"))), after_regions(Err(err("y")))).is_err());
    assert!(discover_regions(after_regions(Ok(vec![])), after_regions(Err(err("y")))).is_err());
    assert!(discover_regions(after_regions(Ok(vec!["a".to_string()])), after_regions(Err(err("y")))).is_ok());
    assert!(matches!(after_catalog(Ok(vec![])), Look::Found(Found::Catalog(_))));
}

#[test]
fn provider_has_a_group_for_each_region() {
    let found = vec!["a".to_string(), "b".to_string()];
    let one = AliyunProvider::new("ak", "sk", "cn-x", &found);
    assert_eq!(one.groups().len(), 1);
    assert_eq!(one.groups()[0].region, "cn-x");
    let p = AliyunProvider::new("ak", "sk", "Global", &found);
    assert_eq!(p.groups().len(), 2);
    assert_eq!(p.groups()[1].region, "b");
    assert_eq!(p.groups()[1].ecs.rpc.region(), "b");
    assert_eq!(p.groups()[1].cms.rpc.product, "metrics");
}

fn instance(id: &str) -> SwasInstance {
    SwasInstance {
        instance_id: id.to_string(),
        instance_name: String::new(),
        status: "Running".to_string(),
        expired_time: String::new(),
    }
}

fn account(regions: &[&str]) -> AliyunProvider {
    AliyunProvider::new("ak", "sk", "", &regions.iter().map(|r| r.to_string()).collect())
}

#[test]
fn servers_of_all_regions() {
    let (r, notices) = account(&["a", "b", "c"]).list_servers(vec![
        Ok(vec![instance("i1"), instance("i2")]),
        Err(err("dns error")),
        Ok(vec![instance("i3")]),
    ]);
    let seen: Vec<(String, String)> = r.unwrap().into_iter().map(|s| (s.id, s.region)).collect();
    let want: Vec<(String, String)> =
        [("i1", "a"), ("i2", "a"), ("i3", "c")].iter().map(|(x, y)| (x.to_string(), y.to_string())).collect();
    assert_eq!(seen, want);
    assert_eq!(notices, vec!["  跳过 1 个地域（SWAS 查询失败）: b"]);
}

#[test]
fn servers_fail_only_where_every_region_fails() {
    let (r, notices) =
        account(&["a", "b"]).list_servers(vec![Err(err("dns error")), Err(err("timeout"))]);
    assert_eq!(r.unwrap_err().message(), "全部 2 个地域 SWAS 查询 失败（首个错误: dns error）");
    assert_eq!(notices, vec!["  跳过 2 个地域（SWAS 查询失败）: a, b"]);
    // 成功返回过（哪怕空数据）→ 不算总失败
    let (r, _) = account(&["a", "b"]).list_servers(vec![Ok(vec![]), Err(err("timeout"))]);
    assert!(r.unwrap().is_empty());
    // 权限跳过不算总失败
    let (r, notices) =
        account(&["a", "b"]).list_servers(vec![Err(err("Forbidden.RAM")), Err(err("timeout"))]);
    assert!(r.unwrap().is_empty());
    assert_eq!(
        notices,
        vec!["  跳过 1 个地域（无 SWAS 权限，可能未购买/未授权）: a", "  跳过 1 个地域（SWAS 查询失败）: b"]
    );
    let (r, notices) = account(&[]).list_servers(vec![]);
    assert!(r.unwrap().is_empty());
    assert!(notices.is_empty());
}

#[test]
fn scanning_accounts_for_every_region() {
    let p = account(&["a", "b", "c", "d"]);
    let scan = scan_regions(
        p.groups(),
        vec![Ok(7u8), Err(err("NoPermission")), Err(err("dns")), Ok(9)],
    );
    assert_eq!(scan.items, vec![7, 9]);
    assert_eq!(scan.no_perm, vec!["b"]);
    assert_eq!(scan.failed, vec![("c".to_string(), "dns".to_string())]);
    assert_eq!(scan.items.len() + scan.no_perm.len() + scan.failed.len(), 4);
    assert!(scan.all_failed_err("x").is_none());
}

#[test]
fn regions_of_a_product_are_asked_for() {
    let p = account(&["a"]);
    assert_eq!(p.groups()[0].swas.list_regions().action, "ListRegions");
    assert_eq!(p.groups()[0].ecs.describe_regions().action, "DescribeRegions");
    assert_eq!(p.groups()[0].ecs.list_auto_snapshot_policies().version, "2014-05-26");
    assert_eq!(p.groups()[0].ecs.list_disks("i").params, vec![("InstanceId", "i")]);
    let c = p.groups()[0].cms.describe_metric_last("acs_ecs_dashboard", "diskusage_utilization", None);
    assert_eq!(c.params, vec![("Namespace", "acs_ecs_dashboard"), ("MetricName", "diskusage_utilization")]);
}

#[test]
fn probing_regions() {
    assert!(RegionProbe::new(1).only_one());
    let mut p = RegionProbe::new(2);
    assert!(!p.only_one());
    assert_eq!(p.candidate(), Some(0));
    p.rejected(err("x"));
    assert_eq!(p.candidate(), Some(1));
    p.rejected(err("y"));
    assert_eq!(p.candidate(), None);
    assert_eq!(p.exhausted("实例", "i-1").message(), "y");
    assert_eq!(RegionProbe::new(0).exhausted("快照", "s-1").message(), "快照 s-1 在任何地域均未找到");
}

fn disk(id: &str, kind: &str) -> SwasDisk {
    SwasDisk { disk_id: id.to_string(), disk_type: kind.to_string(), disk_name: String::new() }
}

#[test]
fn snapshots_are_taken_of_the_system_disk() {
    let c = SwasClient::new("ak", "sk", "r");
    let disks = vec![disk("d1", "Data"), disk("d2", "System"), disk("d3", "System")];
    let call = c.create_snapshot("i", &disks, "n").unwrap();
    assert_eq!(call.action, "CreateSnapshot");
    assert_eq!(call.params, vec![("DiskId", "d2"), ("SnapshotName", "n")]);
    let disks = vec![disk("d1", "Data"), disk("d2", "Data")];
    assert_eq!(c.create_snapshot("i", &disks, "n").unwrap().params[0], ("DiskId", "d1"));
    assert_eq!(c.create_snapshot("i", &vec![], "n").unwrap_err().message(), "实例 i 没有可用的磁盘");
    assert_eq!(c.list_snapshots("i").params, vec![("InstanceId", "i")]);
    assert_eq!(c.delete_snapshot("s").params, vec![("SnapshotId", "s")]);
    assert_eq!(c.list_disks("i").action, "ListDisks");
    assert_eq!(c.list_instances().version, "2020-06-01");
}

fn swas_snapshot(id: &str, name: &str, status: &str, time: &str) -> SwasSnapshot {
    SwasSnapshot {
        snapshot_id: id.to_string(),
        snapshot_name: name.to_string(),
        status: status.to_string(),
        progress: "50%".to_string(),
        creation_time: time.to_string(),
    }
}

#[test]
fn snapshots_come_oldest_first() {
    let v = snapshots_of(vec![
        swas_snapshot("s1", "", "accomplished", "2026-02"),
        swas_snapshot("s2", "two", "progressing", "2026-01"),
        swas_snapshot("s3", "three", "x", ""),
        swas_snapshot("s4", "four", "Failed", "2026-01"),
    ]);
    let ids: Vec<&str> = v.iter().map(|s| s.id.as_str()).collect();
    assert_eq!(ids, vec!["s3", "s2", "s4", "s1"]);
    assert_eq!(v[0].created_at, None);
    assert_eq!(v[0].status, SnapshotStatus::Unknown);
    assert_eq!(v[1].status, SnapshotStatus::Creating);
    assert_eq!(v[2].status, SnapshotStatus::Failed);
    assert_eq!(v[3].name, "s1");
    assert_eq!(v[3].status, SnapshotStatus::Available);
    assert_eq!(map_status("Creating"), SnapshotStatus::Creating);
    assert_eq!(map_status("Available"), SnapshotStatus::Available);
}

#[test]
fn waiting_for_a_snapshot() {
    let v = vec![swas_snapshot("a", "", "progressing", ""), swas_snapshot("b", "", "Available", ""),
        swas_snapshot("c", "", "Failed", "")];
    assert!(matches!(readiness(&v, "b"), Readiness::Ready));
    match readiness(&v, "a") {
        Readiness::Pending(m) => assert_eq!(m, "等待快照 a... 当前: progressing (50%)"),
        _ => panic!("pending"),
    }
    match readiness(&v, "x") {
        Readiness::Pending(m) => assert_eq!(m, "等待快照 x... 未在列表中"),
        _ => panic!("pending"),
    }
    match readiness(&v, "c") {
        Readiness::Broken(e) => assert_eq!(e.message(), "快照 c 创建失败（Failed）"),
        _ => panic!("broken"),
    }
    assert_eq!(wait_timed_out("a", 1859).message(), "等待快照 a 就绪超时（30 分钟）");
}

fn secs(n: u64) -> Span {
    Span { secs: n, nanos: 0 }
}

#[test]
fn a_wait_from_start_to_end() {
    let pending = vec![swas_snapshot("a", "", "progressing", "")];
    let ready = vec![swas_snapshot("a", "", "accomplished", "")];
    let broken = vec![swas_snapshot("a", "", "Failed", "")];
    let mut w = SnapshotWait::start("a", secs(60));
    w.on_clock(secs(0)).unwrap();
    assert_eq!(w.on_list(&pending).unwrap().as_deref(), Some("等待快照 a... 当前: progressing (50%)"));
    w.on_clock(Span { secs: 59, nanos: 999_999_999 }).unwrap();
    assert!(w.on_list(&ready).unwrap().is_none());
    assert_eq!(w.phase, WaitPhase::Ended);

    let mut w = SnapshotWait::start("a", secs(60));
    w.on_clock(secs(30)).unwrap();
    assert_eq!(w.on_list(&broken).unwrap_err().message(), "快照 a 创建失败（Failed）");

    let mut w = SnapshotWait::start("a", secs(60));
    w.on_clock(secs(30)).unwrap();
    assert!(w.on_list(&vec![]).unwrap().is_some());
    assert_eq!(w.on_clock(secs(60)).unwrap_err().message(), "等待快照 a 就绪超时（1 分钟）");
    assert_eq!(w.phase, WaitPhase::Ended);
}

#[test]
fn without_time_a_wait_fails_before_any_list() {
    let mut w = SnapshotWait::start("a", secs(0));
    assert_eq!(w.on_clock(secs(0)).unwrap_err().message(), "等待快照 a 就绪超时（0 分钟）");
    assert!(Span { secs: u64::MAX, nanos: 1 }.lasts(&secs(u64::MAX)));
    assert!(!secs(u64::MAX).lasts(&Span { secs: u64::MAX, nanos: 1 }));
}

#[test]
fn servers_of_a_run_of_pages() {
    let pages: Vec<(Vec<u8>, i32)> = vec![(vec![1, 2], 5), (vec![], 5), (vec![3, 4], 4), (vec![9], 5)];
    let mut p: Pager<u8> = Pager::new();
    let mut asked = Vec::new();
    for (items, total) in pages {
        asked.push(p.page_text());
        if p.take_page(items, total) {
            break;
        }
    }
    assert_eq!(asked, vec!["1", "2", "3"]);
    assert_eq!(p.items, vec![1, 2, 3, 4]);
}

#[test]
fn instances_become_servers() {
    let v = servers_of(
        vec![
            SwasInstance { instance_id: "i".into(), instance_name: "".into(), status: "Running".into(), expired_time: "".into() },
            SwasInstance { instance_id: "j".into(), instance_name: "web".into(), status: "S".into(), expired_time: "2026-09-01T16:00:00Z".into() },
        ],
        "cn-a",
    );
    assert_eq!((v[0].id.as_str(), v[0].name.as_str(), v[0].region.as_str()), ("i", "i", "cn-a"));
    assert_eq!(v[0].expired_at, None);
    assert_eq!((v[1].name.as_str(), v[1].status.as_str()), ("web", "S"));
    assert_eq!(v[1].expired_at.unwrap().secs, 1788278400);
    let e = EcsClient::new("ak", "sk", "cn-b").list_servers(vec![EcsInstance {
        instance_id: "k".into(), instance_name: "db".into(), status: "Running".into(), expired_time: "bad".into(),
    }]);
    assert_eq!((e[0].name.as_str(), e[0].region.as_str()), ("db", "cn-b"));
    assert_eq!(e[0].expired_at, None);
    assert_eq!(region_suffix(""), "");
    assert_eq!(region_suffix("cn-a"), ", cn-a");
}
