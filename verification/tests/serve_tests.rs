use ops_console::config::{Config, DingTalkConfig, NotifyConfig, Project, ProviderConfig, ProviderEntry, ProviderMap};
use ops_console::notify::dingtalk::{build_markdown, DingTalkNotifier};
use ops_console::notify::from_config;
use ops_console::serve::api::{
    get_config, mask_secret, save_config, unmask_secret, RawPayload, ShownProject, SubmittedProject,
    SubmittedProvider, SECRET_MASK,
};
use ops_console::serve::auth::{needs_stored_token, resolve_token, TokenValidator};
use ops_console::serve::tasks::{
    build_args, opening, status_line, stream_event, validate_spec, CommandSpec, RunEnding, StreamEvent,
    TaskStore,
};
use ops_console::serve::{static_file, StaticFile};

fn s(x: &str) -> String {
    x.to_string()
}

#[test]
fn test_sign_matches_known_vector() {
    // 参考值用 Python 独立算出：urllib.parse.quote_plus(base64(hmac_sha256("1700000000000\nSEC0123456789abcdef", "SEC0123456789abcdef")))
    let sign = DingTalkNotifier::sign("SEC0123456789abcdef", 1700000000000);
    assert_eq!(
        sign,
        "TSZbRFUuvaSQaRKUpF970OPCb2%2FLcQAP3wOvwZIzBZk%3D"
    );
}

#[test]
fn message_urls_carry_time_and_signature() {
    let n = DingTalkNotifier::new("https://h?access_token=t", "SEC0123456789abcdef", "");
    assert_eq!(
        n.url_at(1700000000000),
        "https://h?access_token=t&timestamp=1700000000000&sign=TSZbRFUuvaSQaRKUpF970OPCb2%2FLcQAP3wOvwZIzBZk%3D"
    );
    let url = n.url();
    let ts: i64 = url.split("&timestamp=").nth(1).unwrap().split('&').next().unwrap().parse().unwrap();
    assert_eq!(url, n.url_at(ts));
    assert!(ts > 1_700_000_000_000);
}

#[test]
fn test_build_markdown_with_prefix() {
    let body = build_markdown("【通知】", "快照轮转: jackclub 成功", "  删除: 无\n  当前快照总数: 2\n");
    assert_eq!(body.title, "【通知】快照轮转: jackclub 成功");
    assert_eq!(
        body.text,
        "**【通知】快照轮转: jackclub 成功**\n\n  删除: 无\n  当前快照总数: 2\n"
    );
}

#[test]
fn test_build_markdown_without_prefix() {
    let body = build_markdown("", "轮转成功", "详情");
    assert_eq!(body.title, "轮转成功");
    assert_eq!(body.text, "**轮转成功**\n\n详情");
}

#[test]
fn replies_of_the_robot() {
    assert!(DingTalkNotifier::accept_reply(200, r#"{"errcode":0,"errmsg":"ok"}"#).is_ok());
    assert!(DingTalkNotifier::accept_reply(200, "not json").is_ok());
    assert!(DingTalkNotifier::accept_reply(204, r#"{"errcode":"310000"}"#).is_ok());
    let e = DingTalkNotifier::accept_reply(200, r#"{"errcode":310000,"errmsg":"sign not match"}"#).unwrap_err();
    assert_eq!(e.message(), "钉钉返回错误 errcode=310000: sign not match");
    let e = DingTalkNotifier::accept_reply(200, r#"{"errcode":-1}"#).unwrap_err();
    assert_eq!(e.message(), "钉钉返回错误 errcode=-1: ");
    let e = DingTalkNotifier::accept_reply(500, &"中".repeat(400)).unwrap_err();
    assert_eq!(e.message(), format!("钉钉 webhook HTTP 500: {}", "中".repeat(300)));
}

fn notify(kind: &str, webhook: &str) -> NotifyConfig {
    NotifyConfig {
        kind: s(kind),
        prefix: s("【测试】"),
        dingtalk: DingTalkConfig { webhook: s(webhook), secret: s("sec") },
    }
}

#[test]
fn channels_of_the_configuration() {
    assert!(from_config(&notify("", "w")).unwrap().is_none());
    assert!(from_config(&notify("none", "w")).unwrap().is_none());
    let n = from_config(&notify("dingtalk", "w")).unwrap().unwrap();
    assert_eq!((n.webhook.as_str(), n.secret.as_str(), n.prefix.as_str()), ("w", "sec", "【测试】"));
    assert_eq!(n.message("t", "x").title, "【测试】t");
    assert_eq!(
        from_config(&notify("dingtalk", "")).unwrap_err().message(),
        "notify.kind = \"dingtalk\" 但 webhook 为空：请配置 [notify.dingtalk] webhook 或环境变量 DINGTALK_WEBHOOK_URL"
    );
    assert_eq!(
        from_config(&notify("sla\tck", "w")).unwrap_err().message(),
        "未知通知渠道: \"sla\\tck\"（支持: none | dingtalk）"
    );
}

#[test]
fn test_token_resolution_priority() {
    // 无 override、无 env → 文件值
    assert_eq!(resolve_token(None, None, Some(s("from-file"))).unwrap(), "from-file");
    // override 优先于 env
    assert_eq!(
        resolve_token(Some(s("from-arg")), Some(s("from-env")), Some(s("from-file"))).unwrap(),
        "from-arg"
    );
    // 无 override、有 env → env 优先于文件
    assert_eq!(
        resolve_token(None, Some(s("from-env")), Some(s("from-file"))).unwrap(),
        "from-env"
    );
    assert_eq!(resolve_token(Some(s("")), Some(s("")), Some(s("f"))).unwrap(), "f");
    assert!(needs_stored_token(&Some(s("")), &None));
    assert!(!needs_stored_token(&None, &Some(s("e"))));
    assert_eq!(
        resolve_token(None, None, Some(s(""))).unwrap_err().message(),
        "无法确定访问令牌（serve.yml 为空且无环境变量）"
    );
    assert!(resolve_token(None, None, None).is_err());
}

#[test]
fn test_verify_ok_and_bad() {
    let v = TokenValidator::new("secret-token");
    assert!(v.verify_header("Bearer secret-token"));
    assert!(!v.verify_header("Bearer wrong"));
    assert!(!v.verify_header(""));
    assert!(!v.verify_query("wrong"));
    assert!(v.verify_query("secret-token"));
}

#[test]
fn tokens_are_compared_in_full() {
    let v = TokenValidator::new("token-中");
    assert!(v.verify(Some("token-中")));
    for t in ["", "token", "token-中x", "xoken-中", "token-丮", "\0"] {
        assert!(!v.verify(Some(t)), "{t}");
    }
    assert!(!v.verify(None));
}

#[test]
fn test_login_ok_and_bad() {
    let v = TokenValidator::new("tok");
    assert!(v.authorize("/api/login", None, None));
    assert!(v.verify_query("tok"));
    assert!(!v.verify_query("wrong"));
}

#[test]
fn test_stream_requires_auth() {
    let v = TokenValidator::new("tok");
    let path = "/api/tasks/current/stream";
    // 无 token → 401
    assert!(!v.authorize(path, None, None));
    // 带 token → 200
    assert!(v.authorize(path, Some("Bearer tok"), None));
    assert!(v.authorize(path, None, Some("a=b&token=tok")));
    assert!(!v.authorize(path, None, Some("token=x&token=tok")));
    assert!(!v.authorize(path, None, Some("xtoken=tok")));
    assert!(!v.authorize("/api/tasks", None, Some("token=tok")));
}

#[test]
fn test_401_without_token() {
    let v = TokenValidator::new("tok");
    assert!(!v.authorize("/api/config", None, None));
    assert!(!v.authorize("/api/config", Some("tok"), None));
    assert!(v.authorize("/api/config", Some("Bearer tok"), None));
    assert!(v.authorize("/", None, None));
    assert!(v.authorize("/static/app.js", None, None));
    assert!(!v.authorize("/static", None, None));
}

#[test]
fn static_files_and_their_types() {
    assert_eq!(static_file("app.js"), Some(StaticFile::AppJs));
    assert_eq!(static_file("bootstrap.min.css").unwrap().mime(), "text/css; charset=utf-8");
    assert_eq!(static_file("bootstrap.bundle.min.js").unwrap().mime(), "application/javascript; charset=utf-8");
    assert_eq!(static_file("../x"), None);
}

fn provider(region: &str, secret: Option<&str>) -> ProviderConfig {
    ProviderConfig { region: s(region), access_key_id: None, access_key_secret: secret.map(s) }
}

fn stored() -> Vec<Project> {
    let mut providers = ProviderMap::new();
    providers.insert(s("aliyun"), provider("cn-shenzhen", Some("real-secret")));
    vec![Project { name: s("demo"), description: None, providers }]
}

fn stored_notify() -> NotifyConfig {
    NotifyConfig {
        kind: s("dingtalk"),
        prefix: s("【测试】"),
        dingtalk: DingTalkConfig { webhook: s("https://example.com/hook"), secret: s("") },
    }
}

fn send_back(p: ShownProject) -> SubmittedProject {
    SubmittedProject {
        path: Some(p.path),
        name: p.name,
        description: p.description,
        providers: p
            .providers
            .into_iter()
            .map(|x| SubmittedProvider {
                path: Some(x.path),
                entry: ProviderEntry { kind: x.kind, config: x.config },
            })
            .collect(),
    }
}

fn submitted(name: &str, path: Option<&str>, providers: Vec<(&str, Option<&str>, ProviderConfig)>) -> SubmittedProject {
    SubmittedProject {
        path: path.map(s),
        name: s(name),
        description: None,
        providers: providers
            .into_iter()
            .map(|(kind, path, config)| SubmittedProvider {
                path: path.map(s),
                entry: ProviderEntry { kind: s(kind), config },
            })
            .collect(),
    }
}

fn secret_of(projects: &[Project], i: usize, kind: &str) -> Option<String> {
    projects[i].providers.get(kind).unwrap().access_key_secret.clone()
}

#[test]
fn masking_single_secrets() {
    assert_eq!(mask_secret(&Some(s("x"))), Some(s(SECRET_MASK)));
    assert_eq!(mask_secret(&Some(s(""))), None);
    assert_eq!(mask_secret(&None), None);
    assert_eq!(unmask_secret(&Some(s(SECRET_MASK)), &Some(s("o"))), Some(s("o")));
    assert_eq!(unmask_secret(&Some(s("n")), &Some(s("o"))), Some(s("n")));
    assert_eq!(unmask_secret(&None, &Some(s("o"))), None);
}

#[test]
fn test_config_get_masks_secret() {
    let (projects, notify) = get_config(&stored(), &stored_notify());
    assert_eq!(projects[0].providers[0].config.access_key_secret.as_deref(), Some(SECRET_MASK), "secret 应被掩码");
    assert_eq!(notify.prefix, "【测试】");
    assert_eq!(notify.dingtalk.secret, "");
    let mut n = stored_notify();
    n.dingtalk.secret = s("x");
    assert_eq!(get_config(&stored(), &n).1.dingtalk.secret, SECRET_MASK);
}

#[test]
fn test_config_get_adds_path_fields() {
    let (projects, _) = get_config(&stored(), &stored_notify());
    assert_eq!(projects[0].path, "0", "GET 应附带项目 _path");
    assert_eq!(projects[0].providers[0].path, "0/aliyun", "GET 应附带服务商 _path");
}

#[test]
fn test_config_post_mask_not_overwritten() {
    // 提交掩码值 → 服务端保留文件原值
    let body = vec![submitted("demo", None, vec![("aliyun", None, provider("cn-shenzhen", Some(SECRET_MASK)))])];
    let (projects, _) = save_config(body, stored_notify(), &stored(), &stored_notify()).unwrap();
    assert_eq!(secret_of(&projects, 0, "aliyun").as_deref(), Some("real-secret"));
}

#[test]
fn test_config_path_roundtrip_keeps_secret() {
    // GET 原样回传（含 _path 与掩码）→ 保留真实 secret
    let (shown, notify) = get_config(&stored(), &stored_notify());
    let body: Vec<SubmittedProject> = shown.into_iter().map(send_back).collect();
    let (projects, _) = save_config(body, notify, &stored(), &stored_notify()).unwrap();
    assert_eq!(secret_of(&projects, 0, "aliyun").as_deref(), Some("real-secret"));
}

#[test]
fn test_config_rename_with_path_keeps_secret() {
    let (shown, notify) = get_config(&stored(), &stored_notify());
    let mut body: Vec<SubmittedProject> = shown.into_iter().map(send_back).collect();
    // 改名但保留 _path → 掩码还原仍应命中原项目
    body[0].name = s("renamed");
    let (projects, _) = save_config(body, notify, &stored(), &stored_notify()).unwrap();
    assert_eq!(projects[0].name, "renamed");
    assert_eq!(secret_of(&projects, 0, "aliyun").as_deref(), Some("real-secret"));
}

#[test]
fn test_config_new_provider_empty_secret_stored() {
    // 新增服务商（无 _path）+ 空 secret → 直接存提交值；已有 aliyun 掩码按 name fallback 还原
    let body = vec![submitted(
        "demo",
        None,
        vec![
            ("aliyun", None, provider("cn-shenzhen", Some(SECRET_MASK))),
            ("tencent", None, provider("ap-guangzhou", Some(""))),
        ],
    )];
    let (projects, _) = save_config(body, stored_notify(), &stored(), &stored_notify()).unwrap();
    assert_eq!(projects[0].providers.keys(), vec!["aliyun", "tencent"]);
    assert_eq!(secret_of(&projects, 0, "aliyun").as_deref(), Some("real-secret"));
    assert_eq!(secret_of(&projects, 0, "tencent").as_deref(), Some(""));
}

#[test]
fn test_config_stray_mask_not_written() {
    // 异常情况：_path 定位不到原值但提交了掩码 → 保守处理，绝不写掩码字面量
    let body = vec![submitted("ghost", Some("9"), vec![("aliyun", None, provider("cn-shenzhen", Some(SECRET_MASK)))])];
    let (projects, _) = save_config(body, notify("none", ""), &stored(), &stored_notify()).unwrap();
    assert_eq!(secret_of(&projects, 0, "aliyun"), None);
}

#[test]
fn provider_paths_have_to_match() {
    let mask = || provider("r", Some(SECRET_MASK));
    for (path, want) in [
        ("0/aliyun", Some("real-secret")),
        ("+0/aliyun", Some("real-secret")),
        ("0/tencent", None),
        ("1/aliyun", None),
        ("aliyun", None),
        ("x/aliyun", None),
    ] {
        let body = vec![submitted("demo", None, vec![("aliyun", Some(path), mask())])];
        let (projects, _) = save_config(body, stored_notify(), &stored(), &stored_notify()).unwrap();
        assert_eq!(secret_of(&projects, 0, "aliyun").as_deref(), want, "{path}");
    }
}

#[test]
fn test_config_duplicate_project_name_rejected() {
    let body = vec![submitted("demo", None, vec![]), submitted("demo", None, vec![])];
    let e = save_config(body, notify("", ""), &stored(), &stored_notify()).unwrap_err();
    assert_eq!(e.message(), "项目名重复: demo", "重复项目名应被拒绝");
}

#[test]
fn test_config_post_invalid_rejected() {
    let e = save_config(vec![], notify("none", ""), &stored(), &stored_notify()).unwrap_err();
    assert_eq!(e.message(), "校验失败: 没有配置任何项目（需要至少一个项目条目）");
    let body = vec![submitted("", None, vec![])];
    let e = save_config(body, notify("none", ""), &stored(), &stored_notify()).unwrap_err();
    assert_eq!(e.message(), "校验失败: 项目名不能为空");
    assert!(Config::from_str(Ok(vec![]), None).is_err());
}

#[test]
fn notify_mask_keeps_the_stored_secret() {
    let mut old = stored_notify();
    old.dingtalk.secret = s("robot");
    let mut new = stored_notify();
    new.dingtalk.secret = s(SECRET_MASK);
    let body = vec![submitted("p", None, vec![])];
    let (_, n) = save_config(body, new, &vec![], &old).unwrap();
    assert_eq!(n.dingtalk.secret, "robot");
}

#[test]
fn test_save_raw_empty_notify_removes_file() {
    let raw = |t: Option<&str>| RawPayload { project_yml: s("- name: demo\n"), notify_yml: t.map(s) };
    assert_eq!(raw(Some("")).notify_text(), None);
    assert_eq!(raw(Some(" \n\t")).notify_text(), None);
    assert_eq!(raw(None).notify_text(), None);
    assert_eq!(raw(Some(" kind: none\n")).notify_text(), Some(" kind: none\n"));
}

#[test]
fn test_build_args() {
    let args = build_args("/cfg", Some("demo"), Some("aliyun"), "snapshot", &["--keep".into(), "2".into()]);
    assert_eq!(args, vec![
        "--config".to_string(), "/cfg".to_string(), "--log".to_string(), "info".to_string(),
        "--project".to_string(), "demo".to_string(), "--provider".to_string(), "aliyun".to_string(),
        "snapshot".to_string(), "--keep".to_string(), "2".to_string(),
    ]);
    let args2 = build_args("/cfg", None, None, "projects", &[]);
    assert_eq!(args2, vec![
        "--config".to_string(), "/cfg".to_string(), "--log".to_string(), "info".to_string(),
        "projects".to_string(),
    ]);
}

fn spec(command: &str, extra: &[&str]) -> CommandSpec {
    CommandSpec { command: s(command), project: None, provider: None, extra: extra.iter().map(|x| s(x)).collect() }
}

#[test]
fn commands_have_default_arguments() {
    assert!(validate_spec(&spec("projects", &["--x"])).unwrap().is_empty());
    assert_eq!(validate_spec(&spec("snapshot", &[])).unwrap(), vec!["--keep", "2"]);
    assert_eq!(validate_spec(&spec("snapshot", &["--keep", "3"])).unwrap(), vec!["--keep", "3"]);
    assert_eq!(validate_spec(&spec("expiry", &[])).unwrap(), vec!["--days", "30,15,3"]);
    assert_eq!(validate_spec(&spec("disk", &[])).unwrap(), vec!["--threshold", "90"]);
    assert_eq!(
        validate_spec(&spec("serve", &[])).unwrap_err().message(),
        "未知命令: \"serve\"（支持: projects | snapshot | expiry | disk）"
    );
}

#[test]
fn test_queue_state_machine() {
    let mut store = TaskStore::new(vec![]);
    let meta = store.submit(&spec("projects", &[]), "/cfg").unwrap();
    assert_eq!(meta.status, "queued");
    assert_eq!(meta.output_file, format!("tasks/{}.log", meta.id));
    assert!(chrono::DateTime::parse_from_rfc3339(&meta.submitted_at).is_ok());
    let second = store.submit_as(&spec("disk", &[]), "/cfg", s("b"), s("now")).unwrap();
    assert_eq!(second.args.last().map(|x| x.as_str()), Some("90"));
    assert!(store.submit(&spec("rm", &[]), "/cfg").is_err());

    let running = store.run_next_if_idle().unwrap();
    assert_eq!(running.id, meta.id);
    assert_eq!(store.current().unwrap().status, "queued");
    store.mark_running();
    assert_eq!(store.current().unwrap().status, "running");
    let done = store.finish(&running, Some(0), 7);
    assert_eq!(done.status, "success");
    assert!(store.current().is_none());

    let running = store.run_next_if_idle().unwrap();
    assert_eq!(running.id, "b");
    store.mark_running();
    assert_eq!(store.finish(&running, None, 1).status, "failed");
    assert!(store.run_next_if_idle().is_none());

    let hist = store.list();
    assert_eq!(hist.len(), 2);
    assert_eq!((hist[0].status.as_str(), hist[1].status.as_str()), ("success", "failed"));
    assert_eq!(hist[0].id, meta.id);
    assert!(hist[0].duration_secs.is_some(), "应记录耗时");
    assert_eq!(hist[1].exit_code, None);
}

#[test]
fn events_of_the_stream() {
    match stream_event(&status_line("running")) {
        (StreamEvent::Status(st), last) => assert_eq!((st.as_str(), last), ("running", false)),
        _ => panic!("status"),
    }
    match stream_event("__status__ failed") {
        (StreamEvent::Status(st), last) => assert_eq!((st.as_str(), last), ("failed", true)),
        _ => panic!("status"),
    }
    match stream_event("hello") {
        (StreamEvent::Line(l), last) => assert_eq!((l.as_str(), last), ("hello", false)),
        _ => panic!("line"),
    }
}

#[test]
fn endings_of_a_task() {
    let e = RunEnding::Exited(Some(0));
    assert_eq!((e.exit_code(), e.error(), e.closing_lines()), (Some(0), None, vec![s("__status__ success")]));
    let e = RunEnding::Exited(None);
    assert_eq!((e.exit_code(), e.closing_lines()), (None, vec![s("__status__ failed")]));
    let e = RunEnding::NotAwaited;
    assert_eq!((e.exit_code(), e.error()), (Some(-1), None));
    let e = RunEnding::NotStarted(s("x"));
    assert_eq!(e.closing_lines(), vec!["启动子进程失败: x", "__status__ failed"]);
    assert_eq!(RunEnding::NoOutputFile(s("x")).error().unwrap(), "无法创建输出文件: x");
    assert_eq!(RunEnding::NoProgram(s("x")).error().unwrap(), "无法定位自身可执行文件: x");
    for e in [RunEnding::NotAwaited, RunEnding::NoProgram(s("x")), RunEnding::Exited(Some(3))] {
        assert!(stream_event(e.closing_lines().last().unwrap()).1);
    }
}

#[test]
fn an_unchanged_form_changes_nothing() {
    let mut projects = stored();
    let mut more = ProviderMap::new();
    more.insert(s("tencent"), provider("r", Some("")));
    more.insert(s("aws"), provider("r2", Some("aws-secret")));
    projects.push(Project { name: s("zwei"), description: Some(s("d")), providers: more });
    let (shown, n) = get_config(&projects, &stored_notify());
    let body: Vec<SubmittedProject> = shown.into_iter().map(send_back).collect();
    let (after, _) = save_config(body, n, &projects, &stored_notify()).unwrap();
    assert_eq!(after.len(), 2);
    assert_eq!(secret_of(&after, 0, "aliyun").as_deref(), Some("real-secret"));
    assert_eq!(secret_of(&after, 1, "aws").as_deref(), Some("aws-secret"));
    assert_eq!(secret_of(&after, 1, "tencent"), None);
    assert_eq!(after[1].description.as_deref(), Some("d"));
    assert_eq!(after[1].providers.keys(), vec!["aws", "tencent"]);
}

#[test]
fn a_kind_with_a_slash_is_not_found_again() {
    let mut providers = ProviderMap::new();
    providers.insert(s("a/b"), provider("r", Some("x")));
    let projects = vec![Project { name: s("p"), description: None, providers }];
    let (shown, n) = get_config(&projects, &stored_notify());
    assert_eq!(shown[0].providers[0].path, "0/a/b");
    let body: Vec<SubmittedProject> = shown.into_iter().map(send_back).collect();
    let (after, _) = save_config(body, n, &projects, &stored_notify()).unwrap();
    assert_eq!(secret_of(&after, 0, "a/b"), None);
}

#[test]
fn latecomers_see_the_last_lines() {
    let text: String = (0..250).map(|i| format!("line {i}\r\n")).collect();
    let v = opening(&text, Some("running"));
    assert_eq!(v.len(), 201);
    match &v[0] {
        StreamEvent::Line(l) => assert_eq!(l, "line 50"),
        _ => panic!("line"),
    }
    match &v[200] {
        StreamEvent::Status(st) => assert_eq!(st, "running"),
        _ => panic!("status"),
    }
    assert!(opening("", None).is_empty());
    assert_eq!(opening("a\nb", None).len(), 2);
}
