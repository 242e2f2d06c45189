use ops_console::config::{
    Config, DingTalkConfig, EnvOverrides, NotifyConfig, Project, ProviderConfig, ProviderMap,
    ServeConfig, default_region,
};
use serde_yaml::Value;

fn text_at(v: &Value, key: &str) -> Option<String> {
    v.get(key).and_then(|x| x.as_str()).map(|s| s.to_string())
}

fn provider_from(v: &Value) -> ProviderConfig {
    ProviderConfig {
        region: text_at(v, "region").unwrap_or_else(default_region),
        access_key_id: text_at(v, "access_key_id"),
        access_key_secret: text_at(v, "access_key_secret"),
    }
}

fn project_from(v: &Value) -> Result<Project, String> {
    let name = text_at(v, "name").ok_or_else(|| "missing field `name`".to_string())?;
    let mut providers = ProviderMap::new();
    if let Some(m) = v.get("providers").and_then(|p| p.as_mapping()) {
        for (k, p) in m {
            providers.insert(k.as_str().unwrap().to_string(), provider_from(p));
        }
    }
    Ok(Project { name, description: text_at(v, "description"), providers })
}

fn projects_from(yaml: &str) -> Result<Vec<Project>, String> {
    let v: Value = serde_yaml::from_str(yaml).map_err(|e| e.to_string())?;
    match v {
        Value::Null => Ok(Vec::new()),
        Value::Sequence(s) => s.iter().map(project_from).collect(),
        _ => Err("invalid type: expected a sequence".to_string()),
    }
}

fn text_value(s: &str) -> Value {
    Value::String(s.to_string())
}

fn opt_value(s: &Option<String>) -> Value {
    match s {
        Some(t) => text_value(t),
        None => Value::Null,
    }
}

fn project_value(p: &Project) -> Value {
    let mut providers = serde_yaml::Mapping::new();
    for e in &p.providers.entries {
        let mut m = serde_yaml::Mapping::new();
        m.insert(text_value("region"), text_value(&e.config.region));
        m.insert(text_value("access_key_id"), opt_value(&e.config.access_key_id));
        m.insert(text_value("access_key_secret"), opt_value(&e.config.access_key_secret));
        providers.insert(text_value(&e.kind), Value::Mapping(m));
    }
    let mut m = serde_yaml::Mapping::new();
    m.insert(text_value("name"), text_value(&p.name));
    m.insert(text_value("description"), opt_value(&p.description));
    m.insert(text_value("providers"), Value::Mapping(providers));
    Value::Mapping(m)
}

fn load(yaml: &str) -> Result<Config, ops_console::error::OpsError> {
    Config::from_str(projects_from(yaml), None)
}

fn no_env() -> EnvOverrides {
    EnvOverrides { access_key_id: None, access_key_secret: None, webhook: None, secret: None }
}

fn project(name: &str, kinds: &[&str]) -> Project {
    let mut providers = ProviderMap::new();
    for k in kinds {
        providers.insert(k.to_string(), ProviderConfig::default());
    }
    Project { name: name.to_string(), description: None, providers }
}

#[test]
fn test_from_str_ok() {
    let cfg = load("- name: demo\n  providers:\n    aliyun:\n      region: cn-shenzhen\n").unwrap();
    assert_eq!(cfg.projects.len(), 1);
    assert_eq!(cfg.projects[0].name, "demo");
}

#[test]
fn test_region_default_global() {
    let cfg = load("- name: demo\n  providers:\n    aliyun:\n      access_key_id: AKID\n").unwrap();
    assert_eq!(cfg.projects[0].providers.get("aliyun").unwrap().region, "global");
}

#[test]
fn test_from_str_empty_rejected() {
    let err = load("# 空文件\n").unwrap_err();
    assert!(err.message().contains("至少一个项目"));
}

#[test]
fn test_from_str_bad_yaml_rejected() {
    assert!(load(":: not yaml ::").is_err());
}

#[test]
fn test_project_yaml_roundtrip() {
    let src = "- name: demo\n  description: 示例\n  providers:\n    aliyun:\n      region: cn-shenzhen\n      access_key_id: AKID\n";
    let cfg = load(src).unwrap();
    let yaml = serde_yaml::to_string(&Value::Sequence(cfg.projects.iter().map(project_value).collect())).unwrap();
    let back = load(&yaml).unwrap();
    assert_eq!(back.projects[0].name, "demo");
    assert_eq!(back.projects[0].description.as_deref(), Some("示例"));
    assert_eq!(back.projects[0].providers.get("aliyun").unwrap().region, "cn-shenzhen");
    assert_eq!(back.projects[0].providers.get("aliyun").unwrap().access_key_id.as_deref(), Some("AKID"));
}

#[test]
fn test_serve_config_create_and_reuse() {
    let (first, first_generated) = ServeConfig::load_or_create(None);
    assert!(!first.token.is_empty());
    let (second, second_generated) = ServeConfig::load_or_create(Some(ServeConfig { token: first.token.clone() }));
    assert!(first_generated, "首次调用应生成 token");
    assert!(!second_generated, "已存在的 serve.yml 不应再生成");
    assert_eq!(first.token, second.token, "已存在的 serve.yml 应复用 token");
}

#[test]
fn test_serve_config_empty_token_regenerated() {
    let (cfg, generated) = ServeConfig::load_or_create(Some(ServeConfig { token: String::new() }));
    assert!(generated);
    assert!(!cfg.token.is_empty());
    assert_eq!(cfg.token.len(), 32);
    assert!(cfg.token.chars().all(|c| c.is_ascii_hexdigit() && !c.is_ascii_uppercase()));
    let (other, _) = ServeConfig::load_or_create(None);
    assert_ne!(cfg.token, other.token);
}

#[test]
fn test_load_env_webhook_infers_dingtalk_kind() {
    let mut cfg = load("- name: demo\n  providers:\n    aliyun:\n      region: cn-shenzhen\n").unwrap();
    assert_eq!(cfg.notify.kind, "");
    let env = EnvOverrides {
        webhook: Some("https://oapi.dingtalk.com/robot/send?access_token=test".to_string()),
        ..no_env()
    };
    cfg.apply_env_overrides(&env);
    assert_eq!(
        cfg.notify.kind, "dingtalk",
        "仅 env 提供 webhook 时应推断 kind=dingtalk（纯 env 通知场景）"
    );
}

#[test]
fn env_overrides_every_aliyun_provider_and_nothing_else() {
    let mut cfg = Config {
        projects: vec![project("a", &["aliyun", "tencent"]), project("b", &["aliyun"])],
        notify: NotifyConfig::default(),
    };
    let env = EnvOverrides {
        access_key_id: Some("AK".to_string()),
        access_key_secret: Some(String::new()),
        webhook: None,
        secret: Some("S".to_string()),
    };
    cfg.apply_env_overrides(&env);
    for p in &cfg.projects {
        assert_eq!(p.providers.get("aliyun").unwrap().access_key_id.as_deref(), Some("AK"));
        assert_eq!(p.providers.get("aliyun").unwrap().access_key_secret, None);
    }
    assert_eq!(cfg.projects[0].providers.get("tencent").unwrap().access_key_id, None);
    assert_eq!(cfg.notify.dingtalk.secret, "S");
    assert_eq!(cfg.notify.dingtalk.webhook, "");
    assert_eq!(cfg.notify.kind, "");
}

#[test]
fn webhook_without_kind_means_dingtalk() {
    let notify = NotifyConfig {
        kind: String::new(),
        prefix: String::new(),
        dingtalk: DingTalkConfig { webhook: "https://x".to_string(), secret: String::new() },
    };
    let cfg = Config::from_str(Ok(vec![project("a", &[])]), Some(Ok(notify))).unwrap();
    assert_eq!(cfg.notify.kind, "dingtalk");
}

#[test]
fn rejections_say_what_is_wrong() {
    let e = Config::from_str(Err("line 1".to_string()), None).unwrap_err();
    assert_eq!(e.message(), "解析项目配置失败: line 1");
    let e = Config::from_str(Ok(vec![project("a", &[])]), Some(Err("line 2".to_string()))).unwrap_err();
    assert_eq!(e.message(), "解析通知配置失败: line 2");
    let e = Config::from_str(Ok(vec![project("a", &[]), project("", &[])]), None).unwrap_err();
    assert_eq!(e.message(), "项目名不能为空");
    let e = Config::from_str(Ok(vec![]), None).unwrap_err();
    assert_eq!(e.message(), "没有配置任何项目（需要至少一个项目条目）");
}

#[test]
fn providers_are_kept_in_order_and_replaced() {
    let mut m = ProviderMap::new();
    for k in ["tencent", "aliyun", "aws", "腾讯", "Zed"] {
        m.insert(k.to_string(), ProviderConfig::default());
    }
    m.insert(
        "aws".to_string(),
        ProviderConfig { region: "r".to_string(), access_key_id: None, access_key_secret: None },
    );
    assert_eq!(m.keys(), vec!["Zed", "aliyun", "aws", "tencent", "腾讯"]);
    assert_eq!(m.get("aws").unwrap().region, "r");
    assert!(m.get("azure").is_none());
    assert!(m.contains_key("腾讯"));
    assert!(!m.contains_key("腾"));
}

#[test]
fn provider_and_project_lookups() {
    let cfg = Config {
        projects: vec![project("demo", &["tencent", "aliyun"]), project("prod", &[])],
        notify: NotifyConfig::default(),
    };
    assert!(cfg.provider(&cfg.projects[0], "aliyun").is_ok());
    let e = cfg.provider(&cfg.projects[0], "a\"ws").unwrap_err();
    assert_eq!(e.message(), "项目 demo 未配置服务商 \"a\\\"ws\"（可用: aliyun, tencent）");
    assert_eq!(cfg.select_project(None).unwrap().name, "demo");
    assert_eq!(cfg.select_project(Some("prod")).unwrap().name, "prod");
    let e = cfg.select_project(Some("x")).unwrap_err();
    assert_eq!(e.message(), "未找到项目 \"x\"（可用: demo, prod）");
}

#[test]
fn aliyun_credentials_ask_for_the_key_first() {
    let mut c = ProviderConfig::default();
    assert!(c.aliyun_credentials().unwrap_err().message().contains("AccessKeyId"));
    c.access_key_id = Some(String::new());
    assert!(c.aliyun_credentials().unwrap_err().message().contains("AccessKeyId"));
    c.access_key_id = Some("ID".to_string());
    assert_eq!(
        c.aliyun_credentials().unwrap_err().message(),
        "缺少阿里云 AccessKeySecret：请填写 project.yml 或设置环境变量 ALIYUN_ACCESS_KEY_SECRET"
    );
    c.access_key_secret = Some("S".to_string());
    assert_eq!(c.aliyun_credentials().unwrap(), ("ID".to_string(), "S".to_string()));
}

#[test]
fn the_environment_applies_once() {
    let start = || Config { projects: vec![project("a", &["aliyun", "tencent"])], notify: NotifyConfig::default() };
    let env = EnvOverrides {
        access_key_id: Some("AK".to_string()),
        webhook: Some("https://w".to_string()),
        ..no_env()
    };
    let mut once = start();
    once.apply_env_overrides(&env);
    let mut twice = start();
    twice.apply_env_overrides(&env);
    twice.apply_env_overrides(&env);
    assert_eq!(format!("{once:?}"), format!("{twice:?}"));
    let mut silent = start();
    silent.apply_env_overrides(&no_env());
    assert_eq!(format!("{silent:?}"), format!("{:?}", start()));
}
