//! The configuration: finding projects and providers, the environment, credentials and channels.

use vstd::prelude::*;
use crate::cli;
use crate::cloud::aliyun::driver::AliyunDriver;
use crate::cloud::driver;
use crate::cloud::driver::{Command, Driver, ProviderDriver};
use crate::codec;
use crate::config;
use crate::config::{ConfigView, EntryView, EnvView, NotifyView, ProjectView, ProviderView};
use crate::text;

verus! {

/// The project of a name is the first that has it.
pub proof fn law_first_of_a_name(projects: Seq<ProjectView>, name: Seq<char>, k: int)
    requires
        0 <= k <= projects.len(),
        forall|j: int| 0 <= j < k ==> (#[trigger] projects[j]).name != name,
        k < projects.len() ==> projects[k].name == name,
    ensures
        config::first_named(projects, name) == if k < projects.len() {
            Some(projects[k])
        } else {
            None
        },
    decreases projects.len(),
{
    if projects.len() > 0 && k > 0 {
        assert(projects[0].name != name);
        let rest = projects.drop_first();
        assert forall|j: int| 0 <= j < k - 1 implies (#[trigger] rest[j]).name != name by {
            assert(projects[j + 1].name != name);
        }
        law_first_of_a_name(rest, name, k - 1);
    }
}

/// The configuration of a kind is that of the first provider that has it.
pub proof fn law_first_of_a_kind(entries: Seq<EntryView>, kind: Seq<char>, k: int)
    requires
        0 <= k <= entries.len(),
        forall|j: int| 0 <= j < k ==> (#[trigger] entries[j]).kind != kind,
        k < entries.len() ==> entries[k].kind == kind,
    ensures
        config::entry_of(entries, kind) == if k < entries.len() {
            Some(entries[k].config)
        } else {
            None
        },
    decreases entries.len(),
{
    if entries.len() > 0 && k > 0 {
        assert(entries[0].kind != kind);
        let rest = entries.drop_first();
        assert forall|j: int| 0 <= j < k - 1 implies (#[trigger] rest[j]).kind != kind by {
            assert(entries[j + 1].kind != kind);
        }
        law_first_of_a_kind(rest, kind, k - 1);
    }
}

/// What the environment says, where that is not empty, else what was there.
pub open spec fn said(env: Option<Seq<char>>, stored: Option<Seq<char>>) -> Option<Seq<char>> {
    match env {
        Some(v) => if v.len() > 0 {
            env
        } else {
            stored
        },
        None => stored,
    }
}

/// The environment gives the credentials of every provider of Alibaba Cloud in every project, the
/// webhook and the signing secret, each where it says something; all else stays as it is. A webhook
/// without a kind of channel makes it DingTalk.
pub proof fn law_what_the_environment_gives(c: ConfigView, env: EnvView)
    ensures
        ({
            let r = config::with_env(c, env);
            &&& r.projects.len() == c.projects.len()
            &&& forall|i: int|
                0 <= i < c.projects.len() ==> (#[trigger] r.projects[i]).name == c.projects[i].name
                    && r.projects[i].description == c.projects[i].description
                    && r.projects[i].providers.len() == c.projects[i].providers.len()
            &&& forall|i: int, k: int|
                0 <= i < c.projects.len() && 0 <= k < c.projects[i].providers.len() ==> {
                    let e = c.projects[i].providers[k];
                    let x = #[trigger] r.projects[i].providers[k];
                    &&& x.kind == e.kind
                    &&& x.config.region == e.config.region
                    &&& e.kind == "aliyun"@ ==> x.config.access_key_id == said(
                        env.access_key_id,
                        e.config.access_key_id,
                    ) && x.config.access_key_secret == said(
                        env.access_key_secret,
                        e.config.access_key_secret,
                    )
                    &&& e.kind != "aliyun"@ ==> x == e
                }
            &&& r.notify.prefix == c.notify.prefix
            &&& Some(r.notify.dingtalk.webhook) == said(env.webhook, Some(c.notify.dingtalk.webhook))
            &&& Some(r.notify.dingtalk.secret) == said(env.secret, Some(c.notify.dingtalk.secret))
            &&& r.notify.kind == if c.notify.kind.len() == 0 && r.notify.dingtalk.webhook.len() > 0 {
                "dingtalk"@
            } else {
                c.notify.kind
            }
        }),
{
}

/// A configuration is accepted just where the projects could be read, there is one, each has a name,
/// and the channel could be read where there is a file for it. It is then as it was read, but that a
/// webhook without a kind means DingTalk. What is told of a refusal names what is wrong.
pub proof fn law_accepted_configurations(
    projects: Result<Seq<ProjectView>, Seq<char>>,
    notify: Option<Result<NotifyView, Seq<char>>>,
)
    ensures
        ({
            let r = config::checked(projects, notify);
            match projects {
                Err(e) => r == Err::<ConfigView, Seq<char>>("解析项目配置失败: "@ + e),
                Ok(p) => if p.len() == 0 {
                    r == Err::<ConfigView, Seq<char>>("没有配置任何项目（需要至少一个项目条目）"@)
                } else if exists|i: int| 0 <= i < p.len() && (#[trigger] p[i]).name.len() == 0 {
                    r == Err::<ConfigView, Seq<char>>("项目名不能为空"@)
                } else {
                    match notify {
                        Some(Err(e)) => r == Err::<ConfigView, Seq<char>>("解析通知配置失败: "@ + e),
                        Some(Ok(n)) => r matches Ok(c) && c.projects == p && c.notify.prefix == n.prefix
                            && c.notify.dingtalk == n.dingtalk && c.notify.kind == (if n.kind.len()
                            == 0 && n.dingtalk.webhook.len() > 0 {
                            "dingtalk"@
                        } else {
                            n.kind
                        }),
                        None => r matches Ok(c) && c.projects == p && c.notify.kind.len() == 0
                            && c.notify.prefix.len() == 0 && c.notify.dingtalk.webhook.len() == 0
                            && c.notify.dingtalk.secret.len() == 0,
                    }
                },
            }
        }),
{
    if let Ok(p) = projects {
        if !config::all_named(p) {
            let i = choose|i: int| 0 <= i < p.len() && !((#[trigger] p[i]).name.len() > 0);
            assert(p[i].name.len() == 0);
        }
    }
}

/// A text counts as given where it is there and not empty.
pub proof fn law_given(v: Option<Seq<char>>)
    ensures
        config::given(v) <==> (v matches Some(s) && s.len() > 0),
{
}

/// What is told where a project or a provider is not there: what was asked for, and what there is, in
/// order.
pub proof fn law_what_is_missing(projects: Seq<ProjectView>, project: ProjectView, name: Seq<char>)
    ensures
        config::no_such_project(projects, name) == "未找到项目 "@ + codec::debug_text(name) + "（可用: "@
            + text::join(Seq::new(projects.len(), |i: int| projects[i].name), ", "@) + "）"@,
        config::not_configured(project, name) == "项目 "@ + project.name + " 未配置服务商 "@
            + codec::debug_text(name) + "（可用: "@ + text::join(
            Seq::new(project.providers.len(), |i: int| project.providers[i].kind),
            ", "@,
        ) + "）"@,
{
    assert(config::project_names(projects) =~= Seq::new(projects.len(), |i: int| projects[i].name));
    assert(config::kinds_of(project.providers) =~= Seq::new(
        project.providers.len(),
        |i: int| project.providers[i].kind,
    ));
}

// ---------------------------------------------------------------------------
// Drivers
// ---------------------------------------------------------------------------

/// There is one driver, of the kind `aliyun`, which has all commands.
pub proof fn law_the_driver(kind: Seq<char>)
    ensures
        driver::driver_of(kind) == if kind == "aliyun"@ {
            Some(Driver::Aliyun(AliyunDriver))
        } else {
            None
        },
        driver::registered_kinds() == seq!["aliyun"@],
        Driver::Aliyun(AliyunDriver).supported() == seq![
            Command::Snapshot,
            Command::Expiry,
            Command::ExpiryDomain,
            Command::Disk,
            Command::EcsAutosnapshot,
            Command::EcsExpiry,
        ],
{
    let d = Driver::Aliyun(AliyunDriver);
    let list = driver::registered();
    assert(list[0] == d);
    assert(list.drop_first() =~= Seq::<Driver>::empty());
    assert(driver::driver_in(list.drop_first(), kind) is None);
    assert(driver::registered_kinds() =~= seq!["aliyun"@]);
}

/// The drivers of a list of kinds, and the kinds without one.
proof fn lemma_drivers_of(
    kinds: Seq<Seq<char>>,
    known: spec_fn(Seq<char>) -> bool,
    unknown: spec_fn(Seq<char>) -> bool,
)
    requires
        forall|k: Seq<char>| #[trigger] known(k) == (k == "aliyun"@),
        forall|k: Seq<char>| #[trigger] unknown(k) == (k != "aliyun"@),
    ensures
        cli::drivers_of(kinds).len() == kinds.filter(known).len(),
        forall|i: int|
            0 <= i < cli::drivers_of(kinds).len() ==> #[trigger] cli::drivers_of(kinds)[i]
                == Driver::Aliyun(AliyunDriver),
        cli::unknown_kinds(kinds) == kinds.filter(unknown),
    decreases kinds.len(),
{
    reveal(Seq::filter);
    if kinds.len() > 0 {
        lemma_drivers_of(kinds.drop_last(), known, unknown);
        law_the_driver(kinds.last());
    } else {
        assert(cli::unknown_kinds(kinds) =~= kinds.filter(unknown));
    }
}

/// What a command is run with in a project: where a kind is asked for, its driver, which has to exist
/// and to be configured, else it fails and tells why; where none is, a driver for each configured kind
/// that has one, and the others are passed over, each with a notice.
pub proof fn law_drivers_of_a_project(p: ProjectView, kind: Seq<char>)
    ensures
        ({
            let kinds = Seq::new(p.providers.len(), |i: int| p.providers[i].kind);
            let asked = cli::project_drivers(p, Some(kind));
            let all = cli::project_drivers(p, None);
            &&& kind != "aliyun"@ ==> asked == Err::<Seq<Driver>, Seq<char>>(
                "服务商 "@ + codec::debug_text(kind) + " 尚未实现（目前仅支持: "@ + "aliyun"@ + "）"@,
            )
            &&& kind == "aliyun"@ && kinds.contains(kind) ==> asked == Ok::<Seq<Driver>, Seq<char>>(
                seq![Driver::Aliyun(AliyunDriver)],
            )
            &&& kind == "aliyun"@ && !kinds.contains(kind) ==> asked == Err::<Seq<Driver>, Seq<char>>(
                config::not_configured(p, kind),
            )
            &&& all matches Ok(list) && list.len() == kinds.filter(|k: Seq<char>| k == "aliyun"@).len()
                && forall|i: int|
                0 <= i < list.len() ==> #[trigger] list[i] == Driver::Aliyun(AliyunDriver)
            &&& cli::unknown_kinds(kinds) == kinds.filter(|k: Seq<char>| k != "aliyun"@)
            &&& cli::skipped_notice(kind) == "  跳过未实现的服务商: "@ + kind + "（当前仅支持: "@ + "aliyun"@
                + "）"@
        }),
{
    let kinds = config::kinds_of(p.providers);
    assert(kinds =~= Seq::new(p.providers.len(), |i: int| p.providers[i].kind));
    law_the_driver(kind);
    lemma_drivers_of(kinds, |k: Seq<char>| k == "aliyun"@, |k: Seq<char>| k != "aliyun"@);
    assert(text::join(seq!["aliyun"@], ", "@) == "aliyun"@);
}

// ---------------------------------------------------------------------------
// The command line
// ---------------------------------------------------------------------------

/// Thresholds are read piece by piece between the commas: white space around a piece does not count,
/// a blank one is passed over, a number comes behind those before it, and what is no number that fits
/// is told of, the first such. There has to be one.
pub proof fn law_reading_thresholds(days: Seq<char>, pieces: Seq<Seq<char>>, p: Seq<char>)
    ensures
        cli::piece_numbers(Seq::empty()) == Ok::<Seq<i64>, Seq<char>>(Seq::empty()),
        cli::piece_numbers(pieces.push(p)) == (match cli::piece_numbers(pieces) {
            Err(e) => Err(e),
            Ok(v) => if text::trim(p).len() == 0 {
                Ok(v)
            } else {
                match text::parse_int(text::trim(p)) {
                    Some(n) => if -0x8000_0000_0000_0000 <= n <= 0x7fff_ffff_ffff_ffff {
                        Ok(v.push(n as i64))
                    } else {
                        Err(text::trim(p))
                    },
                    None => Err(text::trim(p)),
                }
            },
        }),
        cli::thresholds_of(days) == (match cli::piece_numbers(text::split(days, ',')) {
            Err(e) => Err("--days 参数无效: "@ + codec::debug_text(e) + "（格式如 30,15,3）"@),
            Ok(v) => if v.len() > 0 {
                Ok(v)
            } else {
                Err("--days 至少需要一个阈值（如 30,15,3）"@)
            },
        }),
{
    assert(pieces.push(p).drop_last() =~= pieces);
}

/// The line for a project: its name, the kinds of its providers in order and what it is, the first two
/// filled up to 20 and 24 characters.
pub proof fn law_line_of_a_project(p: ProjectView)
    ensures
        cli::project_line_text(p) == text::pad_right(p.name, 20) + " providers: "@ + text::pad_right(
            text::join(Seq::new(p.providers.len(), |i: int| p.providers[i].kind), ", "@),
            24,
        ) + " "@ + (match p.description {
            Some(d) => d,
            None => ""@,
        }),
{
    assert(config::kinds_of(p.providers) =~= Seq::new(
        p.providers.len(),
        |i: int| p.providers[i].kind,
    ));
}

/// What the files were read as is taken as it is.
pub proof fn law_files_as_read(
    projects: Result<Vec<config::Project>, String>,
    notify: Option<Result<config::NotifyConfig, String>>,
    c: Result<config::Config, crate::error::OpsError>,
)
    ensures
        config::read_projects(projects) == (match projects {
            Ok(v) => Ok::<Seq<ProjectView>, Seq<char>>(text::views(v@)),
            Err(e) => Err::<Seq<ProjectView>, Seq<char>>(e@),
        }),
        config::read_notify(notify) == (match notify {
            Some(Ok(n)) => Some(Ok::<NotifyView, Seq<char>>(n@)),
            Some(Err(e)) => Some(Err::<NotifyView, Seq<char>>(e@)),
            None => None,
        }),
        config::config_result(c) == (match c {
            Ok(x) => Ok::<ConfigView, Seq<char>>(x@),
            Err(e) => Err::<ConfigView, Seq<char>>(e.message@),
        }),
{
}

/// The configuration that is found under a kind, and nothing where there is none.
pub proof fn law_found_configurations(c: &config::ProviderConfig, entries: Seq<EntryView>, i: int)
    ensures
        config::opt_provider(Some(c)) == Some(c@),
        config::opt_provider(None) is None,
        config::kinds_of(entries).len() == entries.len(),
        0 <= i < entries.len() ==> config::kinds_of(entries)[i] == entries[i].kind,
        config::kinds_ascend(entries) <==> forall|a: int, b: int|
            0 <= a < b < entries.len() ==> text::text_le(
                (#[trigger] entries[a]).kind,
                (#[trigger] entries[b]).kind,
            ) && entries[a].kind != entries[b].kind,
{
}

/// What is told where credentials are missing names what is missing and where it can be given.
pub proof fn law_missing_credentials(kind: Seq<char>)
    ensures
        driver::no_key(kind) == "缺少 "@ + kind + " 凭据 AccessKeyId：请填写 project.yml 或设置环境变量"@,
        driver::no_secret(kind) == "缺少 "@ + kind
            + " 凭据 AccessKeySecret：请填写 project.yml 或设置环境变量"@,
        Driver::Aliyun(AliyunDriver).no_key_text()
            == "缺少阿里云 AccessKeyId：请填写 project.yml 或设置环境变量 ALIYUN_ACCESS_KEY_ID"@,
        Driver::Aliyun(AliyunDriver).no_secret_text()
            == "缺少阿里云 AccessKeySecret：请填写 project.yml 或设置环境变量 ALIYUN_ACCESS_KEY_SECRET"@,
        AliyunDriver.no_key_text() == Driver::Aliyun(AliyunDriver).no_key_text(),
        AliyunDriver.no_secret_text() == Driver::Aliyun(AliyunDriver).no_secret_text(),
        AliyunDriver.kind_text() == "aliyun"@,
        Driver::Aliyun(AliyunDriver).kind_text() == "aliyun"@,
        AliyunDriver.supported() == Driver::Aliyun(AliyunDriver).supported(),
{
}

/// Disks are gathered under their project and label, one by one; thresholds are written one by one.
pub proof fn law_gathering(
    project: Seq<char>,
    label: Seq<char>,
    list: Seq<crate::ops::disk::DiskView>,
    thresholds: Seq<i64>,
    i: int,
)
    ensures
        cli::labelled(project, label, list).len() == list.len(),
        0 <= i < list.len() ==> cli::labelled(project, label, list)[i] == (project, label, list[i]),
        crate::ops::expiry::threshold_texts(thresholds).len() == thresholds.len(),
        0 <= i < thresholds.len() ==> crate::ops::expiry::threshold_texts(thresholds)[i]
            == text::dec_int(thresholds[i] as int),
{
}

/// The disks of all regions are gathered region by region.
pub proof fn law_disks_of_all_regions(
    items: Seq<(Vec<crate::ops::disk::DiskStatus>, Vec<crate::ops::disk::DiskStatus>)>,
    i: int,
)
    ensures
        crate::cloud::aliyun::driver::over_lists(items).len() == items.len(),
        crate::cloud::aliyun::driver::missing_lists(items).len() == items.len(),
        0 <= i < items.len() ==> crate::cloud::aliyun::driver::over_lists(items)[i] == items[i].0
            && crate::cloud::aliyun::driver::missing_lists(items)[i] == items[i].1,
{
}

} // verus!
