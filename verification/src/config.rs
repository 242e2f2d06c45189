//! Configuration: projects with their providers, the notification channel, the access token.

use vstd::prelude::*;
use crate::codec;
use crate::error::OpsError;
use crate::text;

verus! {

/// The region that stands for all regions of the account.
pub const REGION_GLOBAL: &'static str = "global";

/// The provider whose credentials the environment can set.
pub const ALIYUN_KIND: &'static str = "aliyun";

/// The region of a provider that names none.
pub fn default_region() -> (r: String)
    ensures
        r@ == REGION_GLOBAL@,
{
    REGION_GLOBAL.to_owned()
}

// ---------------------------------------------------------------------------
// Providers
// ---------------------------------------------------------------------------

/// How to reach a provider.
#[derive(Debug)]
pub struct ProviderConfig {
    pub region: String,
    /// Empty or absent: taken from the environment.
    pub access_key_id: Option<String>,
    pub access_key_secret: Option<String>,
}

/// What a provider's configuration says.
pub struct ProviderView {
    pub region: Seq<char>,
    pub access_key_id: Option<Seq<char>>,
    pub access_key_secret: Option<Seq<char>>,
}

impl View for ProviderConfig {
    type V = ProviderView;

    open spec fn view(&self) -> ProviderView {
        ProviderView {
            region: self.region@,
            access_key_id: text::opt_view(self.access_key_id),
            access_key_secret: text::opt_view(self.access_key_secret),
        }
    }
}

impl Default for ProviderConfig {
    fn default() -> (r: ProviderConfig)
        ensures
            r@ == (ProviderView {
                region: Seq::empty(),
                access_key_id: None,
                access_key_secret: None,
            }),
    {
        ProviderConfig { region: String::new(), access_key_id: None, access_key_secret: None }
    }
}

/// A text that is there and not empty.
pub open spec fn given(v: Option<Seq<char>>) -> bool {
    v matches Some(s) && s.len() > 0
}

/// The string, if it is there and not empty.
fn given_string(v: &Option<String>) -> (r: Option<String>)
    ensures
        text::opt_view(r) == if given(text::opt_view(*v)) {
            text::opt_view(*v)
        } else {
            None
        },
{
    match v {
        Some(s) => if s.as_str().is_empty() {
            None
        } else {
            Some(s.clone())
        },
        None => None,
    }
}

impl ProviderConfig {
    /// The access key and its secret. Both have to be there, and the key is asked for first.
    pub fn aliyun_credentials(&self) -> (r: Result<(String, String), OpsError>)
        ensures
            match r {
                Ok(keys) => given(self@.access_key_id) && given(self@.access_key_secret) && Some(
                    keys.0@,
                ) == self@.access_key_id && Some(keys.1@) == self@.access_key_secret,
                Err(e) => if !given(self@.access_key_id) {
                    e@ == "缺少阿里云 AccessKeyId：请填写 project.yml 或设置环境变量 ALIYUN_ACCESS_KEY_ID"@
                } else {
                    &&& !given(self@.access_key_secret)
                    &&& e@
                        == "缺少阿里云 AccessKeySecret：请填写 project.yml 或设置环境变量 ALIYUN_ACCESS_KEY_SECRET"@
                },
            },
    {
        let id = match given_string(&self.access_key_id) {
            Some(s) => s,
            None => {
                return Err(
                    OpsError::new(
                        "缺少阿里云 AccessKeyId：请填写 project.yml 或设置环境变量 ALIYUN_ACCESS_KEY_ID".to_owned(),
                    ),
                );
            },
        };
        match given_string(&self.access_key_secret) {
            Some(secret) => Ok((id, secret)),
            None => Err(
                OpsError::new(
                    "缺少阿里云 AccessKeySecret：请填写 project.yml 或设置环境变量 ALIYUN_ACCESS_KEY_SECRET".to_owned(),
                ),
            ),
        }
    }
}

/// A provider under its kind.
#[derive(Debug)]
pub struct ProviderEntry {
    pub kind: String,
    pub config: ProviderConfig,
}

/// A kind with what its configuration says.
pub struct EntryView {
    pub kind: Seq<char>,
    pub config: ProviderView,
}

impl View for ProviderEntry {
    type V = EntryView;

    open spec fn view(&self) -> EntryView {
        EntryView { kind: self.kind@, config: self.config@ }
    }
}

/// The providers of a project by kind, in ascending order of the kinds.
#[derive(Debug)]
pub struct ProviderMap {
    pub entries: Vec<ProviderEntry>,
}

/// The configuration under the kind.
pub open spec fn entry_of(entries: Seq<EntryView>, kind: Seq<char>) -> Option<ProviderView>
    decreases entries.len(),
{
    if entries.len() == 0 {
        None
    } else if entries[0].kind == kind {
        Some(entries[0].config)
    } else {
        entry_of(entries.drop_first(), kind)
    }
}

/// The kinds.
pub open spec fn kinds_of(entries: Seq<EntryView>) -> Seq<Seq<char>> {
    Seq::new(entries.len(), |i: int| entries[i].kind)
}

/// Whether each kind comes before the next, and none occurs twice.
pub open spec fn kinds_ascend(entries: Seq<EntryView>) -> bool {
    forall|i: int, j: int|
        0 <= i < j < entries.len() ==> text::text_le(
            (#[trigger] entries[i]).kind,
            (#[trigger] entries[j]).kind,
        ) && entries[i].kind != entries[j].kind
}

/// Where a kind is found, and that it is found where it stands.
pub proof fn lemma_entry_of(entries: Seq<EntryView>, kind: Seq<char>)
    ensures
        entry_of(entries, kind) is Some <==> kinds_of(entries).contains(kind),
        entry_of(entries, kind) matches Some(c) ==> exists|i: int|
            0 <= i < entries.len() && (#[trigger] entries[i]) == (EntryView { kind, config: c }),
    decreases entries.len(),
{
    if entries.len() > 0 {
        let rest = entries.drop_first();
        lemma_entry_of(rest, kind);
        if entries[0].kind == kind {
            assert(kinds_of(entries)[0] == kind);
            assert(entries[0] == (EntryView { kind, config: entries[0].config }));
        } else {
            if kinds_of(entries).contains(kind) {
                let i = choose|i: int| 0 <= i < entries.len() && kinds_of(entries)[i] == kind;
                assert(kinds_of(rest)[i - 1] == kind);
            }
            if entry_of(rest, kind) is Some {
                let c = entry_of(rest, kind)->0;
                let i = choose|i: int|
                    0 <= i < rest.len() && (#[trigger] rest[i]) == (EntryView { kind, config: c });
                assert(entries[i + 1] == (EntryView { kind, config: c }));
                assert(kinds_of(entries)[i + 1] == kind);
            }
        }
    }
}

/// In ascending kinds each entry is the one of its kind.
pub proof fn lemma_entry_at(entries: Seq<EntryView>, i: int)
    requires
        0 <= i < entries.len(),
        forall|a: int, b: int|
            0 <= a < b < entries.len() ==> (#[trigger] entries[a]).kind != (
            #[trigger] entries[b]).kind,
    ensures
        entry_of(entries, entries[i].kind) == Some(entries[i].config),
    decreases entries.len(),
{
    if i > 0 {
        assert(entries[0].kind != entries[i].kind);
        let rest = entries.drop_first();
        assert forall|a: int, b: int| 0 <= a < b < rest.len() implies (#[trigger] rest[a]).kind != (
        #[trigger] rest[b]).kind by {
            assert(entries[a + 1].kind != entries[b + 1].kind);
        }
        lemma_entry_at(rest, i - 1);
    }
}

impl View for ProviderMap {
    type V = Seq<EntryView>;

    open spec fn view(&self) -> Seq<EntryView> {
        text::views(self.entries@)
    }
}

/// What a reference to a configuration shows.
pub open spec fn opt_provider(v: Option<&ProviderConfig>) -> Option<ProviderView> {
    match v {
        Some(c) => Some(c@),
        None => None,
    }
}

impl ProviderMap {
    /// Whether the kinds ascend.
    pub open spec fn wf(&self) -> bool {
        kinds_ascend(self@)
    }

    /// No providers.
    pub fn new() -> (m: ProviderMap)
        ensures
            m@ == Seq::<EntryView>::empty(),
            m.wf(),
    {
        let m = ProviderMap { entries: Vec::new() };
        assert(m@ =~= Seq::<EntryView>::empty());
        m
    }

    /// The configuration under the kind.
    pub fn get(&self, kind: &str) -> (r: Option<&ProviderConfig>)
        ensures
            opt_provider(r) == entry_of(self@, kind@),
    {
        let mut i: usize = 0;
        assert(self@.skip(0) =~= self@);
        while i < self.entries.len()
            invariant
                i <= self.entries.len(),
                entry_of(self@, kind@) == entry_of(self@.skip(i as int), kind@),
            decreases self.entries.len() - i,
        {
            assert(self@.skip(i as int)[0] == self.entries@[i as int]@);
            if text::same(self.entries[i].kind.as_str(), kind) {
                return Some(&self.entries[i].config);
            }
            assert(self@.skip(i as int).drop_first() =~= self@.skip(i + 1));
            i = i + 1;
        }
        None
    }

    /// Whether the kind has a configuration.
    pub fn contains_key(&self, kind: &str) -> (r: bool)
        ensures
            r == kinds_of(self@).contains(kind@),
    {
        proof {
            lemma_entry_of(self@, kind@);
        }
        self.get(kind).is_some()
    }

    /// The kinds, in ascending order.
    pub fn keys(&self) -> (r: Vec<String>)
        ensures
            text::views(r@) == kinds_of(self@),
    {
        let mut out: Vec<String> = Vec::new();
        let mut i: usize = 0;
        while i < self.entries.len()
            invariant
                i <= self.entries.len(),
                text::views(out@) == kinds_of(self@).take(i as int),
            decreases self.entries.len() - i,
        {
            let k = self.entries[i].kind.clone();
            proof {
                text::lemma_views_push(out@, k);
                assert(kinds_of(self@).take(i + 1) =~= kinds_of(self@).take(i as int).push(k@));
            }
            out.push(k);
            i = i + 1;
        }
        assert(kinds_of(self@).take(i as int) =~= kinds_of(self@));
        out
    }

    /// Puts the configuration under the kind, in place of one that stands there.
    pub fn insert(&mut self, kind: String, config: ProviderConfig)
        requires
            old(self).wf(),
        ensures
            final(self).wf(),
            forall|k: Seq<char>| #[trigger]
                entry_of(final(self)@, k) == if k == kind@ {
                    Some(config@)
                } else {
                    entry_of(old(self)@, k)
                },
    {
        let ghost before = self@;
        let ghost kv = kind@;
        let ghost cv = config@;
        let mut i: usize = 0;
        while i < self.entries.len() && !text::at_most(kind.as_str(), self.entries[i].kind.as_str())
            invariant
                i <= self.entries.len(),
                self@ == before,
                kind@ == kv,
                forall|j: int| 0 <= j < i ==> !text::text_le(kv, (#[trigger] before[j]).kind),
            decreases self.entries.len() - i,
        {
            assert(before[i as int] == self.entries@[i as int]@);
            i = i + 1;
        }
        proof {
            if i < self.entries.len() {
                assert(before[i as int] == self.entries@[i as int]@);
            }
        }
        if i < self.entries.len() && text::same(self.entries[i].kind.as_str(), kind.as_str()) {
            let e = ProviderEntry { kind, config };
            self.entries.set(i, e);
            proof {
                let after = self@;
                assert(after =~= before.update(i as int, EntryView { kind: kv, config: cv }));
                assert forall|a: int, b: int| 0 <= a < b < after.len() implies text::text_le(
                    (#[trigger] after[a]).kind,
                    (#[trigger] after[b]).kind,
                ) && after[a].kind != after[b].kind by {
                    assert(before[a].kind == after[a].kind && before[b].kind == after[b].kind);
                }
                assert forall|k: Seq<char>| #[trigger]
                    entry_of(after, k) == if k == kv {
                        Some(cv)
                    } else {
                        entry_of(before, k)
                    } by {
                    lemma_entry_update(before, i as int, cv, k);
                }
            }
        } else {
            let e = ProviderEntry { kind, config };
            let ghost ev = e@;
            self.entries.insert(i, e);
            proof {
                let after = self@;
                assert(after =~= before.insert(i as int, ev));
                lemma_insert_keeps_order(before, i as int, ev);
                text::lemma_bytes_le_total(
                    vstd::utf8::encode_utf8(kv),
                    vstd::utf8::encode_utf8(kv),
                );
                assert forall|k: Seq<char>| #[trigger]
                    entry_of(after, k) == if k == kv {
                        Some(cv)
                    } else {
                        entry_of(before, k)
                    } by {
                    lemma_entry_insert(before, i as int, ev, k);
                }
            }
        }
    }
}

/// Looking up after one entry got another configuration.
proof fn lemma_entry_update(s: Seq<EntryView>, i: int, config: ProviderView, k: Seq<char>)
    requires
        0 <= i < s.len(),
        kinds_ascend(s),
    ensures
        entry_of(s.update(i, EntryView { kind: s[i].kind, config }), k) == if k == s[i].kind {
            Some(config)
        } else {
            entry_of(s, k)
        },
    decreases s.len(),
{
    let t = s.update(i, EntryView { kind: s[i].kind, config });
    if i > 0 {
        let rest = s.drop_first();
        assert(s[0].kind != s[i].kind);
        assert forall|a: int, b: int| 0 <= a < b < rest.len() implies text::text_le(
            (#[trigger] rest[a]).kind,
            (#[trigger] rest[b]).kind,
        ) && rest[a].kind != rest[b].kind by {
            assert(s[a + 1].kind != s[b + 1].kind);
        }
        lemma_entry_update(rest, i - 1, config, k);
        assert(t.drop_first() =~= rest.update(i - 1, EntryView { kind: s[i].kind, config }));
    } else {
        assert(t.drop_first() =~= s.drop_first());
    }
}

/// A new kind is put behind the smaller and before the greater ones.
proof fn lemma_insert_keeps_order(s: Seq<EntryView>, i: int, e: EntryView)
    requires
        0 <= i <= s.len(),
        kinds_ascend(s),
        forall|j: int| 0 <= j < i ==> !text::text_le(e.kind, (#[trigger] s[j]).kind),
        i < s.len() ==> text::text_le(e.kind, s[i].kind) && s[i].kind != e.kind,
    ensures
        kinds_ascend(s.insert(i, e)),
{
    let t = s.insert(i, e);
    assert forall|a: int, b: int| 0 <= a < b < t.len() implies text::text_le(
        (#[trigger] t[a]).kind,
        (#[trigger] t[b]).kind,
    ) && t[a].kind != t[b].kind by {
        if b == i {
            assert(t[a] == s[a]);
            text::lemma_bytes_le_total(
                vstd::utf8::encode_utf8(s[a].kind),
                vstd::utf8::encode_utf8(e.kind),
            );
            if s[a].kind == e.kind {
                text::lemma_bytes_le_total(
                    vstd::utf8::encode_utf8(e.kind),
                    vstd::utf8::encode_utf8(e.kind),
                );
            }
        } else if a == i {
            assert(t[b] == s[b - 1]);
            if b - 1 > i {
                assert(text::text_le(s[i].kind, s[b - 1].kind) && s[i].kind != s[b - 1].kind);
                text::lemma_bytes_le_trans(
                    vstd::utf8::encode_utf8(e.kind),
                    vstd::utf8::encode_utf8(s[i].kind),
                    vstd::utf8::encode_utf8(s[b - 1].kind),
                );
                if s[b - 1].kind == e.kind {
                    text::lemma_text_le_antisym(e.kind, s[i].kind);
                }
            }
        } else {
            let a0 = if a < i {
                a
            } else {
                a - 1
            };
            let b0 = if b < i {
                b
            } else {
                b - 1
            };
            assert(t[a] == s[a0] && t[b] == s[b0]);
        }
    }
}

/// Looking up after an entry of a new kind came in.
proof fn lemma_entry_insert(s: Seq<EntryView>, i: int, e: EntryView, k: Seq<char>)
    requires
        0 <= i <= s.len(),
        forall|j: int| 0 <= j < i ==> (#[trigger] s[j]).kind != e.kind,
    ensures
        entry_of(s.insert(i, e), k) == if k == e.kind {
            Some(e.config)
        } else {
            entry_of(s, k)
        },
    decreases s.len(),
{
    let t = s.insert(i, e);
    if i == 0 {
        assert(t.drop_first() =~= s);
    } else {
        let rest = s.drop_first();
        assert(s[0].kind != e.kind);
        assert forall|j: int| 0 <= j < i - 1 implies (#[trigger] rest[j]).kind != e.kind by {
            assert(s[j + 1].kind != e.kind);
        }
        lemma_entry_insert(rest, i - 1, e, k);
        assert(t.drop_first() =~= rest.insert(i - 1, e));
    }
}

// ---------------------------------------------------------------------------
// Projects and notification
// ---------------------------------------------------------------------------

/// A project and its providers.
#[derive(Debug)]
pub struct Project {
    pub name: String,
    pub description: Option<String>,
    pub providers: ProviderMap,
}

/// What a project's configuration says.
pub struct ProjectView {
    pub name: Seq<char>,
    pub description: Option<Seq<char>>,
    pub providers: Seq<EntryView>,
}

impl View for Project {
    type V = ProjectView;

    open spec fn view(&self) -> ProjectView {
        ProjectView {
            name: self.name@,
            description: text::opt_view(self.description),
            providers: self.providers@,
        }
    }
}

/// The DingTalk robot.
#[derive(Debug)]
pub struct DingTalkConfig {
    pub webhook: String,
    pub secret: String,
}

/// What the robot's configuration says.
pub struct DingTalkView {
    pub webhook: Seq<char>,
    pub secret: Seq<char>,
}

impl View for DingTalkConfig {
    type V = DingTalkView;

    open spec fn view(&self) -> DingTalkView {
        DingTalkView { webhook: self.webhook@, secret: self.secret@ }
    }
}

impl Default for DingTalkConfig {
    fn default() -> (r: DingTalkConfig)
        ensures
            r@ == (DingTalkView { webhook: Seq::empty(), secret: Seq::empty() }),
    {
        DingTalkConfig { webhook: String::new(), secret: String::new() }
    }
}

/// The notification channel.
#[derive(Debug)]
pub struct NotifyConfig {
    /// `none` or `dingtalk`; empty is `none`.
    pub kind: String,
    /// What each title begins with.
    pub prefix: String,
    pub dingtalk: DingTalkConfig,
}

/// What the channel's configuration says.
pub struct NotifyView {
    pub kind: Seq<char>,
    pub prefix: Seq<char>,
    pub dingtalk: DingTalkView,
}

impl View for NotifyConfig {
    type V = NotifyView;

    open spec fn view(&self) -> NotifyView {
        NotifyView { kind: self.kind@, prefix: self.prefix@, dingtalk: self.dingtalk@ }
    }
}

/// No channel.
pub open spec fn no_notify() -> NotifyView {
    NotifyView {
        kind: Seq::empty(),
        prefix: Seq::empty(),
        dingtalk: DingTalkView { webhook: Seq::empty(), secret: Seq::empty() },
    }
}

impl Default for NotifyConfig {
    fn default() -> (r: NotifyConfig)
        ensures
            r@ == no_notify(),
    {
        NotifyConfig {
            kind: String::new(),
            prefix: String::new(),
            dingtalk: DingTalkConfig::default(),
        }
    }
}

/// The channel, taken for DingTalk where it has a webhook and names no kind.
pub open spec fn inferred_kind(n: NotifyView) -> NotifyView {
    if n.kind.len() == 0 && n.dingtalk.webhook.len() > 0 {
        NotifyView { kind: "dingtalk"@, ..n }
    } else {
        n
    }
}

impl NotifyConfig {
    /// Takes the channel for DingTalk where it has a webhook and names no kind.
    fn infer_kind(&mut self)
        ensures
            final(self)@ == inferred_kind(old(self)@),
    {
        if self.kind.as_str().is_empty() && !self.dingtalk.webhook.as_str().is_empty() {
            self.kind = "dingtalk".to_owned();
        }
    }
}

/// The whole configuration.
#[derive(Debug)]
pub struct Config {
    pub projects: Vec<Project>,
    pub notify: NotifyConfig,
}

/// What the whole configuration says.
pub struct ConfigView {
    pub projects: Seq<ProjectView>,
    pub notify: NotifyView,
}

impl View for Config {
    type V = ConfigView;

    open spec fn view(&self) -> ConfigView {
        ConfigView { projects: text::views(self.projects@), notify: self.notify@ }
    }
}

impl Default for Config {
    fn default() -> (r: Config)
        ensures
            r@ == (ConfigView { projects: Seq::empty(), notify: no_notify() }),
    {
        let r = Config { projects: Vec::new(), notify: NotifyConfig::default() };
        assert(r@.projects =~= Seq::<ProjectView>::empty());
        r
    }
}

/// What reading the project list gave.
pub open spec fn read_projects(r: Result<Vec<Project>, String>) -> Result<
    Seq<ProjectView>,
    Seq<char>,
> {
    match r {
        Ok(v) => Ok(text::views(v@)),
        Err(e) => Err(e@),
    }
}

/// What reading the channel gave, where there is a file for it.
pub open spec fn read_notify(r: Option<Result<NotifyConfig, String>>) -> Option<
    Result<NotifyView, Seq<char>>,
> {
    match r {
        Some(Ok(n)) => Some(Ok(n@)),
        Some(Err(e)) => Some(Err(e@)),
        None => None,
    }
}

/// What a configuration or its rejection says.
pub open spec fn config_result(r: Result<Config, OpsError>) -> Result<ConfigView, Seq<char>> {
    match r {
        Ok(c) => Ok(c@),
        Err(e) => Err(e@),
    }
}

/// Whether every project has a name.
pub open spec fn all_named(projects: Seq<ProjectView>) -> bool {
    forall|i: int| 0 <= i < projects.len() ==> (#[trigger] projects[i]).name.len() > 0
}

/// What is wrong with the projects, if anything is: there has to be one, and each has to have a
/// name.
pub open spec fn projects_fault(projects: Seq<ProjectView>) -> Option<Seq<char>> {
    if projects.len() == 0 {
        Some("没有配置任何项目（需要至少一个项目条目）"@)
    } else if !all_named(projects) {
        Some("项目名不能为空"@)
    } else {
        None
    }
}

/// Says what is wrong with the projects.
pub fn find_fault(projects: &Vec<Project>) -> (r: Option<String>)
    ensures
        text::opt_view(r) == projects_fault(text::views(projects@)),
{
    if projects.is_empty() {
        return Some("没有配置任何项目（需要至少一个项目条目）".to_owned());
    }
    let ghost all = text::views(projects@);
    let mut i: usize = 0;
    while i < projects.len()
        invariant
            i <= projects.len(),
            all == text::views(projects@),
            all.len() > 0,
            forall|k: int| 0 <= k < i ==> (#[trigger] all[k]).name.len() > 0,
        decreases projects.len() - i,
    {
        assert(all[i as int] == projects@[i as int]@);
        if projects[i].name.as_str().is_empty() {
            assert(!all_named(all));
            return Some("项目名不能为空".to_owned());
        }
        i = i + 1;
    }
    None
}

/// The configuration that the two files make: there is at least one project, and each has a name.
pub open spec fn checked(
    projects: Result<Seq<ProjectView>, Seq<char>>,
    notify: Option<Result<NotifyView, Seq<char>>>,
) -> Result<ConfigView, Seq<char>> {
    match projects {
        Err(e) => Err("解析项目配置失败: "@ + e),
        Ok(p) => match projects_fault(p) {
            Some(m) => Err(m),
            None => match notify {
                Some(Err(e)) => Err("解析通知配置失败: "@ + e),
                Some(Ok(n)) => Ok(ConfigView { projects: p, notify: inferred_kind(n) }),
                None => Ok(ConfigView { projects: p, notify: no_notify() }),
            },
        },
    }
}

/// What the environment sets.
#[derive(Debug)]
pub struct EnvOverrides {
    pub access_key_id: Option<String>,
    pub access_key_secret: Option<String>,
    pub webhook: Option<String>,
    pub secret: Option<String>,
}

/// What the environment says.
pub struct EnvView {
    pub access_key_id: Option<Seq<char>>,
    pub access_key_secret: Option<Seq<char>>,
    pub webhook: Option<Seq<char>>,
    pub secret: Option<Seq<char>>,
}

impl View for EnvOverrides {
    type V = EnvView;

    open spec fn view(&self) -> EnvView {
        EnvView {
            access_key_id: text::opt_view(self.access_key_id),
            access_key_secret: text::opt_view(self.access_key_secret),
            webhook: text::opt_view(self.webhook),
            secret: text::opt_view(self.secret),
        }
    }
}

/// What is given, else what was there.
pub open spec fn overridden(new: Option<Seq<char>>, old_value: Option<Seq<char>>) -> Option<
    Seq<char>,
> {
    if given(new) {
        new
    } else {
        old_value
    }
}

/// The provider with the credentials of the environment, if it is the one that the environment
/// speaks of.
pub open spec fn entry_with_env(e: EntryView, env: EnvView) -> EntryView {
    if e.kind == ALIYUN_KIND@ {
        EntryView {
            kind: e.kind,
            config: ProviderView {
                region: e.config.region,
                access_key_id: overridden(env.access_key_id, e.config.access_key_id),
                access_key_secret: overridden(env.access_key_secret, e.config.access_key_secret),
            },
        }
    } else {
        e
    }
}

/// The project with the credentials of the environment.
pub open spec fn project_with_env(p: ProjectView, env: EnvView) -> ProjectView {
    ProjectView {
        providers: Seq::new(p.providers.len(), |i: int| entry_with_env(p.providers[i], env)),
        ..p
    }
}

/// The channel with what the environment says.
pub open spec fn notify_with_env(n: NotifyView, env: EnvView) -> NotifyView {
    inferred_kind(
        NotifyView {
            dingtalk: DingTalkView {
                webhook: overridden(env.webhook, Some(n.dingtalk.webhook))->0,
                secret: overridden(env.secret, Some(n.dingtalk.secret))->0,
            },
            ..n
        },
    )
}

/// The configuration with what the environment says.
pub open spec fn with_env(c: ConfigView, env: EnvView) -> ConfigView {
    ConfigView {
        projects: Seq::new(c.projects.len(), |i: int| project_with_env(c.projects[i], env)),
        notify: notify_with_env(c.notify, env),
    }
}

/// The environment has its say once: to apply it again changes nothing.
pub proof fn law_env_applies_once(c: ConfigView, env: EnvView)
    ensures
        with_env(with_env(c, env), env) == with_env(c, env),
{
    let once = with_env(c, env);
    let twice = with_env(once, env);
    assert forall|i: int| 0 <= i < c.projects.len() implies twice.projects[i] == once.projects[i] by {
        assert(twice.projects[i].providers =~= once.projects[i].providers);
    }
    assert(twice.projects =~= once.projects);
}

/// An environment that says nothing leaves the projects as they are, and of the channel it changes
/// nothing but that a webhook without a kind means DingTalk.
pub proof fn law_silent_env(c: ConfigView, env: EnvView)
    requires
        !given(env.access_key_id),
        !given(env.access_key_secret),
        !given(env.webhook),
        !given(env.secret),
    ensures
        with_env(c, env) == (ConfigView { projects: c.projects, notify: inferred_kind(c.notify) }),
{
    let after = with_env(c, env);
    assert forall|i: int| 0 <= i < c.projects.len() implies after.projects[i] == c.projects[i] by {
        assert(after.projects[i].providers =~= c.projects[i].providers);
    }
    assert(after.projects =~= c.projects);
}

impl ProviderEntry {
    /// The provider with the credentials of the environment.
    fn with_env(self, env: &EnvOverrides) -> (r: ProviderEntry)
        ensures
            r@ == entry_with_env(self@, env@),
    {
        if !text::same(self.kind.as_str(), ALIYUN_KIND) {
            return self;
        }
        let id = match given_string(&env.access_key_id) {
            Some(s) => Some(s),
            None => self.config.access_key_id,
        };
        let secret = match given_string(&env.access_key_secret) {
            Some(s) => Some(s),
            None => self.config.access_key_secret,
        };
        ProviderEntry {
            kind: self.kind,
            config: ProviderConfig {
                region: self.config.region,
                access_key_id: id,
                access_key_secret: secret,
            },
        }
    }
}

impl Project {
    /// The project with the credentials of the environment.
    fn with_env(self, env: &EnvOverrides) -> (r: Project)
        ensures
            r@ == project_with_env(self@, env@),
            self.providers.wf() ==> r.providers.wf(),
    {
        let ghost before = self@;
        let mut out: Vec<ProviderEntry> = Vec::new();
        let entries = self.providers.entries;
        let ghost all = text::views(entries@);
        for e in it: entries
            invariant
                it.seq() == entries@,
                all == text::views(entries@),
                text::views(out@) == Seq::new(
                    it.index() as nat,
                    |i: int| entry_with_env(all[i], env@),
                ),
        {
            let ghost ev = e@;
            let x = e.with_env(env);
            proof {
                text::lemma_views_push(out@, x);
                assert(all[it.index() as int] == ev);
            }
            out.push(x);
            assert(text::views(out@) =~= Seq::new(
                (it.index() + 1) as nat,
                |i: int| entry_with_env(all[i], env@),
            ));
        }
        let r = Project {
            name: self.name,
            description: self.description,
            providers: ProviderMap { entries: out },
        };
        assert(r@.providers =~= project_with_env(before, env@).providers);
        proof {
            if kinds_ascend(before.providers) {
                assert forall|i: int, j: int| 0 <= i < j < r@.providers.len() implies text::text_le(
                    (#[trigger] r@.providers[i]).kind,
                    (#[trigger] r@.providers[j]).kind,
                ) && r@.providers[i].kind != r@.providers[j].kind by {
                    assert(r@.providers[i].kind == before.providers[i].kind);
                    assert(r@.providers[j].kind == before.providers[j].kind);
                }
            }
        }
        r
    }
}

impl Config {
    /// Makes the configuration of what the two files hold: of `project.yml`, which has to be
    /// there, and of `notify.yml`, without which nothing is notified.
    pub fn from_str(
        projects: Result<Vec<Project>, String>,
        notify: Option<Result<NotifyConfig, String>>,
    ) -> (r: Result<Config, OpsError>)
        ensures
            config_result(r) == checked(read_projects(projects), read_notify(notify)),
            r matches Ok(c) ==> projects == Ok::<Vec<Project>, String>(c.projects),
    {
        let list = match projects {
            Ok(p) => p,
            Err(e) => {
                let mut m = "解析项目配置失败: ".to_owned();
                m.append(e.as_str());
                return Err(OpsError::new(m));
            },
        };
        if let Some(m) = find_fault(&list) {
            return Err(OpsError::new(m));
        }
        let notify = match notify {
            Some(Ok(n)) => {
                let mut n = n;
                n.infer_kind();
                n
            },
            Some(Err(e)) => {
                let mut m = "解析通知配置失败: ".to_owned();
                m.append(e.as_str());
                return Err(OpsError::new(m));
            },
            None => NotifyConfig::default(),
        };
        Ok(Config { projects: list, notify })
    }

    /// Lets the environment override credentials, webhook and signing secret. What it does not
    /// give, or gives as the empty text, stays as it is.
    pub fn apply_env_overrides(&mut self, env: &EnvOverrides)
        ensures
            final(self)@ == with_env(old(self)@, env@),
            (forall|i: int|
                0 <= i < old(self).projects@.len() ==> (
                #[trigger] old(self).projects@[i]).providers.wf()) ==> (forall|i: int|
                0 <= i < final(self).projects@.len() ==> (
                #[trigger] final(self).projects@[i]).providers.wf()),
    {
        let ghost before = self@;
        let mut out: Vec<Project> = Vec::new();
        let mut projects: Vec<Project> = Vec::new();
        std::mem::swap(&mut projects, &mut self.projects);
        let ghost all = text::views(projects@);
        for p in it: projects
            invariant
                it.seq() == projects@,
                all == text::views(projects@),
                text::views(out@) == Seq::new(
                    it.index() as nat,
                    |i: int| project_with_env(all[i], env@),
                ),
                forall|k: int|
                    0 <= k < it.index() ==> (projects@[k].providers.wf()
                        ==> (#[trigger] out@[k]).providers.wf()),
        {
            let ghost pv = p@;
            let x = p.with_env(env);
            proof {
                text::lemma_views_push(out@, x);
                assert(all[it.index() as int] == pv);
            }
            out.push(x);
            assert(text::views(out@) =~= Seq::new(
                (it.index() + 1) as nat,
                |i: int| project_with_env(all[i], env@),
            ));
        }
        self.projects = out;
        if let Some(v) = given_string(&env.webhook) {
            self.notify.dingtalk.webhook = v;
        }
        if let Some(v) = given_string(&env.secret) {
            self.notify.dingtalk.secret = v;
        }
        self.notify.infer_kind();
        assert(self@.projects =~= with_env(before, env@).projects);
    }

    /// The project's configuration of the kind.
    pub fn provider<'a>(&self, project: &'a Project, kind: &str) -> (r: Result<
        &'a ProviderConfig,
        OpsError,
    >)
        ensures
            match r {
                Ok(c) => entry_of(project@.providers, kind@) == Some(c@),
                Err(e) => entry_of(project@.providers, kind@) is None && e@ == not_configured(
                    project@,
                    kind@,
                ),
            },
    {
        match project.providers.get(kind) {
            Some(c) => Ok(c),
            None => Err(not_configured_error(project, kind)),
        }
    }

    /// The project of that name; without a name, the first one.
    pub fn select_project(&self, name: Option<&str>) -> (r: Result<&Project, OpsError>)
        requires
            name is None ==> self@.projects.len() > 0,
        ensures
            match name {
                None => r matches Ok(p) && p@ == self@.projects[0],
                Some(n) => match r {
                    Ok(p) => first_named(self@.projects, n@) == Some(p@),
                    Err(e) => first_named(self@.projects, n@) is None && e@ == no_such_project(
                        self@.projects,
                        n@,
                    ),
                },
            },
    {
        match name {
            None => {
                assert(self@.projects[0] == self.projects@[0]@);
                Ok(&self.projects[0])
            },
            Some(n) => match find_named(&self.projects, n) {
                Some(i) => Ok(&self.projects[i]),
                None => Err(no_such_project_error(&self.projects, n)),
            },
        }
    }
}

/// The first project of that name.
pub open spec fn first_named(projects: Seq<ProjectView>, name: Seq<char>) -> Option<ProjectView>
    decreases projects.len(),
{
    if projects.len() == 0 {
        None
    } else if projects[0].name == name {
        Some(projects[0])
    } else {
        first_named(projects.drop_first(), name)
    }
}

/// The names of the projects.
pub open spec fn project_names(projects: Seq<ProjectView>) -> Seq<Seq<char>> {
    Seq::new(projects.len(), |i: int| projects[i].name)
}

/// That no project has the name.
pub open spec fn no_such_project(projects: Seq<ProjectView>, name: Seq<char>) -> Seq<char> {
    "未找到项目 "@ + codec::debug_text(name) + "（可用: "@ + text::join(
        project_names(projects),
        ", "@,
    ) + "）"@
}

/// That the project has no such provider.
pub open spec fn not_configured(project: ProjectView, kind: Seq<char>) -> Seq<char> {
    "项目 "@ + project.name + " 未配置服务商 "@ + codec::debug_text(kind) + "（可用: "@ + text::join(
        kinds_of(project.providers),
        ", "@,
    ) + "）"@
}

/// Where the first project of that name stands.
pub fn find_named(projects: &Vec<Project>, name: &str) -> (r: Option<usize>)
    ensures
        match r {
            Some(i) => i < projects@.len() && first_named(text::views(projects@), name@) == Some(
                projects@[i as int]@,
            ),
            None => first_named(text::views(projects@), name@) is None,
        },
{
    let ghost all = text::views(projects@);
    let mut i: usize = 0;
    assert(all.skip(0) =~= all);
    while i < projects.len()
        invariant
            i <= projects.len(),
            all == text::views(projects@),
            first_named(all, name@) == first_named(all.skip(i as int), name@),
        decreases projects.len() - i,
    {
        assert(all.skip(i as int)[0] == projects@[i as int]@);
        if text::same(projects[i].name.as_str(), name) {
            return Some(i);
        }
        assert(all.skip(i as int).drop_first() =~= all.skip(i + 1));
        i = i + 1;
    }
    None
}

/// Says that no project has the name.
fn no_such_project_error(projects: &Vec<Project>, name: &str) -> (e: OpsError)
    ensures
        e@ == no_such_project(text::views(projects@), name@),
{
    let ghost names = project_names(text::views(projects@));
    let mut list: Vec<String> = Vec::new();
    let mut i: usize = 0;
    while i < projects.len()
        invariant
            i <= projects.len(),
            names == project_names(text::views(projects@)),
            text::views(list@) == names.take(i as int),
        decreases projects.len() - i,
    {
        let n = projects[i].name.clone();
        proof {
            text::lemma_views_push(list@, n);
            assert(names.take(i + 1) =~= names.take(i as int).push(n@));
        }
        list.push(n);
        i = i + 1;
    }
    assert(names.take(i as int) =~= names);
    let mut m = "未找到项目 ".to_owned();
    let q = codec::quote(name);
    m.append(q.as_str());
    m.append("（可用: ");
    let j = text::join_strings(&list, ", ");
    m.append(j.as_str());
    m.append("）");
    OpsError::new(m)
}

/// Says that the project has no such provider.
pub fn not_configured_error(project: &Project, kind: &str) -> (e: OpsError)
    ensures
        e@ == not_configured(project@, kind@),
{
    let mut m = "项目 ".to_owned();
    m.append(project.name.as_str());
    m.append(" 未配置服务商 ");
    let q = codec::quote(kind);
    m.append(q.as_str());
    m.append("（可用: ");
    let keys = project.providers.keys();
    let j = text::join_strings(&keys, ", ");
    m.append(j.as_str());
    m.append("）");
    OpsError::new(m)
}

// ---------------------------------------------------------------------------
// Access token
// ---------------------------------------------------------------------------

/// The access token of the web console.
#[derive(Debug)]
pub struct ServeConfig {
    pub token: String,
}

impl Default for ServeConfig {
    fn default() -> (r: ServeConfig)
        ensures
            r.token@ == Seq::<char>::empty(),
    {
        ServeConfig { token: String::new() }
    }
}

impl ServeConfig {
    /// The configuration as it is where it has a token, else one with a new random token; and
    /// whether it is new and so has to be stored. Without a stored configuration, a new one.
    pub fn load_or_create(stored: Option<ServeConfig>) -> (r: (ServeConfig, bool))
        ensures
            r.1 == !(stored matches Some(c) && c.token@.len() > 0),
            !r.1 ==> Some(r.0) == stored,
            r.1 ==> codec::plain_id(r.0.token@),
            r.0.token@.len() > 0,
    {
        match stored {
            Some(c) => if c.token.as_str().is_empty() {
                (ServeConfig { token: codec::new_plain_id() }, true)
            } else {
                (c, false)
            },
            None => (ServeConfig { token: codec::new_plain_id() }, true),
        }
    }
}

} // verus!
