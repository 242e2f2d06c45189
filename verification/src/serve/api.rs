//! Reading and saving the configuration: secrets go out masked, and a mask that comes back stands
//! for the secret that is stored.

use vstd::prelude::*;
use crate::config;
use crate::config::{NotifyConfig, Project, ProviderConfig, ProviderEntry, ProviderMap};
use crate::error::OpsError;
use crate::text;

verus! {

/// What stands for a secret.
pub const SECRET_MASK: &'static str = "••••••••";

/// The YAML texts of the configuration.
#[derive(Debug)]
pub struct RawPayload {
    pub project_yml: String,
    pub notify_yml: Option<String>,
}

// ---------------------------------------------------------------------------
// Masks
// ---------------------------------------------------------------------------

/// The mask for a secret that is there and not empty.
pub open spec fn masked(v: Option<Seq<char>>) -> Option<Seq<char>> {
    if config::given(v) {
        Some(SECRET_MASK@)
    } else {
        None
    }
}

/// What was submitted, or the stored one where that is the mask.
pub open spec fn unmasked(submitted: Option<Seq<char>>, stored: Option<Seq<char>>) -> Option<
    Seq<char>,
> {
    if submitted == Some(SECRET_MASK@) {
        stored
    } else {
        submitted
    }
}

/// The mask for a secret that is there and not empty.
pub fn mask_secret(v: &Option<String>) -> (r: Option<String>)
    ensures
        text::opt_view(r) == masked(text::opt_view(*v)),
{
    match v {
        Some(s) => if s.as_str().is_empty() {
            None
        } else {
            Some(SECRET_MASK.to_owned())
        },
        None => None,
    }
}

/// A copy.
fn copy_opt(v: &Option<String>) -> (r: Option<String>)
    ensures
        text::opt_view(r) == text::opt_view(*v),
{
    match v {
        Some(s) => Some(s.clone()),
        None => None,
    }
}

/// What was submitted, or the stored one where that is the mask.
pub fn unmask_secret(submitted: &Option<String>, stored: &Option<String>) -> (r: Option<String>)
    ensures
        text::opt_view(r) == unmasked(text::opt_view(*submitted), text::opt_view(*stored)),
{
    match submitted {
        Some(s) => if text::same(s.as_str(), SECRET_MASK) {
            copy_opt(stored)
        } else {
            Some(s.clone())
        },
        None => None,
    }
}

// ---------------------------------------------------------------------------
// Finding what was there
// ---------------------------------------------------------------------------

/// The project that a submitted one was: the one at the index that the path gives; without a path,
/// the first of the same name.
pub open spec fn orig_project(
    orig: Seq<config::ProjectView>,
    path: Option<Seq<char>>,
    name: Seq<char>,
) -> Option<config::ProjectView> {
    match path {
        Some(p) => match text::parse_nat(p) {
            Some(i) => if i < orig.len() {
                Some(orig[i as int])
            } else {
                None
            },
            None => None,
        },
        None => config::first_named(orig, name),
    }
}

/// The provider that a submitted one was. A path of its own has to name the kind behind its last
/// slash, and gives the project's path before it; else the project's path counts.
pub open spec fn orig_provider(
    orig: Seq<config::ProjectView>,
    proj_path: Option<Seq<char>>,
    proj_name: Seq<char>,
    kind: Seq<char>,
    prov_path: Option<Seq<char>>,
) -> Option<config::ProviderView> {
    let project = match prov_path {
        Some(pp) => match text::rsplit_once(pp, '/') {
            Some(parts) => if parts.1 == kind {
                orig_project(orig, Some(parts.0), proj_name)
            } else {
                None
            },
            None => None,
        },
        None => orig_project(orig, proj_path, proj_name),
    };
    match project {
        Some(p) => config::entry_of(p.providers, kind),
        None => None,
    }
}

/// What a reference to a project shows.
pub open spec fn opt_project(v: Option<&Project>) -> Option<config::ProjectView> {
    match v {
        Some(p) => Some(p@),
        None => None,
    }
}

/// The project that a submitted one was.
pub fn find_orig_project<'a>(orig: &'a Vec<Project>, path: Option<&str>, name: &str) -> (r: Option<
    &'a Project,
>)
    ensures
        opt_project(r) == orig_project(text::views(orig@), text::opt_str_view(path), name@),
{
    let count: usize = orig.len();
    assert(text::views(orig@).len() == count);
    match path {
        Some(p) => match text::parse_usize(p) {
            Some(i) => if i < count {
                assert(text::views(orig@)[i as int] == orig@[i as int]@);
                Some(&orig[i])
            } else {
                None
            },
            None => None,
        },
        None => match config::find_named(orig, name) {
            Some(i) => Some(&orig[i]),
            None => None,
        },
    }
}

/// The provider that a submitted one was.
pub fn find_orig_provider<'a>(
    orig: &'a Vec<Project>,
    proj_path: Option<&str>,
    proj_name: &str,
    kind: &str,
    prov_path: Option<&str>,
) -> (r: Option<&'a ProviderConfig>)
    ensures
        config::opt_provider(r) == orig_provider(
            text::views(orig@),
            text::opt_str_view(proj_path),
            proj_name@,
            kind@,
            text::opt_str_view(prov_path),
        ),
{
    let project = match prov_path {
        Some(pp) => match text::text_rsplit_once(pp, '/') {
            Some(parts) => if text::same(parts.1.as_str(), kind) {
                find_orig_project(orig, Some(parts.0.as_str()), proj_name)
            } else {
                None
            },
            None => None,
        },
        None => find_orig_project(orig, proj_path, proj_name),
    };
    match project {
        Some(p) => p.providers.get(kind),
        None => None,
    }
}

// ---------------------------------------------------------------------------
// Reading
// ---------------------------------------------------------------------------

/// A provider as it is shown, with the path by which it is found again.
#[derive(Debug)]
pub struct ShownProvider {
    pub kind: String,
    pub path: String,
    pub config: ProviderConfig,
}

/// A project as it is shown, with the path by which it is found again.
#[derive(Debug)]
pub struct ShownProject {
    pub path: String,
    pub name: String,
    pub description: Option<String>,
    pub providers: Vec<ShownProvider>,
}

/// What is shown of a provider.
pub struct ShownProviderView {
    pub kind: Seq<char>,
    pub path: Seq<char>,
    pub config: config::ProviderView,
}

/// What is shown of a project.
pub struct ShownProjectView {
    pub path: Seq<char>,
    pub name: Seq<char>,
    pub description: Option<Seq<char>>,
    pub providers: Seq<ShownProviderView>,
}

impl View for ShownProvider {
    type V = ShownProviderView;

    open spec fn view(&self) -> ShownProviderView {
        ShownProviderView { kind: self.kind@, path: self.path@, config: self.config@ }
    }
}

impl View for ShownProject {
    type V = ShownProjectView;

    open spec fn view(&self) -> ShownProjectView {
        ShownProjectView {
            path: self.path@,
            name: self.name@,
            description: text::opt_view(self.description),
            providers: text::views(self.providers@),
        }
    }
}

/// The path of the project at the index.
pub open spec fn project_path(i: nat) -> Seq<char> {
    text::dec(i)
}

/// The path of the provider of the project at the index.
pub open spec fn provider_path(i: nat, kind: Seq<char>) -> Seq<char> {
    text::dec(i) + "/"@ + kind
}

/// The provider as it is shown: its secret masked.
pub open spec fn shown_provider(i: nat, e: config::EntryView) -> ShownProviderView {
    ShownProviderView {
        kind: e.kind,
        path: provider_path(i, e.kind),
        config: config::ProviderView {
            access_key_secret: masked(e.config.access_key_secret),
            ..e.config
        },
    }
}

/// The project as it is shown.
pub open spec fn shown_project(i: nat, p: config::ProjectView) -> ShownProjectView {
    ShownProjectView {
        path: project_path(i),
        name: p.name,
        description: p.description,
        providers: Seq::new(p.providers.len(), |k: int| shown_provider(i, p.providers[k])),
    }
}

/// The projects as they are shown.
pub open spec fn shown_projects(projects: Seq<config::ProjectView>) -> Seq<ShownProjectView> {
    Seq::new(projects.len(), |i: int| shown_project(i as nat, projects[i]))
}

/// The channel as it is shown: its secret masked.
pub open spec fn shown_notify(n: config::NotifyView) -> config::NotifyView {
    if n.dingtalk.secret.len() == 0 {
        n
    } else {
        config::NotifyView {
            dingtalk: config::DingTalkView { secret: SECRET_MASK@, ..n.dingtalk },
            ..n
        }
    }
}

/// No secret is shown: where one is stored, the mask stands for it.
pub proof fn law_secrets_are_not_shown(projects: Seq<config::ProjectView>, notify: config::NotifyView)
    ensures
        forall|i: int, k: int|
            0 <= i < projects.len() && 0 <= k < projects[i].providers.len() ==> {
                let secret = (#[trigger] shown_projects(
                    projects,
                )[i].providers[k]).config.access_key_secret;
                secret == if config::given(projects[i].providers[k].config.access_key_secret) {
                    Some(SECRET_MASK@)
                } else {
                    None
                }
            },
        shown_notify(notify).dingtalk.secret == if notify.dingtalk.secret.len() > 0 {
            SECRET_MASK@
        } else {
            Seq::empty()
        },
{
    if notify.dingtalk.secret.len() == 0 {
        assert(notify.dingtalk.secret =~= Seq::empty());
    }
}

/// The project as it is shown.
fn show_project(i: usize, p: &Project) -> (r: ShownProject)
    ensures
        r@ == shown_project(i as nat, p@),
{
    let ghost all = Seq::new(p@.providers.len(), |k: int| shown_provider(i as nat, p@.providers[k]));
    let mut out: Vec<ShownProvider> = Vec::new();
    let mut k: usize = 0;
    while k < p.providers.entries.len()
        invariant
            k <= p.providers.entries.len(),
            all == Seq::new(
                p@.providers.len(),
                |j: int| shown_provider(i as nat, p@.providers[j]),
            ),
            text::views(out@) == all.take(k as int),
        decreases p.providers.entries.len() - k,
    {
        assert(p@.providers[k as int] == p.providers.entries@[k as int]@);
        let mut path = text::print_usize(i);
        path.append("/");
        path.append(p.providers.entries[k].kind.as_str());
        let x = ShownProvider {
            kind: p.providers.entries[k].kind.clone(),
            path,
            config: ProviderConfig {
                region: p.providers.entries[k].config.region.clone(),
                access_key_id: copy_opt(&p.providers.entries[k].config.access_key_id),
                access_key_secret: mask_secret(&p.providers.entries[k].config.access_key_secret),
            },
        };
        proof {
            text::lemma_views_push(out@, x);
            assert(all.take(k + 1) =~= all.take(k as int).push(x@));
        }
        out.push(x);
        k = k + 1;
    }
    assert(all.take(k as int) =~= all);
    ShownProject {
        path: text::print_usize(i),
        name: p.name.clone(),
        description: copy_opt(&p.description),
        providers: out,
    }
}

/// The configuration as it is shown: secrets masked, and each project and provider with the path
/// by which it is found again.
pub fn get_config(projects: &Vec<Project>, notify: &NotifyConfig) -> (r: (
    Vec<ShownProject>,
    NotifyConfig,
))
    ensures
        text::views(r.0@) == shown_projects(text::views(projects@)),
        r.1@ == shown_notify(notify@),
{
    let ghost all = shown_projects(text::views(projects@));
    let mut out: Vec<ShownProject> = Vec::new();
    let mut i: usize = 0;
    while i < projects.len()
        invariant
            i <= projects.len(),
            all == shown_projects(text::views(projects@)),
            text::views(out@) == all.take(i as int),
        decreases projects.len() - i,
    {
        assert(text::views(projects@)[i as int] == projects@[i as int]@);
        let x = show_project(i, &projects[i]);
        proof {
            text::lemma_views_push(out@, x);
            assert(all.take(i + 1) =~= all.take(i as int).push(x@));
        }
        out.push(x);
        i = i + 1;
    }
    assert(all.take(i as int) =~= all);
    let secret = if notify.dingtalk.secret.as_str().is_empty() {
        notify.dingtalk.secret.clone()
    } else {
        SECRET_MASK.to_owned()
    };
    let shown = NotifyConfig {
        kind: notify.kind.clone(),
        prefix: notify.prefix.clone(),
        dingtalk: config::DingTalkConfig { webhook: notify.dingtalk.webhook.clone(), secret },
    };
    (out, shown)
}

// ---------------------------------------------------------------------------
// Saving
// ---------------------------------------------------------------------------

/// A provider that was submitted, with the path that it came with.
#[derive(Debug)]
pub struct SubmittedProvider {
    pub path: Option<String>,
    pub entry: ProviderEntry,
}

/// A project that was submitted, with the path that it came with.
#[derive(Debug)]
pub struct SubmittedProject {
    pub path: Option<String>,
    pub name: String,
    pub description: Option<String>,
    pub providers: Vec<SubmittedProvider>,
}

/// What was submitted of a provider.
pub struct SubmittedProviderView {
    pub path: Option<Seq<char>>,
    pub entry: config::EntryView,
}

/// What was submitted of a project.
pub struct SubmittedProjectView {
    pub path: Option<Seq<char>>,
    pub name: Seq<char>,
    pub description: Option<Seq<char>>,
    pub providers: Seq<SubmittedProviderView>,
}

impl View for SubmittedProvider {
    type V = SubmittedProviderView;

    open spec fn view(&self) -> SubmittedProviderView {
        SubmittedProviderView { path: text::opt_view(self.path), entry: self.entry@ }
    }
}

impl View for SubmittedProject {
    type V = SubmittedProjectView;

    open spec fn view(&self) -> SubmittedProjectView {
        SubmittedProjectView {
            path: text::opt_view(self.path),
            name: self.name@,
            description: text::opt_view(self.description),
            providers: text::views(self.providers@),
        }
    }
}

/// The secret to store: what was submitted, the stored one for a mask, and nothing for a mask that
/// stands for no stored one.
pub open spec fn restored_secret(
    submitted: Option<Seq<char>>,
    stored: Option<config::ProviderView>,
) -> Option<Seq<char>> {
    match stored {
        Some(o) => unmasked(submitted, o.access_key_secret),
        None => if submitted == Some(SECRET_MASK@) {
            None
        } else {
            submitted
        },
    }
}

/// The provider to store.
pub open spec fn restored_entry(
    orig: Seq<config::ProjectView>,
    proj_path: Option<Seq<char>>,
    proj_name: Seq<char>,
    s: SubmittedProviderView,
) -> config::EntryView {
    config::EntryView {
        kind: s.entry.kind,
        config: config::ProviderView {
            access_key_secret: restored_secret(
                s.entry.config.access_key_secret,
                orig_provider(orig, proj_path, proj_name, s.entry.kind, s.path),
            ),
            ..s.entry.config
        },
    }
}

/// The project to store.
pub open spec fn restored_project(
    orig: Seq<config::ProjectView>,
    s: SubmittedProjectView,
) -> config::ProjectView {
    config::ProjectView {
        name: s.name,
        description: s.description,
        providers: Seq::new(
            s.providers.len(),
            |k: int| restored_entry(orig, s.path, s.name, s.providers[k]),
        ),
    }
}

/// The projects to store.
pub open spec fn restored_projects(
    orig: Seq<config::ProjectView>,
    submitted: Seq<SubmittedProjectView>,
) -> Seq<config::ProjectView> {
    Seq::new(submitted.len(), |i: int| restored_project(orig, submitted[i]))
}

/// The channel to store.
pub open spec fn restored_notify(
    orig: config::NotifyView,
    submitted: config::NotifyView,
) -> config::NotifyView {
    if submitted.dingtalk.secret == SECRET_MASK@ {
        config::NotifyView {
            dingtalk: config::DingTalkView {
                secret: orig.dingtalk.secret,
                ..submitted.dingtalk
            },
            ..submitted
        }
    } else {
        submitted
    }
}

/// The first name that occurs a second time.
pub open spec fn repeated_name(names: Seq<Seq<char>>) -> Option<Seq<char>>
    decreases names.len(),
{
    if names.len() == 0 {
        None
    } else {
        match repeated_name(names.drop_last()) {
            Some(n) => Some(n),
            None => if names.drop_last().contains(names.last()) {
                Some(names.last())
            } else {
                None
            },
        }
    }
}

/// The project to store.
fn restore_project(orig: &Vec<Project>, s: SubmittedProject) -> (r: Project)
    ensures
        r@ == restored_project(text::views(orig@), s@),
        config::kinds_ascend(submitted_entries(s@.providers)) ==> r.providers.wf(),
{
    let ghost sv = s@;
    let ghost ov = text::views(orig@);
    let ghost all = restored_project(ov, sv).providers;
    let mut out: Vec<ProviderEntry> = Vec::new();
    let path = s.path;
    let name = s.name;
    let providers = s.providers;
    let proj_path = match &path {
        Some(p) => Some(p.as_str()),
        None => None,
    };
    for x in it: providers
        invariant
            it.seq() == providers@,
            ov == text::views(orig@),
            sv.providers == text::views(providers@),
            sv.name == name@,
            sv.path == text::opt_str_view(proj_path),
            all == restored_project(ov, sv).providers,
            text::views(out@) == all.take(it.index() as int),
    {
        let ghost i = it.index() as int;
        let ghost xv = x@;
        assert(sv.providers[i] == xv);
        let prov_path = match &x.path {
            Some(p) => Some(p.as_str()),
            None => None,
        };
        let secret = match find_orig_provider(
            orig,
            proj_path,
            name.as_str(),
            x.entry.kind.as_str(),
            prov_path,
        ) {
            Some(o) => unmask_secret(&x.entry.config.access_key_secret, &o.access_key_secret),
            None => {
                let stray = match &x.entry.config.access_key_secret {
                    Some(t) => text::same(t.as_str(), SECRET_MASK),
                    None => false,
                };
                if stray {
                    None
                } else {
                    copy_opt(&x.entry.config.access_key_secret)
                }
            },
        };
        let e = ProviderEntry {
            kind: x.entry.kind,
            config: ProviderConfig {
                region: x.entry.config.region,
                access_key_id: x.entry.config.access_key_id,
                access_key_secret: secret,
            },
        };
        proof {
            text::lemma_views_push(out@, e);
            assert(e@ == restored_entry(ov, sv.path, sv.name, xv));
            assert(all.take(i + 1) =~= all.take(i).push(e@));
        }
        out.push(e);
    }
    assert(all.take(providers@.len() as int) =~= all);
    proof {
        let entries = submitted_entries(sv.providers);
        if config::kinds_ascend(entries) {
            assert forall|i: int, j: int| 0 <= i < j < all.len() implies text::text_le(
                (#[trigger] all[i]).kind,
                (#[trigger] all[j]).kind,
            ) && all[i].kind != all[j].kind by {
                assert(entries[i].kind == all[i].kind);
                assert(entries[j].kind == all[j].kind);
            }
        }
    }
    Project { name, description: s.description, providers: ProviderMap { entries: out } }
}

/// The first name that occurs a second time.
fn find_repeated_name(projects: &Vec<Project>) -> (r: Option<String>)
    ensures
        text::opt_view(r) == repeated_name(config::project_names(text::views(projects@))),
{
    let ghost names = config::project_names(text::views(projects@));
    let mut seen: Vec<String> = Vec::new();
    let mut i: usize = 0;
    assert(names.take(0) =~= Seq::<Seq<char>>::empty());
    while i < projects.len()
        invariant
            i <= projects.len(),
            names == config::project_names(text::views(projects@)),
            text::views(seen@) == names.take(i as int),
            repeated_name(names.take(i as int)) is None,
        decreases projects.len() - i,
    {
        assert(names[i as int] == projects@[i as int].name@);
        assert(names.take(i + 1).drop_last() =~= names.take(i as int));
        assert(names.take(i + 1).last() == names[i as int]);
        let n = projects[i].name.clone();
        if text::contains_text(&seen, n.as_str()) {
            proof {
                lemma_repeated_prefix(names, i + 1);
            }
            return Some(n);
        }
        proof {
            text::lemma_views_push(seen@, n);
            assert(names.take(i + 1) =~= names.take(i as int).push(n@));
        }
        seen.push(n);
        i = i + 1;
    }
    assert(names.take(i as int) =~= names);
    None
}

/// The first repeated name of a prefix is that of the whole.
pub proof fn lemma_repeated_prefix(names: Seq<Seq<char>>, n: int)
    requires
        0 <= n <= names.len(),
        repeated_name(names.take(n)) is Some,
    ensures
        repeated_name(names) == repeated_name(names.take(n)),
    decreases names.len(),
{
    if n < names.len() {
        assert(names.drop_last().take(n) =~= names.take(n));
        lemma_repeated_prefix(names.drop_last(), n);
    } else {
        assert(names.take(n) =~= names);
    }
}

/// The projects to store, or why nothing is stored: two projects have one name, or they are no
/// valid configuration.
pub open spec fn saved_projects(
    orig: Seq<config::ProjectView>,
    submitted: Seq<SubmittedProjectView>,
) -> Result<Seq<config::ProjectView>, Seq<char>> {
    let restored = restored_projects(orig, submitted);
    match repeated_name(config::project_names(restored)) {
        Some(n) => Err("项目名重复: "@ + n),
        None => match config::projects_fault(restored) {
            Some(m) => Err("校验失败: "@ + m),
            None => Ok(restored),
        },
    }
}

/// Whether the providers of each submitted project come by their kinds, each once.
pub open spec fn submitted_in_order(submitted: Seq<SubmittedProjectView>) -> bool {
    forall|i: int|
        0 <= i < submitted.len() ==> config::kinds_ascend(
            submitted_entries((#[trigger] submitted[i]).providers),
        )
}

/// The submitted providers without their paths.
pub open spec fn submitted_entries(providers: Seq<SubmittedProviderView>) -> Seq<config::EntryView> {
    Seq::new(providers.len(), |k: int| providers[k].entry)
}

/// What is to be stored of what was submitted, given what is stored. Two projects of one name are
/// refused, and so is what is no valid configuration.
pub fn save_config(
    submitted: Vec<SubmittedProject>,
    notify: NotifyConfig,
    orig: &Vec<Project>,
    orig_notify: &NotifyConfig,
) -> (r: Result<(Vec<Project>, NotifyConfig), OpsError>)
    ensures
        match r {
            Ok(x) => saved_projects(text::views(orig@), text::views(submitted@)) == Ok::<
                Seq<config::ProjectView>,
                Seq<char>,
            >(text::views(x.0@)) && x.1@ == restored_notify(orig_notify@, notify@),
            Err(e) => saved_projects(text::views(orig@), text::views(submitted@)) == Err::<
                Seq<config::ProjectView>,
                Seq<char>,
            >(e@),
        },
        r matches Ok(x) ==> (submitted_in_order(text::views(submitted@)) ==> forall|i: int|
            0 <= i < x.0@.len() ==> (#[trigger] x.0@[i]).providers.wf()),
{
    let ghost ov = text::views(orig@);
    let ghost sv = text::views(submitted@);
    let ghost all = restored_projects(ov, sv);
    let mut projects: Vec<Project> = Vec::new();
    for s in it: submitted
        invariant
            it.seq() == submitted@,
            ov == text::views(orig@),
            sv == text::views(submitted@),
            all == restored_projects(ov, sv),
            text::views(projects@) == all.take(it.index() as int),
            submitted_in_order(sv) ==> forall|k: int|
                0 <= k < projects@.len() ==> (#[trigger] projects@[k]).providers.wf(),
    {
        let ghost i = it.index() as int;
        assert(sv[i] == s@);
        let p = restore_project(orig, s);
        proof {
            text::lemma_views_push(projects@, p);
            assert(all.take(i + 1) =~= all.take(i).push(p@));
        }
        projects.push(p);
    }
    assert(all.take(submitted@.len() as int) =~= all);
    let mut notify = notify;
    if text::same(notify.dingtalk.secret.as_str(), SECRET_MASK) {
        notify.dingtalk.secret = orig_notify.dingtalk.secret.clone();
    }
    match find_repeated_name(&projects) {
        Some(n) => {
            let mut m = "项目名重复: ".to_owned();
            m.append(n.as_str());
            Err(OpsError::new(m))
        },
        None => match config::find_fault(&projects) {
            Some(fault) => {
                let mut m = "校验失败: ".to_owned();
                m.append(fault.as_str());
                Err(OpsError::new(m))
            },
            None => Ok((projects, notify)),
        },
    }
}

// ---------------------------------------------------------------------------
// Saving texts
// ---------------------------------------------------------------------------

/// Whether the channel's text says something; where it does not, its file goes.
pub open spec fn has_notify_text(p: Option<Seq<char>>) -> bool {
    p matches Some(t) && text::trim(t).len() > 0
}

impl RawPayload {
    /// The text to store for the channel; nothing where it is absent or blank.
    pub fn notify_text(&self) -> (r: Option<&str>)
        ensures
            text::opt_str_view(r) == if has_notify_text(text::opt_view(self.notify_yml)) {
                text::opt_view(self.notify_yml)
            } else {
                None
            },
    {
        match &self.notify_yml {
            Some(t) => if text::trim_text(t.as_str()).as_str().is_empty() {
                None
            } else {
                Some(t.as_str())
            },
            None => None,
        }
    }
}

// ---------------------------------------------------------------------------
// What is kept
// ---------------------------------------------------------------------------

/// Whether no stored secret is the mask itself.
pub open spec fn no_stored_mask(orig: Seq<config::ProjectView>) -> bool {
    forall|i: int, k: int|
        0 <= i < orig.len() && 0 <= k < orig[i].providers.len() ==> (
        #[trigger] orig[i].providers[k]).config.access_key_secret != Some(SECRET_MASK@)
}

/// The project that was found is a stored one.
proof fn lemma_orig_project(
    orig: Seq<config::ProjectView>,
    path: Option<Seq<char>>,
    name: Seq<char>,
)
    ensures
        orig_project(orig, path, name) matches Some(p) ==> exists|i: int|
            0 <= i < orig.len() && #[trigger] orig[i] == p,
{
    if path is None {
        lemma_first_named(orig, name);
    }
}

/// The first of a name is one of the projects.
proof fn lemma_first_named(projects: Seq<config::ProjectView>, name: Seq<char>)
    ensures
        config::first_named(projects, name) matches Some(p) ==> exists|i: int|
            0 <= i < projects.len() && #[trigger] projects[i] == p,
    decreases projects.len(),
{
    if projects.len() > 0 {
        if projects[0].name != name {
            let rest = projects.drop_first();
            lemma_first_named(rest, name);
            if let Some(p) = config::first_named(rest, name) {
                let i = choose|i: int| 0 <= i < rest.len() && #[trigger] rest[i] == p;
                assert(projects[i + 1] == p);
            }
        } else {
            assert(projects[0] == projects[0]);
        }
    }
}

/// The mask itself is never stored: whatever is submitted, no secret of a provider that is to be
/// stored is the mask, as long as none that is stored is.
pub proof fn law_mask_is_never_stored(
    orig: Seq<config::ProjectView>,
    submitted: Seq<SubmittedProjectView>,
)
    requires
        no_stored_mask(orig),
    ensures
        no_stored_mask(restored_projects(orig, submitted)),
{
    let r = restored_projects(orig, submitted);
    assert forall|i: int, k: int|
        0 <= i < r.len() && 0 <= k < r[i].providers.len() implies (
    #[trigger] r[i].providers[k]).config.access_key_secret != Some(SECRET_MASK@) by {
        let s = submitted[i];
        let x = s.providers[k];
        assert(r[i].providers[k] == restored_entry(orig, s.path, s.name, x));
        let found = orig_provider(orig, s.path, s.name, x.entry.kind, x.path);
        if let Some(o) = found {
            let path = match x.path {
                Some(pp) => {
                    let parts = text::rsplit_once(pp, '/')->0;
                    Some(parts.0)
                },
                None => s.path,
            };
            let project = orig_project(orig, path, s.name);
            lemma_orig_project(orig, path, s.name);
            let p = project->0;
            config::lemma_entry_of(p.providers, x.entry.kind);
            let a = choose|a: int| 0 <= a < orig.len() && #[trigger] orig[a] == p;
            let b = choose|b: int|
                0 <= b < p.providers.len() && (#[trigger] p.providers[b]) == (config::EntryView {
                    kind: x.entry.kind,
                    config: o,
                });
            assert(orig[a].providers[b].config.access_key_secret != Some(SECRET_MASK@));
        }
    }
}

/// The channel's mask is never stored either.
pub proof fn law_notify_mask_is_never_stored(
    orig: config::NotifyView,
    submitted: config::NotifyView,
)
    requires
        orig.dingtalk.secret != SECRET_MASK@,
    ensures
        restored_notify(orig, submitted).dingtalk.secret != SECRET_MASK@,
{
}

/// A provider as it is shown, sent back unchanged.
pub open spec fn sent_back_provider(s: ShownProviderView) -> SubmittedProviderView {
    SubmittedProviderView {
        path: Some(s.path),
        entry: config::EntryView { kind: s.kind, config: s.config },
    }
}

/// A project as it is shown, sent back under a name.
pub open spec fn sent_back(s: ShownProjectView, name: Seq<char>) -> SubmittedProjectView {
    SubmittedProjectView {
        path: Some(s.path),
        name,
        description: s.description,
        providers: Seq::new(s.providers.len(), |k: int| sent_back_provider(s.providers[k])),
    }
}

/// The provider with an empty secret as none.
pub open spec fn without_empty_secret(e: config::EntryView) -> config::EntryView {
    config::EntryView {
        kind: e.kind,
        config: config::ProviderView {
            access_key_secret: if config::given(e.config.access_key_secret) {
                e.config.access_key_secret
            } else {
                None
            },
            ..e.config
        },
    }
}

/// The path of a provider is taken apart as it was put together.
pub proof fn lemma_path_taken_apart(i: nat, kind: Seq<char>)
    requires
        !kind.contains('/'),
    ensures
        text::rsplit_once(provider_path(i, kind), '/') == Some((text::dec(i), kind)),
{
    let s = provider_path(i, kind);
    let n = text::dec(i).len() as int;
    reveal_strlit("/");
    assert(s[n] == '/');
    text::lemma_last_index(s, '/');
    let l = text::last_index(s, '/');
    assert(s.contains('/'));
    if l > n {
        assert(s[l] == kind[l - n - 1]);
        assert(kind.contains('/'));
    }
    assert(l == n);
    assert(s.subrange(0, n) =~= text::dec(i));
    assert(s.subrange(n + 1, s.len() as int) =~= kind);
}

/// What is shown can be saved: a project that is sent back as it was shown, even under another
/// name, is stored with the secrets that it had; a secret that was empty is stored as none. This
/// holds where no kind has a slash in it and none occurs twice.
pub proof fn law_shown_can_be_saved(orig: Seq<config::ProjectView>, i: int, name: Seq<char>)
    requires
        0 <= i < orig.len(),
        config::kinds_ascend(orig[i].providers),
        forall|k: int|
            0 <= k < orig[i].providers.len() ==> !(#[trigger] orig[i].providers[k]).kind.contains(
                '/',
            ),
    ensures
        restored_project(orig, sent_back(shown_projects(orig)[i], name)) == (config::ProjectView {
            name,
            description: orig[i].description,
            providers: Seq::new(
                orig[i].providers.len(),
                |k: int| without_empty_secret(orig[i].providers[k]),
            ),
        }),
{
    let shown = shown_projects(orig)[i];
    let s = sent_back(shown, name);
    let r = restored_project(orig, s);
    let entries = orig[i].providers;
    let want = Seq::new(entries.len(), |k: int| without_empty_secret(entries[k]));
    assert forall|k: int| 0 <= k < entries.len() implies r.providers[k] == want[k] by {
        let e = entries[k];
        let x = s.providers[k];
        assert(x == sent_back_provider(shown_provider(i as nat, e)));
        lemma_path_taken_apart(i as nat, e.kind);
        text::law_parse_print(i);
        assert(orig_project(orig, Some(text::dec(i as nat)), name) == Some(orig[i]));
        config::lemma_entry_at(entries, k);
        assert(orig_provider(orig, s.path, name, e.kind, x.path) == Some(e.config));
        if !config::given(e.config.access_key_secret) {
            assert(x.entry.config.access_key_secret is None);
        }
    }
    assert(r.providers =~= want);
}

/// The channel as it is shown can be saved: it is stored as it was.
pub proof fn law_shown_notify_can_be_saved(n: config::NotifyView)
    ensures
        restored_notify(n, shown_notify(n)) == n,
{
    reveal_strlit("••••••••");
}

/// No repeated name means that each project has a name of its own.
pub proof fn law_saved_names_are_unique(names: Seq<Seq<char>>)
    ensures
        repeated_name(names) is None <==> names.no_duplicates(),
    decreases names.len(),
{
    if names.len() > 0 {
        let t = names.drop_last();
        law_saved_names_are_unique(t);
        if repeated_name(names) is None {
            assert forall|a: int, b: int| 0 <= a < b < names.len() implies names[a] != names[b] by {
                if b == names.len() - 1 {
                    if names[a] == names[b] {
                        assert(t[a] == names.last());
                        assert(t.contains(names.last()));
                    }
                } else {
                    assert(t[a] != t[b]);
                }
            }
        } else if names.no_duplicates() {
            assert forall|a: int, b: int| 0 <= a < t.len() && 0 <= b < t.len() && a
                != b implies t[a] != t[b] by {
                assert(names[a] != names[b]);
            }
            assert(t.no_duplicates());
            assert(t.contains(names.last()));
            let a = choose|a: int| 0 <= a < t.len() && t[a] == names.last();
            assert(names[a] == names[names.len() - 1]);
        }
    }
}

/// The project as it is stored after the form was sent back.
pub open spec fn settled(p: config::ProjectView) -> config::ProjectView {
    config::ProjectView {
        providers: Seq::new(p.providers.len(), |k: int| without_empty_secret(p.providers[k])),
        ..p
    }
}

/// A form that is sent back as it was shown is accepted and changes nothing, but that an empty
/// secret becomes none.
pub proof fn law_unchanged_form_keeps_all(orig: Seq<config::ProjectView>)
    requires
        forall|i: int|
            0 <= i < orig.len() ==> config::kinds_ascend((#[trigger] orig[i]).providers),
        forall|i: int, k: int|
            0 <= i < orig.len() && 0 <= k < orig[i].providers.len() ==> !(
            #[trigger] orig[i].providers[k]).kind.contains('/'),
        config::project_names(orig).no_duplicates(),
        config::projects_fault(orig) is None,
    ensures
        saved_projects(
            orig,
            Seq::new(orig.len(), |i: int| sent_back(shown_projects(orig)[i], orig[i].name)),
        ) == Ok::<Seq<config::ProjectView>, Seq<char>>(
            Seq::new(orig.len(), |i: int| settled(orig[i])),
        ),
{
    let sent = Seq::new(orig.len(), |i: int| sent_back(shown_projects(orig)[i], orig[i].name));
    let want = Seq::new(orig.len(), |i: int| settled(orig[i]));
    let restored = restored_projects(orig, sent);
    assert forall|i: int| 0 <= i < orig.len() implies restored[i] == want[i] by {
        assert forall|k: int| 0 <= k < orig[i].providers.len() implies !(
        #[trigger] orig[i].providers[k]).kind.contains('/') by {}
        law_shown_can_be_saved(orig, i, orig[i].name);
    }
    assert(restored =~= want);
    assert(config::project_names(restored) =~= config::project_names(orig));
    law_saved_names_are_unique(config::project_names(orig));
    assert(config::all_named(restored)) by {
        assert forall|i: int| 0 <= i < restored.len() implies (#[trigger] restored[i]).name.len()
            > 0 by {
            assert(orig[i].name.len() > 0);
        }
    }
}

} // verus!
