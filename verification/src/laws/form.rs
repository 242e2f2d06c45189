//! The configuration form: what is shown, what is stored of what comes back, and what is refused.

use vstd::prelude::*;
use crate::config;
use crate::config::{EntryView, NotifyView, ProjectView, ProviderView};
use crate::serve::api;
use crate::serve::api::{SubmittedProjectView, SubmittedProviderView};
use crate::text;

verus! {

/// What stands for a secret: eight bullets.
pub open spec fn mask() -> Seq<char> {
    "••••••••"@
}

// ---------------------------------------------------------------------------
// What is shown
// ---------------------------------------------------------------------------

/// Everything is shown as it is stored, project by project and provider by provider, but the secrets:
/// the mask stands for one that is not empty. Each has its path: the number of the project, and for a
/// provider a slash and its kind behind it.
pub proof fn law_what_is_shown(projects: Seq<ProjectView>, notify: NotifyView)
    ensures
        ({
            let shown = api::shown_projects(projects);
            let n = api::shown_notify(notify);
            &&& shown.len() == projects.len()
            &&& forall|i: int|
                0 <= i < projects.len() ==> (#[trigger] shown[i]).path == text::dec(i as nat)
                    && shown[i].name == projects[i].name && shown[i].description
                    == projects[i].description && shown[i].providers.len()
                    == projects[i].providers.len()
            &&& forall|i: int, k: int|
                0 <= i < projects.len() && 0 <= k < projects[i].providers.len() ==> {
                    let e = projects[i].providers[k];
                    let x = #[trigger] shown[i].providers[k];
                    &&& x.kind == e.kind
                    &&& x.path == text::dec(i as nat) + "/"@ + e.kind
                    &&& x.config.region == e.config.region
                    &&& x.config.access_key_id == e.config.access_key_id
                    &&& x.config.access_key_secret == (match e.config.access_key_secret {
                        Some(s) => if s.len() > 0 {
                            Some(mask())
                        } else {
                            None
                        },
                        None => None,
                    })
                }
            &&& n.kind == notify.kind
            &&& n.prefix == notify.prefix
            &&& n.dingtalk.webhook == notify.dingtalk.webhook
            &&& n.dingtalk.secret == if notify.dingtalk.secret.len() > 0 {
                mask()
            } else {
                notify.dingtalk.secret
            }
        }),
{
}

// ---------------------------------------------------------------------------
// What is stored
// ---------------------------------------------------------------------------

/// Whatever is submitted and saved is stored as it was submitted: every project with its name and
/// description, every provider with its kind, its region and its key, also where something else is
/// stored; and every secret but the mask.
pub proof fn law_saved_as_submitted(orig: Seq<ProjectView>, submitted: Seq<SubmittedProjectView>)
    ensures
        api::saved_projects(orig, submitted) matches Ok(r) ==> {
            &&& r.len() == submitted.len()
            &&& forall|i: int|
                0 <= i < r.len() ==> (#[trigger] r[i]).name == submitted[i].name && r[i].description
                    == submitted[i].description && r[i].providers.len()
                    == submitted[i].providers.len()
            &&& forall|i: int, k: int|
                0 <= i < r.len() && 0 <= k < r[i].providers.len() ==> {
                    let s = submitted[i].providers[k].entry;
                    let e = #[trigger] r[i].providers[k];
                    &&& e.kind == s.kind
                    &&& e.config.region == s.config.region
                    &&& e.config.access_key_id == s.config.access_key_id
                    &&& s.config.access_key_secret != Some(mask()) ==> e.config.access_key_secret
                        == s.config.access_key_secret
                }
        },
{
}

/// A saved secret for which the mask was submitted.
pub open spec fn secret_for_mask(
    orig: Seq<ProjectView>,
    project_path: Option<Seq<char>>,
    project_name: Seq<char>,
    s: SubmittedProviderView,
) -> Option<Seq<char>> {
    api::restored_entry(orig, project_path, project_name, s).config.access_key_secret
}

/// The mask stands for the secret of the same kind in the stored project: in the one with the number
/// that the provider's path has before the slash; without a path of the provider, in the one with the
/// number of the project's path; without any, in the first one of the name. Whatever the project is
/// called now, and wherever it stands in the form, does not matter where there is a path.
pub proof fn law_mask_stands_for_the_stored_secret(
    orig: Seq<ProjectView>,
    i: int,
    k: int,
    s: SubmittedProviderView,
    project_path: Option<Seq<char>>,
    project_name: Seq<char>,
)
    requires
        0 <= i < orig.len(),
        0 <= k < orig[i].providers.len(),
        config::kinds_ascend(orig[i].providers),
        s.entry.kind == orig[i].providers[k].kind,
        s.entry.config.access_key_secret == Some(mask()),
    ensures
        ({
            let stored = orig[i].providers[k].config.access_key_secret;
            let secret = secret_for_mask(orig, project_path, project_name, s);
            &&& s.path == Some(text::dec(i as nat) + "/"@ + s.entry.kind) && !s.entry.kind.contains('/')
                ==> secret == stored
            &&& s.path is None && project_path == Some(text::dec(i as nat)) ==> secret == stored
            &&& s.path is None && project_path is None && orig[i].name == project_name && (forall|j: int|
                0 <= j < i ==> (#[trigger] orig[j]).name != project_name) ==> secret == stored
        }),
{
    let entries = orig[i].providers;
    assert forall|a: int, b: int| 0 <= a < b < entries.len() implies (#[trigger] entries[a]).kind != (
    #[trigger] entries[b]).kind by {}
    config::lemma_entry_at(entries, k);
    text::law_parse_print(i);
    if s.path == Some(text::dec(i as nat) + "/"@ + s.entry.kind) && !s.entry.kind.contains('/') {
        api::lemma_path_taken_apart(i as nat, s.entry.kind);
        assert(api::orig_project(orig, Some(text::dec(i as nat)), project_name) == Some(orig[i]));
    }
    if orig[i].name == project_name && (forall|j: int|
        0 <= j < i ==> (#[trigger] orig[j]).name != project_name) {
        super::settings::law_first_of_a_name(orig, project_name, i);
    }
}

/// The mask stands for no secret where nothing is stored for it: the path names another kind, or no
/// project, or a project without the kind.
pub proof fn law_stray_mask(
    orig: Seq<ProjectView>,
    s: SubmittedProviderView,
    project_path: Option<Seq<char>>,
    project_name: Seq<char>,
    before: Seq<char>,
    kind: Seq<char>,
    n: nat,
)
    requires
        s.entry.config.access_key_secret == Some(mask()),
        !kind.contains('/'),
    ensures
        s.path == Some(before + "/"@ + kind) && kind != s.entry.kind ==> secret_for_mask(
            orig,
            project_path,
            project_name,
            s,
        ) is None,
        s.path matches Some(p) && !p.contains('/') ==> secret_for_mask(
            orig,
            project_path,
            project_name,
            s,
        ) is None,
        s.path == Some(text::dec(n) + "/"@ + kind) && n >= orig.len() ==> secret_for_mask(
            orig,
            project_path,
            project_name,
            s,
        ) is None,
        s.path is None && project_path == Some(text::dec(n)) && n >= orig.len() ==> secret_for_mask(
            orig,
            project_path,
            project_name,
            s,
        ) is None,
        s.path is None && project_path is None && (forall|j: int|
            0 <= j < orig.len() ==> (#[trigger] orig[j]).name != project_name) ==> secret_for_mask(
            orig,
            project_path,
            project_name,
            s,
        ) is None,
{
    reveal_strlit("/");
    assert(before + "/"@ + kind =~= before.push('/') + kind);
    super::words::law_parting_at_the_last(before, kind, '/');
    if let Some(p) = s.path {
        if !p.contains('/') {
            super::words::law_parting_at_the_last(before, p, '/');
        }
    }
    api::lemma_path_taken_apart(n, kind);
    text::law_parse_print(n as int);
    if forall|j: int| 0 <= j < orig.len() ==> (#[trigger] orig[j]).name != project_name {
        super::settings::law_first_of_a_name(orig, project_name, orig.len() as int);
    }
}

/// The channel is stored as it was submitted, but that the mask stands for the stored secret.
pub proof fn law_saved_channel(orig: NotifyView, submitted: NotifyView)
    ensures
        ({
            let n = api::restored_notify(orig, submitted);
            &&& n.kind == submitted.kind
            &&& n.prefix == submitted.prefix
            &&& n.dingtalk.webhook == submitted.dingtalk.webhook
            &&& n.dingtalk.secret == if submitted.dingtalk.secret == mask() {
                orig.dingtalk.secret
            } else {
                submitted.dingtalk.secret
            }
        }),
{
}

// ---------------------------------------------------------------------------
// What is refused
// ---------------------------------------------------------------------------

/// A form is saved just where it has a project, each has a name, and no two have the same. What is
/// stored does not matter for that.
pub proof fn law_what_is_refused(orig: Seq<ProjectView>, submitted: Seq<SubmittedProjectView>)
    ensures
        api::saved_projects(orig, submitted) is Ok <==> {
            &&& submitted.len() > 0
            &&& forall|i: int| 0 <= i < submitted.len() ==> (#[trigger] submitted[i]).name.len() > 0
            &&& forall|i: int, j: int|
                0 <= i < j < submitted.len() ==> (#[trigger] submitted[i]).name != (
                #[trigger] submitted[j]).name
        },
{
    let restored = api::restored_projects(orig, submitted);
    let names = config::project_names(restored);
    api::law_saved_names_are_unique(names);
    assert(names.len() == submitted.len());
    assert forall|i: int| 0 <= i < submitted.len() implies #[trigger] names[i] == submitted[i].name by {}
    if names.no_duplicates() {
        assert forall|i: int, j: int| 0 <= i < j < submitted.len() implies (#[trigger] submitted[i]).name
            != (#[trigger] submitted[j]).name by {
            assert(names[i] != names[j]);
        }
    } else {
        let (a, b) = choose|a: int, b: int|
            0 <= a < names.len() && 0 <= b < names.len() && a != b && names[a] == names[b];
        assert(submitted[a].name == submitted[b].name);
    }
    if config::all_named(restored) {
        assert forall|i: int| 0 <= i < submitted.len() implies (#[trigger] submitted[i]).name.len()
            > 0 by {
            assert(restored[i].name.len() > 0);
        }
    } else {
        let i = choose|i: int| 0 <= i < restored.len() && !((#[trigger] restored[i]).name.len() > 0);
        assert(submitted[i].name.len() == 0);
    }
}

/// What a refusal tells of: the name that a second project has, which is one that a project before it
/// has; and only where there is none, that there is no project or one without a name.
pub proof fn law_refusals(orig: Seq<ProjectView>, submitted: Seq<SubmittedProjectView>, k: int)
    requires
        0 <= k <= submitted.len(),
        forall|i: int, j: int|
            0 <= i < j < k ==> (#[trigger] submitted[i]).name != (#[trigger] submitted[j]).name,
        k < submitted.len() ==> exists|i: int|
            0 <= i < k && (#[trigger] submitted[i]).name == submitted[k].name,
    ensures
        k < submitted.len() ==> api::saved_projects(orig, submitted) == Err::<
            Seq<ProjectView>,
            Seq<char>,
        >("项目名重复: "@ + submitted[k].name),
        k == submitted.len() && submitted.len() == 0 ==> api::saved_projects(orig, submitted) == Err::<
            Seq<ProjectView>,
            Seq<char>,
        >("校验失败: "@ + "没有配置任何项目（需要至少一个项目条目）"@),
        k == submitted.len() && (exists|i: int|
            0 <= i < submitted.len() && (#[trigger] submitted[i]).name.len() == 0)
            ==> api::saved_projects(orig, submitted) == Err::<Seq<ProjectView>, Seq<char>>(
            "校验失败: "@ + "项目名不能为空"@,
        ),
{
    let restored = api::restored_projects(orig, submitted);
    let names = config::project_names(restored);
    assert(names.len() == submitted.len());
    assert forall|i: int| 0 <= i < submitted.len() implies #[trigger] names[i] == submitted[i].name by {}
    let before = names.take(k);
    assert(before.no_duplicates()) by {
        assert forall|a: int, b: int| 0 <= a < before.len() && 0 <= b < before.len() && a != b implies before[a]
            != before[b] by {
            if a < b {
                assert(submitted[a].name != submitted[b].name);
            } else {
                assert(submitted[b].name != submitted[a].name);
            }
        }
    }
    api::law_saved_names_are_unique(before);
    if k < submitted.len() {
        let i = choose|i: int| 0 <= i < k && (#[trigger] submitted[i]).name == submitted[k].name;
        let upto = names.take(k + 1);
        assert(upto.drop_last() =~= before);
        assert(before[i] == names[k]);
        assert(before.contains(upto.last()));
        api::lemma_repeated_prefix(names, k + 1);
    } else {
        assert(before =~= names);
        if exists|i: int| 0 <= i < submitted.len() && (#[trigger] submitted[i]).name.len() == 0 {
            let i = choose|i: int|
                0 <= i < submitted.len() && (#[trigger] submitted[i]).name.len() == 0;
            assert(restored[i].name.len() == 0);
        }
    }
}

/// The text for the channel is stored where it has more than white space in it, and then as it is.
pub proof fn law_text_of_the_channel(p: Option<Seq<char>>)
    ensures
        api::has_notify_text(p) <==> (p matches Some(t) && exists|i: int|
            0 <= i < t.len() && !super::words::white(#[trigger] t[i])),
{
    if let Some(t) = p {
        super::words::law_trimming(t);
        let (i, j) = choose|i: int, j: int|
            0 <= i <= j <= t.len() && text::trim(t) == #[trigger] t.subrange(i, j) && (forall|k: int|
                0 <= k < t.len() && !(i <= k < j) ==> super::words::white(#[trigger] t[k])) && (i < j
                ==> !super::words::white(t[i]) && !super::words::white(t[j - 1]));
        if i < j {
            assert(!super::words::white(t[i]));
        }
    }
}

/// A secret is masked where it is there and not empty, and a mask stands for what is stored.
pub proof fn law_masks(v: Option<Seq<char>>, stored: Option<Seq<char>>)
    ensures
        api::masked(v) == if v matches Some(s) && s.len() > 0 {
            Some(mask())
        } else {
            None
        },
        api::unmasked(v, stored) == if v == Some(mask()) {
            stored
        } else {
            v
        },
{
}

/// A project is found by the number in its path, whatever its name, and without a path by its name;
/// a provider is found in the project by its kind, with all that is stored of it.
pub proof fn law_finding_again(
    orig: Seq<ProjectView>,
    n: nat,
    name: Seq<char>,
    kind: Seq<char>,
    path: Seq<char>,
)
    ensures
        api::orig_project(orig, Some(text::dec(n)), name) == if n < orig.len() {
            Some(orig[n as int])
        } else {
            None
        },
        api::orig_project(orig, None, name) == config::first_named(orig, name),
        text::parse_nat(path) is None ==> api::orig_project(orig, Some(path), name) is None,
        api::orig_provider(orig, Some(path), name, kind, None) == (match api::orig_project(
            orig,
            Some(path),
            name,
        ) {
            Some(p) => config::entry_of(p.providers, kind),
            None => None,
        }),
        api::orig_provider(orig, None, name, kind, None) == (match config::first_named(orig, name) {
            Some(p) => config::entry_of(p.providers, kind),
            None => None,
        }),
        !kind.contains('/') ==> api::orig_provider(
            orig,
            Some(path),
            name,
            kind,
            Some(text::dec(n) + "/"@ + kind),
        ) == if n < orig.len() {
            config::entry_of(orig[n as int].providers, kind)
        } else {
            None
        },
{
    text::law_parse_print(n as int);
    if !kind.contains('/') {
        api::lemma_path_taken_apart(n, kind);
    }
}

} // verus!
