//! The commands: what they are run for, what they gather, and how they end.

use vstd::prelude::*;
use crate::cloud::aliyun;
use crate::cloud::driver;
use crate::cloud::driver::{DiskGroup, Driver};
use crate::codec;
use crate::config;
use crate::config::{Config, Project};
use crate::error::OpsError;
use crate::ops::disk;
use crate::ops::disk::DiskStatus;
use crate::ops::ecs;
use crate::ops::ecs::AutoSnapshotStatus;
use crate::ops::expiry;
use crate::ops::expiry::{DomainAlert, ExpiryAlert};
use crate::text;

verus! {

// ---------------------------------------------------------------------------
// Arguments
// ---------------------------------------------------------------------------

/// The numbers of the pieces, or the first piece that is none. White space around a piece does not
/// count, and a blank piece is passed over.
pub open spec fn piece_numbers(pieces: Seq<Seq<char>>) -> Result<Seq<i64>, Seq<char>>
    decreases pieces.len(),
{
    if pieces.len() == 0 {
        Ok(Seq::empty())
    } else {
        match piece_numbers(pieces.drop_last()) {
            Err(p) => Err(p),
            Ok(v) => {
                let p = text::trim(pieces.last());
                if p.len() == 0 {
                    Ok(v)
                } else {
                    match text::parse_int(p) {
                        Some(n) => if i64::MIN <= n <= i64::MAX {
                            Ok(v.push(n as i64))
                        } else {
                            Err(p)
                        },
                        None => Err(p),
                    }
                }
            },
        }
    }
}

/// The thresholds of a list with commas, or what is wrong with it. There has to be one.
pub open spec fn thresholds_of(days: Seq<char>) -> Result<Seq<i64>, Seq<char>> {
    match piece_numbers(text::split(days, ',')) {
        Err(p) => Err("--days 参数无效: "@ + codec::debug_text(p) + "（格式如 30,15,3）"@),
        Ok(v) => if v.len() == 0 {
            Err("--days 至少需要一个阈值（如 30,15,3）"@)
        } else {
            Ok(v)
        },
    }
}

/// The numbers of a prefix fail where it fails.
proof fn lemma_piece_numbers_prefix(pieces: Seq<Seq<char>>, n: int)
    requires
        0 <= n <= pieces.len(),
        piece_numbers(pieces.take(n)) is Err,
    ensures
        piece_numbers(pieces) == piece_numbers(pieces.take(n)),
    decreases pieces.len(),
{
    if n < pieces.len() {
        assert(pieces.drop_last().take(n) =~= pieces.take(n));
        lemma_piece_numbers_prefix(pieces.drop_last(), n);
    } else {
        assert(pieces.take(n) =~= pieces);
    }
}

/// Reads the thresholds of a list with commas.
pub fn parse_thresholds(days: &str) -> (r: Result<Vec<i64>, OpsError>)
    ensures
        match r {
            Ok(v) => thresholds_of(days@) == Ok::<Seq<i64>, Seq<char>>(v@),
            Err(e) => thresholds_of(days@) == Err::<Seq<i64>, Seq<char>>(e@),
        },
{
    let pieces = text::split_text(days, ',');
    let ghost all = text::views(pieces@);
    let mut out: Vec<i64> = Vec::new();
    let mut i: usize = 0;
    assert(all.take(0) =~= Seq::<Seq<char>>::empty());
    assert(out@ =~= Seq::<i64>::empty());
    while i < pieces.len()
        invariant
            i <= pieces.len(),
            all == text::views(pieces@),
            all == text::split(days@, ','),
            piece_numbers(all.take(i as int)) == Ok::<Seq<i64>, Seq<char>>(out@),
        decreases pieces.len() - i,
    {
        assert(all.take(i + 1).drop_last() =~= all.take(i as int));
        assert(all.take(i + 1).last() == pieces@[i as int]@);
        let p = text::trim_text(pieces[i].as_str());
        if !p.as_str().is_empty() {
            match text::parse_i64(p.as_str()) {
                Some(n) => {
                    out.push(n);
                },
                None => {
                    proof {
                        lemma_piece_numbers_prefix(all, i + 1);
                    }
                    let mut m = "--days 参数无效: ".to_owned();
                    let q = codec::quote(p.as_str());
                    m.append(q.as_str());
                    m.append("（格式如 30,15,3）");
                    return Err(OpsError::new(m));
                },
            }
        }
        i = i + 1;
    }
    assert(all.take(i as int) =~= all);
    if out.is_empty() {
        return Err(OpsError::new("--days 至少需要一个阈值（如 30,15,3）".to_owned()));
    }
    Ok(out)
}

/// The numbers of printed integers.
proof fn lemma_printed_numbers(v: Seq<i64>)
    ensures
        piece_numbers(expiry::threshold_texts(v)) == Ok::<Seq<i64>, Seq<char>>(v),
    decreases v.len(),
{
    let pieces = expiry::threshold_texts(v);
    if v.len() > 0 {
        lemma_printed_numbers(v.drop_last());
        assert(pieces.drop_last() =~= expiry::threshold_texts(v.drop_last()));
        text::lemma_dec_int_chars(v.last() as int);
        text::law_parse_print(v.last() as int);
        assert(v.drop_last().push(v.last()) =~= v);
    } else {
        assert(v =~= Seq::empty());
    }
}

/// Thresholds that are written as a list with commas are read as they were.
pub proof fn law_thresholds_round_trip(v: Seq<i64>)
    requires
        v.len() > 0,
    ensures
        thresholds_of(text::join(expiry::threshold_texts(v), ","@)) == Ok::<Seq<i64>, Seq<char>>(v),
{
    let pieces = expiry::threshold_texts(v);
    reveal_strlit(",");
    assert(","@ =~= seq![',']);
    assert forall|i: int| 0 <= i < pieces.len() implies !(#[trigger] pieces[i]).contains(',') by {
        text::lemma_dec_int_chars(v[i] as int);
    }
    text::law_join_split(pieces, ',');
    lemma_printed_numbers(v);
}

/// The projects that a command is run for: the one of the name, or all.
pub fn select_projects<'a>(cfg: &'a Config, name: Option<&str>) -> (r: Result<
    Vec<&'a Project>,
    OpsError,
>)
    ensures
        match name {
            None => r matches Ok(v) && text::views(v@) == cfg@.projects,
            Some(n) => match r {
                Ok(v) => config::first_named(cfg@.projects, n@) matches Some(p) && text::views(v@)
                    == seq![p],
                Err(e) => config::first_named(cfg@.projects, n@) is None && e@
                    == config::no_such_project(cfg@.projects, n@),
            },
        },
{
    let mut out: Vec<&'a Project> = Vec::new();
    match name {
        Some(_) => match cfg.select_project(name) {
            Ok(p) => {
                out.push(p);
                assert(text::views(out@) =~= seq![p@]);
                Ok(out)
            },
            Err(e) => Err(e),
        },
        None => {
            let mut i: usize = 0;
            while i < cfg.projects.len()
                invariant
                    i <= cfg.projects.len(),
                    text::views(out@) == cfg@.projects.take(i as int),
                decreases cfg.projects.len() - i,
            {
                let p = &cfg.projects[i];
                proof {
                    text::lemma_views_push(out@, p);
                    assert(cfg@.projects.take(i + 1) =~= cfg@.projects.take(i as int).push(p@));
                }
                out.push(p);
                i = i + 1;
            }
            assert(cfg@.projects.take(i as int) =~= cfg@.projects);
            Ok(out)
        },
    }
}

/// The drivers of the kinds, those left out that there are none for.
pub open spec fn drivers_of(kinds: Seq<Seq<char>>) -> Seq<Driver>
    decreases kinds.len(),
{
    if kinds.len() == 0 {
        Seq::empty()
    } else {
        match driver::driver_of(kinds.last()) {
            Some(d) => drivers_of(kinds.drop_last()).push(d),
            None => drivers_of(kinds.drop_last()),
        }
    }
}

/// The kinds that there is no driver for.
pub open spec fn unknown_kinds(kinds: Seq<Seq<char>>) -> Seq<Seq<char>>
    decreases kinds.len(),
{
    if kinds.len() == 0 {
        Seq::empty()
    } else {
        match driver::driver_of(kinds.last()) {
            Some(_) => unknown_kinds(kinds.drop_last()),
            None => unknown_kinds(kinds.drop_last()).push(kinds.last()),
        }
    }
}

/// That there is no driver for the kind that was asked for.
pub open spec fn not_implemented(kind: Seq<char>) -> Seq<char> {
    "服务商 "@ + codec::debug_text(kind) + " 尚未实现（目前仅支持: "@ + text::join(
        driver::registered_kinds(),
        ", "@,
    ) + "）"@
}

/// The drivers that a command is run with in the project: the one that was asked for, which has to
/// exist and to be configured, or those of all configured kinds that have one.
pub open spec fn project_drivers(project: config::ProjectView, filter: Option<Seq<char>>) -> Result<
    Seq<Driver>,
    Seq<char>,
> {
    match filter {
        Some(k) => match driver::driver_of(k) {
            None => Err(not_implemented(k)),
            Some(d) => if config::kinds_of(project.providers).contains(k) {
                Ok(seq![d])
            } else {
                Err(config::not_configured(project, k))
            },
        },
        None => Ok(drivers_of(config::kinds_of(project.providers))),
    }
}

/// The kinds of all drivers, with commas between.
fn kinds_list() -> (r: String)
    ensures
        r@ == text::join(driver::registered_kinds(), ", "@),
{
    let kinds = driver::supported_kinds();
    let ghost all = text::views(kinds@);
    let mut list: Vec<String> = Vec::new();
    let mut i: usize = 0;
    while i < kinds.len()
        invariant
            i <= kinds.len(),
            all == text::views(kinds@),
            text::views(list@) == all.take(i as int),
        decreases kinds.len() - i,
    {
        let s = kinds[i].to_owned();
        proof {
            text::lemma_views_push(list@, s);
            assert(all[i as int] == kinds@[i as int]@);
            assert(all.take(i + 1) =~= all.take(i as int).push(s@));
        }
        list.push(s);
        i = i + 1;
    }
    assert(all.take(i as int) =~= all);
    text::join_strings(&list, ", ")
}

/// The drivers that a command is run with in the project.
pub fn drivers_for_project(project: &Project, filter: Option<&str>) -> (r: Result<
    Vec<Driver>,
    OpsError,
>)
    ensures
        match r {
            Ok(v) => project_drivers(project@, text::opt_str_view(filter)) == Ok::<
                Seq<Driver>,
                Seq<char>,
            >(v@),
            Err(e) => project_drivers(project@, text::opt_str_view(filter)) == Err::<
                Seq<Driver>,
                Seq<char>,
            >(e@),
        },
{
    let mut out: Vec<Driver> = Vec::new();
    match filter {
        Some(k) => match driver::driver(k) {
            None => {
                let mut m = "服务商 ".to_owned();
                let q = codec::quote(k);
                m.append(q.as_str());
                m.append(" 尚未实现（目前仅支持: ");
                let l = kinds_list();
                m.append(l.as_str());
                m.append("）");
                Err(OpsError::new(m))
            },
            Some(d) => {
                if !project.providers.contains_key(k) {
                    return Err(config::not_configured_error(project, k));
                }
                out.push(d);
                assert(out@ =~= seq![d]);
                Ok(out)
            },
        },
        None => {
            let keys = project.providers.keys();
            let ghost kinds = config::kinds_of(project@.providers);
            let mut i: usize = 0;
            assert(out@ =~= drivers_of(kinds.take(0)));
            while i < keys.len()
                invariant
                    i <= keys.len(),
                    kinds == text::views(keys@),
                    out@ == drivers_of(kinds.take(i as int)),
                decreases keys.len() - i,
            {
                assert(kinds.take(i + 1).drop_last() =~= kinds.take(i as int));
                assert(kinds.take(i + 1).last() == keys@[i as int]@);
                if let Some(d) = driver::driver(keys[i].as_str()) {
                    out.push(d);
                }
                i = i + 1;
            }
            assert(kinds.take(i as int) =~= kinds);
            Ok(out)
        },
    }
}

/// That a configured kind is passed over because there is no driver for it.
pub open spec fn skipped_notice(kind: Seq<char>) -> Seq<char> {
    "  跳过未实现的服务商: "@ + kind + "（当前仅支持: "@ + text::join(driver::registered_kinds(), ", "@)
        + "）"@
}

/// What is said of the configured kinds that there is no driver for.
pub fn skipped_notices(project: &Project) -> (r: Vec<String>)
    ensures
        text::views(r@) == Seq::new(
            unknown_kinds(config::kinds_of(project@.providers)).len(),
            |i: int| skipped_notice(unknown_kinds(config::kinds_of(project@.providers))[i]),
        ),
{
    let keys = project.providers.keys();
    let ghost kinds = config::kinds_of(project@.providers);
    let mut out: Vec<String> = Vec::new();
    let mut i: usize = 0;
    while i < keys.len()
        invariant
            i <= keys.len(),
            kinds == text::views(keys@),
            text::views(out@) == Seq::new(
                unknown_kinds(kinds.take(i as int)).len(),
                |k: int| skipped_notice(unknown_kinds(kinds.take(i as int))[k]),
            ),
        decreases keys.len() - i,
    {
        let ghost before = unknown_kinds(kinds.take(i as int));
        assert(kinds.take(i + 1).drop_last() =~= kinds.take(i as int));
        assert(kinds.take(i + 1).last() == keys@[i as int]@);
        if driver::driver(keys[i].as_str()).is_none() {
            let mut m = "  跳过未实现的服务商: ".to_owned();
            m.append(keys[i].as_str());
            m.append("（当前仅支持: ");
            let l = kinds_list();
            m.append(l.as_str());
            m.append("）");
            proof {
                text::lemma_views_push(out@, m);
                let after = unknown_kinds(kinds.take(i + 1));
                assert(text::views(out@).push(m@) =~= Seq::new(
                    after.len(),
                    |k: int| skipped_notice(after[k]),
                ));
            }
            out.push(m);
        }
        i = i + 1;
    }
    assert(kinds.take(i as int) =~= kinds);
    out
}

/// Every configured kind either is run with its driver or is passed over with a notice.
pub proof fn law_no_kind_is_lost(kinds: Seq<Seq<char>>)
    ensures
        drivers_of(kinds).len() + unknown_kinds(kinds).len() == kinds.len(),
    decreases kinds.len(),
{
    if kinds.len() > 0 {
        law_no_kind_is_lost(kinds.drop_last());
    }
}

/// The line for a project: its name, the kinds of its providers, what it is.
pub open spec fn project_line_text(p: config::ProjectView) -> Seq<char> {
    text::pad_right(p.name, 20) + " providers: "@ + text::pad_right(
        text::join(config::kinds_of(p.providers), ", "@),
        24,
    ) + " "@ + (match p.description {
        Some(d) => d,
        None => ""@,
    })
}

/// The line for a project.
pub fn project_line(p: &Project) -> (r: String)
    ensures
        r@ == project_line_text(p@),
{
    let mut m = text::padded_right(p.name.as_str(), 20);
    m.append(" providers: ");
    let keys = p.providers.keys();
    let j = text::join_strings(&keys, ", ");
    let k = text::padded_right(j.as_str(), 24);
    m.append(k.as_str());
    m.append(" ");
    match &p.description {
        Some(d) => m.append(d.as_str()),
        None => m.append(""),
    }
    m
}

// ---------------------------------------------------------------------------
// How commands end
// ---------------------------------------------------------------------------

/// Fails where something failed, and names what did.
fn outcome(what: &str, failed: &Vec<String>) -> (r: Result<(), OpsError>)
    ensures
        match r {
            Ok(_) => failed@.len() == 0,
            Err(e) => failed@.len() > 0 && e@ == what@ + text::join(text::views(failed@), ", "@),
        },
{
    if failed.is_empty() {
        return Ok(());
    }
    let mut m = what.to_owned();
    let j = text::join_strings(failed, ", ");
    m.append(j.as_str());
    Err(OpsError::new(m))
}

/// How the rotation of snapshots ends.
pub fn snapshot_outcome(failed: &Vec<String>) -> (r: Result<(), OpsError>)
    ensures
        match r {
            Ok(_) => failed@.len() == 0,
            Err(e) => failed@.len() > 0 && e@ == "以下项目执行失败: "@ + text::join(
                text::views(failed@),
                ", "@,
            ),
        },
{
    outcome("以下项目执行失败: ", failed)
}

/// How the look for what expires ends.
pub fn expiry_outcome(failed: &Vec<String>) -> (r: Result<(), OpsError>)
    ensures
        match r {
            Ok(_) => failed@.len() == 0,
            Err(e) => failed@.len() > 0 && e@ == "以下服务商检查失败: "@ + text::join(
                text::views(failed@),
                ", "@,
            ),
        },
{
    outcome("以下服务商检查失败: ", failed)
}

/// How the look at the disks ends.
pub fn disk_outcome(failed: &Vec<String>) -> (r: Result<(), OpsError>)
    ensures
        match r {
            Ok(_) => failed@.len() == 0,
            Err(e) => failed@.len() > 0 && e@ == "以下服务商磁盘检查失败: "@ + text::join(
                text::views(failed@),
                ", "@,
            ),
        },
{
    outcome("以下服务商磁盘检查失败: ", failed)
}

// ---------------------------------------------------------------------------
// What the look at the disks gathers
// ---------------------------------------------------------------------------

/// What to print and, where there is a channel, to send.
#[derive(Debug)]
pub struct Notice {
    pub title: String,
    pub text: String,
}

/// What was found, project by project.
pub struct DiskTally {
    pub over: Vec<(String, String, DiskStatus)>,
    pub missing: Vec<(String, String, DiskStatus)>,
    /// The labels of what failed.
    pub errors: Vec<String>,
}

/// The disks under the project and the label.
pub open spec fn labelled(project: Seq<char>, label: Seq<char>, list: Seq<disk::DiskView>) -> Seq<
    (Seq<char>, Seq<char>, disk::DiskView),
> {
    Seq::new(list.len(), |i: int| (project, label, list[i]))
}

/// Adds the disks under the project and the label.
fn add_labelled(
    out: &mut Vec<(String, String, DiskStatus)>,
    project: &str,
    label: &str,
    list: Vec<DiskStatus>,
)
    ensures
        text::views(final(out)@) == text::views(old(out)@) + labelled(
            project@,
            label@,
            text::views(list@),
        ),
{
    let ghost before = text::views(out@);
    let ghost all = labelled(project@, label@, text::views(list@));
    assert(before + all.take(0) =~= before);
    for s in it: list
        invariant
            it.seq() == list@,
            all == labelled(project@, label@, text::views(list@)),
            text::views(out@) == before + all.take(it.index() as int),
    {
        let ghost i = it.index() as int;
        assert(text::views(list@)[i] == s@);
        let x: (String, String, DiskStatus) = (project.to_owned(), label.to_owned(), s);
        proof {
            text::lemma_views_push(out@, x);
            assert((before + all.take(i)).push(x@) =~= before + all.take(i + 1));
        }
        out.push(x);
    }
    assert(all.take(list@.len() as int) =~= all);
}

impl DiskTally {
    /// Nothing yet.
    pub fn new() -> (t: DiskTally)
        ensures
            t.over@.len() == 0,
            t.missing@.len() == 0,
            t.errors@.len() == 0,
    {
        DiskTally { over: Vec::new(), missing: Vec::new(), errors: Vec::new() }
    }

    /// Takes the disks of a family. Where all its regions failed, its label counts as failed, and
    /// what is said of it comes back.
    pub fn take_group(&mut self, project: &str, group: DiskGroup) -> (r: Option<String>)
        ensures
            match group.error {
                Some(err) => {
                    &&& r matches Some(m) && m@ == "服务商 "@ + group.label@ + " 磁盘检查失败: "@ + err@
                    &&& text::views(final(self).errors@) == text::views(old(self).errors@).push(
                        group.label@,
                    )
                    &&& final(self).over@ == old(self).over@
                    &&& final(self).missing@ == old(self).missing@
                },
                None => {
                    &&& r is None
                    &&& final(self).errors@ == old(self).errors@
                    &&& text::views(final(self).over@) == text::views(old(self).over@) + labelled(
                        project@,
                        group.label@,
                        text::views(group.over@),
                    )
                    &&& text::views(final(self).missing@) == text::views(old(self).missing@)
                        + labelled(project@, group.label@, text::views(group.missing@))
                },
            },
    {
        match group.error {
            Some(err) => {
                let mut m = "服务商 ".to_owned();
                m.append(group.label.as_str());
                m.append(" 磁盘检查失败: ");
                m.append(err.as_str());
                proof {
                    text::lemma_views_push(self.errors@, group.label);
                }
                self.errors.push(group.label);
                Some(m)
            },
            None => {
                add_labelled(&mut self.over, project, group.label.as_str(), group.over);
                add_labelled(&mut self.missing, project, group.label.as_str(), group.missing);
                None
            },
        }
    }

    /// Notes that a provider or a project failed.
    pub fn take_failure(&mut self, name: &str)
        ensures
            text::views(final(self).errors@) == text::views(old(self).errors@).push(name@),
            final(self).over@ == old(self).over@,
            final(self).missing@ == old(self).missing@,
    {
        let n = name.to_owned();
        proof {
            text::lemma_views_push(self.errors@, n);
        }
        self.errors.push(n);
    }

    /// What to tell of: nothing where every disk is in order.
    pub fn notice(&self) -> (r: Option<Notice>)
        ensures
            match r {
                Some(n) => (self.over@.len() > 0 || self.missing@.len() > 0) && n.title@
                    == disk::title_text(self.over@.len(), self.missing@.len()) && n.text@
                    == disk::disk_report(text::views(self.over@), text::views(self.missing@)),
                None => self.over@.len() == 0 && self.missing@.len() == 0,
            },
    {
        if self.over.is_empty() && self.missing.is_empty() {
            return None;
        }
        Some(
            Notice {
                title: disk::title(self.over.as_slice(), self.missing.as_slice()),
                text: disk::render_disk(self.over.as_slice(), self.missing.as_slice()),
            },
        )
    }
}

// ---------------------------------------------------------------------------
// What the look for what expires gathers
// ---------------------------------------------------------------------------

/// What was found, project by project.
pub struct ExpiryTally {
    pub servers: Vec<(String, String, ExpiryAlert)>,
    pub domains: Vec<(String, String, DomainAlert)>,
    /// The labels of what failed.
    pub errors: Vec<String>,
}

/// What becomes of a failed look for domains.
#[derive(Debug)]
pub enum DomainFailure {
    /// The account has no domains: it is passed over.
    Skipped(String),
    /// It counts as failed.
    Failed(String),
}

/// The label of the ECS instances of a kind.
pub fn ecs_label(kind: &str) -> (r: String)
    ensures
        r@ == kind@ + "-ecs"@,
{
    let mut m = kind.to_owned();
    m.append("-ecs");
    m
}

impl ExpiryTally {
    /// Whether what was found can be told of.
    pub open spec fn wf(&self) -> bool {
        &&& forall|i: int|
            0 <= i < self.servers@.len() ==> (#[trigger] self.servers@[i]).2.expired_at.wf()
                && self.servers@[i].2.days_left > i64::MIN
        &&& forall|i: int|
            0 <= i < self.domains@.len() ==> (#[trigger] self.domains@[i]).2.expired_at.wf()
                && self.domains@[i].2.days_left > i64::MIN
    }

    /// Nothing yet.
    pub fn new() -> (t: ExpiryTally)
        ensures
            t.servers@.len() == 0,
            t.domains@.len() == 0,
            t.errors@.len() == 0,
            t.wf(),
    {
        ExpiryTally { servers: Vec::new(), domains: Vec::new(), errors: Vec::new() }
    }

    /// Takes the servers that were found under the label.
    pub fn take_servers(&mut self, project: &str, label: &str, list: Vec<ExpiryAlert>)
        requires
            old(self).wf(),
            forall|i: int|
                0 <= i < list@.len() ==> (#[trigger] list@[i]).expired_at.wf() && list@[i].days_left
                    > i64::MIN,
        ensures
            final(self).wf(),
            text::views(final(self).servers@) == text::views(old(self).servers@) + Seq::new(
                list@.len(),
                |i: int| (project@, label@, list@[i]@),
            ),
            final(self).domains@ == old(self).domains@,
            final(self).errors@ == old(self).errors@,
    {
        let ghost before = text::views(self.servers@);
        let ghost all = Seq::new(list@.len(), |i: int| (project@, label@, list@[i]@));
        assert(before + all.take(0) =~= before);
        for a in it: list
            invariant
                it.seq() == list@,
                self.wf(),
                self.domains@ == old(self).domains@,
                self.errors@ == old(self).errors@,
                all == Seq::new(list@.len(), |i: int| (project@, label@, list@[i]@)),
                text::views(self.servers@) == before + all.take(it.index() as int),
                forall|i: int|
                    0 <= i < list@.len() ==> (#[trigger] list@[i]).expired_at.wf()
                        && list@[i].days_left > i64::MIN,
        {
            let ghost i = it.index() as int;
            assert(list@[i] == a);
            let x: (String, String, ExpiryAlert) = (project.to_owned(), label.to_owned(), a);
            proof {
                text::lemma_views_push(self.servers@, x);
                assert((before + all.take(i)).push(x@) =~= before + all.take(i + 1));
            }
            self.servers.push(x);
        }
        assert(all.take(list@.len() as int) =~= all);
    }

    /// Takes the domains that were found under the label.
    pub fn take_domains(&mut self, project: &str, label: &str, list: Vec<DomainAlert>)
        requires
            old(self).wf(),
            forall|i: int|
                0 <= i < list@.len() ==> (#[trigger] list@[i]).expired_at.wf() && list@[i].days_left
                    > i64::MIN,
        ensures
            final(self).wf(),
            text::views(final(self).domains@) == text::views(old(self).domains@) + Seq::new(
                list@.len(),
                |i: int| (project@, label@, list@[i]@),
            ),
            final(self).servers@ == old(self).servers@,
            final(self).errors@ == old(self).errors@,
    {
        let ghost before = text::views(self.domains@);
        let ghost all = Seq::new(list@.len(), |i: int| (project@, label@, list@[i]@));
        assert(before + all.take(0) =~= before);
        for a in it: list
            invariant
                it.seq() == list@,
                self.wf(),
                self.servers@ == old(self).servers@,
                self.errors@ == old(self).errors@,
                all == Seq::new(list@.len(), |i: int| (project@, label@, list@[i]@)),
                text::views(self.domains@) == before + all.take(it.index() as int),
                forall|i: int|
                    0 <= i < list@.len() ==> (#[trigger] list@[i]).expired_at.wf()
                        && list@[i].days_left > i64::MIN,
        {
            let ghost i = it.index() as int;
            assert(list@[i] == a);
            let x: (String, String, DomainAlert) = (project.to_owned(), label.to_owned(), a);
            proof {
                text::lemma_views_push(self.domains@, x);
                assert((before + all.take(i)).push(x@) =~= before + all.take(i + 1));
            }
            self.domains.push(x);
        }
        assert(all.take(list@.len() as int) =~= all);
    }

    /// Notes that a provider or a project failed.
    pub fn take_failure(&mut self, name: &str)
        requires
            old(self).wf(),
        ensures
            final(self).wf(),
            text::views(final(self).errors@) == text::views(old(self).errors@).push(name@),
            final(self).servers@ == old(self).servers@,
            final(self).domains@ == old(self).domains@,
    {
        let n = name.to_owned();
        proof {
            text::lemma_views_push(self.errors@, n);
        }
        self.errors.push(n);
    }

    /// Takes a failed look for domains: for want of permission it is passed over, else the kind
    /// counts as failed.
    pub fn take_domain_failure(&mut self, kind: &str, e: &OpsError) -> (r: DomainFailure)
        requires
            old(self).wf(),
        ensures
            final(self).wf(),
            final(self).servers@ == old(self).servers@,
            final(self).domains@ == old(self).domains@,
            if aliyun::tells_no_permission(e@) {
                &&& r matches DomainFailure::Skipped(m) && m@ == "  跳过域名检查（无 domain 权限，可能未注册域名）"@
                &&& final(self).errors@ == old(self).errors@
            } else {
                &&& r matches DomainFailure::Failed(m) && m@ == "域名到期检查失败: "@ + e@
                &&& text::views(final(self).errors@) == text::views(old(self).errors@).push(kind@)
            },
    {
        if aliyun::is_permission_error(e) {
            DomainFailure::Skipped("  跳过域名检查（无 domain 权限，可能未注册域名）".to_owned())
        } else {
            self.take_failure(kind);
            let mut m = "域名到期检查失败: ".to_owned();
            m.append(e.message());
            DomainFailure::Failed(m)
        }
    }

    /// What to tell of: nothing where nothing expires.
    pub fn notice(&self) -> (r: Option<Notice>)
        requires
            self.wf(),
        ensures
            match r {
                Some(n) => (self.servers@.len() > 0 || self.domains@.len() > 0) && n.title@
                    == "到期提醒: "@ + text::join(
                    expiry::title_parts(self.servers@.len(), self.domains@.len()),
                    ", "@,
                ) && n.text@ == expiry::expiry_report(
                    text::views(self.servers@),
                    text::views(self.domains@),
                ),
                None => self.servers@.len() == 0 && self.domains@.len() == 0,
            },
    {
        if self.servers.is_empty() && self.domains.is_empty() {
            return None;
        }
        Some(
            Notice {
                title: expiry::title(self.servers.len(), self.domains.len()),
                text: expiry::render_all(self.servers.as_slice(), self.domains.as_slice()),
            },
        )
    }
}

// ---------------------------------------------------------------------------
// What the rotation of snapshots gathers
// ---------------------------------------------------------------------------

/// What was found of a project, and what failed of all.
pub struct SnapshotTally {
    /// The instances of the project that were looked at for automatic snapshots.
    pub checked: Vec<(String, String, AutoSnapshotStatus)>,
    /// What failed.
    pub errors: Vec<String>,
}

impl SnapshotTally {
    /// Nothing yet.
    pub fn new() -> (t: SnapshotTally)
        ensures
            t.checked@.len() == 0,
            t.errors@.len() == 0,
    {
        SnapshotTally { checked: Vec::new(), errors: Vec::new() }
    }

    /// Notes that the project failed, and says so.
    pub fn take_failure(&mut self, project: &str, e: &OpsError) -> (r: String)
        ensures
            r@ == "项目 "@ + project@ + " 执行失败: "@ + e@,
            text::views(final(self).errors@) == text::views(old(self).errors@).push(project@),
            final(self).checked@ == old(self).checked@,
    {
        let n = project.to_owned();
        proof {
            text::lemma_views_push(self.errors@, n);
        }
        self.errors.push(n);
        let mut m = "项目 ".to_owned();
        m.append(project);
        m.append(" 执行失败: ");
        m.append(e.message());
        m
    }

    /// Notes that the look at the automatic snapshots of the project failed, and says so.
    pub fn take_check_failure(&mut self, project: &str, e: &OpsError) -> (r: String)
        ensures
            r@ == "项目 "@ + project@ + " ECS 自动快照检查失败: "@ + e@,
            text::views(final(self).errors@) == text::views(old(self).errors@).push(
                project@ + " (ECS 检查)"@,
            ),
            final(self).checked@ == old(self).checked@,
    {
        let mut n = project.to_owned();
        n.append(" (ECS 检查)");
        proof {
            text::lemma_views_push(self.errors@, n);
        }
        self.errors.push(n);
        let mut m = "项目 ".to_owned();
        m.append(project);
        m.append(" ECS 自动快照检查失败: ");
        m.append(e.message());
        m
    }

    /// Takes the instances of the project and the kind that were looked at.
    pub fn take_checked(&mut self, project: &str, kind: &str, list: Vec<AutoSnapshotStatus>)
        ensures
            text::views(final(self).checked@) == text::views(old(self).checked@) + Seq::new(
                list@.len(),
                |i: int| (project@, kind@, list@[i]@),
            ),
            final(self).errors@ == old(self).errors@,
    {
        let ghost before = text::views(self.checked@);
        let ghost all = Seq::new(list@.len(), |i: int| (project@, kind@, list@[i]@));
        assert(before + all.take(0) =~= before);
        for s in it: list
            invariant
                it.seq() == list@,
                self.errors@ == old(self).errors@,
                all == Seq::new(list@.len(), |i: int| (project@, kind@, list@[i]@)),
                text::views(self.checked@) == before + all.take(it.index() as int),
        {
            let ghost i = it.index() as int;
            assert(list@[i] == s);
            let x: (String, String, AutoSnapshotStatus) = (project.to_owned(), kind.to_owned(), s);
            proof {
                text::lemma_views_push(self.checked@, x);
                assert((before + all.take(i)).push(x@) =~= before + all.take(i + 1));
            }
            self.checked.push(x);
        }
        assert(all.take(list@.len() as int) =~= all);
    }

    /// Ends a project: what to print of its instances, nothing where none was looked at, and what
    /// to tell of, which is only those that are not protected.
    pub fn end_project(&mut self) -> (r: Option<(String, Option<Notice>)>)
        ensures
            final(self).checked@.len() == 0,
            final(self).errors@ == old(self).errors@,
            ({
                let checked = text::views(old(self).checked@);
                let open = ecs::unprotected_of(checked);
                match r {
                    Some((report, notice)) => {
                        &&& checked.len() > 0
                        &&& report@ == ecs::autosnapshot_report(checked)
                        &&& match notice {
                            Some(n) => open.len() > 0 && n.title@ == "ECS 自动快照检查: "@ + text::dec(
                                open.len(),
                            ) + " 台未开启"@ && n.text@ == ecs::autosnapshot_report(open),
                            None => open.len() == 0,
                        }
                    },
                    None => checked.len() == 0,
                }
            }),
    {
        let mut checked: Vec<(String, String, AutoSnapshotStatus)> = Vec::new();
        checked.append(&mut self.checked);
        assert(checked@ =~= old(self).checked@);
        assert(text::views(checked@).len() == checked@.len());
        if checked.is_empty() {
            return None;
        }
        let report = ecs::render_autosnapshot(checked.as_slice());
        let open = ecs::unprotected(checked);
        assert(text::views(open@).len() == open@.len());
        let notice = if open.is_empty() {
            None
        } else {
            Some(
                Notice {
                    title: ecs::unprotected_title(open.len()),
                    text: ecs::render_autosnapshot(open.as_slice()),
                },
            )
        };
        Some((report, notice))
    }
}

} // verus!
