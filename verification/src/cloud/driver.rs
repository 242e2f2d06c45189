//! The drivers: which providers there are, what each can do, and how it gets its credentials.

use vstd::prelude::*;
use crate::cloud::aliyun::driver::AliyunDriver;
use crate::config;
use crate::config::ProviderConfig;
use crate::error::OpsError;
use crate::ops::disk::DiskStatus;
use crate::text;

verus! {

/// What a provider can be asked to do.
#[derive(Debug, Clone, Copy, PartialEq, Eq, Structural)]
pub enum Command {
    /// Rotating snapshots.
    Snapshot,
    /// Expiring servers.
    Expiry,
    /// Expiring domains.
    ExpiryDomain,
    /// Full disks.
    Disk,
    /// Automatic snapshot policies of ECS instances.
    EcsAutosnapshot,
    /// Expiring ECS instances.
    EcsExpiry,
}

/// The disks of one family of servers.
#[derive(Debug)]
pub struct DiskGroup {
    pub label: String,
    pub over: Vec<DiskStatus>,
    pub missing: Vec<DiskStatus>,
    /// Why nothing is known, where every region failed.
    pub error: Option<String>,
}

/// The disks of all families.
#[derive(Debug)]
pub struct DiskGroups {
    pub groups: Vec<DiskGroup>,
}

impl Default for DiskGroup {
    fn default() -> (r: DiskGroup)
        ensures
            r.label@.len() == 0,
            r.over@.len() == 0,
            r.missing@.len() == 0,
            r.error is None,
    {
        DiskGroup { label: String::new(), over: Vec::new(), missing: Vec::new(), error: None }
    }
}

impl Default for DiskGroups {
    fn default() -> (r: DiskGroups)
        ensures
            r.groups@.len() == 0,
    {
        DiskGroups { groups: Vec::new() }
    }
}

/// That the provider of the kind has no key in its configuration.
pub open spec fn no_key(kind: Seq<char>) -> Seq<char> {
    "缺少 "@ + kind + " 凭据 AccessKeyId：请填写 project.yml 或设置环境变量"@
}

/// That the provider of the kind has no secret in its configuration.
pub open spec fn no_secret(kind: Seq<char>) -> Seq<char> {
    "缺少 "@ + kind + " 凭据 AccessKeySecret：请填写 project.yml 或设置环境变量"@
}

/// A provider.
pub trait ProviderDriver {
    /// The kind, under which projects configure it.
    spec fn kind_text(&self) -> Seq<char>;

    /// What it can be asked to do.
    spec fn supported(&self) -> Seq<Command>;

    /// What is said where there is no key.
    spec fn no_key_text(&self) -> Seq<char>;

    /// What is said where there is no secret.
    spec fn no_secret_text(&self) -> Seq<char>;

    /// The kind.
    fn kind(&self) -> (r: &'static str)
        ensures
            r@ == self.kind_text(),
    ;

    /// What it can be asked to do.
    fn commands(&self) -> (r: Vec<Command>)
        ensures
            r@ == self.supported(),
    ;

    /// Key and secret of the configuration. Both have to be there, and the key is asked for first.
    fn credentials(&self, pcfg: &ProviderConfig) -> (r: Result<(String, String), OpsError>)
        ensures
            match r {
                Ok(keys) => config::given(pcfg@.access_key_id) && config::given(
                    pcfg@.access_key_secret,
                ) && Some(keys.0@) == pcfg@.access_key_id && Some(keys.1@)
                    == pcfg@.access_key_secret,
                Err(e) => if !config::given(pcfg@.access_key_id) {
                    e@ == self.no_key_text()
                } else {
                    !config::given(pcfg@.access_key_secret) && e@ == self.no_secret_text()
                },
            },
    ;
}

/// Key and secret of a provider that has no words of its own for what is missing.
pub fn generic_credentials(kind: &str, pcfg: &ProviderConfig) -> (r: Result<
    (String, String),
    OpsError,
>)
    ensures
        match r {
            Ok(keys) => config::given(pcfg@.access_key_id) && config::given(pcfg@.access_key_secret)
                && Some(keys.0@) == pcfg@.access_key_id && Some(keys.1@) == pcfg@.access_key_secret,
            Err(e) => if !config::given(pcfg@.access_key_id) {
                e@ == no_key(kind@)
            } else {
                !config::given(pcfg@.access_key_secret) && e@ == no_secret(kind@)
            },
        },
{
    let id = match &pcfg.access_key_id {
        Some(s) => s.clone(),
        None => String::new(),
    };
    if id.as_str().is_empty() {
        let mut m = "缺少 ".to_owned();
        m.append(kind);
        m.append(" 凭据 AccessKeyId：请填写 project.yml 或设置环境变量");
        return Err(OpsError::new(m));
    }
    let secret = match &pcfg.access_key_secret {
        Some(s) => s.clone(),
        None => String::new(),
    };
    if secret.as_str().is_empty() {
        let mut m = "缺少 ".to_owned();
        m.append(kind);
        m.append(" 凭据 AccessKeySecret：请填写 project.yml 或设置环境变量");
        return Err(OpsError::new(m));
    }
    Ok((id, secret))
}

/// That the provider cannot do what it was asked to.
pub fn unsupported(kind: &str, what: &str) -> (e: OpsError)
    ensures
        e@ == "服务商 "@ + kind@ + " 不支持"@ + what@,
{
    let mut m = "服务商 ".to_owned();
    m.append(kind);
    m.append(" 不支持");
    m.append(what);
    OpsError::new(m)
}

// ---------------------------------------------------------------------------
// The registry
// ---------------------------------------------------------------------------

/// A registered driver.
#[derive(Debug, Clone, Copy, PartialEq, Eq, Structural)]
pub enum Driver {
    Aliyun(AliyunDriver),
}

impl ProviderDriver for Driver {
    open spec fn kind_text(&self) -> Seq<char> {
        match *self {
            Driver::Aliyun(d) => d.kind_text(),
        }
    }

    open spec fn supported(&self) -> Seq<Command> {
        match *self {
            Driver::Aliyun(d) => d.supported(),
        }
    }

    open spec fn no_key_text(&self) -> Seq<char> {
        match *self {
            Driver::Aliyun(d) => d.no_key_text(),
        }
    }

    open spec fn no_secret_text(&self) -> Seq<char> {
        match *self {
            Driver::Aliyun(d) => d.no_secret_text(),
        }
    }

    fn kind(&self) -> (r: &'static str) {
        match self {
            Driver::Aliyun(d) => d.kind(),
        }
    }

    fn commands(&self) -> (r: Vec<Command>) {
        match self {
            Driver::Aliyun(d) => d.commands(),
        }
    }

    fn credentials(&self, pcfg: &ProviderConfig) -> (r: Result<(String, String), OpsError>) {
        match self {
            Driver::Aliyun(d) => d.credentials(pcfg),
        }
    }
}

/// All drivers.
pub open spec fn registered() -> Seq<Driver> {
    seq![Driver::Aliyun(AliyunDriver)]
}

/// The kinds of all drivers.
pub open spec fn registered_kinds() -> Seq<Seq<char>> {
    Seq::new(registered().len(), |i: int| registered()[i].kind_text())
}

/// The driver of the kind.
pub open spec fn driver_of(kind: Seq<char>) -> Option<Driver> {
    driver_in(registered(), kind)
}

/// The first of the drivers that is of the kind.
pub open spec fn driver_in(list: Seq<Driver>, kind: Seq<char>) -> Option<Driver>
    decreases list.len(),
{
    if list.len() == 0 {
        None
    } else if list[0].kind_text() == kind {
        Some(list[0])
    } else {
        driver_in(list.drop_first(), kind)
    }
}

/// All drivers.
pub fn drivers() -> (r: Vec<Driver>)
    ensures
        r@ == registered(),
{
    let mut v: Vec<Driver> = Vec::new();
    v.push(Driver::Aliyun(AliyunDriver));
    assert(v@ =~= registered());
    v
}

/// The driver of the kind.
pub fn driver(kind: &str) -> (r: Option<Driver>)
    ensures
        r == driver_of(kind@),
{
    let list = drivers();
    let mut i: usize = 0;
    assert(list@.skip(0) =~= list@);
    while i < list.len()
        invariant
            i <= list.len(),
            driver_of(kind@) == driver_in(list@.skip(i as int), kind@),
        decreases list.len() - i,
    {
        assert(list@.skip(i as int)[0] == list@[i as int]);
        if text::same(list[i].kind(), kind) {
            return Some(list[i]);
        }
        assert(list@.skip(i as int).drop_first() =~= list@.skip(i + 1));
        i = i + 1;
    }
    None
}

/// The kinds of all drivers.
pub fn supported_kinds() -> (r: Vec<&'static str>)
    ensures
        text::views(r@) == registered_kinds(),
{
    let list = drivers();
    let mut out: Vec<&'static str> = Vec::new();
    let mut i: usize = 0;
    while i < list.len()
        invariant
            i <= list.len(),
            list@ == registered(),
            text::views(out@) == registered_kinds().take(i as int),
        decreases list.len() - i,
    {
        let k = list[i].kind();
        proof {
            text::lemma_views_push(out@, k);
            assert(registered_kinds().take(i + 1) =~= registered_kinds().take(i as int).push(k@));
        }
        out.push(k);
        i = i + 1;
    }
    assert(registered_kinds().take(i as int) =~= registered_kinds());
    out
}

/// No two drivers have the same kind.
pub proof fn law_kinds_are_unique()
    ensures
        registered_kinds().no_duplicates(),
{
}

/// Each registered driver is found under its kind, and what is found under a kind is registered.
pub proof fn law_registry(d: Driver, kind: Seq<char>)
    ensures
        registered().contains(d) ==> driver_of(d.kind_text()) == Some(d),
        driver_of(kind) matches Some(x) ==> registered().contains(x) && x.kind_text() == kind,
        driver_of(kind) is Some <==> registered_kinds().contains(kind),
{
    let list = registered();
    assert(list[0] == Driver::Aliyun(AliyunDriver));
    assert(list.drop_first() =~= Seq::<Driver>::empty());
    assert(driver_in(list.drop_first(), kind) is None);
    assert(registered_kinds()[0] == list[0].kind_text());
    if list.contains(d) {
        let i = choose|i: int| 0 <= i < list.len() && list[i] == d;
        assert(i == 0);
    }
    if registered_kinds().contains(kind) {
        let i = choose|i: int| 0 <= i < registered_kinds().len() && registered_kinds()[i] == kind;
        assert(i == 0);
    }
}

} // verus!
