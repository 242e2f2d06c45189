//! The driver for Alibaba Cloud.

use vstd::prelude::*;
use crate::cloud::aliyun;
use crate::cloud::aliyun::RegionScan;
use crate::cloud::driver;
use crate::cloud::driver::{Command, DiskGroup, ProviderDriver};
use crate::config;
use crate::config::ProviderConfig;
use crate::error::OpsError;
use crate::ops::disk::DiskStatus;
use crate::text;

verus! {

/// The driver for Simple Application Servers, ECS and domains.
#[derive(Debug, Clone, Copy, PartialEq, Eq, Structural)]
pub struct AliyunDriver;

impl ProviderDriver for AliyunDriver {
    open spec fn kind_text(&self) -> Seq<char> {
        config::ALIYUN_KIND@
    }

    open spec fn supported(&self) -> Seq<Command> {
        seq![
            Command::Snapshot,
            Command::Expiry,
            Command::ExpiryDomain,
            Command::Disk,
            Command::EcsAutosnapshot,
            Command::EcsExpiry,
        ]
    }

    open spec fn no_key_text(&self) -> Seq<char> {
        "缺少阿里云 AccessKeyId：请填写 project.yml 或设置环境变量 ALIYUN_ACCESS_KEY_ID"@
    }

    open spec fn no_secret_text(&self) -> Seq<char> {
        "缺少阿里云 AccessKeySecret：请填写 project.yml 或设置环境变量 ALIYUN_ACCESS_KEY_SECRET"@
    }

    fn kind(&self) -> (r: &'static str) {
        config::ALIYUN_KIND
    }

    fn commands(&self) -> (r: Vec<Command>) {
        let mut v: Vec<Command> = Vec::new();
        v.push(Command::Snapshot);
        v.push(Command::Expiry);
        v.push(Command::ExpiryDomain);
        v.push(Command::Disk);
        v.push(Command::EcsAutosnapshot);
        v.push(Command::EcsExpiry);
        assert(v@ =~= self.supported());
        v
    }

    fn credentials(&self, pcfg: &ProviderConfig) -> (r: Result<(String, String), OpsError>) {
        pcfg.aliyun_credentials()
    }
}

/// The first lists of the pairs.
pub open spec fn over_lists(items: Seq<(Vec<DiskStatus>, Vec<DiskStatus>)>) -> Seq<Vec<DiskStatus>> {
    Seq::new(items.len(), |i: int| items[i].0)
}

/// The second lists of the pairs.
pub open spec fn missing_lists(items: Seq<(Vec<DiskStatus>, Vec<DiskStatus>)>) -> Seq<
    Vec<DiskStatus>,
> {
    Seq::new(items.len(), |i: int| items[i].1)
}

/// The disks of a family in all regions: what the regions listed, one after the other, and where
/// every region failed, why.
pub fn disk_group(
    label: String,
    scan: RegionScan<(Vec<DiskStatus>, Vec<DiskStatus>)>,
    what: &str,
) -> (g: DiskGroup)
    ensures
        g.label@ == label@,
        g.over@ == aliyun::chained(over_lists(scan.items@)),
        g.missing@ == aliyun::chained(missing_lists(scan.items@)),
        text::opt_view(g.error) == if scan.all_failed() {
            Some(
                "全部 "@ + text::dec(scan.failed@.len()) + " 个地域 "@ + what@ + " 失败（首个错误: "@
                    + scan.failed@[0].1@ + "）"@,
            )
        } else {
            None
        },
{
    let error = match scan.all_failed_err(what) {
        Some(e) => Some(e.message),
        None => None,
    };
    let mut over: Vec<DiskStatus> = Vec::new();
    let mut missing: Vec<DiskStatus> = Vec::new();
    let items = scan.items;
    let ghost overs = over_lists(items@);
    let ghost missings = missing_lists(items@);
    assert(aliyun::chained(overs.take(0)) =~= Seq::<DiskStatus>::empty());
    assert(aliyun::chained(missings.take(0)) =~= Seq::<DiskStatus>::empty());
    for pair in it: items
        invariant
            it.seq() == items@,
            overs == over_lists(items@),
            missings == missing_lists(items@),
            over@ == aliyun::chained(overs.take(it.index() as int)),
            missing@ == aliyun::chained(missings.take(it.index() as int)),
    {
        let ghost i = it.index() as int;
        assert(overs.take(i + 1).drop_last() =~= overs.take(i));
        assert(missings.take(i + 1).drop_last() =~= missings.take(i));
        let (mut a, mut b) = pair;
        over.append(&mut a);
        missing.append(&mut b);
    }
    assert(overs.take(items@.len() as int) =~= overs);
    assert(missings.take(items@.len() as int) =~= missings);
    DiskGroup { label, over, missing, error }
}

} // verus!
