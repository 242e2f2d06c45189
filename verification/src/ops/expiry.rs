//! What expires soon, or has.

use vstd::prelude::*;
use crate::cloud;
use crate::cloud::aliyun::domain;
use crate::cloud::aliyun::domain::DomainInfo;
use crate::cloud::Server;
use crate::text;
use crate::time;
use crate::time::UtcTime;

verus! {

/// A server that expires.
#[derive(Debug)]
pub struct ExpiryAlert {
    pub server: Server,
    pub expired_at: UtcTime,
    /// The days left, rounded up; where it has expired, the negative of the days since then,
    /// rounded up too.
    pub days_left: i64,
}

/// What is known of a server that expires.
pub struct ExpiryView {
    pub server: cloud::ServerView,
    pub expired_at: UtcTime,
    pub days_left: i64,
}

impl View for ExpiryAlert {
    type V = ExpiryView;

    open spec fn view(&self) -> ExpiryView {
        ExpiryView {
            server: self.server@,
            expired_at: self.expired_at,
            days_left: self.days_left,
        }
    }
}

/// A domain that expires.
#[derive(Debug)]
pub struct DomainAlert {
    pub domain: String,
    pub expired_at: UtcTime,
    pub days_left: i64,
    pub auto_renew: bool,
}

/// What is known of a domain that expires.
pub struct DomainAlertView {
    pub domain: Seq<char>,
    pub expired_at: UtcTime,
    pub days_left: i64,
    pub auto_renew: bool,
}

impl View for DomainAlert {
    type V = DomainAlertView;

    open spec fn view(&self) -> DomainAlertView {
        DomainAlertView {
            domain: self.domain@,
            expired_at: self.expired_at,
            days_left: self.days_left,
            auto_renew: self.auto_renew,
        }
    }
}

// ---------------------------------------------------------------------------
// Days
// ---------------------------------------------------------------------------

/// Seconds as days, away from zero.
pub open spec fn days_of(secs: int) -> int {
    if secs >= 0 {
        (secs + 86_399) / 86_400
    } else {
        -((86_399 - secs) / 86_400)
    }
}

/// The days left at `now`.
pub open spec fn days_until(expired_at: UtcTime, now: UtcTime) -> int {
    days_of(time::seconds_between(expired_at, now))
}

/// How far apart two instants can be.
proof fn lemma_seconds_bound(a: UtcTime, b: UtcTime)
    requires
        a.wf(),
        b.wf(),
    ensures
        -20_000_000_000_000 < time::seconds_between(a, b) < 20_000_000_000_000,
{
}

/// The days left at `now`: rounded up where time is left, and away from zero where it has passed.
pub fn days_left(expired_at: UtcTime, now: UtcTime) -> (r: i64)
    requires
        expired_at.wf(),
        now.wf(),
    ensures
        r == days_until(expired_at, now),
        -1_000_000_000 < r < 1_000_000_000,
{
    proof {
        lemma_seconds_bound(expired_at, now);
    }
    let secs: i64 = time::whole_seconds_between(expired_at, now);
    if secs >= 0 {
        (secs + 86_399) / 86_400
    } else {
        -((86_399 - secs) / 86_400)
    }
}

/// Whether so many days left are to be told of: it has expired, or the number is a threshold.
pub open spec fn hits(days: int, thresholds: Seq<i64>) -> bool {
    days <= 0 || exists|i: int| 0 <= i < thresholds.len() && #[trigger] thresholds[i] == days
}

/// Whether so many days left are to be told of.
fn is_hit(days: i64, thresholds: &[i64]) -> (r: bool)
    ensures
        r == hits(days as int, thresholds@),
{
    if days <= 0 {
        return true;
    }
    let mut i: usize = 0;
    while i < thresholds.len()
        invariant
            i <= thresholds.len(),
            forall|k: int| 0 <= k < i ==> #[trigger] thresholds@[k] != days,
        decreases thresholds.len() - i,
    {
        if thresholds[i] == days {
            return true;
        }
        i = i + 1;
    }
    false
}

/// With a look each day, a threshold is hit on one day only: a whole number of days later or
/// earlier, as many days are not left again.
pub proof fn law_threshold_hits_once(secs: int, threshold: int, days_later: int)
    requires
        threshold > 0,
        days_of(secs) == threshold,
        days_later != 0,
    ensures
        days_of(secs - 86_400 * days_later) != threshold,
{
}

/// With a look each day, no threshold is missed: from any time before it there is a day on which
/// just so many days are left.
pub proof fn law_threshold_is_hit(secs: int, threshold: int)
    requires
        threshold > 0,
        days_of(secs) >= threshold,
    ensures
        exists|k: int| k >= 0 && #[trigger] days_of(secs - 86_400 * k) == threshold,
{
    let k = days_of(secs) - threshold;
    assert(days_of(secs - 86_400 * k) == threshold);
}

/// What has expired is told of whatever the thresholds are.
pub proof fn law_expired_always_hits(secs: int, thresholds: Seq<i64>)
    requires
        secs <= 0,
    ensures
        hits(days_of(secs), thresholds),
{
}

/// What expires later has as many days left or more.
pub proof fn law_days_grow(a: int, b: int)
    requires
        a <= b,
    ensures
        days_of(a) <= days_of(b),
{
}

// ---------------------------------------------------------------------------
// What to tell of
// ---------------------------------------------------------------------------

/// The servers to tell of, those without an expiry left out.
pub open spec fn server_alerts(
    servers: Seq<cloud::ServerView>,
    thresholds: Seq<i64>,
    now: UtcTime,
) -> Seq<ExpiryView>
    decreases servers.len(),
{
    if servers.len() == 0 {
        Seq::empty()
    } else {
        let before = server_alerts(servers.drop_last(), thresholds, now);
        let s = servers.last();
        match s.expired_at {
            Some(t) => if hits(days_until(t, now), thresholds) {
                before.push(
                    ExpiryView { server: s, expired_at: t, days_left: days_until(t, now) as i64 },
                )
            } else {
                before
            },
            None => before,
        }
    }
}

/// The servers to tell of: those that have expired, and those whose days left are a threshold.
pub fn check_servers(servers: Vec<Server>, thresholds: &[i64], now: UtcTime) -> (r: Vec<ExpiryAlert>)
    requires
        now.wf(),
        forall|i: int| 0 <= i < servers@.len() ==> (#[trigger] servers@[i]).wf(),
    ensures
        text::views(r@) == server_alerts(text::views(servers@), thresholds@, now),
        forall|i: int|
            0 <= i < r@.len() ==> (#[trigger] r@[i]).expired_at.wf() && r@[i].days_left > i64::MIN,
{
    let ghost all = text::views(servers@);
    let mut out: Vec<ExpiryAlert> = Vec::new();
    assert(text::views(out@) =~= server_alerts(all.take(0), thresholds@, now));
    for server in it: servers
        invariant
            it.seq() == servers@,
            all == text::views(servers@),
            now.wf(),
            forall|i: int| 0 <= i < servers@.len() ==> (#[trigger] servers@[i]).wf(),
            text::views(out@) == server_alerts(all.take(it.index() as int), thresholds@, now),
            forall|i: int|
                0 <= i < out@.len() ==> (#[trigger] out@[i]).expired_at.wf() && out@[i].days_left
                    > i64::MIN,
    {
        let ghost i = it.index() as int;
        assert(all.take(i + 1).drop_last() =~= all.take(i));
        assert(all.take(i + 1).last() == server@);
        assert(servers@[i].wf());
        if let Some(expired_at) = server.expired_at {
            let d: i64 = days_left(expired_at, now);
            if is_hit(d, thresholds) {
                let a = ExpiryAlert { server, expired_at, days_left: d };
                proof {
                    text::lemma_views_push(out@, a);
                }
                out.push(a);
            }
        }
    }
    assert(all.take(servers@.len() as int) =~= all);
    out
}

/// The domains to tell of, those without an expiry left out.
pub open spec fn domain_alerts(
    domains: Seq<domain::DomainView>,
    thresholds: Seq<i64>,
    now: UtcTime,
) -> Seq<DomainAlertView>
    decreases domains.len(),
{
    if domains.len() == 0 {
        Seq::empty()
    } else {
        let before = domain_alerts(domains.drop_last(), thresholds, now);
        let d = domains.last();
        match d.expired_at {
            Some(t) => if hits(days_until(t, now), thresholds) {
                before.push(
                    DomainAlertView {
                        domain: d.domain_name,
                        expired_at: t,
                        days_left: days_until(t, now) as i64,
                        auto_renew: d.auto_renew,
                    },
                )
            } else {
                before
            },
            None => before,
        }
    }
}

/// The domains to tell of: those that have expired, and those whose days left are a threshold.
pub fn check_domain_list(domains: Vec<DomainInfo>, thresholds: &[i64], now: UtcTime) -> (r: Vec<
    DomainAlert,
>)
    requires
        now.wf(),
        forall|i: int| 0 <= i < domains@.len() ==> (#[trigger] domains@[i]).wf(),
    ensures
        text::views(r@) == domain_alerts(text::views(domains@), thresholds@, now),
        forall|i: int|
            0 <= i < r@.len() ==> (#[trigger] r@[i]).expired_at.wf() && r@[i].days_left > i64::MIN,
{
    let ghost all = text::views(domains@);
    let mut out: Vec<DomainAlert> = Vec::new();
    assert(text::views(out@) =~= domain_alerts(all.take(0), thresholds@, now));
    for d in it: domains
        invariant
            it.seq() == domains@,
            all == text::views(domains@),
            now.wf(),
            forall|i: int| 0 <= i < domains@.len() ==> (#[trigger] domains@[i]).wf(),
            text::views(out@) == domain_alerts(all.take(it.index() as int), thresholds@, now),
            forall|i: int|
                0 <= i < out@.len() ==> (#[trigger] out@[i]).expired_at.wf() && out@[i].days_left
                    > i64::MIN,
    {
        let ghost i = it.index() as int;
        assert(all.take(i + 1).drop_last() =~= all.take(i));
        assert(all.take(i + 1).last() == d@);
        assert(domains@[i].wf());
        if let Some(expired_at) = d.expired_at {
            let dl: i64 = days_left(expired_at, now);
            if is_hit(dl, thresholds) {
                let a = DomainAlert {
                    domain: d.domain_name,
                    expired_at,
                    days_left: dl,
                    auto_renew: d.auto_renew,
                };
                proof {
                    text::lemma_views_push(out@, a);
                }
                out.push(a);
            }
        }
    }
    assert(all.take(domains@.len() as int) =~= all);
    out
}

// ---------------------------------------------------------------------------
// In words
// ---------------------------------------------------------------------------

/// The days left in words.
pub open spec fn days_text(days: int) -> Seq<char> {
    if days <= 0 {
        "已过期 "@ + text::dec_int(-days) + " 天"@
    } else {
        "剩余 "@ + text::dec_int(days) + " 天"@
    }
}

/// The instant as a clock in Beijing shows it.
pub open spec fn beijing_text(t: UtcTime) -> Seq<char> {
    time::strftime(t.secs, t.nanos, time::BEIJING_OFFSET, "%Y-%m-%d %H:%M"@)
}

/// The line for a server.
pub open spec fn server_line(x: (Seq<char>, Seq<char>, ExpiryView)) -> Seq<char> {
    "- "@ + x.0 + "/"@ + x.1 + ": "@ + x.2.server.name + " ("@ + x.2.server.id
        + cloud::region_suffix_text(x.2.server.region) + ") 到期 "@ + beijing_text(x.2.expired_at)
        + "，"@ + days_text(x.2.days_left as int) + "\n"@
}

/// The line for a domain.
pub open spec fn domain_line(x: (Seq<char>, Seq<char>, DomainAlertView)) -> Seq<char> {
    "- "@ + x.0 + "/"@ + x.1 + ": "@ + x.2.domain + " 到期 "@ + beijing_text(x.2.expired_at) + "，"@
        + days_text(x.2.days_left as int) + (if x.2.auto_renew {
        " [自动续费已开启]"@
    } else {
        ""@
    }) + "\n"@
}

/// The report on servers.
pub open spec fn server_report(items: Seq<(Seq<char>, Seq<char>, ExpiryView)>) -> Seq<char> {
    "=== 服务器到期提醒 ===\n"@ + text::concat(Seq::new(items.len(), |i: int| server_line(items[i])))
}

/// The report on domains.
pub open spec fn domain_report(items: Seq<(Seq<char>, Seq<char>, DomainAlertView)>) -> Seq<char> {
    "=== 域名到期提醒 ===\n"@ + text::concat(Seq::new(items.len(), |i: int| domain_line(items[i])))
}

/// The days left in words.
fn print_days(days: i64) -> (r: String)
    requires
        days > i64::MIN,
    ensures
        r@ == days_text(days as int),
{
    if days <= 0 {
        let mut m = "已过期 ".to_owned();
        let n = text::print_i64(-days);
        m.append(n.as_str());
        m.append(" 天");
        m
    } else {
        let mut m = "剩余 ".to_owned();
        let n = text::print_i64(days);
        m.append(n.as_str());
        m.append(" 天");
        m
    }
}

/// The line for a server.
fn print_server_line(project: &str, kind: &str, a: &ExpiryAlert) -> (r: String)
    requires
        a.expired_at.wf(),
        a.days_left > i64::MIN,
    ensures
        r@ == server_line((project@, kind@, a@)),
{
    let mut m = "- ".to_owned();
    m.append(project);
    m.append("/");
    m.append(kind);
    m.append(": ");
    m.append(a.server.name.as_str());
    m.append(" (");
    m.append(a.server.id.as_str());
    let region = cloud::region_suffix(a.server.region.as_str());
    m.append(region.as_str());
    m.append(") 到期 ");
    let t = time::print_by_pattern(a.expired_at, time::BEIJING_OFFSET, "%Y-%m-%d %H:%M");
    m.append(t.as_str());
    m.append("，");
    let d = print_days(a.days_left);
    m.append(d.as_str());
    m.append("\n");
    m
}

/// The line for a domain.
fn print_domain_line(project: &str, kind: &str, a: &DomainAlert) -> (r: String)
    requires
        a.expired_at.wf(),
        a.days_left > i64::MIN,
    ensures
        r@ == domain_line((project@, kind@, a@)),
{
    let mut m = "- ".to_owned();
    m.append(project);
    m.append("/");
    m.append(kind);
    m.append(": ");
    m.append(a.domain.as_str());
    m.append(" 到期 ");
    let t = time::print_by_pattern(a.expired_at, time::BEIJING_OFFSET, "%Y-%m-%d %H:%M");
    m.append(t.as_str());
    m.append("，");
    let d = print_days(a.days_left);
    m.append(d.as_str());
    if a.auto_renew {
        m.append(" [自动续费已开启]");
    } else {
        m.append("");
    }
    m.append("\n");
    m
}

/// The report on servers: a line for each, with the expiry in Beijing time and the days left.
pub fn render(items: &[(String, String, ExpiryAlert)]) -> (r: String)
    requires
        forall|i: int|
            0 <= i < items@.len() ==> (#[trigger] items@[i]).2.expired_at.wf()
                && items@[i].2.days_left > i64::MIN,
    ensures
        r@ == server_report(text::views(items@)),
{
    let ghost all = text::views(items@);
    let ghost lines = Seq::new(all.len(), |k: int| server_line(all[k]));
    let ghost head = "=== 服务器到期提醒 ===\n"@;
    let mut out = "=== 服务器到期提醒 ===\n".to_owned();
    let mut i: usize = 0;
    assert(head + text::concat(lines.take(0)) =~= head);
    while i < items.len()
        invariant
            i <= items.len(),
            forall|k: int|
                0 <= k < items@.len() ==> (#[trigger] items@[k]).2.expired_at.wf()
                    && items@[k].2.days_left > i64::MIN,
            all == text::views(items@),
            lines == Seq::new(all.len(), |k: int| server_line(all[k])),
            out@ == head + text::concat(lines.take(i as int)),
        decreases items.len() - i,
    {
        assert(all[i as int] == items@[i as int]@);
        let line = print_server_line(items[i].0.as_str(), items[i].1.as_str(), &items[i].2);
        out.append(line.as_str());
        proof {
            assert(lines.take(i + 1) =~= lines.take(i as int).push(line@));
            text::lemma_concat_push(lines.take(i as int), line@);
            assert(head + text::concat(lines.take(i as int)) + line@ =~= head + (text::concat(
                lines.take(i as int),
            ) + line@));
        }
        i = i + 1;
    }
    assert(lines.take(i as int) =~= lines);
    out
}

/// The report on domains: a line for each, with the expiry in Beijing time, the days left, and
/// whether it renews itself.
pub fn render_domains(items: &[(String, String, DomainAlert)]) -> (r: String)
    requires
        forall|i: int|
            0 <= i < items@.len() ==> (#[trigger] items@[i]).2.expired_at.wf()
                && items@[i].2.days_left > i64::MIN,
    ensures
        r@ == domain_report(text::views(items@)),
{
    let ghost all = text::views(items@);
    let ghost lines = Seq::new(all.len(), |k: int| domain_line(all[k]));
    let ghost head = "=== 域名到期提醒 ===\n"@;
    let mut out = "=== 域名到期提醒 ===\n".to_owned();
    let mut i: usize = 0;
    assert(head + text::concat(lines.take(0)) =~= head);
    while i < items.len()
        invariant
            i <= items.len(),
            forall|k: int|
                0 <= k < items@.len() ==> (#[trigger] items@[k]).2.expired_at.wf()
                    && items@[k].2.days_left > i64::MIN,
            all == text::views(items@),
            lines == Seq::new(all.len(), |k: int| domain_line(all[k])),
            out@ == head + text::concat(lines.take(i as int)),
        decreases items.len() - i,
    {
        assert(all[i as int] == items@[i as int]@);
        let line = print_domain_line(items[i].0.as_str(), items[i].1.as_str(), &items[i].2);
        out.append(line.as_str());
        proof {
            assert(lines.take(i + 1) =~= lines.take(i as int).push(line@));
            text::lemma_concat_push(lines.take(i as int), line@);
            assert(head + text::concat(lines.take(i as int)) + line@ =~= head + (text::concat(
                lines.take(i as int),
            ) + line@));
        }
        i = i + 1;
    }
    assert(lines.take(i as int) =~= lines);
    out
}

/// Both reports, a line between them where there are both.
pub open spec fn expiry_report(
    servers: Seq<(Seq<char>, Seq<char>, ExpiryView)>,
    domains: Seq<(Seq<char>, Seq<char>, DomainAlertView)>,
) -> Seq<char> {
    if servers.len() > 0 && domains.len() > 0 {
        server_report(servers) + "\n"@ + domain_report(domains)
    } else if servers.len() > 0 {
        server_report(servers)
    } else if domains.len() > 0 {
        domain_report(domains)
    } else {
        Seq::empty()
    }
}

/// Both reports; the one on nothing is left out.
pub fn render_all(
    servers: &[(String, String, ExpiryAlert)],
    domains: &[(String, String, DomainAlert)],
) -> (r: String)
    requires
        forall|i: int|
            0 <= i < servers@.len() ==> (#[trigger] servers@[i]).2.expired_at.wf()
                && servers@[i].2.days_left > i64::MIN,
        forall|i: int|
            0 <= i < domains@.len() ==> (#[trigger] domains@[i]).2.expired_at.wf()
                && domains@[i].2.days_left > i64::MIN,
    ensures
        r@ == expiry_report(text::views(servers@), text::views(domains@)),
{
    if servers.len() == 0 {
        if domains.len() == 0 {
            String::new()
        } else {
            render_domains(domains)
        }
    } else {
        let mut out = render(servers);
        if domains.len() > 0 {
            out.append("\n");
            let d = render_domains(domains);
            out.append(d.as_str());
        }
        out
    }
}

/// The parts of the title, those left out that count nothing.
pub open spec fn title_parts(servers: nat, domains: nat) -> Seq<Seq<char>> {
    let a = if servers > 0 {
        seq![text::dec(servers) + " 台服务器"@]
    } else {
        Seq::empty()
    };
    if domains > 0 {
        a.push(text::dec(domains) + " 个域名"@)
    } else {
        a
    }
}

/// The title: how many servers and how many domains.
pub fn title(servers: usize, domains: usize) -> (r: String)
    ensures
        r@ == "到期提醒: "@ + text::join(title_parts(servers as nat, domains as nat), ", "@),
{
    let mut parts: Vec<String> = Vec::new();
    assert(text::views(parts@) =~= Seq::<Seq<char>>::empty());
    if servers > 0 {
        let mut p = text::print_usize(servers);
        p.append(" 台服务器");
        proof {
            text::lemma_views_push(parts@, p);
        }
        parts.push(p);
        assert(text::views(parts@) =~= seq![text::dec(servers as nat) + " 台服务器"@]);
    }
    if domains > 0 {
        let mut p = text::print_usize(domains);
        p.append(" 个域名");
        proof {
            text::lemma_views_push(parts@, p);
        }
        parts.push(p);
    }
    assert(text::views(parts@) == title_parts(servers as nat, domains as nat));
    let mut m = "到期提醒: ".to_owned();
    let j = text::join_strings(&parts, ", ");
    m.append(j.as_str());
    m
}

/// The thresholds in decimal.
pub open spec fn threshold_texts(thresholds: Seq<i64>) -> Seq<Seq<char>> {
    Seq::new(thresholds.len(), |i: int| text::dec_int(thresholds[i] as int))
}

/// That nothing expires within the thresholds.
pub fn all_safe(thresholds: &[i64]) -> (r: String)
    ensures
        r@ == "全部资源均在安全期内（"@ + text::join(threshold_texts(thresholds@), ", "@) + " 天内无到期）"@,
{
    let ghost all = threshold_texts(thresholds@);
    let mut list: Vec<String> = Vec::new();
    let mut i: usize = 0;
    while i < thresholds.len()
        invariant
            i <= thresholds.len(),
            all == threshold_texts(thresholds@),
            text::views(list@) == all.take(i as int),
        decreases thresholds.len() - i,
    {
        let n = text::print_i64(thresholds[i]);
        proof {
            text::lemma_views_push(list@, n);
            assert(all.take(i + 1) =~= all.take(i as int).push(n@));
        }
        list.push(n);
        i = i + 1;
    }
    assert(all.take(i as int) =~= all);
    let mut m = "全部资源均在安全期内（".to_owned();
    let j = text::join_strings(&list, ", ");
    m.append(j.as_str());
    m.append(" 天内无到期）");
    m
}

} // verus!
