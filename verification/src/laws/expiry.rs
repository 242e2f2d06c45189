//! What expires: the days left, who is told of, and in what words.

use vstd::prelude::*;
use crate::cloud::aliyun::domain::DomainView;
use crate::cloud::ServerView;
use crate::ops::expiry;
use crate::ops::expiry::{DomainAlertView, ExpiryView};
use crate::text;
use crate::time;
use crate::time::UtcTime;

verus! {

/// The days left: with time left the smallest number of days that it fits in, with time gone by the
/// smallest number of days, negated, that it fits in. Fractions of a second do not count.
pub proof fn law_days_left(expired_at: UtcTime, now: UtcTime)
    requires
        expired_at.nanos < 1_000_000_000,
        now.nanos < 1_000_000_000,
    ensures
        ({
            let nanos = (expired_at.secs - now.secs) * 1_000_000_000 + expired_at.nanos - now.nanos;
            let days = expiry::days_until(expired_at, now);
            let secs = if nanos >= 0 {
                nanos / 1_000_000_000
            } else {
                -((-nanos) / 1_000_000_000)
            };
            &&& secs > 0 ==> (days - 1) * 86_400 < secs <= days * 86_400
            &&& secs == 0 ==> days == 0
            &&& secs < 0 ==> days * 86_400 <= secs < (days + 1) * 86_400
        }),
{
}

/// Whether a server with the expiry is to be told of: it has expired, or the days left occur among
/// the thresholds.
pub open spec fn due(expired_at: Option<UtcTime>, thresholds: Seq<i64>, now: UtcTime) -> bool {
    expired_at matches Some(t) && (expiry::days_until(t, now) <= 0 || thresholds.contains(
        expiry::days_until(t, now) as i64,
    ))
}

/// Days left are counted in numbers that fit.
proof fn lemma_days_fit(expired_at: UtcTime, now: UtcTime)
    requires
        expired_at.wf(),
        now.wf(),
    ensures
        -1_000_000_000 < expiry::days_until(expired_at, now) < 1_000_000_000,
{
    let s = time::seconds_between(expired_at, now);
    assert(-20_000_000_000_000 < s < 20_000_000_000_000);
}

/// Whether the number of days is looked for.
proof fn lemma_hits(days: int, thresholds: Seq<i64>)
    requires
        i64::MIN <= days <= i64::MAX,
    ensures
        expiry::hits(days, thresholds) == (days <= 0 || thresholds.contains(days as i64)),
{
    if thresholds.contains(days as i64) {
        let i = choose|i: int| 0 <= i < thresholds.len() && thresholds[i] == days as i64;
        assert(thresholds[i] == days);
    }
    if exists|i: int| 0 <= i < thresholds.len() && #[trigger] thresholds[i] == days {
        let i = choose|i: int| 0 <= i < thresholds.len() && #[trigger] thresholds[i] == days;
        assert(thresholds[i] == days as i64);
    }
}

/// The servers told of, by the one question asked of each.
proof fn lemma_server_alerts(
    servers: Seq<ServerView>,
    thresholds: Seq<i64>,
    now: UtcTime,
    asked: spec_fn(ServerView) -> bool,
)
    requires
        now.wf(),
        forall|i: int|
            0 <= i < servers.len() ==> ((#[trigger] servers[i]).expired_at matches Some(t) ==> t.wf()),
        forall|s: ServerView| #[trigger] asked(s) == due(s.expired_at, thresholds, now),
    ensures
        ({
            let alerts = expiry::server_alerts(servers, thresholds, now);
            let kept = servers.filter(asked);
            &&& alerts.len() == kept.len()
            &&& forall|i: int|
                0 <= i < alerts.len() ==> (#[trigger] alerts[i]).server == kept[i]
                    && kept[i].expired_at == Some(alerts[i].expired_at) && alerts[i].days_left
                    == expiry::days_until(alerts[i].expired_at, now)
        }),
    decreases servers.len(),
{
    reveal(Seq::filter);
    if servers.len() > 0 {
        let init = servers.drop_last();
        assert forall|i: int| 0 <= i < init.len() implies ((#[trigger] init[i]).expired_at matches Some(
            t,
        ) ==> t.wf()) by {
            assert(init[i] == servers[i]);
        }
        lemma_server_alerts(init, thresholds, now, asked);
        let last = servers[servers.len() - 1];
        if let Some(t) = last.expired_at {
            lemma_days_fit(t, now);
            lemma_hits(expiry::days_until(t, now), thresholds);
        }
    }
}

/// Of the servers just those are told of that have expired or whose days left occur among the
/// thresholds, at whatever place; in their order, each with its expiry and its days left.
pub proof fn law_servers_told_of(servers: Seq<ServerView>, thresholds: Seq<i64>, now: UtcTime)
    requires
        now.wf(),
        forall|i: int|
            0 <= i < servers.len() ==> ((#[trigger] servers[i]).expired_at matches Some(t) ==> t.wf()),
    ensures
        ({
            let alerts = expiry::server_alerts(servers, thresholds, now);
            let kept = servers.filter(|s: ServerView| due(s.expired_at, thresholds, now));
            &&& alerts.len() == kept.len()
            &&& forall|i: int|
                0 <= i < alerts.len() ==> (#[trigger] alerts[i]).server == kept[i]
                    && kept[i].expired_at == Some(alerts[i].expired_at) && alerts[i].days_left
                    == expiry::days_until(alerts[i].expired_at, now)
        }),
{
    lemma_server_alerts(
        servers,
        thresholds,
        now,
        |s: ServerView| due(s.expired_at, thresholds, now),
    );
}

/// Each threshold counts: a server with just so many days left is told of, whichever of the
/// thresholds it is; and one that is told of has expired or has one of them left.
pub proof fn law_every_threshold_counts(
    servers: Seq<ServerView>,
    thresholds: Seq<i64>,
    now: UtcTime,
    k: int,
    i: int,
)
    requires
        now.wf(),
        forall|i: int|
            0 <= i < servers.len() ==> ((#[trigger] servers[i]).expired_at matches Some(t) ==> t.wf()),
        0 <= k < servers.len(),
        servers[k].expired_at is Some,
    ensures
        ({
            let t = servers[k].expired_at->0;
            let days = expiry::days_until(t, now);
            let told = ExpiryView { server: servers[k], expired_at: t, days_left: days as i64 };
            let alerts = expiry::server_alerts(servers, thresholds, now);
            &&& 0 <= i < thresholds.len() && thresholds[i] == days ==> alerts.contains(told)
            &&& days <= 0 ==> alerts.contains(told)
            &&& forall|j: int|
                0 <= j < alerts.len() ==> (#[trigger] alerts[j]).days_left <= 0
                    || thresholds.contains(alerts[j].days_left)
        }),
{
    let alerts = expiry::server_alerts(servers, thresholds, now);
    law_servers_told_of(servers, thresholds, now);
    let p = |s: ServerView| due(s.expired_at, thresholds, now);
    let kept = servers.filter(p);
    let t = servers[k].expired_at->0;
    lemma_days_fit(t, now);
    let days = expiry::days_until(t, now);
    if days <= 0 || (0 <= i < thresholds.len() && thresholds[i] == days) {
        assert(thresholds.contains(days as i64) || days <= 0);
        assert(p(servers[k]));
        servers.lemma_filter_contains(p, k);
        let j = choose|j: int| 0 <= j < kept.len() && kept[j] == servers[k];
        assert(alerts[j].server == servers[k]);
        assert(alerts[j] == (ExpiryView { server: servers[k], expired_at: t, days_left: days as i64 }));
    }
    assert forall|j: int| 0 <= j < alerts.len() implies (#[trigger] alerts[j]).days_left <= 0
        || thresholds.contains(alerts[j].days_left) by {
        servers.lemma_filter_pred(p, j);
    }
}

/// The domains told of, by the one question asked of each.
proof fn lemma_domain_alerts(
    domains: Seq<DomainView>,
    thresholds: Seq<i64>,
    now: UtcTime,
    asked: spec_fn(DomainView) -> bool,
)
    requires
        now.wf(),
        forall|i: int|
            0 <= i < domains.len() ==> ((#[trigger] domains[i]).expired_at matches Some(t) ==> t.wf()),
        forall|d: DomainView| #[trigger] asked(d) == due(d.expired_at, thresholds, now),
    ensures
        ({
            let alerts = expiry::domain_alerts(domains, thresholds, now);
            let kept = domains.filter(asked);
            &&& alerts.len() == kept.len()
            &&& forall|i: int|
                0 <= i < alerts.len() ==> (#[trigger] alerts[i]).domain == kept[i].domain_name
                    && alerts[i].auto_renew == kept[i].auto_renew && kept[i].expired_at == Some(
                    alerts[i].expired_at,
                ) && alerts[i].days_left == expiry::days_until(alerts[i].expired_at, now)
        }),
    decreases domains.len(),
{
    reveal(Seq::filter);
    if domains.len() > 0 {
        let init = domains.drop_last();
        assert forall|i: int| 0 <= i < init.len() implies ((#[trigger] init[i]).expired_at matches Some(
            t,
        ) ==> t.wf()) by {
            assert(init[i] == domains[i]);
        }
        lemma_domain_alerts(init, thresholds, now, asked);
        let last = domains[domains.len() - 1];
        if let Some(t) = last.expired_at {
            lemma_days_fit(t, now);
            lemma_hits(expiry::days_until(t, now), thresholds);
        }
    }
}

/// Of the domains just those are told of that have expired or whose days left occur among the
/// thresholds, at whatever place; in their order, each with its name, its expiry, its days left and
/// whether it renews itself.
pub proof fn law_domains_told_of(domains: Seq<DomainView>, thresholds: Seq<i64>, now: UtcTime)
    requires
        now.wf(),
        forall|i: int|
            0 <= i < domains.len() ==> ((#[trigger] domains[i]).expired_at matches Some(t) ==> t.wf()),
    ensures
        ({
            let alerts = expiry::domain_alerts(domains, thresholds, now);
            let kept = domains.filter(|d: DomainView| due(d.expired_at, thresholds, now));
            &&& alerts.len() == kept.len()
            &&& forall|i: int|
                0 <= i < alerts.len() ==> (#[trigger] alerts[i]).domain == kept[i].domain_name
                    && alerts[i].auto_renew == kept[i].auto_renew && kept[i].expired_at == Some(
                    alerts[i].expired_at,
                ) && alerts[i].days_left == expiry::days_until(alerts[i].expired_at, now)
        }),
{
    lemma_domain_alerts(
        domains,
        thresholds,
        now,
        |d: DomainView| due(d.expired_at, thresholds, now),
    );
}

/// The clock in Beijing, to the minute.
pub open spec fn in_beijing(t: UtcTime) -> Seq<char> {
    time::strftime(t.secs, t.nanos, 28_800, "%Y-%m-%d %H:%M"@)
}

/// How many days are left, or for how many it has expired.
pub open spec fn in_days(days: int) -> Seq<char> {
    if days > 0 {
        "剩余 "@ + text::dec_int(days) + " 天"@
    } else {
        "已过期 "@ + text::dec_int(-days) + " 天"@
    }
}

/// The report on servers has a headline and, in their order, a line for each: project, label, name,
/// identifier, region where there is one, expiry in Beijing and days left.
pub proof fn law_server_report(
    items: Seq<(Seq<char>, Seq<char>, ExpiryView)>,
    x: (Seq<char>, Seq<char>, ExpiryView),
)
    ensures
        expiry::server_report(Seq::empty()) == "=== 服务器到期提醒 ===\n"@,
        expiry::server_report(items.push(x)) == expiry::server_report(items) + ("- "@ + x.0 + "/"@ + x.1
            + ": "@ + x.2.server.name + " ("@ + x.2.server.id + (if x.2.server.region.len() == 0 {
            ""@
        } else {
            ", "@ + x.2.server.region
        }) + ") 到期 "@ + in_beijing(x.2.expired_at) + "，"@ + in_days(x.2.days_left as int) + "\n"@),
{
    let lines = Seq::new(items.len(), |i: int| expiry::server_line(items[i]));
    let all = items.push(x);
    let more = Seq::new(all.len(), |i: int| expiry::server_line(all[i]));
    assert(more =~= lines.push(expiry::server_line(x)));
    text::lemma_concat_push(lines, expiry::server_line(x));
    let none = Seq::<(Seq<char>, Seq<char>, ExpiryView)>::empty();
    assert(Seq::new(none.len(), |i: int| expiry::server_line(none[i])) =~= Seq::<Seq<char>>::empty());
    assert(expiry::server_report(none) =~= "=== 服务器到期提醒 ===\n"@);
    assert(expiry::server_report(all) =~= expiry::server_report(items) + expiry::server_line(x));
}

/// The report on domains has a headline and, in their order, a line for each: project, label, name,
/// expiry in Beijing, days left, and whether it renews itself.
pub proof fn law_domain_report(
    items: Seq<(Seq<char>, Seq<char>, DomainAlertView)>,
    x: (Seq<char>, Seq<char>, DomainAlertView),
)
    ensures
        expiry::domain_report(Seq::empty()) == "=== 域名到期提醒 ===\n"@,
        expiry::domain_report(items.push(x)) == expiry::domain_report(items) + ("- "@ + x.0 + "/"@ + x.1
            + ": "@ + x.2.domain + " 到期 "@ + in_beijing(x.2.expired_at) + "，"@ + in_days(
            x.2.days_left as int,
        ) + (if x.2.auto_renew {
            " [自动续费已开启]"@
        } else {
            ""@
        }) + "\n"@),
{
    let lines = Seq::new(items.len(), |i: int| expiry::domain_line(items[i]));
    let all = items.push(x);
    let more = Seq::new(all.len(), |i: int| expiry::domain_line(all[i]));
    assert(more =~= lines.push(expiry::domain_line(x)));
    text::lemma_concat_push(lines, expiry::domain_line(x));
    let none = Seq::<(Seq<char>, Seq<char>, DomainAlertView)>::empty();
    assert(Seq::new(none.len(), |i: int| expiry::domain_line(none[i])) =~= Seq::<Seq<char>>::empty());
    assert(expiry::domain_report(none) =~= "=== 域名到期提醒 ===\n"@);
    assert(expiry::domain_report(all) =~= expiry::domain_report(items) + expiry::domain_line(x));
}

/// Both reports are told, the one on servers first and a line between them; one that has nothing to
/// tell is left out, in the text and in the title.
pub proof fn law_expiry_notice(
    servers: Seq<(Seq<char>, Seq<char>, ExpiryView)>,
    domains: Seq<(Seq<char>, Seq<char>, DomainAlertView)>,
)
    ensures
        ({
            let s = expiry::server_report(servers);
            let d = expiry::domain_report(domains);
            let n = text::dec(servers.len()) + " 台服务器"@;
            let m = text::dec(domains.len()) + " 个域名"@;
            let report = expiry::expiry_report(servers, domains);
            let title = text::join(expiry::title_parts(servers.len(), domains.len()), ", "@);
            if servers.len() > 0 && domains.len() > 0 {
                report == s + "\n"@ + d && title == n + ", "@ + m
            } else if servers.len() > 0 {
                report == s && title == n
            } else if domains.len() > 0 {
                report == d && title == m
            } else {
                report.len() == 0
            }
        }),
{
    let parts = expiry::title_parts(servers.len(), domains.len());
    if parts.len() == 2 {
        let first = parts.drop_last();
        assert(text::join(first, ", "@) == first[0]);
    }
}

} // verus!
