//! Notification channels.

use vstd::prelude::*;
use crate::codec;
use crate::config::NotifyConfig;
use crate::error::OpsError;
use crate::text;
use self::dingtalk::DingTalkNotifier;

pub mod dingtalk;

verus! {

/// The channel that the configuration asks for, if any. DingTalk without a webhook is refused, so
/// that nothing goes unnoticed, and so is a kind that there is not.
pub fn from_config(cfg: &NotifyConfig) -> (r: Result<Option<DingTalkNotifier>, OpsError>)
    ensures
        match r {
            Ok(None) => cfg@.kind == ""@ || cfg@.kind == "none"@,
            Ok(Some(n)) => cfg@.kind == "dingtalk"@ && cfg@.dingtalk.webhook.len() > 0 && n@ == (
            dingtalk::NotifierView {
                webhook: cfg@.dingtalk.webhook,
                secret: cfg@.dingtalk.secret,
                prefix: cfg@.prefix,
            }),
            Err(e) => if cfg@.kind == "dingtalk"@ {
                cfg@.dingtalk.webhook.len() == 0 && e@
                    == "notify.kind = \"dingtalk\" 但 webhook 为空：请配置 [notify.dingtalk] webhook 或环境变量 DINGTALK_WEBHOOK_URL"@
            } else {
                cfg@.kind != ""@ && cfg@.kind != "none"@ && e@ == "未知通知渠道: "@
                    + codec::debug_text(cfg@.kind) + "（支持: none | dingtalk）"@
            },
        },
{
    let kind = cfg.kind.as_str();
    proof {
        reveal_strlit("");
        reveal_strlit("none");
        reveal_strlit("dingtalk");
    }
    if text::same(kind, "") || text::same(kind, "none") {
        assert(""@.len() != "dingtalk"@.len() && "none"@.len() != "dingtalk"@.len());
        return Ok(None);
    }
    if text::same(kind, "dingtalk") {
        if cfg.dingtalk.webhook.as_str().is_empty() {
            return Err(
                OpsError::new(
                    "notify.kind = \"dingtalk\" 但 webhook 为空：请配置 [notify.dingtalk] webhook 或环境变量 DINGTALK_WEBHOOK_URL".to_owned(),
                ),
            );
        }
        return Ok(
            Some(
                DingTalkNotifier::new(
                    cfg.dingtalk.webhook.as_str(),
                    cfg.dingtalk.secret.as_str(),
                    cfg.prefix.as_str(),
                ),
            ),
        );
    }
    let mut m = "未知通知渠道: ".to_owned();
    let q = codec::quote(kind);
    m.append(q.as_str());
    m.append("（支持: none | dingtalk）");
    Err(OpsError::new(m))
}

} // verus!
