//! The DingTalk robot: signed requests with Markdown messages.

use vstd::prelude::*;
use crate::cloud::aliyun::rpc;
use crate::codec;
use crate::error::OpsError;
use crate::json;
use crate::json::Json;
use crate::text;
use crate::time;
use crate::time::UtcTime;

verus! {

/// A DingTalk robot.
#[derive(Debug)]
pub struct DingTalkNotifier {
    pub webhook: String,
    pub secret: String,
    /// What each title begins with.
    pub prefix: String,
}

/// What is known of a robot.
pub struct NotifierView {
    pub webhook: Seq<char>,
    pub secret: Seq<char>,
    pub prefix: Seq<char>,
}

impl View for DingTalkNotifier {
    type V = NotifierView;

    open spec fn view(&self) -> NotifierView {
        NotifierView { webhook: self.webhook@, secret: self.secret@, prefix: self.prefix@ }
    }
}

/// The signature for the time: the HMAC of time and secret under the secret, ready for a query.
pub open spec fn signature(secret: Seq<char>, ts_ms: int) -> Seq<char> {
    codec::percent_encoded(
        codec::base64(
            codec::hmac_sha256(
                vstd::utf8::encode_utf8(secret),
                vstd::utf8::encode_utf8(text::dec_int(ts_ms) + "\n"@ + secret),
            ),
        ),
    )
}

/// The address of a message that is sent at the time.
pub open spec fn message_url(n: NotifierView, ts_ms: int) -> Seq<char> {
    n.webhook + "&timestamp="@ + text::dec_int(ts_ms) + "&sign="@ + signature(n.secret, ts_ms)
}

/// The instant in milliseconds since 1970.
pub open spec fn millis_of(t: UtcTime) -> int {
    t.secs * 1000 + t.nanos as int / 1_000_000
}

/// A Markdown message.
#[derive(Debug)]
pub struct Markdown {
    pub title: String,
    pub text: String,
}

/// The message: the prefix stands before the title, and both in bold above the text.
pub fn build_markdown(prefix: &str, title: &str, text: &str) -> (r: Markdown)
    ensures
        r.title@ == prefix@ + title@,
        r.text@ == "**"@ + prefix@ + title@ + "**\n\n"@ + text@,
{
    let mut t = prefix.to_owned();
    t.append(title);
    let mut body = "**".to_owned();
    body.append(prefix);
    body.append(title);
    body.append("**\n\n");
    body.append(text);
    Markdown { title: t, text: body }
}

/// What becomes of a reply: whether the message was taken, or why not. A reply without a code, or
/// that is no JSON, counts as taken.
pub open spec fn reply_outcome(
    status: u16,
    body: Seq<char>,
    document: Result<json::JsonView, Seq<char>>,
) -> Result<(), Seq<char>> {
    if !rpc::http_ok(status) {
        Err("钉钉 webhook HTTP "@ + text::dec(status as nat) + ": "@ + text::take_chars(body, 300))
    } else {
        match document {
            Err(_) => Ok(()),
            Ok(d) => {
                let fields = json::document_fields(d);
                match json::as_int(json::lookup(fields, "errcode"@)) {
                    Some(code) => if code == 0 {
                        Ok(())
                    } else {
                        Err(
                            "钉钉返回错误 errcode="@ + text::dec_int(code as int) + ": "@ + (
                            match json::as_text(json::lookup(fields, "errmsg"@)) {
                                Some(m) => m,
                                None => ""@,
                            }),
                        )
                    },
                    None => Ok(()),
                }
            },
        }
    }
}

impl DingTalkNotifier {
    /// The robot at the webhook.
    pub fn new(webhook: &str, secret: &str, prefix: &str) -> (n: DingTalkNotifier)
        ensures
            n@ == (NotifierView { webhook: webhook@, secret: secret@, prefix: prefix@ }),
    {
        DingTalkNotifier {
            webhook: webhook.to_owned(),
            secret: secret.to_owned(),
            prefix: prefix.to_owned(),
        }
    }

    /// The signature for the time.
    pub fn sign(secret: &str, ts_ms: i64) -> (r: String)
        ensures
            r@ == signature(secret@, ts_ms as int),
    {
        let mut to_sign = text::print_i64(ts_ms);
        to_sign.append("\n");
        to_sign.append(secret);
        let mac = codec::mac_sha256(secret.as_bytes(), to_sign.as_str().as_bytes());
        let digest = codec::encode_base64(mac.as_slice());
        codec::percent_encode(digest.as_str())
    }

    /// The address of a message that is sent at the time.
    pub fn url_at(&self, ts_ms: i64) -> (r: String)
        ensures
            r@ == message_url(self@, ts_ms as int),
    {
        let mut url = self.webhook.clone();
        url.append("&timestamp=");
        let ts = text::print_i64(ts_ms);
        url.append(ts.as_str());
        url.append("&sign=");
        let sign = DingTalkNotifier::sign(self.secret.as_str(), ts_ms);
        url.append(sign.as_str());
        url
    }

    /// The address of a message that is sent now.
    pub fn url(&self) -> (r: String)
        ensures
            exists|t: UtcTime| t.wf() && r@ == message_url(self@, #[trigger] millis_of(t)),
    {
        let t = time::now();
        let ts: i64 = t.secs * 1000 + (t.nanos / 1_000_000) as i64;
        assert(ts == millis_of(t));
        self.url_at(ts)
    }

    /// The message with the robot's prefix.
    pub fn message(&self, title: &str, text: &str) -> (r: Markdown)
        ensures
            r.title@ == self@.prefix + title@,
            r.text@ == "**"@ + self@.prefix + title@ + "**\n\n"@ + text@,
    {
        build_markdown(self.prefix.as_str(), title, text)
    }

    /// Whether the message was taken, given what the reply was read as.
    pub fn accept_document(status: u16, body: &str, document: Result<Json, String>) -> (r: Result<
        (),
        OpsError,
    >)
        ensures
            rpc::outcome(r) == reply_outcome(status, body@, json::read_view(document)),
    {
        if !(200 <= status && status <= 299) {
            let mut m = "钉钉 webhook HTTP ".to_owned();
            let code = text::print_u64(status as u64);
            m.append(code.as_str());
            m.append(": ");
            let t = text::first_chars(body, 300);
            m.append(t.as_str());
            return Err(OpsError::new(m));
        }
        match document {
            Err(_) => Ok(()),
            Ok(d) => {
                let fields = json::fields_of_document(d);
                match json::int_value(json::get(&fields, "errcode")) {
                    Some(code) => if code == 0 {
                        Ok(())
                    } else {
                        let mut m = "钉钉返回错误 errcode=".to_owned();
                        let c = text::print_i64(code);
                        m.append(c.as_str());
                        m.append(": ");
                        match json::text_value(json::get(&fields, "errmsg")) {
                            Some(msg) => m.append(msg),
                            None => m.append(""),
                        }
                        Err(OpsError::new(m))
                    },
                    None => Ok(()),
                }
            },
        }
    }

    /// Whether the message was taken: a successful status, and no code but zero.
    pub fn accept_reply(status: u16, body: &str) -> (r: Result<(), OpsError>)
        ensures
            rpc::outcome(r) == reply_outcome(status, body@, json::json_document(body@)),
    {
        let document = json::read_json(body);
        DingTalkNotifier::accept_document(status, body, document)
    }
}

} // verus!
