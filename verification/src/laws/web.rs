//! The web console: who is let in, what is run, and what those who watch are shown.

use vstd::prelude::*;
use crate::codec;
use crate::json;
use crate::notify::dingtalk;
use crate::serve;
use crate::serve::auth;
use crate::serve::tasks;
use crate::serve::tasks::{EndingView, EventView, SpecView, StoreView, TaskView};
use crate::serve::StaticFile;
use crate::text;

verus! {

// ---------------------------------------------------------------------------
// Who is let in
// ---------------------------------------------------------------------------

/// The token of a query is what follows `token=` in the first of its pieces, between ampersands, that
/// begins so; where none does, it is empty.
pub proof fn law_token_of_a_query(q: Seq<char>, k: int, rest: Seq<char>)
    requires
        0 <= k <= text::split(q, '&').len(),
        forall|j: int|
            0 <= j < k ==> forall|r: Seq<char>|
                (#[trigger] text::split(q, '&')[j]) != #[trigger] ("token="@ + r),
        k < text::split(q, '&').len() ==> text::split(q, '&')[k] == "token="@ + rest,
    ensures
        auth::query_token(Some(q)) == if k < text::split(q, '&').len() {
            rest
        } else {
            ""@
        },
        auth::query_token(None) == ""@,
{
    let pieces = text::split(q, '&');
    assert forall|j: int| 0 <= j < k implies text::strip_prefix(#[trigger] pieces[j], "token="@)
        is None by {
        super::words::law_searching(Seq::empty(), "token="@, Seq::empty(), pieces[j]);
        if let Some(r) = text::strip_prefix(pieces[j], "token="@) {
            assert(pieces[j] == "token="@ + r);
        }
    }
    super::words::law_searching(Seq::empty(), "token="@, rest, q);
    lemma_token_in(pieces, k);
}

/// The first piece with a token.
proof fn lemma_token_in(pieces: Seq<Seq<char>>, k: int)
    requires
        0 <= k <= pieces.len(),
        forall|j: int| 0 <= j < k ==> text::strip_prefix(#[trigger] pieces[j], "token="@) is None,
        k < pieces.len() ==> text::strip_prefix(pieces[k], "token="@) is Some,
    ensures
        auth::token_in(pieces) == if k < pieces.len() {
            text::strip_prefix(pieces[k], "token="@)
        } else {
            None
        },
    decreases pieces.len(),
{
    if pieces.len() > 0 && k > 0 {
        assert(text::strip_prefix(pieces[0], "token="@) is None);
        let rest = pieces.drop_first();
        assert forall|j: int| 0 <= j < k - 1 implies text::strip_prefix(#[trigger] rest[j], "token="@)
            is None by {
            assert(pieces[j + 1] == rest[j]);
        }
        lemma_token_in(rest, k - 1);
    }
}

/// A request is let in just where it asks for the page, for something below `/static/` or for the
/// login, has the whole token and nothing else behind `Bearer` and a space in its header, or asks for
/// the stream of the current task and has the token in its query.
pub proof fn law_who_is_let_in(
    token: Seq<char>,
    path: Seq<char>,
    header: Option<Seq<char>>,
    query: Option<Seq<char>>,
)
    ensures
        auth::let_in(token, path, header, query) <==> {
            ||| path == "/"@
            ||| exists|r: Seq<char>| path == #[trigger] ("/static/"@ + r)
            ||| path == "/api/login"@
            ||| header == Some("Bearer "@ + token)
            ||| path == "/api/tasks/current/stream"@ && auth::query_token(query) == token
        },
{
    super::words::law_searching(Seq::empty(), "/static/"@, Seq::empty(), path);
    super::words::law_searching(Seq::empty(), "Bearer "@, token, ""@);
    if let Some(h) = header {
        super::words::law_searching(Seq::empty(), "Bearer "@, token, h);
    }
    reveal_strlit("");
    reveal_strlit("Bearer ");
    assert(text::strip_prefix(""@, "Bearer "@) is None);
}

/// The token is that of the command line, else that of the environment, an empty one counting as
/// none.
pub proof fn law_which_token(a: Option<Seq<char>>, b: Option<Seq<char>>)
    ensures
        auth::first_given(a, b) == if a matches Some(x) && x.len() > 0 {
            a
        } else if b matches Some(y) && y.len() > 0 {
            b
        } else {
            None
        },
{
}

/// The files that the page loads, by their names.
pub proof fn law_files_of_the_page(name: Seq<char>)
    ensures
        serve::static_file_of(name) == Some(StaticFile::AppJs) <==> name == "app.js"@,
        serve::static_file_of(name) == Some(StaticFile::BootstrapCss) <==> name == "bootstrap.min.css"@,
        serve::static_file_of(name) == Some(StaticFile::BootstrapJs) <==> name
            == "bootstrap.bundle.min.js"@,
{
    reveal_strlit("app.js");
    reveal_strlit("bootstrap.min.css");
    reveal_strlit("bootstrap.bundle.min.js");
    assert("app.js"@.len() == 6 && "bootstrap.min.css"@.len() == 17 && "bootstrap.bundle.min.js"@.len()
        == 23);
}

// ---------------------------------------------------------------------------
// Tasks
// ---------------------------------------------------------------------------

/// There are four commands. `projects` is run without arguments, the others with those submitted, all
/// of them, or by default with those that the command line has by default.
pub proof fn law_commands(s: SpecView)
    ensures
        s.command == "projects"@ ==> tasks::spec_args(s) == Some(Seq::<Seq<char>>::empty()),
        s.command == "snapshot"@ ==> tasks::spec_args(s) == Some(
            if s.extra.len() > 0 {
                s.extra
            } else {
                seq!["--keep"@, "2"@]
            },
        ),
        s.command == "expiry"@ ==> tasks::spec_args(s) == Some(
            if s.extra.len() > 0 {
                s.extra
            } else {
                seq!["--days"@, "30,15,3"@]
            },
        ),
        s.command == "disk"@ ==> tasks::spec_args(s) == Some(
            if s.extra.len() > 0 {
                s.extra
            } else {
                seq!["--threshold"@, "90"@]
            },
        ),
        tasks::spec_args(s) is None <==> s.command != "projects"@ && s.command != "snapshot"@
            && s.command != "expiry"@ && s.command != "disk"@,
        tasks::unknown_command(s.command) == "未知命令: "@ + codec::debug_text(s.command)
            + "（支持: projects | snapshot | expiry | disk）"@,
{
    reveal_strlit("projects");
    reveal_strlit("snapshot");
    reveal_strlit("expiry");
    reveal_strlit("disk");
    assert("projects"@[0] == 'p' && "snapshot"@[0] == 's' && "expiry"@[0] == 'e' && "disk"@[0] == 'd');
}

/// A task is run with the configuration's directory, the log level, the project and the provider where
/// they were named, the command, and its arguments, all in this order; it waits at first, and its
/// output goes to a file of its own.
pub proof fn law_new_tasks(
    s: SpecView,
    args: Seq<Seq<char>>,
    dir: Seq<char>,
    id: Seq<char>,
    at: Seq<char>,
)
    ensures
        ({
            let t = tasks::new_task(s, args, dir, id, at);
            let head = seq!["--config"@, dir, "--log"@, "info"@];
            let project = match s.project {
                Some(p) => seq!["--project"@, p],
                None => Seq::empty(),
            };
            let provider = match s.provider {
                Some(p) => seq!["--provider"@, p],
                None => Seq::empty(),
            };
            &&& t.args == head + project + provider + seq![s.command] + args
            &&& t.id == id && t.submitted_at == at && t.command == s.command
            &&& t.status == "queued"@ && t.exit_code is None && t.duration_secs is None
            &&& t.output_file == "tasks/"@ + id + ".log"@
        }),
{
}

/// A task that is submitted waits behind the others; the first of those that wait is taken up; it
/// runs; and when it ends it stands last among those that have ended, with success only for exit code
/// zero. Nothing else changes.
pub proof fn law_steps_of_the_queue(s: StoreView, t: TaskView, code: Option<i32>, secs: u64)
    ensures
        s.after_submit(t).queue == s.queue.push(t),
        s.after_submit(t).current == s.current,
        s.after_submit(t).history == s.history,
        s.queue.len() > 0 ==> s.after_start().current == Some(s.queue[0]) && s.after_start().queue
            == s.queue.skip(1) && s.after_start().history == s.history,
        s.queue.len() == 0 ==> s.after_start() == s,
        s.after_running().queue == s.queue && s.after_running().history == s.history,
        s.current matches Some(c) ==> s.after_running().current == Some(
            TaskView { status: "running"@, ..c },
        ),
        s.current is None ==> s.after_running().current is None,
        s.after_finish(t, code, secs).queue == s.queue,
        s.after_finish(t, code, secs).current is None,
        s.after_finish(t, code, secs).history == s.history.push(
            TaskView {
                status: if code == Some(0i32) {
                    "success"@
                } else {
                    "failed"@
                },
                exit_code: code,
                duration_secs: Some(secs),
                ..t
            },
        ),
{
    if s.queue.len() > 0 {
        assert(s.queue.drop_first() =~= s.queue.skip(1));
    }
}

/// How running a task ended decides its exit code and what is told: the code of the process, or minus
/// one where there was none to give one; a fault, where one kept it from being started, and then the
/// status.
pub proof fn law_endings(e: Seq<char>, code: Option<i32>)
    ensures
        EndingView::Exited(code).code() == code,
        EndingView::NotAwaited.code() == Some(-1i32),
        EndingView::NoOutputFile(e).code() == Some(-1i32),
        EndingView::NoProgram(e).code() == Some(-1i32),
        EndingView::NotStarted(e).code() == Some(-1i32),
        EndingView::Exited(code).closing() == seq![
            "__status__ "@ + (if code == Some(0i32) {
                "success"@
            } else {
                "failed"@
            }),
        ],
        EndingView::NotAwaited.closing() == seq!["__status__ "@ + "failed"@],
        EndingView::NoOutputFile(e).closing() == seq![
            "无法创建输出文件: "@ + e,
            "__status__ "@ + "failed"@,
        ],
        EndingView::NoProgram(e).closing() == seq![
            "无法定位自身可执行文件: "@ + e,
            "__status__ "@ + "failed"@,
        ],
        EndingView::NotStarted(e).closing() == seq![
            "启动子进程失败: "@ + e,
            "__status__ "@ + "failed"@,
        ],
{
}

/// A line that begins with the mark tells of the status behind it, all of it; every other line is
/// output, as it is. A status other than that of running ends the stream.
pub proof fn law_lines_of_the_stream(status: Seq<char>, line: Seq<char>)
    ensures
        tasks::event_of("__status__ "@ + status) == EventView::Status(status),
        (forall|r: Seq<char>| line != #[trigger] ("__status__ "@ + r)) ==> tasks::event_of(line)
            == EventView::Line(line),
        tasks::ends_stream(EventView::Status(status)) <==> status != "running"@,
        !tasks::ends_stream(EventView::Line(line)),
{
    super::words::law_searching(Seq::empty(), "__status__ "@, status, line);
    if let Some(r) = text::strip_prefix(line, "__status__ "@) {
        assert(line == "__status__ "@ + r);
    }
}

/// One who comes later is shown the last 200 lines of the output in their order, or all where there
/// are fewer, and then the status.
pub proof fn law_opening_of_the_stream(output: Seq<char>, status: Option<Seq<char>>)
    ensures
        ({
            let lines = text::lines(output);
            let n = if lines.len() < 200 {
                lines.len() as int
            } else {
                200
            };
            let r = tasks::opening_events(output, status);
            &&& r.len() == n + (if status is Some {
                1int
            } else {
                0int
            })
            &&& forall|i: int|
                0 <= i < n ==> #[trigger] r[i] == EventView::Line(lines[lines.len() - n + i])
            &&& status matches Some(s) ==> r.last() == EventView::Status(s)
        }),
{
    let lines = text::lines(output);
    super::words::law_last_ones(lines, 200);
    let tail = text::last_of(lines, 200);
    assert forall|i: int| 0 <= i < tail.len() implies #[trigger] tail[i] == lines[lines.len()
        - tail.len() + i] by {}
}

// ---------------------------------------------------------------------------
// The robot
// ---------------------------------------------------------------------------

/// A message goes to the webhook with the time in milliseconds and the signature behind it: the
/// Base64, encoded, of the HMAC-SHA256 under the whole secret over the time, a line feed and the whole
/// secret.
pub proof fn law_address_of_a_message(n: dingtalk::NotifierView, ms: int)
    ensures
        dingtalk::message_url(n, ms) == n.webhook + "&timestamp="@ + text::dec_int(ms) + "&sign="@
            + codec::percent_encoded(
            codec::base64(
                codec::hmac_sha256(
                    vstd::utf8::encode_utf8(n.secret),
                    vstd::utf8::encode_utf8(text::dec_int(ms) + "\n"@ + n.secret),
                ),
            ),
        ),
        dingtalk::signature(n.secret, ms) == codec::percent_encoded(
            codec::base64(
                codec::hmac_sha256(
                    vstd::utf8::encode_utf8(n.secret),
                    vstd::utf8::encode_utf8(text::dec_int(ms) + "\n"@ + n.secret),
                ),
            ),
        ),
{
}

/// The time is told in whole milliseconds.
pub proof fn law_milliseconds(t: crate::time::UtcTime)
    ensures
        ({
            let nanos = t.secs * 1_000_000_000 + t.nanos;
            let ms = dingtalk::millis_of(t);
            ms * 1_000_000 <= nanos < (ms + 1) * 1_000_000
        }),
{
}

/// A message was taken just where the status is one of 200 to 299 and the reply has no whole number
/// other than zero as its code; what is told else names the code and the message, or the status and
/// the first 300 characters of the reply.
pub proof fn law_replies_of_the_robot(
    status: u16,
    body: Seq<char>,
    document: Result<json::JsonView, Seq<char>>,
)
    ensures
        ({
            let r = dingtalk::reply_outcome(status, body, document);
            if status < 200 || status > 299 {
                r == Err::<(), Seq<char>>(
                    "钉钉 webhook HTTP "@ + text::dec(status as nat) + ": "@ + (if body.len() <= 300 {
                        body
                    } else {
                        body.take(300)
                    }),
                )
            } else {
                match document {
                    Err(_) => r is Ok,
                    Ok(d) => {
                        let fields = json::document_fields(d);
                        match json::as_int(json::lookup(fields, "errcode"@)) {
                            Some(code) => if code == 0 {
                                r is Ok
                            } else {
                                r == Err::<(), Seq<char>>(
                                    "钉钉返回错误 errcode="@ + text::dec_int(code as int) + ": "@ + (
                                    match json::as_text(json::lookup(fields, "errmsg"@)) {
                                        Some(m) => m,
                                        None => ""@,
                                    }),
                                )
                            },
                            None => r is Ok,
                        }
                    },
                }
            }
        }),
{
}

/// Events and endings are known by what they say.
pub proof fn law_events_and_endings(e: tasks::StreamEvent, r: tasks::RunEnding)
    ensures
        e@ == (match e {
            tasks::StreamEvent::Line(s) => EventView::Line(s@),
            tasks::StreamEvent::Status(s) => EventView::Status(s@),
        }),
        r@ == (match r {
            tasks::RunEnding::NoOutputFile(x) => EndingView::NoOutputFile(x@),
            tasks::RunEnding::NoProgram(x) => EndingView::NoProgram(x@),
            tasks::RunEnding::NotStarted(x) => EndingView::NotStarted(x@),
            tasks::RunEnding::Exited(code) => EndingView::Exited(code),
            tasks::RunEnding::NotAwaited => EndingView::NotAwaited,
        }),
{
}

/// The arguments of a run: where the configuration is, what it is run for, the command and its own
/// arguments, all of them.
pub proof fn law_arguments(
    dir: Seq<char>,
    project: Option<Seq<char>>,
    provider: Option<Seq<char>>,
    command: Seq<char>,
    extra: Seq<Seq<char>>,
)
    ensures
        tasks::full_args(dir, project, provider, command, extra) == seq![
            "--config"@,
            dir,
            "--log"@,
            "info"@,
        ] + (match project {
            Some(p) => seq!["--project"@, p],
            None => Seq::empty(),
        }) + (match provider {
            Some(p) => seq!["--provider"@, p],
            None => Seq::empty(),
        }) + seq![command] + extra,
{
}

} // verus!
