//! Tasks: commands that wait, run one at a time, and are remembered.

use vstd::prelude::*;
use std::collections::VecDeque;
use crate::codec;
use crate::error::OpsError;
use crate::text;
use crate::time;
use crate::time::UtcTime;

verus! {

/// A command to run.
#[derive(Debug)]
pub struct CommandSpec {
    pub command: String,
    pub project: Option<String>,
    pub provider: Option<String>,
    /// The arguments of the command itself.
    pub extra: Vec<String>,
}

/// What a command asks for.
pub struct SpecView {
    pub command: Seq<char>,
    pub project: Option<Seq<char>>,
    pub provider: Option<Seq<char>>,
    pub extra: Seq<Seq<char>>,
}

impl View for CommandSpec {
    type V = SpecView;

    open spec fn view(&self) -> SpecView {
        SpecView {
            command: self.command@,
            project: text::opt_view(self.project),
            provider: text::opt_view(self.provider),
            extra: text::views(self.extra@),
        }
    }
}

/// A task.
#[derive(Debug)]
pub struct TaskMeta {
    pub id: String,
    pub submitted_at: String,
    pub command: String,
    pub args: Vec<String>,
    /// `queued`, `running`, `success` or `failed`.
    pub status: String,
    pub exit_code: Option<i32>,
    pub duration_secs: Option<u64>,
    pub output_file: String,
}

/// What is known of a task.
pub struct TaskView {
    pub id: Seq<char>,
    pub submitted_at: Seq<char>,
    pub command: Seq<char>,
    pub args: Seq<Seq<char>>,
    pub status: Seq<char>,
    pub exit_code: Option<i32>,
    pub duration_secs: Option<u64>,
    pub output_file: Seq<char>,
}

impl View for TaskMeta {
    type V = TaskView;

    open spec fn view(&self) -> TaskView {
        TaskView {
            id: self.id@,
            submitted_at: self.submitted_at@,
            command: self.command@,
            args: text::views(self.args@),
            status: self.status@,
            exit_code: self.exit_code,
            duration_secs: self.duration_secs,
            output_file: self.output_file@,
        }
    }
}

/// Copies of the strings.
fn copy_strings(v: &Vec<String>) -> (r: Vec<String>)
    ensures
        text::views(r@) == text::views(v@),
{
    let mut out: Vec<String> = Vec::new();
    let mut i: usize = 0;
    while i < v.len()
        invariant
            i <= v.len(),
            text::views(out@) == text::views(v@).take(i as int),
        decreases v.len() - i,
    {
        let s = v[i].clone();
        proof {
            text::lemma_views_push(out@, s);
            assert(text::views(v@).take(i + 1) =~= text::views(v@).take(i as int).push(s@));
        }
        out.push(s);
        i = i + 1;
    }
    assert(text::views(v@).take(i as int) =~= text::views(v@));
    out
}

impl TaskMeta {
    /// A copy.
    pub fn copy(&self) -> (r: TaskMeta)
        ensures
            r@ == self@,
    {
        TaskMeta {
            id: self.id.clone(),
            submitted_at: self.submitted_at.clone(),
            command: self.command.clone(),
            args: copy_strings(&self.args),
            status: self.status.clone(),
            exit_code: self.exit_code,
            duration_secs: self.duration_secs,
            output_file: self.output_file.clone(),
        }
    }
}

// ---------------------------------------------------------------------------
// Arguments
// ---------------------------------------------------------------------------

/// The arguments, or the two given ones where there are none.
pub open spec fn or_default(extra: Seq<Seq<char>>, flag: Seq<char>, value: Seq<char>) -> Seq<
    Seq<char>,
> {
    if extra.len() == 0 {
        seq![flag, value]
    } else {
        extra
    }
}

/// The arguments of the command; of one that there is not, none.
pub open spec fn spec_args(s: SpecView) -> Option<Seq<Seq<char>>> {
    if s.command == "projects"@ {
        Some(Seq::empty())
    } else if s.command == "snapshot"@ {
        Some(or_default(s.extra, "--keep"@, "2"@))
    } else if s.command == "expiry"@ {
        Some(or_default(s.extra, "--days"@, "30,15,3"@))
    } else if s.command == "disk"@ {
        Some(or_default(s.extra, "--threshold"@, "90"@))
    } else {
        None
    }
}

/// That there is no such command.
pub open spec fn unknown_command(command: Seq<char>) -> Seq<char> {
    "未知命令: "@ + codec::debug_text(command) + "（支持: projects | snapshot | expiry | disk）"@
}

/// The arguments, or the two given ones where there are none.
fn args_or(extra: &Vec<String>, flag: &str, value: &str) -> (r: Vec<String>)
    ensures
        text::views(r@) == or_default(text::views(extra@), flag@, value@),
{
    if extra.is_empty() {
        let mut v: Vec<String> = Vec::new();
        v.push(flag.to_owned());
        v.push(value.to_owned());
        assert(text::views(v@) =~= seq![flag@, value@]);
        v
    } else {
        copy_strings(extra)
    }
}

/// The arguments of the command, by default those that the command line has.
pub fn validate_spec(spec: &CommandSpec) -> (r: Result<Vec<String>, OpsError>)
    ensures
        match r {
            Ok(v) => spec_args(spec@) == Some(text::views(v@)),
            Err(e) => spec_args(spec@) is None && e@ == unknown_command(spec@.command),
        },
{
    let c = spec.command.as_str();
    if text::same(c, "projects") {
        let v: Vec<String> = Vec::new();
        assert(text::views(v@) =~= Seq::<Seq<char>>::empty());
        Ok(v)
    } else if text::same(c, "snapshot") {
        Ok(args_or(&spec.extra, "--keep", "2"))
    } else if text::same(c, "expiry") {
        Ok(args_or(&spec.extra, "--days", "30,15,3"))
    } else if text::same(c, "disk") {
        Ok(args_or(&spec.extra, "--threshold", "90"))
    } else {
        let mut m = "未知命令: ".to_owned();
        let q = codec::quote(c);
        m.append(q.as_str());
        m.append("（支持: projects | snapshot | expiry | disk）");
        Err(OpsError::new(m))
    }
}

/// A flag with its value, where there is one.
pub open spec fn flag_args(flag: Seq<char>, value: Option<Seq<char>>) -> Seq<Seq<char>> {
    match value {
        Some(v) => seq![flag, v],
        None => Seq::empty(),
    }
}

/// The arguments that the program is run with.
pub open spec fn full_args(
    config_dir: Seq<char>,
    project: Option<Seq<char>>,
    provider: Option<Seq<char>>,
    command: Seq<char>,
    extra: Seq<Seq<char>>,
) -> Seq<Seq<char>> {
    seq!["--config"@, config_dir, "--log"@, "info"@] + flag_args("--project"@, project)
        + flag_args("--provider"@, provider) + seq![command] + extra
}

/// The arguments that the program is run with: where the configuration is, what it is run for, the
/// command and its own arguments.
pub fn build_args(
    config_dir: &str,
    project: Option<&str>,
    provider: Option<&str>,
    command: &str,
    extra: &[String],
) -> (r: Vec<String>)
    ensures
        text::views(r@) == full_args(
            config_dir@,
            text::opt_str_view(project),
            text::opt_str_view(provider),
            command@,
            text::views(extra@),
        ),
{
    let mut args: Vec<String> = Vec::new();
    args.push("--config".to_owned());
    args.push(config_dir.to_owned());
    args.push("--log".to_owned());
    args.push("info".to_owned());
    let ghost a = seq!["--config"@, config_dir@, "--log"@, "info"@];
    assert(text::views(args@) =~= a);
    if let Some(p) = project {
        args.push("--project".to_owned());
        args.push(p.to_owned());
    }
    let ghost b = a + flag_args("--project"@, text::opt_str_view(project));
    assert(text::views(args@) =~= b);
    if let Some(k) = provider {
        args.push("--provider".to_owned());
        args.push(k.to_owned());
    }
    let ghost c = b + flag_args("--provider"@, text::opt_str_view(provider));
    assert(text::views(args@) =~= c);
    args.push(command.to_owned());
    let ghost d = c + seq![command@];
    assert(text::views(args@) =~= d);
    let ghost all = text::views(extra@);
    let mut i: usize = 0;
    assert(d + all.take(0) =~= d);
    while i < extra.len()
        invariant
            i <= extra.len(),
            all == text::views(extra@),
            text::views(args@) == d + all.take(i as int),
        decreases extra.len() - i,
    {
        let s = extra[i].clone();
        proof {
            text::lemma_views_push(args@, s);
            assert((d + all.take(i as int)).push(s@) =~= d + all.take(i + 1));
        }
        args.push(s);
        i = i + 1;
    }
    assert(all.take(i as int) =~= all);
    args
}

// ---------------------------------------------------------------------------
// The queue
// ---------------------------------------------------------------------------

/// The task that the specification makes: it waits.
pub open spec fn new_task(
    s: SpecView,
    args: Seq<Seq<char>>,
    config_dir: Seq<char>,
    id: Seq<char>,
    submitted_at: Seq<char>,
) -> TaskView {
    TaskView {
        id,
        submitted_at,
        command: s.command,
        args: full_args(config_dir, s.project, s.provider, s.command, args),
        status: "queued"@,
        exit_code: None,
        duration_secs: None,
        output_file: "tasks/"@ + id + ".log"@,
    }
}

/// The status of a task that ended: well only where the program said so with exit code zero.
pub open spec fn end_status(exit_code: Option<i32>) -> Seq<char> {
    if exit_code == Some(0i32) {
        "success"@
    } else {
        "failed"@
    }
}

/// The status of a task that ended.
fn end_status_text(exit_code: Option<i32>) -> (r: &'static str)
    ensures
        r@ == end_status(exit_code),
{
    match exit_code {
        Some(c) => if c == 0 {
            "success"
        } else {
            "failed"
        },
        None => "failed",
    }
}

/// The task as it ended.
pub open spec fn ended_task(t: TaskView, exit_code: Option<i32>, duration_secs: u64) -> TaskView {
    TaskView {
        status: end_status(exit_code),
        exit_code,
        duration_secs: Some(duration_secs),
        ..t
    }
}

/// The tasks that wait, the one that runs, and those that have ended.
pub struct TaskStore {
    pub queue: VecDeque<TaskMeta>,
    pub current: Option<TaskMeta>,
    pub history: Vec<TaskMeta>,
}

/// What is known of the tasks.
pub struct StoreView {
    pub queue: Seq<TaskView>,
    pub current: Option<TaskView>,
    pub history: Seq<TaskView>,
}

/// What is known of an optional task.
pub open spec fn opt_task(t: Option<TaskMeta>) -> Option<TaskView> {
    match t {
        Some(x) => Some(x@),
        None => None,
    }
}

impl View for TaskStore {
    type V = StoreView;

    open spec fn view(&self) -> StoreView {
        StoreView {
            queue: text::views(self.queue@),
            current: opt_task(self.current),
            history: text::views(self.history@),
        }
    }
}

impl StoreView {
    /// After a task was submitted.
    pub open spec fn after_submit(self, t: TaskView) -> StoreView {
        StoreView { queue: self.queue.push(t), ..self }
    }

    /// After the first task of the queue was taken up; with an empty queue nothing happens.
    pub open spec fn after_start(self) -> StoreView {
        if self.queue.len() == 0 {
            self
        } else {
            StoreView {
                queue: self.queue.drop_first(),
                current: Some(self.queue[0]),
                history: self.history,
            }
        }
    }

    /// After the task that was taken up began to run.
    pub open spec fn after_running(self) -> StoreView {
        StoreView {
            current: match self.current {
                Some(t) => Some(TaskView { status: "running"@, ..t }),
                None => None,
            },
            ..self
        }
    }

    /// After the task ended.
    pub open spec fn after_finish(self, t: TaskView, exit_code: Option<i32>, duration_secs: u64) -> StoreView {
        StoreView {
            queue: self.queue,
            current: None,
            history: self.history.push(ended_task(t, exit_code, duration_secs)),
        }
    }
}

impl TaskStore {
    /// Nothing waits and nothing runs.
    pub fn new(history: Vec<TaskMeta>) -> (s: TaskStore)
        ensures
            s@ == (StoreView {
                queue: Seq::empty(),
                current: None,
                history: text::views(history@),
            }),
    {
        let s = TaskStore { queue: VecDeque::new(), current: None, history };
        assert(s@.queue =~= Seq::<TaskView>::empty());
        s
    }

    /// Submits a task under the identifier, at the time.
    pub fn submit_as(
        &mut self,
        spec: &CommandSpec,
        config_dir: &str,
        id: String,
        submitted_at: String,
    ) -> (r: Result<TaskMeta, OpsError>)
        ensures
            match (spec_args(spec@), r) {
                (Some(args), Ok(t)) => t@ == new_task(
                    spec@,
                    args,
                    config_dir@,
                    id@,
                    submitted_at@,
                ) && final(self)@ == old(self)@.after_submit(t@),
                (None, Err(e)) => e@ == unknown_command(spec@.command) && final(self)@
                    == old(self)@,
                _ => false,
            },
    {
        let extra = match validate_spec(spec) {
            Ok(v) => v,
            Err(e) => {
                return Err(e);
            },
        };
        let project = match &spec.project {
            Some(p) => Some(p.as_str()),
            None => None,
        };
        let provider = match &spec.provider {
            Some(p) => Some(p.as_str()),
            None => None,
        };
        let args = build_args(
            config_dir,
            project,
            provider,
            spec.command.as_str(),
            extra.as_slice(),
        );
        let mut output_file = "tasks/".to_owned();
        output_file.append(id.as_str());
        output_file.append(".log");
        let meta = TaskMeta {
            id,
            submitted_at,
            command: spec.command.clone(),
            args,
            status: "queued".to_owned(),
            exit_code: None,
            duration_secs: None,
            output_file,
        };
        let queued = meta.copy();
        let ghost before = self.queue@;
        self.queue.push_back(queued);
        proof {
            text::lemma_views_push(before, queued);
        }
        Ok(meta)
    }

    /// Submits a task now, under a new identifier.
    pub fn submit(&mut self, spec: &CommandSpec, config_dir: &str) -> (r: Result<
        TaskMeta,
        OpsError,
    >)
        ensures
            match (spec_args(spec@), r) {
                (Some(args), Ok(t)) => {
                    &&& codec::plain_id(t@.id)
                    &&& exists|now: UtcTime|
                        now.wf() && t@ == new_task(
                            spec@,
                            args,
                            config_dir@,
                            t@.id,
                            #[trigger] time::rfc3339_text(now.secs, now.nanos),
                        )
                    &&& final(self)@ == old(self)@.after_submit(t@)
                },
                (None, Err(e)) => e@ == unknown_command(spec@.command) && final(self)@
                    == old(self)@,
                _ => false,
            },
    {
        let id = codec::new_plain_id();
        let now = time::now();
        let submitted_at = time::print_rfc3339(now);
        self.submit_as(spec, config_dir, id, submitted_at)
    }

    /// The tasks that have ended.
    pub fn list(&self) -> (r: &Vec<TaskMeta>)
        ensures
            text::views(r@) == self@.history,
    {
        &self.history
    }

    /// The task that runs.
    pub fn current(&self) -> (r: Option<&TaskMeta>)
        ensures
            match r {
                Some(t) => self@.current == Some(t@),
                None => self@.current is None,
            },
    {
        match &self.current {
            Some(t) => Some(t),
            None => None,
        }
    }

    /// Takes up the task that has waited longest; nothing where none waits.
    pub fn run_next_if_idle(&mut self) -> (r: Option<TaskMeta>)
        ensures
            final(self)@ == old(self)@.after_start(),
            match r {
                Some(t) => old(self)@.queue.len() > 0 && t@ == old(self)@.queue[0],
                None => old(self)@.queue.len() == 0,
            },
    {
        let ghost before = self@;
        match self.queue.pop_front() {
            Some(m) => {
                assert(before.queue[0] == m@);
                let running = m.copy();
                self.current = Some(running);
                assert(self@.queue =~= before.queue.drop_first());
                Some(m)
            },
            None => None,
        }
    }

    /// Notes that the task that was taken up runs.
    pub fn mark_running(&mut self)
        ensures
            final(self)@ == old(self)@.after_running(),
    {
        let ghost before = self@;
        let mut cur: Option<TaskMeta> = None;
        std::mem::swap(&mut cur, &mut self.current);
        if let Some(t) = cur {
            let mut t = t;
            t.status = "running".to_owned();
            self.current = Some(t);
        }
    }

    /// Notes how the task ended, and gives it back as it is remembered.
    pub fn finish(&mut self, meta: &TaskMeta, exit_code: Option<i32>, duration_secs: u64) -> (r:
        TaskMeta)
        ensures
            final(self)@ == old(self)@.after_finish(meta@, exit_code, duration_secs),
            r@ == ended_task(meta@, exit_code, duration_secs),
    {
        let mut m = meta.copy();
        m.status = end_status_text(exit_code).to_owned();
        m.exit_code = exit_code;
        m.duration_secs = Some(duration_secs);
        let kept = m.copy();
        self.current = None;
        proof {
            text::lemma_views_push(self.history@, kept);
        }
        self.history.push(kept);
        m
    }
}

/// Tasks are taken up in the order in which they were submitted: one that is submitted while
/// others wait is taken up behind them.
pub proof fn law_first_come_first_served(s: StoreView, t: TaskView)
    ensures
        s.queue.len() > 0 ==> s.after_submit(t).after_start() == s.after_start().after_submit(t),
        s.queue.len() == 0 ==> s.after_submit(t).after_start().current == Some(t),
{
    if s.queue.len() > 0 {
        assert(s.queue.push(t).drop_first() =~= s.queue.drop_first().push(t));
    }
}

/// No task is lost: running the one that has waited longest moves it to those that have ended, and
/// leaves the others waiting as they were.
pub proof fn law_no_task_is_lost(s: StoreView, exit_code: Option<i32>, duration_secs: u64)
    requires
        s.queue.len() > 0,
    ensures
        s.after_start().after_running().after_finish(s.queue[0], exit_code, duration_secs) == (
        StoreView {
            queue: s.queue.drop_first(),
            current: None,
            history: s.history.push(ended_task(s.queue[0], exit_code, duration_secs)),
        }),
{
}

/// The life of a task: it waits, runs, and ends well or not, and then stands last among those that
/// have ended, while nothing runs.
pub proof fn law_life_of_a_task(
    s: StoreView,
    t: TaskView,
    exit_code: Option<i32>,
    duration_secs: u64,
)
    requires
        s.queue.len() == 0,
        t.status == "queued"@,
    ensures
        ({
            let waiting = s.after_submit(t);
            let running = waiting.after_start().after_running();
            let ended = running.after_finish(t, exit_code, duration_secs);
            &&& waiting.queue.last().status == "queued"@
            &&& running.current == Some(TaskView { status: "running"@, ..t })
            &&& ended.current is None
            &&& ended.queue.len() == 0
            &&& ended.history == s.history.push(ended_task(t, exit_code, duration_secs))
            &&& ended.history.last().id == t.id
            &&& ended.history.last().status == "success"@ || ended.history.last().status
                == "failed"@
            &&& exit_code == Some(0i32) ==> ended.history.last().status == "success"@
            &&& exit_code != Some(0i32) ==> ended.history.last().status == "failed"@
        }),
{
    assert(s.queue.push(t).drop_first() =~= Seq::<TaskView>::empty());
}

// ---------------------------------------------------------------------------
// The stream
// ---------------------------------------------------------------------------

/// How many lines of what a task has said are shown to one who comes later.
pub const TAIL_LINES: usize = 200;

/// What a line that tells of a status begins with.
pub const STATUS_MARK: &'static str = "__status__ ";

/// The line that tells of a status.
pub fn status_line(status: &str) -> (r: String)
    ensures
        r@ == STATUS_MARK@ + status@,
{
    let mut m = STATUS_MARK.to_owned();
    m.append(status);
    m
}

/// How running a task ended.
#[derive(Debug)]
pub enum RunEnding {
    /// The file for its output could not be made.
    NoOutputFile(String),
    /// The program itself was not found.
    NoProgram(String),
    /// The process could not be started.
    NotStarted(String),
    /// The process ended, with a code or, where a signal ended it, without.
    Exited(Option<i32>),
    /// The end of the process could not be awaited.
    NotAwaited,
}

/// How running a task ended, with what was said of it.
pub enum EndingView {
    NoOutputFile(Seq<char>),
    NoProgram(Seq<char>),
    NotStarted(Seq<char>),
    Exited(Option<i32>),
    NotAwaited,
}

impl View for RunEnding {
    type V = EndingView;

    open spec fn view(&self) -> EndingView {
        match *self {
            RunEnding::NoOutputFile(e) => EndingView::NoOutputFile(e@),
            RunEnding::NoProgram(e) => EndingView::NoProgram(e@),
            RunEnding::NotStarted(e) => EndingView::NotStarted(e@),
            RunEnding::Exited(code) => EndingView::Exited(code),
            RunEnding::NotAwaited => EndingView::NotAwaited,
        }
    }
}

impl EndingView {
    /// The exit code: that of the process, and where there was none to give one, minus one.
    pub open spec fn code(self) -> Option<i32> {
        match self {
            EndingView::Exited(code) => code,
            _ => Some(-1i32),
        }
    }

    /// What kept the process from being started, in words.
    pub open spec fn fault(self) -> Option<Seq<char>> {
        match self {
            EndingView::NoOutputFile(e) => Some("无法创建输出文件: "@ + e),
            EndingView::NoProgram(e) => Some("无法定位自身可执行文件: "@ + e),
            EndingView::NotStarted(e) => Some("启动子进程失败: "@ + e),
            _ => None,
        }
    }

    /// The lines that those who watch are sent at the end: the fault, if there is one, and the
    /// status.
    pub open spec fn closing(self) -> Seq<Seq<char>> {
        let last = STATUS_MARK@ + end_status(self.code());
        match self.fault() {
            Some(m) => seq![m, last],
            None => seq![last],
        }
    }
}

impl RunEnding {
    /// The exit code of the task.
    pub fn exit_code(&self) -> (r: Option<i32>)
        ensures
            r == self@.code(),
    {
        match self {
            RunEnding::Exited(code) => *code,
            _ => Some(-1),
        }
    }

    /// What kept the process from being started.
    pub fn error(&self) -> (r: Option<String>)
        ensures
            text::opt_view(r) == self@.fault(),
    {
        let (what, why) = match self {
            RunEnding::NoOutputFile(e) => ("无法创建输出文件: ", e),
            RunEnding::NoProgram(e) => ("无法定位自身可执行文件: ", e),
            RunEnding::NotStarted(e) => ("启动子进程失败: ", e),
            _ => {
                return None;
            },
        };
        let mut m = what.to_owned();
        m.append(why.as_str());
        Some(m)
    }

    /// The lines that those who watch are sent at the end.
    pub fn closing_lines(&self) -> (r: Vec<String>)
        ensures
            text::views(r@) == self@.closing(),
    {
        let mut out: Vec<String> = Vec::new();
        if let Some(m) = self.error() {
            out.push(m);
        }
        out.push(status_line(end_status_text(self.exit_code())));
        assert(text::views(out@) =~= self@.closing());
        out
    }
}

/// The stream of a task comes to its end: the last line that is sent tells of a status that ends
/// it, the one that the task is remembered with.
pub proof fn law_streams_end(ending: EndingView, t: TaskView, duration_secs: u64)
    ensures
        ending.closing().len() > 0,
        ends_stream(event_of(ending.closing().last())),
        event_of(ending.closing().last()) == EventView::Status(
            ended_task(t, ending.code(), duration_secs).status,
        ),
{
    let status = end_status(ending.code());
    law_status_lines(status);
    reveal_strlit("running");
    reveal_strlit("success");
    reveal_strlit("failed");
    assert("running"@[0] == 'r');
    assert("success"@[0] == 's');
    assert("failed"@[0] == 'f');
}

/// What is sent to those who watch.
#[derive(Debug)]
pub enum StreamEvent {
    /// A line of output.
    Line(String),
    /// The status of the task.
    Status(String),
}

/// What an event says.
pub enum EventView {
    Line(Seq<char>),
    Status(Seq<char>),
}

impl View for StreamEvent {
    type V = EventView;

    open spec fn view(&self) -> EventView {
        match *self {
            StreamEvent::Line(s) => EventView::Line(s@),
            StreamEvent::Status(s) => EventView::Status(s@),
        }
    }
}

/// The event of a line.
pub open spec fn event_of(line: Seq<char>) -> EventView {
    match text::strip_prefix(line, STATUS_MARK@) {
        Some(st) => EventView::Status(st),
        None => EventView::Line(line),
    }
}

/// Whether the event is the last: it tells of a status that is not that of running.
pub open spec fn ends_stream(e: EventView) -> bool {
    e matches EventView::Status(st) && st != "running"@
}

/// The event of a line, and whether it is the last.
pub fn stream_event(line: &str) -> (r: (StreamEvent, bool))
    ensures
        r.0@ == event_of(line@),
        r.1 == ends_stream(event_of(line@)),
{
    match text::text_strip_prefix(line, STATUS_MARK) {
        Some(st) => {
            let last = !text::same(st.as_str(), "running");
            (StreamEvent::Status(st), last)
        },
        None => (StreamEvent::Line(line.to_owned()), false),
    }
}

/// What one who comes later is shown first: the last lines, then the status of the task that runs.
pub open spec fn opening_events(output: Seq<char>, status: Option<Seq<char>>) -> Seq<EventView> {
    let tail = text::last_of(text::lines(output), TAIL_LINES as nat);
    let shown = Seq::new(tail.len(), |i: int| EventView::Line(tail[i]));
    match status {
        Some(st) => shown.push(EventView::Status(st)),
        None => shown,
    }
}

/// What one who comes later is shown first.
pub fn opening(output: &str, status: Option<&str>) -> (r: Vec<StreamEvent>)
    ensures
        text::views(r@) == opening_events(output@, text::opt_str_view(status)),
{
    let lines = text::lines_of(output);
    let ghost all = text::views(lines@);
    let ghost tail = text::last_of(all, TAIL_LINES as nat);
    let start: usize = if lines.len() <= TAIL_LINES {
        0
    } else {
        lines.len() - TAIL_LINES
    };
    assert(all.len() == lines@.len());
    assert(all.skip(start as int) =~= tail);
    let ghost shown = Seq::new(tail.len(), |i: int| EventView::Line(tail[i]));
    let mut out: Vec<StreamEvent> = Vec::new();
    let mut i: usize = start;
    while i < lines.len()
        invariant
            start <= i <= lines.len(),
            all == text::views(lines@),
            tail == all.skip(start as int),
            shown == Seq::new(tail.len(), |k: int| EventView::Line(tail[k])),
            text::views(out@) == shown.take(i - start),
        decreases lines.len() - i,
    {
        assert(tail[i - start] == lines@[i as int]@);
        let e = StreamEvent::Line(lines[i].clone());
        proof {
            text::lemma_views_push(out@, e);
            assert(shown.take(i - start + 1) =~= shown.take(i - start).push(e@));
        }
        out.push(e);
        i = i + 1;
    }
    assert(shown.take(i - start) =~= shown);
    if let Some(st) = status {
        let e = StreamEvent::Status(st.to_owned());
        proof {
            text::lemma_views_push(out@, e);
        }
        out.push(e);
    }
    out
}

/// A line that tells of a status is read as that status.
pub proof fn law_status_lines(status: Seq<char>)
    ensures
        event_of(STATUS_MARK@ + status) == EventView::Status(status),
{
    let line = STATUS_MARK@ + status;
    assert(line.subrange(0, STATUS_MARK@.len() as int) =~= STATUS_MARK@);
    assert(line.subrange(STATUS_MARK@.len() as int, line.len() as int) =~= status);
}

} // verus!
