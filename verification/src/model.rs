//! The data of an update run: tools, their jobs, and the run as a whole.

use vstd::prelude::*;

use crate::bytes::PathBytes;
use crate::clock::TimeSpan;
use crate::text::{copy_texts, texts};

verus! {

/// A program and its arguments.
#[derive(Debug)]
pub struct CommandSpec {
    pub program: String,
    pub args: Vec<String>,
}

/// What a command says, as text.
pub struct CommandView {
    pub program: Seq<char>,
    pub args: Seq<Seq<char>>,
}

impl View for CommandSpec {
    type V = CommandView;

    open spec fn view(&self) -> CommandView {
        CommandView { program: self.program@, args: texts(self.args@) }
    }
}

impl Clone for CommandSpec {
    fn clone(&self) -> (r: Self)
        ensures
            r@ == self@,
    {
        CommandSpec { program: self.program.clone(), args: copy_texts(&self.args) }
    }
}

/// Whether a tool may run, and why not.
#[derive(Debug)]
pub enum Preflight {
    Ready,
    Skipped(String),
    Blocked(String),
}

/// A preflight verdict, as text.
pub enum PreflightView {
    Ready,
    Skipped(Seq<char>),
    Blocked(Seq<char>),
}

impl View for Preflight {
    type V = PreflightView;

    open spec fn view(&self) -> PreflightView {
        match self {
            Preflight::Ready => PreflightView::Ready,
            Preflight::Skipped(reason) => PreflightView::Skipped(reason@),
            Preflight::Blocked(reason) => PreflightView::Blocked(reason@),
        }
    }
}

impl Clone for Preflight {
    fn clone(&self) -> (r: Self)
        ensures
            r@ == self@,
    {
        match self {
            Preflight::Ready => Preflight::Ready,
            Preflight::Skipped(reason) => Preflight::Skipped(reason.clone()),
            Preflight::Blocked(reason) => Preflight::Blocked(reason.clone()),
        }
    }
}

/// One tool of the catalogue, ready to be scheduled.
#[derive(Debug)]
pub struct ToolSpec {
    pub id: String,
    pub label: String,
    pub update: CommandSpec,
    pub version: Option<CommandSpec>,
    /// Tools with the same nonempty resource never update at the same time.
    pub resource: String,
    /// Zero-based nonempty line of the version output to report.
    pub version_line: usize,
    /// Literals in the update's output that mark it failed.
    pub failure_contains: Vec<String>,
    pub preflight: Preflight,
}

/// A tool, as text.
pub struct ToolView {
    pub id: Seq<char>,
    pub label: Seq<char>,
    pub update: CommandView,
    pub version: Option<CommandView>,
    pub resource: Seq<char>,
    pub version_line: usize,
    pub failure_contains: Seq<Seq<char>>,
    pub preflight: PreflightView,
}

impl View for ToolSpec {
    type V = ToolView;

    open spec fn view(&self) -> ToolView {
        ToolView {
            id: self.id@,
            label: self.label@,
            update: self.update@,
            version: match self.version {
                Some(v) => Some(v@),
                None => None,
            },
            resource: self.resource@,
            version_line: self.version_line,
            failure_contains: texts(self.failure_contains@),
            preflight: self.preflight@,
        }
    }
}

impl Clone for ToolSpec {
    fn clone(&self) -> (r: Self)
        ensures
            r@ == self@,
    {
        let version = match &self.version {
            Some(v) => Some(v.clone()),
            None => None,
        };
        ToolSpec {
            id: self.id.clone(),
            label: self.label.clone(),
            update: self.update.clone(),
            version,
            resource: self.resource.clone(),
            version_line: self.version_line,
            failure_contains: copy_texts(&self.failure_contains),
            preflight: self.preflight.clone(),
        }
    }
}

/// Where a job stands.
#[derive(Clone, Copy, Debug, PartialEq, Eq, Structural)]
pub enum Status {
    Queued,
    Running,
    Succeeded,
    Failed,
    Blocked,
    Skipped,
    Cancelled,
    TimedOut,
}

impl Status {
    /// Neither waiting nor running.
    pub open spec fn terminal(self) -> bool {
        !(self is Queued) && !(self is Running)
    }

    /// Whether the job will not change any more.
    pub fn is_terminal(self) -> (r: bool)
        ensures
            r == self.terminal(),
    {
        match self {
            Status::Queued | Status::Running => false,
            _ => true,
        }
    }

    /// Tools that are not detected stay out of lists unless they were asked
    /// for by id.
    pub open spec fn hidden(self, explicit: bool) -> bool {
        self is Skipped && !explicit
    }

    /// Whether a list leaves the job out.
    pub fn hidden_from_list(self, explicit: bool) -> (r: bool)
        ensures
            r == self.hidden(explicit),
    {
        match self {
            Status::Skipped => !explicit,
            _ => false,
        }
    }
}

/// One tool's part in a run.
#[derive(Debug)]
pub struct Job {
    pub spec: ToolSpec,
    pub status: Status,
    pub started: Option<TimeSpan>,
    pub elapsed: TimeSpan,
    pub before: String,
    pub after: String,
    pub message: String,
    pub log: PathBytes,
    pub exit_code: Option<i32>,
}

/// Two jobs hold the same values.
pub open spec fn same_job(a: Job, b: Job) -> bool {
    &&& a.spec@ == b.spec@
    &&& a.status == b.status
    &&& a.started == b.started
    &&& a.elapsed == b.elapsed
    &&& a.before == b.before
    &&& a.after == b.after
    &&& a.message == b.message
    &&& a.log@ == b.log@
    &&& a.exit_code == b.exit_code
}

impl Clone for Job {
    fn clone(&self) -> (r: Self)
        ensures
            same_job(r, *self),
    {
        Job {
            spec: self.spec.clone(),
            status: self.status,
            started: self.started,
            elapsed: self.elapsed,
            before: self.before.clone(),
            after: self.after.clone(),
            message: self.message.clone(),
            log: self.log.clone(),
            exit_code: self.exit_code,
        }
    }
}

/// A run: its jobs and whether it is over.
#[derive(Debug)]
pub struct RunState {
    pub jobs: Vec<Job>,
    pub started: TimeSpan,
    pub done: bool,
    pub run_dir: PathBytes,
}

impl Clone for RunState {
    fn clone(&self) -> (r: Self)
        ensures
            r.jobs@.len() == self.jobs@.len(),
            forall|i: int|
                0 <= i < r.jobs@.len() ==> same_job(#[trigger] r.jobs@[i], self.jobs@[i]),
            r.started == self.started,
            r.done == self.done,
            r.run_dir@ == self.run_dir@,
    {
        let mut jobs: Vec<Job> = Vec::new();
        for i in 0..self.jobs.len()
            invariant
                jobs@.len() == i,
                forall|k: int| 0 <= k < i ==> same_job(#[trigger] jobs@[k], self.jobs@[k]),
        {
            jobs.push(self.jobs[i].clone());
        }
        RunState { jobs, started: self.started, done: self.done, run_dir: self.run_dir.clone() }
    }
}

/// How a run is to be carried out.
#[derive(Debug)]
pub struct RunOptions {
    pub jobs: usize,
    pub timeout: TimeSpan,
    pub run_dir: PathBytes,
}

impl Clone for RunOptions {
    fn clone(&self) -> (r: Self)
        ensures
            r.jobs == self.jobs,
            r.timeout == self.timeout,
            r.run_dir@ == self.run_dir@,
    {
        RunOptions { jobs: self.jobs, timeout: self.timeout, run_dir: self.run_dir.clone() }
    }
}

/// A copy of a job holds what the job holds.
pub proof fn copied_jobs_hold_the_same(a: Job, b: Job)
    requires
        same_job(a, b),
    ensures
        a.spec.id@ == b.spec.id@,
        a.spec.label@ == b.spec.label@,
        a.spec.resource@ == b.spec.resource@,
        a.spec.update.program@ == b.spec.update.program@,
        a.spec.update.args@.len() == b.spec.update.args@.len(),
        a.spec.version is Some == b.spec.version is Some,
        a.spec.version matches Some(v) ==> v.program@ == b.spec.version->0.program@,
        a.spec.version_line == b.spec.version_line,
        a.spec.failure_contains@.len() == b.spec.failure_contains@.len(),
        a.spec.preflight is Ready == b.spec.preflight is Ready,
        a.spec.preflight is Blocked == b.spec.preflight is Blocked,
        a.status == b.status,
        a.started == b.started,
        a.elapsed == b.elapsed,
        a.before@ == b.before@,
        a.after@ == b.after@,
        a.message@ == b.message@,
        a.log@ == b.log@,
        a.exit_code == b.exit_code,
{
    let x = a.spec@;
    let y = b.spec@;
    assert(x.update.args.len() == a.spec.update.args@.len());
    assert(y.update.args.len() == b.spec.update.args@.len());
    assert(x.failure_contains.len() == a.spec.failure_contains@.len());
    assert(y.failure_contains.len() == b.spec.failure_contains@.len());
    assert(x.preflight == y.preflight);
}

/// Only a job that is waiting or running may still change, and only a tool
/// that was not detected and not asked for stays out of lists.
pub proof fn statuses_are_final_or_under_way(status: Status, explicit: bool)
    ensures
        status.terminal() <==> status is Succeeded || status is Failed || status is Blocked
            || status is Skipped || status is Cancelled || status is TimedOut,
        status.hidden(explicit) <==> status is Skipped && !explicit,
{
}

} // verus!
