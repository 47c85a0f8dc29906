//! Scheduling: which job runs next, and how jobs reach their final status.
//!
//! A running job leases its resource, so jobs with the same nonempty resource
//! never run at the same time.

use vstd::prelude::*;
use vstd::string::*;
use vstd::utf8::*;

use crate::bytes::{path_join, PathBytes};
use crate::clock::{span_between, spans_are_differences, TimeSpan};
use crate::model::{Job, Preflight, RunState, Status, ToolSpec};
use crate::terminal::{printable_text_is_unchanged, sanitize_terminal, sanitized};
use crate::text::{
    ascii_alphanumeric, chars_of, clip, clipped, is_ascii_alphanumeric, is_blank, join, joined, texts, joined_parts_stand_in_order,
};

verus! {

/// Longest message kept for a job, in characters.
pub const MAX_MESSAGE_CHARS: usize = 512;

// ---------------------------------------------------------------------------
// Initial jobs
// ---------------------------------------------------------------------------

/// Characters that may stand in a log file's name.
pub open spec fn file_safe(c: char) -> bool {
    ascii_alphanumeric(c) || c == '.' || c == '_' || c == '-'
}

/// The log file component of an id: unsafe characters become underscores.
pub open spec fn component(id: Seq<char>) -> Seq<char> {
    if id.len() == 0 {
        "job"@
    } else {
        id.map_values(
            |c: char|
                if file_safe(c) {
                    c
                } else {
                    '_'
                },
        )
    }
}

/// Log file component for an id: the catalogue guarantees path-safe ids, this
/// is only defense in depth against path traversal in foreign descriptors.
pub fn file_component(id: &str) -> (r: String)
    ensures
        r@ == component(id@),
{
    let v = chars_of(id);
    if v.len() == 0 {
        return "job".to_owned();
    }
    let mut out = String::new();
    for i in 0..v.len()
        invariant
            v@ == id@,
            v@.len() > 0,
            out@ == component(id@).take(i as int),
    {
        let c = v[i];
        let ghost whole = component(id@);
        assert(whole.take(i + 1) =~= whole.take(i as int).push(whole[i as int]));
        if is_ascii_alphanumeric(c) || c == '.' || c == '_' || c == '-' {
            out.push(c);
        } else {
            out.push('_');
        }
    }
    assert(component(id@).take(v@.len() as int) =~= component(id@));
    out
}

/// A path-safe id names its log file, unchanged.
pub proof fn safe_ids_name_their_log_file(id: Seq<char>)
    requires
        id.len() > 0,
        forall|i: int| 0 <= i < id.len() ==> file_safe(#[trigger] id[i]),
    ensures
        component(id) == id,
{
    assert(component(id) =~= id);
}

/// A log file name never leaves its directory: it is not empty and holds no
/// separator.
pub proof fn log_file_names_stay_in_their_directory(id: Seq<char>)
    ensures
        component(id).len() > 0,
        !component(id).contains('/'),
{
    reveal_strlit("job");
}

/// The log file of a tool.
pub open spec fn log_path(run_dir: Seq<u8>, id: Seq<char>) -> Seq<u8> {
    path_join(run_dir, encode_utf8(component(id) + ".log"@))
}

/// The file in `run_dir` that is named after the tool and ends in `suffix`.
pub fn tool_file(run_dir: &PathBytes, id: &str, suffix: &str) -> (r: PathBytes)
    ensures
        r@ == path_join(run_dir@, encode_utf8(component(id@) + suffix@)),
{
    let mut name = file_component(id);
    name.append(suffix);
    run_dir.join(name.as_str())
}

/// The status in which a job enters the run.
pub open spec fn entry_status(preflight: Preflight) -> Status {
    match preflight {
        Preflight::Ready => Status::Queued,
        Preflight::Skipped(_) => Status::Skipped,
        Preflight::Blocked(_) => Status::Blocked,
    }
}

/// The reason a tool does not run, empty when it does.
pub open spec fn reason_of(preflight: Preflight) -> Seq<char> {
    match preflight {
        Preflight::Ready => Seq::empty(),
        Preflight::Skipped(reason) => reason@,
        Preflight::Blocked(reason) => reason@,
    }
}

/// `job` is the fresh job of `spec`.
pub open spec fn entered(spec: ToolSpec, run_dir: Seq<u8>, job: Job) -> bool {
    &&& job.spec == spec
    &&& job.status == entry_status(spec.preflight)
    &&& job.message@ == clipped(sanitized(reason_of(spec.preflight)), MAX_MESSAGE_CHARS as int)
    &&& job.started is None
    &&& job.elapsed == (TimeSpan { secs: 0, nanos: 0 })
    &&& job.before@.len() == 0
    &&& job.after@.len() == 0
    &&& job.log@ == log_path(run_dir, spec.id@)
    &&& job.exit_code is None
}

fn initial_job(spec: ToolSpec, run_dir: &PathBytes) -> (r: Job)
    ensures
        entered(spec, run_dir@, r),
{
    let log = tool_file(run_dir, spec.id.as_str(), ".log");
    let mut status = Status::Queued;
    let mut message = String::new();
    match &spec.preflight {
        Preflight::Ready => {},
        Preflight::Skipped(reason) => {
            status = Status::Skipped;
            message = clip(sanitize_terminal(reason.as_str()), MAX_MESSAGE_CHARS);
        },
        Preflight::Blocked(reason) => {
            status = Status::Blocked;
            message = clip(sanitize_terminal(reason.as_str()), MAX_MESSAGE_CHARS);
        },
    }
    assert(message@ =~= clipped(
        sanitized(reason_of(spec.preflight)),
        MAX_MESSAGE_CHARS as int,
    ));
    Job {
        spec,
        status,
        started: None,
        elapsed: TimeSpan::zero(),
        before: String::new(),
        after: String::new(),
        message,
        log,
        exit_code: None,
    }
}

/// The jobs of a run: tools that are not ready enter with their terminal
/// skipped or blocked status and are never executed.
pub fn initial_jobs(specs: Vec<ToolSpec>, run_dir: &PathBytes) -> (r: Vec<Job>)
    ensures
        r@.len() == specs@.len(),
        forall|i: int| 0 <= i < r@.len() ==> entered(specs@[i], run_dir@, #[trigger] r@[i]),
{
    let mut out: Vec<Job> = Vec::new();
    let ghost all = specs@;
    for spec in it: specs
        invariant
            it.seq() == all,
            out@.len() == it.index(),
            forall|i: int| 0 <= i < out@.len() ==> entered(all[i], run_dir@, #[trigger] out@[i]),
    {
        assert(spec == all[it.index()]);
        out.push(initial_job(spec, run_dir));
    }
    out
}

/// The number of worker threads.
pub open spec fn workers(limit: int, jobs: int) -> int {
    if jobs == 0 {
        0
    } else if limit < 1 {
        1
    } else if limit < jobs {
        limit
    } else {
        jobs
    }
}

/// The number of worker threads: at least one, and no more than there are
/// jobs.
pub fn worker_count(limit: usize, jobs: usize) -> (r: usize)
    ensures
        r == (if jobs == 0 {
            0
        } else if limit < 1 {
            1
        } else if limit < jobs {
            limit as int
        } else {
            jobs as int
        }),
        r == workers(limit as int, jobs as int),
{
    let at_least_one: usize = if limit < 1 {
        1
    } else {
        limit
    };
    if at_least_one < jobs {
        at_least_one
    } else {
        jobs
    }
}

// ---------------------------------------------------------------------------
// Claiming
// ---------------------------------------------------------------------------

/// A running job holds the resource `resource`.
pub open spec fn leased(jobs: Seq<Job>, resource: Seq<char>) -> bool {
    exists|k: int|
        0 <= k < jobs.len() && (#[trigger] jobs[k]).status is Running && jobs[k].spec.resource@
            == resource
}

/// Job `i` is queued and its resource is free.
pub open spec fn claimable(jobs: Seq<Job>, i: int) -> bool {
    &&& 0 <= i < jobs.len()
    &&& jobs[i].status is Queued
    &&& jobs[i].spec.resource@.len() == 0 || !leased(jobs, jobs[i].spec.resource@)
}

/// `job` once it has been claimed at `now`.
pub open spec fn started_job(job: Job, now: TimeSpan) -> Job {
    Job { status: Status::Running, started: Some(now), ..job }
}

/// Job `i` has been claimed, and nothing else has changed.
pub open spec fn claimed(before: RunState, after: RunState, i: int, now: TimeSpan) -> bool {
    &&& claimable(before.jobs@, i)
    &&& after.jobs@ == before.jobs@.update(i, started_job(before.jobs@[i], now))
    &&& after.started == before.started
    &&& after.done == before.done
    &&& after.run_dir == before.run_dir
}

fn is_leased(jobs: &Vec<Job>, resource: &String) -> (r: bool)
    ensures
        r == leased(jobs@, resource@),
{
    for k in 0..jobs.len()
        invariant
            forall|m: int|
                0 <= m < k ==> !((#[trigger] jobs@[m]).status is Running
                    && jobs@[m].spec.resource@ == resource@),
    {
        if jobs[k].status == Status::Running && jobs[k].spec.resource == *resource {
            return true;
        }
    }
    false
}

/// Claims the next runnable job: the first queued job whose nonempty resource
/// is not leased by a running job. Once the run is cancelled nothing is
/// claimed any more.
pub fn claim(state: &mut RunState, cancelled: bool, now: TimeSpan) -> (r: Option<usize>)
    ensures
        cancelled ==> r is None,
        r is None ==> *final(state) == *old(state),
        !cancelled && r is None ==> forall|i: int| !claimable(old(state).jobs@, i),
        r matches Some(i) ==> {
            &&& claimed(*old(state), *final(state), i as int, now)
            &&& forall|j: int| 0 <= j < i ==> !claimable(old(state).jobs@, j)
        },
{
    if cancelled {
        return None;
    }
    let n: usize = state.jobs.len();
    for index in 0..n
        invariant
            !cancelled,
            n == state.jobs@.len(),
            *state == *old(state),
            forall|j: int| 0 <= j < index ==> !claimable(state.jobs@, j),
    {
        if state.jobs[index].status == Status::Queued {
            let free = is_blank(state.jobs[index].spec.resource.as_str()) || !is_leased(
                &state.jobs,
                &state.jobs[index].spec.resource,
            );
            if free {
                state.jobs[index].status = Status::Running;
                state.jobs[index].started = Some(now);
                assert(state.jobs@ =~= old(state).jobs@.update(
                    index as int,
                    started_job(old(state).jobs@[index as int], now),
                ));
                return Some(index);
            }
        }
    }
    None
}

// ---------------------------------------------------------------------------
// Draining and finishing
// ---------------------------------------------------------------------------

/// The message of a queued job that is cancelled, or of a lost job: its own,
/// or `text` when it has none.
pub open spec fn own_message_or(job: Job, text: Seq<char>) -> Seq<char> {
    if job.message@.len() == 0 {
        text
    } else {
        job.message@
    }
}

/// `after` is `before`, except that a queued job is cancelled.
pub open spec fn cancelled_if_queued(before: Job, after: Job) -> bool {
    if before.status is Queued {
        &&& after == (Job { status: Status::Cancelled, message: after.message, ..before })
        &&& after.message@ == own_message_or(before, "cancelled before start"@)
    } else {
        after == before
    }
}

/// `after` is `before`, brought to a terminal status at `now`.
pub open spec fn swept(before: Job, after: Job, now: TimeSpan) -> bool {
    if before.status is Running {
        &&& after == (Job {
            status: Status::Failed,
            message: after.message,
            elapsed: lease_time(before, now),
            ..before
        })
        &&& after.message@ == own_message_or(before, "internal error: worker lost"@)
    } else {
        cancelled_if_queued(before, after)
    }
}

/// How long a job has been running at `now`.
pub open spec fn lease_time(job: Job, now: TimeSpan) -> TimeSpan {
    match job.started {
        Some(s) => span_between(s, now),
        None => TimeSpan { secs: 0, nanos: 0 },
    }
}

pub open spec fn any_running(jobs: Seq<Job>) -> bool {
    exists|k: int| 0 <= k < jobs.len() && (#[trigger] jobs[k]).status is Running
}

pub open spec fn all_terminal(jobs: Seq<Job>) -> bool {
    forall|k: int| 0 <= k < jobs.len() ==> (#[trigger] jobs[k]).status.terminal()
}

fn some_running(jobs: &Vec<Job>) -> (r: bool)
    ensures
        r == any_running(jobs@),
{
    for k in 0..jobs.len()
        invariant
            forall|m: int| 0 <= m < k ==> !((#[trigger] jobs@[m]).status is Running),
    {
        if jobs[k].status == Status::Running {
            return true;
        }
    }
    false
}

/// Whether every job has reached a terminal status.
pub fn is_settled(jobs: &Vec<Job>) -> (r: bool)
    ensures
        r == all_terminal(jobs@),
{
    for k in 0..jobs.len()
        invariant
            forall|m: int| 0 <= m < k ==> (#[trigger] jobs@[m]).status.terminal(),
    {
        if !jobs[k].status.is_terminal() {
            return false;
        }
    }
    true
}

fn cancel_queued(jobs: &mut Vec<Job>, k: usize)
    requires
        k < old(jobs)@.len(),
    ensures
        final(jobs)@.len() == old(jobs)@.len(),
        cancelled_if_queued(old(jobs)@[k as int], final(jobs)@[k as int]),
        forall|m: int| 0 <= m < old(jobs)@.len() && m != k ==> final(jobs)@[m] == old(jobs)@[m],
{
    if jobs[k].status == Status::Queued {
        jobs[k].status = Status::Cancelled;
        if is_blank(jobs[k].message.as_str()) {
            jobs[k].message = "cancelled before start".to_owned();
        }
    }
}

/// With cancellation set and no job running, cancels every queued job.
/// Returns true once every job has reached a terminal status.
pub fn drain_or_wait(state: &mut RunState, cancelled: bool) -> (r: bool)
    ensures
        drained(*old(state), *final(state), cancelled),
        r == all_terminal(final(state).jobs@),
{
    if cancelled && !some_running(&state.jobs) {
        let n: usize = state.jobs.len();
        for k in 0..n
            invariant
                n == old(state).jobs@.len(),
                state.jobs@.len() == n,
                state.started == old(state).started,
                state.done == old(state).done,
                state.run_dir == old(state).run_dir,
                forall|m: int|
                    0 <= m < k ==> cancelled_if_queued(
                        old(state).jobs@[m],
                        #[trigger] state.jobs@[m],
                    ),
                forall|m: int|
                    k <= m < n ==> #[trigger] state.jobs@[m] == old(state).jobs@[m],
        {
            cancel_queued(&mut state.jobs, k);
        }
    }
    is_settled(&state.jobs)
}

/// What a worker does next.
#[derive(Clone, Copy, Debug, PartialEq, Eq, Structural)]
pub enum WorkerStep {
    /// This job is claimed and is to be run.
    Run(usize),
    /// Nothing can be claimed now.
    Wait,
    /// Every job has reached a terminal status.
    Stop,
}

/// `after` is `before`, its queued jobs cancelled when the run is cancelled
/// and no job is running.
pub open spec fn drained(before: RunState, after: RunState, cancelled: bool) -> bool {
    &&& after.jobs@.len() == before.jobs@.len()
    &&& cancelled && !any_running(before.jobs@) ==> forall|k: int|
        0 <= k < before.jobs@.len() ==> cancelled_if_queued(before.jobs@[k], #[trigger] after.jobs@[k])
    &&& !(cancelled && !any_running(before.jobs@)) ==> after == before
    &&& after.started == before.started
    &&& after.done == before.done
    &&& after.run_dir == before.run_dir
}

/// Decides what a worker does next: run the first job it can claim, else
/// wait, or stop once every job has reached a terminal status.
pub fn worker_loop(state: &mut RunState, cancelled: bool, now: TimeSpan) -> (r: WorkerStep)
    ensures
        match r {
            WorkerStep::Run(i) => {
                &&& !cancelled
                &&& claimed(*old(state), *final(state), i as int, now)
                &&& forall|j: int| 0 <= j < i ==> !claimable(old(state).jobs@, j)
            },
            _ => {
                &&& cancelled || forall|i: int| !claimable(old(state).jobs@, i)
                &&& drained(*old(state), *final(state), cancelled)
                &&& r is Stop <==> all_terminal(final(state).jobs@)
            },
        },
{
    if let Some(index) = claim(state, cancelled, now) {
        return WorkerStep::Run(index);
    }
    if drain_or_wait(state, cancelled) {
        WorkerStep::Stop
    } else {
        WorkerStep::Wait
    }
}

/// Outcome of one job, applied to the run when the job ends.
#[derive(Debug)]
pub struct Outcome {
    pub status: Status,
    pub message: String,
    pub before: String,
    pub after: String,
    pub exit_code: Option<i32>,
}

/// `job` with `outcome` recorded at `now`.
pub open spec fn settled_job(job: Job, outcome: Outcome, now: TimeSpan) -> Job {
    Job {
        status: outcome.status,
        before: outcome.before,
        after: outcome.after,
        message: outcome.message,
        exit_code: outcome.exit_code,
        elapsed: lease_time(job, now),
        ..job
    }
}

/// Records the outcome of job `index`; an index past the jobs is ignored.
pub fn finalize(state: &mut RunState, index: usize, result: Outcome, now: TimeSpan)
    requires
        now.wf(),
    ensures
        final(state).jobs@ == (if index < old(state).jobs@.len() {
            old(state).jobs@.update(
                index as int,
                settled_job(old(state).jobs@[index as int], result, now),
            )
        } else {
            old(state).jobs@
        }),
        final(state).started == old(state).started,
        final(state).done == old(state).done,
        final(state).run_dir == old(state).run_dir,
{
    if index < state.jobs.len() {
        let elapsed = match &state.jobs[index].started {
            Some(s) => now.since(s),
            None => TimeSpan::zero(),
        };
        state.jobs[index].status = result.status;
        state.jobs[index].before = result.before;
        state.jobs[index].after = result.after;
        state.jobs[index].message = result.message;
        state.jobs[index].exit_code = result.exit_code;
        state.jobs[index].elapsed = elapsed;
        assert(state.jobs@ =~= old(state).jobs@.update(
            index as int,
            settled_job(old(state).jobs@[index as int], result, now),
        ));
    }
}

fn sweep(jobs: &mut Vec<Job>, k: usize, now: TimeSpan)
    requires
        k < old(jobs)@.len(),
        now.wf(),
    ensures
        final(jobs)@.len() == old(jobs)@.len(),
        swept(old(jobs)@[k as int], final(jobs)@[k as int], now),
        forall|m: int| 0 <= m < old(jobs)@.len() && m != k ==> final(jobs)@[m] == old(jobs)@[m],
{
    if jobs[k].status == Status::Running {
        let elapsed = match &jobs[k].started {
            Some(s) => now.since(s),
            None => TimeSpan::zero(),
        };
        jobs[k].status = Status::Failed;
        if is_blank(jobs[k].message.as_str()) {
            jobs[k].message = "internal error: worker lost".to_owned();
        }
        jobs[k].elapsed = elapsed;
    } else {
        cancel_queued(jobs, k);
    }
}

/// Final safety sweep: queued jobs are cancelled, jobs whose worker was lost
/// fail, and the run is over.
pub fn finish(state: &mut RunState, now: TimeSpan)
    requires
        now.wf(),
    ensures
        final(state).jobs@.len() == old(state).jobs@.len(),
        forall|k: int|
            0 <= k < old(state).jobs@.len() ==> swept(
                old(state).jobs@[k],
                #[trigger] final(state).jobs@[k],
                now,
            ),
        final(state).done,
        final(state).started == old(state).started,
        final(state).run_dir == old(state).run_dir,
{
    let n: usize = state.jobs.len();
    for k in 0..n
        invariant
            now.wf(),
            n == old(state).jobs@.len(),
            state.jobs@.len() == n,
            state.started == old(state).started,
            state.run_dir == old(state).run_dir,
            forall|m: int|
                0 <= m < k ==> swept(old(state).jobs@[m], #[trigger] state.jobs@[m], now),
            forall|m: int| k <= m < n ==> #[trigger] state.jobs@[m] == old(state).jobs@[m],
    {
        sweep(&mut state.jobs, k, now);
    }
    state.done = true;
}

// ---------------------------------------------------------------------------
// Outcomes
// ---------------------------------------------------------------------------

/// The primary reason, where there is one, followed by the notes.
pub open spec fn message_parts(primary: Seq<char>, notes: Seq<Seq<char>>) -> Seq<Seq<char>> {
    if primary.len() == 0 {
        notes
    } else {
        seq![primary] + notes
    }
}

/// The text of an outcome before it is cleaned for the terminal.
pub open spec fn raw_message(primary: Seq<char>, notes: Seq<Seq<char>>) -> Seq<char> {
    joined(message_parts(primary, notes), "; "@)
}

/// The message of an outcome.
pub open spec fn outcome_message(primary: Seq<char>, notes: Seq<Seq<char>>) -> Seq<char> {
    clipped(sanitized(raw_message(primary, notes)), MAX_MESSAGE_CHARS as int)
}

fn raw_message_of(primary: &str, notes: &Vec<String>) -> (r: String)
    ensures
        r@ == raw_message(primary@, texts(notes@)),
{
    let mut parts: Vec<String> = Vec::new();
    if !is_blank(primary) {
        parts.push(primary.to_owned());
    }
    let ghost head = texts(parts@);
    assert(head + Seq::<Seq<char>>::empty() =~= head);
    for i in 0..notes.len()
        invariant
            texts(parts@) == head + texts(notes@).take(i as int),
    {
        let ghost before = texts(parts@);
        parts.push(notes[i].clone());
        assert(texts(parts@) =~= before.push(notes@[i as int]@));
        assert(texts(notes@).take(i + 1) =~= texts(notes@).take(i as int).push(
            notes@[i as int]@,
        ));
        assert(texts(parts@) =~= head + texts(notes@).take(i + 1));
    }
    assert(texts(notes@).take(notes@.len() as int) =~= texts(notes@));
    assert(texts(parts@) =~= message_parts(primary@, texts(notes@)));
    join(&parts, "; ")
}

/// The outcome of a job: the primary reason and the notes become one message
/// that is safe to show on a terminal.
pub fn outcome(
    status: Status,
    primary: &str,
    notes: &Vec<String>,
    before: &str,
    after: &str,
    exit_code: Option<i32>,
) -> (r: Outcome)
    ensures
        r.status == status,
        r.message@ == outcome_message(primary@, texts(notes@)),
        r.before@ == before@,
        r.after@ == after@,
        r.exit_code == exit_code,
{
    let raw = raw_message_of(primary, notes);
    Outcome {
        status,
        message: clip(sanitize_terminal(raw.as_str()), MAX_MESSAGE_CHARS),
        before: before.to_owned(),
        after: after.to_owned(),
        exit_code,
    }
}

/// What a worker records for a job: its outcome, or a failure when the job
/// itself was lost.
pub fn outcome_or_lost(result: Option<Outcome>) -> (r: Outcome)
    ensures
        result matches Some(o) ==> r == o,
        result is None ==> {
            &&& r.status is Failed
            &&& r.message@ == "internal error: worker panic"@
            &&& r.before@.len() == 0
            &&& r.after@.len() == 0
            &&& r.exit_code is None
        },
{
    match result {
        Some(o) => o,
        None => Outcome {
            status: Status::Failed,
            message: "internal error: worker panic".to_owned(),
            before: String::new(),
            after: String::new(),
            exit_code: None,
        },
    }
}

/// What joining the thread of a run brought.
#[derive(Debug)]
pub enum JoinReply {
    Returned(Result<(), String>),
    Panicked,
}

/// What waiting for a run brings: what its thread returned, and nothing once
/// that thread has been waited for.
pub fn wait_result(join: Option<JoinReply>) -> (r: Result<(), String>)
    ensures
        match join {
            Some(JoinReply::Returned(result)) => r == result,
            Some(JoinReply::Panicked) => r matches Err(e) && e@ == "engine scheduler panicked"@,
            None => r is Ok,
        },
{
    match join {
        Some(JoinReply::Returned(result)) => result,
        Some(JoinReply::Panicked) => Err("engine scheduler panicked".to_owned()),
        None => Ok(()),
    }
}

/// The first failure of a run: a worker thread that could not be started, then
/// one that was lost, then the error of the report.
pub fn run_failure(
    spawn_error: Option<String>,
    worker_lost: bool,
    report_error: Option<String>,
) -> (r: Option<String>)
    ensures
        spawn_error is Some ==> r == spawn_error,
        spawn_error is None && worker_lost ==> (r matches Some(text) && text@
            == "engine worker panicked"@),
        spawn_error is None && !worker_lost ==> r == report_error,
{
    if spawn_error.is_some() {
        spawn_error
    } else if worker_lost {
        Some("engine worker panicked".to_owned())
    } else {
        report_error
    }
}

// ---------------------------------------------------------------------------
// Laws
// ---------------------------------------------------------------------------

/// No two running jobs hold the same nonempty resource.
pub open spec fn leases_are_exclusive(jobs: Seq<Job>) -> bool {
    forall|i: int, j: int|
        0 <= i < j < jobs.len() && (#[trigger] jobs[i]).status is Running && (
        #[trigger] jobs[j]).status is Running && jobs[i].spec.resource@.len() > 0
            ==> jobs[i].spec.resource@ != jobs[j].spec.resource@
}

/// A run starts with every lease free: no job is running, and exactly the
/// ready tools are queued.
pub proof fn a_run_starts_with_free_leases(specs: Seq<ToolSpec>, run_dir: Seq<u8>, jobs: Seq<Job>)
    requires
        jobs.len() == specs.len(),
        forall|i: int| 0 <= i < jobs.len() ==> entered(specs[i], run_dir, #[trigger] jobs[i]),
    ensures
        leases_are_exclusive(jobs),
        !any_running(jobs),
        forall|i: int|
            0 <= i < jobs.len() ==> ((#[trigger] jobs[i]).status is Queued
                <==> specs[i].preflight is Ready),
        forall|i: int|
            0 <= i < jobs.len() ==> ((#[trigger] jobs[i]).status.terminal()
                <==> !(specs[i].preflight is Ready)),
{
}

/// Claiming a job keeps the leases exclusive: jobs that share a resource run
/// one after the other.
pub proof fn claiming_keeps_leases_exclusive(
    before: RunState,
    after: RunState,
    i: int,
    now: TimeSpan,
)
    requires
        leases_are_exclusive(before.jobs@),
        claimed(before, after, i, now),
    ensures
        leases_are_exclusive(after.jobs@),
{
    assert forall|a: int, b: int|
        0 <= a < b < after.jobs@.len() && (#[trigger] after.jobs@[a]).status is Running && (
        #[trigger] after.jobs@[b]).status is Running && after.jobs@[a].spec.resource@.len()
            > 0 implies after.jobs@[a].spec.resource@ != after.jobs@[b].spec.resource@ by {
        let old_jobs = before.jobs@;
        if a == i {
            assert(old_jobs[b].status is Running);
        } else if b == i {
            assert(old_jobs[a].status is Running);
        } else {
            assert(old_jobs[a].status is Running && old_jobs[b].status is Running);
        }
    }
}

/// Recording an outcome never takes a lease, so it keeps the leases
/// exclusive.
pub proof fn finalizing_keeps_leases_exclusive(
    jobs: Seq<Job>,
    i: int,
    outcome: Outcome,
    now: TimeSpan,
)
    requires
        leases_are_exclusive(jobs),
        0 <= i < jobs.len(),
        outcome.status.terminal(),
    ensures
        leases_are_exclusive(jobs.update(i, settled_job(jobs[i], outcome, now))),
{
    let next = jobs.update(i, settled_job(jobs[i], outcome, now));
    assert forall|a: int, b: int|
        0 <= a < b < next.len() && (#[trigger] next[a]).status is Running && (
        #[trigger] next[b]).status is Running && next[a].spec.resource@.len() > 0 implies next[a].spec.resource@
        != next[b].spec.resource@ by {
        assert(jobs[a].status is Running && jobs[b].status is Running);
    }
}

/// A job whose resource is free does not wait for jobs that hold other
/// resources: queued jobs wait only while a running job holds their own
/// resource, so a run with no running job can always go on.
pub proof fn a_queued_job_waits_only_for_its_own_resource(jobs: Seq<Job>, i: int)
    requires
        0 <= i < jobs.len(),
        jobs[i].status is Queued,
    ensures
        !claimable(jobs, i) ==> exists|k: int|
            0 <= k < jobs.len() && k != i && (#[trigger] jobs[k]).status is Running
                && jobs[k].spec.resource@ == jobs[i].spec.resource@,
        !any_running(jobs) ==> claimable(jobs, i),
{
    if leased(jobs, jobs[i].spec.resource@) {
        let k = choose|k: int|
            0 <= k < jobs.len() && (#[trigger] jobs[k]).status is Running
                && jobs[k].spec.resource@ == jobs[i].spec.resource@;
        assert(jobs[k].status is Running && k != i);
    }
}

/// A job that has reached a terminal status is never claimed, cancelled or
/// swept: what it recorded stays. Blocked and skipped tools enter in such a
/// status, so they are never executed.
pub proof fn settled_jobs_are_left_alone(before: RunState, after: RunState, i: int, now: TimeSpan)
    requires
        0 <= i < before.jobs@.len(),
        before.jobs@[i].status.terminal(),
    ensures
        forall|j: int|
            claimed(before, after, j, now) ==> i != j && after.jobs@[i] == before.jobs@[i],
        forall|next: Job|
            #[trigger] cancelled_if_queued(before.jobs@[i], next) ==> next == before.jobs@[i],
        forall|next: Job|
            #[trigger] swept(before.jobs@[i], next, now) ==> next == before.jobs@[i],
{
}

/// Once a run has finished every job has a terminal status.
pub proof fn a_finished_run_is_settled(before: Seq<Job>, after: Seq<Job>, now: TimeSpan)
    requires
        before.len() == after.len(),
        forall|k: int| 0 <= k < before.len() ==> swept(before[k], #[trigger] after[k], now),
    ensures
        all_terminal(after),
        leases_are_exclusive(after),
{
}

/// A worker never waits in vain: while one waits, some job is running, and
/// its end frees a lease or settles the run.
pub proof fn waiting_workers_wait_for_a_running_job(
    before: RunState,
    after: RunState,
    cancelled: bool,
)
    requires
        cancelled || forall|i: int| !claimable(before.jobs@, i),
        drained(before, after, cancelled),
        !all_terminal(after.jobs@),
    ensures
        any_running(after.jobs@),
        after == before,
{
    if !any_running(before.jobs@) {
        if cancelled {
            a_cancelled_run_settles(before.jobs@, after.jobs@);
        } else {
            let k = choose|k: int|
                0 <= k < after.jobs@.len() && !(#[trigger] after.jobs@[k]).status.terminal();
            assert(before.jobs@[k].status is Queued || before.jobs@[k].status is Running);
            assert(!(before.jobs@[k].status is Running));
            a_queued_job_waits_only_for_its_own_resource(before.jobs@, k);
        }
    }
}

/// After a cancellation nothing new starts, and as soon as no job is running
/// the whole run is settled.
pub proof fn a_cancelled_run_settles(before: Seq<Job>, after: Seq<Job>)
    requires
        before.len() == after.len(),
        !any_running(before),
        forall|k: int| 0 <= k < before.len() ==> cancelled_if_queued(before[k], #[trigger] after[k]),
    ensures
        all_terminal(after),
        leases_are_exclusive(after),
        forall|k: int|
            0 <= k < before.len() && (#[trigger] before[k]).status is Queued
                ==> after[k].status is Cancelled,
{
    assert forall|k: int| 0 <= k < after.len() implies (#[trigger] after[k]).status.terminal() by {
        assert(!(before[k].status is Running));
    }
    assert forall|k: int| 0 <= k < before.len() && (#[trigger] before[k]).status is Queued implies 
    after[k].status is Cancelled by {
        assert(cancelled_if_queued(before[k], after[k]));
    }
}

/// A step of a run.
pub ghost enum RunEvent {
    /// A worker claimed this job.
    Claimed(int),
    /// A worker recorded the outcome of this job, which it had claimed.
    Finalized(int, Outcome),
    /// A worker found nothing to claim; the run is cancelled or not.
    Drained(bool),
    /// The workers are gone, and the run is closed.
    Finished,
}

/// `event` leads from `before` to `after` at `now`.
pub open spec fn leads_to(
    before: RunState,
    event: RunEvent,
    now: TimeSpan,
    after: RunState,
) -> bool {
    match event {
        RunEvent::Claimed(i) => claimed(before, after, i, now),
        RunEvent::Finalized(i, outcome) => {
            &&& 0 <= i < before.jobs@.len()
            &&& before.jobs@[i].status is Running
            &&& outcome.status.terminal()
            &&& after.jobs@ == before.jobs@.update(
                i,
                settled_job(before.jobs@[i], outcome, now),
            )
            &&& after.started == before.started
            &&& after.done == before.done
            &&& after.run_dir == before.run_dir
        },
        RunEvent::Drained(cancelled) => drained(before, after, cancelled),
        RunEvent::Finished => {
            &&& after.jobs@.len() == before.jobs@.len()
            &&& forall|k: int|
                0 <= k < before.jobs@.len() ==> swept(
                    before.jobs@[k],
                    #[trigger] after.jobs@[k],
                    now,
                )
            &&& after.started == before.started
            &&& after.done
            &&& after.run_dir == before.run_dir
        },
    }
}

/// Whatever happens in a run: no two running jobs ever share a resource, no
/// job is added, lost or exchanged, and what a job recorded when it ended
/// stays.
pub proof fn every_step_keeps_the_run_sound(
    before: RunState,
    event: RunEvent,
    now: TimeSpan,
    after: RunState,
)
    requires
        leases_are_exclusive(before.jobs@),
        leads_to(before, event, now, after),
    ensures
        leases_are_exclusive(after.jobs@),
        after.jobs@.len() == before.jobs@.len(),
        forall|k: int|
            0 <= k < before.jobs@.len() ==> (#[trigger] after.jobs@[k]).spec
                == before.jobs@[k].spec,
        forall|k: int|
            0 <= k < before.jobs@.len() && before.jobs@[k].status.terminal()
                ==> #[trigger] after.jobs@[k] == before.jobs@[k],
{
    match event {
        RunEvent::Claimed(i) => {
            claiming_keeps_leases_exclusive(before, after, i, now);
        },
        RunEvent::Finalized(i, outcome) => {
            finalizing_keeps_leases_exclusive(before.jobs@, i, outcome, now);
        },
        RunEvent::Drained(cancelled) => {
            if cancelled && !any_running(before.jobs@) {
                a_cancelled_run_settles(before.jobs@, after.jobs@);
            }
        },
        RunEvent::Finished => {
            a_finished_run_is_settled(before.jobs@, after.jobs@, now);
        },
    }
}

/// A run from its start on: its states, and the steps between them.
pub ghost struct RunTrace {
    pub states: Seq<RunState>,
    pub events: Seq<(RunEvent, TimeSpan)>,
}

/// `t` is a run of `specs` in `run_dir`.
pub open spec fn is_run(specs: Seq<ToolSpec>, run_dir: Seq<u8>, t: RunTrace) -> bool {
    &&& t.states.len() == t.events.len() + 1
    &&& t.states[0].jobs@.len() == specs.len()
    &&& forall|i: int|
        0 <= i < specs.len() ==> entered(specs[i], run_dir, #[trigger] t.states[0].jobs@[i])
    &&& forall|k: int|
        0 <= k < t.events.len() ==> leads_to(
            t.states[k],
            (#[trigger] t.events[k]).0,
            t.events[k].1,
            t.states[k + 1],
        )
}

/// In every state of a run no two running jobs share a resource, the jobs are
/// those of the tools, and a tool that is skipped or blocked is as it entered:
/// never started, with no versions and no exit code.
pub proof fn runs_stay_sound(specs: Seq<ToolSpec>, run_dir: Seq<u8>, t: RunTrace, k: int)
    requires
        is_run(specs, run_dir, t),
        0 <= k < t.states.len(),
    ensures
        leases_are_exclusive(t.states[k].jobs@),
        t.states[k].jobs@.len() == specs.len(),
        forall|i: int|
            0 <= i < specs.len() ==> (#[trigger] t.states[k].jobs@[i]).spec == specs[i],
        forall|i: int|
            0 <= i < specs.len() && !(specs[i].preflight is Ready) ==> entered(
                specs[i],
                run_dir,
                #[trigger] t.states[k].jobs@[i],
            ),
    decreases k,
{
    if k == 0 {
        a_run_starts_with_free_leases(specs, run_dir, t.states[0].jobs@);
    } else {
        runs_stay_sound(specs, run_dir, t, k - 1);
        let (event, now) = t.events[k - 1];
        assert(leads_to(t.states[k - 1], event, now, t.states[k]));
        every_step_keeps_the_run_sound(t.states[k - 1], event, now, t.states[k]);
        assert forall|i: int| 0 <= i < specs.len() implies (#[trigger] t.states[k].jobs@[i]).spec
            == specs[i] by {
            assert(t.states[k - 1].jobs@[i].spec == specs[i]);
        }
        assert forall|i: int| 0 <= i < specs.len() && !(specs[i].preflight is Ready) implies entered(
            specs[i],
            run_dir,
            #[trigger] t.states[k].jobs@[i],
        ) by {
            assert(entered(specs[i], run_dir, t.states[k - 1].jobs@[i]));
            assert(t.states[k - 1].jobs@[i].status.terminal());
        }
    }
}

/// A run that has been closed is over: it is done, no job is queued or
/// running, and skipped and blocked tools are as they entered.
pub proof fn closed_runs_are_over(specs: Seq<ToolSpec>, run_dir: Seq<u8>, t: RunTrace)
    requires
        is_run(specs, run_dir, t),
        t.events.len() > 0,
        t.events.last().0 is Finished,
    ensures
        t.states.last().done,
        all_terminal(t.states.last().jobs@),
        forall|i: int|
            0 <= i < specs.len() && !(specs[i].preflight is Ready) ==> entered(
                specs[i],
                run_dir,
                #[trigger] t.states.last().jobs@[i],
            ),
{
    let n = t.events.len() as int;
    runs_stay_sound(specs, run_dir, t, n);
    let before = t.states[n - 1];
    let now = t.events[n - 1].1;
    assert(leads_to(before, t.events[n - 1].0, now, t.states[n]));
    a_finished_run_is_settled(before.jobs@, t.states[n].jobs@, now);
}

/// Once a run is over nothing changes any more, whatever is tried: waiting
/// for it again finds it as it was.
pub proof fn nothing_changes_after_the_end(
    before: RunState,
    event: RunEvent,
    now: TimeSpan,
    after: RunState,
)
    requires
        before.done,
        all_terminal(before.jobs@),
        leads_to(before, event, now, after),
    ensures
        after.jobs@ == before.jobs@,
        after.done,
        after.started == before.started,
        after.run_dir == before.run_dir,
{
    match event {
        RunEvent::Claimed(i) => {
            assert(before.jobs@[i].status.terminal());
        },
        RunEvent::Finalized(i, _) => {
            assert(before.jobs@[i].status.terminal());
        },
        RunEvent::Drained(_) => {
            assert forall|k: int| 0 <= k < before.jobs@.len() implies after.jobs@[k]
                == before.jobs@[k] by {
                assert(before.jobs@[k].status.terminal());
            }
            assert(after.jobs@ =~= before.jobs@);
        },
        RunEvent::Finished => {
            assert forall|k: int| 0 <= k < before.jobs@.len() implies after.jobs@[k]
                == before.jobs@[k] by {
                assert(before.jobs@[k].status.terminal());
                assert(swept(before.jobs@[k], after.jobs@[k], now));
            }
            assert(after.jobs@ =~= before.jobs@);
        },
    }
}

/// There are never more workers than asked for, nor more than jobs, and with
/// any job there is one.
pub proof fn workers_are_bounded(limit: int, jobs: int)
    requires
        limit >= 0,
        jobs >= 0,
    ensures
        limit >= 1 ==> workers(limit, jobs) <= limit,
        workers(limit, jobs) <= jobs,
        jobs > 0 ==> workers(limit, jobs) >= 1,
        limit >= 1 ==> workers(limit, jobs) == limit || workers(limit, jobs) == jobs,
{
}

/// A job can be claimed exactly when it is queued and no running job has its
/// resource; the empty resource is nobody's.
pub proof fn jobs_wait_exactly_for_their_resource(jobs: Seq<Job>, i: int)
    requires
        0 <= i < jobs.len(),
    ensures
        claimable(jobs, i) <==> jobs[i].status is Queued && (jobs[i].spec.resource@.len() == 0
            || forall|k: int|
            0 <= k < jobs.len() && (#[trigger] jobs[k]).status is Running ==> jobs[k].spec.resource@
                != jobs[i].spec.resource@),
{
    if jobs[i].status is Queued && jobs[i].spec.resource@.len() > 0 {
        if leased(jobs, jobs[i].spec.resource@) {
            let k = choose|k: int|
                0 <= k < jobs.len() && (#[trigger] jobs[k]).status is Running
                    && jobs[k].spec.resource@ == jobs[i].spec.resource@;
            assert(jobs[k].status is Running);
        }
    }
}

/// A claimed job runs from now on; nothing else about it changes, and no other
/// job does.
pub proof fn claiming_starts_one_job(before: RunState, after: RunState, i: int, now: TimeSpan)
    requires
        claimed(before, after, i, now),
    ensures
        before.jobs@[i].status is Queued,
        after.jobs@.len() == before.jobs@.len(),
        ({
            let x = before.jobs@[i];
            let y = after.jobs@[i];
            &&& y.status is Running
            &&& y.started == Some(now)
            &&& y.spec == x.spec
            &&& y.log == x.log
            &&& y.message == x.message
            &&& y.before == x.before
            &&& y.after == x.after
            &&& y.exit_code == x.exit_code
        }),
        forall|k: int|
            0 <= k < before.jobs@.len() && k != i ==> #[trigger] after.jobs@[k] == before.jobs@[k],
{
}

/// A job that ends holds what its outcome says, each in its own place, and the
/// time that passed since it was started.
pub proof fn ended_jobs_hold_their_outcome(job: Job, outcome: Outcome, now: TimeSpan)
    requires
        now.nanos < 1_000_000_000,
    ensures
        ({
            let r = settled_job(job, outcome, now);
            let ran = |s: TimeSpan|
                (now.secs - s.secs) * 1_000_000_000 + (now.nanos - s.nanos);
            &&& r.status == outcome.status
            &&& r.before == outcome.before
            &&& r.after == outcome.after
            &&& r.message == outcome.message
            &&& r.exit_code == outcome.exit_code
            &&& r.spec == job.spec
            &&& r.started == job.started
            &&& r.log == job.log
            &&& job.started matches Some(s) ==> ran(s) >= 0 ==> r.elapsed.secs * 1_000_000_000
                + r.elapsed.nanos == ran(s) && r.elapsed.nanos < 1_000_000_000
            &&& job.started is None ==> r.elapsed.secs == 0 && r.elapsed.nanos == 0
        }),
{
    if let Some(s) = job.started {
        let d = now.total() - s.total();
        if d > 0 {
            assert(d / 1_000_000_000 * 1_000_000_000 + d % 1_000_000_000 == d);
            assert(d / 1_000_000_000 <= now.secs);
        }
    }
}

/// A queued job that is given up is cancelled, a running one whose worker is
/// gone has failed; both keep a message they have, else they say why. Every
/// other job stays as it is.
pub proof fn given_up_jobs_say_why(before: Job, after: Job, now: TimeSpan)
    requires
        swept(before, after, now),
    ensures
        before.status is Queued ==> after.status is Cancelled && after.message@ == (
        if before.message@.len() == 0 {
            "cancelled before start"@
        } else {
            before.message@
        }) && after.elapsed == before.elapsed && after.started == before.started,
        before.status is Running ==> after.status is Failed && after.message@ == (
        if before.message@.len() == 0 {
            "internal error: worker lost"@
        } else {
            before.message@
        }),
        !(before.status is Queued) && !(before.status is Running) ==> after == before,
        after.spec == before.spec,
        after.exit_code == before.exit_code,
        after.before == before.before,
        after.after == before.after,
{
}

/// A cancelled run gives up its queued jobs as soon as none is running, and
/// not before.
pub proof fn queued_jobs_are_given_up_together(
    before: RunState,
    after: RunState,
    cancelled: bool,
    k: int,
)
    requires
        drained(before, after, cancelled),
        0 <= k < before.jobs@.len(),
        before.jobs@[k].status is Queued,
    ensures
        cancelled && (forall|j: int|
            0 <= j < before.jobs@.len() ==> !((#[trigger] before.jobs@[j]).status is Running))
            ==> after.jobs@[k].status is Cancelled,
        !cancelled || (exists|j: int|
            0 <= j < before.jobs@.len() && (#[trigger] before.jobs@[j]).status is Running)
            ==> after.jobs@[k] == before.jobs@[k],
{
    if cancelled && !any_running(before.jobs@) {
        assert(cancelled_if_queued(before.jobs@[k], after.jobs@[k]));
    }
}

/// A ready tool enters as queued, a skipped or blocked one in that status with
/// its reason; the log is named after the tool.
pub proof fn tools_enter_by_their_preflight(spec: ToolSpec, run_dir: Seq<u8>, job: Job)
    requires
        entered(spec, run_dir, job),
    ensures
        match spec.preflight {
            Preflight::Ready => job.status is Queued && job.message@.len() == 0,
            Preflight::Skipped(reason) => job.status is Skipped && job.message@ == clipped(
                sanitized(reason@),
                512,
            ),
            Preflight::Blocked(reason) => job.status is Blocked && job.message@ == clipped(
                sanitized(reason@),
                512,
            ),
        },
        job.spec == spec,
        job.started is None,
        job.exit_code is None,
        job.before@.len() == 0,
        job.after@.len() == 0,
        (forall|i: int|
            0 <= i < spec.id@.len() ==> (('a' <= #[trigger] spec.id@[i] && spec.id@[i] <= 'z') || ('0'
                <= spec.id@[i] && spec.id@[i] <= '9') || ('A' <= spec.id@[i] && spec.id@[i] <= 'Z')
                || spec.id@[i] == '-' || spec.id@[i] == '_' || spec.id@[i] == '.'))
            && spec.id@.len() > 0 ==> job.log@ == path_join(
            run_dir,
            encode_utf8(spec.id@ + ".log"@),
        ),
{
    assert(sanitized(Seq::empty()) =~= Seq::<char>::empty());
    if (forall|i: int|
        0 <= i < spec.id@.len() ==> (('a' <= #[trigger] spec.id@[i] && spec.id@[i] <= 'z') || ('0'
            <= spec.id@[i] && spec.id@[i] <= '9') || ('A' <= spec.id@[i] && spec.id@[i] <= 'Z')
            || spec.id@[i] == '-' || spec.id@[i] == '_' || spec.id@[i] == '.')) && spec.id@.len()
        > 0 {
        assert forall|i: int| 0 <= i < spec.id@.len() implies file_safe(#[trigger] spec.id@[i]) by {
        }
        safe_ids_name_their_log_file(spec.id@);
    }
}

/// The message of a job is its reason and its notes, in this order, with a
/// semicolon between; printable text that is not too long is shown as it is.
pub proof fn messages_are_reason_and_notes(reason: Seq<char>, note: Seq<char>)
    requires
        forall|i: int|
            0 <= i < reason.len() ==> (' ' <= #[trigger] reason[i] && reason[i] <= '~') || reason[i]
                > '\u{9f}',
        forall|i: int|
            0 <= i < note.len() ==> (' ' <= #[trigger] note[i] && note[i] <= '~') || note[i]
                > '\u{9f}',
        reason.len() + note.len() + 2 <= 512,
    ensures
        outcome_message(reason, Seq::empty()) == reason,
        outcome_message(Seq::empty(), seq![note]) == note,
        reason.len() > 0 ==> outcome_message(reason, seq![note]) == reason + "; "@ + note,
{
    reveal_strlit("; ");
    let none = Seq::<Seq<char>>::empty();
    let empty = Seq::<char>::empty();
    joined_parts_stand_in_order(seq![reason], note, "; "@);
    joined_parts_stand_in_order(none, reason, "; "@);
    joined_parts_stand_in_order(none, note, "; "@);
    assert(seq![reason] + none =~= seq![reason]);
    assert(seq![reason] + seq![note] =~= seq![reason].push(note));
    printable_text_is_unchanged(reason);
    printable_text_is_unchanged(note);
    let both = reason + "; "@ + note;
    assert forall|i: int| 0 <= i < both.len() implies (#[trigger] both[i] == '\n' || both[i] == '\t'
        || (' ' <= both[i] && both[i] <= '~') || both[i] > '\u{9f}') by {
        if i < reason.len() {
            assert(both[i] == reason[i]);
        } else if i >= reason.len() + 2 {
            assert(both[i] == note[i - reason.len() - 2]);
        }
    }
    printable_text_is_unchanged(both);
    if reason.len() == 0 {
        assert(reason =~= empty);
        assert(joined(none, "; "@) =~= empty);
    }
}

/// The characters of a log's file name are those of the id, with an underscore
/// for each that is not safe there; without an id it is a word.
pub proof fn unsafe_characters_become_underscores(id: Seq<char>, i: int)
    requires
        0 <= i < id.len(),
    ensures
        component(id).len() == id.len(),
        component(id)[i] == if ('0' <= id[i] && id[i] <= '9') || ('A' <= id[i] && id[i] <= 'Z') || (
        'a' <= id[i] && id[i] <= 'z') || id[i] == '.' || id[i] == '_' || id[i] == '-' {
            id[i]
        } else {
            '_'
        },
        component(Seq::empty()) == "job"@,
{
}

/// What a job records when it is given up while it runs: the time since it was
/// started. Starting a job and giving up queued ones leave the run itself as
/// it is.
pub proof fn lost_jobs_keep_their_time(before: Job, after: Job, now: TimeSpan)
    requires
        swept(before, after, now),
        before.status is Running,
        now.nanos < 1_000_000_000,
    ensures
        before.started matches Some(s) ==> s.nanos < 1_000_000_000 ==> {
            let ran = (now.secs - s.secs) * 1_000_000_000 + (now.nanos - s.nanos);
            ran >= 0 ==> after.elapsed.secs * 1_000_000_000 + after.elapsed.nanos == ran
        },
        before.started is None ==> after.elapsed.secs == 0 && after.elapsed.nanos == 0,
        after.started == before.started,
        after.log == before.log,
{
    if let Some(s) = before.started {
        if s.nanos < 1_000_000_000 {
            spans_are_differences(s, now);
        }
    }
}

/// Neither a claim nor a cancellation touches the start of the run, its
/// directory, or whether it is over.
pub proof fn claims_leave_the_run_as_it_is(before: RunState, after: RunState, i: int, now: TimeSpan)
    ensures
        claimed(before, after, i, now) ==> after.started == before.started && after.done
            == before.done && after.run_dir == before.run_dir && 0 <= i < before.jobs@.len(),
        drained(before, after, true) || drained(before, after, false) ==> after.started
            == before.started && after.done == before.done && after.run_dir == before.run_dir
            && after.jobs@.len() == before.jobs@.len(),
{
}

/// A job enters a run without any time spent, and its log lies in the
/// directory of the run.
pub proof fn entered_jobs_have_their_log(spec: ToolSpec, run_dir: Seq<u8>, job: Job)
    requires
        entered(spec, run_dir, job),
    ensures
        job.elapsed.secs == 0 && job.elapsed.nanos == 0,
        job.log@ == path_join(run_dir, encode_utf8(component(spec.id@) + ".log"@)),
{
}

/// The message of a job holds its reason, where there is one, and all of its
/// notes, in their order, cleaned for the terminal and cut to five hundred and
/// twelve characters.
pub proof fn messages_hold_every_note(reason: Seq<char>, notes: Seq<Seq<char>>)
    ensures
        reason.len() > 0 ==> outcome_message(reason, notes) == clipped(
            sanitized(joined(seq![reason] + notes, "; "@)),
            512,
        ),
        reason.len() == 0 ==> outcome_message(reason, notes) == clipped(
            sanitized(joined(notes, "; "@)),
            512,
        ),
{
}

} // verus!
