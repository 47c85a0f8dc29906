//! The report of a run, and its plain text summary.

use vstd::prelude::*;
use vstd::string::*;
use vstd::utf8::*;

use crate::bytes::{path_join, utf8_lossy, PathBytes};
use crate::clock::{rfc3339_of, rfc3339_utc, TimeSpan};
use crate::model::{CommandSpec, CommandView, Job, RunState, Status};
use crate::number::{decimal, push_count};
use crate::schedule::{component, tool_file};
use crate::text::{
    aligned_text_fills_its_column, clip, clipped, clipping_cuts_only_what_is_too_long,
    collapse_whitespace, collapsed, copy_texts, is_blank, left_aligned,
    push_left_aligned, texts,
};

verus! {

/// Seconds as `{:.1}` shows them.
pub uninterp spec fn seconds_form(secs: u64, nanos: u32) -> Seq<char>;

/// `Duration::as_secs_f64`, shown with one decimal.
#[verifier::external_body]
pub(crate) fn seconds_text(secs: u64, nanos: u32) -> (r: String)
    requires
        nanos < 1_000_000_000,
    ensures
        r@ == seconds_form(secs, nanos),
{
    format!("{:.1}", std::time::Duration::new(secs, nanos).as_secs_f64())
}

// ---------------------------------------------------------------------------
// Counts
// ---------------------------------------------------------------------------

/// How many of `jobs` have the status `want`.
pub open spec fn count_status(jobs: Seq<Job>, want: Status) -> int
    decreases jobs.len(),
{
    if jobs.len() == 0 {
        0
    } else {
        count_status(jobs.drop_last(), want) + if jobs.last().status == want {
            1int
        } else {
            0int
        }
    }
}

/// How many jobs have the status `want`.
pub fn count_with_status(jobs: &Vec<Job>, want: Status) -> (r: usize)
    ensures
        r == count_status(jobs@, want),
        r <= jobs@.len(),
{
    let mut n: usize = 0;
    for i in 0..jobs.len()
        invariant
            n == count_status(jobs@.take(i as int), want),
            n <= i,
    {
        assert(jobs@.take(i + 1).drop_last() =~= jobs@.take(i as int));
        if jobs[i].status == want {
            n = n + 1;
        }
    }
    assert(jobs@.take(jobs@.len() as int) =~= jobs@);
    n
}

/// How many jobs of a run ended how.
#[derive(Clone, Copy, Debug, PartialEq, Eq, Structural)]
pub struct ReportCounts {
    pub total: usize,
    pub succeeded: usize,
    pub failed: usize,
    pub blocked: usize,
    pub skipped: usize,
    pub timed_out: usize,
    pub cancelled: usize,
    pub unfinished: usize,
}

/// `counts` are those of `jobs`.
pub open spec fn counts_hold(counts: ReportCounts, jobs: Seq<Job>) -> bool {
    &&& counts.total == jobs.len()
    &&& counts.succeeded == count_status(jobs, Status::Succeeded)
    &&& counts.failed == count_status(jobs, Status::Failed)
    &&& counts.blocked == count_status(jobs, Status::Blocked)
    &&& counts.skipped == count_status(jobs, Status::Skipped)
    &&& counts.timed_out == count_status(jobs, Status::TimedOut)
    &&& counts.cancelled == count_status(jobs, Status::Cancelled)
    &&& counts.unfinished == count_status(jobs, Status::Running) + count_status(
        jobs,
        Status::Queued,
    )
}

/// Counts the jobs of a run by their status.
pub fn report_counts(jobs: &Vec<Job>) -> (r: ReportCounts)
    ensures
        counts_hold(r, jobs@),
{
    let running: usize = count_with_status(jobs, Status::Running);
    let queued: usize = count_with_status(jobs, Status::Queued);
    proof {
        every_job_is_counted_once(jobs@);
        lemma_count_bounds(jobs@, Status::Succeeded);
        lemma_count_bounds(jobs@, Status::Failed);
        lemma_count_bounds(jobs@, Status::Blocked);
        lemma_count_bounds(jobs@, Status::Skipped);
        lemma_count_bounds(jobs@, Status::TimedOut);
        lemma_count_bounds(jobs@, Status::Cancelled);
    }
    ReportCounts {
        total: jobs.len(),
        succeeded: count_with_status(jobs, Status::Succeeded),
        failed: count_with_status(jobs, Status::Failed),
        blocked: count_with_status(jobs, Status::Blocked),
        skipped: count_with_status(jobs, Status::Skipped),
        timed_out: count_with_status(jobs, Status::TimedOut),
        cancelled: count_with_status(jobs, Status::Cancelled),
        unfinished: running + queued,
    }
}

proof fn lemma_count_bounds(jobs: Seq<Job>, want: Status)
    ensures
        0 <= count_status(jobs, want) <= jobs.len(),
    decreases jobs.len(),
{
    if jobs.len() > 0 {
        lemma_count_bounds(jobs.drop_last(), want);
    }
}

/// Every job is counted exactly once, whatever its status.
pub proof fn every_job_is_counted_once(jobs: Seq<Job>)
    ensures
        count_status(jobs, Status::Succeeded) + count_status(jobs, Status::Failed) + count_status(
            jobs,
            Status::Blocked,
        ) + count_status(jobs, Status::Skipped) + count_status(jobs, Status::TimedOut)
            + count_status(jobs, Status::Cancelled) + count_status(jobs, Status::Running)
            + count_status(jobs, Status::Queued) == jobs.len(),
    decreases jobs.len(),
{
    if jobs.len() > 0 {
        every_job_is_counted_once(jobs.drop_last());
    }
}

// ---------------------------------------------------------------------------
// The report
// ---------------------------------------------------------------------------

/// The record of one job.
#[derive(Debug)]
pub struct ReportJob {
    pub id: String,
    pub label: String,
    pub status: Status,
    pub resource: String,
    pub update_argv: Vec<String>,
    pub version_argv: Option<Vec<String>>,
    pub version_line: usize,
    pub failure_contains: Vec<String>,
    pub before: String,
    pub after: String,
    pub exit_code: Option<i32>,
    pub elapsed: TimeSpan,
    pub message: String,
    pub log: String,
    pub before_log: Option<String>,
    pub after_log: Option<String>,
}

/// The record of a run.
#[derive(Debug)]
pub struct RunReport {
    pub schema_version: u8,
    pub started: String,
    pub finished: String,
    pub total_secs: u64,
    pub counts: ReportCounts,
    pub jobs: Vec<ReportJob>,
}

/// Program and arguments in one list.
pub open spec fn argv(cmd: CommandView) -> Seq<Seq<char>> {
    seq![cmd.program] + cmd.args
}

/// Program and arguments in one list.
pub fn argv_of(cmd: &CommandSpec) -> (r: Vec<String>)
    ensures
        texts(r@) == argv(cmd@),
{
    let mut out: Vec<String> = Vec::new();
    out.push(cmd.program.clone());
    let mut args = copy_texts(&cmd.args);
    out.append(&mut args);
    assert(texts(out@) =~= argv(cmd@));
    out
}

/// The path, as text, of a file named after the tool.
pub open spec fn tool_file_text(run_dir: Seq<u8>, id: Seq<char>, suffix: Seq<char>) -> Seq<char> {
    utf8_lossy(path_join(run_dir, encode_utf8(component(id) + suffix)))
}

/// `rec` is the record of `job`.
pub open spec fn records_job(rec: ReportJob, job: Job, run_dir: Seq<u8>) -> bool {
    let versioned = job.spec.version is Some;
    let id = job.spec.id@;
    &&& rec.id@ == id
    &&& rec.label@ == job.spec.label@
    &&& rec.status == job.status
    &&& rec.resource@ == job.spec.resource@
    &&& texts(rec.update_argv@) == argv(job.spec.update@)
    &&& rec.version_argv is Some == versioned
    &&& versioned ==> texts(rec.version_argv->0@) == argv(job.spec.version->0@)
    &&& rec.version_line == job.spec.version_line
    &&& texts(rec.failure_contains@) == texts(job.spec.failure_contains@)
    &&& rec.before@ == job.before@
    &&& rec.after@ == job.after@
    &&& rec.exit_code == job.exit_code
    &&& rec.elapsed == job.elapsed
    &&& rec.message@ == job.message@
    &&& rec.log@ == utf8_lossy(job.log@)
    &&& rec.before_log is Some == versioned
    &&& versioned ==> rec.before_log->0@ == tool_file_text(run_dir, id, ".before.log"@)
    &&& rec.after_log is Some == versioned
    &&& versioned ==> rec.after_log->0@ == tool_file_text(run_dir, id, ".after.log"@)
}

fn report_job(job: &Job, run_dir: &PathBytes) -> (r: ReportJob)
    ensures
        records_job(r, *job, run_dir@),
{
    let mut version_argv: Option<Vec<String>> = None;
    let mut before_log: Option<String> = None;
    let mut after_log: Option<String> = None;
    if let Some(version) = &job.spec.version {
        version_argv = Some(argv_of(version));
        before_log = Some(tool_file(run_dir, job.spec.id.as_str(), ".before.log").display());
        after_log = Some(tool_file(run_dir, job.spec.id.as_str(), ".after.log").display());
    }
    ReportJob {
        id: job.spec.id.clone(),
        label: job.spec.label.clone(),
        status: job.status,
        resource: job.spec.resource.clone(),
        update_argv: argv_of(&job.spec.update),
        version_argv,
        version_line: job.spec.version_line,
        failure_contains: copy_texts(&job.spec.failure_contains),
        before: job.before.clone(),
        after: job.after.clone(),
        exit_code: job.exit_code,
        elapsed: job.elapsed,
        message: job.message.clone(),
        log: job.log.display(),
        before_log,
        after_log,
    }
}

/// The report of a run, with every record, failed, blocked, skipped,
/// cancelled and timed-out jobs among them.
pub fn build_report(
    state: &RunState,
    run_dir: &PathBytes,
    started: &str,
    started_unix: u64,
    finished_unix: u64,
) -> (r: RunReport)
    ensures
        r.schema_version == 1,
        r.started@ == started@,
        rfc3339_of(finished_unix, r.finished@),
        r.total_secs == (if finished_unix > started_unix {
            finished_unix - started_unix
        } else {
            0
        }),
        counts_hold(r.counts, state.jobs@),
        r.jobs@.len() == state.jobs@.len(),
        forall|i: int|
            0 <= i < r.jobs@.len() ==> records_job(
                #[trigger] r.jobs@[i],
                state.jobs@[i],
                run_dir@,
            ),
{
    let mut jobs: Vec<ReportJob> = Vec::new();
    for i in 0..state.jobs.len()
        invariant
            jobs@.len() == i,
            forall|k: int|
                0 <= k < i ==> records_job(#[trigger] jobs@[k], state.jobs@[k], run_dir@),
    {
        jobs.push(report_job(&state.jobs[i], run_dir));
    }
    RunReport {
        schema_version: 1,
        started: started.to_owned(),
        finished: rfc3339_utc(finished_unix),
        total_secs: finished_unix.saturating_sub(started_unix),
        counts: report_counts(&state.jobs),
        jobs,
    }
}

// ---------------------------------------------------------------------------
// The summary
// ---------------------------------------------------------------------------

pub open spec fn status_word(status: Status) -> Seq<char> {
    match status {
        Status::Succeeded => "succeeded"@,
        Status::Failed => "failed"@,
        Status::Blocked => "blocked"@,
        Status::Skipped => "skipped"@,
        Status::Cancelled => "cancelled"@,
        Status::TimedOut => "timed out"@,
        Status::Running => "running"@,
        Status::Queued => "queued"@,
    }
}

fn push_status_word(out: &mut String, status: Status)
    ensures
        final(out)@ == old(out)@ + left_aligned(status_word(status), 9),
{
    match status {
        Status::Succeeded => push_left_aligned(out, "succeeded", 9),
        Status::Failed => push_left_aligned(out, "failed", 9),
        Status::Blocked => push_left_aligned(out, "blocked", 9),
        Status::Skipped => push_left_aligned(out, "skipped", 9),
        Status::Cancelled => push_left_aligned(out, "cancelled", 9),
        Status::TimedOut => push_left_aligned(out, "timed out", 9),
        Status::Running => push_left_aligned(out, "running", 9),
        Status::Queued => push_left_aligned(out, "queued", 9),
    }
}

/// The length of the longest id.
pub open spec fn longest_id(jobs: Seq<Job>) -> int
    decreases jobs.len(),
{
    if jobs.len() == 0 {
        0
    } else {
        let rest = longest_id(jobs.drop_last());
        let n = jobs.last().spec.id@.len() as int;
        if n > rest {
            n
        } else {
            rest
        }
    }
}

/// The width of the id column: that of the longest id, from 2 to 24.
pub open spec fn id_width(jobs: Seq<Job>) -> int {
    let n = longest_id(jobs);
    if n < 2 {
        2
    } else if n > 24 {
        24
    } else {
        n
    }
}

fn id_column(jobs: &Vec<Job>) -> (r: usize)
    ensures
        r == id_width(jobs@),
{
    let mut n: usize = 0;
    for i in 0..jobs.len()
        invariant
            n == longest_id(jobs@.take(i as int)),
    {
        assert(jobs@.take(i + 1).drop_last() =~= jobs@.take(i as int));
        let len: usize = jobs[i].spec.id.as_str().unicode_len();
        if len > n {
            n = len;
        }
    }
    assert(jobs@.take(jobs@.len() as int) =~= jobs@);
    if n < 2 {
        2
    } else if n > 24 {
        24
    } else {
        n
    }
}

/// The versions of a job, or else its message.
pub open spec fn job_detail(job: Job) -> Seq<char> {
    if job.before@.len() > 0 && job.after@.len() > 0 {
        job.before@ + " -> "@ + job.after@
    } else if job.message@.len() > 0 {
        clipped(collapsed(job.message@), 120)
    } else if job.before@.len() > 0 {
        job.before@ + " -> (not collected)"@
    } else if job.after@.len() > 0 {
        "(not collected) -> "@ + job.after@
    } else {
        "-"@
    }
}

/// Whether the time of a job is shown.
pub open spec fn shows_time(job: Job) -> bool {
    job.elapsed.total() > 0 && !(job.status is Queued) && !(job.status is Blocked) && !(
    job.status is Skipped)
}

/// The summary line of a job, whose seconds are shown as `seconds`.
pub open spec fn job_line(job: Job, width: int, seconds: Seq<char>) -> Seq<char> {
    left_aligned(clipped(job.spec.id@, width), width) + "  "@ + left_aligned(
        status_word(job.status),
        9,
    ) + "  "@ + job_detail(job) + (if shows_time(job) {
        " ("@ + seconds + "s)"@
    } else {
        Seq::empty()
    }) + "\n"@
}

fn detail_text(job: &Job) -> (r: String)
    ensures
        r@ == job_detail(*job),
{
    let has_before = !is_blank(job.before.as_str());
    let has_after = !is_blank(job.after.as_str());
    if has_before && has_after {
        let mut s = job.before.clone();
        s.append(" -> ");
        s.append(job.after.as_str());
        s
    } else if !is_blank(job.message.as_str()) {
        clip(collapse_whitespace(job.message.as_str()), 120)
    } else if has_before {
        let mut s = job.before.clone();
        s.append(" -> (not collected)");
        s
    } else if has_after {
        let mut s = "(not collected) -> ".to_owned();
        s.append(job.after.as_str());
        s
    } else {
        "-".to_owned()
    }
}

/// Appends the summary line of a job, whose seconds are shown as `seconds`.
pub fn push_job_line(out: &mut String, job: &Job, width: usize, seconds: &str)
    ensures
        final(out)@ == old(out)@ + job_line(*job, width as int, seconds@),
{
    let ghost before = out@;
    let id = clip(job.spec.id.clone(), width);
    push_left_aligned(out, id.as_str(), width);
    out.append("  ");
    push_status_word(out, job.status);
    out.append("  ");
    out.append(detail_text(job).as_str());
    let timed = match job.status {
        Status::Queued | Status::Blocked | Status::Skipped => false,
        _ => !job.elapsed.is_zero(),
    };
    if timed {
        out.append(" (");
        out.append(seconds);
        out.append("s)");
    }
    out.append("\n");
    assert(out@ =~= before + job_line(*job, width as int, seconds@));
}

/// The summary lines of `jobs`.
pub open spec fn job_lines(jobs: Seq<Job>, width: int) -> Seq<char>
    decreases jobs.len(),
{
    if jobs.len() == 0 {
        Seq::empty()
    } else {
        job_lines(jobs.drop_last(), width) + job_line(
            jobs.last(),
            width,
            seconds_form(jobs.last().elapsed.secs, jobs.last().elapsed.nanos),
        )
    }
}

/// The closing lines of the summary: the counts, the report and the logs.
pub open spec fn summary_tail(jobs: Seq<Job>, run_dir: Seq<u8>) -> Seq<char> {
    "\nsucceeded "@ + decimal(count_status(jobs, Status::Succeeded) as nat) + "  failed "@
        + decimal(count_status(jobs, Status::Failed) as nat) + "  blocked "@ + decimal(
        count_status(jobs, Status::Blocked) as nat,
    ) + "  skipped "@ + decimal(count_status(jobs, Status::Skipped) as nat) + "  timed out "@
        + decimal(count_status(jobs, Status::TimedOut) as nat) + "  cancelled "@ + decimal(
        count_status(jobs, Status::Cancelled) as nat,
    ) + "  ("@ + decimal(jobs.len()) + " tools)\n"@ + "report: "@ + utf8_lossy(
        path_join(run_dir, encode_utf8("report.json"@)),
    ) + "\n"@ + "logs: "@ + utf8_lossy(run_dir) + "\n"@
}

fn summary_tail_text(jobs: &Vec<Job>, run_dir: &PathBytes) -> (r: String)
    ensures
        r@ == summary_tail(jobs@, run_dir@),
{
    let mut out = "\nsucceeded ".to_owned();
    push_count(&mut out, count_with_status(jobs, Status::Succeeded));
    out.append("  failed ");
    push_count(&mut out, count_with_status(jobs, Status::Failed));
    out.append("  blocked ");
    push_count(&mut out, count_with_status(jobs, Status::Blocked));
    out.append("  skipped ");
    push_count(&mut out, count_with_status(jobs, Status::Skipped));
    out.append("  timed out ");
    push_count(&mut out, count_with_status(jobs, Status::TimedOut));
    out.append("  cancelled ");
    push_count(&mut out, count_with_status(jobs, Status::Cancelled));
    out.append("  (");
    push_count(&mut out, jobs.len());
    out.append(" tools)\n");
    out.append("report: ");
    out.append(run_dir.join("report.json").display().as_str());
    out.append("\n");
    out.append("logs: ");
    out.append(run_dir.display().as_str());
    out.append("\n");
    out
}

/// Plain text summary: one line per tool, counts, and the log location.
pub fn summary(state: &RunState) -> (r: String)
    requires
        forall|i: int| 0 <= i < state.jobs@.len() ==> (#[trigger] state.jobs@[i]).elapsed.wf(),
    ensures
        r@ == job_lines(state.jobs@, id_width(state.jobs@)) + summary_tail(
            state.jobs@,
            state.run_dir@,
        ),
{
    let width: usize = id_column(&state.jobs);
    let mut out = String::new();
    for i in 0..state.jobs.len()
        invariant
            forall|k: int| 0 <= k < state.jobs@.len() ==> (#[trigger] state.jobs@[k]).elapsed.wf(),
            out@ == job_lines(state.jobs@.take(i as int), width as int),
    {
        assert(state.jobs@.take(i + 1).drop_last() =~= state.jobs@.take(i as int));
        let job = &state.jobs[i];
        assert(state.jobs@[i as int].elapsed.wf());
        let seconds = seconds_text(job.elapsed.secs, job.elapsed.nanos);
        push_job_line(&mut out, job, width, seconds.as_str());
    }
    assert(state.jobs@.take(state.jobs@.len() as int) =~= state.jobs@);
    out.append(summary_tail_text(&state.jobs, &state.run_dir).as_str());
    out
}

// ---------------------------------------------------------------------------
// Laws
// ---------------------------------------------------------------------------

/// The counts of a report are the numbers of jobs with each status.
pub proof fn counts_are_numbers_of_jobs(counts: ReportCounts, jobs: Seq<Job>)
    requires
        counts_hold(counts, jobs),
    ensures
        counts.total == jobs.len(),
        counts.succeeded == jobs.filter(|j: Job| j.status is Succeeded).len(),
        counts.failed == jobs.filter(|j: Job| j.status is Failed).len(),
        counts.blocked == jobs.filter(|j: Job| j.status is Blocked).len(),
        counts.skipped == jobs.filter(|j: Job| j.status is Skipped).len(),
        counts.timed_out == jobs.filter(|j: Job| j.status is TimedOut).len(),
        counts.cancelled == jobs.filter(|j: Job| j.status is Cancelled).len(),
        counts.unfinished == jobs.filter(|j: Job| j.status is Running).len() + jobs.filter(
            |j: Job| j.status is Queued,
        ).len(),
{
    lemma_count_filter(jobs, Status::Succeeded, |j: Job| j.status is Succeeded);
    lemma_count_filter(jobs, Status::Failed, |j: Job| j.status is Failed);
    lemma_count_filter(jobs, Status::Blocked, |j: Job| j.status is Blocked);
    lemma_count_filter(jobs, Status::Skipped, |j: Job| j.status is Skipped);
    lemma_count_filter(jobs, Status::TimedOut, |j: Job| j.status is TimedOut);
    lemma_count_filter(jobs, Status::Cancelled, |j: Job| j.status is Cancelled);
    lemma_count_filter(jobs, Status::Running, |j: Job| j.status is Running);
    lemma_count_filter(jobs, Status::Queued, |j: Job| j.status is Queued);
}

proof fn lemma_count_filter(jobs: Seq<Job>, want: Status, keep: spec_fn(Job) -> bool)
    requires
        forall|j: Job| #[trigger] keep(j) <==> j.status == want,
    ensures
        count_status(jobs, want) == jobs.filter(keep).len(),
    decreases jobs.len(),
{
    reveal(Seq::filter);
    if jobs.len() > 0 {
        lemma_count_filter(jobs.drop_last(), want, keep);
        assert(keep(jobs.last()) <==> jobs.last().status == want);
    }
}

/// The record of a job holds what the job held, each in its own place; the
/// command comes first among its arguments, and the logs of the version
/// probes are named after the tool where there is a version command.
pub proof fn records_hold_what_the_job_held(rec: ReportJob, job: Job, run_dir: Seq<u8>)
    requires
        records_job(rec, job, run_dir),
    ensures
        rec.id@ == job.spec.id@,
        rec.label@ == job.spec.label@,
        rec.status == job.status,
        rec.resource@ == job.spec.resource@,
        rec.version_line == job.spec.version_line,
        rec.before@ == job.before@,
        rec.after@ == job.after@,
        rec.exit_code == job.exit_code,
        rec.elapsed == job.elapsed,
        rec.message@ == job.message@,
        rec.log@ == utf8_lossy(job.log@),
        rec.update_argv@.len() == job.spec.update.args@.len() + 1,
        rec.update_argv@[0]@ == job.spec.update.program@,
        forall|k: int|
            0 < k < rec.update_argv@.len() ==> (#[trigger] rec.update_argv@[k])@
                == job.spec.update.args@[k - 1]@,
        rec.failure_contains@.len() == job.spec.failure_contains@.len(),
        forall|k: int|
            0 <= k < rec.failure_contains@.len() ==> (#[trigger] rec.failure_contains@[k])@
                == job.spec.failure_contains@[k]@,
        job.spec.version is None ==> rec.version_argv is None && rec.before_log is None
            && rec.after_log is None,
        job.spec.version matches Some(v) ==> {
            &&& rec.version_argv is Some
            &&& rec.version_argv->0@.len() == v.args@.len() + 1
            &&& rec.version_argv->0@[0]@ == v.program@
            &&& forall|k: int|
                0 < k < rec.version_argv->0@.len() ==> (#[trigger] rec.version_argv->0@[k])@
                    == v.args@[k - 1]@
            &&& rec.before_log matches Some(path) && path@ == utf8_lossy(
                path_join(run_dir, encode_utf8(component(job.spec.id@) + ".before.log"@)),
            )
            &&& rec.after_log matches Some(path) && path@ == utf8_lossy(
                path_join(run_dir, encode_utf8(component(job.spec.id@) + ".after.log"@)),
            )
        },
{
    lemma_argv(rec.update_argv@, job.spec.update);
    if let Some(v) = job.spec.version {
        lemma_argv(rec.version_argv->0@, v);
    }
    let a = texts(rec.failure_contains@);
    let b = texts(job.spec.failure_contains@);
    assert(a.len() == rec.failure_contains@.len() && b.len()
        == job.spec.failure_contains@.len());
    assert forall|k: int| 0 <= k < rec.failure_contains@.len() implies (
    #[trigger] rec.failure_contains@[k])@ == job.spec.failure_contains@[k]@ by {
        assert(a[k] == b[k]);
    }
}

proof fn lemma_argv(list: Seq<String>, cmd: CommandSpec)
    requires
        texts(list) == argv(cmd@),
    ensures
        list.len() == cmd.args@.len() + 1,
        list[0]@ == cmd.program@,
        forall|k: int| 0 < k < list.len() ==> (#[trigger] list[k])@ == cmd.args@[k - 1]@,
{
    let t = texts(list);
    assert(t.len() == list.len());
    assert(cmd@.args.len() == cmd.args@.len());
    assert(t[0] == list[0]@);
    assert forall|k: int| 0 < k < list.len() implies (#[trigger] list[k])@ == cmd.args@[k - 1]@ by {
        assert(t[k] == cmd@.args[k - 1]);
    }
}

/// The line of a job: its id, the word for its status, its versions or its
/// message, and the time it took where it ran.
pub proof fn lines_tell_id_status_and_detail(job: Job, width: int, seconds: Seq<char>)
    requires
        job.elapsed.nanos < 1_000_000_000,
        job.spec.id@.len() <= width,
    ensures
        ({
            let word = match job.status {
                Status::Succeeded => "succeeded"@,
                Status::Failed => "failed   "@,
                Status::Blocked => "blocked  "@,
                Status::Skipped => "skipped  "@,
                Status::Cancelled => "cancelled"@,
                Status::TimedOut => "timed out"@,
                Status::Running => "running  "@,
                Status::Queued => "queued   "@,
            };
            let ran = (job.elapsed.secs > 0 || job.elapsed.nanos > 0) && !(job.status is Queued)
                && !(job.status is Blocked) && !(job.status is Skipped);
            let time = if ran {
                " ("@ + seconds + "s)"@
            } else {
                Seq::empty()
            };
            let detail = if job.before@.len() > 0 && job.after@.len() > 0 {
                job.before@ + " -> "@ + job.after@
            } else if job.message@.len() > 0 {
                clipped(collapsed(job.message@), 120)
            } else if job.before@.len() > 0 {
                job.before@ + " -> (not collected)"@
            } else if job.after@.len() > 0 {
                "(not collected) -> "@ + job.after@
            } else {
                "-"@
            };
            job_line(job, width, seconds) == left_aligned(job.spec.id@, width) + "  "@ + word
                + "  "@ + detail + time + "\n"@
        }),
{
    reveal_strlit("succeeded");
    reveal_strlit("failed");
    reveal_strlit("failed   ");
    reveal_strlit("blocked");
    reveal_strlit("blocked  ");
    reveal_strlit("skipped");
    reveal_strlit("skipped  ");
    reveal_strlit("cancelled");
    reveal_strlit("timed out");
    reveal_strlit("running");
    reveal_strlit("running  ");
    reveal_strlit("queued");
    reveal_strlit("queued   ");
    let word = match job.status {
        Status::Succeeded => "succeeded"@,
        Status::Failed => "failed   "@,
        Status::Blocked => "blocked  "@,
        Status::Skipped => "skipped  "@,
        Status::Cancelled => "cancelled"@,
        Status::TimedOut => "timed out"@,
        Status::Running => "running  "@,
        Status::Queued => "queued   "@,
    };
    assert(left_aligned(status_word(job.status), 9) =~= word);
}

/// The lines of the jobs stand one below the other, in their order.
pub proof fn jobs_are_told_in_order(jobs: Seq<Job>, job: Job, width: int)
    ensures
        job_lines(Seq::empty(), width).len() == 0,
        job_lines(jobs.push(job), width) == job_lines(jobs, width) + job_line(
            job,
            width,
            seconds_form(job.elapsed.secs, job.elapsed.nanos),
        ),
{
    assert(jobs.push(job).drop_last() =~= jobs);
}

/// The id column is as wide as the longest id, but never narrower than two or
/// wider than twenty-four characters.
pub proof fn the_id_column_fits_the_ids(jobs: Seq<Job>)
    ensures
        2 <= id_width(jobs) <= 24,
        forall|i: int|
            0 <= i < jobs.len() && (#[trigger] jobs[i]).spec.id@.len() <= 24
                ==> jobs[i].spec.id@.len() <= id_width(jobs),
        id_width(jobs) > 2 ==> exists|i: int|
            0 <= i < jobs.len() && (#[trigger] jobs[i]).spec.id@.len() >= id_width(jobs),
{
    lemma_longest_id(jobs);
}

proof fn lemma_longest_id(jobs: Seq<Job>)
    ensures
        longest_id(jobs) >= 0,
        forall|i: int|
            0 <= i < jobs.len() ==> (#[trigger] jobs[i]).spec.id@.len() <= longest_id(jobs),
        longest_id(jobs) > 0 ==> exists|i: int|
            0 <= i < jobs.len() && (#[trigger] jobs[i]).spec.id@.len() == longest_id(jobs),
    decreases jobs.len(),
{
    if jobs.len() > 0 {
        let rest = jobs.drop_last();
        lemma_longest_id(rest);
        assert forall|i: int| 0 <= i < jobs.len() implies (#[trigger] jobs[i]).spec.id@.len()
            <= longest_id(jobs) by {
            if i < rest.len() {
                assert(jobs[i] == rest[i]);
            }
        }
        if longest_id(jobs) > 0 {
            if longest_id(jobs) == longest_id(rest) {
                let i = choose|i: int|
                    0 <= i < rest.len() && (#[trigger] rest[i]).spec.id@.len() == longest_id(rest);
                assert(jobs[i] == rest[i]);
            } else {
                assert(jobs[jobs.len() - 1] == jobs.last());
            }
        }
    }
}

/// The summary ends with the numbers of jobs by status, and where the report
/// and the logs are.
pub proof fn summaries_end_with_the_counts(jobs: Seq<Job>, run_dir: Seq<u8>, counts: ReportCounts)
    requires
        counts_hold(counts, jobs),
    ensures
        summary_tail(jobs, run_dir) == "\nsucceeded "@ + decimal(counts.succeeded as nat)
            + "  failed "@ + decimal(counts.failed as nat) + "  blocked "@ + decimal(
            counts.blocked as nat,
        ) + "  skipped "@ + decimal(counts.skipped as nat) + "  timed out "@ + decimal(
            counts.timed_out as nat,
        ) + "  cancelled "@ + decimal(counts.cancelled as nat) + "  ("@ + decimal(
            counts.total as nat,
        ) + " tools)\n"@ + "report: "@ + utf8_lossy(
            path_join(run_dir, encode_utf8("report.json"@)),
        ) + "\n"@ + "logs: "@ + utf8_lossy(run_dir) + "\n"@,
{
}

/// An id that is too long for its column is clipped, and the rest of the line
/// stays.
pub proof fn long_ids_are_clipped(job: Job, width: int, seconds: Seq<char>)
    requires
        job.spec.id@.len() > width >= 4,
    ensures
        job_line(job, width, seconds).take(width) == job.spec.id@.take(width - 3) + seq![
            '.',
            '.',
            '.',
        ],
{
    clipping_cuts_only_what_is_too_long(job.spec.id@, width);
    let id = clipped(job.spec.id@, width);
    aligned_text_fills_its_column(id, width);
    assert(left_aligned(id, width) == id);
    assert(job_line(job, width, seconds).take(width) =~= id);
}

} // verus!
