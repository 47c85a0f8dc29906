//! One job from end to end: before-version, update, after-version.
//!
//! `run_job` decides what comes next from the record of what has happened so
//! far; the caller performs that step, adds the reply to the record and asks
//! again, until the outcome is there.

use vstd::prelude::*;
use vstd::string::*;

use crate::bytes::{append_capped, filled, utf8_lossy};
use crate::clock::{span_between, TimeSpan};
use crate::model::{Status, ToolSpec};
use crate::number::{decimal, push_decimal, push_signed, signed_decimal};
use crate::schedule::{outcome, outcome_message, Outcome};
use crate::terminal::{
    excerpt_form, extract_version, log_excerpt, nonblank_lines, sanitized, tail, tail_bytes,
    tail_decoded, tails_keep_what_was_read, version_text,
};
use crate::text::{clipped, collapsed, is_blank, lines, texts, trimmed, words};

verus! {

/// Hard wall-clock bound for a single version probe, in seconds.
pub const VERSION_TIMEOUT_SECS: u64 = 15;

/// At most this much captured version output is read back, in bytes.
pub const MAX_VERSION_BYTES: usize = 65536;

/// How much of a log's end an excerpt is taken from, in bytes.
pub const EXCERPT_BYTES: usize = 512;

// ---------------------------------------------------------------------------
// Phases
// ---------------------------------------------------------------------------

/// How a command ended: its exit code, or the signal that ended it.
#[derive(Clone, Copy, Debug, PartialEq, Eq)]
pub struct Exit {
    pub code: Option<i32>,
    pub signal: Option<i32>,
}

impl Exit {
    pub open spec fn ok(self) -> bool {
        self.code == Some(0i32)
    }

    pub fn success(&self) -> (r: bool)
        ensures
            r == self.ok(),
    {
        match self.code {
            Some(code) => code == 0,
            None => false,
        }
    }
}

/// The words for an exit.
pub open spec fn exit_form(exit: Exit) -> Seq<char> {
    match (exit.code, exit.signal) {
        (Some(code), _) => "exit "@ + signed_decimal(code as int),
        (None, Some(sig)) => "signal "@ + signed_decimal(sig as int),
        (None, None) => "unknown exit"@,
    }
}

/// The words for an exit: its code, else its signal.
pub fn describe_exit(exit: &Exit) -> (r: String)
    ensures
        r@ == exit_form(*exit),
{
    if let Some(code) = exit.code {
        let mut s = "exit ".to_owned();
        push_signed(&mut s, code);
        return s;
    }
    if let Some(sig) = exit.signal {
        let mut s = "signal ".to_owned();
        push_signed(&mut s, sig);
        return s;
    }
    "unknown exit".to_owned()
}

/// How one command phase ended.
#[derive(Debug)]
pub enum PhaseEnd {
    Exited(Exit),
    TimedOut,
    Cancelled,
    /// The command could not be started or watched.
    Failed(String),
}

/// The command ran and exited with success.
pub open spec fn exited_ok(end: PhaseEnd) -> bool {
    end matches PhaseEnd::Exited(exit) && exit.ok()
}

fn has_exited_ok(end: &PhaseEnd) -> (r: bool)
    ensures
        r == exited_ok(*end),
{
    match end {
        PhaseEnd::Exited(exit) => exit.success(),
        _ => false,
    }
}

/// How a phase that has been polled goes on.
pub open spec fn poll_verdict(
    exited: Option<Exit>,
    cancelled: bool,
    started: TimeSpan,
    now: TimeSpan,
    timeout: TimeSpan,
) -> Option<PhaseEnd> {
    if exited is Some {
        Some(PhaseEnd::Exited(exited->0))
    } else if cancelled {
        Some(PhaseEnd::Cancelled)
    } else if span_between(started, now).total() >= timeout.total() {
        Some(PhaseEnd::TimedOut)
    } else {
        None
    }
}

/// One poll of a running phase: an exit wins over a cancellation, a
/// cancellation over the deadline. Nothing means: wait and poll again. After
/// a cancellation or a timeout the command is to be terminated.
pub fn run_phase(
    exited: Option<Exit>,
    cancelled: bool,
    started: TimeSpan,
    now: TimeSpan,
    timeout: TimeSpan,
) -> (r: Option<PhaseEnd>)
    requires
        now.wf(),
    ensures
        r == poll_verdict(exited, cancelled, started, now, timeout),
{
    if let Some(exit) = exited {
        return Some(PhaseEnd::Exited(exit));
    }
    if cancelled {
        return Some(PhaseEnd::Cancelled);
    }
    if now.since(&started).reached(&timeout) {
        return Some(PhaseEnd::TimedOut);
    }
    None
}

// ---------------------------------------------------------------------------
// Version probes
// ---------------------------------------------------------------------------

/// What a version probe brought.
pub enum Probed {
    Version(Seq<char>),
    Note(Seq<char>),
    Cancelled,
}

/// The part of the captured output that is read back.
pub open spec fn output_read(bytes: Seq<u8>) -> Seq<u8> {
    filled(Seq::empty(), bytes, MAX_VERSION_BYTES as int)
}

/// What a version probe brought that ended with `end` and left `output`
/// behind.
pub open spec fn probed(
    label: Seq<char>,
    end: PhaseEnd,
    output: Option<Result<Vec<u8>, String>>,
    version_line: int,
) -> Probed {
    match end {
        PhaseEnd::Exited(exit) => if !exit.ok() {
            Probed::Note(label + " version failed ("@ + exit_form(exit) + ")"@)
        } else {
            match output {
                Some(Ok(bytes)) => match version_text(
                    utf8_lossy(output_read(bytes@)),
                    version_line,
                ) {
                    Ok(version) => Probed::Version(version),
                    Err(reason) => Probed::Note(label + " version: "@ + reason),
                },
                Some(Err(error)) => Probed::Note(
                    label + " version: "@ + ("output unreadable ("@ + error@ + ")"@),
                ),
                None => arbitrary(),
            }
        },
        PhaseEnd::TimedOut => Probed::Note(label + " version timed out after "@ + "15s"@),
        PhaseEnd::Cancelled => Probed::Cancelled,
        PhaseEnd::Failed(error) => Probed::Note(label + " version: "@ + error@),
    }
}

/// The end of a version probe, as the job takes it in.
#[derive(Debug)]
pub enum ProbeResult {
    Version(String),
    Note(String),
    Cancelled,
}

impl View for ProbeResult {
    type V = Probed;

    open spec fn view(&self) -> Probed {
        match self {
            ProbeResult::Version(v) => Probed::Version(v@),
            ProbeResult::Note(n) => Probed::Note(n@),
            ProbeResult::Cancelled => Probed::Cancelled,
        }
    }
}

fn version_note(label: &str, text: &str) -> (r: String)
    ensures
        r@ == label@ + " version: "@ + text@,
{
    let mut note = label.to_owned();
    note.append(" version: ");
    note.append(text);
    note
}

/// What one version probe brought: the configured line of its output, or a
/// note on why there is none. A version is never made up.
pub fn collect_version(
    label: &str,
    end: &PhaseEnd,
    output: &Option<Result<Vec<u8>, String>>,
    version_line: usize,
) -> (r: ProbeResult)
    requires
        exited_ok(*end) ==> output is Some,
    ensures
        r@ == probed(label@, *end, *output, version_line as int),
{
    match end {
        PhaseEnd::Exited(exit) => {
            if !exit.success() {
                let mut note = label.to_owned();
                note.append(" version failed (");
                note.append(describe_exit(exit).as_str());
                note.append(")");
                return ProbeResult::Note(note);
            }
            match output {
                Some(Ok(bytes)) => {
                    let mut read: Vec<u8> = Vec::new();
                    append_capped(&mut read, bytes.as_slice(), MAX_VERSION_BYTES);
                    match extract_version(read.as_slice(), version_line) {
                        Ok(version) => ProbeResult::Version(version),
                        Err(error) => ProbeResult::Note(version_note(label, error.as_str())),
                    }
                },
                Some(Err(error)) => {
                    let mut text = "output unreadable (".to_owned();
                    text.append(error.as_str());
                    text.append(")");
                    ProbeResult::Note(version_note(label, text.as_str()))
                },
                None => ProbeResult::Cancelled,
            }
        },
        PhaseEnd::TimedOut => {
            let mut note = label.to_owned();
            note.append(" version timed out after ");
            note.append("15s");
            ProbeResult::Note(note)
        },
        PhaseEnd::Cancelled => ProbeResult::Cancelled,
        PhaseEnd::Failed(error) => ProbeResult::Note(version_note(label, error.as_str())),
    }
}

// ---------------------------------------------------------------------------
// The update phase
// ---------------------------------------------------------------------------

/// The quoted, escaped form in which `{:?}` shows `text`.
pub uninterp spec fn quoted(text: Seq<char>) -> Seq<char>;

/// The `Debug` form of a string: quoted, with special characters escaped.
#[verifier::external_body]
pub(crate) fn quote(text: &str) -> (r: String)
    ensures
        r@ == quoted(text@),
{
    format!("{text:?}")
}

/// The reason given when a marker, shown as `quoted`, declares the update
/// failed.
pub open spec fn marker_reason(quoted: Seq<char>) -> Seq<char> {
    "update matched failure marker "@ + quoted + " despite exit 0"@
}

/// The reason given when a marker declares the update failed.
pub fn marker_message(quoted: &str) -> (r: String)
    ensures
        r@ == marker_reason(quoted@),
{
    let mut s = "update matched failure marker ".to_owned();
    s.append(quoted);
    s.append(" despite exit 0");
    s
}

/// Result of the failure-marker scan: the marker found, or why the scan could
/// not be completed.
pub type ScanResult = Result<Option<String>, String>;

/// What the update phase means for the job.
pub struct VerdictView {
    pub status: Status,
    pub reason: Seq<char>,
    pub exit_code: Option<i32>,
    pub excerpt: bool,
}

/// What the update phase means for the job. Success takes an exit with
/// success and a completed scan that found no marker.
pub open spec fn update_verdict(
    program: Seq<char>,
    timeout_secs: int,
    end: PhaseEnd,
    scan: Option<ScanResult>,
) -> VerdictView {
    match end {
        PhaseEnd::Failed(error) => VerdictView {
            status: Status::Failed,
            reason: "failed to start "@ + program + ": "@ + error@,
            exit_code: None,
            excerpt: false,
        },
        PhaseEnd::Exited(exit) => if !exit.ok() {
            VerdictView {
                status: Status::Failed,
                reason: "update failed ("@ + exit_form(exit) + ")"@,
                exit_code: exit.code,
                excerpt: true,
            }
        } else {
            match scan {
                Some(Ok(Some(marker))) => VerdictView {
                    status: Status::Failed,
                    reason: marker_reason(quoted(marker@)),
                    exit_code: exit.code,
                    excerpt: true,
                },
                Some(Err(error)) => VerdictView {
                    status: Status::Failed,
                    reason: "failure-marker scan could not verify the log: "@ + error@,
                    exit_code: exit.code,
                    excerpt: true,
                },
                _ => VerdictView {
                    status: Status::Succeeded,
                    reason: Seq::empty(),
                    exit_code: exit.code,
                    excerpt: false,
                },
            }
        },
        PhaseEnd::TimedOut => VerdictView {
            status: Status::TimedOut,
            reason: "timed out after "@ + decimal(timeout_secs as nat)
                + "s (terminated, then killed)"@,
            exit_code: None,
            excerpt: true,
        },
        PhaseEnd::Cancelled => VerdictView {
            status: Status::Cancelled,
            reason: "cancelled"@,
            exit_code: None,
            excerpt: false,
        },
    }
}

/// What the update phase means for the job.
#[derive(Debug)]
pub struct Verdict {
    pub status: Status,
    pub reason: String,
    /// The exit code of the command, where it has one, whatever the status.
    pub exit_code: Option<i32>,
    /// Whether the reason is followed by an excerpt of the log.
    pub excerpt: bool,
}

impl View for Verdict {
    type V = VerdictView;

    open spec fn view(&self) -> VerdictView {
        VerdictView {
            status: self.status,
            reason: self.reason@,
            exit_code: self.exit_code,
            excerpt: self.excerpt,
        }
    }
}

/// Judges the update phase. The scan has been made when the command exited
/// with success.
pub fn judge_update(
    program: &str,
    timeout_secs: u64,
    end: &PhaseEnd,
    scan: &Option<ScanResult>,
) -> (r: Verdict)
    requires
        exited_ok(*end) ==> scan is Some,
    ensures
        r@ == update_verdict(program@, timeout_secs as int, *end, *scan),
{
    match end {
        PhaseEnd::Failed(error) => {
            let mut reason = "failed to start ".to_owned();
            reason.append(program);
            reason.append(": ");
            reason.append(error.as_str());
            Verdict { status: Status::Failed, reason, exit_code: None, excerpt: false }
        },
        PhaseEnd::Exited(exit) => {
            if !exit.success() {
                let mut reason = "update failed (".to_owned();
                reason.append(describe_exit(exit).as_str());
                reason.append(")");
                return Verdict {
                    status: Status::Failed,
                    reason,
                    exit_code: exit.code,
                    excerpt: true,
                };
            }
            match scan {
                Some(Ok(Some(marker))) => Verdict {
                    status: Status::Failed,
                    reason: marker_message(quote(marker.as_str()).as_str()),
                    exit_code: exit.code,
                    excerpt: true,
                },
                Some(Err(error)) => {
                    let mut reason = "failure-marker scan could not verify the log: ".to_owned();
                    reason.append(error.as_str());
                    Verdict {
                        status: Status::Failed,
                        reason,
                        exit_code: exit.code,
                        excerpt: true,
                    }
                },
                _ => Verdict {
                    status: Status::Succeeded,
                    reason: String::new(),
                    exit_code: exit.code,
                    excerpt: false,
                },
            }
        },
        PhaseEnd::TimedOut => {
            let mut reason = "timed out after ".to_owned();
            push_decimal(&mut reason, timeout_secs);
            reason.append("s (terminated, then killed)");
            Verdict { status: Status::TimedOut, reason, exit_code: None, excerpt: true }
        },
        PhaseEnd::Cancelled => Verdict {
            status: Status::Cancelled,
            reason: "cancelled".to_owned(),
            exit_code: None,
            excerpt: false,
        },
    }
}

/// The text of a log's end, empty when the log cannot be read.
pub open spec fn log_end(read: Option<Vec<u8>>) -> Seq<char> {
    match read {
        Some(bytes) => tail_decoded(tail_bytes(bytes@, EXCERPT_BYTES as int)),
        None => Seq::empty(),
    }
}

/// `reason`, followed by the last meaningful line of the log where there is
/// one.
pub open spec fn with_excerpt(reason: Seq<char>, read: Option<Vec<u8>>) -> Seq<char> {
    let excerpt = excerpt_form(sanitized(log_end(read)));
    if excerpt.len() == 0 {
        reason
    } else {
        reason + ": "@ + excerpt
    }
}

/// Adds the excerpt of a log to the reason of a failure.
pub fn append_excerpt(primary: &mut String, read: &Option<Vec<u8>>)
    ensures
        final(primary)@ == with_excerpt(old(primary)@, *read),
{
    assert(sanitized(Seq::empty()) == Seq::<char>::empty());
    let text = match read {
        Some(bytes) => tail(Some(bytes.as_slice()), EXCERPT_BYTES),
        None => tail(None, EXCERPT_BYTES),
    };
    let excerpt = log_excerpt(text.as_str());
    if !is_blank(excerpt.as_str()) {
        primary.append(": ");
        primary.append(excerpt.as_str());
    }
}

// ---------------------------------------------------------------------------
// The whole job
// ---------------------------------------------------------------------------

/// What has happened in a job so far; a field is empty until its step has
/// been performed.
#[derive(Debug)]
pub struct JobRecord {
    /// How the version probe before the update ended.
    pub before: Option<PhaseEnd>,
    /// The captured output of that probe, or why it cannot be read.
    pub before_output: Option<Result<Vec<u8>, String>>,
    /// Whether the run was cancelled before the update.
    pub cancelled_before: Option<bool>,
    /// How the update ended.
    pub update: Option<PhaseEnd>,
    /// What the failure-marker scan of the log brought.
    pub scan: Option<ScanResult>,
    /// The bytes of the log from the start of its tail on; nothing inside when
    /// it cannot be read.
    pub log_tail: Option<Option<Vec<u8>>>,
    /// Whether the run was cancelled after the update.
    pub cancelled_after: Option<bool>,
    /// How the version probe after the update ended.
    pub after: Option<PhaseEnd>,
    /// The captured output of that probe, or why it cannot be read.
    pub after_output: Option<Result<Vec<u8>, String>>,
}

impl JobRecord {
    /// Nothing has happened yet.
    pub fn new() -> (r: JobRecord)
        ensures
            r == blank_record(),
    {
        JobRecord {
            before: None,
            before_output: None,
            cancelled_before: None,
            update: None,
            scan: None,
            log_tail: None,
            cancelled_after: None,
            after: None,
            after_output: None,
        }
    }
}

/// The record of a job in which nothing has happened.
pub open spec fn blank_record() -> JobRecord {
    JobRecord {
        before: None,
        before_output: None,
        cancelled_before: None,
        update: None,
        scan: None,
        log_tail: None,
        cancelled_after: None,
        after: None,
        after_output: None,
    }
}

/// A step that the caller performs for a job.
#[derive(Clone, Copy, Debug, PartialEq, Eq, Structural)]
pub enum Task {
    ProbeBefore,
    ReadBefore,
    CheckBefore,
    Update,
    ScanLog,
    ReadTail,
    CheckAfter,
    ProbeAfter,
    ReadAfter,
}

/// What comes next in a job.
#[derive(Debug)]
pub enum JobStep {
    Perform(Task),
    /// The job is over.
    Done(Outcome),
}

/// What the probe before the update brought, where the tool has a version
/// command.
pub open spec fn before_probe(tool: ToolSpec, rec: JobRecord) -> Option<Probed> {
    if tool.version is Some && rec.before is Some {
        Some(probed("before"@, rec.before->0, rec.before_output, tool.version_line as int))
    } else {
        None
    }
}

/// What the probe after the update brought, where it was made.
pub open spec fn after_probe(tool: ToolSpec, rec: JobRecord) -> Option<Probed> {
    if tool.version is Some && rec.after is Some {
        Some(probed("after"@, rec.after->0, rec.after_output, tool.version_line as int))
    } else {
        None
    }
}

/// What the update phase of the record means.
pub open spec fn verdict_of(tool: ToolSpec, timeout: TimeSpan, rec: JobRecord) -> VerdictView {
    update_verdict(tool.update.program@, timeout.secs as int, rec.update->0, rec.scan)
}

/// A phase was made, exited with success, and its output has not been looked
/// at.
pub open spec fn unread<T>(end: Option<PhaseEnd>, output: Option<T>) -> bool {
    end is Some && exited_ok(end->0) && output is None
}

/// The job ended before the update.
pub open spec fn ended_early(tool: ToolSpec, rec: JobRecord) -> bool {
    ||| before_probe(tool, rec) == Some(Probed::Cancelled)
    ||| rec.cancelled_before == Some(true)
}

/// The step that a job needs next, nothing once it is over.
pub open spec fn next_task(tool: ToolSpec, timeout: TimeSpan, rec: JobRecord) -> Option<Task> {
    let versioned = tool.version is Some;
    if versioned && rec.before is None {
        Some(Task::ProbeBefore)
    } else if versioned && unread(rec.before, rec.before_output) {
        Some(Task::ReadBefore)
    } else if before_probe(tool, rec) == Some(Probed::Cancelled) {
        None
    } else if rec.cancelled_before is None {
        Some(Task::CheckBefore)
    } else if rec.cancelled_before->0 {
        None
    } else if rec.update is None {
        Some(Task::Update)
    } else if unread(rec.update, rec.scan) {
        Some(Task::ScanLog)
    } else {
        let verdict = verdict_of(tool, timeout, rec);
        if verdict.excerpt {
            if rec.log_tail is None {
                Some(Task::ReadTail)
            } else {
                None
            }
        } else if !(verdict.status is Succeeded) {
            None
        } else if rec.cancelled_after is None {
            Some(Task::CheckAfter)
        } else if rec.cancelled_after->0 || !versioned {
            None
        } else if rec.after is None {
            Some(Task::ProbeAfter)
        } else if unread(rec.after, rec.after_output) {
            Some(Task::ReadAfter)
        } else {
            None
        }
    }
}

/// The note that a probe leaves.
pub open spec fn notes_of(probe: Option<Probed>) -> Seq<Seq<char>> {
    match probe {
        Some(Probed::Note(note)) => seq![note],
        _ => Seq::empty(),
    }
}

/// The version that a probe found.
pub open spec fn version_of(probe: Option<Probed>) -> Seq<char> {
    match probe {
        Some(Probed::Version(v)) => v,
        _ => Seq::empty(),
    }
}

/// An outcome, its message still in parts.
pub struct ResultView {
    pub status: Status,
    pub reason: Seq<char>,
    pub notes: Seq<Seq<char>>,
    pub before: Seq<char>,
    pub after: Seq<char>,
    pub exit_code: Option<i32>,
}

/// The notes of a job whose update succeeded.
pub open spec fn closing_notes(tool: ToolSpec, rec: JobRecord) -> Seq<Seq<char>> {
    let notes = notes_of(before_probe(tool, rec));
    if rec.cancelled_after == Some(true) {
        notes.push("after version skipped (run cancelled)"@)
    } else if after_probe(tool, rec) == Some(Probed::Cancelled) {
        notes.push("after version cancelled"@)
    } else {
        notes + notes_of(after_probe(tool, rec))
    }
}

/// The result of a job that is over.
pub open spec fn job_result(tool: ToolSpec, timeout: TimeSpan, rec: JobRecord) -> ResultView {
    let probe = before_probe(tool, rec);
    let early = ResultView {
        status: Status::Cancelled,
        reason: "cancelled"@,
        notes: notes_of(probe),
        before: version_of(probe),
        after: Seq::empty(),
        exit_code: None,
    };
    let verdict = verdict_of(tool, timeout, rec);
    if ended_early(tool, rec) {
        early
    } else if verdict.status is Succeeded {
        ResultView {
            status: Status::Succeeded,
            reason: Seq::empty(),
            notes: closing_notes(tool, rec),
            after: if rec.cancelled_after == Some(true) {
                Seq::empty()
            } else {
                version_of(after_probe(tool, rec))
            },
            exit_code: verdict.exit_code,
            ..early
        }
    } else {
        ResultView {
            status: verdict.status,
            reason: if verdict.excerpt {
                with_excerpt(verdict.reason, rec.log_tail->0)
            } else {
                verdict.reason
            },
            exit_code: verdict.exit_code,
            ..early
        }
    }
}

/// `outcome` is what the job records for `result`.
pub open spec fn records(outcome: Outcome, result: ResultView) -> bool {
    &&& outcome.status == result.status
    &&& outcome.message@ == outcome_message(result.reason, result.notes)
    &&& outcome.before@ == result.before
    &&& outcome.after@ == result.after
    &&& outcome.exit_code == result.exit_code
}

/// Decides what comes next in a job: a step to perform, or its outcome.
pub fn run_job(tool: &ToolSpec, timeout: TimeSpan, rec: &JobRecord) -> (r: JobStep)
    ensures
        match next_task(*tool, timeout, *rec) {
            Some(task) => r == JobStep::Perform(task),
            None => r matches JobStep::Done(o) && records(o, job_result(*tool, timeout, *rec)),
        },
{
    let mut notes: Vec<String> = Vec::new();
    let mut before = String::new();
    let ghost probe = before_probe(*tool, *rec);
    assert(texts(notes@) =~= Seq::<Seq<char>>::empty());
    let mut stop = false;
    if tool.version.is_some() {
        let end = match &rec.before {
            Some(end) => end,
            None => return JobStep::Perform(Task::ProbeBefore),
        };
        if has_exited_ok(end) && rec.before_output.is_none() {
            return JobStep::Perform(Task::ReadBefore);
        }
        match collect_version("before", end, &rec.before_output, tool.version_line) {
            ProbeResult::Version(version) => before = version,
            ProbeResult::Note(note) => {
                notes.push(note);
                assert(texts(notes@) =~= notes_of(probe));
            },
            ProbeResult::Cancelled => stop = true,
        }
    }
    assert(texts(notes@) =~= notes_of(probe));
    assert(before@ =~= version_of(probe));
    if !stop {
        match rec.cancelled_before {
            None => return JobStep::Perform(Task::CheckBefore),
            Some(cancelled) => stop = cancelled,
        }
    }
    if stop {
        assert(Seq::<char>::empty() =~= ""@) by {
            reveal_strlit("");
        }
        return JobStep::Done(
            outcome(Status::Cancelled, "cancelled", &notes, before.as_str(), "", None),
        );
    }
    let end = match &rec.update {
        Some(end) => end,
        None => return JobStep::Perform(Task::Update),
    };
    if has_exited_ok(end) && rec.scan.is_none() {
        return JobStep::Perform(Task::ScanLog);
    }
    let verdict = judge_update(tool.update.program.as_str(), timeout.secs, end, &rec.scan);
    let mut primary = verdict.reason;
    let mut after = String::new();
    assert(after@ =~= Seq::<char>::empty());
    if verdict.excerpt {
        match &rec.log_tail {
            None => return JobStep::Perform(Task::ReadTail),
            Some(read) => append_excerpt(&mut primary, read),
        }
    } else if verdict.status == Status::Succeeded {
        let ghost head = texts(notes@);
        let cancelled = match rec.cancelled_after {
            None => return JobStep::Perform(Task::CheckAfter),
            Some(cancelled) => cancelled,
        };
        if cancelled {
            notes.push("after version skipped (run cancelled)".to_owned());
            assert(texts(notes@) =~= head.push("after version skipped (run cancelled)"@));
        } else if tool.version.is_some() {
            let end = match &rec.after {
                Some(end) => end,
                None => return JobStep::Perform(Task::ProbeAfter),
            };
            if has_exited_ok(end) && rec.after_output.is_none() {
                return JobStep::Perform(Task::ReadAfter);
            }
            match collect_version("after", end, &rec.after_output, tool.version_line) {
                ProbeResult::Version(version) => after = version,
                ProbeResult::Note(note) => {
                    notes.push(note);
                    assert(texts(notes@) =~= head + seq![note@]);
                },
                ProbeResult::Cancelled => {
                    notes.push("after version cancelled".to_owned());
                    assert(texts(notes@) =~= head.push("after version cancelled"@));
                },
                }
        }
        assert(texts(notes@) =~= closing_notes(*tool, *rec));
    }
    JobStep::Done(
        outcome(
            verdict.status,
            primary.as_str(),
            &notes,
            before.as_str(),
            after.as_str(),
            verdict.exit_code,
        ),
    )
}

// ---------------------------------------------------------------------------
// Laws
// ---------------------------------------------------------------------------

/// A job is reported as succeeded exactly when its update exited with success
/// and a completed scan of its log found no failure marker, as timed out
/// exactly when its update was, and as cancelled exactly when it was cancelled
/// before or during its update; else it failed. What a version probe brings
/// never changes the status.
pub proof fn success_is_verified(tool: ToolSpec, timeout: TimeSpan, rec: JobRecord)
    requires
        next_task(tool, timeout, rec) is None,
    ensures
        job_result(tool, timeout, rec).status is Succeeded <==> {
            &&& !ended_early(tool, rec)
            &&& exited_ok(rec.update->0)
            &&& rec.scan == Some(Ok::<Option<String>, String>(None))
        },
        job_result(tool, timeout, rec).status is TimedOut <==> {
            &&& !ended_early(tool, rec)
            &&& rec.update->0 is TimedOut
        },
        job_result(tool, timeout, rec).status is Cancelled <==> {
            ||| ended_early(tool, rec)
            ||| rec.update->0 is Cancelled
        },
        job_result(tool, timeout, rec).status.terminal(),
{
}

/// The exit code of a job is that of its update command, whatever the status:
/// a job that fails on a marker keeps the code zero.
pub proof fn exit_codes_are_truthful(tool: ToolSpec, timeout: TimeSpan, rec: JobRecord)
    requires
        next_task(tool, timeout, rec) is None,
    ensures
        job_result(tool, timeout, rec).exit_code == (if ended_early(tool, rec) {
            None
        } else {
            match rec.update->0 {
                PhaseEnd::Exited(exit) => exit.code,
                _ => None,
            }
        }),
{
}

/// A job without a version command shows no versions, and a job whose update
/// did not succeed shows none after it.
pub proof fn versions_are_not_made_up(tool: ToolSpec, timeout: TimeSpan, rec: JobRecord)
    requires
        next_task(tool, timeout, rec) is None,
    ensures
        tool.version is None ==> job_result(tool, timeout, rec).before.len() == 0
            && job_result(tool, timeout, rec).after.len() == 0,
        !(job_result(tool, timeout, rec).status is Succeeded) ==> job_result(
            tool,
            timeout,
            rec,
        ).after.len() == 0,
{
}

/// Every job ends: a step that is asked for has not been performed, and what
/// has been performed is never asked for again.
pub proof fn no_step_is_asked_for_twice(tool: ToolSpec, timeout: TimeSpan, rec: JobRecord)
    ensures
        match next_task(tool, timeout, rec) {
            Some(Task::ProbeBefore) => rec.before is None,
            Some(Task::ReadBefore) => rec.before_output is None,
            Some(Task::CheckBefore) => rec.cancelled_before is None,
            Some(Task::Update) => rec.update is None,
            Some(Task::ScanLog) => rec.scan is None,
            Some(Task::ReadTail) => rec.log_tail is None,
            Some(Task::CheckAfter) => rec.cancelled_after is None,
            Some(Task::ProbeAfter) => rec.after is None,
            Some(Task::ReadAfter) => rec.after_output is None,
            None => true,
        },
{
}

/// The update only runs after the run was seen not to be cancelled, and only
/// after the version before it was asked for.
pub proof fn cancelled_jobs_do_not_update(tool: ToolSpec, timeout: TimeSpan, rec: JobRecord)
    requires
        next_task(tool, timeout, rec) == Some(Task::Update),
    ensures
        rec.cancelled_before == Some(false),
        tool.version is Some ==> rec.before is Some && !(rec.before->0 is Cancelled),
{
}

/// A phase is timed by its own start: without an exit and a cancellation it
/// times out exactly when its own timeout has passed since it was started,
/// whenever that was. An exit counts first, then a cancellation.
pub proof fn phases_are_timed_from_their_start(
    exited: Option<Exit>,
    cancelled: bool,
    started: TimeSpan,
    now: TimeSpan,
    timeout: TimeSpan,
)
    requires
        now.nanos < 1_000_000_000,
    ensures
        ({
            let verdict = poll_verdict(exited, cancelled, started, now, timeout);
            let waited = (now.secs - started.secs) * 1_000_000_000 + (now.nanos - started.nanos);
            let limit = timeout.secs * 1_000_000_000 + timeout.nanos;
            &&& exited matches Some(exit) ==> verdict == Some(PhaseEnd::Exited(exit))
            &&& exited is None && cancelled ==> verdict == Some(PhaseEnd::Cancelled)
            &&& exited is None && !cancelled && limit > 0 && waited >= limit ==> verdict == Some(
                PhaseEnd::TimedOut,
            )
            &&& exited is None && !cancelled && waited < limit && limit > 0 ==> verdict is None
            &&& exited is None && !cancelled && limit == 0 ==> verdict == Some(PhaseEnd::TimedOut)
        }),
{
    let d = now.total() - started.total();
    if d > 0 {
        assert(d / 1_000_000_000 * 1_000_000_000 + d % 1_000_000_000 == d);
        assert(d / 1_000_000_000 <= now.secs);
    }
}

/// A poll does not depend on when the program was started: moving the start
/// of the phase and the present by the same time changes nothing.
pub proof fn polls_depend_on_the_time_passed(
    started: TimeSpan,
    now: TimeSpan,
    later_started: TimeSpan,
    later_now: TimeSpan,
    timeout: TimeSpan,
)
    requires
        now.nanos < 1_000_000_000,
        later_now.nanos < 1_000_000_000,
        (now.secs - started.secs) * 1_000_000_000 + (now.nanos - started.nanos) == (later_now.secs
            - later_started.secs) * 1_000_000_000 + (later_now.nanos - later_started.nanos),
    ensures
        poll_verdict(None, false, started, now, timeout) == poll_verdict(
            None,
            false,
            later_started,
            later_now,
            timeout,
        ),
{
}

/// The run was cancelled before the update of this job, or during the version
/// probe in front of it.
pub open spec fn stopped_before_update(tool: ToolSpec, rec: JobRecord) -> bool {
    ||| rec.cancelled_before == Some(true)
    ||| tool.version is Some && rec.before == Some(PhaseEnd::Cancelled)
}

/// What became of the update decides status and exit code, and nothing else
/// does: success takes exit code zero and a scan that was completed and found
/// nothing. The exit code is the command's own, whatever the status.
pub proof fn the_update_decides_the_status(tool: ToolSpec, timeout: TimeSpan, rec: JobRecord)
    requires
        next_task(tool, timeout, rec) is None,
    ensures
        ({
            let r = job_result(tool, timeout, rec);
            if stopped_before_update(tool, rec) {
                r.status is Cancelled && r.exit_code is None
            } else {
                match rec.update {
                    Some(PhaseEnd::Exited(exit)) => {
                        &&& r.exit_code == exit.code
                        &&& r.status is Succeeded <==> exit.code == Some(0i32) && (
                        rec.scan matches Some(Ok(None)))
                        &&& r.status is Failed <==> !(r.status is Succeeded)
                    },
                    Some(PhaseEnd::TimedOut) => r.status is TimedOut && r.exit_code is None,
                    Some(PhaseEnd::Cancelled) => r.status is Cancelled && r.exit_code is None,
                    Some(PhaseEnd::Failed(_)) => r.status is Failed && r.exit_code is None,
                    None => false,
                }
            }
        }),
{
}

/// The version that a probe shows: the configured line of its own output. A
/// probe that did not exit with success shows none.
pub open spec fn line_shown(
    tool: ToolSpec,
    end: Option<PhaseEnd>,
    output: Option<Result<Vec<u8>, String>>,
) -> Seq<char> {
    match (tool.version, end, output) {
        (Some(_), Some(PhaseEnd::Exited(exit)), Some(Ok(bytes))) => {
            let read = if bytes@.len() <= 65536 {
                bytes@
            } else {
                bytes@.take(65536)
            };
            let all = nonblank_lines(utf8_lossy(read));
            if exit.code == Some(0i32) && tool.version_line < all.len() {
                clipped(sanitized(all[tool.version_line as int]), 256)
            } else {
                Seq::empty()
            }
        },
        _ => Seq::empty(),
    }
}

/// Each version is taken from the output of its own probe: the one before the
/// update from the probe before it, the one after from the probe after it. A
/// job that did not succeed, or whose run was cancelled after the update,
/// shows no version after it.
pub proof fn versions_are_those_of_their_own_probe(
    tool: ToolSpec,
    timeout: TimeSpan,
    rec: JobRecord,
)
    requires
        next_task(tool, timeout, rec) is None,
    ensures
        ({
            let r = job_result(tool, timeout, rec);
            &&& r.before == line_shown(tool, rec.before, rec.before_output)
            &&& r.status is Succeeded && rec.cancelled_after == Some(false) ==> r.after
                == line_shown(tool, rec.after, rec.after_output)
            &&& !(r.status is Succeeded) || rec.cancelled_after != Some(false) ==> r.after.len()
                == 0
        }),
{
    if let Some(Ok(bytes)) = rec.before_output {
        assert(Seq::<u8>::empty() + bytes@ =~= bytes@);
        assert(Seq::<u8>::empty() + bytes@.take(65536) =~= bytes@.take(65536));
    }
    if let Some(Ok(bytes)) = rec.after_output {
        assert(Seq::<u8>::empty() + bytes@ =~= bytes@);
        assert(Seq::<u8>::empty() + bytes@.take(65536) =~= bytes@.take(65536));
    }
}

/// The version after the update does not depend on what was printed before
/// it, nor the version before it on what was printed after.
pub proof fn versions_do_not_depend_on_the_other_probe(
    tool: ToolSpec,
    timeout: TimeSpan,
    a: JobRecord,
    b: JobRecord,
)
    requires
        next_task(tool, timeout, a) is None,
        next_task(tool, timeout, b) is None,
    ensures
        ({
            let x = job_result(tool, timeout, a);
            let y = job_result(tool, timeout, b);
            &&& x.status is Succeeded && y.status is Succeeded && a.cancelled_after
                == b.cancelled_after && a.after == b.after && a.after_output == b.after_output
                ==> x.after == y.after
            &&& a.before == b.before && a.before_output == b.before_output ==> x.before == y.before
        }),
{
    versions_are_those_of_their_own_probe(tool, timeout, a);
    versions_are_those_of_their_own_probe(tool, timeout, b);
}

/// The reason of a job that did not succeed says what happened: the error of a
/// command that could not be started, how it exited, the time it was given,
/// the marker that was found, or why the scan failed. What follows it is an
/// excerpt of the log, behind a colon.
pub proof fn reasons_say_what_happened(tool: ToolSpec, timeout: TimeSpan, rec: JobRecord)
    requires
        next_task(tool, timeout, rec) is None,
        !stopped_before_update(tool, rec),
    ensures
        ({
            let reason = job_result(tool, timeout, rec).reason;
            let starts = |head: Seq<char>|
                reason == head || (head + ": "@).is_prefix_of(reason);
            match rec.update {
                Some(PhaseEnd::Failed(error)) => reason == "failed to start "@
                    + tool.update.program@ + ": "@ + error@,
                Some(PhaseEnd::TimedOut) => starts(
                    "timed out after "@ + decimal(timeout.secs as nat)
                        + "s (terminated, then killed)"@,
                ),
                Some(PhaseEnd::Cancelled) => reason == "cancelled"@,
                Some(PhaseEnd::Exited(exit)) => match (exit.code, exit.signal) {
                    (Some(code), _) => if code != 0 {
                        starts("update failed (exit "@ + signed_decimal(code as int) + ")"@)
                    } else {
                        match rec.scan {
                            Some(Ok(None)) => reason.len() == 0,
                            Some(Ok(Some(marker))) => starts(
                                "update matched failure marker "@ + quoted(marker@)
                                    + " despite exit 0"@,
                            ),
                            Some(Err(error)) => starts(
                                "failure-marker scan could not verify the log: "@ + error@,
                            ),
                            None => false,
                        }
                    },
                    (None, Some(sig)) => starts(
                        "update failed (signal "@ + signed_decimal(sig as int) + ")"@,
                    ),
                    (None, None) => starts("update failed (unknown exit)"@),
                },
                None => false,
            }
        }),
{
    let v = verdict_of(tool, timeout, rec);
    let reason = job_result(tool, timeout, rec).reason;
    if v.excerpt {
        let excerpt = excerpt_form(sanitized(log_end(rec.log_tail->0)));
        let head = v.reason + ": "@;
        assert((head + excerpt).take(head.len() as int) =~= head);
    }
    if let Some(PhaseEnd::Exited(exit)) = rec.update {
        reveal_strlit("update failed (");
        reveal_strlit("exit ");
        reveal_strlit("signal ");
        reveal_strlit("unknown exit");
        reveal_strlit(")");
        reveal_strlit("update failed (exit ");
        reveal_strlit("update failed (signal ");
        reveal_strlit("update failed (unknown exit)");
        match (exit.code, exit.signal) {
            (Some(code), _) => {
                let n = signed_decimal(code as int);
                assert("update failed ("@ + ("exit "@ + n) + ")"@ =~= "update failed (exit "@ + n
                    + ")"@);
            },
            (None, Some(sig)) => {
                let n = signed_decimal(sig as int);
                assert("update failed ("@ + ("signal "@ + n) + ")"@ =~= "update failed (signal "@
                    + n + ")"@);
            },
            (None, None) => {
                assert("update failed ("@ + "unknown exit"@ + ")"@
                    =~= "update failed (unknown exit)"@);
            },
        }
    }
}

/// The excerpt behind a reason is the last line of the log's end that is not
/// blank, its white space collapsed, cut to 160 characters; without such a
/// line there is none.
pub proof fn reasons_quote_the_last_line_of_the_log(
    reason: Seq<char>,
    text: Seq<char>,
    read: Option<Vec<u8>>,
)
    requires
        text == sanitized(log_end(read)),
    ensures
        ({
            let all = nonblank_lines(text);
            let line = clipped(collapsed(all.last()), 160);
            all.len() > 0 && line.len() > 0 ==> with_excerpt(reason, read) == reason + ": "@ + line
        }),
        with_excerpt(reason, None) == reason,
{
    let none = sanitized(Seq::<char>::empty());
    assert(none =~= Seq::<char>::empty());
    reveal_with_fuel(lines, 2);
    assert(lines(none).len() == 0);
    assert(lines(none).map_values(|l: Seq<char>| trimmed(l)) =~= Seq::<Seq<char>>::empty());
    assert(nonblank_lines(none) =~= Seq::<Seq<char>>::empty());
    assert(words(Seq::<char>::empty(), false) =~= Seq::<Seq<char>>::empty());
    assert(excerpt_form(none).len() == 0);
}

/// A probe that brings no version leaves a note that says why, under its own
/// label; one that brings a version leaves none.
pub proof fn failed_probes_leave_their_note(
    label: Seq<char>,
    end: PhaseEnd,
    output: Option<Result<Vec<u8>, String>>,
    line: int,
)
    requires
        end matches PhaseEnd::Exited(exit) && exit.code == Some(0i32) ==> output is Some,
        line >= 0,
    ensures
        match end {
            PhaseEnd::Failed(error) => probed(label, end, output, line) == Probed::Note(
                label + " version: "@ + error@,
            ),
            PhaseEnd::TimedOut => probed(label, end, output, line) == Probed::Note(
                label + " version timed out after "@ + "15s"@,
            ),
            PhaseEnd::Cancelled => probed(label, end, output, line) == Probed::Cancelled,
            PhaseEnd::Exited(exit) => match exit.code {
                Some(code) => if code != 0 {
                    probed(label, end, output, line) == Probed::Note(
                        label + " version failed ("@ + ("exit "@ + signed_decimal(code as int))
                            + ")"@,
                    )
                } else {
                    match output {
                        Some(Err(error)) => probed(label, end, output, line) == Probed::Note(
                            label + " version: "@ + ("output unreadable ("@ + error@ + ")"@),
                        ),
                        _ => probed(label, end, output, line) is Version || probed(
                            label,
                            end,
                            output,
                            line,
                        ) == Probed::Note(
                            label + " version: "@ + ("no nonempty output line at index "@ + decimal(
                                line as nat,
                            )),
                        ),
                    }
                },
                None => probed(label, end, output, line) is Note,
            },
        },
{
}

/// The notes of a job come from its probes, the one before the update first;
/// a job that succeeded says why it has no version after the update.
pub proof fn notes_come_from_the_probes(tool: ToolSpec, timeout: TimeSpan, rec: JobRecord)
    requires
        next_task(tool, timeout, rec) is None,
    ensures
        ({
            let r = job_result(tool, timeout, rec);
            let first = if tool.version is None || rec.before is None {
                Seq::<Seq<char>>::empty()
            } else {
                match probed("before"@, rec.before->0, rec.before_output, tool.version_line as int) {
                    Probed::Note(note) => seq![note],
                    _ => Seq::empty(),
                }
            };
            if !(r.status is Succeeded) {
                r.notes == first
            } else if rec.cancelled_after == Some(true) {
                r.notes == first.push("after version skipped (run cancelled)"@)
            } else if tool.version is None {
                r.notes == first
            } else {
                match probed("after"@, rec.after->0, rec.after_output, tool.version_line as int) {
                    Probed::Note(note) => r.notes == first.push(note),
                    Probed::Cancelled => r.notes == first.push("after version cancelled"@),
                    Probed::Version(_) => r.notes == first,
                }
            }
        }),
{
    let r = job_result(tool, timeout, rec);
    let first = notes_of(before_probe(tool, rec));
    assert(first + Seq::<Seq<char>>::empty() =~= first);
    if let Some(Probed::Note(note)) = after_probe(tool, rec) {
        assert(first + seq![note] =~= first.push(note));
    }
}

/// The steps of a job up to its update: the version before it where there is
/// a version command, then a look whether the run was cancelled.
pub proof fn steps_up_to_the_update(tool: ToolSpec, timeout: TimeSpan, rec: JobRecord)
    ensures
        ({
            let next = next_task(tool, timeout, rec);
            let probe = tool.version is Some;
            let unread = rec.before matches Some(PhaseEnd::Exited(exit)) && exit.code == Some(0i32)
                && rec.before_output is None;
            &&& probe && rec.before is None <==> next == Some(Task::ProbeBefore)
            &&& probe && unread <==> next == Some(Task::ReadBefore)
            &&& probe && rec.before == Some(PhaseEnd::Cancelled) ==> next is None
            &&& (!probe || (rec.before is Some && !unread && rec.before != Some(
                PhaseEnd::Cancelled,
            ))) ==> {
                &&& rec.cancelled_before is None <==> next == Some(Task::CheckBefore)
                &&& rec.cancelled_before == Some(true) ==> next is None
                &&& rec.cancelled_before == Some(false) && rec.update is None <==> next == Some(
                    Task::Update,
                )
            }
        }),
{
}

/// The steps of a job from its update on: a command that exited with zero has
/// its log scanned; a failure, a timeout or a marker has the end of the log
/// read; a clean success has its version read again unless the run was
/// cancelled.
pub proof fn steps_from_the_update_on(tool: ToolSpec, timeout: TimeSpan, rec: JobRecord)
    requires
        rec.update is Some,
        rec.cancelled_before == Some(false),
        tool.version is Some ==> rec.before is Some && rec.before != Some(PhaseEnd::Cancelled) && !(
        rec.before matches Some(PhaseEnd::Exited(exit)) && exit.code == Some(0i32)
            && rec.before_output is None),
    ensures
        ({
            let next = next_task(tool, timeout, rec);
            let zero = rec.update matches Some(PhaseEnd::Exited(exit)) && exit.code == Some(0i32);
            let clean = zero && (rec.scan matches Some(Ok(None)));
            let quoting = rec.update == Some(PhaseEnd::TimedOut) || (rec.update matches Some(
                PhaseEnd::Exited(_),
            ) && !zero) || (zero && rec.scan is Some && !clean);
            let unread = rec.after matches Some(PhaseEnd::Exited(exit)) && exit.code == Some(0i32)
                && rec.after_output is None;
            &&& zero && rec.scan is None <==> next == Some(Task::ScanLog)
            &&& quoting && rec.log_tail is None <==> next == Some(Task::ReadTail)
            &&& clean && rec.cancelled_after is None <==> next == Some(Task::CheckAfter)
            &&& clean && rec.cancelled_after == Some(false) && tool.version is Some && rec.after is None
                <==> next == Some(Task::ProbeAfter)
            &&& clean && rec.cancelled_after == Some(false) && tool.version is Some && unread
                <==> next == Some(Task::ReadAfter)
        }),
{
}

/// The outcome of a job records its result, each part in its own place.
pub proof fn outcomes_record_the_result(outcome: Outcome, result: ResultView)
    requires
        records(outcome, result),
    ensures
        outcome.status == result.status,
        outcome.before@ == result.before,
        outcome.after@ == result.after,
        outcome.exit_code == result.exit_code,
        outcome.message@ == outcome_message(result.reason, result.notes),
{
}

/// A log that is not longer than the excerpt looks at is looked at whole, from
/// its first byte on that starts a character; of a longer one the first half
/// kilobyte behind its cut.
pub proof fn excerpts_look_at_the_end_of_the_log(bytes: Vec<u8>)
    requires
        bytes@.len() > 0,
        bytes@[0] < 0x80 || bytes@[0] > 0xbf,
    ensures
        bytes@.len() <= 512 ==> log_end(Some(bytes)) == utf8_lossy(bytes@),
        bytes@.len() > 512 ==> log_end(Some(bytes)) == utf8_lossy(bytes@.take(512)),
        log_end(None).len() == 0,
{
    tails_keep_what_was_read(bytes@, 512);
    tails_keep_what_was_read(tail_bytes(bytes@, 512), 512);
}

/// Nothing has happened in a new job.
pub proof fn new_jobs_start_with_their_first_step(tool: ToolSpec, timeout: TimeSpan)
    ensures
        tool.version is Some ==> next_task(tool, timeout, blank_record()) == Some(
            Task::ProbeBefore,
        ),
        tool.version is None ==> next_task(tool, timeout, blank_record()) == Some(
            Task::CheckBefore,
        ),
{
}

/// What a probe result and a verdict say is what they hold.
pub proof fn results_say_what_they_hold(text: String, verdict: Verdict)
    ensures
        ProbeResult::Version(text)@ == Probed::Version(text@),
        ProbeResult::Note(text)@ == Probed::Note(text@),
        ProbeResult::Cancelled@ == Probed::Cancelled,
        verdict@.status == verdict.status,
        verdict@.reason == verdict.reason@,
        verdict@.exit_code == verdict.exit_code,
        verdict@.excerpt == verdict.excerpt,
{
}

} // verus!
