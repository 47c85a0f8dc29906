//! Plain output: status lines, the catalogue listing, and exit codes.

use vstd::prelude::*;
use vstd::string::*;
use vstd::utf8::*;

use crate::model::{CommandSpec, CommandView, Job, Preflight, PreflightView, RunState, Status};
use crate::model::{ToolSpec, ToolView};
use crate::number::{decimal, push_count, push_decimal};
use crate::text::{chars_of, join, joined, left_aligned, push_left_aligned, spaces, texts};
use crate::text::{joined_parts_stand_in_order, push_spaces, trim, trimmed, trimming_takes_white_ends, white};

verus! {

pub const EX_OK: i32 = 0;

pub const EX_FAILURE: i32 = 1;

pub const EX_USAGE: i32 = 2;

pub const EX_BLOCKED: i32 = 3;

// ---------------------------------------------------------------------------
// Status lines
// ---------------------------------------------------------------------------

/// Longest message shown on one line, in characters.
pub const LINE_CHARS: usize = 300;

pub open spec fn flattened(c: char) -> char {
    if c == '\n' || c == '\r' || c == '\t' {
        ' '
    } else {
        c
    }
}

/// `s` on one line, cut after 300 characters.
pub open spec fn single_line(s: Seq<char>) -> Seq<char> {
    if s.len() <= LINE_CHARS {
        s.map_values(|c: char| flattened(c))
    } else {
        s.take(LINE_CHARS as int).map_values(|c: char| flattened(c)) + "..."@
    }
}

/// Single-line, bounded rendering of a message or a preflight reason.
pub fn one_line(s: &str) -> (r: String)
    ensures
        r@ == single_line(s@),
{
    let v = chars_of(s);
    let n: usize = if v.len() <= LINE_CHARS {
        v.len()
    } else {
        LINE_CHARS
    };
    let mut out = String::new();
    let ghost head = v@.take(n as int).map_values(|c: char| flattened(c));
    for i in 0..n
        invariant
            n <= v@.len(),
            head == v@.take(n as int).map_values(|c: char| flattened(c)),
            out@ == head.take(i as int),
    {
        let c = v[i];
        assert(head.take(i + 1) =~= head.take(i as int).push(flattened(c)));
        if c == '\n' || c == '\r' || c == '\t' {
            out.push(' ');
        } else {
            out.push(c);
        }
    }
    assert(head.take(n as int) =~= head);
    if v.len() > LINE_CHARS {
        out.append("...");
    } else {
        assert(v@.take(n as int) =~= v@);
    }
    out
}

/// The detail of a status line, where there is a message.
pub open spec fn detail_of(message: Seq<char>) -> Seq<char> {
    if trimmed(message).len() == 0 {
        Seq::empty()
    } else {
        " - "@ + single_line(message)
    }
}

/// The detail of a status line, where there is a message.
pub fn detail(job: &Job) -> (r: String)
    ensures
        r@ == detail_of(job.message@),
{
    let chars = chars_of(job.message.as_str());
    if trim(chars.as_slice()).len() == 0 {
        String::new()
    } else {
        let mut s = " - ".to_owned();
        s.append(one_line(job.message.as_str()).as_str());
        s
    }
}

/// The status line of a job.
pub open spec fn transition_of(job: Job) -> Seq<char> {
    let id = job.spec.id@;
    let message = job.message@;
    match job.status {
        Status::Queued => id + ": queued"@,
        Status::Running => id + ": running"@,
        Status::Succeeded => id + ": ok"@ + detail_of(message),
        Status::Failed => id + ": failed"@ + detail_of(message),
        Status::TimedOut => id + ": timed out"@ + detail_of(message),
        Status::Cancelled => id + ": cancelled"@ + detail_of(message),
        Status::Blocked => id + ": blocked - "@ + single_line(message),
        Status::Skipped => id + ": not detected - "@ + single_line(message),
    }
}

/// The status line of a job.
pub fn transition_line(job: &Job) -> (r: String)
    ensures
        r@ == transition_of(*job),
{
    let mut s = job.spec.id.clone();
    match job.status {
        Status::Queued => {
            s.append(": queued");
        },
        Status::Running => {
            s.append(": running");
        },
        Status::Succeeded => {
            s.append(": ok");
            s.append(detail(job).as_str());
        },
        Status::Failed => {
            s.append(": failed");
            s.append(detail(job).as_str());
        },
        Status::TimedOut => {
            s.append(": timed out");
            s.append(detail(job).as_str());
        },
        Status::Cancelled => {
            s.append(": cancelled");
            s.append(detail(job).as_str());
        },
        Status::Blocked => {
            s.append(": blocked - ");
            s.append(one_line(job.message.as_str()).as_str());
        },
        Status::Skipped => {
            s.append(": not detected - ");
            s.append(one_line(job.message.as_str()).as_str());
        },
    }
    s
}

/// The header line of a plain run.
pub open spec fn header_of(count: int, hidden: int, jobs: int, timeout_secs: int) -> Seq<char> {
    "updating "@ + decimal(count as nat) + " agent(s), "@ + (if hidden > 0 {
        decimal(hidden as nat) + " not detected, "@
    } else {
        Seq::empty()
    }) + "jobs="@ + decimal(jobs as nat) + ", timeout="@ + decimal(timeout_secs as nat) + "s"@
}

/// Header line for plain runs; names the not-detected tools when any exist.
pub fn updating_header(count: usize, hidden: usize, jobs: usize, timeout_secs: u64) -> (r: String)
    ensures
        r@ == header_of(count as int, hidden as int, jobs as int, timeout_secs as int),
{
    let mut s = "updating ".to_owned();
    push_count(&mut s, count);
    s.append(" agent(s), ");
    let ghost head = s@;
    if hidden > 0 {
        push_count(&mut s, hidden);
        s.append(" not detected, ");
    }
    assert(s@ =~= head + (if hidden > 0 {
        decimal(hidden as nat) + " not detected, "@
    } else {
        Seq::empty()
    }));
    s.append("jobs=");
    push_count(&mut s, jobs);
    s.append(", timeout=");
    push_decimal(&mut s, timeout_secs);
    s.append("s");
    s
}

/// How many jobs stay out of the list.
pub open spec fn hidden_count(jobs: Seq<Job>, explicit: bool) -> int
    decreases jobs.len(),
{
    if jobs.len() == 0 {
        0
    } else {
        hidden_count(jobs.drop_last(), explicit) + if jobs.last().status.hidden(explicit) {
            1int
        } else {
            0int
        }
    }
}

/// How many jobs stay out of the list.
pub fn count_hidden(jobs: &Vec<Job>, explicit: bool) -> (r: usize)
    ensures
        r == hidden_count(jobs@, explicit),
{
    let mut n: usize = 0;
    for i in 0..jobs.len()
        invariant
            n == hidden_count(jobs@.take(i as int), explicit),
            n <= i,
    {
        assert(jobs@.take(i + 1).drop_last() =~= jobs@.take(i as int));
        if jobs[i].status.hidden_from_list(explicit) {
            n = n + 1;
        }
    }
    assert(jobs@.take(jobs@.len() as int) =~= jobs@);
    n
}

/// The lines for the jobs whose status differs from the last one seen.
pub open spec fn transitions(last: Seq<Status>, jobs: Seq<Job>, explicit: bool) -> Seq<Seq<char>>
    decreases jobs.len(),
{
    if jobs.len() == 0 {
        Seq::empty()
    } else {
        let before = transitions(last, jobs.drop_last(), explicit);
        let job = jobs.last();
        if last[jobs.len() - 1] != job.status && !job.status.hidden(explicit) {
            before.push(transition_of(job))
        } else {
            before
        }
    }
}

/// Compares `jobs` with the statuses last seen, brings those up to date, and
/// returns the lines to print. Not-detected lines are suppressed unless the
/// tools were selected explicitly.
pub fn collect_transitions(last: &mut Vec<Status>, jobs: &Vec<Job>, explicit: bool) -> (r: Vec<
    String,
>)
    requires
        old(last)@.len() >= jobs@.len(),
    ensures
        texts(r@) == transitions(old(last)@, jobs@, explicit),
        final(last)@.len() == old(last)@.len(),
        forall|i: int| 0 <= i < jobs@.len() ==> #[trigger] final(last)@[i] == jobs@[i].status,
        forall|i: int|
            jobs@.len() <= i < old(last)@.len() ==> #[trigger] final(last)@[i] == old(last)@[i],
{
    let mut lines: Vec<String> = Vec::new();
    assert(texts(lines@) =~= Seq::<Seq<char>>::empty());
    for i in 0..jobs.len()
        invariant
            last@.len() == old(last)@.len(),
            last@.len() >= jobs@.len(),
            texts(lines@) == transitions(old(last)@, jobs@.take(i as int), explicit),
            forall|k: int| 0 <= k < i ==> #[trigger] last@[k] == jobs@[k].status,
            forall|k: int| i <= k < last@.len() ==> #[trigger] last@[k] == old(last)@[k],
    {
        assert(jobs@.take(i + 1).drop_last() =~= jobs@.take(i as int));
        let status = jobs[i].status;
        if last[i] != status {
            last[i] = status;
            if !status.hidden_from_list(explicit) {
                let ghost before = texts(lines@);
                lines.push(transition_line(&jobs[i]));
                assert(texts(lines@) =~= before.push(transition_of(jobs@[i as int])));
            }
        }
    }
    assert(jobs@.take(jobs@.len() as int) =~= jobs@);
    lines
}

/// Every change of status is told once: after the lines were collected, a
/// second look at the same jobs brings none.
pub proof fn transitions_are_told_once(last: Seq<Status>, jobs: Seq<Job>, explicit: bool)
    requires
        last.len() >= jobs.len(),
        forall|i: int| 0 <= i < jobs.len() ==> #[trigger] last[i] == jobs[i].status,
    ensures
        transitions(last, jobs, explicit).len() == 0,
    decreases jobs.len(),
{
    if jobs.len() > 0 {
        assert(last[jobs.len() - 1] == jobs[jobs.len() - 1].status);
        transitions_are_told_once(last, jobs.drop_last(), explicit);
    }
}

// ---------------------------------------------------------------------------
// Exit codes
// ---------------------------------------------------------------------------

/// An update failed, timed out or was cancelled.
pub open spec fn is_failure(status: Status) -> bool {
    status is Failed || status is TimedOut || status is Cancelled
}

/// The exit code of a run: failures count most, then blocked tools. Skipped
/// tools do not change it.
pub open spec fn run_code(jobs: Seq<Job>) -> i32 {
    if exists|i: int| 0 <= i < jobs.len() && is_failure((#[trigger] jobs[i]).status) {
        EX_FAILURE
    } else if exists|i: int| 0 <= i < jobs.len() && (#[trigger] jobs[i]).status is Blocked {
        EX_BLOCKED
    } else {
        EX_OK
    }
}

/// The exit code of a run.
pub fn exit_code(state: &RunState) -> (r: i32)
    ensures
        r == run_code(state.jobs@),
{
    let mut failed = false;
    let mut blocked = false;
    for i in 0..state.jobs.len()
        invariant
            failed <==> exists|k: int|
                0 <= k < i && is_failure((#[trigger] state.jobs@[k]).status),
            blocked <==> exists|k: int|
                0 <= k < i && (#[trigger] state.jobs@[k]).status is Blocked,
    {
        assert(state.jobs@[i as int] == state.jobs@[i as int]);
        match state.jobs[i].status {
            Status::Failed | Status::TimedOut | Status::Cancelled => failed = true,
            Status::Blocked => blocked = true,
            _ => {},
        }
    }
    if failed {
        EX_FAILURE
    } else if blocked {
        EX_BLOCKED
    } else {
        EX_OK
    }
}

/// The exit code of a run once the engine has ended: an engine error is a
/// failure.
pub fn finish_code(state: &RunState, engine_failed: bool) -> (r: i32)
    ensures
        r == (if engine_failed {
            EX_FAILURE
        } else {
            run_code(state.jobs@)
        }),
{
    if engine_failed {
        EX_FAILURE
    } else {
        exit_code(state)
    }
}

/// The exit code of a run whose terminal display failed: never success.
pub fn broken_display_code(state: &RunState) -> (r: i32)
    ensures
        r == (if run_code(state.jobs@) > EX_FAILURE {
            run_code(state.jobs@)
        } else {
            EX_FAILURE
        }),
{
    let code: i32 = exit_code(state);
    if code > EX_FAILURE {
        code
    } else {
        EX_FAILURE
    }
}

/// A run exits with zero exactly when every job is queued, running, succeeded
/// or skipped; once it is settled that means: succeeded or not detected.
pub proof fn success_means_nothing_failed_or_blocked(jobs: Seq<Job>)
    ensures
        run_code(jobs) == EX_OK <==> forall|i: int|
            0 <= i < jobs.len() ==> !is_failure((#[trigger] jobs[i]).status) && !(
            jobs[i].status is Blocked),
{
    if exists|i: int| 0 <= i < jobs.len() && is_failure((#[trigger] jobs[i]).status) {
        let i = choose|i: int| 0 <= i < jobs.len() && is_failure((#[trigger] jobs[i]).status);
        assert(is_failure(jobs[i].status));
    } else if exists|i: int| 0 <= i < jobs.len() && (#[trigger] jobs[i]).status is Blocked {
        let i = choose|i: int| 0 <= i < jobs.len() && (#[trigger] jobs[i]).status is Blocked;
        assert(jobs[i].status is Blocked);
    }
}

// ---------------------------------------------------------------------------
// The catalogue listing
// ---------------------------------------------------------------------------

/// The width of the id column: that of the longest id in bytes.
pub open spec fn column_width(specs: Seq<ToolSpec>) -> int
    decreases specs.len(),
{
    if specs.len() == 0 {
        0
    } else {
        let rest = column_width(specs.drop_last());
        let n = encode_utf8(specs.last().id@).len() as int;
        if n > rest {
            n
        } else {
            rest
        }
    }
}

fn id_column(specs: &Vec<ToolSpec>) -> (r: usize)
    ensures
        r == column_width(specs@),
{
    let mut n: usize = 0;
    for i in 0..specs.len()
        invariant
            n == column_width(specs@.take(i as int)),
    {
        assert(specs@.take(i + 1).drop_last() =~= specs@.take(i as int));
        let len: usize = specs[i].id.as_str().as_bytes().len();
        if len > n {
            n = len;
        }
    }
    assert(specs@.take(specs@.len() as int) =~= specs@);
    n
}

/// A command with its arguments.
pub open spec fn command_line(cmd: CommandView) -> Seq<char> {
    cmd.program + " "@ + joined(cmd.args, " "@)
}

fn push_command(out: &mut String, cmd: &CommandSpec)
    ensures
        final(out)@ == old(out)@ + command_line(cmd@),
{
    let ghost before = out@;
    out.append(cmd.program.as_str());
    out.append(" ");
    out.append(join(&cmd.args, " ").as_str());
    assert(out@ =~= before + command_line(cmd@));
}

/// The failure markers, each in quotes.
pub open spec fn quoted_markers(markers: Seq<Seq<char>>) -> Seq<char> {
    joined(markers.map_values(|m: Seq<char>| "\""@ + m + "\""@), ", "@)
}

fn quote_markers(markers: &Vec<String>) -> (r: String)
    ensures
        r@ == quoted_markers(texts(markers@)),
{
    let mut list: Vec<String> = Vec::new();
    let ghost all = texts(markers@).map_values(|m: Seq<char>| "\""@ + m + "\""@);
    assert(texts(list@) =~= Seq::<Seq<char>>::empty());
    for i in 0..markers.len()
        invariant
            all == texts(markers@).map_values(|m: Seq<char>| "\""@ + m + "\""@),
            texts(list@) == all.take(i as int),
    {
        let mut m = "\"".to_owned();
        m.append(markers[i].as_str());
        m.append("\"");
        let ghost before = texts(list@);
        assert(all[i as int] == m@);
        list.push(m);
        assert(texts(list@) =~= before.push(all[i as int]));
        assert(all.take(i + 1) =~= all.take(i as int).push(all[i as int]));
    }
    assert(all.take(markers@.len() as int) =~= all);
    join(&list, ", ")
}

pub open spec fn state_of(preflight: PreflightView) -> Seq<char> {
    match preflight {
        PreflightView::Ready => "ready"@,
        PreflightView::Skipped(reason) => "not detected - "@ + single_line(reason),
        PreflightView::Blocked(reason) => "blocked - "@ + single_line(reason),
    }
}

fn state_text(preflight: &Preflight) -> (r: String)
    ensures
        r@ == state_of(preflight@),
{
    match preflight {
        Preflight::Ready => "ready".to_owned(),
        Preflight::Skipped(reason) => {
            let mut s = "not detected - ".to_owned();
            s.append(one_line(reason.as_str()).as_str());
            s
        },
        Preflight::Blocked(reason) => {
            let mut s = "blocked - ".to_owned();
            s.append(one_line(reason.as_str()).as_str());
            s
        },
    }
}

/// The version line of a listing entry.
pub open spec fn version_entry(tool: ToolView) -> Seq<char> {
    match tool.version {
        Some(v) => command_line(v) + " (line "@ + decimal(tool.version_line as nat) + ")"@,
        None => "(not reported)"@,
    }
}

/// The listing entry of a tool.
pub open spec fn catalogue_entry(tool: ToolView, width: int) -> Seq<char> {
    let pad = spaces(width);
    left_aligned(tool.id, width) + "  "@ + tool.label + "\n"@ + pad + "  update : "@
        + command_line(tool.update) + "\n"@ + pad + "  version: "@ + version_entry(tool) + "\n"@
        + pad + "  resource: "@ + tool.resource + "\n"@ + (if tool.failure_contains.len() > 0 {
        pad + "  failure markers: "@ + quoted_markers(tool.failure_contains) + "\n"@
    } else {
        Seq::empty()
    }) + pad + "  state  : "@ + state_of(tool.preflight) + "\n"@ + "\n"@
}

fn push_entry(out: &mut String, tool: &ToolSpec, width: usize)
    ensures
        final(out)@ == old(out)@ + catalogue_entry(tool@, width as int),
{
    let ghost before = out@;
    let ghost pad = spaces(width as int);
    let mut s = String::new();
    push_left_aligned(&mut s, tool.id.as_str(), width);
    assert(s@ =~= left_aligned(tool.id@, width as int));
    s.append("  ");
    s.append(tool.label.as_str());
    s.append("\n");
    push_spaces(&mut s, width);
    s.append("  update : ");
    push_command(&mut s, &tool.update);
    s.append("\n");
    push_spaces(&mut s, width);
    s.append("  version: ");
    let ghost part = s@;
    match &tool.version {
        Some(v) => {
            push_command(&mut s, v);
            s.append(" (line ");
            push_count(&mut s, tool.version_line);
            s.append(")");
        },
        None => {
            s.append("(not reported)");
        },
    }
    assert(s@ =~= part + version_entry(tool@));
    s.append("\n");
    push_spaces(&mut s, width);
    s.append("  resource: ");
    s.append(tool.resource.as_str());
    s.append("\n");
    let ghost rest = s@;
    if tool.failure_contains.len() > 0 {
        push_spaces(&mut s, width);
        s.append("  failure markers: ");
        s.append(quote_markers(&tool.failure_contains).as_str());
        s.append("\n");
    }
    assert(texts(tool.failure_contains@).len() == tool.failure_contains@.len());
    assert(s@ =~= rest + (if tool@.failure_contains.len() > 0 {
        pad + "  failure markers: "@ + quoted_markers(tool@.failure_contains) + "\n"@
    } else {
        Seq::empty()
    }));
    push_spaces(&mut s, width);
    s.append("  state  : ");
    s.append(state_text(&tool.preflight).as_str());
    s.append("\n");
    s.append("\n");
    out.append(s.as_str());
}

/// The listing entries of `specs`.
pub open spec fn catalogue_entries(specs: Seq<ToolSpec>, width: int) -> Seq<char>
    decreases specs.len(),
{
    if specs.len() == 0 {
        Seq::empty()
    } else {
        catalogue_entries(specs.drop_last(), width) + catalogue_entry(specs.last()@, width)
    }
}

/// The width of the id column, five without any tool.
pub open spec fn listing_width(specs: Seq<ToolSpec>) -> int {
    if specs.len() == 0 {
        5
    } else {
        column_width(specs)
    }
}

/// The head of the listing.
pub open spec fn catalogue_head(count: int, source: Seq<char>) -> Seq<char> {
    "update-agents 0.1.0 - "@ + decimal(count as nat) + " agent(s)\n"@ + source + "\n"@ + "\n"@
}

/// Safe catalogue view: exact commands, nothing executed, no made-up state.
pub fn catalogue_text(specs: &Vec<ToolSpec>, source: &str) -> (r: String)
    ensures
        r@ == catalogue_head(specs@.len() as int, source@) + catalogue_entries(
            specs@,
            listing_width(specs@),
        ),
{
    let mut out = "update-agents 0.1.0 - ".to_owned();
    push_count(&mut out, specs.len());
    out.append(" agent(s)\n");
    out.append(source);
    out.append("\n");
    out.append("\n");
    let ghost head = out@;
    let width: usize = if specs.len() == 0 {
        5
    } else {
        id_column(specs)
    };
    assert(head + Seq::<char>::empty() =~= head);
    for i in 0..specs.len()
        invariant
            width == listing_width(specs@),
            out@ == head + catalogue_entries(specs@.take(i as int), width as int),
    {
        assert(specs@.take(i + 1).drop_last() =~= specs@.take(i as int));
        push_entry(&mut out, &specs[i], width);
        assert(out@ =~= head + catalogue_entries(specs@.take(i + 1), width as int));
    }
    assert(specs@.take(specs@.len() as int) =~= specs@);
    out
}

// ---------------------------------------------------------------------------
// Laws
// ---------------------------------------------------------------------------

/// A run in which an update failed, timed out or was cancelled exits with one;
/// else one with a blocked tool with three; else with zero.
pub proof fn exit_codes_tell_how_the_run_ended(jobs: Seq<Job>)
    ensures
        ({
            let bad = exists|i: int|
                0 <= i < jobs.len() && ((#[trigger] jobs[i]).status is Failed
                    || jobs[i].status is TimedOut || jobs[i].status is Cancelled);
            let blocked = exists|i: int|
                0 <= i < jobs.len() && (#[trigger] jobs[i]).status is Blocked;
            &&& bad <==> run_code(jobs) == 1
            &&& !bad && blocked <==> run_code(jobs) == 3
            &&& !bad && !blocked <==> run_code(jobs) == 0
        }),
{
    if exists|i: int| 0 <= i < jobs.len() && is_failure((#[trigger] jobs[i]).status) {
        let i = choose|i: int| 0 <= i < jobs.len() && is_failure((#[trigger] jobs[i]).status);
        assert(jobs[i].status is Failed || jobs[i].status is TimedOut
            || jobs[i].status is Cancelled);
    }
    if exists|i: int|
        0 <= i < jobs.len() && ((#[trigger] jobs[i]).status is Failed || jobs[i].status is TimedOut
            || jobs[i].status is Cancelled) {
        let i = choose|i: int|
            0 <= i < jobs.len() && ((#[trigger] jobs[i]).status is Failed
                || jobs[i].status is TimedOut || jobs[i].status is Cancelled);
        assert(is_failure(jobs[i].status));
    }
}

/// One line of text is the text, with spaces for its line breaks and tabs, cut
/// with an ellipsis behind its first three hundred characters.
pub proof fn single_lines_hold_the_text(s: Seq<char>)
    ensures
        s.len() <= 300 ==> single_line(s).len() == s.len(),
        s.len() > 300 ==> single_line(s).len() == 303 && single_line(s).skip(300) == seq![
            '.',
            '.',
            '.',
        ],
        forall|i: int|
            0 <= i < s.len() && i < 300 ==> #[trigger] single_line(s)[i] == if s[i] == '\n' || s[i]
                == '\r' || s[i] == '\t' {
                ' '
            } else {
                s[i]
            },
{
    reveal_strlit("...");
    if s.len() > 300 {
        assert(single_line(s).skip(300) =~= seq!['.', '.', '.']);
    }
}

/// The status line of a job tells its id, its status in words, and its message
/// where it has one.
pub proof fn status_lines_tell_id_status_and_message(job: Job)
    ensures
        ({
            let id = job.spec.id@;
            let told = if exists|i: int|
                0 <= i < job.message@.len() && !white(#[trigger] job.message@[i]) {
                " - "@ + single_line(job.message@)
            } else {
                Seq::empty()
            };
            &&& job.status is Queued ==> transition_of(job) == id + ": queued"@
            &&& job.status is Running ==> transition_of(job) == id + ": running"@
            &&& job.status is Succeeded ==> transition_of(job) == id + ": ok"@ + told
            &&& job.status is Failed ==> transition_of(job) == id + ": failed"@ + told
            &&& job.status is TimedOut ==> transition_of(job) == id + ": timed out"@ + told
            &&& job.status is Cancelled ==> transition_of(job) == id + ": cancelled"@ + told
            &&& job.status is Blocked ==> transition_of(job) == id + ": blocked - "@ + single_line(
                job.message@,
            )
            &&& job.status is Skipped ==> transition_of(job) == id + ": not detected - "@
                + single_line(job.message@)
        }),
{
    let m = job.message@;
    trimming_takes_white_ends(m);
    let (i, j) = choose|i: int, j: int|
        0 <= i <= j <= m.len() && trimmed(m) == #[trigger] m.subrange(i, j) && (forall|k: int|
            0 <= k < i || j <= k < m.len() ==> white(#[trigger] m[k]));
    if trimmed(m).len() > 0 {
        assert(trimmed(m)[0] == m[i]);
        assert(!white(m[i]));
    }
}

/// A job is told exactly when its status changed and it is not left out of
/// lists; the lines stand in the order of the jobs.
pub proof fn changes_of_status_are_told(last: Seq<Status>, jobs: Seq<Job>, job: Job, explicit: bool)
    requires
        last.len() > jobs.len(),
    ensures
        transitions(last, Seq::empty(), explicit).len() == 0,
        transitions(last, jobs.push(job), explicit) == if last[jobs.len() as int] == job.status || (
        job.status is Skipped && !explicit) {
            transitions(last, jobs, explicit)
        } else {
            transitions(last, jobs, explicit).push(transition_of(job))
        },
{
    assert(jobs.push(job).drop_last() =~= jobs);
}

/// The number of tools left out is that of the tools not detected, none when
/// they were asked for.
pub proof fn left_out_tools_are_those_not_detected(jobs: Seq<Job>, explicit: bool)
    ensures
        explicit ==> hidden_count(jobs, explicit) == 0,
        !explicit ==> hidden_count(jobs, explicit) == jobs.filter(
            |j: Job| j.status is Skipped,
        ).len(),
    decreases jobs.len(),
{
    reveal(Seq::filter);
    if jobs.len() > 0 {
        left_out_tools_are_those_not_detected(jobs.drop_last(), explicit);
    }
}

/// The header tells the number of tools, of those left out where there are
/// any, of jobs, and the time limit.
pub proof fn headers_tell_the_numbers(count: nat, hidden: nat, jobs: nat, timeout_secs: nat)
    ensures
        hidden == 0 ==> header_of(
            count as int,
            hidden as int,
            jobs as int,
            timeout_secs as int,
        ) == "updating "@ + decimal(count) + " agent(s), jobs="@ + decimal(jobs) + ", timeout="@
            + decimal(timeout_secs) + "s"@,
        hidden > 0 ==> header_of(
            count as int,
            hidden as int,
            jobs as int,
            timeout_secs as int,
        ) == "updating "@ + decimal(count) + " agent(s), "@ + decimal(hidden)
            + " not detected, jobs="@ + decimal(jobs) + ", timeout="@ + decimal(timeout_secs)
            + "s"@,
{
    reveal_strlit(" agent(s), ");
    reveal_strlit("jobs=");
    reveal_strlit(" agent(s), jobs=");
    reveal_strlit(" not detected, ");
    reveal_strlit(" not detected, jobs=");
    assert(" agent(s), jobs="@ =~= " agent(s), "@ + "jobs="@);
    assert(" not detected, jobs="@ =~= " not detected, "@ + "jobs="@);
    let h = header_of(count as int, hidden as int, jobs as int, timeout_secs as int);
    if hidden == 0 {
        assert(h =~= "updating "@ + decimal(count) + " agent(s), jobs="@ + decimal(jobs)
            + ", timeout="@ + decimal(timeout_secs) + "s"@);
    } else {
        assert(h =~= "updating "@ + decimal(count) + " agent(s), "@ + decimal(hidden)
            + " not detected, jobs="@ + decimal(jobs) + ", timeout="@ + decimal(timeout_secs)
            + "s"@);
    }
}

/// The listing entry of a ready tool that reports no version and has no
/// failure markers: its id, label, command and resource as they are.
pub proof fn listings_show_the_exact_commands(tool: ToolView, width: int)
    requires
        tool.preflight is Ready,
        tool.version is None,
        tool.failure_contains.len() == 0,
        tool.id.len() <= width,
    ensures
        ({
            let pad = left_aligned(Seq::empty(), width);
            catalogue_entry(tool, width) == left_aligned(tool.id, width) + "  "@ + tool.label
                + "\n"@ + pad + "  update : "@ + tool.update.program + " "@ + joined(
                tool.update.args,
                " "@,
            ) + "\n"@ + pad + "  version: (not reported)\n"@ + pad + "  resource: "@ + tool.resource
                + "\n"@ + pad + "  state  : ready\n\n"@
        }),
{
    reveal_strlit("\n");
    reveal_strlit("  version: ");
    reveal_strlit("(not reported)");
    reveal_strlit("  version: (not reported)\n");
    reveal_strlit("  state  : ");
    reveal_strlit("ready");
    reveal_strlit("  state  : ready\n\n");
    let pad = left_aligned(Seq::<char>::empty(), width);
    assert(pad =~= spaces(width));
    assert("  version: (not reported)\n"@ =~= "  version: "@ + "(not reported)"@ + "\n"@);
    assert("  state  : ready\n\n"@ =~= "  state  : "@ + "ready"@ + "\n"@ + "\n"@);
    assert(catalogue_entry(tool, width) =~= left_aligned(tool.id, width) + "  "@ + tool.label
        + "\n"@ + pad + "  update : "@ + tool.update.program + " "@ + joined(
        tool.update.args,
        " "@,
    ) + "\n"@ + pad + "  version: (not reported)\n"@ + pad + "  resource: "@ + tool.resource
        + "\n"@ + pad + "  state  : ready\n\n"@);
}

/// Entries stand one below the other, in the order of the tools, with an id
/// column as wide as the longest id.
pub proof fn entries_stand_in_order(specs: Seq<ToolSpec>, tool: ToolSpec, width: int, i: int)
    requires
        0 <= i < specs.len(),
    ensures
        catalogue_entries(specs.push(tool), width) == catalogue_entries(specs, width)
            + catalogue_entry(tool@, width),
        encode_utf8(specs[i].id@).len() <= listing_width(specs),
        exists|k: int|
            0 <= k < specs.len() && encode_utf8((#[trigger] specs[k]).id@).len() == listing_width(
                specs,
            ),
{
    assert(specs.push(tool).drop_last() =~= specs);
    lemma_column_width(specs);
}

proof fn lemma_column_width(specs: Seq<ToolSpec>)
    ensures
        column_width(specs) >= 0,
        forall|i: int|
            0 <= i < specs.len() ==> encode_utf8((#[trigger] specs[i]).id@).len() <= column_width(
                specs,
            ),
        specs.len() > 0 ==> exists|k: int|
            0 <= k < specs.len() && encode_utf8((#[trigger] specs[k]).id@).len() == column_width(
                specs,
            ),
    decreases specs.len(),
{
    if specs.len() > 0 {
        let rest = specs.drop_last();
        lemma_column_width(rest);
        assert forall|i: int| 0 <= i < specs.len() implies encode_utf8(
            (#[trigger] specs[i]).id@,
        ).len() <= column_width(specs) by {
            if i < rest.len() {
                assert(specs[i] == rest[i]);
            }
        }
        if rest.len() > 0 && encode_utf8(specs.last().id@).len() <= column_width(rest) {
            let k = choose|k: int|
                0 <= k < rest.len() && encode_utf8((#[trigger] rest[k]).id@).len() == column_width(
                    rest,
                );
            assert(specs[k] == rest[k]);
        } else {
            assert(specs[specs.len() - 1] == specs.last());
        }
    }
}

/// The listing starts with the number of tools and where they come from; a
/// command is shown with its arguments, markers in quotes, and why a tool
/// would not run.
pub proof fn listings_tell_commands_and_states(
    cmd: CommandView,
    marker: Seq<char>,
    reason: Seq<char>,
    count: nat,
    source: Seq<char>,
    line: usize,
    tool: ToolView,
)
    requires
        tool.version == Some(cmd),
        tool.version_line == line,
    ensures
        catalogue_head(count as int, source) == "update-agents 0.1.0 - "@ + decimal(count)
            + " agent(s)\n"@ + source + "\n"@ + "\n"@,
        command_line(cmd) == cmd.program + " "@ + joined(cmd.args, " "@),
        quoted_markers(seq![marker]) == seq!['"'] + marker + seq!['"'],
        state_of(PreflightView::Ready) == "ready"@,
        state_of(PreflightView::Skipped(reason)) == "not detected - "@ + single_line(reason),
        state_of(PreflightView::Blocked(reason)) == "blocked - "@ + single_line(reason),
        version_entry(tool) == cmd.program + " "@ + joined(cmd.args, " "@) + " (line "@ + decimal(
            line as nat,
        ) + ")"@,
{
    reveal_strlit("\"");
    assert("\""@ =~= seq!['"']);
    let f = |m: Seq<char>| "\""@ + m + "\""@;
    let q = seq!['"'] + marker + seq!['"'];
    assert(seq![marker].map_values(f) =~= seq![q]);
    joined_parts_stand_in_order(Seq::empty(), q, ", "@);
}

} // verus!
