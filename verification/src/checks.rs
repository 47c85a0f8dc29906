//! Read-only safety checks: a clean worktree, and no live process that an
//! update would disturb. Any inability to establish safety blocks the tool.

use vstd::prelude::*;
use vstd::slice::*;
use vstd::string::*;
use vstd::utf8::*;

use crate::bytes::{
    append_capped, byte_texts, decode_lossy, decode_strict, filled, nonempty, pieces,
    pieces_stand_between_separators, split_nonempty, utf8_lossy, PathBytes,
};
use crate::number::{
    decimal, decimal_reads_back, is_digit, lemma_decimal_digits, parse_unsigned, push_decimal,
    push_signed, signed_decimal, unsigned_value,
};
use crate::text::{
    capped, chars_of, contains, control, copy_capped, infix, is_blank, is_control, join, joined,
    joined_parts_stand_in_order, joined_parts_start_with_the_first, leading_word, lines,
    split_lines, text_of, texts, trim, trim_start, trimmed, trimmed_start,
    trimmed_end, white, word_len,
};

verus! {

/// Longest fragment of command output quoted inside a reason, in characters.
pub const REASON_CAP: usize = 240;

/// Wall-clock bound for a command that a check runs, in seconds.
pub const CHECK_TIMEOUT_SECS: u64 = 10;

/// Cadence at which such a command is polled, in milliseconds.
pub const CHECK_POLL_MS: u64 = 10;

/// How much is kept of what the worktree check prints, in bytes.
pub const GIT_STDOUT_CAP: usize = 65536;

pub const GIT_STDERR_CAP: usize = 4096;

/// How much is kept of what the process listing prints as an error, in bytes.
pub const PS_STDERR_CAP: usize = 65536;

// ---------------------------------------------------------------------------
// Output in reasons
// ---------------------------------------------------------------------------

pub open spec fn line_break(c: char) -> bool {
    c == '\n' || c == '\r'
}

/// The first line of `s`, control characters shown as spaces.
pub open spec fn line_head(s: Seq<char>) -> Seq<char>
    decreases s.len(),
{
    if s.len() == 0 || line_break(s[0]) {
        Seq::empty()
    } else {
        seq![
            if control(s[0]) {
                ' '
            } else {
                s[0]
            },
        ] + line_head(s.skip(1))
    }
}

/// The first line of `s` that is not empty.
pub open spec fn first_line(s: Seq<char>) -> Seq<char>
    decreases s.len(),
{
    if s.len() > 0 && line_break(s[0]) {
        first_line(s.skip(1))
    } else {
        line_head(s)
    }
}

/// First line of output, control-free and bounded.
pub open spec fn one_line_form(s: Seq<char>) -> Seq<char> {
    capped(trimmed(first_line(s)), REASON_CAP as int)
}

/// First line of decoded output, control-free and bounded.
pub fn one_line_of(text: &str) -> (r: String)
    ensures
        r@ == one_line_form(text@),
{
    let v = chars_of(text);
    let mut i: usize = 0;
    assert(v@.skip(0) =~= v@);
    while i < v.len() && (v[i] == '\n' || v[i] == '\r')
        invariant
            i <= v@.len(),
            v@ == text@,
            first_line(text@) == first_line(v@.skip(i as int)),
        decreases v@.len() - i,
    {
        assert(v@.skip(i as int).skip(1) =~= v@.skip(i + 1));
        i = i + 1;
    }
    let mut line = String::new();
    assert(line@ + line_head(v@.skip(i as int)) =~= line_head(v@.skip(i as int)));
    while i < v.len() && !(v[i] == '\n' || v[i] == '\r')
        invariant
            i <= v@.len(),
            v@ == text@,
            first_line(text@) == line@ + line_head(v@.skip(i as int)),
        decreases v@.len() - i,
    {
        let c = v[i];
        let ghost before = line@;
        if is_control(c) {
            line.push(' ');
        } else {
            line.push(c);
        }
        proof {
            assert(v@.skip(i as int).skip(1) =~= v@.skip(i + 1));
            let shown = if control(c) {
                ' '
            } else {
                c
            };
            let more = line_head(v@.skip(i + 1));
            assert(before + (seq![shown] + more) =~= line@ + more);
        }
        i = i + 1;
    }
    assert(line@ + Seq::<char>::empty() =~= line@);
    let shown = chars_of(line.as_str());
    copy_capped(text_of(trim(shown.as_slice())).as_str(), REASON_CAP)
}

/// First line of raw output, for reasons shown to the user.
pub fn one_line(bytes: &[u8]) -> (r: String)
    ensures
        r@ == one_line_form(utf8_lossy(bytes@)),
{
    one_line_of(decode_lossy(bytes).as_str())
}

pub open spec fn exit_words(code: Option<i32>) -> Seq<char> {
    match code {
        Some(code) => "exit status "@ + signed_decimal(code as int),
        None => "a signal"@,
    }
}

/// The words for how a command of a check ended.
pub fn exit_text(code: Option<i32>) -> (r: String)
    ensures
        r@ == exit_words(code),
{
    match code {
        Some(code) => {
            let mut s = "exit status ".to_owned();
            push_signed(&mut s, code);
            s
        },
        None => "a signal".to_owned(),
    }
}

// ---------------------------------------------------------------------------
// Commands that checks run
// ---------------------------------------------------------------------------

/// What the reader of an output stream brought.
#[derive(Debug)]
pub enum PipeRead {
    Bytes(Vec<u8>),
    Failed(String),
    /// The reader itself was lost.
    Lost,
}

/// Why a stream could not be read.
pub open spec fn pipe_reason(read: PipeRead, what: Seq<char>) -> Seq<char> {
    match read {
        PipeRead::Failed(e) => "cannot read "@ + what + ": "@ + e@,
        _ => what + " reader failed"@,
    }
}

/// The bytes of an output stream, or why they could not be read.
pub fn join_bytes<'a>(read: &'a PipeRead, what: &str) -> (r: Result<&'a Vec<u8>, String>)
    ensures
        match *read {
            PipeRead::Bytes(b) => r matches Ok(bytes) && *bytes == b,
            _ => r matches Err(e) && e@ == pipe_reason(*read, what@),
        },
{
    match read {
        PipeRead::Bytes(bytes) => Ok(bytes),
        PipeRead::Failed(e) => {
            let mut s = "cannot read ".to_owned();
            s.append(what);
            s.append(": ");
            s.append(e.as_str());
            Err(s)
        },
        PipeRead::Lost => {
            let mut s = what.to_owned();
            s.append(" reader failed");
            Err(s)
        },
    }
}

/// How a command of a check ended.
#[derive(Debug)]
pub enum CaptureEnd {
    /// It could not be started.
    NotStarted(String),
    Exited(Option<i32>),
    TimedOut,
    WaitFailed(String),
}

/// What a command of a check left behind.
#[derive(Debug)]
pub struct Capture {
    pub end: CaptureEnd,
    pub out: PipeRead,
    pub err: PipeRead,
}

/// How the texts of a check name the command it runs.
pub struct Wording {
    /// Name of the check, in front of every reason.
    pub check: Seq<char>,
    /// The command, as in "cannot run git".
    pub program: Seq<char>,
    /// The action, as in "git status timed out".
    pub action: Seq<char>,
}

/// The bytes kept of a stream.
pub open spec fn stream(read: PipeRead, cap: int) -> Seq<u8> {
    filled(Seq::empty(), read->Bytes_0@, cap)
}

/// The detail that a failed command printed on its error stream, empty when
/// there is none.
pub open spec fn error_detail(err: PipeRead, cap: int) -> Seq<char> {
    if err is Bytes {
        one_line_form(utf8_lossy(stream(err, cap)))
    } else {
        Seq::empty()
    }
}

/// Why a command of a check did not do its work, nothing when it did.
pub open spec fn capture_failure(c: Capture, w: Wording, err_cap: int) -> Option<Seq<char>> {
    let head = w.check + ": "@;
    if c.end is NotStarted {
        Some(head + "cannot run "@ + w.program + ": "@ + c.end->NotStarted_0@)
    } else if !(c.out is Bytes) {
        Some(head + pipe_reason(c.out, w.action + " output"@))
    } else {
        match c.end {
            CaptureEnd::TimedOut => Some(head + (w.action + " timed out"@)),
            CaptureEnd::WaitFailed(e) => Some(
                head + ("cannot wait for "@ + w.program + ": "@ + e@),
            ),
            CaptureEnd::Exited(code) => if code == Some(0i32) {
                None
            } else {
                let failed = head + w.action + " failed with "@ + exit_words(code);
                let detail = error_detail(c.err, err_cap);
                Some(
                    if detail.len() == 0 {
                        failed
                    } else {
                        failed + ": "@ + detail
                    },
                )
            },
            CaptureEnd::NotStarted(_) => None,
        }
    }
}

/// Reads what a command of a check left behind: its output, or the reason why
/// it did not do its work.
fn read_capture<'a>(
    c: &'a Capture,
    check: &str,
    program: &str,
    action: &str,
    err_cap: usize,
) -> (r: Result<&'a Vec<u8>, String>)
    ensures
        ({
            let w = Wording { check: check@, program: program@, action: action@ };
            match capture_failure(*c, w, err_cap as int) {
                Some(reason) => r matches Err(e) && e@ == reason,
                None => r matches Ok(out) && c.out == PipeRead::Bytes(*out),
            }
        }),
{
    let mut s = check.to_owned();
    s.append(": ");
    if let CaptureEnd::NotStarted(e) = &c.end {
        s.append("cannot run ");
        s.append(program);
        s.append(": ");
        s.append(e.as_str());
        return Err(s);
    }
    let mut what = action.to_owned();
    what.append(" output");
    let bytes = match join_bytes(&c.out, what.as_str()) {
        Ok(bytes) => bytes,
        Err(reason) => {
            s.append(reason.as_str());
            return Err(s);
        },
    };
    match &c.end {
        CaptureEnd::NotStarted(_) => Ok(bytes),
        CaptureEnd::TimedOut => {
            let mut t = action.to_owned();
            t.append(" timed out");
            s.append(t.as_str());
            Err(s)
        },
        CaptureEnd::WaitFailed(e) => {
            let mut t = "cannot wait for ".to_owned();
            t.append(program);
            t.append(": ");
            t.append(e.as_str());
            s.append(t.as_str());
            Err(s)
        },
        CaptureEnd::Exited(code) => {
            if let Some(n) = *code {
                if n == 0 {
                    return Ok(bytes);
                }
            }
            s.append(action);
            s.append(" failed with ");
            s.append(exit_text(*code).as_str());
            if let PipeRead::Bytes(b) = &c.err {
                let mut err: Vec<u8> = Vec::new();
                append_capped(&mut err, b.as_slice(), err_cap);
                let detail = one_line(err.as_slice());
                if !is_blank(detail.as_str()) {
                    s.append(": ");
                    s.append(detail.as_str());
                }
            }
            Err(s)
        },
    }
}

// ---------------------------------------------------------------------------
// Clean worktree
// ---------------------------------------------------------------------------

/// What there is to know about a worktree.
#[derive(Debug)]
pub enum GitFacts {
    /// The worktree is not a directory.
    NoDirectory,
    /// No git executable was found.
    NoGit,
    /// The status command ran, or failed to.
    Status(Capture),
}

pub open spec fn git_wording() -> Wording {
    Wording { check: "git_clean"@, program: "git"@, action: "git status"@ }
}

/// Why the worktree at `path` is not known to be clean, nothing when it is.
pub open spec fn git_reason(path: Seq<u8>, facts: GitFacts) -> Option<Seq<char>> {
    match facts {
        GitFacts::NoDirectory => Some(
            "git_clean: "@ + utf8_lossy(path) + " does not exist or is not a directory"@,
        ),
        GitFacts::NoGit => Some("git_clean: git executable not found"@),
        GitFacts::Status(c) => match capture_failure(c, git_wording(), GIT_STDERR_CAP as int) {
            Some(reason) => Some(reason),
            None => {
                let out = stream(c.out, GIT_STDOUT_CAP as int);
                if out.len() == 0 {
                    None
                } else {
                    Some(
                        "git_clean: "@ + utf8_lossy(path) + " has uncommitted changes ("@
                            + one_line_form(utf8_lossy(out)) + ")"@,
                    )
                }
            },
        },
    }
}

/// The status of the worktree must be established and empty, untracked files
/// counted. Returns why the tool is blocked.
pub fn check_git_clean(path: &PathBytes, facts: &GitFacts) -> (r: Option<String>)
    ensures
        match git_reason(path@, *facts) {
            Some(reason) => r matches Some(s) && s@ == reason,
            None => r is None,
        },
{
    match facts {
        GitFacts::NoDirectory => {
            let mut s = "git_clean: ".to_owned();
            s.append(path.display().as_str());
            s.append(" does not exist or is not a directory");
            Some(s)
        },
        GitFacts::NoGit => Some("git_clean: git executable not found".to_owned()),
        GitFacts::Status(c) => {
            match read_capture(c, "git_clean", "git", "git status", GIT_STDERR_CAP) {
                Err(reason) => Some(reason),
                Ok(bytes) => {
                    let mut out: Vec<u8> = Vec::new();
                    append_capped(&mut out, bytes.as_slice(), GIT_STDOUT_CAP);
                    if out.len() == 0 {
                        return None;
                    }
                    let mut s = "git_clean: ".to_owned();
                    s.append(path.display().as_str());
                    s.append(" has uncommitted changes (");
                    s.append(one_line(out.as_slice()).as_str());
                    s.append(")");
                    Some(s)
                },
            }
        },
    }
}

// ---------------------------------------------------------------------------
// No live process
// ---------------------------------------------------------------------------

/// `line` contains every one of `patterns`.
pub open spec fn matches_all(line: Seq<char>, patterns: Seq<Seq<char>>) -> bool {
    forall|k: int| 0 <= k < patterns.len() ==> infix(#[trigger] patterns[k], line)
}

fn has_all(line: &str, patterns: &Vec<String>) -> (r: bool)
    ensures
        r == matches_all(line@, texts(patterns@)),
{
    let hay = chars_of(line);
    for i in 0..patterns.len()
        invariant
            hay@ == line@,
            forall|k: int| 0 <= k < i ==> infix(#[trigger] texts(patterns@)[k], line@),
    {
        let needle = chars_of(patterns[i].as_str());
        assert(texts(patterns@)[i as int] == needle@);
        if !contains(hay.as_slice(), needle.as_slice()) {
            return false;
        }
    }
    true
}

/// The reason for a live process: it names the process and the configured
/// patterns, never the command line, whose arguments may be private.
pub open spec fn live_reason(pid: int, patterns: Seq<Seq<char>>) -> Seq<char> {
    "process_absent: live process "@ + decimal(pid as nat) + " matches ["@ + joined(
        patterns,
        ", "@,
    ) + "]"@
}

fn live_text(pid: u64, patterns: &Vec<String>) -> (r: String)
    ensures
        r@ == live_reason(pid as int, texts(patterns@)),
{
    let mut s = "process_absent: live process ".to_owned();
    push_decimal(&mut s, pid);
    s.append(" matches [");
    s.append(join(patterns, ", ").as_str());
    s.append("]");
    s
}

/// The fields of a process listing line: process id, user id, and the rest,
/// each where the line has it.
pub struct PsFields {
    pub pid: Option<nat>,
    pub uid: Option<nat>,
    pub cmdline: Option<Seq<char>>,
}

pub open spec fn u32_value(s: Seq<char>) -> Option<nat> {
    unsigned_value(s, u32::MAX as nat)
}

/// The fields of a process listing line. They are separated by padding: runs
/// of white space. The command line is all that follows the user id.
pub open spec fn ps_fields(line: Seq<char>) -> PsFields {
    let s = trimmed_start(line);
    let a = word_len(s, false);
    let rest = trimmed_start(s.skip(a));
    let b = word_len(rest, false);
    PsFields {
        pid: u32_value(s.take(a)),
        uid: u32_value(rest.take(b)),
        cmdline: if b < rest.len() {
            Some(trimmed_start(rest.skip(b)))
        } else {
            None
        },
    }
}

/// Why a process listing line blocks the tool: it is a process of the user
/// whose command line is missing or matches every pattern.
pub open spec fn ps_line_reason(
    line: Seq<char>,
    own_uid: u32,
    patterns: Seq<Seq<char>>,
) -> Option<Seq<char>> {
    let f = ps_fields(line);
    if f.pid is None || f.uid != Some(own_uid as nat) {
        None
    } else {
        match f.cmdline {
            None => Some(
                "process_absent: cannot read command line of own process "@ + decimal(f.pid->0),
            ),
            Some(cmdline) => if cmdline.len() > 0 && matches_all(cmdline, patterns) {
                Some(live_reason(f.pid->0 as int, patterns))
            } else {
                None
            },
        }
    }
}

fn check_ps_line(line: &str, own_uid: u32, patterns: &Vec<String>) -> (r: Option<String>)
    ensures
        match ps_line_reason(line@, own_uid, texts(patterns@)) {
            Some(reason) => r matches Some(s) && s@ == reason,
            None => r is None,
        },
{
    let chars = chars_of(line);
    let s = trim_start(chars.as_slice());
    let a: usize = leading_word(s);
    let pid_text = slice_subrange(s, 0, a);
    assert(pid_text@ =~= s@.take(a as int));
    let pid: u64 = match parse_unsigned(pid_text, u32::MAX as u64) {
        Some(pid) => pid,
        None => return None,
    };
    let behind_pid = slice_subrange(s, a, s.len());
    assert(behind_pid@ =~= s@.skip(a as int));
    let rest = trim_start(behind_pid);
    let b: usize = leading_word(rest);
    let uid_text = slice_subrange(rest, 0, b);
    assert(uid_text@ =~= rest@.take(b as int));
    let uid: u64 = match parse_unsigned(uid_text, u32::MAX as u64) {
        Some(uid) => uid,
        None => return None,
    };
    if uid != own_uid as u64 {
        return None;
    }
    if b >= rest.len() {
        let mut e = "process_absent: cannot read command line of own process ".to_owned();
        push_decimal(&mut e, pid);
        return Some(e);
    }
    let behind_uid = slice_subrange(rest, b, rest.len());
    assert(behind_uid@ =~= rest@.skip(b as int));
    let cmdline = trim_start(behind_uid);
    if cmdline.len() > 0 && has_all(text_of(cmdline).as_str(), patterns) {
        return Some(live_text(pid, patterns));
    }
    None
}

/// The reason of the first listing line that blocks the tool.
pub open spec fn ps_reason(
    listing: Seq<Seq<char>>,
    own_uid: u32,
    patterns: Seq<Seq<char>>,
) -> Option<Seq<char>>
    decreases listing.len(),
{
    if listing.len() == 0 {
        None
    } else {
        match ps_line_reason(listing[0], own_uid, patterns) {
            Some(reason) => Some(reason),
            None => ps_reason(listing.skip(1), own_uid, patterns),
        }
    }
}

/// Looks through a process listing for a process of the user that matches
/// every pattern. Lines without two numeric fields are not process lines.
pub fn check_listing(text: &str, own_uid: u32, patterns: &Vec<String>) -> (r: Option<String>)
    ensures
        match ps_reason(lines(text@), own_uid, texts(patterns@)) {
            Some(reason) => r matches Some(s) && s@ == reason,
            None => r is None,
        },
{
    let all = split_lines(chars_of(text).as_slice());
    let ghost list = lines(text@);
    assert(list.skip(0) =~= list);
    for i in 0..all.len()
        invariant
            texts(all@) == list,
            list == lines(text@),
            ps_reason(list, own_uid, texts(patterns@)) == ps_reason(
                list.skip(i as int),
                own_uid,
                texts(patterns@),
            ),
    {
        assert(list.skip(i as int)[0] == all@[i as int]@);
        assert(list.skip(i as int).skip(1) =~= list.skip(i + 1));
        if let Some(reason) = check_ps_line(all[i].as_str(), own_uid, patterns) {
            return Some(reason);
        }
    }
    assert(texts(all@).len() == all@.len());
    None
}

pub open spec fn ps_wording() -> Wording {
    Wording { check: "process_absent"@, program: "ps"@, action: "ps"@ }
}

/// The process check over a process listing, which is looked through as a
/// whole: failures to start, watch or read the listing command block the tool.
pub fn check_process_absent_ps(c: &Capture, own_uid: u32, patterns: &Vec<String>) -> (r: Option<
    String,
>)
    ensures
        match capture_failure(*c, ps_wording(), PS_STDERR_CAP as int) {
            Some(reason) => r matches Some(s) && s@ == reason,
            None => match ps_reason(
                lines(utf8_lossy(c.out->Bytes_0@)),
                own_uid,
                texts(patterns@),
            ) {
                Some(reason) => r matches Some(s) && s@ == reason,
                None => r is None,
            },
        },
{
    match read_capture(c, "process_absent", "ps", "ps", PS_STDERR_CAP) {
        Err(reason) => Some(reason),
        Ok(out) => check_listing(decode_lossy(out.as_slice()).as_str(), own_uid, patterns),
    }
}

/// What reading a command line brought.
#[derive(Debug)]
pub enum CmdlineRead {
    Bytes(Vec<u8>),
    /// The process has exited meanwhile.
    Gone,
    Failed(String),
}

/// One entry of the process table.
#[derive(Debug)]
pub struct ProcEntry {
    pub name: Vec<u8>,
    /// The owner, where it can be told.
    pub uid: Option<u32>,
    /// The command line, looked at for the user's own processes only.
    pub cmdline: CmdlineRead,
}

/// The arguments of a command line, joined by spaces.
pub open spec fn cmdline_form(bytes: Seq<u8>) -> Seq<char> {
    let args = nonempty(pieces(bytes, 0));
    joined(args.map_values(|a: Seq<u8>| utf8_lossy(a)), " "@)
}

/// A command line holds its arguments separated by zero bytes; they are
/// joined by spaces, so that a configured literal matches within a single
/// argument.
pub fn cmdline_text(bytes: &[u8]) -> (r: String)
    ensures
        r@ == cmdline_form(bytes@),
{
    let parts = split_nonempty(bytes, 0);
    let mut args: Vec<String> = Vec::new();
    let ghost all = byte_texts(parts@).map_values(|a: Seq<u8>| utf8_lossy(a));
    for i in 0..parts.len()
        invariant
            all == byte_texts(parts@).map_values(|a: Seq<u8>| utf8_lossy(a)),
            texts(args@) == all.take(i as int),
    {
        let ghost before = texts(args@);
        args.push(decode_lossy(parts[i].as_slice()));
        assert(all[i as int] == utf8_lossy(parts@[i as int]@));
        assert(texts(args@) =~= before.push(all[i as int]));
        assert(all.take(i + 1) =~= all.take(i as int).push(all[i as int]));
    }
    assert(all.take(parts@.len() as int) =~= all);
    join(&args, " ")
}

/// The process id that names an entry of the process table.
pub open spec fn entry_pid(name: Seq<u8>) -> Option<nat> {
    if valid_utf8(name) {
        u32_value(decode_utf8(name))
    } else {
        None
    }
}

/// Why an entry of the process table blocks the tool.
pub open spec fn entry_reason(
    entry: ProcEntry,
    own_uid: u32,
    patterns: Seq<Seq<char>>,
) -> Option<Seq<char>> {
    let pid = entry_pid(entry.name@);
    if pid is None || entry.uid != Some(own_uid) {
        None
    } else {
        match entry.cmdline {
            CmdlineRead::Gone => None,
            CmdlineRead::Failed(e) => Some(
                "process_absent: cannot read cmdline of own process "@ + decimal(pid->0) + ": "@
                    + e@,
            ),
            CmdlineRead::Bytes(bytes) => {
                let line = cmdline_form(bytes@);
                if line.len() > 0 && matches_all(line, patterns) {
                    Some(live_reason(pid->0 as int, patterns))
                } else {
                    None
                }
            },
        }
    }
}

/// The process id that names an entry of the process table.
pub fn pid_of(name: &[u8]) -> (r: Option<u32>)
    ensures
        r is Some <==> entry_pid(name@) is Some,
        r matches Some(pid) ==> entry_pid(name@) == Some(pid as nat),
{
    match decode_strict(name) {
        None => None,
        Some(text) => {
            match parse_unsigned(chars_of(text.as_str()).as_slice(), u32::MAX as u64) {
                Some(n) => Some(n as u32),
                None => None,
            }
        },
    }
}

fn check_entry(entry: &ProcEntry, own_uid: u32, patterns: &Vec<String>) -> (r: Option<String>)
    ensures
        match entry_reason(*entry, own_uid, texts(patterns@)) {
            Some(reason) => r matches Some(s) && s@ == reason,
            None => r is None,
        },
{
    let pid: u32 = match pid_of(entry.name.as_slice()) {
        Some(pid) => pid,
        None => return None,
    };
    let uid: u32 = match entry.uid {
        Some(uid) => uid,
        None => return None,
    };
    if uid != own_uid {
        return None;
    }
    match &entry.cmdline {
        CmdlineRead::Gone => None,
        CmdlineRead::Failed(e) => {
            let mut s = "process_absent: cannot read cmdline of own process ".to_owned();
            push_decimal(&mut s, pid as u64);
            s.append(": ");
            s.append(e.as_str());
            Some(s)
        },
        CmdlineRead::Bytes(bytes) => {
            let line = cmdline_text(bytes.as_slice());
            if !is_blank(line.as_str()) && has_all(line.as_str(), patterns) {
                Some(live_text(pid as u64, patterns))
            } else {
                None
            }
        },
    }
}

/// The reason of the first entry that blocks the tool.
pub open spec fn entries_reason(
    entries: Seq<ProcEntry>,
    own_uid: u32,
    patterns: Seq<Seq<char>>,
) -> Option<Seq<char>>
    decreases entries.len(),
{
    if entries.len() == 0 {
        None
    } else {
        match entry_reason(entries[0], own_uid, patterns) {
            Some(reason) => Some(reason),
            None => entries_reason(entries.skip(1), own_uid, patterns),
        }
    }
}

/// What there is to know about the process table, or why there is nothing.
#[derive(Debug)]
pub struct ProcTable {
    pub own_uid: Result<u32, String>,
    pub entries: Result<Vec<ProcEntry>, String>,
}

/// Why the process table blocks the tool, nothing when it does not.
pub open spec fn table_reason(table: ProcTable, patterns: Seq<Seq<char>>) -> Option<Seq<char>> {
    match (table.own_uid, table.entries) {
        (Err(e), _) => Some("process_absent: cannot identify own user: "@ + e@),
        (_, Err(e)) => Some("process_absent: cannot inspect /proc: "@ + e@),
        (Ok(own_uid), Ok(entries)) => entries_reason(entries@, own_uid, patterns),
    }
}

/// The process check over the process table: a process of the user whose
/// command line contains every pattern blocks the tool, and so does a failure
/// to look.
pub fn check_process_absent(table: &ProcTable, patterns: &Vec<String>) -> (r: Option<String>)
    ensures
        match table_reason(*table, texts(patterns@)) {
            Some(reason) => r matches Some(s) && s@ == reason,
            None => r is None,
        },
{
    let own_uid: u32 = match &table.own_uid {
        Ok(uid) => *uid,
        Err(e) => {
            let mut s = "process_absent: cannot identify own user: ".to_owned();
            s.append(e.as_str());
            return Some(s);
        },
    };
    let entries = match &table.entries {
        Ok(entries) => entries,
        Err(e) => {
            let mut s = "process_absent: cannot inspect /proc: ".to_owned();
            s.append(e.as_str());
            return Some(s);
        },
    };
    assert(entries@.skip(0) =~= entries@);
    for i in 0..entries.len()
        invariant
            table.entries == Ok::<Vec<ProcEntry>, String>(*entries),
            table.own_uid == Ok::<u32, String>(own_uid),
            entries_reason(entries@, own_uid, texts(patterns@)) == entries_reason(
                entries@.skip(i as int),
                own_uid,
                texts(patterns@),
            ),
    {
        assert(entries@.skip(i as int).skip(1) =~= entries@.skip(i + 1));
        if let Some(reason) = check_entry(&entries[i], own_uid, patterns) {
            return Some(reason);
        }
    }
    None
}

// ---------------------------------------------------------------------------
// Laws
// ---------------------------------------------------------------------------

/// No entry blocks the tool exactly when none of them does by itself.
proof fn lemma_no_entry_blocks(entries: Seq<ProcEntry>, own_uid: u32, patterns: Seq<Seq<char>>)
    ensures
        entries_reason(entries, own_uid, patterns) is None <==> forall|i: int|
            0 <= i < entries.len() ==> entry_reason(#[trigger] entries[i], own_uid, patterns) is None,
    decreases entries.len(),
{
    if entries.len() > 0 {
        lemma_no_entry_blocks(entries.skip(1), own_uid, patterns);
        let rest = entries.skip(1);
        if entry_reason(entries[0], own_uid, patterns) is None {
            if entries_reason(rest, own_uid, patterns) is None {
                assert forall|i: int| 0 <= i < entries.len() implies entry_reason(
                    #[trigger] entries[i],
                    own_uid,
                    patterns,
                ) is None by {
                    if i > 0 {
                        assert(entries[i] == rest[i - 1]);
                    }
                }
            } else {
                let j = choose|j: int|
                    0 <= j < rest.len() && !(entry_reason(
                        #[trigger] rest[j],
                        own_uid,
                        patterns,
                    ) is None);
                assert(entries[j + 1] == rest[j]);
            }
        }
    }
}

/// The process check passes exactly when the user and the process table could
/// be told, the command line of every process of the user that still exists
/// could be read, and none of them is nonempty and contains every pattern,
/// however long it is.
pub proof fn passing_means_no_live_match(table: ProcTable, patterns: Seq<Seq<char>>)
    ensures
        table_reason(table, patterns) is None <==> {
            &&& table.own_uid is Ok
            &&& table.entries is Ok
            &&& forall|i: int|
                0 <= i < table.entries->Ok_0@.len() ==> {
                    let e = #[trigger] table.entries->Ok_0@[i];
                    entry_pid(e.name@) is Some && e.uid == Some(table.own_uid->Ok_0) ==> {
                        ||| e.cmdline is Gone
                        ||| e.cmdline is Bytes && {
                            let line = cmdline_form(e.cmdline->Bytes_0@);
                            line.len() == 0 || !matches_all(line, patterns)
                        }
                    }
                }
        },
{
    if table.own_uid is Ok && table.entries is Ok {
        let entries = table.entries->Ok_0@;
        let own_uid = table.own_uid->Ok_0;
        lemma_no_entry_blocks(entries, own_uid, patterns);
        if table_reason(table, patterns) is Some {
            let i = choose|i: int|
                0 <= i < entries.len() && !(entry_reason(
                    #[trigger] entries[i],
                    own_uid,
                    patterns,
                ) is None);
            assert(entry_reason(entries[i], own_uid, patterns) is Some);
        }
    }
}

/// A process listing passes exactly when each of its lines does.
pub proof fn listings_pass_line_by_line(
    listing: Seq<Seq<char>>,
    own_uid: u32,
    patterns: Seq<Seq<char>>,
)
    ensures
        ps_reason(listing, own_uid, patterns) is None <==> forall|i: int|
            0 <= i < listing.len() ==> ps_line_reason(
                #[trigger] listing[i],
                own_uid,
                patterns,
            ) is None,
    decreases listing.len(),
{
    if listing.len() > 0 {
        let rest = listing.skip(1);
        listings_pass_line_by_line(rest, own_uid, patterns);
        if ps_line_reason(listing[0], own_uid, patterns) is None {
            if ps_reason(rest, own_uid, patterns) is None {
                assert forall|i: int| 0 <= i < listing.len() implies ps_line_reason(
                    #[trigger] listing[i],
                    own_uid,
                    patterns,
                ) is None by {
                    if i > 0 {
                        assert(listing[i] == rest[i - 1]);
                    }
                }
            } else {
                let j = choose|j: int|
                    0 <= j < rest.len() && !(ps_line_reason(
                        #[trigger] rest[j],
                        own_uid,
                        patterns,
                    ) is None);
                assert(listing[j + 1] == rest[j]);
            }
        }
    }
}

/// The worktree check passes only on a directory whose status command exited
/// with zero and printed nothing.
pub proof fn passing_means_clean_status(path: Seq<u8>, facts: GitFacts)
    requires
        git_reason(path, facts) is None,
    ensures
        facts matches GitFacts::Status(c) && {
            &&& c.end == CaptureEnd::Exited(Some(0i32))
            &&& c.out matches PipeRead::Bytes(out) && out@.len() == 0
        },
{
}

/// A reason never depends on the command line it was given for, beyond
/// whether that matches: arguments can hold private launch details.
pub proof fn reasons_do_not_show_command_lines(
    a: ProcEntry,
    b: ProcEntry,
    own_uid: u32,
    patterns: Seq<Seq<char>>,
)
    requires
        a.name@ == b.name@,
        a.cmdline is Bytes,
        b.cmdline is Bytes,
        entry_reason(a, own_uid, patterns) is Some,
        entry_reason(b, own_uid, patterns) is Some,
    ensures
        entry_reason(a, own_uid, patterns) == entry_reason(b, own_uid, patterns),
{
}

/// A command of a check did its work exactly when it exited with zero and its
/// output could be read.
pub proof fn commands_succeed_with_zero_only(c: Capture, w: Wording, err_cap: int)
    ensures
        capture_failure(c, w, err_cap) is None <==> (c.end matches CaptureEnd::Exited(code) && code
            == Some(0i32)) && c.out is Bytes,
        c.end matches CaptureEnd::NotStarted(e) ==> capture_failure(c, w, err_cap) == Some(
            w.check + ": "@ + "cannot run "@ + w.program + ": "@ + e@,
        ),
        c.end is TimedOut && c.out is Bytes ==> capture_failure(c, w, err_cap) == Some(
            w.check + ": "@ + (w.action + " timed out"@),
        ),
        c.end matches CaptureEnd::Exited(code) ==> c.out is Bytes && code != Some(0i32)
            && c.err is Lost ==> capture_failure(c, w, err_cap) == Some(
            w.check + ": "@ + w.action + " failed with "@ + match code {
                Some(n) => "exit status "@ + signed_decimal(n as int),
                None => "a signal"@,
            },
        ),
{
}

/// The worktree check passes exactly when the status command exited with zero
/// and printed nothing; what it prints first is quoted in the reason.
pub proof fn clean_worktrees_pass(path: Seq<u8>, facts: GitFacts)
    ensures
        git_reason(path, facts) is None <==> (facts matches GitFacts::Status(c) && c.end
            == CaptureEnd::Exited(Some(0i32)) && (c.out matches PipeRead::Bytes(out) && out@.len()
            == 0)),
        facts matches GitFacts::Status(c) ==> (c.end == CaptureEnd::Exited(Some(0i32)) && (c.out
            matches PipeRead::Bytes(out) && 0 < out@.len() <= 65_536) ==> git_reason(path, facts)
            == Some(
            "git_clean: "@ + utf8_lossy(path) + " has uncommitted changes ("@ + one_line_form(
                utf8_lossy(c.out->Bytes_0@),
            ) + ")"@,
        )),
        facts is NoDirectory ==> git_reason(path, facts) == Some(
            "git_clean: "@ + utf8_lossy(path) + " does not exist or is not a directory"@,
        ),
        facts is NoGit ==> git_reason(path, facts) == Some("git_clean: git executable not found"@),
{
    if let GitFacts::Status(c) = facts {
        if let PipeRead::Bytes(out) = c.out {
            assert(Seq::<u8>::empty() + out@ =~= out@);
        }
    }
}

/// What is quoted of an output is its first line that is not empty, as it was
/// printed where that is plain text, and no more than two hundred and forty
/// characters of it.
pub proof fn the_first_line_is_quoted(line: Seq<char>, rest: Seq<char>)
    requires
        line.len() > 0,
        !white(line[0]),
        !white(line.last()),
        forall|i: int|
            0 <= i < line.len() ==> (' ' <= #[trigger] line[i] && line[i] <= '~') || line[i]
                > '\u{9f}',
        rest.len() > 0 ==> rest[0] == '\n' || rest[0] == '\r',
    ensures
        one_line_form(line + rest) == if line.len() <= 240 {
            line
        } else {
            line.take(240)
        },
        one_line_form(seq!['\n'] + (line + rest)) == one_line_form(line + rest),
        one_line_form(Seq::empty()).len() == 0,
{
    lemma_line_head(line, rest);
    let s = line + rest;
    assert(s[0] == line[0]);
    assert((seq!['\n'] + s).skip(1) =~= s);
    assert(trimmed_start(line) == line && trimmed_end(line) == line);
}

proof fn lemma_line_head(line: Seq<char>, rest: Seq<char>)
    requires
        forall|i: int|
            0 <= i < line.len() ==> (' ' <= #[trigger] line[i] && line[i] <= '~') || line[i]
                > '\u{9f}',
        rest.len() > 0 ==> rest[0] == '\n' || rest[0] == '\r',
    ensures
        line_head(line + rest) == line,
    decreases line.len(),
{
    let s = line + rest;
    if line.len() == 0 {
        assert(s =~= rest);
        assert(line =~= Seq::<char>::empty());
    } else {
        let tail = line.skip(1);
        assert forall|i: int| 0 <= i < tail.len() implies (' ' <= #[trigger] tail[i] && tail[i]
            <= '~') || tail[i] > '\u{9f}' by {
            assert(tail[i] == line[i + 1]);
        }
        lemma_line_head(tail, rest);
        assert(s.skip(1) =~= tail + rest);
        assert(s[0] == line[0]);
        assert(seq![line[0]] + tail =~= line);
    }
}

/// A line of the process listing is read field by field, whatever padding
/// stands in front: the process, its user, and all of its command line.
pub proof fn listing_lines_are_read_field_by_field(pid: nat, uid: nat, cmdline: Seq<char>)
    requires
        pid <= u32::MAX,
        uid <= u32::MAX,
        cmdline.len() > 0,
        !white(cmdline[0]),
    ensures
        ({
            let f = ps_fields(
                seq![' '] + (decimal(pid) + (seq![' '] + (decimal(uid) + (seq![' '] + cmdline)))),
            );
            f.pid == Some(pid) && f.uid == Some(uid) && f.cmdline == Some(cmdline)
        }),
        ({
            let f = ps_fields(decimal(pid) + (seq![' '] + decimal(uid)));
            f.pid == Some(pid) && f.uid == Some(uid) && f.cmdline is None
        }),
{
    let p = decimal(pid);
    let u = decimal(uid);
    let none = Seq::<char>::empty();
    decimal_reads_back(pid, u32::MAX as nat);
    decimal_reads_back(uid, u32::MAX as nat);
    let end = seq![' '] + cmdline;
    let rest = u + end;
    let body = p + (seq![' '] + rest);
    lemma_number_in_front(pid, seq![' '] + rest);
    lemma_number_in_front(uid, end);
    lemma_space_in_front(body);
    lemma_space_in_front(rest);
    lemma_space_in_front(cmdline);
    assert(trimmed_start(cmdline) == cmdline);
    let bare = p + (seq![' '] + u);
    lemma_number_in_front(pid, seq![' '] + u);
    lemma_number_in_front(uid, none);
    assert(u + none =~= u);
    lemma_space_in_front(u);
}

proof fn lemma_space_in_front(s: Seq<char>)
    ensures
        trimmed_start(seq![' '] + s) == trimmed_start(s),
{
    assert((seq![' '] + s).skip(1) =~= s);
}

proof fn lemma_number_in_front(n: nat, tail: Seq<char>)
    requires
        tail.len() == 0 || tail[0] == ' ',
    ensures
        ({
            let s = decimal(n) + tail;
            &&& trimmed_start(s) == s
            &&& word_len(s, false) == decimal(n).len()
            &&& s.take(decimal(n).len() as int) == decimal(n)
            &&& s.skip(decimal(n).len() as int) == tail
        }),
{
    let d = decimal(n);
    let s = d + tail;
    lemma_decimal_digits(n);
    assert(is_digit(d[0]));
    assert(s[0] == d[0]);
    lemma_digits_end(d, tail);
    assert(s.take(d.len() as int) =~= d);
    assert(s.skip(d.len() as int) =~= tail);
}

proof fn lemma_digits_end(digits: Seq<char>, tail: Seq<char>)
    requires
        forall|i: int| 0 <= i < digits.len() ==> is_digit(#[trigger] digits[i]),
        tail.len() == 0 || tail[0] == ' ',
    ensures
        word_len(digits + tail, false) == digits.len(),
    decreases digits.len(),
{
    let s = digits + tail;
    if digits.len() == 0 {
        assert(s =~= tail);
    } else {
        assert(s[0] == digits[0]);
        assert(s.skip(1) =~= digits.skip(1) + tail);
        assert forall|i: int| 0 <= i < digits.skip(1).len() implies is_digit(
            #[trigger] digits.skip(1)[i],
        ) by {
            assert(digits.skip(1)[i] == digits[i + 1]);
        }
        lemma_digits_end(digits.skip(1), tail);
    }
}

/// A line of the process listing blocks the tool exactly when it is of a
/// process of the user whose command line is missing, or is there and holds
/// every pattern.
pub proof fn own_matching_processes_block(line: Seq<char>, own_uid: u32, patterns: Seq<Seq<char>>)
    ensures
        ps_line_reason(line, own_uid, patterns) is Some <==> {
            let f = ps_fields(line);
            f.pid is Some && f.uid == Some(own_uid as nat) && (f.cmdline matches Some(cmdline)
                ==> cmdline.len() > 0 && forall|k: int|
                0 <= k < patterns.len() ==> infix(#[trigger] patterns[k], cmdline))
        },
        ps_line_reason(line, own_uid, patterns) is Some && ps_fields(line).cmdline is Some
            ==> ps_line_reason(line, own_uid, patterns) == Some(
            "process_absent: live process "@ + decimal(ps_fields(line).pid->0) + " matches ["@
                + joined(patterns, ", "@) + "]"@,
        ),
{
}

/// The same of an entry of the process table.
pub proof fn own_matching_entries_block(entry: ProcEntry, own_uid: u32, patterns: Seq<Seq<char>>)
    ensures
        entry_reason(entry, own_uid, patterns) is Some <==> entry_pid(entry.name@) is Some
            && entry.uid == Some(own_uid) && match entry.cmdline {
            CmdlineRead::Gone => false,
            CmdlineRead::Failed(_) => true,
            CmdlineRead::Bytes(bytes) => cmdline_form(bytes@).len() > 0 && forall|k: int|
                0 <= k < patterns.len() ==> infix(#[trigger] patterns[k], cmdline_form(bytes@)),
        },
        entry_reason(entry, own_uid, patterns) is Some && entry.cmdline is Bytes ==> entry_reason(
            entry,
            own_uid,
            patterns,
        ) == Some(
            "process_absent: live process "@ + decimal(entry_pid(entry.name@)->0) + " matches ["@
                + joined(patterns, ", "@) + "]"@,
        ),
{
}

/// An entry of the process table is named by the number of its process.
pub proof fn entries_are_named_by_their_process(pid: nat)
    requires
        pid <= u32::MAX,
    ensures
        entry_pid(encode_utf8(decimal(pid))) == Some(pid),
{
    encode_utf8_valid_utf8(decimal(pid));
    encode_utf8_decode_utf8(decimal(pid));
    decimal_reads_back(pid, u32::MAX as nat);
}

/// A command line is its arguments, in their order, with a space between any
/// two; empty ones do not count.
pub proof fn command_lines_are_arguments_and_spaces(arg: Seq<u8>, rest: Seq<u8>)
    requires
        arg.len() > 0,
        !arg.contains(0),
    ensures
        cmdline_form(arg) == utf8_lossy(arg),
        cmdline_form(seq![0u8] + rest) == cmdline_form(rest),
        cmdline_form(Seq::empty()).len() == 0,
        nonempty(pieces(rest, 0)).len() == 0 ==> cmdline_form(arg + seq![0u8] + rest) == utf8_lossy(
            arg,
        ),
        nonempty(pieces(rest, 0)).len() > 0 ==> cmdline_form(arg + seq![0u8] + rest) == utf8_lossy(
            arg,
        ) + seq![' '] + cmdline_form(rest),
{
    reveal_strlit(" ");
    assert(" "@ =~= seq![' ']);
    let show = |a: Seq<u8>| utf8_lossy(a);
    let none = Seq::<u8>::empty();
    pieces_stand_between_separators(arg, 0, rest);
    pieces_stand_between_separators(none, 0, rest);
    assert(none + seq![0u8] + rest =~= seq![0u8] + rest);
    let first = seq![utf8_lossy(arg)];
    assert(seq![arg].map_values(show) =~= first);
    joined_parts_stand_in_order(Seq::empty(), utf8_lossy(arg), " "@);
    let args = nonempty(pieces(rest, 0));
    assert((seq![arg] + args).map_values(show) =~= first + args.map_values(show));
    if args.len() > 0 {
        joined_parts_start_with_the_first(utf8_lossy(arg), args.map_values(show), " "@);
    } else {
        assert(first + args.map_values(show) =~= first);
    }
    let empty = nonempty(pieces(none, 0));
    assert(pieces(none, 0) =~= seq![none]);
    assert(seq![none].skip(1) =~= Seq::<Seq<u8>>::empty());
    reveal_with_fuel(nonempty, 3);
    assert(empty.len() == 0);
    assert(empty.map_values(show) =~= Seq::<Seq<char>>::empty());
}

} // verus!
