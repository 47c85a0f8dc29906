//! Child processes: how a command is started, watched and terminated.

use vstd::prelude::*;
use vstd::slice::*;
use vstd::string::*;
use vstd::utf8::*;

use crate::bytes::{decode_lossy, decode_strict, is_absolute_path, path_join, utf8_lossy, PathBytes};
use crate::clock::{span_between, TimeSpan};
use crate::number::{
    decimal, is_digit, lemma_decimal_digits, parse_signed, signed_numerals_read_back, signed_value,
};
use crate::text::{
    chars_of, fields_are_separated_by_spaces, has_char, split_words, texts, words,
};

verus! {

/// Scheduler and child-poll cadence, in milliseconds: at most 10 Hz.
pub const POLL_INTERVAL_MS: u64 = 100;

/// Cadence while a killed group is waited for, in milliseconds.
pub const REAP_INTERVAL_MS: u64 = 20;

/// Grace between the termination signal and the kill signal, in seconds.
pub const TERM_GRACE_SECS: u64 = 5;

/// Grace for a kill to take effect before giving up, in seconds.
pub const KILL_GRACE_SECS: u64 = 5;

// ---------------------------------------------------------------------------
// Starting
// ---------------------------------------------------------------------------

/// A relative path with a separator is taken from the current directory,
/// since the command itself runs elsewhere.
pub open spec fn from_current_dir(program: Seq<char>) -> bool {
    !is_absolute_path(encode_utf8(program)) && program.contains('/')
}

/// Whether `program` is resolved against the current directory.
pub fn needs_current_dir(program: &str) -> (r: bool)
    ensures
        r == from_current_dir(program@),
{
    !PathBytes::from_text(program).is_absolute() && has_char(program, '/')
}

/// The program to start: a name or an absolute path as it stands, a relative
/// path below the current directory.
pub fn command_program(program: &str, current_dir: &PathBytes) -> (r: PathBytes)
    ensures
        r@ == (if from_current_dir(program@) {
            path_join(current_dir@, encode_utf8(program@))
        } else {
            encode_utf8(program@)
        }),
{
    if needs_current_dir(program) {
        current_dir.join(program)
    } else {
        PathBytes::from_text(program)
    }
}

/// The directory in which commands run: the home directory where it is an
/// absolute path, else the root directory; never the user's project.
pub fn neutral_cwd(home: Option<&[u8]>) -> (r: PathBytes)
    ensures
        r@ == (match home {
            Some(h) => if is_absolute_path(h@) {
                h@
            } else {
                encode_utf8("/"@)
            },
            None => encode_utf8("/"@),
        }),
{
    if let Some(h) = home {
        let dir = PathBytes::from_bytes(h);
        if dir.is_absolute() {
            return dir;
        }
    }
    PathBytes::from_text("/")
}

/// The first line of a job's log. The arguments are left out: arbitrary text
/// there could match a failure marker.
pub fn log_header(id: &str, program: &str) -> (r: String)
    ensures
        r@ == "# update-agents job "@ + id@ + " (program "@ + program@ + ")\n"@,
{
    let mut s = "# update-agents job ".to_owned();
    s.append(id);
    s.append(" (program ");
    s.append(program);
    s.append(")\n");
    s
}

// ---------------------------------------------------------------------------
// Process groups
// ---------------------------------------------------------------------------

/// The position behind the last `c` in `s`, zero when there is none.
pub open spec fn behind_last(s: Seq<u8>, c: u8) -> int
    decreases s.len(),
{
    if s.len() == 0 {
        0
    } else if s.last() == c {
        s.len() as int
    } else {
        behind_last(s.drop_last(), c)
    }
}

/// State and process group in a process status line: the first and third of
/// the fields behind the last closing parenthesis.
pub open spec fn stat_fields(stat: Seq<u8>) -> Option<(char, int)> {
    let n = behind_last(stat, 0x29);
    let rest = stat.skip(n);
    let fields = words(decode_utf8(rest), true);
    if n > 0 && valid_utf8(rest) && fields.len() >= 3 && fields[0].len() > 0 && signed_value(
        fields[2],
    ) is Some {
        Some((fields[0][0], signed_value(fields[2])->0))
    } else {
        None
    }
}

/// Parses the state and process-group id out of a process status line. The
/// command name may contain spaces and parentheses, so parsing resumes after
/// its final closing parenthesis.
pub fn stat_state_and_pgrp(stat: &[u8]) -> (r: Option<(char, i32)>)
    ensures
        r is Some <==> stat_fields(stat@) is Some,
        r matches Some(p) ==> stat_fields(stat@) == Some((p.0, p.1 as int)),
{
    let mut n: usize = stat.len();
    assert(stat@.take(stat@.len() as int) =~= stat@);
    while n > 0 && stat[n - 1] != 0x29
        invariant
            n <= stat@.len(),
            behind_last(stat@, 0x29) == behind_last(stat@.take(n as int), 0x29),
        decreases n,
    {
        assert(stat@.take(n as int).drop_last() =~= stat@.take(n - 1));
        n = n - 1;
    }
    if n == 0 {
        return None;
    }
    let rest = slice_subrange(stat, n, stat.len());
    assert(rest@ =~= stat@.skip(n as int));
    let text = match decode_strict(rest) {
        Some(text) => text,
        None => return None,
    };
    let fields = split_words(chars_of(text.as_str()).as_slice(), true);
    assert(texts(fields@).len() == fields@.len());
    if fields.len() < 3 {
        return None;
    }
    let state = chars_of(fields[0].as_str());
    let group = chars_of(fields[2].as_str());
    assert(texts(fields@)[0] == state@ && texts(fields@)[2] == group@);
    if state.len() == 0 {
        return None;
    }
    match parse_signed(group.as_slice()) {
        Some(pgrp) => Some((state[0], pgrp)),
        None => None,
    }
}

/// One entry of the process table: its file name, and its status line where
/// that could be read.
#[derive(Debug)]
pub struct StatEntry {
    pub name: Vec<u8>,
    pub stat: Option<Vec<u8>>,
}

/// An entry that names a process whose status line could be read.
pub open spec fn scanned(entry: StatEntry) -> bool {
    signed_value(utf8_lossy(entry.name@)) is Some && entry.stat is Some
}

/// A process of the group that has not exited; a zombie is already dead.
pub open spec fn live_member(entry: StatEntry, pgid: int) -> bool {
    &&& scanned(entry)
    &&& stat_fields(entry.stat->0@) matches Some(f) && f.1 == pgid && f.0 != 'Z'
}

/// Whether an entry of the process table is named like a process.
pub fn is_pid_name(name: &[u8]) -> (r: bool)
    ensures
        r == (signed_value(utf8_lossy(name@)) is Some),
{
    parse_signed(chars_of(decode_lossy(name).as_str()).as_slice()).is_some()
}

/// True while the process group still has a live member. When the process
/// table cannot be consulted at all, the group counts as alive, so that the
/// full grace is given instead of an early kill.
pub fn group_alive(pgid: i32, entries: &Option<Vec<StatEntry>>) -> (r: bool)
    ensures
        r == match *entries {
            None => true,
            Some(list) => {
                ||| exists|i: int|
                    0 <= i < list@.len() && live_member(#[trigger] list@[i], pgid as int)
                ||| forall|i: int| 0 <= i < list@.len() ==> !scanned(#[trigger] list@[i])
            },
        },
{
    let list = match entries {
        Some(list) => list,
        None => return true,
    };
    let mut found_any = false;
    for i in 0..list.len()
        invariant
            *entries == Some(*list),
            found_any <==> exists|k: int| 0 <= k < i && scanned(#[trigger] list@[k]),
            forall|k: int| 0 <= k < i ==> !live_member(#[trigger] list@[k], pgid as int),
    {
        if is_pid_name(list[i].name.as_slice()) {
            if let Some(stat) = &list[i].stat {
                found_any = true;
                assert(scanned(list@[i as int]));
                if let Some((state, pgrp)) = stat_state_and_pgrp(stat.as_slice()) {
                    if pgrp == pgid && state != 'Z' {
                        assert(live_member(list@[i as int], pgid as int));
                        return true;
                    }
                }
            }
        }
    }
    !found_any
}

// ---------------------------------------------------------------------------
// Termination
// ---------------------------------------------------------------------------

#[derive(Clone, Copy, Debug, PartialEq, Eq, Structural)]
pub enum TermStage {
    /// No signal has been sent.
    Start,
    /// The group was asked to terminate and has its grace.
    Grace,
    /// The group was killed.
    Killed,
    /// Every signal has been delivered; the child is collected.
    Reap,
}

/// The termination of a process group under way.
#[derive(Clone, Copy, Debug, PartialEq, Eq, Structural)]
pub struct Termination {
    pub stage: TermStage,
    /// When the stage was entered.
    pub since: TimeSpan,
}

#[derive(Clone, Copy, Debug, PartialEq, Eq, Structural)]
pub enum TermAction {
    /// Ask the whole group to terminate.
    SignalTerminate,
    /// Kill the whole group.
    SignalKill,
    /// Sleep for that many milliseconds, then look again.
    Pause(u64),
    /// Look again at once.
    Proceed,
    /// Nothing is left to do.
    Over,
}

/// `secs` seconds have passed since the stage was entered.
pub open spec fn stage_expired(t: Termination, now: TimeSpan, secs: u64) -> bool {
    span_between(t.since, now).total() >= secs * 1_000_000_000
}

/// The next stage and action of a termination.
pub open spec fn term_step(
    t: Termination,
    pid: i32,
    now: TimeSpan,
    alive: bool,
    reaped: bool,
) -> (Termination, TermAction) {
    match t.stage {
        TermStage::Start => if pid > 0 {
            (Termination { stage: TermStage::Grace, since: now }, TermAction::SignalTerminate)
        } else {
            (Termination { stage: TermStage::Reap, since: now }, TermAction::Proceed)
        },
        TermStage::Grace => if alive && !stage_expired(t, now, TERM_GRACE_SECS) {
            (t, TermAction::Pause(POLL_INTERVAL_MS))
        } else {
            (Termination { stage: TermStage::Killed, since: now }, TermAction::SignalKill)
        },
        TermStage::Killed => if alive && !stage_expired(t, now, KILL_GRACE_SECS) {
            (t, TermAction::Pause(REAP_INTERVAL_MS))
        } else {
            (Termination { stage: TermStage::Reap, since: now }, TermAction::Proceed)
        },
        TermStage::Reap => if reaped || stage_expired(t, now, KILL_GRACE_SECS) {
            (t, TermAction::Over)
        } else {
            (t, TermAction::Pause(REAP_INTERVAL_MS))
        },
    }
}

fn expired(t: &Termination, now: TimeSpan, secs: u64) -> (r: bool)
    requires
        now.wf(),
    ensures
        r == stage_expired(*t, now, secs),
{
    now.since(&t.since).reached(&TimeSpan::from_secs(secs))
}

/// One step of terminating a process group: ask it to terminate, kill it when
/// the grace is over or nobody is left, then collect the child. The grace
/// belongs to the whole group: it does not end while a descendant runs on
/// after its leader. `alive` tells whether the group has a live member,
/// `reaped` whether the child was collected or cannot be; the child is not to
/// be collected before the last stage, so that its process id cannot be
/// reused while the group is signalled.
pub fn terminate(
    t: Termination,
    pid: i32,
    now: TimeSpan,
    alive: bool,
    reaped: bool,
) -> (r: (Termination, TermAction))
    requires
        now.wf(),
    ensures
        r == term_step(t, pid, now, alive, reaped),
{
    match t.stage {
        TermStage::Start => {
            if pid > 0 {
                (Termination { stage: TermStage::Grace, since: now }, TermAction::SignalTerminate)
            } else {
                (Termination { stage: TermStage::Reap, since: now }, TermAction::Proceed)
            }
        },
        TermStage::Grace => {
            if alive && !expired(&t, now, TERM_GRACE_SECS) {
                (t, TermAction::Pause(POLL_INTERVAL_MS))
            } else {
                (Termination { stage: TermStage::Killed, since: now }, TermAction::SignalKill)
            }
        },
        TermStage::Killed => {
            if alive && !expired(&t, now, KILL_GRACE_SECS) {
                (t, TermAction::Pause(REAP_INTERVAL_MS))
            } else {
                (Termination { stage: TermStage::Reap, since: now }, TermAction::Proceed)
            }
        },
        TermStage::Reap => {
            if reaped || expired(&t, now, KILL_GRACE_SECS) {
                (t, TermAction::Over)
            } else {
                (t, TermAction::Pause(REAP_INTERVAL_MS))
            }
        },
    }
}

/// A kill is only sent after the request to terminate, and while members are
/// alive only once the grace is over. No signal is sent once the child may
/// have been collected, and every wait is bounded.
pub proof fn signals_come_in_order(
    t: Termination,
    pid: i32,
    now: TimeSpan,
    alive: bool,
    reaped: bool,
)
    ensures
        ({
            let (next, action) = term_step(t, pid, now, alive, reaped);
            &&& action is SignalKill ==> t.stage is Grace && (!alive || stage_expired(
                t,
                now,
                TERM_GRACE_SECS,
            ))
            &&& action is SignalTerminate ==> t.stage is Start && pid > 0
            &&& t.stage is Reap ==> next.stage is Reap && (action is Pause || action is Over)
            &&& action is Over ==> t.stage is Reap
            &&& stage_expired(t, now, TERM_GRACE_SECS) && stage_expired(t, now, KILL_GRACE_SECS)
                ==> !(action is Pause)
        }),
{
}

/// A group that was asked to terminate has five seconds, unless nobody of it is
/// left; once killed it has five more. Each stage is timed from when it was
/// entered.
pub proof fn terminations_are_timed_from_their_stage(
    t: Termination,
    pid: i32,
    now: TimeSpan,
    alive: bool,
    reaped: bool,
)
    requires
        t.since.nanos < 1_000_000_000,
        now.nanos < 1_000_000_000,
    ensures
        ({
            let (next, action) = term_step(t, pid, now, alive, reaped);
            let over = (now.secs - t.since.secs) * 1_000_000_000 + (now.nanos - t.since.nanos)
                >= 5_000_000_000;
            &&& t.stage is Start && pid > 0 ==> action is SignalTerminate && next.stage is Grace
            &&& t.stage is Start && pid <= 0 ==> action is Proceed && next.stage is Reap
            &&& t.stage is Grace && alive && !over ==> action is Pause && next == t
            &&& t.stage is Grace && (!alive || over) ==> action is SignalKill && next.stage is Killed
            &&& t.stage is Killed && alive && !over ==> action is Pause && next == t
            &&& t.stage is Killed && (!alive || over) ==> action is Proceed && next.stage is Reap
            &&& t.stage is Reap && !reaped && !over ==> action is Pause && next == t
            &&& t.stage is Reap && (reaped || over) ==> action is Over
            &&& next.stage != t.stage ==> next.since == now
            &&& action matches TermAction::Pause(ms) ==> 0 < ms <= 100
        }),
{
    let d = now.total() - t.since.total();
    if d > 0 {
        assert(d / 1_000_000_000 * 1_000_000_000 + d % 1_000_000_000 == d);
        assert(d / 1_000_000_000 <= now.secs);
    }
}

/// What a status line says of a process is read behind its name, whatever that
/// holds: the state, and two fields on the process group.
pub proof fn status_lines_are_read_behind_the_name(
    head: Seq<u8>,
    state: char,
    parent: nat,
    group: nat,
    rest: Seq<char>,
)
    requires
        'A' <= state && state <= 'z',
        group <= 0x7fff_ffff,
        is_ascii_chars(rest),
        !rest.contains(')'),
    ensures
        stat_fields(
            head + seq![0x29u8] + encode_utf8(
                seq![' ', state, ' '] + decimal(parent) + (seq![' '] + (decimal(group) + (seq![' ']
                    + rest))),
            ),
        ) == Some((state, group as int)),
{
    let tail = seq![' '] + (decimal(group) + (seq![' '] + rest));
    let line = seq![' ', state, ' '] + decimal(parent) + tail;
    let bytes = encode_utf8(line);
    let stat = head + seq![0x29u8] + bytes;
    lemma_decimal_digits(parent);
    lemma_decimal_digits(group);
    let p = decimal(parent);
    let g = decimal(group);
    assert forall|k: int| 0 <= k < line.len() implies (line[k] as int) < 128 && line[k] != ')' by {
        if k < 3 {
        } else if k < 3 + p.len() {
            assert(line[k] == p[k - 3] && is_digit(p[k - 3]));
        } else if k == 3 + p.len() {
        } else if k < 4 + p.len() + g.len() {
            assert(line[k] == g[k - 4 - p.len()] && is_digit(g[k - 4 - p.len()]));
        } else if k == 4 + p.len() + g.len() {
        } else {
            let i = k - 5 - p.len() - g.len();
            assert(line[k] == rest[i]);
            is_ascii_chars_nat_bound(rest);
            assert(rest.contains(rest[i]));
        }
    }
    assert(is_ascii_chars(line));
    is_ascii_chars_encode_utf8(line);
    encode_utf8_valid_utf8(line);
    encode_utf8_decode_utf8(line);
    lemma_behind_last(head + seq![0x29u8], bytes);
    let n = head.len() as int + 1;
    assert(stat.skip(n) =~= bytes);
    let word = seq![state];
    let after = p + tail;
    assert(line =~= seq![' '] + (word + (seq![' '] + after)));
    fields_are_separated_by_spaces(word, ' ', word + (seq![' '] + after));
    fields_are_separated_by_spaces(word, ' ', after);
    assert forall|k: int| 0 <= k < p.len() implies #[trigger] p[k] != ' ' && p[k] != '\t' && p[k]
        != '\n' && p[k] != '\r' && p[k] != '\u{c}' by {
        assert(is_digit(p[k]));
    }
    assert forall|k: int| 0 <= k < g.len() implies #[trigger] g[k] != ' ' && g[k] != '\t' && g[k]
        != '\n' && g[k] != '\r' && g[k] != '\u{c}' by {
        assert(is_digit(g[k]));
    }
    fields_are_separated_by_spaces(p, ' ', g + (seq![' '] + rest));
    fields_are_separated_by_spaces(g, ' ', rest);
    let fields = words(line, true);
    let more = words(rest, true);
    assert(fields == seq![word] + (seq![p] + (seq![g] + more)));
    assert(fields[0] == word && fields[2] == g);
    signed_numerals_read_back(group);
}

proof fn lemma_behind_last(head: Seq<u8>, tail: Seq<u8>)
    requires
        head.len() > 0,
        head.last() == 0x29,
        forall|k: int| 0 <= k < tail.len() ==> #[trigger] tail[k] != 0x29,
    ensures
        behind_last(head + tail, 0x29) == head.len(),
    decreases tail.len(),
{
    let s = head + tail;
    if tail.len() == 0 {
        assert(s =~= head);
    } else {
        assert(s.last() == tail.last());
        assert(s.drop_last() =~= head + tail.drop_last());
        lemma_behind_last(head, tail.drop_last());
    }
}

/// A process belongs to a group by the group its status line names, and a
/// zombie is no live member of it.
pub proof fn zombies_are_not_alive(entry: StatEntry, pgid: int, state: char, group: int)
    requires
        entry.stat matches Some(stat) && stat_fields(stat@) == Some((state, group)),
        signed_value(utf8_lossy(entry.name@)) is Some,
    ensures
        live_member(entry, pgid) <==> group == pgid && state != 'Z',
{
}

/// A relative path with a slash is taken from the current directory; a bare
/// name and an absolute path are not.
pub proof fn relative_paths_are_taken_from_here(program: Seq<char>)
    requires
        is_ascii_chars(program),
    ensures
        from_current_dir(program) <==> program.contains('/') && program[0] != '/',
{
    is_ascii_chars_encode_utf8(program);
    if program.len() > 0 {
        assert(encode_utf8(program)[0] == program[0] as u8);
    }
}

/// Only entries that are named like a process and whose status line was read
/// count as looked at.
pub proof fn entries_without_a_status_do_not_count(entry: StatEntry, pgid: int)
    ensures
        scanned(entry) <==> signed_value(utf8_lossy(entry.name@)) is Some && entry.stat is Some,
        live_member(entry, pgid) ==> entry.stat is Some && signed_value(
            utf8_lossy(entry.name@),
        ) is Some,
{
}

} // verus!
