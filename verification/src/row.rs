//! The rows of the dashboard table, their columns and their counts.

use vstd::prelude::*;
use vstd::string::*;

use crate::bytes::PathBytes;
use crate::cells::{
    cell_clip, display_width, duration_form, pad_left_inplace, padded_left, padded_right,
    push_cell_padded, push_clipped, push_duration, status_label, status_text, str_width,
};
use crate::clock::{span_between, spans_are_differences, TimeSpan};
use crate::model::{Job, Status};
use crate::terminal::{nonblank_lines, split_nonblank};
use crate::text::{
    capped, chars_of, copy_capped, has_prefix, is_blank, same_text, text_of, texts, trim, trimmed,
};

verus! {

/// Longest activity text kept per row, in columns.
pub const ACTIVITY_MAX: usize = 160;

/// Cap for copies of version and message texts, in characters.
pub const TEXT_CAP: usize = 256;

/// Column width of the status cell, that of its longest word.
pub const STATUS_W: usize = 12;

/// Column width of the elapsed-time cell.
pub const TIME_W: usize = 8;

/// Minimum width for the activity column to be shown at all.
pub const ACTIVITY_MIN: usize = 10;

// ---------------------------------------------------------------------------
// Columns
// ---------------------------------------------------------------------------

/// Column widths; zero hides a column. Id and status survive longest.
#[derive(Clone, Copy, Debug, PartialEq, Eq, Structural)]
pub struct Columns {
    pub id: u16,
    pub version: u16,
    pub time: u16,
    pub activity: u16,
}

pub open spec fn clamp(n: int, low: int, high: int) -> int {
    if n < low {
        low
    } else if n > high {
        high
    } else {
        n
    }
}

pub open spec fn lesser(a: int, b: int) -> int {
    if a < b {
        a
    } else {
        b
    }
}

pub open spec fn without(a: int, b: int) -> int {
    if a > b {
        a - b
    } else {
        0
    }
}

/// The width of the id column: that of the widest id, from 4 to 18, less on a
/// narrow screen, but at least 3.
pub open spec fn id_column(width: int, widest: Option<int>) -> int {
    let wish = clamp(
        match widest {
            Some(n) => n,
            None => 4,
        },
        4,
        18,
    );
    let fit = lesser(wish, without(width, STATUS_W + 2));
    if fit < 3 {
        3
    } else {
        fit
    }
}

/// The columns in use left of the version column, and of the time column when
/// it is shown.
pub open spec fn left_used(width: int, id: int) -> int {
    let used = id + 1 + STATUS_W;
    if width > used + TIME_W {
        used + TIME_W + 1
    } else {
        used
    }
}

/// The width of the version column: that of the widest version, from 8 to 22,
/// where the screen is wide enough.
pub open spec fn version_column(width: int, used: int, widest: Option<int>) -> int {
    if width >= used + 20 {
        lesser(
            clamp(
                match widest {
                    Some(n) => n,
                    None => 8,
                },
                8,
                22,
            ),
            width - used - 12,
        )
    } else {
        0
    }
}

/// The columns of a screen whose widest id and version are given.
pub open spec fn columns_of(width: int, widest_id: Option<int>, widest_version: Option<int>) -> (
    int,
    int,
    int,
    int,
) {
    let id = id_column(width, widest_id);
    let used = left_used(width, id);
    let version = version_column(width, used, widest_version);
    let all = used + (if version > 0 {
        version + 1
    } else {
        0
    });
    let activity = without(width, all + 1);
    (
        id,
        version,
        if width > id + 1 + STATUS_W + TIME_W {
            TIME_W as int
        } else {
            0
        },
        if activity >= ACTIVITY_MIN {
            activity
        } else {
            0
        },
    )
}

pub open spec fn as_int(n: Option<usize>) -> Option<int> {
    match n {
        Some(n) => Some(n as int),
        None => None,
    }
}

fn clamp_width(n: usize, low: usize, high: usize) -> (r: usize)
    requires
        low <= high,
    ensures
        r == clamp(n as int, low as int, high as int),
{
    if n < low {
        low
    } else if n > high {
        high
    } else {
        n
    }
}

impl Columns {
    /// The columns of a screen whose widest id and version are given.
    pub fn arrange(width: u16, widest_id: Option<usize>, widest_version: Option<usize>) -> (r:
        Columns)
        ensures
            columns_of(width as int, as_int(widest_id), as_int(widest_version)) == (
                r.id as int,
                r.version as int,
                r.time as int,
                r.activity as int,
            ),
    {
        let w: usize = width as usize;
        let id_wish: usize = clamp_width(
            match widest_id {
                Some(n) => n,
                None => 4,
            },
            4,
            18,
        );
        let room: usize = w.saturating_sub(STATUS_W + 2);
        let id_fit: usize = if id_wish < room {
            id_wish
        } else {
            room
        };
        let id_w: usize = if id_fit < 3 {
            3
        } else {
            id_fit
        };
        let mut used: usize = id_w + 1 + STATUS_W;
        let mut time_w: usize = 0;
        if w > used + TIME_W {
            used = used + TIME_W + 1;
            time_w = TIME_W;
        }
        let mut version_w: usize = 0;
        if w >= used + 20 {
            let wish: usize = clamp_width(
                match widest_version {
                    Some(n) => n,
                    None => 8,
                },
                8,
                22,
            );
            let room: usize = w - used - 12;
            version_w =
            if wish < room {
                wish
            } else {
                room
            };
        }
        if version_w > 0 {
            used = used + version_w + 1;
        }
        let activity_w: usize = w.saturating_sub(used + 1);
        Columns {
            id: id_w as u16,
            version: version_w as u16,
            time: time_w as u16,
            activity: if activity_w >= ACTIVITY_MIN {
                activity_w as u16
            } else {
                0
            },
        }
    }

    /// The columns of a screen of the given width.
    pub fn compute(width: u16, rows: &Vec<Row>) -> (r: Columns)
        ensures
            columns_of(width as int, widest_id(rows@), widest_version(rows@)) == (
                r.id as int,
                r.version as int,
                r.time as int,
                r.activity as int,
            ),
    {
        let mut id: Option<usize> = None;
        let mut version: Option<usize> = None;
        for i in 0..rows.len()
            invariant
                as_int(id) == widest_id(rows@.take(i as int)),
                as_int(version) == widest_version(rows@.take(i as int)),
        {
            assert(rows@.take(i + 1).drop_last() =~= rows@.take(i as int));
            id = wider(id, str_width(rows[i].id.as_str()));
            version = wider(version, str_width(rows[i].version.as_str()));
        }
        assert(rows@.take(rows@.len() as int) =~= rows@);
        Columns::arrange(width, id, version)
    }
}

/// The greater of a width and the greatest so far.
pub open spec fn wider_of(best: Option<int>, n: int) -> Option<int> {
    match best {
        Some(m) => if n > m {
            Some(n)
        } else {
            Some(m)
        },
        None => Some(n),
    }
}

fn wider(best: Option<usize>, n: usize) -> (r: Option<usize>)
    ensures
        as_int(r) == wider_of(as_int(best), n as int),
{
    match best {
        Some(m) => {
            if n > m {
                Some(n)
            } else {
                Some(m)
            }
        },
        None => Some(n),
    }
}

/// The width of the widest id.
pub open spec fn widest_id(rows: Seq<Row>) -> Option<int>
    decreases rows.len(),
{
    if rows.len() == 0 {
        None
    } else {
        wider_of(widest_id(rows.drop_last()), display_width(rows.last().id@) as int)
    }
}

/// The width of the widest version.
pub open spec fn widest_version(rows: Seq<Row>) -> Option<int>
    decreases rows.len(),
{
    if rows.len() == 0 {
        None
    } else {
        wider_of(widest_version(rows.drop_last()), display_width(rows.last().version@) as int)
    }
}

/// The columns never take more than the screen, as soon as it has room for
/// the narrowest id and the status.
pub proof fn columns_fit_the_screen(width: int, widest_id: Option<int>, widest_version: Option<int>)
    requires
        width >= STATUS_W + 4,
        widest_id matches Some(n) ==> n >= 0,
        widest_version matches Some(n) ==> n >= 0,
    ensures
        ({
            let (id, version, time, activity) = columns_of(width, widest_id, widest_version);
            let gap = |n: int|
                if n > 0 {
                    n + 1
                } else {
                    0
                };
            &&& 3 <= id <= 18
            &&& id + 1 + STATUS_W + gap(version) + gap(time) + gap(activity) <= width
        }),
{
}

// ---------------------------------------------------------------------------
// Rows
// ---------------------------------------------------------------------------

/// One row of the table, with its cells.
#[derive(Debug)]
pub struct Row {
    pub id: String,
    pub label: String,
    pub before: String,
    pub after: String,
    pub message: String,
    pub version: String,
    pub version_dim: bool,
    pub activity: String,
    pub status: Status,
    pub exit_code: Option<i32>,
    pub started: Option<TimeSpan>,
    pub elapsed: TimeSpan,
    pub log: PathBytes,
    pub c_id: String,
    pub c_version: String,
    pub c_status: String,
    pub c_time: String,
    pub c_activity: String,
    pub version_dirty: bool,
    pub message_dirty: bool,
}

/// The version cell: `before -> after` when the update changed something, the
/// known version otherwise.
pub open spec fn version_shown(before: Seq<char>, after: Seq<char>) -> Seq<char> {
    if after.len() > 0 {
        if before.len() > 0 && before != after {
            before + " \u{2192} "@ + after
        } else {
            after
        }
    } else if before.len() > 0 {
        before
    } else {
        "-"@
    }
}

/// The version cell is dimmed while the fresh version is still unknown.
pub open spec fn version_faint(before: Seq<char>, after: Seq<char>, status: Status) -> bool {
    if after.len() > 0 {
        false
    } else if before.len() > 0 {
        status is Running || status is Queued
    } else {
        true
    }
}

/// The activity of a row that is not running.
pub open spec fn still_activity(message: Seq<char>) -> Seq<char> {
    if message.len() == 0 {
        "-"@
    } else {
        cell_clip(trimmed(message), ACTIVITY_MAX as int)
    }
}

/// The last line of `list` that is not the header of a job's log.
pub open spec fn last_output(list: Seq<Seq<char>>) -> Option<Seq<char>>
    decreases list.len(),
{
    if list.len() == 0 {
        None
    } else if "# update-agents job "@.is_prefix_of(list.last()) {
        last_output(list.drop_last())
    } else {
        Some(list.last())
    }
}

/// The activity of a running row, by the end of its log.
pub open spec fn tail_activity(text: Seq<char>) -> Seq<char> {
    match last_output(nonblank_lines(text)) {
        Some(line) => cell_clip(line, ACTIVITY_MAX as int),
        None => "-"@,
    }
}

/// What the time column shows, in seconds: live for running rows, recorded
/// for finished ones.
pub open spec fn shown_secs(row: Row, now: TimeSpan) -> u64 {
    match row.status {
        Status::Running => match row.started {
            Some(s) => span_between(s, now).secs,
            None => 0,
        },
        Status::Queued => 0,
        _ => row.elapsed.secs,
    }
}

/// The versions of the job are not those of the row.
pub open spec fn versions_differ(row: Row, job: Job) -> bool {
    row.version_dirty || row.before@ != job.before@ || row.after@ != job.after@
}

/// The message of the job is not that of the row.
pub open spec fn message_differs(row: Row, job: Job) -> bool {
    row.message_dirty || row.message@ != job.message@
}

/// The activity of the row before the placeholder is put in.
pub open spec fn next_activity(row: Row, job: Job) -> Seq<char> {
    if message_differs(row, job) && !(job.status is Running) {
        still_activity(capped(job.message@, TEXT_CAP as int))
    } else {
        row.activity@
    }
}

/// `after` is the row `before` once it has taken in `job`.
pub open spec fn took_in(before: Row, after: Row, job: Job) -> bool {
    &&& after.status == job.status
    &&& after.exit_code == job.exit_code
    &&& after.started == job.started
    &&& after.elapsed == job.elapsed
    &&& after.log@ == job.log@
    &&& after.before@ == capped(job.before@, TEXT_CAP as int)
    &&& after.after@ == capped(job.after@, TEXT_CAP as int)
    &&& after.message@ == capped(job.message@, TEXT_CAP as int)
    &&& after.version@ == (if versions_differ(before, job) {
        version_shown(after.before@, after.after@)
    } else {
        before.version@
    })
    &&& after.version_dim == (if versions_differ(before, job) {
        version_faint(after.before@, after.after@, job.status)
    } else {
        before.version_dim
    })
    &&& after.activity@ == (if job.status is Running && next_activity(before, job).len() == 0 {
        "-"@
    } else {
        next_activity(before, job)
    })
    &&& !after.version_dirty
    &&& !after.message_dirty
    &&& after.id == before.id
    &&& after.label == before.label
    &&& after.wf()
}

impl Row {
    /// The copied texts are capped.
    pub open spec fn wf(self) -> bool {
        &&& self.before@.len() <= TEXT_CAP
        &&& self.after@.len() <= TEXT_CAP
        &&& self.message@.len() <= TEXT_CAP
    }

    /// `self` is the fresh row of `job`.
    pub open spec fn fresh(self, job: Job) -> bool {
        &&& self.wf()
        &&& self.id@ == job.spec.id@
        &&& self.label@ == job.spec.label@
        &&& self.before@ == capped(job.before@, TEXT_CAP as int)
        &&& self.after@ == capped(job.after@, TEXT_CAP as int)
        &&& self.message@ == capped(job.message@, TEXT_CAP as int)
        &&& self.version@.len() == 0
        &&& self.version_dim
        &&& self.activity@.len() == 0
        &&& self.status == job.status
        &&& self.exit_code == job.exit_code
        &&& self.started == job.started
        &&& self.elapsed == job.elapsed
        &&& self.log@ == job.log@
        &&& self.version_dirty
        &&& self.message_dirty
    }

    /// The row of a job that has not been shown yet.
    pub fn new(job: &Job) -> (r: Row)
        ensures
            r.fresh(*job),
    {
        Row {
            id: job.spec.id.clone(),
            label: job.spec.label.clone(),
            before: copy_capped(job.before.as_str(), TEXT_CAP),
            after: copy_capped(job.after.as_str(), TEXT_CAP),
            message: copy_capped(job.message.as_str(), TEXT_CAP),
            version: String::new(),
            version_dim: true,
            activity: String::new(),
            status: job.status,
            exit_code: job.exit_code,
            started: job.started,
            elapsed: job.elapsed,
            log: job.log.clone(),
            c_id: String::new(),
            c_version: String::new(),
            c_status: String::new(),
            c_time: String::new(),
            c_activity: String::new(),
            version_dirty: true,
            message_dirty: true,
        }
    }

    /// Takes in the mutable parts of a job.
    pub fn update(&mut self, job: &Job)
        requires
            old(self).wf(),
        ensures
            took_in(*old(self), *final(self), *job),
    {
        self.status = job.status;
        self.exit_code = job.exit_code;
        self.started = job.started;
        self.elapsed = job.elapsed;
        if !same_text(self.before.as_str(), job.before.as_str()) {
            self.before = copy_capped(job.before.as_str(), TEXT_CAP);
            self.version_dirty = true;
        }
        if !same_text(self.after.as_str(), job.after.as_str()) {
            self.after = copy_capped(job.after.as_str(), TEXT_CAP);
            self.version_dirty = true;
        }
        if !same_text(self.message.as_str(), job.message.as_str()) {
            self.message = copy_capped(job.message.as_str(), TEXT_CAP);
            self.message_dirty = true;
        }
        if !self.log.same_as(&job.log) {
            self.log = job.log.clone();
        }
        if self.version_dirty {
            self.version_dirty = false;
            self.refresh_version();
        }
        if self.message_dirty {
            self.message_dirty = false;
            self.refresh_activity();
        }
        if self.status == Status::Running && is_blank(self.activity.as_str()) {
            self.activity = "-".to_owned();
        }
    }

    /// Brings the version cell up to date.
    pub fn refresh_version(&mut self)
        ensures
            final(self).version@ == version_shown(old(self).before@, old(self).after@),
            final(self).version_dim == version_faint(
                old(self).before@,
                old(self).after@,
                old(self).status,
            ),
            *final(self) == (Row {
                version: final(self).version,
                version_dim: final(self).version_dim,
                ..*old(self)
            }),
    {
        if !is_blank(self.after.as_str()) {
            if !is_blank(self.before.as_str()) && !same_text(
                self.before.as_str(),
                self.after.as_str(),
            ) {
                let mut v = self.before.clone();
                v.append(" \u{2192} ");
                v.append(self.after.as_str());
                self.version = v;
            } else {
                self.version = self.after.clone();
            }
            self.version_dim = false;
        } else if !is_blank(self.before.as_str()) {
            self.version = self.before.clone();
            self.version_dim =
            match self.status {
                Status::Running | Status::Queued => true,
                _ => false,
            };
        } else {
            self.version = "-".to_owned();
            self.version_dim = true;
        }
    }

    /// Brings the activity of a row up to date that is not running: its
    /// message. Running rows keep the activity taken from their log.
    pub fn refresh_activity(&mut self)
        ensures
            final(self).activity@ == (if old(self).status is Running {
                old(self).activity@
            } else {
                still_activity(old(self).message@)
            }),
            *final(self) == (Row { activity: final(self).activity, ..*old(self) }),
    {
        if self.status == Status::Running {
            return;
        }
        if is_blank(self.message.as_str()) {
            self.activity = "-".to_owned();
        } else {
            let chars = chars_of(self.message.as_str());
            let text = text_of(trim(chars.as_slice()));
            let mut out = String::new();
            push_clipped(&mut out, text.as_str(), ACTIVITY_MAX);
            self.activity = out;
        }
    }

    /// Live activity: the last nonempty line of the end of the job's log. The
    /// header of the log is skipped, so that internal command paths never
    /// reach the overview.
    pub fn set_tail_activity(&mut self, tail: &str)
        ensures
            final(self).activity@ == tail_activity(tail@),
            *final(self) == (Row { activity: final(self).activity, ..*old(self) }),
    {
        let all = split_nonblank(tail);
        let header = chars_of("# update-agents job ");
        let ghost list = texts(all@);
        let mut n: usize = all.len();
        assert(list.take(list.len() as int) =~= list);
        while n > 0
            invariant
                n <= all@.len(),
                list == texts(all@),
                list == nonblank_lines(tail@),
                header@ == "# update-agents job "@,
                *self == *old(self),
                last_output(list) == last_output(list.take(n as int)),
            decreases n,
        {
            let line = chars_of(all[n - 1].as_str());
            assert(list.take(n as int).last() == all@[n - 1]@);
            assert(list.take(n as int).drop_last() =~= list.take(n - 1));
            if !has_prefix(line.as_slice(), header.as_slice()) {
                let mut out = String::new();
                push_clipped(&mut out, all[n - 1].as_str(), ACTIVITY_MAX);
                self.activity = out;
                return;
            }
            n = n - 1;
        }
        self.activity = "-".to_owned();
    }

    /// Elapsed seconds shown in the time column.
    pub fn elapsed_secs(&self, now: TimeSpan) -> (r: u64)
        requires
            now.wf(),
        ensures
            r == shown_secs(*self, now),
    {
        match self.status {
            Status::Running => match &self.started {
                Some(s) => now.since(s).secs,
                None => 0,
            },
            Status::Queued => 0,
            _ => self.elapsed.secs,
        }
    }

    /// The time cell before it is aligned.
    pub open spec fn time_shown(self, now: TimeSpan) -> Seq<char> {
        if self.started is None {
            "-"@
        } else {
            duration_form(shown_secs(self, now) as int)
        }
    }

    /// Builds the cells of the row for the given columns.
    pub fn build_cells(&mut self, col: Columns, now: TimeSpan)
        requires
            now.wf(),
        ensures
            final(self).c_id@ == padded_right(cell_clip(old(self).id@, col.id as int), col.id as int),
            final(self).c_version@ == (if col.version > 0 {
                padded_right(
                    cell_clip(old(self).version@, col.version as int),
                    col.version as int,
                )
            } else {
                Seq::empty()
            }),
            final(self).c_status@ == padded_right(
                cell_clip(status_label(old(self).status), STATUS_W as int),
                STATUS_W as int,
            ),
            final(self).c_time@ == (if col.time > 0 {
                padded_left(old(self).time_shown(now), col.time as int)
            } else {
                Seq::empty()
            }),
            final(self).c_activity@ == (if col.activity > 0 {
                cell_clip(old(self).activity@, col.activity as int)
            } else {
                Seq::empty()
            }),
            *final(self) == (Row {
                c_id: final(self).c_id,
                c_version: final(self).c_version,
                c_status: final(self).c_status,
                c_time: final(self).c_time,
                c_activity: final(self).c_activity,
                ..*old(self)
            }),
    {
        let mut c_id = String::new();
        push_cell_padded(&mut c_id, self.id.as_str(), col.id as usize);
        let mut c_version = String::new();
        if col.version > 0 {
            push_cell_padded(&mut c_version, self.version.as_str(), col.version as usize);
        } else {
            assert(c_version@ =~= Seq::<char>::empty());
        }
        let mut c_status = String::new();
        push_cell_padded(&mut c_status, status_text(self.status), STATUS_W);
        let mut c_time = String::new();
        if col.time > 0 {
            if self.started.is_none() {
                c_time = "-".to_owned();
            } else {
                let secs: u64 = self.elapsed_secs(now);
                push_duration(&mut c_time, secs);
            }
            assert(c_time@ =~= self.time_shown(now));
            pad_left_inplace(&mut c_time, col.time as usize);
        } else {
            assert(c_time@ =~= Seq::<char>::empty());
        }
        let mut c_activity = String::new();
        if col.activity > 0 {
            push_clipped(&mut c_activity, self.activity.as_str(), col.activity as usize);
        } else {
            assert(c_activity@ =~= Seq::<char>::empty());
        }
        self.c_id = c_id;
        self.c_version = c_version;
        self.c_status = c_status;
        self.c_time = c_time;
        self.c_activity = c_activity;
    }
}

// ---------------------------------------------------------------------------
// Counts
// ---------------------------------------------------------------------------

/// Counts for the header line and the gauge of completed tools.
#[derive(Clone, Copy, Debug, PartialEq, Eq, Structural)]
pub struct Counts {
    pub total: usize,
    pub done: usize,
    pub ok: usize,
    pub failed: usize,
    pub blocked: usize,
    pub skipped: usize,
    pub running: usize,
    pub queued: usize,
    pub cancelled: usize,
    pub timed_out: usize,
}

impl Default for Counts {
    fn default() -> (r: Counts)
        ensures
            r == no_counts(),
    {
        Counts {
            total: 0,
            done: 0,
            ok: 0,
            failed: 0,
            blocked: 0,
            skipped: 0,
            running: 0,
            queued: 0,
            cancelled: 0,
            timed_out: 0,
        }
    }
}

pub open spec fn no_counts() -> Counts {
    Counts {
        total: 0,
        done: 0,
        ok: 0,
        failed: 0,
        blocked: 0,
        skipped: 0,
        running: 0,
        queued: 0,
        cancelled: 0,
        timed_out: 0,
    }
}

pub open spec fn one_if(b: bool) -> int {
    if b {
        1
    } else {
        0
    }
}

impl Counts {
    /// Every count is bounded by the total, and the parts add up to it.
    pub open spec fn wf(self) -> bool {
        &&& self.done == self.ok + self.failed + self.blocked + self.skipped + self.cancelled
            + self.timed_out
        &&& self.total == self.done + self.running + self.queued
    }

    /// `next` is `self` with one more job of the given status.
    pub open spec fn counted(self, next: Counts, status: Status) -> bool {
        &&& next.total == self.total + 1
        &&& next.done == self.done + one_if(status.terminal())
        &&& next.ok == self.ok + one_if(status is Succeeded)
        &&& next.failed == self.failed + one_if(status is Failed)
        &&& next.blocked == self.blocked + one_if(status is Blocked)
        &&& next.skipped == self.skipped + one_if(status is Skipped)
        &&& next.running == self.running + one_if(status is Running)
        &&& next.queued == self.queued + one_if(status is Queued)
        &&& next.cancelled == self.cancelled + one_if(status is Cancelled)
        &&& next.timed_out == self.timed_out + one_if(status is TimedOut)
    }

    /// Counts one more job.
    pub fn count(&mut self, status: Status)
        requires
            old(self).wf(),
            old(self).total < usize::MAX,
        ensures
            final(self).wf(),
            old(self).counted(*final(self), status),
    {
        self.total = self.total + 1;
        match status {
            Status::Queued => self.queued = self.queued + 1,
            Status::Running => self.running = self.running + 1,
            Status::Succeeded => {
                self.ok = self.ok + 1;
                self.done = self.done + 1;
            },
            Status::Failed => {
                self.failed = self.failed + 1;
                self.done = self.done + 1;
            },
            Status::Blocked => {
                self.blocked = self.blocked + 1;
                self.done = self.done + 1;
            },
            Status::Skipped => {
                self.skipped = self.skipped + 1;
                self.done = self.done + 1;
            },
            Status::Cancelled => {
                self.cancelled = self.cancelled + 1;
                self.done = self.done + 1;
            },
            Status::TimedOut => {
                self.timed_out = self.timed_out + 1;
                self.done = self.done + 1;
            },
        }
    }
}

/// How many of `rows` satisfy `want`.
pub open spec fn count_rows(rows: Seq<Row>, want: spec_fn(Status) -> bool) -> int
    decreases rows.len(),
{
    if rows.len() == 0 {
        0
    } else {
        count_rows(rows.drop_last(), want) + one_if(want(rows.last().status))
    }
}

/// `counts` are those of `rows`.
pub open spec fn counts_of(counts: Counts, rows: Seq<Row>) -> bool {
    &&& counts.wf()
    &&& counts.total == rows.len()
    &&& counts.ok == count_rows(rows, |s: Status| s is Succeeded)
    &&& counts.failed == count_rows(rows, |s: Status| s is Failed)
    &&& counts.blocked == count_rows(rows, |s: Status| s is Blocked)
    &&& counts.skipped == count_rows(rows, |s: Status| s is Skipped)
    &&& counts.running == count_rows(rows, |s: Status| s is Running)
    &&& counts.queued == count_rows(rows, |s: Status| s is Queued)
    &&& counts.cancelled == count_rows(rows, |s: Status| s is Cancelled)
    &&& counts.timed_out == count_rows(rows, |s: Status| s is TimedOut)
}

/// Counts the rows by their status.
pub fn count_all(rows: &Vec<Row>) -> (r: Counts)
    ensures
        counts_of(r, rows@),
{
    let mut counts = Counts::default();
    for i in 0..rows.len()
        invariant
            counts_of(counts, rows@.take(i as int)),
    {
        assert(rows@.take(i + 1).drop_last() =~= rows@.take(i as int));
        counts.count(rows[i].status);
    }
    assert(rows@.take(rows@.len() as int) =~= rows@);
    counts
}

// ---------------------------------------------------------------------------
// Laws
// ---------------------------------------------------------------------------

/// The version cell shows both versions with an arrow where the update changed
/// something, else the one that is known, the fresh one first. It is dimmed
/// exactly while the fresh version may still come, or there is none at all.
pub proof fn versions_are_shown_with_what_is_known(
    before: Seq<char>,
    after: Seq<char>,
    status: Status,
)
    ensures
        before.len() > 0 && after.len() > 0 && before != after ==> version_shown(before, after)
            == before + seq![' ', '\u{2192}', ' '] + after,
        after.len() > 0 && (before.len() == 0 || before == after) ==> version_shown(before, after)
            == after,
        before.len() > 0 && after.len() == 0 ==> version_shown(before, after) == before,
        before.len() == 0 && after.len() == 0 ==> version_shown(before, after) == seq!['-'],
        version_faint(before, after, status) <==> after.len() == 0 && (before.len() == 0 || status
            is Running || status is Queued),
{
    reveal_strlit(" \u{2192} ");
    reveal_strlit("-");
    assert(" \u{2192} "@ =~= seq![' ', '\u{2192}', ' ']);
    assert("-"@ =~= seq!['-']);
}

/// A row that has taken in a job shows the values of the job, each in its
/// place; long texts are cut at their end.
pub proof fn rows_show_their_job(before: Row, after: Row, job: Job)
    requires
        took_in(before, after, job),
        job.before@.len() <= 256,
        job.after@.len() <= 256,
        job.message@.len() <= 256,
    ensures
        after.status == job.status,
        after.exit_code == job.exit_code,
        after.started == job.started,
        after.elapsed == job.elapsed,
        after.log@ == job.log@,
        after.before@ == job.before@,
        after.after@ == job.after@,
        after.message@ == job.message@,
        after.id@ == before.id@,
        after.label@ == before.label@,
        before.before@ != job.before@ || before.after@ != job.after@ ==> after.version@
            == version_shown(job.before@, job.after@),
        before.message@ != job.message@ && !(job.status is Running) && job.message@.len() > 0
            ==> after.activity@ == cell_clip(trimmed(job.message@), 160),
        before.message@ != job.message@ && !(job.status is Running) && job.message@.len() == 0
            ==> after.activity@ == seq!['-'],
        job.status is Running && before.activity@.len() > 0 ==> after.activity@
            == before.activity@,
{
    reveal_strlit("-");
    assert("-"@ =~= seq!['-']);
}

/// A fresh row is that of its job.
pub proof fn fresh_rows_are_of_their_job(row: Row, job: Job)
    requires
        row.fresh(job),
    ensures
        row.id@ == job.spec.id@,
        row.label@ == job.spec.label@,
        row.status == job.status,
        row.exit_code == job.exit_code,
        row.started == job.started,
        row.elapsed == job.elapsed,
        row.log@ == job.log@,
        job.message@.len() <= 256 ==> row.message@ == job.message@,
        job.message@.len() > 256 ==> row.message@ == job.message@.take(256),
{
}

/// The activity of a running row is the last line of its log, headers of logs
/// aside.
pub proof fn activity_is_the_last_line(list: Seq<Seq<char>>, line: Seq<char>)
    ensures
        !"# update-agents job "@.is_prefix_of(line) ==> last_output(list.push(line)) == Some(line),
        "# update-agents job "@.is_prefix_of(line) ==> last_output(list.push(line)) == last_output(
            list,
        ),
        last_output(Seq::empty()) is None,
{
    assert(list.push(line).drop_last() =~= list);
}

/// The activity of a running row is that line, clipped to its column, or a
/// dash without any.
pub proof fn running_rows_show_their_last_line(text: Seq<char>)
    ensures
        last_output(nonblank_lines(text)) matches Some(line) ==> tail_activity(text) == cell_clip(
            line,
            160,
        ),
        last_output(nonblank_lines(text)) is None ==> tail_activity(text) == seq!['-'],
{
    reveal_strlit("-");
    assert("-"@ =~= seq!['-']);
}

/// The time of a running row counts from its start, that of a finished one is
/// the time it took, and one that waits shows none.
pub proof fn times_count_from_the_start(row: Row, now: TimeSpan)
    requires
        now.nanos < 1_000_000_000,
    ensures
        row.status is Running ==> (row.started matches Some(s) ==> s.nanos < 1_000_000_000 ==> {
            let passed = (now.secs - s.secs) * 1_000_000_000 + (now.nanos - s.nanos);
            passed >= 0 ==> shown_secs(row, now) * 1_000_000_000 <= passed < (shown_secs(row, now)
                + 1) * 1_000_000_000
        }),
        row.status is Queued ==> shown_secs(row, now) == 0,
        row.status.terminal() ==> shown_secs(row, now) == row.elapsed.secs,
        row.started is None ==> row.time_shown(now) == seq!['-'],
        row.started is Some ==> row.time_shown(now) == duration_form(shown_secs(row, now) as int),
{
    reveal_strlit("-");
    assert("-"@ =~= seq!['-']);
    if let Some(s) = row.started {
        if s.nanos < 1_000_000_000 {
            spans_are_differences(s, now);
        }
    }
}

/// The counts of the rows are the numbers of rows with each status; what is
/// neither waiting nor running is done.
pub proof fn rows_are_counted_by_status(counts: Counts, rows: Seq<Row>)
    requires
        counts_of(counts, rows),
    ensures
        counts.total == rows.len(),
        counts.ok == rows.filter(|r: Row| r.status is Succeeded).len(),
        counts.failed == rows.filter(|r: Row| r.status is Failed).len(),
        counts.blocked == rows.filter(|r: Row| r.status is Blocked).len(),
        counts.skipped == rows.filter(|r: Row| r.status is Skipped).len(),
        counts.running == rows.filter(|r: Row| r.status is Running).len(),
        counts.queued == rows.filter(|r: Row| r.status is Queued).len(),
        counts.cancelled == rows.filter(|r: Row| r.status is Cancelled).len(),
        counts.timed_out == rows.filter(|r: Row| r.status is TimedOut).len(),
        counts.done == rows.len() - counts.running - counts.queued,
{
    lemma_rows_filter(rows, |s: Status| s is Succeeded, |r: Row| r.status is Succeeded);
    lemma_rows_filter(rows, |s: Status| s is Failed, |r: Row| r.status is Failed);
    lemma_rows_filter(rows, |s: Status| s is Blocked, |r: Row| r.status is Blocked);
    lemma_rows_filter(rows, |s: Status| s is Skipped, |r: Row| r.status is Skipped);
    lemma_rows_filter(rows, |s: Status| s is Running, |r: Row| r.status is Running);
    lemma_rows_filter(rows, |s: Status| s is Queued, |r: Row| r.status is Queued);
    lemma_rows_filter(rows, |s: Status| s is Cancelled, |r: Row| r.status is Cancelled);
    lemma_rows_filter(rows, |s: Status| s is TimedOut, |r: Row| r.status is TimedOut);
}

proof fn lemma_rows_filter(
    rows: Seq<Row>,
    want: spec_fn(Status) -> bool,
    keep: spec_fn(Row) -> bool,
)
    requires
        forall|r: Row| #[trigger] keep(r) <==> want(r.status),
    ensures
        count_rows(rows, want) == rows.filter(keep).len(),
    decreases rows.len(),
{
    reveal(Seq::filter);
    if rows.len() > 0 {
        lemma_rows_filter(rows.drop_last(), want, keep);
        assert(keep(rows.last()) <==> want(rows.last().status));
    }
}

/// On a screen wide enough every column has the width of its widest cell, up
/// to its bound; the activity takes what is left.
pub proof fn wide_screens_show_every_column(width: int, id: int, version: int)
    requires
        width >= 100,
        id >= 0,
        version >= 0,
    ensures
        ({
            let (c_id, c_version, c_time, c_activity) = columns_of(width, Some(id), Some(version));
            &&& 4 <= id <= 18 ==> c_id == id
            &&& id < 4 ==> c_id == 4
            &&& id > 18 ==> c_id == 18
            &&& 8 <= version <= 22 ==> c_version == version
            &&& version < 8 ==> c_version == 8
            &&& version > 22 ==> c_version == 22
            &&& c_time == 8
            &&& c_activity == width - (c_id + 1 + 12 + 1 + 8 + c_version + 1) - 1
        }),
{
}

/// On a narrow screen the activity goes first, then the version, then the
/// time; id and status stay.
pub proof fn narrow_screens_give_up_columns(width: int, id: int, version: int)
    requires
        4 <= id <= 18,
        8 <= version,
        width >= 0,
    ensures
        ({
            let (c_id, c_version, c_time, c_activity) = columns_of(width, Some(id), Some(version));
            let left = c_id + 1 + 12;
            &&& c_id >= 3
            &&& width >= id + 14 ==> c_id == id
            &&& c_time > 0 <==> width > left + 8
            &&& c_version > 0 ==> c_time > 0
            &&& width < left + 9 + 20 ==> c_version == 0
            &&& c_activity == 0 || c_activity >= 10
        }),
{
}

/// The widest id is that of a row, and none is wider; the same holds of the
/// versions.
pub proof fn the_widest_cell_is_a_cell(rows: Seq<Row>)
    ensures
        rows.len() == 0 ==> widest_id(rows) is None && widest_version(rows) is None,
        rows.len() > 0 ==> widest_id(rows) is Some && widest_version(rows) is Some,
        forall|i: int|
            0 <= i < rows.len() ==> display_width((#[trigger] rows[i]).id@) <= widest_id(rows)->0
                && display_width(rows[i].version@) <= widest_version(rows)->0,
        rows.len() > 0 ==> exists|i: int|
            0 <= i < rows.len() && display_width((#[trigger] rows[i]).id@) == widest_id(rows)->0,
        rows.len() > 0 ==> exists|i: int|
            0 <= i < rows.len() && display_width((#[trigger] rows[i]).version@) == widest_version(
                rows,
            )->0,
    decreases rows.len(),
{
    if rows.len() > 0 {
        let rest = rows.drop_last();
        the_widest_cell_is_a_cell(rest);
        assert forall|i: int| 0 <= i < rows.len() implies display_width((#[trigger] rows[i]).id@)
            <= widest_id(rows)->0 && display_width(rows[i].version@) <= widest_version(rows)->0 by {
            if i < rest.len() {
                assert(rows[i] == rest[i]);
            }
        }
        assert(rows[rows.len() - 1] == rows.last());
        if rest.len() > 0 {
            let i = choose|i: int|
                0 <= i < rest.len() && display_width((#[trigger] rest[i]).id@) == widest_id(rest)->0;
            let j = choose|j: int|
                0 <= j < rest.len() && display_width((#[trigger] rest[j]).version@)
                    == widest_version(rest)->0;
            assert(rows[i] == rest[i] && rows[j] == rest[j]);
        }
    }
}

/// One more job counts under its own status, and under what is done unless it
/// waits or runs.
pub proof fn jobs_count_under_their_status(counts: Counts, next: Counts, status: Status)
    requires
        counts.counted(next, status),
    ensures
        next.total == counts.total + 1,
        status is Succeeded ==> next.ok == counts.ok + 1,
        !(status is Succeeded) ==> next.ok == counts.ok,
        status is Failed ==> next.failed == counts.failed + 1,
        !(status is Failed) ==> next.failed == counts.failed,
        status is Blocked ==> next.blocked == counts.blocked + 1,
        !(status is Blocked) ==> next.blocked == counts.blocked,
        status is Skipped ==> next.skipped == counts.skipped + 1,
        !(status is Skipped) ==> next.skipped == counts.skipped,
        status is Running ==> next.running == counts.running + 1,
        !(status is Running) ==> next.running == counts.running,
        status is Queued ==> next.queued == counts.queued + 1,
        !(status is Queued) ==> next.queued == counts.queued,
        status is Cancelled ==> next.cancelled == counts.cancelled + 1,
        !(status is Cancelled) ==> next.cancelled == counts.cancelled,
        status is TimedOut ==> next.timed_out == counts.timed_out + 1,
        !(status is TimedOut) ==> next.timed_out == counts.timed_out,
        status is Running || status is Queued ==> next.done == counts.done,
        !(status is Running) && !(status is Queued) ==> next.done == counts.done + 1,
{
}

/// A row that does not run shows its message, or a dash without one.
pub proof fn still_rows_show_their_message(message: Seq<char>)
    ensures
        message.len() == 0 ==> still_activity(message) == seq!['-'],
        message.len() > 0 ==> still_activity(message) == cell_clip(trimmed(message), 160),
{
    reveal_strlit("-");
    assert("-"@ =~= seq!['-']);
}

/// Nothing is counted at first.
pub proof fn nothing_is_counted_at_first()
    ensures
        ({
            let c = no_counts();
            &&& c.total == 0 && c.done == 0 && c.ok == 0 && c.failed == 0 && c.blocked == 0
            &&& c.skipped == 0 && c.running == 0 && c.queued == 0 && c.cancelled == 0
            &&& c.timed_out == 0
        }),
{
}

/// The exact widths of the columns on any screen: the id as wide as its widest
/// cell, from four to eighteen, as far as the status leaves room, but at least
/// three; then the time, where it fits; then the version, from eight to
/// twenty-two, as far as twelve columns stay for the activity.
pub proof fn columns_share_the_screen(width: int, id: int, version: int)
    requires
        width >= 0,
        4 <= id <= 18,
        8 <= version <= 22,
    ensures
        ({
            let (c_id, c_version, c_time, c_activity) = columns_of(width, Some(id), Some(version));
            let used = c_id + 13 + (if c_time > 0 {
                9int
            } else {
                0
            });
            &&& width >= id + 14 ==> c_id == id
            &&& 17 <= width < id + 14 ==> c_id == width - 14
            &&& width < 17 ==> c_id == 3
            &&& c_time == (if width > c_id + 21 {
                8int
            } else {
                0
            })
            &&& width >= used + 20 && version <= width - used - 12 ==> c_version == version
            &&& width >= used + 20 && version > width - used - 12 ==> c_version == width - used
                - 12
            &&& width < used + 20 ==> c_version == 0
            &&& c_version > 0 ==> {
                let left = width - used - c_version - 2;
                c_activity == if left >= 10 {
                    left
                } else {
                    0
                }
            }
            &&& c_version == 0 ==> {
                let left = width - used - 1;
                c_activity == if left >= 10 {
                    left
                } else {
                    0
                }
            }
        }),
{
}

/// Without any row the columns have their least widths.
pub proof fn empty_tables_have_narrow_columns(width: int)
    ensures
        columns_of(width, None, None) == columns_of(width, Some(4int), Some(8int)),
{
}

/// Texts longer than two hundred and fifty-six characters are cut there.
pub proof fn rows_cut_long_texts(before: Row, after: Row, job: Job)
    requires
        took_in(before, after, job),
    ensures
        job.before@.len() > 256 ==> after.before@ == job.before@.take(256),
        job.after@.len() > 256 ==> after.after@ == job.after@.take(256),
        job.message@.len() > 256 ==> after.message@ == job.message@.take(256),
        !after.version_dirty && !after.message_dirty,
        before.version_dirty ==> after.version@ == version_shown(after.before@, after.after@)
            && after.version_dim == version_faint(after.before@, after.after@, job.status),
        !before.version_dirty && before.before@ == job.before@ && before.after@ == job.after@
            ==> after.version@ == before.version@ && after.version_dim == before.version_dim,
{
}

} // verus!
