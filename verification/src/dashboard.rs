//! The state of the live dashboard: what it shows and how it answers keys.

use vstd::arithmetic::div_mod::{
    lemma_add_mod_noop_right, lemma_fundamental_div_mod, lemma_fundamental_div_mod_converse,
    lemma_mod_add_multiples_vanish,
};
use vstd::prelude::*;
use vstd::string::*;

use crate::bytes::PathBytes;
use crate::cells::{status_code, status_number, statuses_are_told_apart};
use crate::clock::{span_between, spans_are_differences, TimeSpan};
use crate::fingerprint::{bit, fingerprint, Fingerprint, Mark};
use crate::model::{Job, RunState, Status};
use crate::row::{
    count_all, counts_of, no_counts, shown_secs, still_activity, tail_activity,
    took_in, version_faint, version_shown, Counts, Row, TEXT_CAP,
};
use crate::text::{capped, chars_of, lines, split_lines, texts};

verus! {

/// Cadence while the run is active: at most 8 rounds per second.
pub const TICK_MS: u64 = 125;

/// How long the finished screen stays, in seconds.
pub const COMPLETION_WAIT_SECS: u64 = 5;

/// Minimum interval between reads of the detail log, in milliseconds.
pub const DETAIL_REFRESH_MS: u64 = 250;

/// How much of the end of a log the detail view reads, in bytes.
pub const DETAIL_BYTES: usize = 8192;

/// How much of the end of a log the activity of a row is taken from, in
/// bytes.
pub const ACTIVITY_BYTES: usize = 192;

/// A key.
#[derive(Clone, Copy, Debug, PartialEq, Eq, Structural)]
pub enum Key {
    Char(char),
    Up,
    Down,
    PageUp,
    PageDown,
    Enter,
    Esc,
    Other,
}

/// A key press.
#[derive(Clone, Copy, Debug, PartialEq, Eq, Structural)]
pub struct KeyPress {
    pub key: Key,
    /// The control key is held.
    pub control: bool,
}

/// The state of the dashboard.
#[derive(Debug)]
pub struct Dashboard {
    /// The user named the tools: then not-detected rows stay visible.
    pub explicit: bool,
    pub rows: Vec<Row>,
    pub sel: usize,
    /// Cursor of the one activity read per tick, row by row.
    pub rot: usize,
    /// Last known height of the list.
    pub list_h: u16,
    /// Last known height of the detail log.
    pub log_h: u16,
    pub detail_open: bool,
    /// The detail log follows its end until the user scrolls away.
    pub follow: bool,
    pub log_scroll: usize,
    pub help: bool,
    pub confirm: bool,
    pub tail_path: Option<PathBytes>,
    pub tail_text: String,
    pub tail_at: TimeSpan,
    pub tail_pending: bool,
    pub counts: Counts,
    pub done: bool,
    /// When the finished screen goes away.
    pub exit_at: Option<TimeSpan>,
    /// The run is being cancelled.
    pub cancelled: bool,
    /// Run clock: live while running, then the length of the run.
    pub run_elapsed: u64,
    /// Fingerprint of everything shown.
    pub sig: u64,
    pub drawn_sig: u64,
}

/// Row `i` is in the list: not-detected tools stay out of it, unless they
/// were selected.
pub open spec fn row_visible(rows: Seq<Row>, explicit: bool, i: int) -> bool {
    !rows[i].status.hidden(explicit)
}

/// The first visible row from `i` on, nothing when there is none.
pub open spec fn first_visible(rows: Seq<Row>, explicit: bool, i: int) -> Option<int>
    decreases rows.len() - i,
{
    if i < 0 || i >= rows.len() {
        None
    } else if row_visible(rows, explicit, i) {
        Some(i)
    } else {
        first_visible(rows, explicit, i + 1)
    }
}

/// The last visible row before `i`, nothing when there is none.
pub open spec fn last_visible(rows: Seq<Row>, explicit: bool, i: int) -> Option<int>
    decreases i,
{
    if i <= 0 || i > rows.len() {
        None
    } else if row_visible(rows, explicit, i - 1) {
        Some(i - 1)
    } else {
        last_visible(rows, explicit, i - 1)
    }
}

/// The row `delta` further, around the ends of a list of `n` rows.
pub open spec fn stepped(at: int, delta: int, n: int) -> int {
    (at + delta) % n
}

/// The first visible row within `steps` steps, or where they lead.
pub open spec fn walked(rows: Seq<Row>, explicit: bool, at: int, delta: int, steps: nat) -> int
    decreases steps,
{
    if steps == 0 {
        at
    } else {
        let next = stepped(at, delta, rows.len() as int);
        if row_visible(rows, explicit, next) {
            next
        } else {
            walked(rows, explicit, next, delta, (steps - 1) as nat)
        }
    }
}

/// `row` shows `job` for the first time.
pub open spec fn first_shown(row: Row, job: Job) -> bool {
    &&& row.wf()
    &&& row.id@ == job.spec.id@
    &&& row.label@ == job.spec.label@
    &&& row.status == job.status
    &&& row.exit_code == job.exit_code
    &&& row.started == job.started
    &&& row.elapsed == job.elapsed
    &&& row.log@ == job.log@
    &&& row.before@ == capped(job.before@, TEXT_CAP as int)
    &&& row.after@ == capped(job.after@, TEXT_CAP as int)
    &&& row.message@ == capped(job.message@, TEXT_CAP as int)
    &&& row.version@ == version_shown(row.before@, row.after@)
    &&& row.version_dim == version_faint(row.before@, row.after@, job.status)
    &&& row.activity@ == (if job.status is Running {
        "-"@
    } else {
        still_activity(row.message@)
    })
    &&& !row.version_dirty
    &&& !row.message_dirty
}

/// The highest scroll position of a log of `lines` lines.
pub open spec fn max_scroll(lines: int, height: int) -> int {
    let h = if height < 1 {
        1
    } else {
        height
    };
    if lines > h {
        lines - h
    } else {
        0
    }
}

/// How far a page goes.
pub open spec fn page_step(height: int) -> int {
    if height < 2 {
        1
    } else {
        height - 1
    }
}

impl Dashboard {
    /// The selection is a row, and the rows are well-formed.
    pub open spec fn wf(self) -> bool {
        &&& self.sel < self.rows@.len() || (self.rows@.len() == 0 && self.sel == 0)
        &&& self.rot < usize::MAX
        &&& self.exit_at matches Some(t) ==> t.wf() && t.secs < u64::MAX
        &&& forall|i: int| 0 <= i < self.rows@.len() ==> (#[trigger] self.rows@[i]).wf()
    }

    /// An empty dashboard.
    pub fn new(explicit: bool, now: TimeSpan) -> (r: Dashboard)
        ensures
            r.wf(),
            r.explicit == explicit,
            r.rows@.len() == 0,
            r.sel == 0,
            r.rot == 0,
            r.list_h == 10,
            r.log_h == 10,
            !r.detail_open,
            r.follow,
            r.log_scroll == 0,
            !r.help,
            !r.confirm,
            r.tail_path is None,
            r.tail_text@.len() == 0,
            r.tail_at == now,
            !r.tail_pending,
            r.counts == no_counts(),
            !r.done,
            r.exit_at is None,
            !r.cancelled,
            r.run_elapsed == 0,
            r.sig == 0,
            r.drawn_sig == 1,
    {
        Dashboard {
            explicit,
            rows: Vec::new(),
            sel: 0,
            rot: 0,
            list_h: 10,
            log_h: 10,
            detail_open: false,
            follow: true,
            log_scroll: 0,
            help: false,
            confirm: false,
            tail_path: None,
            tail_text: String::new(),
            tail_at: now,
            tail_pending: false,
            counts: Counts::default(),
            done: false,
            exit_at: None,
            cancelled: false,
            run_elapsed: 0,
            sig: 0,
            drawn_sig: 1,
        }
    }

    /// Whether row `i` is in the list.
    pub fn is_visible(&self, i: usize) -> (r: bool)
        requires
            i < self.rows@.len(),
        ensures
            r == row_visible(self.rows@, self.explicit, i as int),
    {
        !self.rows[i].status.hidden_from_list(self.explicit)
    }

    fn find_visible(&self, from: usize) -> (r: Option<usize>)
        ensures
            match first_visible(self.rows@, self.explicit, from as int) {
                Some(i) => r matches Some(k) && k == i,
                None => r is None,
            },
            r matches Some(k) ==> k < self.rows@.len(),
    {
        let mut i: usize = from;
        while i < self.rows.len()
            invariant
                first_visible(self.rows@, self.explicit, from as int) == first_visible(
                    self.rows@,
                    self.explicit,
                    i as int,
                ),
            decreases self.rows@.len() - i,
        {
            if self.is_visible(i) {
                return Some(i);
            }
            i = i + 1;
        }
        None
    }

    fn find_visible_before(&self, from: usize) -> (r: Option<usize>)
        requires
            from <= self.rows@.len(),
        ensures
            match last_visible(self.rows@, self.explicit, from as int) {
                Some(i) => r matches Some(k) && k == i,
                None => r is None,
            },
            r matches Some(k) ==> k < self.rows@.len(),
    {
        let mut i: usize = from;
        while i > 0
            invariant
                i <= self.rows@.len(),
                last_visible(self.rows@, self.explicit, from as int) == last_visible(
                    self.rows@,
                    self.explicit,
                    i as int,
                ),
            decreases i,
        {
            if self.is_visible(i - 1) {
                return Some(i - 1);
            }
            i = i - 1;
        }
        None
    }

    // -- snapshots ----------------------------------------------------------

    fn take_rows(&mut self, jobs: &Vec<Job>)
        requires
            old(self).wf(),
        ensures
            final(self).rows@.len() == jobs@.len(),
            old(self).rows@.len() == jobs@.len() ==> forall|i: int|
                0 <= i < jobs@.len() ==> took_in(
                    old(self).rows@[i],
                    #[trigger] final(self).rows@[i],
                    jobs@[i],
                ),
            old(self).rows@.len() != jobs@.len() ==> forall|i: int|
                0 <= i < jobs@.len() ==> first_shown(#[trigger] final(self).rows@[i], jobs@[i]),
            final(self).sel == (if old(self).rows@.len() == jobs@.len() {
                old(self).sel as int
            } else {
                match first_visible(final(self).rows@, old(self).explicit, 0) {
                    Some(i) => i,
                    None => 0,
                }
            }),
            *final(self) == (Dashboard {
                rows: final(self).rows,
                sel: final(self).sel,
                ..*old(self)
            }),
            final(self).wf(),
    {
        let rebuilt = self.rows.len() != jobs.len();
        if rebuilt {
            let mut rows: Vec<Row> = Vec::new();
            for i in 0..jobs.len()
                invariant
                    rows@.len() == i,
                    forall|k: int| 0 <= k < i ==> (#[trigger] rows@[k]).fresh(jobs@[k]),
            {
                rows.push(Row::new(&jobs[i]));
            }
            self.rows = rows;
        }
        let ghost start = self.rows@;
        for i in 0..jobs.len()
            invariant
                self.rows@.len() == jobs@.len(),
                start.len() == jobs@.len(),
                forall|k: int| 0 <= k < start.len() ==> (#[trigger] start[k]).wf(),
                *self == (Dashboard { rows: self.rows, ..*old(self) }),
                forall|k: int| 0 <= k < i ==> took_in(start[k], #[trigger] self.rows@[k], jobs@[k]),
                forall|k: int| i <= k < jobs@.len() ==> #[trigger] self.rows@[k] == start[k],
        {
            self.rows[i].update(&jobs[i]);
        }
        if rebuilt {
            self.sel =
            match self.find_visible(0) {
                Some(i) => i,
                None => 0,
            };
            proof {
                reveal_strlit("-");
                assert forall|k: int| 0 <= k < jobs@.len() implies first_shown(
                    #[trigger] self.rows@[k],
                    jobs@[k],
                ) by {
                    assert(start[k].fresh(jobs@[k]));
                    assert(took_in(start[k], self.rows@[k], jobs@[k]));
                }
            }
        }
    }

    /// The run has just finished.
    pub open spec fn finishes(self, state: RunState) -> bool {
        state.done && !self.done
    }

    /// `next` is `self` with the state of the run at `now` taken in. The first
    /// finished snapshot closes the dialogs, latches the run clock and starts
    /// the countdown.
    pub open spec fn took_snapshot(
        self,
        state: RunState,
        cancelled: bool,
        now: TimeSpan,
        next: Dashboard,
    ) -> bool {
        &&& next.rows@.len() == state.jobs@.len()
        &&& self.rows@.len() == state.jobs@.len() ==> forall|i: int|
            0 <= i < state.jobs@.len() ==> took_in(
                self.rows@[i],
                #[trigger] next.rows@[i],
                state.jobs@[i],
            )
        &&& self.rows@.len() != state.jobs@.len() ==> forall|i: int|
            0 <= i < state.jobs@.len() ==> first_shown(
                #[trigger] next.rows@[i],
                state.jobs@[i],
            )
        &&& next.sel == (if self.rows@.len() == state.jobs@.len() {
            self.sel as int
        } else {
            match first_visible(next.rows@, self.explicit, 0) {
                Some(i) => i,
                None => 0,
            }
        })
        &&& counts_of(next.counts, next.rows@)
        &&& next.done == state.done
        &&& next.cancelled == cancelled
        &&& next.run_elapsed == (if !state.done || self.finishes(state) {
            span_between(state.started, now).secs
        } else {
            self.run_elapsed
        })
        &&& next.exit_at == (if self.finishes(state) {
            Some(
                TimeSpan { secs: (now.secs + COMPLETION_WAIT_SECS) as u64, nanos: now.nanos },
            )
        } else {
            self.exit_at
        })
        &&& next.help == (self.help && !self.finishes(state))
        &&& next.confirm == (self.confirm && !self.finishes(state))
        &&& next.tail_pending == (self.tail_pending || self.finishes(state))
        &&& next.sig == fingerprint(next.marks(now))
        &&& next == (Dashboard {
            rows: next.rows,
            sel: next.sel,
            counts: next.counts,
            done: next.done,
            cancelled: next.cancelled,
            run_elapsed: next.run_elapsed,
            exit_at: next.exit_at,
            help: next.help,
            confirm: next.confirm,
            tail_pending: next.tail_pending,
            sig: next.sig,
            ..self
        })
    }

    /// Takes in the state of the run at `now`.
    pub fn snapshot(&mut self, state: &RunState, cancelled: bool, now: TimeSpan)
        requires
            old(self).wf(),
            now.wf(),
            now.secs < u64::MAX - COMPLETION_WAIT_SECS,
        ensures
            final(self).wf(),
            old(self).took_snapshot(*state, cancelled, now, *final(self)),
    {
        self.take_rows(&state.jobs);
        self.counts = count_all(&self.rows);
        if state.done && !self.done {
            self.exit_at = Some(
                TimeSpan { secs: now.secs + COMPLETION_WAIT_SECS, nanos: now.nanos },
            );
            self.help = false;
            self.confirm = false;
            self.tail_pending = true;
            self.run_elapsed = now.since(&state.started).secs;
        }
        self.done = state.done;
        if !state.done {
            self.run_elapsed = now.since(&state.started).secs;
        }
        self.cancelled = cancelled;
        self.compute_sig(now);
    }

    /// The time until the finished screen goes away, nothing while the run is
    /// active.
    pub fn completion_remaining(&self, now: TimeSpan) -> (r: Option<TimeSpan>)
        requires
            self.wf(),
        ensures
            r == (match self.exit_at {
                Some(t) => Some(span_between(now, t)),
                None => None,
            }),
            r matches Some(t) ==> t.wf() && t.secs < u64::MAX,
    {
        match &self.exit_at {
            Some(t) => Some(t.since(&now)),
            None => None,
        }
    }

    /// The seconds of the countdown, a started second counted in full.
    pub open spec fn countdown(self, now: TimeSpan) -> u64 {
        match self.exit_at {
            Some(t) => {
                let left = span_between(now, t);
                if left.nanos == 0 {
                    left.secs
                } else {
                    (left.secs + 1) as u64
                }
            },
            None => 0,
        }
    }

    /// The seconds of the countdown, a started second counted in full.
    pub fn completion_seconds(&self, now: TimeSpan) -> (r: u64)
        requires
            self.wf(),
        ensures
            r == self.countdown(now),
    {
        match self.completion_remaining(now) {
            Some(left) => left.rounded_up_secs(),
            None => 0,
        }
    }

    /// How long to wait for a key, nothing when the screen goes away now: a
    /// tick while the run is active, then at most a second of the countdown.
    pub fn poll_wait(&self, now: TimeSpan) -> (r: Option<TimeSpan>)
        requires
            self.wf(),
        ensures
            match self.exit_at {
                None => r == Some(TimeSpan { secs: 0, nanos: 125_000_000 }),
                Some(t) => {
                    let left = span_between(now, t);
                    if left.total() == 0 {
                        r is None
                    } else if left.secs >= 1 {
                        r == Some(TimeSpan { secs: 1, nanos: 0 })
                    } else {
                        r == Some(left)
                    }
                },
            },
    {
        match self.completion_remaining(now) {
            None => Some(TimeSpan { secs: 0, nanos: 125_000_000 }),
            Some(left) => {
                if left.is_zero() {
                    None
                } else if left.secs >= 1 {
                    Some(TimeSpan::from_secs(1))
                } else {
                    Some(left)
                }
            },
        }
    }

    /// Whether the screen is to be drawn: it was asked for, or something that
    /// is shown has changed.
    pub fn needs_draw(&self, forced: bool) -> (r: bool)
        ensures
            r == (forced || self.drawn_sig != self.sig),
    {
        forced || self.drawn_sig != self.sig
    }

    // -- fingerprint --------------------------------------------------------

    /// The counts in the fingerprint.
    pub open spec fn count_marks(self) -> Seq<Mark> {
        seq![
            Mark::Number(self.counts.total as u64),
            Mark::Number(self.counts.done as u64),
            Mark::Number(self.counts.ok as u64),
            Mark::Number(self.counts.failed as u64),
            Mark::Number(self.counts.blocked as u64),
            Mark::Number(self.counts.skipped as u64),
            Mark::Number(self.counts.running as u64),
            Mark::Number(self.counts.queued as u64),
            Mark::Number(self.counts.cancelled as u64),
            Mark::Number(self.counts.timed_out as u64),
        ]
    }

    /// The state of the run in the fingerprint.
    pub open spec fn run_marks(self, now: TimeSpan) -> Seq<Mark> {
        seq![
            Mark::Number(self.run_elapsed),
            Mark::Number(bit(self.done)),
            Mark::Number(self.countdown(now)),
            Mark::Number(bit(self.cancelled)),
        ]
    }

    /// The state of the view in the fingerprint.
    pub open spec fn view_marks(self) -> Seq<Mark> {
        seq![
            Mark::Number(bit(self.help)),
            Mark::Number(bit(self.confirm)),
            Mark::Number(bit(self.detail_open)),
            Mark::Number(bit(self.follow)),
            Mark::Number(self.sel as u64),
            Mark::Number(self.log_scroll as u64),
            Mark::Text(self.tail_text@),
        ]
    }

    /// Everything that goes into the fingerprint.
    pub open spec fn marks(self, now: TimeSpan) -> Seq<Mark> {
        self.count_marks() + self.run_marks(now) + self.view_marks() + rows_marks(
            self.rows@,
            now,
        )
    }

    fn count_sig(&self, f: &mut Fingerprint)
        requires
            old(f).wf(),
        ensures
            final(f).wf(),
            final(f).marks@ == old(f).marks@ + self.count_marks(),
    {
        f.number(self.counts.total as u64);
        f.number(self.counts.done as u64);
        f.number(self.counts.ok as u64);
        f.number(self.counts.failed as u64);
        f.number(self.counts.blocked as u64);
        f.number(self.counts.skipped as u64);
        f.number(self.counts.running as u64);
        f.number(self.counts.queued as u64);
        f.number(self.counts.cancelled as u64);
        f.number(self.counts.timed_out as u64);
        assert(f.marks@ =~= old(f).marks@ + self.count_marks());
    }

    fn run_sig(&self, f: &mut Fingerprint, now: TimeSpan)
        requires
            self.wf(),
            old(f).wf(),
        ensures
            final(f).wf(),
            final(f).marks@ == old(f).marks@ + self.run_marks(now),
    {
        f.number(self.run_elapsed);
        f.flag(self.done);
        f.number(self.completion_seconds(now));
        f.flag(self.cancelled);
        assert(f.marks@ =~= old(f).marks@ + self.run_marks(now));
    }

    fn view_sig(&self, f: &mut Fingerprint)
        requires
            old(f).wf(),
        ensures
            final(f).wf(),
            final(f).marks@ == old(f).marks@ + self.view_marks(),
    {
        f.flag(self.help);
        f.flag(self.confirm);
        f.flag(self.detail_open);
        f.flag(self.follow);
        f.number(self.sel as u64);
        f.number(self.log_scroll as u64);
        f.text(self.tail_text.as_str());
        assert(f.marks@ =~= old(f).marks@ + self.view_marks());
    }

    /// Fingerprint of everything that is shown; an unchanged fingerprint
    /// skips the draw.
    pub fn compute_sig(&mut self, now: TimeSpan)
        requires
            old(self).wf(),
            now.wf(),
        ensures
            final(self).sig == fingerprint(old(self).marks(now)),
            *final(self) == (Dashboard { sig: final(self).sig, ..*old(self) }),
            final(self).wf(),
    {
        let mut f = Fingerprint::new();
        self.count_sig(&mut f);
        self.run_sig(&mut f, now);
        self.view_sig(&mut f);
        let ghost head = self.count_marks() + self.run_marks(now) + self.view_marks();
        assert(f.marks@ =~= head);
        assert(head + Seq::<Mark>::empty() =~= head);
        for i in 0..self.rows.len()
            invariant
                now.wf(),
                f.wf(),
                f.marks@ == head + rows_marks(self.rows@.take(i as int), now),
        {
            assert(self.rows@.take(i + 1).drop_last() =~= self.rows@.take(i as int));
            row_sig(&mut f, &self.rows[i], now);
            assert(f.marks@ =~= head + rows_marks(self.rows@.take(i + 1), now));
        }
        assert(self.rows@.take(self.rows@.len() as int) =~= self.rows@);
        self.sig = f.value;
    }

    // -- logs ---------------------------------------------------------------

    /// The detail log is to be read now: it is open, and its text is missing
    /// or, while the run is active, old.
    pub open spec fn detail_is_due(self, now: TimeSpan) -> bool {
        self.detail_open && (self.tail_pending || (!self.done && span_between(
            self.tail_at,
            now,
        ).total() >= 250_000_000)) && self.tail_path is Some
    }

    /// The detail log to read now, nothing when it is not due.
    pub fn detail_due(&self, now: TimeSpan) -> (r: Option<PathBytes>)
        requires
            now.wf(),
        ensures
            r is Some <==> self.detail_is_due(now),
            r matches Some(p) ==> p@ == self.tail_path->0@,
    {
        if !self.detail_open {
            return None;
        }
        let interval = TimeSpan { secs: 0, nanos: 250_000_000 };
        let due = self.tail_pending || (!self.done && now.since(&self.tail_at).reached(&interval));
        if !due {
            return None;
        }
        match &self.tail_path {
            Some(p) => Some(p.clone()),
            None => None,
        }
    }

    /// Takes in the text of the detail log that was read at `now`.
    pub fn take_detail(&mut self, text: String, now: TimeSpan)
        ensures
            final(self).tail_text@ == text@,
            *final(self) == (Dashboard {
                tail_text: final(self).tail_text,
                tail_at: now,
                tail_pending: false,
                ..*old(self)
            }),
    {
        self.tail_text = text;
        self.tail_at = now;
        self.tail_pending = false;
    }

    /// The next running row behind the cursor, whose log is read in this
    /// tick. The cursor moves to it, or once around the rows.
    pub fn next_activity_row(&mut self) -> (r: Option<usize>)
        requires
            old(self).wf(),
        ensures
            final(self).wf(),
            *final(self) == (Dashboard { rot: final(self).rot, ..*old(self) }),
            old(self).done || old(self).rows@.len() == 0 ==> r is None && final(self).rot == old(
                self,
            ).rot,
            !old(self).done && old(self).rows@.len() > 0 ==> match next_running(
                old(self).rows@,
                old(self).rot as int,
                old(self).rows@.len(),
            ) {
                Some(i) => r matches Some(k) && k == i && final(self).rot == i && k < old(
                    self,
                ).rows@.len(),
                None => r is None && final(self).rot == old(self).rot as int % (old(
                    self,
                ).rows@.len() as int),
            },
    {
        if self.done || self.rows.len() == 0 {
            return None;
        }
        let n: usize = self.rows.len();
        for i in 0..n
            invariant
                n == self.rows@.len(),
                n > 0,
                self.wf(),
                *self == (Dashboard { rot: self.rot, ..*old(self) }),
                !old(self).done,
                next_running(old(self).rows@, old(self).rot as int, n as nat) == next_running(
                    self.rows@,
                    self.rot as int,
                    (n - i) as nat,
                ),
                i == 0 ==> self.rot == old(self).rot,
                i > 0 ==> self.rot == (old(self).rot + i) % (n as int),
        {
            proof {
                lemma_add_mod_noop_right(1, old(self).rot + i, n as int);
            }
            self.rot = (self.rot + 1) % n;
            if self.rows[self.rot].status == Status::Running {
                return Some(self.rot);
            }
        }
        proof {
            lemma_mod_add_multiples_vanish(old(self).rot as int, n as int);
        }
        None
    }

    /// Takes in the end of the log of row `i`.
    pub fn take_activity(&mut self, i: usize, text: &str)
        requires
            old(self).wf(),
            i < old(self).rows@.len(),
        ensures
            final(self).wf(),
            final(self).rows@ == old(self).rows@.update(i as int, final(self).rows@[i as int]),
            final(self).rows@[i as int].activity@ == tail_activity(text@),
            final(self).rows@[i as int] == (Row {
                activity: final(self).rows@[i as int].activity,
                ..old(self).rows@[i as int]
            }),
            *final(self) == (Dashboard { rows: final(self).rows, ..*old(self) }),
    {
        self.rows[i].set_tail_activity(text);
        assert(self.rows@ =~= old(self).rows@.update(i as int, self.rows@[i as int]));
    }

    // -- keys ---------------------------------------------------------------

    /// The dashboard once the run is being cancelled.
    pub open spec fn as_cancelled(self) -> Dashboard {
        Dashboard { confirm: false, cancelled: true, ..self }
    }

    /// Asks for the cancellation of the run.
    pub fn cancel(&mut self)
        ensures
            *final(self) == old(self).as_cancelled(),
    {
        self.confirm = false;
        self.cancelled = true;
    }

    /// `next` is `self` with its detail log pointed at the selected row.
    pub open spec fn synced(self, next: Dashboard) -> bool {
        if !self.detail_open || self.rows@.len() == 0 {
            next == self
        } else {
            let path = self.rows@[self.sel as int].log@;
            if self.tail_path is Some && self.tail_path->0@ == path {
                next == self
            } else {
                &&& next.tail_path matches Some(p) && p@ == path
                &&& next.tail_text@.len() == 0
                &&& next == (Dashboard {
                    tail_path: next.tail_path,
                    tail_text: next.tail_text,
                    tail_pending: true,
                    log_scroll: 0,
                    follow: true,
                    ..self
                })
            }
        }
    }

    /// Points the detail log at the selected row when that has changed.
    pub fn sync_detail(&mut self)
        requires
            old(self).wf(),
        ensures
            old(self).synced(*final(self)),
            final(self).wf(),
    {
        if !self.detail_open || self.rows.len() == 0 {
            return;
        }
        let path = self.rows[self.sel].log.clone();
        let same = match &self.tail_path {
            Some(p) => p.same_as(&path),
            None => false,
        };
        if !same {
            self.tail_path = Some(path);
            self.tail_text = String::new();
            self.tail_pending = true;
            self.log_scroll = 0;
            self.follow = true;
        }
    }

    /// `next` is `self` with row `i` selected.
    pub open spec fn selected(self, i: int, next: Dashboard) -> bool {
        (Dashboard { sel: i as usize, ..self }).synced(next)
    }

    /// `next` is `self` after a step of the selection.
    pub open spec fn moved(self, delta: int, next: Dashboard) -> bool {
        let n = self.rows@.len();
        if n == 0 {
            next == self
        } else {
            self.selected(walked(self.rows@, self.explicit, self.sel as int, delta, n), next)
        }
    }

    /// Moves the selection by steps of `delta` to the next visible row,
    /// around the ends of the list, as many steps as there are rows at most.
    pub fn move_selection(&mut self, delta: isize)
        requires
            old(self).wf(),
        ensures
            final(self).wf(),
            old(self).moved(delta as int, *final(self)),
    {
        let n: usize = self.rows.len();
        if n == 0 {
            return;
        }
        let mut target: usize = self.sel;
        let mut found = false;
        let mut i: usize = 0;
        let ghost goal = walked(
            self.rows@,
            self.explicit,
            self.sel as int,
            delta as int,
            n as nat,
        );
        while i < n && !found
            invariant
                n == self.rows@.len(),
                n > 0,
                i <= n,
                target < n,
                found ==> goal == target,
                !found ==> goal == walked(
                    self.rows@,
                    self.explicit,
                    target as int,
                    delta as int,
                    (n - i) as nat,
                ),
            decreases n - i,
        {
            target = step_index(target, delta, n);
            if self.is_visible(target) {
                found = true;
            }
            i = i + 1;
        }
        self.sel = target;
        self.sync_detail();
    }

    /// The lines of the detail log.
    pub open spec fn log_lines(self) -> Seq<Seq<char>> {
        lines(self.tail_text@)
    }

    /// The highest scroll position of the detail log.
    pub fn max_log_scroll(&self) -> (r: usize)
        ensures
            r == max_scroll(self.log_lines().len() as int, self.log_h as int),
    {
        let all = split_lines(chars_of(self.tail_text.as_str()).as_slice());
        assert(texts(all@).len() == all@.len());
        let h: usize = if self.log_h < 1 {
            1
        } else {
            self.log_h as usize
        };
        all.len().saturating_sub(h)
    }

    /// The row that a page of the list leads to.
    pub open spec fn page_target(self, down: bool) -> int {
        let step = page_step(self.list_h as int);
        if down {
            if self.sel + step < self.rows@.len() {
                self.sel + step
            } else {
                self.rows@.len() - 1
            }
        } else if self.sel > step {
            self.sel - step
        } else {
            0
        }
    }

    /// The row that a page selects: the target, or the nearest visible row on
    /// the way back from it, or the one selected before.
    pub open spec fn page_selection(self, down: bool) -> int {
        let target = self.page_target(down);
        if row_visible(self.rows@, self.explicit, target) {
            target
        } else {
            let near = if down {
                last_visible(self.rows@, self.explicit, target)
            } else {
                first_visible(self.rows@, self.explicit, target + 1)
            };
            match near {
                Some(i) => i,
                None => self.sel as int,
            }
        }
    }

    /// `next` is `self` after a page, of the log when it is open, of the list
    /// otherwise.
    pub open spec fn paged(self, down: bool, next: Dashboard) -> bool {
        if self.detail_open {
            let step = page_step(self.log_h as int);
            let top = max_scroll(self.log_lines().len() as int, self.log_h as int);
            let at = if down {
                if self.log_scroll + step < top {
                    self.log_scroll + step
                } else {
                    top
                }
            } else if self.log_scroll > step {
                self.log_scroll - step
            } else {
                0
            };
            next == (Dashboard { log_scroll: at as usize, follow: down && at >= top, ..self })
        } else if self.rows@.len() == 0 {
            next == self
        } else {
            self.selected(self.page_selection(down), next)
        }
    }

    /// Pages the detail log when it is open, the list otherwise.
    pub fn page(&mut self, direction: isize)
        requires
            old(self).wf(),
        ensures
            final(self).wf(),
            old(self).paged(direction > 0, *final(self)),
    {
        let down = direction > 0;
        if self.detail_open {
            let step: usize = if self.log_h < 2 {
                1
            } else {
                self.log_h as usize - 1
            };
            if down {
                let max: usize = self.max_log_scroll();
                self.log_scroll =
                if max > self.log_scroll && max - self.log_scroll > step {
                    self.log_scroll + step
                } else {
                    max
                };
                self.follow = self.log_scroll >= max;
            } else {
                self.log_scroll = self.log_scroll.saturating_sub(step);
                self.follow = false;
            }
            return;
        }
        let n: usize = self.rows.len();
        if n == 0 {
            return;
        }
        let step: usize = if self.list_h < 2 {
            1
        } else {
            self.list_h as usize - 1
        };
        let target: usize = if down {
            if n - 1 - self.sel > step {
                self.sel + step
            } else {
                n - 1
            }
        } else {
            self.sel.saturating_sub(step)
        };
        if self.is_visible(target) {
            self.sel = target;
        } else {
            let near = if down {
                self.find_visible_before(target)
            } else {
                self.find_visible(target + 1)
            };
            if let Some(i) = near {
                self.sel = i;
            }
        }
        self.sync_detail();
    }

    /// `next` is `self` with the detail log opened or closed.
    pub open spec fn toggled(self, next: Dashboard) -> bool {
        if self.rows@.len() == 0 {
            next == self
        } else if self.detail_open {
            next == (Dashboard { detail_open: false, ..self })
        } else {
            (Dashboard {
                detail_open: true,
                tail_pending: true,
                follow: true,
                log_scroll: 0,
                ..self
            }).synced(next)
        }
    }

    /// Opens or closes the detail log of the selected row.
    pub fn toggle_detail(&mut self)
        requires
            old(self).wf(),
        ensures
            final(self).wf(),
            old(self).toggled(*final(self)),
    {
        if self.rows.len() == 0 {
            return;
        }
        self.detail_open = !self.detail_open;
        if self.detail_open {
            self.tail_pending = true;
            self.follow = true;
            self.log_scroll = 0;
            self.sync_detail();
        }
    }

    /// `next` is `self` after the key press while the run is active.
    pub open spec fn answered(self, press: KeyPress, next: Dashboard) -> bool {
        if press.control && press.key == Key::Char('c') {
            next == self.as_cancelled()
        } else if self.help {
            next == (Dashboard { help: false, ..self })
        } else if self.confirm {
            match press.key {
                Key::Char(c) => if c == 'y' || c == 'Y' {
                    next == self.as_cancelled()
                } else if c == 'n' || c == 'N' || c == 'q' {
                    next == (Dashboard { confirm: false, ..self })
                } else {
                    next == self
                },
                Key::Esc => next == (Dashboard { confirm: false, ..self }),
                _ => next == self,
            }
        } else {
            match press.key {
                Key::Char(c) => if c == 'j' {
                    self.moved(1, next)
                } else if c == 'k' {
                    self.moved(-1, next)
                } else if c == 'l' {
                    self.toggled(next)
                } else if c == '?' {
                    next == (Dashboard { help: true, ..self })
                } else if c == 'q' && !self.cancelled {
                    next == (Dashboard { confirm: true, ..self })
                } else {
                    next == self
                },
                Key::Down => self.moved(1, next),
                Key::Up => self.moved(-1, next),
                Key::PageDown => self.paged(true, next),
                Key::PageUp => self.paged(false, next),
                Key::Enter => self.toggled(next),
                Key::Esc => if !self.cancelled {
                    next == (Dashboard { confirm: true, ..self })
                } else {
                    next == self
                },
                Key::Other => next == self,
            }
        }
    }

    /// `next` is `self` after the key press, and `exits` tells whether the
    /// dashboard goes away: any key dismisses a finished run, and changes
    /// nothing.
    pub open spec fn reacted(self, press: KeyPress, exits: bool, next: Dashboard) -> bool {
        &&& exits == self.done
        &&& self.done ==> next == self
        &&& !self.done ==> self.answered(press, next)
    }

    fn ask_to_quit(&mut self)
        ensures
            *final(self) == (Dashboard {
                confirm: old(self).confirm || !old(self).cancelled,
                ..*old(self)
            }),
    {
        if !self.cancelled {
            self.confirm = true;
        }
    }

    /// Answers one key press; returns true when the dashboard goes away. Any
    /// key dismisses a finished run. While the run is active, control-c
    /// cancels it from any dialog or view, and quitting asks first.
    pub fn on_key(&mut self, press: KeyPress) -> (r: bool)
        requires
            old(self).wf(),
        ensures
            final(self).wf(),
            old(self).reacted(press, r, *final(self)),
    {
        if self.done {
            return true;
        }
        let interrupt = match press.key {
            Key::Char(c) => press.control && c == 'c',
            _ => false,
        };
        if interrupt {
            self.cancel();
            return false;
        }
        if self.help {
            self.help = false;
            return false;
        }
        if self.confirm {
            match press.key {
                Key::Char(c) => {
                    if c == 'y' || c == 'Y' {
                        self.cancel();
                    } else if c == 'n' || c == 'N' || c == 'q' {
                        self.confirm = false;
                    }
                },
                Key::Esc => self.confirm = false,
                _ => {},
            }
            return false;
        }
        match press.key {
            Key::Char(c) => {
                if c == 'j' {
                    self.move_selection(1);
                } else if c == 'k' {
                    self.move_selection(-1);
                } else if c == 'l' {
                    self.toggle_detail();
                } else if c == '?' {
                    self.help = true;
                } else if c == 'q' {
                    self.ask_to_quit();
                }
            },
            Key::Down => self.move_selection(1),
            Key::Up => self.move_selection(-1),
            Key::PageDown => self.page(1),
            Key::PageUp => self.page(-1),
            Key::Enter => self.toggle_detail(),
            Key::Esc => self.ask_to_quit(),
            Key::Other => {},
        }
        false
    }
}

fn row_sig(f: &mut Fingerprint, row: &Row, now: TimeSpan)
    requires
        now.wf(),
        old(f).wf(),
    ensures
        final(f).wf(),
        final(f).marks@ == old(f).marks@ + row_marks(*row, now),
{
    f.number(status_code(row.status) as u64);
    f.number(row.elapsed_secs(now));
    f.flag(row.exit_code.is_some());
    if let Some(code) = row.exit_code {
        f.number(code_number(code));
    }
    f.text(row.version.as_str());
    f.text(row.activity.as_str());
    assert(f.marks@ =~= old(f).marks@ + row_marks(*row, now));
}

fn step_index(at: usize, delta: isize, n: usize) -> (r: usize)
    requires
        n > 0,
    ensures
        r == stepped(at as int, delta as int, n as int),
        r < n,
{
    let to: i128 = at as i128 + delta as i128;
    if to >= 0 {
        (to as u128 % n as u128) as usize
    } else {
        let back: u128 = (-to) as u128;
        let over: usize = (back % n as u128) as usize;
        proof {
            let q = back as int / n as int;
            lemma_fundamental_div_mod(back as int, n as int);
            if over == 0 {
                assert(to == (-q) * (n as int)) by (nonlinear_arith)
                    requires
                        back == n * q,
                        back == -to,
                ;
                lemma_fundamental_div_mod_converse(to as int, n as int, -q, 0);
            } else {
                assert(to == (-q - 1) * (n as int) + (n - over)) by (nonlinear_arith)
                    requires
                        back == n * q + over,
                        back == -to,
                ;
                lemma_fundamental_div_mod_converse(to as int, n as int, -q - 1, n - over);
            }
        }
        if over == 0 {
            0
        } else {
            n - over
        }
    }
}

/// The number that stands for an exit code in the fingerprint: its two's
/// complement.
pub open spec fn code_mark(code: i32) -> u64 {
    if code >= 0 {
        code as u64
    } else {
        (0x1_0000_0000_0000_0000 + code) as u64
    }
}

fn code_number(code: i32) -> (r: u64)
    ensures
        r == code_mark(code),
{
    if code >= 0 {
        code as u64
    } else {
        let below: u64 = (-(code as i64)) as u64;
        u64::MAX - below + 1
    }
}

/// What a row adds to the fingerprint.
pub open spec fn row_marks(row: Row, now: TimeSpan) -> Seq<Mark> {
    let head = seq![
        Mark::Number(status_number(row.status) as u64),
        Mark::Number(shown_secs(row, now)),
        Mark::Number(bit(row.exit_code is Some)),
    ];
    let code = match row.exit_code {
        Some(code) => seq![Mark::Number(code_mark(code))],
        None => Seq::empty(),
    };
    head + code + seq![Mark::Text(row.version@), Mark::Text(row.activity@)]
}

/// What the rows add to the fingerprint.
pub open spec fn rows_marks(rows: Seq<Row>, now: TimeSpan) -> Seq<Mark>
    decreases rows.len(),
{
    if rows.len() == 0 {
        Seq::empty()
    } else {
        rows_marks(rows.drop_last(), now) + row_marks(rows.last(), now)
    }
}

/// The next running row behind `at`, looking at `steps` rows.
pub open spec fn next_running(rows: Seq<Row>, at: int, steps: nat) -> Option<int>
    decreases steps,
{
    if steps == 0 || rows.len() == 0 {
        None
    } else {
        let next = (at + 1) % (rows.len() as int);
        if rows[next].status is Running {
            Some(next)
        } else {
            next_running(rows, next, (steps - 1) as nat)
        }
    }
}

// ---------------------------------------------------------------------------
// Laws
// ---------------------------------------------------------------------------

/// The run is never cancelled silently: only control-c does it at once, any
/// other way leads through the question.
pub proof fn cancelling_is_asked_for(before: Dashboard, press: KeyPress, after: Dashboard)
    requires
        before.answered(press, after),
        !before.cancelled,
        after.cancelled,
    ensures
        (press.control && press.key == Key::Char('c')) || (before.confirm && (press.key
            == Key::Char('y') || press.key == Key::Char('Y'))),
{
}

/// Where `k` steps lead.
pub open spec fn steps_from(at: int, delta: int, n: int, k: int) -> int
    decreases k,
{
    if k <= 0 {
        at
    } else {
        stepped(steps_from(at, delta, n, k - 1), delta, n)
    }
}

proof fn lemma_step(at: int, delta: int, n: int)
    requires
        0 <= at < n,
        delta == 1 || delta == -1,
    ensures
        stepped(at, delta, n) == (if at + delta >= n {
            0
        } else if at + delta < 0 {
            n - 1
        } else {
            at + delta
        }),
{
    if at + delta >= n {
        lemma_fundamental_div_mod_converse(at + delta, n, 1, 0);
    } else if at + delta < 0 {
        lemma_fundamental_div_mod_converse(at + delta, n, -1, n - 1);
    } else {
        lemma_fundamental_div_mod_converse(at + delta, n, 0, at + delta);
    }
}

proof fn lemma_steps(at: int, delta: int, n: int, k: int)
    requires
        0 <= at < n,
        0 <= k <= n,
        delta == 1 || delta == -1,
    ensures
        steps_from(at, delta, n, k) == (if delta == 1 {
            if at + k < n {
                at + k
            } else {
                at + k - n
            }
        } else {
            if at - k >= 0 {
                at - k
            } else {
                at - k + n
            }
        }),
    decreases k,
{
    if k > 0 {
        lemma_steps(at, delta, n, k - 1);
        lemma_step(steps_from(at, delta, n, k - 1), delta, n);
    }
}

proof fn lemma_walk(rows: Seq<Row>, explicit: bool, at: int, delta: int, done: int, steps: nat)
    requires
        0 <= at < rows.len(),
        delta == 1 || delta == -1,
        0 <= done,
        done + steps == rows.len(),
        forall|j: int|
            1 <= j <= done ==> !row_visible(
                rows,
                explicit,
                #[trigger] steps_from(at, delta, rows.len() as int, j),
            ),
    ensures
        ({
            let n = rows.len() as int;
            let r = walked(rows, explicit, steps_from(at, delta, n, done), delta, steps);
            ||| 0 <= r < n && row_visible(rows, explicit, r)
            ||| r == at && forall|j: int|
                1 <= j <= n ==> !row_visible(rows, explicit, #[trigger] steps_from(at, delta, n, j))
        }),
    decreases steps,
{
    let n = rows.len() as int;
    if steps == 0 {
        lemma_steps(at, delta, n, n);
    } else {
        lemma_steps(at, delta, n, done + 1);
        let next = steps_from(at, delta, n, done + 1);
        if !row_visible(rows, explicit, next) {
            lemma_walk(rows, explicit, at, delta, done + 1, (steps - 1) as nat);
        }
    }
}

/// Moving the selection by single steps ends on a visible row whenever there
/// is one; without any it stays where it is.
pub proof fn selection_lands_on_visible_rows(d: Dashboard, delta: int, next: Dashboard)
    requires
        d.wf(),
        d.rows@.len() > 0,
        delta == 1 || delta == -1,
        d.moved(delta, next),
    ensures
        (exists|i: int| 0 <= i < d.rows@.len() && #[trigger] row_visible(d.rows@, d.explicit, i))
            ==> row_visible(d.rows@, d.explicit, next.sel as int),
        !(exists|i: int| 0 <= i < d.rows@.len() && #[trigger] row_visible(d.rows@, d.explicit, i))
            ==> next.sel == d.sel,
{
    let rows = d.rows@;
    let n = rows.len() as int;
    let at = d.sel as int;
    lemma_walk(rows, d.explicit, at, delta, 0, n as nat);
    let r = walked(rows, d.explicit, at, delta, n as nat);
    assert(d.rows.len() == n);
    if !(0 <= r < n && row_visible(rows, d.explicit, r)) {
        assert forall|i: int| 0 <= i < n implies !row_visible(rows, d.explicit, i) by {
            let k = if delta == 1 {
                if i > at {
                    i - at
                } else {
                    i - at + n
                }
            } else {
                if i < at {
                    at - i
                } else {
                    at - i + n
                }
            };
            lemma_steps(at, delta, n, k);
            assert(steps_from(at, delta, n, k) == i);
        }
    }
}

/// The first finished snapshot closes the dialogs, and the next key, whatever
/// it is, dismisses the dashboard without asking for a cancellation.
pub proof fn finished_runs_are_dismissed(
    before: Dashboard,
    state: RunState,
    cancelled: bool,
    now: TimeSpan,
    shown: Dashboard,
    press: KeyPress,
    exits: bool,
    after: Dashboard,
)
    requires
        state.done,
        !before.done,
        before.took_snapshot(state, cancelled, now, shown),
        shown.reacted(press, exits, after),
    ensures
        exits,
        !shown.help && !shown.confirm,
        after.cancelled == cancelled,
{
}

/// While the run goes on, keys never dismiss the dashboard.
pub proof fn active_runs_are_not_dismissed(
    before: Dashboard,
    state: RunState,
    cancelled: bool,
    now: TimeSpan,
    shown: Dashboard,
    press: KeyPress,
    exits: bool,
    after: Dashboard,
)
    requires
        !state.done,
        before.took_snapshot(state, cancelled, now, shown),
        shown.reacted(press, exits, after),
    ensures
        !exits,
        shown.exit_at == before.exit_at,
{
}

/// A row stays out of the list only when its tool was not detected and not
/// asked for.
pub proof fn only_undetected_rows_are_left_out(rows: Seq<Row>, explicit: bool, i: int)
    ensures
        row_visible(rows, explicit, i) <==> explicit || !(rows[i].status is Skipped),
{
}

/// Control-c cancels the run, from any dialog and view, and changes nothing
/// else.
pub proof fn control_c_cancels_from_anywhere(before: Dashboard, press: KeyPress, after: Dashboard)
    requires
        before.reacted(press, false, after),
        press.control,
        press.key == Key::Char('c'),
    ensures
        after.cancelled,
        !after.confirm,
        after.help == before.help,
        after.detail_open == before.detail_open,
        after.sel == before.sel,
        after.rows == before.rows,
        after.log_scroll == before.log_scroll,
{
}

/// Whatever the key, the rows, the counts and the state of the run stay as
/// they are; only a cancellation is noted.
pub proof fn keys_change_only_the_view(
    before: Dashboard,
    press: KeyPress,
    exits: bool,
    after: Dashboard,
)
    requires
        before.reacted(press, exits, after),
    ensures
        exits <==> before.done,
        after.rows == before.rows,
        after.explicit == before.explicit,
        after.counts == before.counts,
        after.done == before.done,
        after.exit_at == before.exit_at,
        after.run_elapsed == before.run_elapsed,
        after.list_h == before.list_h,
        after.log_h == before.log_h,
        before.cancelled ==> after.cancelled,
{
}

/// Any key closes the key overview; the question is answered by yes, which
/// cancels, or by no, which does not, and other keys leave it open.
pub proof fn dialogs_answer_their_keys(before: Dashboard, press: KeyPress, after: Dashboard)
    requires
        before.reacted(press, false, after),
        !(press.control && press.key == Key::Char('c')),
        before.help || before.confirm,
    ensures
        before.help ==> !after.help && after.confirm == before.confirm && after.cancelled
            == before.cancelled,
        !before.help && (press.key == Key::Char('y') || press.key == Key::Char('Y'))
            ==> after.cancelled && !after.confirm,
        !before.help && (press.key == Key::Char('n') || press.key == Key::Char('N') || press.key
            == Key::Char('q') || press.key is Esc) ==> !after.confirm && after.cancelled
            == before.cancelled,
        !before.help && (press.key is Enter || press.key is Up || press.key is Down || press.key
            is PageUp || press.key is PageDown || press.key is Other) ==> after == before,
        after.sel == before.sel,
        after.detail_open == before.detail_open,
{
}

/// Without a dialog, a question mark opens the key overview, q and escape ask
/// whether to quit, and enter and l open or close the log.
pub proof fn keys_open_dialogs_and_the_log(before: Dashboard, press: KeyPress, after: Dashboard)
    requires
        before.reacted(press, false, after),
        !before.help,
        !before.confirm,
        !press.control,
    ensures
        press.key == Key::Char('?') ==> after.help && !after.confirm && after.cancelled
            == before.cancelled,
        press.key == Key::Char('q') || press.key is Esc ==> after.confirm == !before.cancelled
            && after.cancelled == before.cancelled && !after.help,
        press.key is Enter || press.key == Key::Char('l') ==> (before.rows@.len() > 0
            ==> after.detail_open == !before.detail_open) && after.sel == before.sel,
        press.key is Enter || press.key == Key::Char('l') ==> (before.rows@.len() > 0
            && !before.detail_open ==> after.follow && after.log_scroll == 0 && after.tail_pending
            && (after.tail_path matches Some(p) && p@ == before.rows@[before.sel as int].log@)),
        press.key is Other ==> after == before,
        after.cancelled == before.cancelled,
{
}

/// Where every row is in the list, down and j select the next row, up and k
/// the one before, around the ends.
pub proof fn arrows_select_the_neighbour(before: Dashboard, press: KeyPress, after: Dashboard)
    requires
        before.wf(),
        before.reacted(press, false, after),
        !before.help,
        !before.confirm,
        !press.control,
        before.rows@.len() > 0,
        forall|i: int|
            0 <= i < before.rows@.len() ==> before.explicit || !((
            #[trigger] before.rows@[i]).status is Skipped),
    ensures
        press.key is Down || press.key == Key::Char('j') ==> after.sel == if before.sel + 1
            < before.rows@.len() {
            before.sel + 1
        } else {
            0
        },
        press.key is Up || press.key == Key::Char('k') ==> after.sel == if before.sel > 0 {
            before.sel - 1
        } else {
            before.rows@.len() - 1
        },
{
    let n = before.rows@.len() as int;
    let at = before.sel as int;
    assert(before.rows.len() == n);
    lemma_step(at, 1, n);
    lemma_step(at, -1, n);
    let down = stepped(at, 1, n);
    let up = stepped(at, -1, n);
    assert(before.explicit || !(before.rows@[down].status is Skipped));
    assert(before.explicit || !(before.rows@[up].status is Skipped));
    assert(row_visible(before.rows@, before.explicit, down));
    assert(row_visible(before.rows@, before.explicit, up));
}

/// Where every row is in the list, a page of it goes as far as it is high less
/// one line, and no further than its ends.
pub proof fn pages_go_as_far_as_the_list_is_high(
    before: Dashboard,
    press: KeyPress,
    after: Dashboard,
)
    requires
        before.wf(),
        before.reacted(press, false, after),
        !before.help,
        !before.confirm,
        !press.control,
        !before.detail_open,
        before.list_h >= 2,
        before.rows@.len() > 0,
        forall|i: int|
            0 <= i < before.rows@.len() ==> before.explicit || !((
            #[trigger] before.rows@[i]).status is Skipped),
    ensures
        press.key is PageDown ==> after.sel == if before.sel + before.list_h - 1
            < before.rows@.len() {
            before.sel + before.list_h - 1
        } else {
            before.rows@.len() - 1
        },
        press.key is PageUp ==> after.sel == if before.sel >= before.list_h - 1 {
            before.sel - (before.list_h - 1)
        } else {
            0
        },
{
    let n = before.rows@.len() as int;
    assert(before.rows.len() == n);
    let down = before.page_target(true);
    let up = before.page_target(false);
    assert(before.explicit || !(before.rows@[down].status is Skipped));
    assert(before.explicit || !(before.rows@[up].status is Skipped));
}

/// In the log a page goes as far as that is high less one line; it follows its
/// end exactly when a page down has reached it.
pub proof fn pages_scroll_the_open_log(before: Dashboard, press: KeyPress, after: Dashboard)
    requires
        before.reacted(press, false, after),
        !before.help,
        !before.confirm,
        !press.control,
        before.detail_open,
        before.log_h >= 2,
        before.log_scroll <= usize::MAX - 65_536,
        before.log_lines().len() <= usize::MAX,
    ensures
        ({
            let total = before.log_lines().len() as int;
            let top = if total > before.log_h {
                total - before.log_h
            } else {
                0
            };
            let step = before.log_h - 1;
            &&& press.key is PageDown ==> after.log_scroll == if before.log_scroll + step < top {
                before.log_scroll + step
            } else {
                top
            }
            &&& press.key is PageDown ==> (after.follow <==> before.log_scroll + step >= top)
            &&& press.key is PageUp ==> after.log_scroll == if before.log_scroll > step {
                before.log_scroll - step
            } else {
                0
            }
            &&& press.key is PageUp ==> !after.follow
            &&& press.key is PageUp || press.key is PageDown ==> after.sel == before.sel
        }),
{
}

/// A selection with the log open shows the log of the selected row, from its
/// end.
pub proof fn the_log_follows_the_selection(before: Dashboard, i: int, after: Dashboard)
    requires
        before.wf(),
        0 <= i < before.rows@.len(),
        before.selected(i, after),
    ensures
        after.sel == i,
        before.detail_open ==> (after.tail_path matches Some(p) && p@ == before.rows@[i].log@),
        before.detail_open && !(before.tail_path matches Some(p) && p@ == before.rows@[i].log@)
            ==> after.tail_pending && after.follow && after.log_scroll == 0
            && after.tail_text@.len() == 0,
        !before.detail_open ==> after.tail_path == before.tail_path && after.tail_text
            == before.tail_text,
{
    assert(before.rows.len() == before.rows@.len());
}

/// A snapshot shows the jobs of the run, its clock, and whether it is over; the
/// finished screen stays for five seconds.
pub proof fn snapshots_show_the_run(
    before: Dashboard,
    state: RunState,
    cancelled: bool,
    now: TimeSpan,
    after: Dashboard,
    i: int,
)
    requires
        before.took_snapshot(state, cancelled, now, after),
        0 <= i < state.jobs@.len(),
        now.secs < u64::MAX - 5,
    ensures
        after.rows@.len() == state.jobs@.len(),
        after.rows@[i].status == state.jobs@[i].status,
        after.rows@[i].exit_code == state.jobs@[i].exit_code,
        after.rows@[i].started == state.jobs@[i].started,
        after.rows@[i].elapsed == state.jobs@[i].elapsed,
        after.rows@[i].log@ == state.jobs@[i].log@,
        before.rows@.len() != state.jobs@.len() ==> after.rows@[i].id@ == state.jobs@[i].spec.id@
            && after.rows@[i].label@ == state.jobs@[i].spec.label@,
        before.rows@.len() == state.jobs@.len() ==> after.rows@[i].id@ == before.rows@[i].id@,
        after.done == state.done,
        after.cancelled == cancelled,
        after.counts.total == state.jobs@.len(),
        state.done && !before.done ==> (after.exit_at matches Some(t) && t.secs == now.secs + 5
            && t.nanos == now.nanos),
        !(state.done && !before.done) ==> after.exit_at == before.exit_at,
        state.done && !before.done ==> !after.help && !after.confirm && after.tail_pending,
        !state.done ==> after.help == before.help && after.confirm == before.confirm,
        before.done && state.done ==> after.run_elapsed == before.run_elapsed,
        after.detail_open == before.detail_open,
        after.explicit == before.explicit,
{
    if before.rows@.len() == state.jobs@.len() {
        assert(took_in(before.rows@[i], after.rows@[i], state.jobs@[i]));
    } else {
        assert(first_shown(after.rows@[i], state.jobs@[i]));
    }
}

/// The clock of the run counts whole seconds from its start until it is over.
pub proof fn the_run_clock_counts_from_the_start(
    before: Dashboard,
    state: RunState,
    cancelled: bool,
    now: TimeSpan,
    after: Dashboard,
)
    requires
        before.took_snapshot(state, cancelled, now, after),
        !state.done || !before.done,
        state.started.nanos < 1_000_000_000,
        now.nanos < 1_000_000_000,
        state.started.secs * 1_000_000_000 + state.started.nanos <= now.secs * 1_000_000_000
            + now.nanos,
    ensures
        ({
            let passed = (now.secs - state.started.secs) * 1_000_000_000 + (now.nanos
                - state.started.nanos);
            after.run_elapsed * 1_000_000_000 <= passed < (after.run_elapsed + 1) * 1_000_000_000
        }),
{
    spans_are_differences(state.started, now);
}

/// The countdown is the time that is left, a started second counted in full.
pub proof fn countdowns_count_started_seconds(d: Dashboard, now: TimeSpan)
    requires
        now.nanos < 1_000_000_000,
        d.exit_at matches Some(t) && t.nanos < 1_000_000_000 && t.secs < u64::MAX,
    ensures
        ({
            let t = d.exit_at->0;
            let left = (t.secs - now.secs) * 1_000_000_000 + (t.nanos - now.nanos);
            &&& left <= 0 ==> d.countdown(now) == 0
            &&& left > 0 ==> (d.countdown(now) - 1) * 1_000_000_000 < left <= d.countdown(now)
                * 1_000_000_000
        }),
{
    spans_are_differences(now, d.exit_at->0);
}

/// The open log is read when it is new, and while the run goes on again after
/// a quarter of a second.
pub proof fn open_logs_are_read_four_times_a_second(d: Dashboard, now: TimeSpan)
    requires
        now.nanos < 1_000_000_000,
        d.tail_at.nanos < 1_000_000_000,
    ensures
        d.detail_is_due(now) <==> d.detail_open && d.tail_path is Some && (d.tail_pending || (
        !d.done && (now.secs - d.tail_at.secs) * 1_000_000_000 + (now.nanos - d.tail_at.nanos)
            >= 250_000_000)),
{
    spans_are_differences(d.tail_at, now);
}

/// The row whose log is read next runs; it is the next one where that runs,
/// and there is none only when no row runs.
pub proof fn the_next_running_row_is_found(rows: Seq<Row>, at: int)
    requires
        rows.len() > 0,
        0 <= at < rows.len(),
    ensures
        next_running(rows, at, rows.len()) matches Some(i) ==> 0 <= i < rows.len()
            && rows[i].status is Running,
        at + 1 < rows.len() && rows[at + 1].status is Running ==> next_running(
            rows,
            at,
            rows.len(),
        ) == Some(at + 1),
        at + 1 == rows.len() && rows[0].status is Running ==> next_running(rows, at, rows.len())
            == Some(0int),
        next_running(rows, at, rows.len()) is None ==> forall|i: int|
            0 <= i < rows.len() ==> !((#[trigger] rows[i]).status is Running),
{
    let n = rows.len() as int;
    lemma_step(at, 1, n);
    lemma_next_running(rows, at, 0, n as nat);
    if next_running(rows, at, rows.len()) is None {
        assert forall|i: int| 0 <= i < rows.len() implies !((#[trigger] rows[i]).status is Running) by {
            let k = if i > at {
                i - at
            } else {
                i - at + n
            };
            lemma_steps(at, 1, n, k);
            assert(steps_from(at, 1, n, k) == i);
        }
    }
}

proof fn lemma_next_running(rows: Seq<Row>, at: int, done: int, steps: nat)
    requires
        rows.len() > 0,
        0 <= at < rows.len(),
        0 <= done,
        done + steps == rows.len(),
        forall|j: int|
            1 <= j <= done ==> !(rows[#[trigger] steps_from(
                at,
                1,
                rows.len() as int,
                j,
            )].status is Running),
    ensures
        ({
            let n = rows.len() as int;
            match next_running(rows, steps_from(at, 1, n, done), steps) {
                Some(i) => 0 <= i < n && rows[i].status is Running,
                None => forall|j: int|
                    1 <= j <= n ==> !(rows[#[trigger] steps_from(at, 1, n, j)].status is Running),
            }
        }),
    decreases steps,
{
    let n = rows.len() as int;
    if steps > 0 {
        lemma_steps(at, 1, n, done + 1);
        let next = steps_from(at, 1, n, done + 1);
        if !(rows[next].status is Running) {
            lemma_next_running(rows, at, done + 1, (steps - 1) as nat);
        }
    }
}

/// The first visible row from a place on is visible, and none is in between;
/// the same holds of the last one before a place.
pub proof fn the_nearest_visible_row_is_found(rows: Seq<Row>, explicit: bool, i: int)
    requires
        0 <= i <= rows.len(),
    ensures
        match first_visible(rows, explicit, i) {
            Some(k) => i <= k < rows.len() && row_visible(rows, explicit, k) && forall|j: int|
                i <= j < k ==> !#[trigger] row_visible(rows, explicit, j),
            None => forall|j: int|
                i <= j < rows.len() ==> !#[trigger] row_visible(rows, explicit, j),
        },
        match last_visible(rows, explicit, i) {
            Some(k) => 0 <= k < i && row_visible(rows, explicit, k) && forall|j: int|
                k < j < i ==> !#[trigger] row_visible(rows, explicit, j),
            None => forall|j: int| 0 <= j < i ==> !#[trigger] row_visible(rows, explicit, j),
        },
{
    lemma_first_visible(rows, explicit, i);
    lemma_last_visible(rows, explicit, i);
}

proof fn lemma_first_visible(rows: Seq<Row>, explicit: bool, i: int)
    requires
        0 <= i <= rows.len(),
    ensures
        match first_visible(rows, explicit, i) {
            Some(k) => i <= k < rows.len() && row_visible(rows, explicit, k) && forall|j: int|
                i <= j < k ==> !#[trigger] row_visible(rows, explicit, j),
            None => forall|j: int|
                i <= j < rows.len() ==> !#[trigger] row_visible(rows, explicit, j),
        },
    decreases rows.len() - i,
{
    if i < rows.len() && !row_visible(rows, explicit, i) {
        lemma_first_visible(rows, explicit, i + 1);
    }
}

proof fn lemma_last_visible(rows: Seq<Row>, explicit: bool, i: int)
    requires
        0 <= i <= rows.len(),
    ensures
        match last_visible(rows, explicit, i) {
            Some(k) => 0 <= k < i && row_visible(rows, explicit, k) && forall|j: int|
                k < j < i ==> !#[trigger] row_visible(rows, explicit, j),
            None => forall|j: int| 0 <= j < i ==> !#[trigger] row_visible(rows, explicit, j),
        },
    decreases i,
{
    if i > 0 && !row_visible(rows, explicit, i - 1) {
        lemma_last_visible(rows, explicit, i - 1);
    }
}

/// Everything that is shown around the rows goes into the fingerprint: where
/// that is made of the same, the same is shown.
pub proof fn fingerprints_are_of_what_is_shown(a: Dashboard, b: Dashboard, now: TimeSpan)
    requires
        a.marks(now) == b.marks(now),
    ensures
        a.counts == b.counts,
        a.run_elapsed == b.run_elapsed,
        a.done == b.done,
        a.countdown(now) == b.countdown(now),
        a.cancelled == b.cancelled,
        a.help == b.help,
        a.confirm == b.confirm,
        a.detail_open == b.detail_open,
        a.follow == b.follow,
        a.sel == b.sel,
        a.log_scroll == b.log_scroll,
        a.tail_text@ == b.tail_text@,
{
    let x = a.marks(now);
    let y = b.marks(now);
    let p = a.count_marks();
    let q = b.count_marks();
    assert(x.take(10) =~= p && y.take(10) =~= q);
    assert(x.subrange(10, 14) =~= a.run_marks(now) && y.subrange(10, 14) =~= b.run_marks(now));
    assert(x.subrange(14, 21) =~= a.view_marks() && y.subrange(14, 21) =~= b.view_marks());
    assert(p[0] == q[0] && p[1] == q[1] && p[2] == q[2] && p[3] == q[3] && p[4] == q[4]);
    assert(p[5] == q[5] && p[6] == q[6] && p[7] == q[7] && p[8] == q[8] && p[9] == q[9]);
    let r = a.run_marks(now);
    let s = b.run_marks(now);
    assert(r[0] == s[0] && r[1] == s[1] && r[2] == s[2] && r[3] == s[3]);
    let v = a.view_marks();
    let w = b.view_marks();
    assert(v[0] == w[0] && v[1] == w[1] && v[2] == w[2] && v[3] == w[3]);
    assert(v[4] == w[4] && v[5] == w[5] && v[6] == w[6]);
}

/// What a row shows goes into the fingerprint as well: its status, time, exit
/// code, version and activity.
#[verifier::rlimit(40)]
#[verifier::spinoff_prover]
pub proof fn row_fingerprints_are_of_what_is_shown(a: Row, b: Row, now: TimeSpan, rows: Seq<Row>)
    requires
        row_marks(a, now) == row_marks(b, now),
    ensures
        a.status == b.status,
        shown_secs(a, now) == shown_secs(b, now),
        a.exit_code == b.exit_code,
        a.version@ == b.version@,
        a.activity@ == b.activity@,
        rows_marks(rows.push(a), now) == rows_marks(rows, now) + row_marks(a, now),
{
    let x = row_marks(a, now);
    let y = row_marks(b, now);
    statuses_are_told_apart(a.status, b.status);
    assert(x[0] == y[0] && x[1] == y[1] && x[2] == y[2]);
    assert(a.exit_code is Some == b.exit_code is Some);
    assert(x[3] == y[3] && x[4] == y[4]);
    match (a.exit_code, b.exit_code) {
        (Some(m), Some(n)) => {
            assert(x[5] == y[5]);
            assert(x[3] == Mark::Number(code_mark(m)) && y[3] == Mark::Number(code_mark(n)));
            assert(x[4] == Mark::Text(a.version@) && y[4] == Mark::Text(b.version@));
            assert(x[5] == Mark::Text(a.activity@) && y[5] == Mark::Text(b.activity@));
            assert(code_mark(m) == code_mark(n));
            assert(m == n);
        },
        _ => {
            assert(x[3] == Mark::Text(a.version@) && y[3] == Mark::Text(b.version@));
            assert(x[4] == Mark::Text(a.activity@) && y[4] == Mark::Text(b.activity@));
        },
    }
    assert(rows.push(a).drop_last() =~= rows);
}

/// A step of the selection goes to the nearest visible row in its direction:
/// every row that it passes is left out of the list.
pub proof fn selection_goes_to_the_nearest_visible_row(
    d: Dashboard,
    delta: int,
    next: Dashboard,
    k: int,
)
    requires
        d.wf(),
        d.rows@.len() > 0,
        delta == 1 || delta == -1,
        d.moved(delta, next),
        1 <= k <= d.rows@.len(),
        row_visible(
            d.rows@,
            d.explicit,
            steps_from(d.sel as int, delta, d.rows@.len() as int, k),
        ),
        forall|j: int|
            1 <= j < k ==> !row_visible(
                d.rows@,
                d.explicit,
                #[trigger] steps_from(d.sel as int, delta, d.rows@.len() as int, j),
            ),
    ensures
        next.sel == (if delta == 1 {
            if d.sel + k < d.rows@.len() {
                d.sel + k
            } else {
                d.sel + k - d.rows@.len()
            }
        } else {
            if d.sel - k >= 0 {
                d.sel - k
            } else {
                d.sel - k + d.rows@.len()
            }
        }),
{
    let n = d.rows@.len() as int;
    let at = d.sel as int;
    assert(d.rows.len() == n);
    lemma_steps(at, delta, n, k);
    lemma_walk_stops(d.rows@, d.explicit, at, delta, 0, k);
}

proof fn lemma_walk_stops(rows: Seq<Row>, explicit: bool, at: int, delta: int, done: int, k: int)
    requires
        0 <= done < k <= rows.len(),
        row_visible(rows, explicit, steps_from(at, delta, rows.len() as int, k)),
        forall|j: int|
            1 <= j < k ==> !row_visible(
                rows,
                explicit,
                #[trigger] steps_from(at, delta, rows.len() as int, j),
            ),
    ensures
        ({
            let n = rows.len() as int;
            walked(rows, explicit, steps_from(at, delta, n, done), delta, (n - done) as nat)
                == steps_from(at, delta, n, k)
        }),
    decreases k - done,
{
    let n = rows.len() as int;
    let next = steps_from(at, delta, n, done + 1);
    if done + 1 < k {
        assert(!row_visible(rows, explicit, next));
        lemma_walk_stops(rows, explicit, at, delta, done + 1, k);
    }
}

/// A page that leads to a row that is left out goes to the nearest visible row
/// on the way back, or stays where it was.
pub proof fn pages_end_on_visible_rows(d: Dashboard, down: bool, k: int)
    requires
        d.wf(),
        d.rows@.len() > 0,
        0 <= k < d.rows@.len(),
    ensures
        ({
            let target = d.page_target(down);
            let sel = d.page_selection(down);
            &&& row_visible(d.rows@, d.explicit, target) ==> sel == target
            &&& !row_visible(d.rows@, d.explicit, target) && down && k < target && row_visible(
                d.rows@,
                d.explicit,
                k,
            ) ==> k <= sel < target && row_visible(d.rows@, d.explicit, sel)
            &&& !row_visible(d.rows@, d.explicit, target) && !down && k > target && row_visible(
                d.rows@,
                d.explicit,
                k,
            ) ==> target < sel <= k && row_visible(d.rows@, d.explicit, sel)
        }),
{
    let target = d.page_target(down);
    assert(d.rows.len() == d.rows@.len());
    lemma_first_visible(d.rows@, d.explicit, target + 1);
    lemma_last_visible(d.rows@, d.explicit, target);
}

} // verus!
