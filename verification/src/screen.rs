//! What the dashboard shows: texts and tones, ready to be drawn.

use vstd::prelude::*;
use vstd::string::*;

use crate::cells::{
    cell_clip, display_width, duration_form, format_duration, pad_left, pad_right, padded_left,
    padded_right, push_clipped, status_label, status_text, str_width,
};
use crate::clock::TimeSpan;
use crate::dashboard::{max_scroll, row_visible, Dashboard};
use crate::layout::{line_at, lines_between, split_meta, Area};
use crate::model::Status;
use crate::number::{decimal, push_count, push_decimal, push_signed, signed_decimal};
use crate::row::{Columns, Row, STATUS_W};
use crate::text::{
    chars_of, is_blank, left_aligned, lines, push_left_aligned, same_text, split_lines, texts,
};

verus! {

/// How a text is shown.
#[derive(Clone, Copy, Debug, PartialEq, Eq, Structural)]
pub enum Tone {
    Plain,
    Dim,
    Accent,
    AccentBold,
    Green,
    Yellow,
    Red,
    RedBold,
}

/// A text in one tone.
#[derive(Debug)]
pub struct Segment {
    pub text: String,
    pub tone: Tone,
}

impl View for Segment {
    type V = (Seq<char>, Tone);

    open spec fn view(&self) -> (Seq<char>, Tone) {
        (self.text@, self.tone)
    }
}

/// The segments held by a list.
pub open spec fn segs(v: Seq<Segment>) -> Seq<(Seq<char>, Tone)> {
    v.map_values(|s: Segment| s@)
}

fn put(out: &mut Vec<Segment>, text: String, tone: Tone)
    ensures
        segs(final(out)@) == segs(old(out)@).push((text@, tone)),
{
    out.push(Segment { text, tone });
    assert(segs(out@) =~= segs(old(out)@).push((text@, tone)));
}

/// The tone of a status.
pub open spec fn tone_of(status: Status) -> Tone {
    match status {
        Status::Queued | Status::Cancelled | Status::Skipped => Tone::Dim,
        Status::Running => Tone::Accent,
        Status::Succeeded => Tone::Green,
        Status::Failed | Status::TimedOut => Tone::Red,
        Status::Blocked => Tone::Yellow,
    }
}

/// The tone of a status.
pub fn status_style(status: Status) -> (r: Tone)
    ensures
        r == tone_of(status),
{
    match status {
        Status::Queued | Status::Cancelled | Status::Skipped => Tone::Dim,
        Status::Running => Tone::Accent,
        Status::Succeeded => Tone::Green,
        Status::Failed | Status::TimedOut => Tone::Red,
        Status::Blocked => Tone::Yellow,
    }
}

// ---------------------------------------------------------------------------
// Lines that drop what does not fit
// ---------------------------------------------------------------------------

/// A line under construction: space-separated segments within a budget of
/// columns. A segment that no longer fits is dropped.
#[derive(Debug)]
pub struct Segments {
    pub spans: Vec<Segment>,
    pub used: usize,
    pub budget: usize,
}

pub struct SegmentsView {
    pub spans: Seq<(Seq<char>, Tone)>,
    pub used: int,
    pub budget: int,
}

impl View for Segments {
    type V = SegmentsView;

    open spec fn view(&self) -> SegmentsView {
        SegmentsView {
            spans: segs(self.spans@),
            used: self.used as int,
            budget: self.budget as int,
        }
    }
}

impl SegmentsView {
    /// The line with one more segment of the given width, where it fits. The
    /// first segment is always taken.
    pub open spec fn pushed(self, seg: (Seq<char>, Tone), width: int) -> SegmentsView {
        if self.spans.len() == 0 {
            SegmentsView { spans: seq![seg], used: self.used + width, ..self }
        } else if self.used + width + 1 > self.budget {
            self
        } else {
            SegmentsView {
                spans: self.spans.push((" "@, Tone::Plain)).push(seg),
                used: self.used + 1 + width,
                ..self
            }
        }
    }
}

impl Segments {
    /// An empty line has used no columns.
    pub open spec fn wf(self) -> bool {
        self.spans@.len() == 0 ==> self.used == 0
    }

    /// An empty line.
    pub fn new(budget: usize) -> (r: Segments)
        ensures
            r.wf(),
            r@ == (SegmentsView { spans: Seq::empty(), used: 0, budget: budget as int }),
    {
        let r = Segments { spans: Vec::new(), used: 0, budget };
        assert(segs(r.spans@) =~= Seq::<(Seq<char>, Tone)>::empty());
        r
    }

    /// Adds a segment of the given width, where it fits.
    pub fn push_sized(&mut self, seg: Segment, width: usize)
        requires
            old(self).wf(),
        ensures
            final(self).wf(),
            final(self)@ == old(self)@.pushed(seg@, width as int),
    {
        assert(segs(self.spans@).len() == self.spans@.len());
        if self.spans.len() > 0 {
            if self.used >= self.budget || width >= self.budget - self.used {
                return;
            }
            put(&mut self.spans, " ".to_owned(), Tone::Plain);
            self.used = self.used + 1;
        }
        let Segment { text, tone } = seg;
        put(&mut self.spans, text, tone);
        self.used = self.used + width;
        assert(self@.spans =~= old(self)@.pushed((text@, tone), width as int).spans);
    }

    /// Adds a segment, where it fits.
    pub fn push(&mut self, seg: Segment)
        requires
            old(self).wf(),
        ensures
            final(self).wf(),
            final(self)@ == old(self)@.pushed(seg@, display_width(seg.text@) as int),
    {
        let width: usize = str_width(seg.text.as_str());
        self.push_sized(seg, width);
    }
}

/// The line that `wanted` makes within `budget` columns.
pub open spec fn fitted(wanted: Seq<(Seq<char>, Tone)>, budget: int) -> SegmentsView
    decreases wanted.len(),
{
    if wanted.len() == 0 {
        SegmentsView { spans: Seq::empty(), used: 0, budget }
    } else {
        let seg = wanted.last();
        fitted(wanted.drop_last(), budget).pushed(seg, display_width(seg.0) as int)
    }
}

/// The segments of `wanted` that fit into `budget` columns, separated by
/// spaces.
pub fn fit_line(wanted: Vec<Segment>, budget: usize) -> (r: Vec<Segment>)
    ensures
        segs(r@) == fitted(segs(wanted@), budget as int).spans,
{
    let mut line = Segments::new(budget);
    let ghost all = segs(wanted@);
    let ghost list = wanted@;
    for seg in it: wanted
        invariant
            it.seq() == list,
            all == segs(list),
            line.wf(),
            line@ == fitted(all.take(it.index() as int), budget as int),
    {
        assert(seg == list[it.index()]);
        assert(all[it.index()] == seg@);
        assert(all.take(it.index() + 1).drop_last() =~= all.take(it.index() as int));
        line.push(seg);
    }
    assert(all.take(all.len() as int) =~= all);
    line.spans
}

/// Every line but an overlong first segment stays within its budget.
pub proof fn fitted_lines_stay_in_budget(wanted: Seq<(Seq<char>, Tone)>, budget: int)
    requires
        budget >= 0,
    ensures
        fitted(wanted, budget).used <= budget || fitted(wanted, budget).spans.len() == 1,
        fitted(wanted, budget).spans.len() == 0 ==> fitted(wanted, budget).used == 0,
        fitted(wanted, budget).budget == budget,
    decreases wanted.len(),
{
    if wanted.len() > 0 {
        fitted_lines_stay_in_budget(wanted.drop_last(), budget);
    }
}

// ---------------------------------------------------------------------------
// Header, gauge, column header
// ---------------------------------------------------------------------------

/// `list` with `seg`, when `wanted`.
pub open spec fn with_if(
    list: Seq<(Seq<char>, Tone)>,
    wanted: bool,
    seg: (Seq<char>, Tone),
) -> Seq<(Seq<char>, Tone)> {
    if wanted {
        list.push(seg)
    } else {
        list
    }
}

/// `list` with a count, when it is not zero.
pub open spec fn with_count(
    list: Seq<(Seq<char>, Tone)>,
    label: Seq<char>,
    n: int,
    tone: Tone,
) -> Seq<(Seq<char>, Tone)> {
    with_if(list, n > 0, (label + decimal(n as nat), tone))
}

fn put_count(out: &mut Vec<Segment>, label: &str, n: usize, tone: Tone)
    ensures
        segs(final(out)@) == with_count(segs(old(out)@), label@, n as int, tone),
{
    if n > 0 {
        let mut s = label.to_owned();
        push_count(&mut s, n);
        put(out, s, tone);
    }
}

/// `done/total` and a word.
pub open spec fn done_of(done: int, total: int, word: Seq<char>) -> Seq<char> {
    decimal(done as nat) + "/"@ + decimal(total as nat) + word
}

fn done_text(done: usize, total: usize, word: &str) -> (r: String)
    ensures
        r@ == done_of(done as int, total as int, word@),
{
    let mut s = String::new();
    push_count(&mut s, done);
    assert(s@ =~= decimal(done as nat));
    s.append("/");
    push_count(&mut s, total);
    s.append(word);
    s
}

/// The segments of the header line, in the order of their importance.
pub open spec fn header_of(d: Dashboard) -> Seq<(Seq<char>, Tone)> {
    let c = d.counts;
    let l = seq![("update-agents"@, Tone::AccentBold)];
    let l = with_if(l, d.done, ("COMPLETED"@, Tone::AccentBold));
    let l = l.push((done_of(c.done as int, c.total as int, " done"@), Tone::Plain));
    let l = with_if(l, d.cancelled && !d.done, ("CANCELLING"@, Tone::RedBold));
    let l = with_count(l, "run "@, c.running as int, Tone::Accent);
    let l = with_count(l, "ok "@, c.ok as int, Tone::Green);
    let l = with_count(l, "fail "@, c.failed as int, Tone::Red);
    let l = with_count(l, "timeout "@, c.timed_out as int, Tone::Red);
    let l = with_count(l, "block "@, c.blocked as int, Tone::Yellow);
    let l = with_count(l, "not detected "@, c.skipped as int, Tone::Dim);
    let l = with_count(l, "cancelled "@, c.cancelled as int, Tone::Dim);
    let l = with_count(l, "queued "@, c.queued as int, Tone::Dim);
    l.push(("up "@ + duration_form(d.run_elapsed as int), Tone::Dim))
}

/// The segments of the header line.
pub fn render_header(d: &Dashboard) -> (r: Vec<Segment>)
    ensures
        segs(r@) == header_of(*d),
{
    let c = d.counts;
    let mut l: Vec<Segment> = Vec::new();
    put(&mut l, "update-agents".to_owned(), Tone::AccentBold);
    assert(segs(l@) =~= seq![("update-agents"@, Tone::AccentBold)]);
    if d.done {
        put(&mut l, "COMPLETED".to_owned(), Tone::AccentBold);
    }
    put(&mut l, done_text(c.done, c.total, " done"), Tone::Plain);
    if d.cancelled && !d.done {
        put(&mut l, "CANCELLING".to_owned(), Tone::RedBold);
    }
    put_count(&mut l, "run ", c.running, Tone::Accent);
    put_count(&mut l, "ok ", c.ok, Tone::Green);
    put_count(&mut l, "fail ", c.failed, Tone::Red);
    put_count(&mut l, "timeout ", c.timed_out, Tone::Red);
    put_count(&mut l, "block ", c.blocked, Tone::Yellow);
    put_count(&mut l, "not detected ", c.skipped, Tone::Dim);
    put_count(&mut l, "cancelled ", c.cancelled, Tone::Dim);
    put_count(&mut l, "queued ", c.queued, Tone::Dim);
    let mut up = "up ".to_owned();
    up.append(format_duration(d.run_elapsed).as_str());
    put(&mut l, up, Tone::Dim);
    l
}

/// The label of the gauge: completed tools out of all, the only progress that
/// is shown. Nothing without any tool.
pub fn gauge_label(d: &Dashboard) -> (r: Option<String>)
    ensures
        r is None <==> d.counts.total == 0,
        r matches Some(s) ==> s@ == " "@ + done_of(
            d.counts.done as int,
            d.counts.total as int,
            " tools done "@,
        ),
{
    if d.counts.total == 0 {
        return None;
    }
    let mut s = " ".to_owned();
    s.append(done_text(d.counts.done, d.counts.total, " tools done ").as_str());
    Some(s)
}

/// The gap between two cells.
pub open spec fn gap() -> (Seq<char>, Tone) {
    (" "@, Tone::Plain)
}

/// `list` with a gap and a cell, when the column is shown.
pub open spec fn with_cell(
    list: Seq<(Seq<char>, Tone)>,
    shown: bool,
    seg: (Seq<char>, Tone),
) -> Seq<(Seq<char>, Tone)> {
    if shown {
        list.push(gap()).push(seg)
    } else {
        list
    }
}

fn put_cell(out: &mut Vec<Segment>, shown: bool, text: &str, tone: Tone)
    ensures
        segs(final(out)@) == with_cell(segs(old(out)@), shown, (text@, tone)),
{
    if shown {
        put(out, " ".to_owned(), Tone::Plain);
        put(out, text.to_owned(), tone);
    }
}

/// The segments of the column header.
pub open spec fn colhead_of(col: Columns) -> Seq<(Seq<char>, Tone)> {
    let cell = |s: Seq<char>, w: int| padded_right(cell_clip(s, w), w);
    let l = seq![(cell("id"@, col.id as int), Tone::Dim)];
    let l = with_cell(
        l,
        col.version > 0,
        (cell("version"@, col.version as int), Tone::Dim),
    );
    let l = with_cell(l, true, (cell("status"@, STATUS_W as int), Tone::Dim));
    let l = with_cell(
        l,
        col.time > 0,
        (padded_left(cell_clip("time"@, col.time as int), col.time as int), Tone::Dim),
    );
    with_cell(l, col.activity > 0, ("activity"@, Tone::Dim))
}

/// The segments of the column header.
pub fn render_colhead(col: Columns) -> (r: Vec<Segment>)
    ensures
        segs(r@) == colhead_of(col),
{
    let mut l: Vec<Segment> = Vec::new();
    put(&mut l, pad_right("id", col.id as usize), Tone::Dim);
    assert(segs(l@) =~= seq![
        (padded_right(cell_clip("id"@, col.id as int), col.id as int), Tone::Dim),
    ]);
    let version = pad_right("version", col.version as usize);
    put_cell(&mut l, col.version > 0, version.as_str(), Tone::Dim);
    let status = pad_right("status", STATUS_W);
    put_cell(&mut l, true, status.as_str(), Tone::Dim);
    let time = pad_left("time", col.time as usize);
    put_cell(&mut l, col.time > 0, time.as_str(), Tone::Dim);
    put_cell(&mut l, col.activity > 0, "activity", Tone::Dim);
    l
}

// ---------------------------------------------------------------------------
// Rows
// ---------------------------------------------------------------------------

/// The segments of a row, its cells built.
pub open spec fn row_of(row: Row, col: Columns, selected: bool) -> Seq<(Seq<char>, Tone)> {
    let id_tone = if selected {
        Tone::AccentBold
    } else if row.status is Skipped {
        Tone::Dim
    } else {
        Tone::Plain
    };
    let l = seq![(row.c_id@, id_tone)];
    let l = with_cell(
        l,
        col.version > 0,
        (
            row.c_version@,
            if row.version_dim {
                Tone::Dim
            } else {
                Tone::Plain
            },
        ),
    );
    let l = with_cell(l, true, (row.c_status@, tone_of(row.status)));
    let l = with_cell(l, col.time > 0, (row.c_time@, Tone::Plain));
    with_cell(
        l,
        col.activity > 0,
        (
            row.c_activity@,
            if row.status is Running {
                Tone::Plain
            } else {
                Tone::Dim
            },
        ),
    )
}

/// The segments of a row, its cells built.
pub fn row_line(row: &Row, col: Columns, selected: bool) -> (r: Vec<Segment>)
    ensures
        segs(r@) == row_of(*row, col, selected),
{
    let id_tone = if selected {
        Tone::AccentBold
    } else if row.status == Status::Skipped {
        Tone::Dim
    } else {
        Tone::Plain
    };
    let mut l: Vec<Segment> = Vec::new();
    put(&mut l, row.c_id.clone(), id_tone);
    assert(segs(l@) =~= seq![(row.c_id@, id_tone)]);
    let version_tone = if row.version_dim {
        Tone::Dim
    } else {
        Tone::Plain
    };
    put_cell(&mut l, col.version > 0, row.c_version.as_str(), version_tone);
    put_cell(&mut l, true, row.c_status.as_str(), status_style(row.status));
    put_cell(&mut l, col.time > 0, row.c_time.as_str(), Tone::Plain);
    let activity_tone = if row.status == Status::Running {
        Tone::Plain
    } else {
        Tone::Dim
    };
    put_cell(&mut l, col.activity > 0, row.c_activity.as_str(), activity_tone);
    l
}

/// The visible rows among the first `n`.
pub open spec fn visible_rows(rows: Seq<Row>, explicit: bool, n: int) -> Seq<int>
    decreases n,
{
    if n <= 0 {
        Seq::empty()
    } else if row_visible(rows, explicit, n - 1) {
        visible_rows(rows, explicit, n - 1).push(n - 1)
    } else {
        visible_rows(rows, explicit, n - 1)
    }
}

/// The lines held by a list.
pub open spec fn line_list(v: Seq<Vec<Segment>>) -> Seq<Seq<(Seq<char>, Tone)>> {
    v.map_values(|l: Vec<Segment>| segs(l@))
}

/// The lines of the visible rows among the first `n`.
pub open spec fn row_lines(d: Dashboard, col: Columns, n: int) -> Seq<Seq<(Seq<char>, Tone)>> {
    visible_rows(d.rows@, d.explicit, n).map_values(
        |i: int| row_of(d.rows@[i], col, i == d.sel),
    )
}

/// The place of the selected row among the visible ones, zero when it is not
/// among them.
pub open spec fn highlight_of(visible: Seq<int>, sel: int) -> int
    decreases visible.len(),
{
    if visible.len() == 0 {
        0
    } else if visible.last() == sel {
        visible.len() - 1
    } else {
        highlight_of(visible.drop_last(), sel)
    }
}

/// What the list area shows.
#[derive(Debug)]
pub enum ListShown {
    /// A notice in place of the list.
    Notice(&'static str),
    /// There is no room.
    Nothing,
    /// The lines of the visible rows, and which of them is highlighted.
    Lines(Vec<Vec<Segment>>, usize),
}

/// The cells of `after` are those of `before`, built for `col`.
pub open spec fn cells_built(before: Row, after: Row, col: Columns, now: TimeSpan) -> bool {
    &&& after.c_id@ == padded_right(cell_clip(before.id@, col.id as int), col.id as int)
    &&& after.c_version@ == (if col.version > 0 {
        padded_right(cell_clip(before.version@, col.version as int), col.version as int)
    } else {
        Seq::empty()
    })
    &&& after.c_status@ == padded_right(
        cell_clip(status_label(before.status), STATUS_W as int),
        STATUS_W as int,
    )
    &&& after.c_time@ == (if col.time > 0 {
        padded_left(before.time_shown(now), col.time as int)
    } else {
        Seq::empty()
    })
    &&& after.c_activity@ == (if col.activity > 0 {
        cell_clip(before.activity@, col.activity as int)
    } else {
        Seq::empty()
    })
    &&& after == (Row {
        c_id: after.c_id,
        c_version: after.c_version,
        c_status: after.c_status,
        c_time: after.c_time,
        c_activity: after.c_activity,
        ..before
    })
}

/// What the list area of the given height shows.
pub fn render_rows(d: &mut Dashboard, height: u16, col: Columns, now: TimeSpan) -> (r: ListShown)
    requires
        old(d).wf(),
        now.wf(),
    ensures
        final(d).wf(),
        final(d).rows@.len() == old(d).rows@.len(),
        *final(d) == (Dashboard { rows: final(d).rows, ..*old(d) }),
        old(d).rows@.len() == 0 ==> (r matches ListShown::Notice(s) && s@ == "no tools loaded"@)
            && final(d).rows@ == old(d).rows@,
        old(d).rows@.len() > 0 && height == 0 ==> r is Nothing && final(d).rows@ == old(d).rows@,
        old(d).rows@.len() > 0 && height > 0 ==> {
            let n = old(d).rows@.len() as int;
            let visible = visible_rows(final(d).rows@, old(d).explicit, n);
            &&& forall|i: int|
                0 <= i < n ==> cells_built(
                    old(d).rows@[i],
                    #[trigger] final(d).rows@[i],
                    col,
                    now,
                )
            &&& if visible.len() == 0 {
                r matches ListShown::Notice(s) && s@ == "no detected tools"@
            } else {
                r matches ListShown::Lines(l, at) && line_list(l@) == row_lines(*final(d), col, n)
                    && at == highlight_of(visible, old(d).sel as int)
            }
        },
{
    if d.rows.len() == 0 {
        return ListShown::Notice("no tools loaded");
    }
    if height == 0 {
        return ListShown::Nothing;
    }
    let n: usize = d.rows.len();
    for i in 0..n
        invariant
            now.wf(),
            n == old(d).rows@.len(),
            d.rows@.len() == n,
            *d == (Dashboard { rows: d.rows, ..*old(d) }),
            forall|k: int|
                0 <= k < i ==> cells_built(old(d).rows@[k], #[trigger] d.rows@[k], col, now),
            forall|k: int| i <= k < n ==> #[trigger] d.rows@[k] == old(d).rows@[k],
    {
        d.rows[i].build_cells(col, now);
    }
    let mut out: Vec<Vec<Segment>> = Vec::new();
    let mut at: usize = 0;
    let ghost visible = visible_rows(d.rows@, d.explicit, 0);
    assert(line_list(out@) =~= row_lines(*d, col, 0));
    for i in 0..n
        invariant
            n == d.rows@.len(),
            d.sel < n,
            visible == visible_rows(d.rows@, d.explicit, i as int),
            out@.len() == visible.len(),
            line_list(out@) == row_lines(*d, col, i as int),
            at == highlight_of(visible, d.sel as int),
    {
        if d.is_visible(i) {
            let ghost before = line_list(out@);
            if i == d.sel {
                at = out.len();
            }
            out.push(row_line(&d.rows[i], col, i == d.sel));
            proof {
                let next = visible.push(i as int);
                assert(line_list(out@) =~= before.push(
                    row_of(d.rows@[i as int], col, i == d.sel),
                ));
                assert(row_lines(*d, col, i + 1) =~= row_lines(*d, col, i as int).push(
                    row_of(d.rows@[i as int], col, i == d.sel),
                ));
                assert(next.drop_last() =~= visible);
                visible = next;
            }
        }
    }
    if out.len() == 0 {
        return ListShown::Notice("no detected tools");
    }
    ListShown::Lines(out, at)
}

// ---------------------------------------------------------------------------
// Footer
// ---------------------------------------------------------------------------

/// The ids of the rows among the first `n` that stay out of the list.
pub open spec fn hidden_ids(rows: Seq<Row>, explicit: bool, n: int) -> Seq<Seq<char>>
    decreases n,
{
    if n <= 0 {
        Seq::empty()
    } else if row_visible(rows, explicit, n - 1) {
        hidden_ids(rows, explicit, n - 1)
    } else {
        hidden_ids(rows, explicit, n - 1).push(rows[n - 1].id@)
    }
}

fn collect_hidden(d: &Dashboard) -> (r: Vec<String>)
    ensures
        texts(r@) == hidden_ids(d.rows@, d.explicit, d.rows@.len() as int),
{
    let mut out: Vec<String> = Vec::new();
    assert(texts(out@) =~= Seq::<Seq<char>>::empty());
    for i in 0..d.rows.len()
        invariant
            texts(out@) == hidden_ids(d.rows@, d.explicit, i as int),
    {
        if !d.is_visible(i) {
            let ghost before = texts(out@);
            out.push(d.rows[i].id.clone());
            assert(texts(out@) =~= before.push(d.rows@[i as int].id@));
        }
    }
    out
}

/// `list` with the texts, all dimmed.
pub open spec fn with_dim(
    list: Seq<(Seq<char>, Tone)>,
    more: Seq<Seq<char>>,
) -> Seq<(Seq<char>, Tone)> {
    list + more.map_values(|s: Seq<char>| (s, Tone::Dim))
}

/// The hint that names the tools that were not detected.
pub open spec fn hidden_hint(ids: Seq<Seq<char>>) -> Seq<(Seq<char>, Tone)> {
    if ids.len() == 0 {
        Seq::empty()
    } else {
        with_dim(
            seq![("not detected "@ + decimal(ids.len()) + ":"@, Tone::Dim)],
            ids,
        )
    }
}

/// The segments of the footer while the run is active: what was not detected
/// first, then the keys.
pub open spec fn footer_of(d: Dashboard) -> Seq<(Seq<char>, Tone)> {
    let l = hidden_hint(hidden_ids(d.rows@, d.explicit, d.rows@.len() as int));
    let l = if d.detail_open {
        l.push(("pgup/pgdn scroll"@, Tone::Dim)).push(("enter/l close log"@, Tone::Dim))
    } else {
        l.push(("j/k select"@, Tone::Dim)).push(("enter/l log"@, Tone::Dim)).push(
            ("? help"@, Tone::Dim),
        )
    };
    if d.cancelled {
        l.push(("cancelling\u{2026}"@, Tone::Yellow))
    } else {
        l.push(("q quit"@, Tone::Dim)).push(("ctrl-c cancel"@, Tone::Dim))
    }
}

/// What the footer shows.
#[derive(Debug)]
pub enum FooterShown {
    /// The countdown of a finished run.
    Countdown(String),
    Hints(Vec<Segment>),
}

/// What the footer shows: the countdown of a finished run, else the hints.
pub fn render_footer(d: &Dashboard, now: TimeSpan) -> (r: FooterShown)
    requires
        d.wf(),
    ensures
        d.done ==> (r matches FooterShown::Countdown(s) && s@ == "Auto-exit in "@ + decimal(
            d.countdown(now) as nat,
        ) + "s | Any key: exit"@),
        !d.done ==> (r matches FooterShown::Hints(l) && segs(l@) == footer_of(*d)),
{
    if d.done {
        let mut s = "Auto-exit in ".to_owned();
        push_decimal(&mut s, d.completion_seconds(now));
        s.append("s | Any key: exit");
        return FooterShown::Countdown(s);
    }
    let mut l: Vec<Segment> = Vec::new();
    let hidden = collect_hidden(d);
    let ghost ids = texts(hidden@);
    assert(ids.len() == hidden@.len());
    assert(segs(l@) =~= Seq::<(Seq<char>, Tone)>::empty());
    if hidden.len() > 0 {
        let mut s = "not detected ".to_owned();
        push_count(&mut s, hidden.len());
        s.append(":");
        put(&mut l, s, Tone::Dim);
        let ghost head = segs(l@);
        assert(head =~= seq![(s@, Tone::Dim)]);
        assert(with_dim(head, ids.take(0)) =~= head);
        for i in 0..hidden.len()
            invariant
                ids == texts(hidden@),
                segs(l@) == with_dim(head, ids.take(i as int)),
        {
            put(&mut l, hidden[i].clone(), Tone::Dim);
            assert(ids[i as int] == hidden@[i as int]@);
            assert(segs(l@) =~= with_dim(head, ids.take(i + 1)));
        }
        assert(ids.take(hidden@.len() as int) =~= ids);
    }
    assert(segs(l@) == hidden_hint(ids));
    if d.detail_open {
        put(&mut l, "pgup/pgdn scroll".to_owned(), Tone::Dim);
        put(&mut l, "enter/l close log".to_owned(), Tone::Dim);
    } else {
        put(&mut l, "j/k select".to_owned(), Tone::Dim);
        put(&mut l, "enter/l log".to_owned(), Tone::Dim);
        put(&mut l, "? help".to_owned(), Tone::Dim);
    }
    if d.cancelled {
        put(&mut l, "cancelling\u{2026}".to_owned(), Tone::Yellow);
    } else {
        put(&mut l, "q quit".to_owned(), Tone::Dim);
        put(&mut l, "ctrl-c cancel".to_owned(), Tone::Dim);
    }
    FooterShown::Hints(l)
}

// ---------------------------------------------------------------------------
// Detail
// ---------------------------------------------------------------------------

/// The title of the detail view, nothing without a selected row.
pub fn detail_title(d: &Dashboard) -> (r: Option<String>)
    ensures
        r is Some <==> d.sel < d.rows@.len(),
        r matches Some(s) ==> s@ == " "@ + d.rows@[d.sel as int].id@ + " \u{b7} "@ + d.rows@[
            d.sel as int].label@ + " "@,
{
    if d.sel >= d.rows.len() {
        return None;
    }
    let row = &d.rows[d.sel];
    let mut s = " ".to_owned();
    s.append(row.id.as_str());
    s.append(" \u{b7} ");
    s.append(row.label.as_str());
    s.append(" ");
    Some(s)
}

/// The line about the job: status, exit code, version and message.
pub open spec fn meta_of(row: Row) -> Seq<(Seq<char>, Tone)> {
    let l = seq![(status_label(row.status), tone_of(row.status))];
    let l = match row.exit_code {
        Some(code) => l.push((" exit "@ + signed_decimal(code as int), Tone::Plain)),
        None => l,
    };
    let l = with_if(
        l,
        row.version@.len() > 0 && row.version@ != "-"@,
        ("  "@ + cell_clip(row.version@, 96), Tone::Plain),
    );
    with_if(l, row.message@.len() > 0, ("  "@ + cell_clip(row.message@, 160), Tone::Dim))
}

fn meta_line(row: &Row) -> (r: Vec<Segment>)
    ensures
        segs(r@) == meta_of(*row),
{
    let mut l: Vec<Segment> = Vec::new();
    put(&mut l, status_text(row.status).to_owned(), status_style(row.status));
    assert(segs(l@) =~= seq![(status_label(row.status), tone_of(row.status))]);
    if let Some(code) = row.exit_code {
        let mut s = " exit ".to_owned();
        push_signed(&mut s, code);
        put(&mut l, s, Tone::Plain);
    }
    let mut scratch = String::new();
    if !is_blank(row.version.as_str()) && !same_text(row.version.as_str(), "-") {
        push_clipped(&mut scratch, row.version.as_str(), 96);
        let mut s = "  ".to_owned();
        s.append(scratch.as_str());
        put(&mut l, s, Tone::Plain);
    }
    if !is_blank(row.message.as_str()) {
        push_clipped(&mut scratch, row.message.as_str(), 160);
        let mut s = "  ".to_owned();
        s.append(scratch.as_str());
        put(&mut l, s, Tone::Dim);
    }
    l
}

/// The log in the detail view.
#[derive(Debug)]
pub struct LogShown {
    pub lines: Vec<String>,
    /// There is no output, and a placeholder is shown.
    pub placeholder: bool,
    pub scroll: u16,
}

/// The detail view.
#[derive(Debug)]
pub struct DetailShown {
    pub meta_area: Area,
    pub meta: Vec<Segment>,
    pub log_area: Area,
    /// The log, where there is room for it.
    pub log: Option<LogShown>,
}

/// The lines of the log that are shown.
pub open spec fn log_shown(d: Dashboard) -> Seq<Seq<char>> {
    if d.tail_text@.len() == 0 {
        if d.done {
            seq!["(no output)"@]
        } else {
            seq!["(no output yet)"@]
        }
    } else {
        lines(d.tail_text@)
    }
}

/// Where the log is scrolled to in a view of the given height: to its end
/// while it follows, else where the user left it.
pub open spec fn scrolled(d: Dashboard, height: u16) -> int {
    let top = max_scroll(d.log_lines().len() as int, height as int);
    if d.follow || d.log_scroll > top {
        top
    } else {
        d.log_scroll as int
    }
}

/// What the detail view shows inside its border. Nothing without a selected
/// row or without room.
pub fn render_detail(d: &mut Dashboard, inner: Area) -> (r: Option<DetailShown>)
    requires
        old(d).wf(),
        inner.wf(),
    ensures
        final(d).wf(),
        r is Some <==> old(d).sel < old(d).rows@.len() && inner.height > 0 && inner.width > 0,
        r is None ==> *final(d) == *old(d),
        r matches Some(v) ==> {
            let height = (inner.height - 1) as u16;
            &&& v.meta_area == line_at(inner, 0)
            &&& v.log_area == lines_between(inner, 1, inner.height as int)
            &&& segs(v.meta@) == meta_of(old(d).rows@[old(d).sel as int])
            &&& v.log is Some <==> height > 0
            &&& height == 0 ==> *final(d) == *old(d)
            &&& v.log matches Some(log) ==> {
                let at = scrolled(*old(d), height);
                &&& *final(d) == (Dashboard { log_h: height, log_scroll: at as usize, ..*old(d) })
                &&& texts(log.lines@) == log_shown(*old(d))
                &&& log.placeholder == (old(d).tail_text@.len() == 0)
                &&& log.scroll == (if at < u16::MAX {
                    at
                } else {
                    u16::MAX as int
                })
            }
        },
{
    if d.sel >= d.rows.len() || inner.height == 0 || inner.width == 0 {
        return None;
    }
    let meta = meta_line(&d.rows[d.sel]);
    let (meta_area, log_area) = split_meta(inner);
    if log_area.height == 0 {
        return Some(DetailShown { meta_area, meta, log_area, log: None });
    }
    d.log_h = log_area.height;
    let max: usize = d.max_log_scroll();
    if d.follow || d.log_scroll > max {
        d.log_scroll = max;
    }
    let scroll: u16 = if d.log_scroll < u16::MAX as usize {
        d.log_scroll as u16
    } else {
        u16::MAX
    };
    let placeholder = is_blank(d.tail_text.as_str());
    let mut shown: Vec<String> = Vec::new();
    if placeholder {
        if d.done {
            shown.push("(no output)".to_owned());
        } else {
            shown.push("(no output yet)".to_owned());
        }
        assert(texts(shown@) =~= log_shown(*old(d)));
    } else {
        shown = split_lines(chars_of(d.tail_text.as_str()).as_slice());
    }
    Some(
        DetailShown {
            meta_area,
            meta,
            log_area,
            log: Some(LogShown { lines: shown, placeholder, scroll }),
        },
    )
}

// ---------------------------------------------------------------------------
// Dialogs
// ---------------------------------------------------------------------------

/// The width and height of the key overview.
pub const HELP_WIDTH: u16 = 58;

pub const HELP_HEIGHT: u16 = 11;

/// The width and height of the question.
pub const CONFIRM_WIDTH: u16 = 46;

pub const CONFIRM_HEIGHT: u16 = 5;

/// A line of the key overview.
pub open spec fn help_entry(key: Seq<char>, what: Seq<char>) -> Seq<(Seq<char>, Tone)> {
    seq![(left_aligned(key, 14), Tone::Accent), (what, Tone::Plain)]
}

fn help_line(out: &mut Vec<Vec<Segment>>, key: &str, what: &str)
    ensures
        line_list(final(out)@) == line_list(old(out)@).push(help_entry(key@, what@)),
{
    let mut k = String::new();
    push_left_aligned(&mut k, key, 14);
    assert(k@ =~= left_aligned(key@, 14));
    let mut l: Vec<Segment> = Vec::new();
    put(&mut l, k, Tone::Accent);
    put(&mut l, what.to_owned(), Tone::Plain);
    assert(segs(l@) =~= help_entry(key@, what@));
    out.push(l);
    assert(line_list(out@) =~= line_list(old(out)@).push(help_entry(key@, what@)));
}

/// The lines of the key overview.
pub open spec fn help_of() -> Seq<Seq<(Seq<char>, Tone)>> {
    seq![
        help_entry("j / \u{2193}"@, "select next row"@),
        help_entry("k / \u{2191}"@, "select previous row"@),
        help_entry("enter / l"@, "toggle log detail"@),
        help_entry("pgup / pgdn"@, "scroll the log (page the list otherwise)"@),
        help_entry("?"@, "toggle this help"@),
        help_entry("q / esc"@, "quit (asks first while running)"@),
        help_entry("ctrl-c"@, "cancel the run now"@),
        help_entry("y / n"@, "confirm or dismiss the cancel question"@),
        help_entry("any key"@, "exit when done (automatic after 5s)"@),
    ]
}

/// The lines of the key overview.
pub fn render_help() -> (r: Vec<Vec<Segment>>)
    ensures
        line_list(r@) == help_of(),
{
    let mut out: Vec<Vec<Segment>> = Vec::new();
    assert(line_list(out@) =~= Seq::<Seq<(Seq<char>, Tone)>>::empty());
    help_line(&mut out, "j / \u{2193}", "select next row");
    help_line(&mut out, "k / \u{2191}", "select previous row");
    help_line(&mut out, "enter / l", "toggle log detail");
    help_line(&mut out, "pgup / pgdn", "scroll the log (page the list otherwise)");
    help_line(&mut out, "?", "toggle this help");
    help_line(&mut out, "q / esc", "quit (asks first while running)");
    help_line(&mut out, "ctrl-c", "cancel the run now");
    help_line(&mut out, "y / n", "confirm or dismiss the cancel question");
    help_line(&mut out, "any key", "exit when done (automatic after 5s)");
    assert(line_list(out@) =~= help_of());
    out
}

/// How many tools the question is about.
pub open spec fn pending_of(d: Dashboard) -> int {
    if d.counts.total > d.counts.done {
        d.counts.total - d.counts.done
    } else {
        0
    }
}

/// The lines of the question whether to cancel the run.
pub fn render_confirm(d: &Dashboard) -> (r: Vec<Vec<Segment>>)
    ensures
        line_list(r@) == seq![
            seq![
                (decimal(pending_of(*d) as nat) + " tool(s) running or queued"@, Tone::Plain),
            ],
            seq![
                ("y"@, Tone::AccentBold),
                (" cancel now    "@, Tone::Plain),
                ("n"@, Tone::AccentBold),
                (" / esc keep going"@, Tone::Plain),
            ],
        ],
{
    let mut s = String::new();
    push_count(&mut s, d.counts.total.saturating_sub(d.counts.done));
    assert(s@ =~= decimal(pending_of(*d) as nat));
    s.append(" tool(s) running or queued");
    let mut first: Vec<Segment> = Vec::new();
    put(&mut first, s, Tone::Plain);
    assert(segs(first@) =~= seq![(s@, Tone::Plain)]);
    let mut second: Vec<Segment> = Vec::new();
    put(&mut second, "y".to_owned(), Tone::AccentBold);
    put(&mut second, " cancel now    ".to_owned(), Tone::Plain);
    put(&mut second, "n".to_owned(), Tone::AccentBold);
    put(&mut second, " / esc keep going".to_owned(), Tone::Plain);
    assert(segs(second@) =~= seq![
        ("y"@, Tone::AccentBold),
        (" cancel now    "@, Tone::Plain),
        ("n"@, Tone::AccentBold),
        (" / esc keep going"@, Tone::Plain),
    ]);
    let mut out: Vec<Vec<Segment>> = Vec::new();
    out.push(first);
    out.push(second);
    assert(line_list(out@) =~= seq![segs(first@), segs(second@)]);
    out
}

// ---------------------------------------------------------------------------
// Laws
// ---------------------------------------------------------------------------

/// Green is for success alone, red for what failed or timed out, and yellow
/// for what is blocked.
pub proof fn tones_tell_the_statuses_apart(status: Status)
    ensures
        tone_of(status) is Green <==> status is Succeeded,
        tone_of(status) is Red <==> status is Failed || status is TimedOut,
        tone_of(status) is Yellow <==> status is Blocked,
        tone_of(status) is Accent <==> status is Running,
        tone_of(status) is Dim <==> status is Queued || status is Cancelled || status is Skipped,
{
}

/// A further segment is taken exactly when it still fits with its gap, behind
/// the ones that are there; the first one always is.
pub proof fn segments_are_taken_while_they_fit(
    line: SegmentsView,
    seg: (Seq<char>, Tone),
    width: int,
)
    ensures
        line.spans.len() == 0 ==> line.pushed(seg, width).spans == seq![seg] && line.pushed(
            seg,
            width,
        ).used == line.used + width,
        line.spans.len() > 0 && line.used + 1 + width <= line.budget ==> line.pushed(
            seg,
            width,
        ).spans == line.spans + seq![(" "@, Tone::Plain), seg] && line.pushed(seg, width).used
            == line.used + 1 + width,
        line.spans.len() > 0 && line.used + 1 + width > line.budget ==> line.pushed(seg, width)
            == line,
        line.pushed(seg, width).budget == line.budget,
{
    if line.spans.len() > 0 && line.used + 1 + width <= line.budget {
        assert(line.pushed(seg, width).spans =~= line.spans + seq![(" "@, Tone::Plain), seg]);
    }
}

proof fn lemma_kept(
    list: Seq<(Seq<char>, Tone)>,
    wanted: bool,
    more: (Seq<char>, Tone),
    seg: (Seq<char>, Tone),
)
    ensures
        list.contains(seg) ==> with_if(list, wanted, more).contains(seg),
        wanted ==> with_if(list, wanted, more).contains(more),
{
    let next = with_if(list, wanted, more);
    if list.contains(seg) {
        let k = list.index_of(seg);
        assert(next[k] == seg);
    }
    if wanted {
        assert(next[list.len() as int] == more);
    }
}

proof fn lemma_header_holds(d: Dashboard, seg: (Seq<char>, Tone), n: int)
    requires
        0 <= n < 8,
        n == 0 ==> d.counts.running > 0 && seg == ("run "@ + decimal(
            d.counts.running as nat,
        ), Tone::Accent),
        n == 1 ==> d.counts.ok > 0 && seg == ("ok "@ + decimal(d.counts.ok as nat), Tone::Green),
        n == 2 ==> d.counts.failed > 0 && seg == ("fail "@ + decimal(
            d.counts.failed as nat,
        ), Tone::Red),
        n == 3 ==> d.counts.timed_out > 0 && seg == ("timeout "@ + decimal(
            d.counts.timed_out as nat,
        ), Tone::Red),
        n == 4 ==> d.counts.blocked > 0 && seg == ("block "@ + decimal(
            d.counts.blocked as nat,
        ), Tone::Yellow),
        n == 5 ==> d.counts.skipped > 0 && seg == ("not detected "@ + decimal(
            d.counts.skipped as nat,
        ), Tone::Dim),
        n == 6 ==> d.counts.cancelled > 0 && seg == ("cancelled "@ + decimal(
            d.counts.cancelled as nat,
        ), Tone::Dim),
        n == 7 ==> d.counts.queued > 0 && seg == ("queued "@ + decimal(
            d.counts.queued as nat,
        ), Tone::Dim),
    ensures
        header_of(d).contains(seg),
{
    let c = d.counts;
    let l = seq![("update-agents"@, Tone::AccentBold)];
    let l = with_if(l, d.done, ("COMPLETED"@, Tone::AccentBold));
    let l = l.push((done_of(c.done as int, c.total as int, " done"@), Tone::Plain));
    let l0 = with_if(l, d.cancelled && !d.done, ("CANCELLING"@, Tone::RedBold));
    let l1 = with_count(l0, "run "@, c.running as int, Tone::Accent);
    let l2 = with_count(l1, "ok "@, c.ok as int, Tone::Green);
    let l3 = with_count(l2, "fail "@, c.failed as int, Tone::Red);
    let l4 = with_count(l3, "timeout "@, c.timed_out as int, Tone::Red);
    let l5 = with_count(l4, "block "@, c.blocked as int, Tone::Yellow);
    let l6 = with_count(l5, "not detected "@, c.skipped as int, Tone::Dim);
    let l7 = with_count(l6, "cancelled "@, c.cancelled as int, Tone::Dim);
    let l8 = with_count(l7, "queued "@, c.queued as int, Tone::Dim);
    let up = ("up "@ + duration_form(d.run_elapsed as int), Tone::Dim);
    lemma_kept(l0, c.running > 0, ("run "@ + decimal(c.running as nat), Tone::Accent), seg);
    lemma_kept(l1, c.ok > 0, ("ok "@ + decimal(c.ok as nat), Tone::Green), seg);
    lemma_kept(l2, c.failed > 0, ("fail "@ + decimal(c.failed as nat), Tone::Red), seg);
    lemma_kept(l3, c.timed_out > 0, ("timeout "@ + decimal(c.timed_out as nat), Tone::Red), seg);
    lemma_kept(l4, c.blocked > 0, ("block "@ + decimal(c.blocked as nat), Tone::Yellow), seg);
    lemma_kept(l5, c.skipped > 0, ("not detected "@ + decimal(c.skipped as nat), Tone::Dim), seg);
    lemma_kept(l6, c.cancelled > 0, ("cancelled "@ + decimal(c.cancelled as nat), Tone::Dim), seg);
    lemma_kept(l7, c.queued > 0, ("queued "@ + decimal(c.queued as nat), Tone::Dim), seg);
    lemma_kept(l8, true, up, seg);
    assert(header_of(d) == l8.push(up));
}

/// The header shows every count that is not zero, with its word and tone, from
/// the name of the program to the clock of the run.
pub proof fn headers_show_every_count(d: Dashboard)
    ensures
        header_of(d)[0] == ("update-agents"@, Tone::AccentBold),
        header_of(d).last() == ("up "@ + duration_form(d.run_elapsed as int), Tone::Dim),
        d.done ==> header_of(d)[1] == ("COMPLETED"@, Tone::AccentBold),
        d.counts.running > 0 ==> header_of(d).contains(
            ("run "@ + decimal(d.counts.running as nat), Tone::Accent),
        ),
        d.counts.ok > 0 ==> header_of(d).contains(
            ("ok "@ + decimal(d.counts.ok as nat), Tone::Green),
        ),
        d.counts.failed > 0 ==> header_of(d).contains(
            ("fail "@ + decimal(d.counts.failed as nat), Tone::Red),
        ),
        d.counts.timed_out > 0 ==> header_of(d).contains(
            ("timeout "@ + decimal(d.counts.timed_out as nat), Tone::Red),
        ),
        d.counts.blocked > 0 ==> header_of(d).contains(
            ("block "@ + decimal(d.counts.blocked as nat), Tone::Yellow),
        ),
        d.counts.skipped > 0 ==> header_of(d).contains(
            ("not detected "@ + decimal(d.counts.skipped as nat), Tone::Dim),
        ),
        d.counts.cancelled > 0 ==> header_of(d).contains(
            ("cancelled "@ + decimal(d.counts.cancelled as nat), Tone::Dim),
        ),
        d.counts.queued > 0 ==> header_of(d).contains(
            ("queued "@ + decimal(d.counts.queued as nat), Tone::Dim),
        ),
{
    let c = d.counts;
    if c.running > 0 {
        lemma_header_holds(d, ("run "@ + decimal(c.running as nat), Tone::Accent), 0);
    }
    if c.ok > 0 {
        lemma_header_holds(d, ("ok "@ + decimal(c.ok as nat), Tone::Green), 1);
    }
    if c.failed > 0 {
        lemma_header_holds(d, ("fail "@ + decimal(c.failed as nat), Tone::Red), 2);
    }
    if c.timed_out > 0 {
        lemma_header_holds(d, ("timeout "@ + decimal(c.timed_out as nat), Tone::Red), 3);
    }
    if c.blocked > 0 {
        lemma_header_holds(d, ("block "@ + decimal(c.blocked as nat), Tone::Yellow), 4);
    }
    if c.skipped > 0 {
        lemma_header_holds(d, ("not detected "@ + decimal(c.skipped as nat), Tone::Dim), 5);
    }
    if c.cancelled > 0 {
        lemma_header_holds(d, ("cancelled "@ + decimal(c.cancelled as nat), Tone::Dim), 6);
    }
    if c.queued > 0 {
        lemma_header_holds(d, ("queued "@ + decimal(c.queued as nat), Tone::Dim), 7);
    }
}

/// The header of a run without any special state: the tools done out of all,
/// in plain numbers.
pub proof fn headers_show_the_tools_done(done: nat, total: nat, word: Seq<char>)
    ensures
        done_of(done as int, total as int, word) == decimal(done) + seq!['/'] + decimal(total)
            + word,
{
    reveal_strlit("/");
    assert("/"@ =~= seq!['/']);
}

/// The list is of the visible rows, each once and in their order.
pub proof fn lists_hold_the_visible_rows(rows: Seq<Row>, explicit: bool, n: int)
    requires
        0 <= n <= rows.len(),
    ensures
        forall|k: int|
            0 <= k < visible_rows(rows, explicit, n).len() ==> 0 <= (#[trigger] visible_rows(
                rows,
                explicit,
                n,
            )[k]) < n && row_visible(rows, explicit, visible_rows(rows, explicit, n)[k]),
        forall|j: int, k: int|
            0 <= j < k < visible_rows(rows, explicit, n).len() ==> #[trigger] visible_rows(
                rows,
                explicit,
                n,
            )[j] < #[trigger] visible_rows(rows, explicit, n)[k],
        forall|i: int|
            0 <= i < n && #[trigger] row_visible(rows, explicit, i) ==> visible_rows(
                rows,
                explicit,
                n,
            ).contains(i),
    decreases n,
{
    if n > 0 {
        lists_hold_the_visible_rows(rows, explicit, n - 1);
        let rest = visible_rows(rows, explicit, n - 1);
        let all = visible_rows(rows, explicit, n);
        assert forall|i: int| 0 <= i < n && #[trigger] row_visible(
            rows,
            explicit,
            i,
        ) implies all.contains(i) by {
            if i < n - 1 {
                let k = rest.index_of(i);
                assert(all[k] == i);
            } else {
                assert(all[rest.len() as int] == i);
            }
        }
    }
}

/// The highlighted line is that of the selected row.
pub proof fn the_selected_row_is_highlighted(visible: Seq<int>, sel: int)
    requires
        visible.contains(sel),
    ensures
        0 <= highlight_of(visible, sel) < visible.len(),
        visible[highlight_of(visible, sel)] == sel,
    decreases visible.len(),
{
    if visible.last() != sel {
        let k = visible.index_of(sel);
        assert(visible.drop_last()[k] == sel);
        the_selected_row_is_highlighted(visible.drop_last(), sel);
    }
}

/// The footer names the tools that are left out of the list.
pub proof fn footers_name_the_tools_left_out(rows: Seq<Row>, explicit: bool, n: int)
    requires
        0 <= n <= rows.len(),
    ensures
        explicit ==> hidden_ids(rows, explicit, n).len() == 0,
        forall|i: int|
            0 <= i < n && !explicit && (#[trigger] rows[i]).status is Skipped ==> hidden_ids(
                rows,
                explicit,
                n,
            ).contains(rows[i].id@),
    decreases n,
{
    if n > 0 {
        footers_name_the_tools_left_out(rows, explicit, n - 1);
        let rest = hidden_ids(rows, explicit, n - 1);
        let all = hidden_ids(rows, explicit, n);
        assert forall|i: int|
            0 <= i < n && !explicit && (#[trigger] rows[i]).status is Skipped implies all.contains(
            rows[i].id@,
        ) by {
            if i < n - 1 {
                let k = rest.index_of(rows[i].id@);
                assert(all[k] == rows[i].id@);
            } else {
                assert(all[rest.len() as int] == rows[i].id@);
            }
        }
    }
}

/// Whoever is named there was not detected.
pub proof fn only_tools_left_out_are_named(
    rows: Seq<Row>,
    explicit: bool,
    n: int,
    id: Seq<char>,
)
    requires
        0 <= n <= rows.len(),
        hidden_ids(rows, explicit, n).contains(id),
    ensures
        exists|i: int|
            0 <= i < n && (#[trigger] rows[i]).status is Skipped && rows[i].id@ == id,
    decreases n,
{
    if n > 0 {
        let rest = hidden_ids(rows, explicit, n - 1);
        let all = hidden_ids(rows, explicit, n);
        let k = all.index_of(id);
        if k < rest.len() {
            assert(rest[k] == id);
            only_tools_left_out_are_named(rows, explicit, n - 1, id);
        } else {
            assert(rows[n - 1].status is Skipped && rows[n - 1].id@ == id);
        }
    }
}

/// The footer ends with the keys to quit, or while the run is being cancelled
/// with that; the keys of the log are shown while it is open.
pub proof fn footers_show_the_keys_that_work(d: Dashboard)
    ensures
        ({
            let l = footer_of(d);
            let n = l.len() as int;
            &&& d.cancelled ==> l.last() == ("cancelling\u{2026}"@, Tone::Yellow)
            &&& !d.cancelled ==> l[n - 1] == ("ctrl-c cancel"@, Tone::Dim) && l[n - 2] == (
            "q quit"@,
            Tone::Dim,
            )
            &&& d.detail_open && !d.cancelled ==> l[n - 3] == ("enter/l close log"@, Tone::Dim)
                && l[n - 4] == ("pgup/pgdn scroll"@, Tone::Dim)
            &&& !d.detail_open && !d.cancelled ==> l[n - 3] == ("? help"@, Tone::Dim) && l[n - 4]
                == ("enter/l log"@, Tone::Dim) && l[n - 5] == ("j/k select"@, Tone::Dim)
        }),
{
}

/// The line about a job shows its status, its exit code where it has one, and
/// its version and message where they say something.
pub proof fn details_show_status_and_exit_code(row: Row)
    ensures
        meta_of(row)[0] == (status_label(row.status), tone_of(row.status)),
        row.exit_code matches Some(code) ==> meta_of(row)[1] == (" exit "@ + signed_decimal(
            code as int,
        ), Tone::Plain),
        row.exit_code is None && row.message@.len() == 0 && row.version@ == "-"@ ==> meta_of(
            row,
        ).len() == 1,
        row.message@.len() > 0 ==> meta_of(row).last() == ("  "@ + cell_clip(
            row.message@,
            160,
        ), Tone::Dim),
        row.exit_code is None && row.version@.len() > 0 && row.version@ != "-"@ ==> meta_of(row)[1]
            == ("  "@ + cell_clip(row.version@, 96), Tone::Plain),
{
}

/// The open log shows all of its lines, a placeholder without any, and stands
/// at its end while it follows, else where it was left, but never past its
/// end.
pub proof fn logs_stand_where_they_were_left(d: Dashboard, height: u16)
    requires
        height >= 1,
    ensures
        ({
            let total = lines(d.tail_text@).len() as int;
            let top = if total > height {
                total - height
            } else {
                0
            };
            &&& d.follow ==> scrolled(d, height) == top
            &&& !d.follow && d.log_scroll <= top ==> scrolled(d, height) == d.log_scroll
            &&& !d.follow && d.log_scroll > top ==> scrolled(d, height) == top
        }),
        d.tail_text@.len() > 0 ==> log_shown(d) == lines(d.tail_text@),
        d.tail_text@.len() == 0 && d.done ==> log_shown(d) == seq!["(no output)"@],
        d.tail_text@.len() == 0 && !d.done ==> log_shown(d) == seq!["(no output yet)"@],
{
}

/// A row shows its cells from left to right with a gap between any two; the
/// selected one is marked, and the status has its tone.
pub proof fn rows_show_their_cells_in_order(row: Row, col: Columns, selected: bool)
    requires
        col.version > 0,
        col.time > 0,
        col.activity > 0,
    ensures
        ({
            let l = row_of(row, col, selected);
            &&& l.len() == 9
            &&& l[0].0 == row.c_id@ && l[2].0 == row.c_version@ && l[4].0 == row.c_status@
            &&& l[6].0 == row.c_time@ && l[8].0 == row.c_activity@
            &&& l[1].0 == " "@ && l[3].0 == " "@ && l[5].0 == " "@ && l[7].0 == " "@
            &&& selected ==> l[0].1 is AccentBold
            &&& !selected ==> !(l[0].1 is AccentBold)
            &&& l[2].1 is Dim <==> row.version_dim
            &&& l[4].1 is Green <==> row.status is Succeeded
            &&& l[4].1 is Red <==> row.status is Failed || row.status is TimedOut
            &&& l[8].1 is Plain <==> row.status is Running
        }),
        row_of(row, Columns { version: 0, time: 0, activity: 0, ..col }, selected).len() == 3,
{
}

/// The cells of a row hold its id, version, status, time and activity.
pub proof fn cells_hold_what_the_row_holds(before: Row, after: Row, col: Columns, now: TimeSpan)
    requires
        cells_built(before, after, col, now),
    ensures
        after.c_id@ == padded_right(cell_clip(before.id@, col.id as int), col.id as int),
        col.version > 0 ==> after.c_version@ == padded_right(
            cell_clip(before.version@, col.version as int),
            col.version as int,
        ),
        after.c_status@ == padded_right(cell_clip(status_label(before.status), 12), 12),
        col.time > 0 ==> after.c_time@ == padded_left(before.time_shown(now), col.time as int),
        col.activity > 0 ==> after.c_activity@ == cell_clip(before.activity@, col.activity as int),
        col.version == 0 ==> after.c_version@.len() == 0,
        col.time == 0 ==> after.c_time@.len() == 0,
        col.activity == 0 ==> after.c_activity@.len() == 0,
        after.id == before.id,
        after.status == before.status,
        after.version == before.version,
        after.activity == before.activity,
{
}

/// The question is about the tools that are not done.
pub proof fn questions_count_what_is_not_done(d: Dashboard)
    requires
        d.counts.wf(),
    ensures
        pending_of(d) == d.counts.running + d.counts.queued,
{
}

/// The column header has a title for every column that is shown, in the order
/// of the cells.
pub proof fn columns_have_titles(col: Columns)
    requires
        col.version > 0,
        col.time > 0,
        col.activity > 0,
    ensures
        ({
            let l = colhead_of(col);
            &&& l.len() == 9
            &&& l[0].0 == padded_right(cell_clip("id"@, col.id as int), col.id as int)
            &&& l[2].0 == padded_right(cell_clip("version"@, col.version as int), col.version as int)
            &&& l[4].0 == padded_right(cell_clip("status"@, 12), 12)
            &&& l[6].0 == padded_left(cell_clip("time"@, col.time as int), col.time as int)
            &&& l[8].0 == "activity"@
        }),
{
}

/// The hint on tools that were not detected has their number, then their ids.
pub proof fn hints_number_the_tools_left_out(ids: Seq<Seq<char>>, i: int)
    requires
        0 <= i < ids.len(),
    ensures
        hidden_hint(ids).len() == ids.len() + 1,
        hidden_hint(ids)[0] == ("not detected "@ + decimal(ids.len()) + ":"@, Tone::Dim),
        hidden_hint(ids)[i + 1] == (ids[i], Tone::Dim),
        hidden_hint(Seq::empty()).len() == 0,
{
}

/// The lines of the list are those of its rows, and what a segment says is
/// what it holds.
pub proof fn list_lines_are_those_of_the_rows(
    d: Dashboard,
    col: Columns,
    n: int,
    k: int,
    seg: Segment,
    list: Vec<Segment>,
    i: int,
)
    requires
        0 <= k < visible_rows(d.rows@, d.explicit, n).len(),
        0 <= i < list@.len(),
    ensures
        row_lines(d, col, n).len() == visible_rows(d.rows@, d.explicit, n).len(),
        ({
            let at = visible_rows(d.rows@, d.explicit, n)[k];
            row_lines(d, col, n)[k] == row_of(d.rows@[at], col, at == d.sel)
        }),
        seg@ == (seg.text@, seg.tone),
        segs(list@).len() == list@.len(),
        segs(list@)[i] == (list@[i].text@, list@[i].tone),
{
}

/// The key overview tells what the keys do.
pub proof fn the_overview_tells_the_keys()
    ensures
        help_of().len() == 9,
        help_of()[0] == seq![
            (left_aligned("j / \u{2193}"@, 14), Tone::Accent),
            ("select next row"@, Tone::Plain),
        ],
        help_of()[1] == seq![
            (left_aligned("k / \u{2191}"@, 14), Tone::Accent),
            ("select previous row"@, Tone::Plain),
        ],
        help_of()[6] == seq![
            (left_aligned("ctrl-c"@, 14), Tone::Accent),
            ("cancel the run now"@, Tone::Plain),
        ],
{
}

} // verus!
