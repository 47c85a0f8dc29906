//! Text in table cells: clipping and padding by display columns.

use vstd::prelude::*;
use vstd::string::*;

use crate::model::Status;
use crate::number::{decimal, padded, push_decimal, push_padded};
use crate::text::{chars_of, control, is_control, push_spaces, spaces};

verus! {

/// How many display columns `text` takes.
pub uninterp spec fn display_width(text: Seq<char>) -> nat;

/// `ratatui::text::Span::width` of a raw span: the display columns of a text,
/// which depend on the text alone.
#[verifier::external_body]
fn span_width(s: &str) -> (r: usize)
    ensures
        r == display_width(s@),
{
    ratatui::text::Span::raw(s).width()
}

/// How many display columns `s` takes.
pub fn str_width(s: &str) -> (r: usize)
    ensures
        r == display_width(s@),
{
    span_width(s)
}

/// How many display columns a character takes on its own.
pub open spec fn char_width(c: char) -> nat {
    display_width(seq![c])
}

fn width_of_char(c: char) -> (r: usize)
    ensures
        r == char_width(c),
{
    let mut s = String::new();
    s.push(c);
    assert(s@ =~= seq![c]);
    str_width(s.as_str())
}

/// The widths of the characters of `s`.
pub open spec fn char_widths(s: Seq<char>) -> Seq<int> {
    s.map_values(|c: char| char_width(c) as int)
}

/// The visible characters of `s` that fit into `max` columns, when the
/// characters have the given widths.
pub open spec fn fitting(s: Seq<char>, widths: Seq<int>, max: int) -> Seq<char>
    decreases s.len(),
{
    if s.len() == 0 {
        Seq::empty()
    } else if control(s[0]) {
        fitting(s.skip(1), widths.skip(1), max)
    } else if widths[0] > max {
        Seq::empty()
    } else {
        seq![s[0]] + fitting(s.skip(1), widths.skip(1), max - widths[0])
    }
}

/// Every visible character of `s` fits into `max` columns.
pub open spec fn fits(s: Seq<char>, widths: Seq<int>, max: int) -> bool
    decreases s.len(),
{
    if s.len() == 0 {
        true
    } else if control(s[0]) {
        fits(s.skip(1), widths.skip(1), max)
    } else {
        widths[0] <= max && fits(s.skip(1), widths.skip(1), max - widths[0])
    }
}

/// Appends the visible characters until `max` columns are used up, when the
/// characters have the given widths.
pub fn push_fit_widths(out: &mut String, s: &Vec<char>, widths: &Vec<usize>, max: usize) -> (r: bool)
    requires
        s@.len() == widths@.len(),
    ensures
        ({
            let w = widths@.map_values(|n: usize| n as int);
            &&& final(out)@ == old(out)@ + fitting(s@, w, max as int)
            &&& r == fits(s@, w, max as int)
        }),
{
    let ghost w = widths@.map_values(|n: usize| n as int);
    let ghost start = out@;
    let mut left: usize = max;
    assert(s@.skip(0) =~= s@ && w.skip(0) =~= w);
    for i in 0..s.len()
        invariant
            s@.len() == widths@.len(),
            w == widths@.map_values(|n: usize| n as int),
            start == old(out)@,
            out@ + fitting(s@.skip(i as int), w.skip(i as int), left as int) == start + fitting(
                s@,
                w,
                max as int,
            ),
            fits(s@, w, max as int) == fits(s@.skip(i as int), w.skip(i as int), left as int),
    {
        let c = s[i];
        let ghost rest = s@.skip(i as int);
        let ghost before = out@;
        assert(rest[0] == c && w.skip(i as int)[0] == widths@[i as int]);
        assert(rest.skip(1) =~= s@.skip(i + 1));
        assert(w.skip(i as int).skip(1) =~= w.skip(i + 1));
        if !is_control(c) {
            let n: usize = widths[i];
            if n > left {
                assert(out@ + Seq::<char>::empty() =~= out@);
                return false;
            }
            out.push(c);
            left = left - n;
            proof {
                let more = fitting(s@.skip(i + 1), w.skip(i + 1), left as int);
                assert(before + (seq![c] + more) =~= out@ + more);
            }
        }
    }
    assert(out@ + Seq::<char>::empty() =~= out@);
    true
}

/// Appends the visible characters of `s` until `max` display columns are used
/// up; control characters are dropped without consuming width. Returns true
/// when every visible character fit.
pub fn push_fit(out: &mut String, s: &str, max: usize) -> (r: bool)
    ensures
        final(out)@ == old(out)@ + fitting(s@, char_widths(s@), max as int),
        r == fits(s@, char_widths(s@), max as int),
{
    let chars = chars_of(s);
    let mut widths: Vec<usize> = Vec::new();
    for i in 0..chars.len()
        invariant
            chars@ == s@,
            widths@.len() == i,
            forall|k: int| 0 <= k < i ==> #[trigger] widths@[k] == char_width(s@[k]),
    {
        widths.push(width_of_char(chars[i]));
    }
    assert(widths@.map_values(|n: usize| n as int) =~= char_widths(s@));
    push_fit_widths(out, &chars, &widths, max)
}

/// `s` clipped to `max` columns: whole when it fits, else the longest prefix
/// that leaves one column for the ellipsis.
pub open spec fn cell_clip(s: Seq<char>, max: int) -> Seq<char> {
    let w = char_widths(s);
    if max <= 0 {
        Seq::empty()
    } else if fits(s, w, max) {
        fitting(s, w, max)
    } else {
        fitting(s, w, max - 1).push('\u{2026}')
    }
}

/// Puts `s` into `out`, clipped to `max` display columns. Only text truly
/// wider than that gets an ellipsis, and no character is split.
pub fn push_clipped(out: &mut String, s: &str, max: usize)
    ensures
        final(out)@ == cell_clip(s@, max as int),
{
    *out = String::new();
    if max == 0 {
        return;
    }
    if push_fit(out, s, max) {
        assert(out@ =~= fitting(s@, char_widths(s@), max as int));
        return;
    }
    *out = String::new();
    push_fit(out, s, max - 1);
    assert(out@ =~= fitting(s@, char_widths(s@), max - 1));
    out.push('\u{2026}');
}

/// `s` filled up with spaces on its right to `width` columns.
pub open spec fn padded_right(s: Seq<char>, width: int) -> Seq<char> {
    s + spaces(width - display_width(s))
}

/// `s` filled up with spaces on its left to `width` columns.
pub open spec fn padded_left(s: Seq<char>, width: int) -> Seq<char> {
    spaces(width - display_width(s)) + s
}

/// Puts `s` into `out`, clipped and filled up to `width` columns.
pub fn push_cell_padded(out: &mut String, s: &str, width: usize)
    ensures
        final(out)@ == padded_right(cell_clip(s@, width as int), width as int),
{
    push_clipped(out, s, width);
    let used: usize = str_width(out.as_str());
    let pad: usize = width.saturating_sub(used);
    let ghost clip = out@;
    push_spaces(out, pad);
    assert(out@ =~= padded_right(clip, width as int));
}

/// Right-aligns the clipped content of `out` inside `width` columns.
pub fn pad_left_inplace(out: &mut String, width: usize)
    ensures
        final(out)@ == padded_left(old(out)@, width as int),
{
    let used: usize = str_width(out.as_str());
    let pad: usize = width.saturating_sub(used);
    let mut padded = String::new();
    push_spaces(&mut padded, pad);
    padded.append(out.as_str());
    assert(padded@ =~= padded_left(out@, width as int));
    *out = padded;
}

/// `text` clipped and filled up on its right to `width` columns.
pub fn pad_right(text: &str, width: usize) -> (r: String)
    ensures
        r@ == padded_right(cell_clip(text@, width as int), width as int),
{
    let mut out = String::new();
    push_cell_padded(&mut out, text, width);
    out
}

/// `text` clipped and filled up on its left to `width` columns.
pub fn pad_left(text: &str, width: usize) -> (r: String)
    ensures
        r@ == padded_left(cell_clip(text@, width as int), width as int),
{
    let mut out = String::new();
    push_clipped(&mut out, text, width);
    pad_left_inplace(&mut out, width);
    out
}

/// A duration in its compact form: `42s`, `3m05s`, `1h02m`.
pub open spec fn duration_form(secs: int) -> Seq<char> {
    let h = secs / 3600;
    let m = secs % 3600 / 60;
    let s = secs % 60;
    if h > 0 {
        decimal(h as nat) + "h"@ + padded(m as nat, 2) + "m"@
    } else if m > 0 {
        decimal(m as nat) + "m"@ + padded(s as nat, 2) + "s"@
    } else {
        decimal(s as nat) + "s"@
    }
}

/// Appends a duration in its compact form.
pub fn push_duration(out: &mut String, secs: u64)
    ensures
        final(out)@ == old(out)@ + duration_form(secs as int),
{
    let ghost before = out@;
    let h: u64 = secs / 3600;
    let m: u64 = (secs % 3600) / 60;
    let s: u64 = secs % 60;
    if h > 0 {
        push_decimal(out, h);
        out.append("h");
        push_padded(out, m, 2);
        out.append("m");
    } else if m > 0 {
        push_decimal(out, m);
        out.append("m");
        push_padded(out, s, 2);
        out.append("s");
    } else {
        push_decimal(out, s);
        out.append("s");
    }
    assert(out@ =~= before + duration_form(secs as int));
}

/// A duration in its compact form.
pub fn format_duration(secs: u64) -> (r: String)
    ensures
        r@ == duration_form(secs as int),
{
    let mut out = String::new();
    push_duration(&mut out, secs);
    assert(out@ =~= duration_form(secs as int));
    out
}

/// The word for a status in the table.
pub open spec fn status_label(status: Status) -> Seq<char> {
    match status {
        Status::Queued => "queued"@,
        Status::Running => "running"@,
        Status::Succeeded => "ok"@,
        Status::Failed => "failed"@,
        Status::Blocked => "blocked"@,
        Status::Skipped => "not detected"@,
        Status::Cancelled => "cancelled"@,
        Status::TimedOut => "timeout"@,
    }
}

/// The word for a status in the table.
pub fn status_text(status: Status) -> (r: &'static str)
    ensures
        r@ == status_label(status),
{
    match status {
        Status::Queued => "queued",
        Status::Running => "running",
        Status::Succeeded => "ok",
        Status::Failed => "failed",
        Status::Blocked => "blocked",
        Status::Skipped => "not detected",
        Status::Cancelled => "cancelled",
        Status::TimedOut => "timeout",
    }
}

/// The number for a status in the fingerprint of the screen.
pub open spec fn status_number(status: Status) -> u8 {
    match status {
        Status::Queued => 0,
        Status::Running => 1,
        Status::Succeeded => 2,
        Status::Failed => 3,
        Status::Blocked => 4,
        Status::Skipped => 7,
        Status::Cancelled => 5,
        Status::TimedOut => 6,
    }
}

/// The number for a status in the fingerprint of the screen.
pub fn status_code(status: Status) -> (r: u8)
    ensures
        r == status_number(status),
{
    match status {
        Status::Queued => 0,
        Status::Running => 1,
        Status::Succeeded => 2,
        Status::Failed => 3,
        Status::Blocked => 4,
        Status::Skipped => 7,
        Status::Cancelled => 5,
        Status::TimedOut => 6,
    }
}

// ---------------------------------------------------------------------------
// Laws
// ---------------------------------------------------------------------------

/// The columns that the characters of `s` take, one by one.
pub open spec fn total_width(s: Seq<char>) -> int
    decreases s.len(),
{
    if s.len() == 0 {
        0
    } else {
        char_width(s[0]) + total_width(s.skip(1))
    }
}

/// `s` without its control characters.
pub open spec fn visible(s: Seq<char>) -> Seq<char>
    decreases s.len(),
{
    if s.len() == 0 {
        Seq::empty()
    } else if control(s[0]) {
        visible(s.skip(1))
    } else {
        seq![s[0]] + visible(s.skip(1))
    }
}

/// Text that fits is kept whole, only its control characters are dropped, and
/// what is put into a cell is a prefix of the visible text that takes no more
/// columns than the cell has.
pub proof fn cells_fit_their_column(s: Seq<char>, max: int)
    requires
        0 <= max,
    ensures
        fits(s, char_widths(s), max) <==> total_width(visible(s)) <= max,
        fits(s, char_widths(s), max) ==> fitting(s, char_widths(s), max) == visible(s),
        fitting(s, char_widths(s), max).is_prefix_of(visible(s)),
        total_width(fitting(s, char_widths(s), max)) <= max,
    decreases s.len(),
{
    let w = char_widths(s);
    if s.len() > 0 {
        assert(w.skip(1) =~= char_widths(s.skip(1)));
        let c = s[0];
        if control(c) {
            cells_fit_their_column(s.skip(1), max);
        } else {
            let v = visible(s.skip(1));
            assert((seq![c] + v).skip(1) =~= v);
            lemma_width_positive(v);
            if w[0] <= max {
                cells_fit_their_column(s.skip(1), max - w[0]);
                let f = fitting(s.skip(1), w.skip(1), max - w[0]);
                assert((seq![c] + f).skip(1) =~= f);
                assert((seq![c] + f).is_prefix_of(seq![c] + v)) by {
                    assert forall|k: int| 0 <= k < f.len() + 1 implies (seq![c] + f)[k] == (seq![c]
                        + v)[k] by {
                        if k > 0 {
                            assert(f[k - 1] == v[k - 1]);
                        }
                    }
                }
            } else {
                assert(Seq::<char>::empty().is_prefix_of(visible(s)));
            }
        }
    } else {
        assert(fitting(s, w, max) =~= visible(s));
    }
}

proof fn lemma_width_positive(s: Seq<char>)
    ensures
        total_width(s) >= 0,
    decreases s.len(),
{
    if s.len() > 0 {
        lemma_width_positive(s.skip(1));
    }
}

/// A duration is shown in its two largest units, and these are exact: hours and
/// minutes, minutes and seconds, or seconds alone.
#[verifier::spinoff_prover]
pub proof fn durations_show_their_largest_units(h: int, m: int, s: int)
    requires
        0 <= h,
        0 <= m < 60,
        0 <= s < 60,
    ensures
        h > 0 ==> duration_form(h * 3600 + m * 60 + s) == decimal(h as nat) + seq!['h'] + padded(m as nat, 2)
            + seq!['m'],
        h == 0 && m > 0 ==> duration_form(h * 3600 + m * 60 + s) == decimal(m as nat) + seq!['m']
            + padded(s as nat, 2) + seq!['s'],
        h == 0 && m == 0 ==> duration_form(h * 3600 + m * 60 + s) == decimal(s as nat) + seq!['s'],
{
    reveal_strlit("h");
    reveal_strlit("m");
    reveal_strlit("s");
    assert("h"@ =~= seq!['h'] && "m"@ =~= seq!['m'] && "s"@ =~= seq!['s']);
    let secs: int = h * 3600 + m * 60 + s;
    assert(secs / 3600 == h);
    assert(secs % 3600 == m * 60 + s);
    assert((m * 60 + s) / 60 == m);
    assert(secs % 60 == s);
}

/// The words for the statuses in the table.
pub proof fn statuses_have_their_words(status: Status)
    ensures
        status is Queued ==> status_label(status) == "queued"@,
        status is Running ==> status_label(status) == "running"@,
        status is Succeeded ==> status_label(status) == "ok"@,
        status is Failed ==> status_label(status) == "failed"@,
        status is Blocked ==> status_label(status) == "blocked"@,
        status is Skipped ==> status_label(status) == "not detected"@,
        status is Cancelled ==> status_label(status) == "cancelled"@,
        status is TimedOut ==> status_label(status) == "timeout"@,
{
}

/// No two statuses count as the same in the fingerprint of the screen.
pub proof fn statuses_are_told_apart(a: Status, b: Status)
    ensures
        status_number(a) == status_number(b) <==> a == b,
{
}

/// A cell shows the whole text where that fits; else a beginning of it that
/// leaves a column, and the ellipsis.
pub proof fn only_wider_text_gets_an_ellipsis(s: Seq<char>, max: int)
    requires
        max > 0,
    ensures
        total_width(visible(s)) <= max ==> cell_clip(s, max) == visible(s),
        total_width(visible(s)) > max ==> cell_clip(s, max).len() > 0 && cell_clip(s, max).last()
            == '\u{2026}' && cell_clip(s, max).drop_last().is_prefix_of(visible(s)) && total_width(
            cell_clip(s, max).drop_last(),
        ) <= max - 1,
        cell_clip(s, 0).len() == 0,
{
    cells_fit_their_column(s, max);
    cells_fit_their_column(s, max - 1);
    let f = fitting(s, char_widths(s), max - 1);
    assert(f.push('\u{2026}').drop_last() =~= f);
}

/// Padding puts spaces on one side, as many columns as are missing.
pub proof fn padding_fills_the_missing_columns(s: Seq<char>, width: int)
    requires
        display_width(s) <= width,
    ensures
        padded_right(s, width).len() == s.len() + (width - display_width(s)),
        padded_right(s, width).take(s.len() as int) == s,
        forall|i: int|
            s.len() <= i < padded_right(s, width).len() ==> #[trigger] padded_right(s, width)[i]
                == ' ',
        padded_left(s, width).len() == s.len() + (width - display_width(s)),
        padded_left(s, width).skip(width - display_width(s)) == s,
        forall|i: int|
            0 <= i < width - display_width(s) ==> #[trigger] padded_left(s, width)[i] == ' ',
{
    assert(padded_right(s, width).take(s.len() as int) =~= s);
    assert(padded_left(s, width).skip(width - display_width(s)) =~= s);
}

} // verus!
