//! Time: spans of wall-clock time and calendar dates in UTC.

use vstd::arithmetic::div_mod::{lemma_hoist_over_denominator, lemma_mod_multiples_vanish};
use vstd::prelude::*;
use vstd::string::*;

use crate::number::{
    is_digit, lemma_padded_digits, lemma_padded_width, padded, padded_numerals_are_ordered,
    power_of_ten, push_padded,
};
use crate::text::{lemma_before_behind, lemma_before_extends, text_before};

verus! {

/// A span of time, or a point in time as the span since the process clock
/// was started.
#[derive(Clone, Copy, Debug, PartialEq, Eq, Structural)]
pub struct TimeSpan {
    pub secs: u64,
    /// Nanoseconds past the last whole second.
    pub nanos: u32,
}

impl TimeSpan {
    /// The nanoseconds stay below one second.
    pub open spec fn wf(self) -> bool {
        self.nanos < 1_000_000_000
    }

    /// The whole span in nanoseconds.
    pub open spec fn total(self) -> int {
        self.secs * 1_000_000_000 + self.nanos
    }

    /// The empty span.
    pub fn zero() -> (r: TimeSpan)
        ensures
            r.wf(),
            r.secs == 0,
            r.nanos == 0,
    {
        TimeSpan { secs: 0, nanos: 0 }
    }

    pub fn from_secs(secs: u64) -> (r: TimeSpan)
        ensures
            r.wf(),
            r.secs == secs,
            r.nanos == 0,
    {
        TimeSpan { secs, nanos: 0 }
    }

    /// Whether any time passed at all.
    pub fn is_zero(&self) -> (r: bool)
        ensures
            r == (self.total() == 0),
    {
        self.secs == 0 && self.nanos == 0
    }

    /// Whether this point in time is at or past `other`.
    pub fn reached(&self, other: &TimeSpan) -> (r: bool)
        ensures
            r == (self.total() >= other.total()),
    {
        self.total_nanos() >= other.total_nanos()
    }

    fn total_nanos(&self) -> (r: u128)
        ensures
            r == self.total(),
    {
        self.secs as u128 * 1_000_000_000 + self.nanos as u128
    }

    /// The time from `earlier` to `self`, empty when `earlier` is not earlier.
    pub fn since(&self, earlier: &TimeSpan) -> (r: TimeSpan)
        requires
            self.wf(),
        ensures
            r == span_between(*earlier, *self),
            r.wf(),
            r.total() == (if self.total() > earlier.total() {
                self.total() - earlier.total()
            } else {
                0
            }),
    {
        let a: u128 = self.total_nanos();
        let b: u128 = earlier.total_nanos();
        if a <= b {
            return TimeSpan { secs: 0, nanos: 0 };
        }
        let d: u128 = a - b;
        TimeSpan { secs: (d / 1_000_000_000) as u64, nanos: (d % 1_000_000_000) as u32 }
    }

    /// The whole seconds of the span, a started second counted in full.
    pub fn rounded_up_secs(&self) -> (r: u64)
        requires
            self.secs < u64::MAX,
        ensures
            r == self.secs + (if self.nanos == 0 {
                0int
            } else {
                1int
            }),
    {
        if self.nanos == 0 {
            self.secs
        } else {
            self.secs + 1
        }
    }
}

/// The span from `a` to `b`, empty when `b` is not later.
pub open spec fn span_between(a: TimeSpan, b: TimeSpan) -> TimeSpan {
    let d = b.total() - a.total();
    if d <= 0 {
        TimeSpan { secs: 0, nanos: 0 }
    } else {
        TimeSpan { secs: (d / 1_000_000_000) as u64, nanos: (d % 1_000_000_000) as u32 }
    }
}

// ---------------------------------------------------------------------------
// Calendar
// ---------------------------------------------------------------------------

/// A day of the proleptic Gregorian calendar.
#[derive(Clone, Copy, Debug, PartialEq, Eq, Structural)]
pub struct Date {
    pub year: u64,
    pub month: u64,
    pub day: u64,
}

pub open spec fn leap(year: int) -> bool {
    year % 4 == 0 && (year % 100 != 0 || year % 400 == 0)
}

pub open spec fn days_in_year(year: int) -> int {
    if leap(year) {
        366
    } else {
        365
    }
}

pub open spec fn days_in_month(year: int, month: int) -> int {
    if month == 2 {
        if leap(year) {
            29
        } else {
            28
        }
    } else if month == 4 || month == 6 || month == 9 || month == 11 {
        30
    } else {
        31
    }
}

/// Days from the first day of year zero to the first day of `year`.
pub open spec fn days_before_year(year: int) -> int
    decreases year,
{
    if year <= 0 {
        0
    } else {
        days_before_year(year - 1) + days_in_year(year - 1)
    }
}

/// Days from the first day of `year` to the first day of its month `month`.
pub open spec fn days_before_month(year: int, month: int) -> int
    decreases month,
{
    if month <= 1 {
        0
    } else {
        days_before_month(year, month - 1) + days_in_month(year, month - 1)
    }
}

impl Date {
    /// The month and the day exist in the calendar.
    pub open spec fn valid(self) -> bool {
        &&& 1 <= self.month <= 12
        &&& 1 <= self.day <= days_in_month(self.year as int, self.month as int)
    }

    /// Days from the first of January 1970 to this day.
    pub open spec fn day_number(self) -> int {
        days_before_year(self.year as int) + days_before_month(self.year as int, self.month as int)
            + self.day - 1 - days_before_year(1970)
    }
}

/// Rounding up differs from rounding down unless nothing is left over.
#[verifier::rlimit(40)]
#[verifier::spinoff_prover]
proof fn lemma_rounded_up(y: int)
    requires
        y >= 0,
    ensures
        (y + 3) / 4 == y / 4 + (if y % 4 == 0 {
            0int
        } else {
            1int
        }),
        (y + 99) / 100 == y / 100 + (if y % 100 == 0 {
            0int
        } else {
            1int
        }),
        (y + 399) / 400 == y / 400 + (if y % 400 == 0 {
            0int
        } else {
            1int
        }),
        y % 100 == 0 ==> y % 4 == 0,
        y % 400 == 0 ==> y % 100 == 0,
{
    assert((y + 3) / 4 == y / 4 + (if y % 4 == 0 {
        0int
    } else {
        1int
    }));
    assert((y + 99) / 100 == y / 100 + (if y % 100 == 0 {
        0int
    } else {
        1int
    }));
    assert((y + 399) / 400 == y / 400 + (if y % 400 == 0 {
        0int
    } else {
        1int
    }));
    if y % 100 == 0 {
        assert(y == 4 * (25 * (y / 100)));
    }
    if y % 400 == 0 {
        assert(y == 100 * (4 * (y / 400)));
    }
}

#[verifier::rlimit(40)]
#[verifier::spinoff_prover]
proof fn lemma_years(year: int)
    requires
        year >= 0,
    ensures
        days_before_year(year) == 365 * year + (year + 3) / 4 - (year + 99) / 100 + (year + 399)
            / 400,
    decreases year,
{
    if year > 0 {
        let y = year - 1;
        lemma_years(y);
        lemma_rounded_up(y);
        assert((y + 4) / 4 == y / 4 + 1);
        assert((y + 100) / 100 == y / 100 + 1);
        assert((y + 400) / 400 == y / 400 + 1);
    }
}

proof fn lemma_months(year: int)
    ensures
        ({
            let f: int = if leap(year) {
                1
            } else {
                0
            };
            &&& days_before_month(year, 1) == 0
            &&& days_before_month(year, 2) == 31
            &&& days_before_month(year, 3) == 59 + f
            &&& days_before_month(year, 4) == 90 + f
            &&& days_before_month(year, 5) == 120 + f
            &&& days_before_month(year, 6) == 151 + f
            &&& days_before_month(year, 7) == 181 + f
            &&& days_before_month(year, 8) == 212 + f
            &&& days_before_month(year, 9) == 243 + f
            &&& days_before_month(year, 10) == 273 + f
            &&& days_before_month(year, 11) == 304 + f
            &&& days_before_month(year, 12) == 334 + f
        }),
{
    reveal_with_fuel(days_before_month, 13);
}

/// Within a 400-year era that starts in March, the year of day `doe`.
#[verifier::rlimit(40)]
#[verifier::spinoff_prover]
proof fn lemma_year_of_era(doe: int)
    requires
        0 <= doe < 146_097,
    ensures
        ({
            let yoe = (doe - doe / 1460 + doe / 36_524 - doe / 146_096) / 365;
            let doy = doe - (365 * yoe + yoe / 4 - yoe / 100);
            &&& 0 <= yoe <= 399
            &&& 0 <= doy <= 365
            &&& doy == 365 ==> leap(yoe + 1)
        }),
{
    let yoe = (doe - doe / 1460 + doe / 36_524 - doe / 146_096) / 365;
    let c = doe / 36_524;
    assert(0 <= c <= 4);
    if c == 4 {
        assert(doe == 146_096);
    }
}

/// Within a year that starts in March, the month and the day of day `doy`.
#[verifier::rlimit(40)]
#[verifier::spinoff_prover]
proof fn lemma_month_of_year(doy: int)
    requires
        0 <= doy <= 365,
    ensures
        ({
            let mp = (5 * doy + 2) / 153;
            let start = (153 * mp + 2) / 5;
            &&& 0 <= mp <= 11
            &&& start <= doy
            &&& mp == 0 ==> start == 0 && doy < 31
            &&& mp == 1 ==> start == 31 && doy < 61
            &&& mp == 2 ==> start == 61 && doy < 92
            &&& mp == 3 ==> start == 92 && doy < 122
            &&& mp == 4 ==> start == 122 && doy < 153
            &&& mp == 5 ==> start == 153 && doy < 184
            &&& mp == 6 ==> start == 184 && doy < 214
            &&& mp == 7 ==> start == 214 && doy < 245
            &&& mp == 8 ==> start == 245 && doy < 275
            &&& mp == 9 ==> start == 275 && doy < 306
            &&& mp == 10 ==> start == 306 && doy < 337
            &&& mp == 11 ==> start == 337
        }),
{
}

/// The days before a year in terms of a year count that starts in March.
#[verifier::rlimit(40)]
#[verifier::spinoff_prover]
proof fn lemma_march(y: int)
    requires
        y >= 0,
    ensures
        days_before_year(y) + (if leap(y) {
            1int
        } else {
            0int
        }) == 365 * y + y / 4 - y / 100 + y / 400 + 1,
        days_before_year(y + 1) == 365 * y + y / 4 - y / 100 + y / 400 + 366,
{
    lemma_years(y);
    lemma_years(y + 1);
    lemma_rounded_up(y);
}

/// A year inside its 400-year era.
#[verifier::rlimit(40)]
#[verifier::spinoff_prover]
proof fn lemma_era(era: int, yoe: int)
    requires
        0 <= era,
        0 <= yoe <= 399,
    ensures
        ({
            let y = yoe + era * 400;
            &&& y / 4 == yoe / 4 + 100 * era
            &&& y / 100 == yoe / 100 + 4 * era
            &&& y / 400 == era
            &&& leap(yoe + 1) == leap(y + 1)
        }),
{
    lemma_hoist_over_denominator(yoe, 100 * era, 4);
    lemma_hoist_over_denominator(yoe, 4 * era, 100);
    lemma_hoist_over_denominator(yoe, era, 400);
    lemma_mod_multiples_vanish(100 * era, yoe + 1, 4);
    lemma_mod_multiples_vanish(4 * era, yoe + 1, 100);
    lemma_mod_multiples_vanish(era, yoe + 1, 400);
}

/// Putting the March-based year, month and day back into the calendar.
#[verifier::rlimit(40)]
#[verifier::spinoff_prover]
proof fn lemma_civil(era: int, yoe: int, doy: int, mp: int, r: Date)
    requires
        0 <= era,
        0 <= yoe <= 399,
        0 <= doy <= 365,
        doy == 365 ==> leap(yoe + 1),
        mp == (5 * doy + 2) / 153,
        r.day == doy - (153 * mp + 2) / 5 + 1,
        r.month == (if mp < 10 {
            mp + 3
        } else {
            mp - 9
        }),
        r.year == (if mp < 10 {
            yoe + era * 400
        } else {
            yoe + era * 400 + 1
        }),
    ensures
        r.valid(),
        r.day_number() == era * 146_097 + 365 * yoe + yoe / 4 - yoe / 100 + doy - 719_468,
{
    let y = yoe + era * 400;
    lemma_month_of_year(doy);
    lemma_march(y);
    lemma_era(era, yoe);
    lemma_years(1970);
    lemma_months(r.year as int);
}

/// The calendar day that lies `days` days after the first of January 1970.
pub fn civil_date(days: u64) -> (r: Date)
    requires
        days <= u64::MAX / 86_400,
    ensures
        r.valid(),
        r.day_number() == days,
{
    let z: u64 = days + 719_468;
    let era: u64 = z / 146_097;
    let doe: u64 = z - era * 146_097;
    proof {
        lemma_year_of_era(doe as int);
    }
    let yoe: u64 = (doe - doe / 1460 + doe / 36_524 - doe / 146_096) / 365;
    let march_year: u64 = yoe + era * 400;
    let doy: u64 = doe - (365 * yoe + yoe / 4 - yoe / 100);
    proof {
        lemma_month_of_year(doy as int);
    }
    let mp: u64 = (5 * doy + 2) / 153;
    let day: u64 = doy - (153 * mp + 2) / 5 + 1;
    let month: u64 = if mp < 10 {
        mp + 3
    } else {
        mp - 9
    };
    let year: u64 = if month <= 2 {
        march_year + 1
    } else {
        march_year
    };
    let r = Date { year, month, day };
    proof {
        lemma_civil(era as int, yoe as int, doy as int, mp as int, r);
    }
    r
}

/// Two calendar days with the same day number are the same day.
pub proof fn day_number_identifies_the_date(a: Date, b: Date)
    requires
        a.valid(),
        b.valid(),
        a.day_number() == b.day_number(),
    ensures
        a == b,
{
    if a.year < b.year {
        lemma_year_order(a, b);
    }
    if b.year < a.year {
        lemma_year_order(b, a);
    }
    lemma_months(a.year as int);
}

proof fn lemma_years_grow(a: int, b: int)
    requires
        0 <= a < b,
    ensures
        days_before_year(a) + days_in_year(a) <= days_before_year(b),
    decreases b - a,
{
    if a + 1 < b {
        lemma_years_grow(a, b - 1);
    }
}

proof fn lemma_year_order(a: Date, b: Date)
    requires
        a.valid(),
        b.valid(),
        a.year < b.year,
    ensures
        a.day_number() < b.day_number(),
{
    lemma_years_grow(a.year as int, b.year as int);
    lemma_months(a.year as int);
    lemma_months(b.year as int);
}

// ---------------------------------------------------------------------------
// Timestamps
// ---------------------------------------------------------------------------

/// `date` is the UTC day of the Unix time `secs`.
pub open spec fn date_of(secs: u64, date: Date) -> bool {
    date.valid() && date.day_number() == secs as int / 86_400
}

/// `YYYY-MM-DDThh:mm:ssZ` of a date and the seconds into its day.
pub open spec fn rfc3339_form(date: Date, rem: int) -> Seq<char> {
    padded(date.year as nat, 4) + "-"@ + padded(date.month as nat, 2) + "-"@ + padded(
        date.day as nat,
        2,
    ) + "T"@ + padded((rem / 3600) as nat, 2) + ":"@ + padded((rem % 3600 / 60) as nat, 2) + ":"@
        + padded((rem % 60) as nat, 2) + "Z"@
}

/// `YYYYMMDD-hhmmss` of a date and the seconds into its day.
pub open spec fn compact_form(date: Date, rem: int) -> Seq<char> {
    padded(date.year as nat, 4) + padded(date.month as nat, 2) + padded(date.day as nat, 2) + "-"@
        + padded((rem / 3600) as nat, 2) + padded((rem % 3600 / 60) as nat, 2) + padded(
        (rem % 60) as nat,
        2,
    )
}

/// `text` is the RFC 3339 UTC timestamp of `unix_secs`.
pub open spec fn rfc3339_of(unix_secs: u64, text: Seq<char>) -> bool {
    exists|date: Date|
        #[trigger] date_of(unix_secs, date) && text == rfc3339_form(
            date,
            unix_secs as int % 86_400,
        )
}

/// RFC 3339 UTC timestamp from Unix seconds.
pub fn rfc3339_utc(unix_secs: u64) -> (r: String)
    ensures
        rfc3339_of(unix_secs, r@),
{
    let date = civil_date(unix_secs / 86_400);
    let rem: u64 = unix_secs % 86_400;
    let mut out = String::new();
    push_padded(&mut out, date.year, 4);
    out.append("-");
    push_padded(&mut out, date.month, 2);
    out.append("-");
    push_padded(&mut out, date.day, 2);
    out.append("T");
    push_padded(&mut out, rem / 3600, 2);
    out.append(":");
    push_padded(&mut out, (rem % 3600) / 60, 2);
    out.append(":");
    push_padded(&mut out, rem % 60, 2);
    out.append("Z");
    assert(Seq::<char>::empty() + padded(date.year as nat, 4) =~= padded(date.year as nat, 4));
    assert(date_of(unix_secs, date));
    out
}

/// `text` is the compact UTC timestamp of `secs`.
pub open spec fn compact_of(secs: u64, text: Seq<char>) -> bool {
    exists|date: Date|
        #[trigger] date_of(secs, date) && text == compact_form(date, secs as int % 86_400)
}

/// Compact UTC timestamp from Unix seconds, for directory names.
pub fn utc_timestamp(secs: u64) -> (r: String)
    ensures
        compact_of(secs, r@),
{
    let date = civil_date(secs / 86_400);
    let rem: u64 = secs % 86_400;
    let mut out = String::new();
    push_padded(&mut out, date.year, 4);
    push_padded(&mut out, date.month, 2);
    push_padded(&mut out, date.day, 2);
    out.append("-");
    push_padded(&mut out, rem / 3600, 2);
    push_padded(&mut out, (rem % 3600) / 60, 2);
    push_padded(&mut out, rem % 60, 2);
    assert(Seq::<char>::empty() + padded(date.year as nat, 4) =~= padded(date.year as nat, 4));
    assert(date_of(secs, date));
    out
}

// ---------------------------------------------------------------------------
// Laws
// ---------------------------------------------------------------------------

/// `s` with every `-`, `:` and `Z` deleted and then every `T` replaced by `-`.
pub open spec fn compacted(s: Seq<char>) -> Seq<char>
    decreases s.len(),
{
    if s.len() == 0 {
        s
    } else {
        let rest = compacted(s.skip(1));
        if s[0] == '-' || s[0] == ':' || s[0] == 'Z' {
            rest
        } else if s[0] == 'T' {
            seq!['-'] + rest
        } else {
            seq![s[0]] + rest
        }
    }
}

proof fn lemma_compacted_parts(a: Seq<char>, b: Seq<char>)
    ensures
        compacted(a + b) == compacted(a) + compacted(b),
    decreases a.len(),
{
    if a.len() == 0 {
        assert(a + b =~= b);
        assert(a + compacted(b) =~= compacted(b));
    } else {
        assert((a + b).skip(1) =~= a.skip(1) + b);
        lemma_compacted_parts(a.skip(1), b);
        assert(compacted(a + b) =~= compacted(a) + compacted(b));
    }
}

proof fn lemma_compacted_digits(s: Seq<char>)
    requires
        forall|i: int| 0 <= i < s.len() ==> is_digit(#[trigger] s[i]),
    ensures
        compacted(s) == s,
    decreases s.len(),
{
    if s.len() > 0 {
        assert(is_digit(s[0]));
        assert forall|i: int| 0 <= i < s.skip(1).len() implies is_digit(#[trigger] s.skip(1)[i]) by {
            assert(s.skip(1)[i] == s[i + 1]);
        }
        lemma_compacted_digits(s.skip(1));
        assert(s =~= seq![s[0]] + s.skip(1));
    }
}

/// Compacting a numeral and what follows it.
proof fn lemma_compacted_number(n: nat, width: int, rest: Seq<char>)
    ensures
        compacted(padded(n, width) + rest) == padded(n, width) + compacted(rest),
{
    lemma_padded_digits(n, width);
    lemma_compacted_digits(padded(n, width));
    lemma_compacted_parts(padded(n, width), rest);
}

/// Compacting a separator and what follows it.
proof fn lemma_compacted_separator(c: char, rest: Seq<char>)
    ensures
        compacted(seq![c] + rest) == (if c == '-' || c == ':' || c == 'Z' {
            compacted(rest)
        } else if c == 'T' {
            seq!['-'] + compacted(rest)
        } else {
            seq![c] + compacted(rest)
        }),
{
    assert((seq![c] + rest).skip(1) =~= rest);
}

proof fn lemma_grouped(a: Seq<char>, b: Seq<char>, c: Seq<char>)
    ensures
        a + b + c == a + (b + c),
{
    assert(a + b + c =~= a + (b + c));
}

/// The compact form, each part in front of all that follow it.
proof fn lemma_compact_grouped(date: Date, rem: int)
    ensures
        compact_form(date, rem) == padded(date.year as nat, 4) + (padded(date.month as nat, 2) + (
        padded(date.day as nat, 2) + (seq!['-'] + (padded((rem / 3600) as nat, 2) + (padded(
            (rem % 3600 / 60) as nat,
            2,
        ) + padded((rem % 60) as nat, 2)))))),
{
    reveal_strlit("-");
    let dash = seq!['-'];
    assert("-"@ =~= dash);
    let y = padded(date.year as nat, 4);
    let m = padded(date.month as nat, 2);
    let d = padded(date.day as nat, 2);
    let h = padded((rem / 3600) as nat, 2);
    let i = padded((rem % 3600 / 60) as nat, 2);
    let s = padded((rem % 60) as nat, 2);
    let is = i + s;
    lemma_grouped(y + m + d + dash + h, i, s);
    lemma_grouped(y + m + d + dash, h, is);
    lemma_grouped(y + m + d, dash, h + is);
    lemma_grouped(y + m, d, dash + (h + is));
    lemma_grouped(y, m, d + (dash + (h + is)));
}

proof fn lemma_forms_agree(date: Date, rem: int)
    ensures
        compact_form(date, rem) == compacted(rfc3339_form(date, rem)),
{
    reveal_strlit("-");
    reveal_strlit(":");
    reveal_strlit("T");
    reveal_strlit("Z");
    let dash = seq!['-'];
    let colon = seq![':'];
    assert("-"@ =~= dash && ":"@ =~= colon && "T"@ =~= seq!['T'] && "Z"@ =~= seq!['Z']);
    let y = padded(date.year as nat, 4);
    let m = padded(date.month as nat, 2);
    let d = padded(date.day as nat, 2);
    let h = padded((rem / 3600) as nat, 2);
    let i = padded((rem % 3600 / 60) as nat, 2);
    let s = padded((rem % 60) as nat, 2);
    // What stands in front of each part, and what follows it.
    let l1 = y + dash;
    let l2 = l1 + m;
    let l3 = l2 + dash;
    let l4 = l3 + d;
    let l5 = l4 + seq!['T'];
    let l6 = l5 + h;
    let l7 = l6 + colon;
    let l8 = l7 + i;
    let l9 = l8 + colon;
    let r9 = s + seq!['Z'];
    let r8 = colon + r9;
    let r7 = i + r8;
    let r6 = colon + r7;
    let r5 = h + r6;
    let r4 = seq!['T'] + r5;
    let r3 = d + r4;
    let r2 = dash + r3;
    let r1 = m + r2;
    lemma_grouped(l9, s, seq!['Z']);
    lemma_grouped(l8, colon, r9);
    lemma_grouped(l7, i, r8);
    lemma_grouped(l6, colon, r7);
    lemma_grouped(l5, h, r6);
    lemma_grouped(l4, seq!['T'], r5);
    lemma_grouped(l3, d, r4);
    lemma_grouped(l2, dash, r3);
    lemma_grouped(l1, m, r2);
    lemma_grouped(y, dash, r1);
    lemma_compacted_number(date.year as nat, 4, dash + r1);
    lemma_compacted_separator('-', r1);
    lemma_compacted_number(date.month as nat, 2, r2);
    lemma_compacted_separator('-', r3);
    lemma_compacted_number(date.day as nat, 2, r4);
    lemma_compacted_separator('T', r5);
    lemma_compacted_number((rem / 3600) as nat, 2, r6);
    lemma_compacted_separator(':', r7);
    lemma_compacted_number((rem % 3600 / 60) as nat, 2, r8);
    lemma_compacted_separator(':', r9);
    lemma_compacted_number((rem % 60) as nat, 2, seq!['Z']);
    assert(compacted(seq!['Z']) == Seq::<char>::empty()) by {
        assert(seq!['Z'].skip(1) =~= Seq::<char>::empty());
        assert(compacted(Seq::<char>::empty()) == Seq::<char>::empty());
    }
    assert(s + Seq::<char>::empty() =~= s);
    lemma_compact_grouped(date, rem);
}

/// The compact timestamp is the RFC 3339 one without its separators, with a
/// dash between date and time.
pub proof fn compact_timestamps_are_rfc3339_without_separators(
    secs: u64,
    compact: Seq<char>,
    full: Seq<char>,
)
    requires
        compact_of(secs, compact),
        rfc3339_of(secs, full),
    ensures
        compact == compacted(full),
{
    let rem = secs as int % 86_400;
    let a = choose|date: Date| #[trigger]
        date_of(secs, date) && compact == compact_form(date, rem);
    let b = choose|date: Date| #[trigger]
        date_of(secs, date) && full == rfc3339_form(date, rem);
    day_number_identifies_the_date(a, b);
    lemma_forms_agree(a, rem);
}

proof fn lemma_months_grow(year: int, a: int, b: int)
    requires
        1 <= a < b <= 12,
    ensures
        days_before_month(year, a) + days_in_month(year, a) <= days_before_month(year, b),
    decreases b - a,
{
    if a + 1 < b {
        lemma_months_grow(year, a, b - 1);
    }
}

/// The earlier of two dates has the lower year, month or day, in this order.
proof fn lemma_dates_in_order(a: Date, b: Date)
    requires
        a.valid(),
        b.valid(),
        a.day_number() < b.day_number(),
    ensures
        ({
            ||| a.year < b.year
            ||| a.year == b.year && a.month < b.month
            ||| a.year == b.year && a.month == b.month && a.day < b.day
        }),
{
    if b.year < a.year {
        lemma_year_order(b, a);
    } else if a.year == b.year && b.month < a.month {
        lemma_months_grow(a.year as int, b.month as int, a.month as int);
    }
}

/// The days until the end of the year 9999.
#[verifier::rlimit(40)]
#[verifier::spinoff_prover]
proof fn lemma_four_digit_years(date: Date)
    requires
        date.valid(),
        date.day_number() <= 2_932_896,
    ensures
        date.year <= 9999,
{
    if date.year >= 10_000 {
        lemma_years(10_000);
        lemma_years(1970);
        if date.year > 10_000 {
            lemma_years_grow(10_000, date.year as int);
        }
        lemma_months(date.year as int);
    }
}

/// The parts of a compact timestamp, one behind the other.
spec fn parts_from(v: Seq<(nat, nat)>, k: int) -> Seq<char>
    decreases v.len() - k,
{
    if k < 0 || k >= v.len() {
        Seq::empty()
    } else {
        let rest = parts_from(v, k + 1);
        padded(v[k].0, v[k].1 as int) + (if k == 2 {
            seq!['-'] + rest
        } else {
            rest
        })
    }
}

/// Timestamps are ordered by the first part in which they differ.
proof fn lemma_parts_in_order(v: Seq<(nat, nat)>, w: Seq<(nat, nat)>, k: int, j: int)
    requires
        0 <= k <= j < v.len(),
        v.len() == w.len(),
        forall|i: int|
            0 <= i < v.len() ==> {
                &&& (#[trigger] v[i]).1 == w[i].1
                &&& v[i].1 >= 1
                &&& v[i].0 < power_of_ten(v[i].1)
                &&& w[i].0 < power_of_ten(v[i].1)
            },
        forall|i: int| k <= i < j ==> (#[trigger] v[i]).0 == w[i].0,
        v[j].0 < w[j].0,
    ensures
        text_before(parts_from(v, k), parts_from(w, k)),
    decreases j - k,
{
    let a = padded(v[k].0, v[k].1 as int);
    let b = padded(w[k].0, w[k].1 as int);
    let x = if k == 2 {
        seq!['-'] + parts_from(v, k + 1)
    } else {
        parts_from(v, k + 1)
    };
    let y = if k == 2 {
        seq!['-'] + parts_from(w, k + 1)
    } else {
        parts_from(w, k + 1)
    };
    if k == j {
        lemma_padded_width(v[k].0, v[k].1);
        lemma_padded_width(w[k].0, w[k].1);
        padded_numerals_are_ordered(v[k].0, w[k].0, v[k].1);
        lemma_before_extends(a, b, x, y);
    } else {
        lemma_parts_in_order(v, w, k + 1, j);
        lemma_before_behind(seq!['-'], parts_from(v, k + 1), parts_from(w, k + 1));
        lemma_before_behind(a, x, y);
    }
}

spec fn parts_of(date: Date, rem: int) -> Seq<(nat, nat)> {
    seq![
        (date.year as nat, 4nat),
        (date.month as nat, 2nat),
        (date.day as nat, 2nat),
        ((rem / 3600) as nat, 2nat),
        ((rem % 3600 / 60) as nat, 2nat),
        ((rem % 60) as nat, 2nat),
    ]
}

proof fn lemma_parts(date: Date, rem: int)
    ensures
        compact_form(date, rem) == parts_from(parts_of(date, rem), 0),
{
    lemma_compact_grouped(date, rem);
    let v = parts_of(date, rem);
    let s = padded((rem % 60) as nat, 2);
    assert(parts_from(v, 6) == Seq::<char>::empty());
    assert(s + Seq::<char>::empty() =~= s);
    assert(parts_from(v, 5) == s);
    assert(parts_from(v, 4) == padded((rem % 3600 / 60) as nat, 2) + s);
    assert(parts_from(v, 3) == padded((rem / 3600) as nat, 2) + parts_from(v, 4));
    assert(parts_from(v, 2) == padded(date.day as nat, 2) + (seq!['-'] + parts_from(v, 3)));
    assert(parts_from(v, 1) == padded(date.month as nat, 2) + parts_from(v, 2));
}

/// The earlier of two times of a day has the lower hour, minute or second, in
/// this order.
#[verifier::rlimit(40)]
#[verifier::spinoff_prover]
proof fn lemma_times_in_order(r: int, s: int)
    requires
        0 <= r < s < 86_400,
    ensures
        ({
            ||| r / 3600 < s / 3600
            ||| r / 3600 == s / 3600 && r % 3600 / 60 < s % 3600 / 60
            ||| r / 3600 == s / 3600 && r % 3600 / 60 == s % 3600 / 60 && r % 60 < s % 60
        }),
{
    let h = r / 3600;
    let i = s / 3600;
    assert(r == 3600 * h + r % 3600);
    assert(s == 3600 * i + s % 3600);
    if h == i {
        lemma_mod_multiples_vanish(60 * h, r % 3600, 60);
        lemma_mod_multiples_vanish(60 * i, s % 3600, 60);
        assert(r % 60 == (r % 3600) % 60);
        assert(s % 60 == (s % 3600) % 60);
    }
}

/// Up to the year 9999 every part has its width.
proof fn lemma_parts_fit(date: Date, rem: int)
    requires
        date.valid(),
        date.year <= 9999,
        0 <= rem < 86_400,
    ensures
        forall|i: int|
            0 <= i < 6 ==> (#[trigger] parts_of(date, rem)[i]).0 < power_of_ten(
                parts_of(date, rem)[i].1,
            ),
        parts_of(date, rem).len() == 6,
{
    reveal_with_fuel(power_of_ten, 5);
    assert(power_of_ten(4) == 10_000 && power_of_ten(2) == 100);
}

/// Up to the year 9999 compact timestamps are ordered as the times they stand
/// for, so that runs sort by their names.
pub proof fn compact_timestamps_are_ordered(a: u64, b: u64, x: Seq<char>, y: Seq<char>)
    requires
        a < b <= 253_402_300_799,
        compact_of(a, x),
        compact_of(b, y),
    ensures
        text_before(x, y),
{
    let r = a as int % 86_400;
    let s = b as int % 86_400;
    let d = choose|date: Date| #[trigger] date_of(a, date) && x == compact_form(date, r);
    let e = choose|date: Date| #[trigger] date_of(b, date) && y == compact_form(date, s);
    lemma_four_digit_years(d);
    lemma_four_digit_years(e);
    lemma_parts(d, r);
    lemma_parts(e, s);
    let v = parts_of(d, r);
    let w = parts_of(e, s);
    lemma_parts_fit(d, r);
    lemma_parts_fit(e, s);
    assert forall|i: int| 0 <= i < v.len() implies {
        &&& (#[trigger] v[i]).1 == w[i].1
        &&& v[i].1 >= 1
        &&& v[i].0 < power_of_ten(v[i].1)
        &&& w[i].0 < power_of_ten(v[i].1)
    } by {
        assert(v[i].1 == w[i].1);
        assert(w[i].0 < power_of_ten(w[i].1));
    }
    if d.day_number() < e.day_number() {
        lemma_dates_in_order(d, e);
        if d.year < e.year {
            lemma_parts_in_order(v, w, 0, 0);
        } else if d.month < e.month {
            lemma_parts_in_order(v, w, 0, 1);
        } else {
            lemma_parts_in_order(v, w, 0, 2);
        }
    } else {
        assert(a as int / 86_400 == b as int / 86_400);
        day_number_identifies_the_date(d, e);
        assert(r < s);
        lemma_times_in_order(r, s);
        if r / 3600 < s / 3600 {
            lemma_parts_in_order(v, w, 0, 3);
        } else if r % 3600 / 60 < s % 3600 / 60 {
            lemma_parts_in_order(v, w, 0, 4);
        } else {
            lemma_parts_in_order(v, w, 0, 5);
        }
    }
}

/// The first day is that of the Unix epoch, and days are numbered one after the
/// other: over the ends of months, whose lengths the calendar gives, and of
/// years.
pub proof fn days_follow_each_other(d: Date)
    requires
        d.valid(),
        d.year < u64::MAX,
    ensures
        (Date { year: 1970, month: 1, day: 1 }).day_number() == 0,
        ({
            let leap_year = d.year % 4 == 0 && (d.year % 100 != 0 || d.year % 400 == 0);
            let length: int = if d.month == 2 {
                if leap_year {
                    29
                } else {
                    28
                }
            } else if d.month == 4 || d.month == 6 || d.month == 9 || d.month == 11 {
                30
            } else {
                31
            };
            let next = if d.day < length {
                Date { day: (d.day + 1) as u64, ..d }
            } else if d.month < 12 {
                Date { month: (d.month + 1) as u64, day: 1, ..d }
            } else {
                Date { year: (d.year + 1) as u64, month: 1, day: 1 }
            };
            &&& 1 <= d.day <= length
            &&& next.valid()
            &&& next.day_number() == d.day_number() + 1
        }),
{
    lemma_months(1970);
    lemma_months(d.year as int);
    lemma_months(d.year + 1);
}

/// The time between two points is their difference, and nothing when the
/// second is not later.
pub proof fn spans_are_differences(a: TimeSpan, b: TimeSpan)
    requires
        a.nanos < 1_000_000_000,
        b.nanos < 1_000_000_000,
    ensures
        ({
            let passed = (b.secs - a.secs) * 1_000_000_000 + (b.nanos - a.nanos);
            let r = span_between(a, b);
            &&& passed >= 0 ==> r.secs * 1_000_000_000 + r.nanos == passed && r.nanos
                < 1_000_000_000
            &&& passed < 0 ==> r.secs == 0 && r.nanos == 0
        }),
{
    let d = b.total() - a.total();
    if d > 0 {
        assert(d / 1_000_000_000 * 1_000_000_000 + d % 1_000_000_000 == d);
        assert(d / 1_000_000_000 <= b.secs);
    }
}

/// A timestamp shows the date, then hours, minutes and seconds of the day.
#[verifier::spinoff_prover]
pub proof fn timestamps_show_date_and_time(date: Date, h: int, m: int, s: int)
    requires
        0 <= h < 24,
        0 <= m < 60,
        0 <= s < 60,
    ensures
        rfc3339_form(date, h * 3600 + m * 60 + s) == padded(date.year as nat, 4) + "-"@ + padded(
            date.month as nat,
            2,
        ) + "-"@ + padded(date.day as nat, 2) + "T"@ + padded(h as nat, 2) + ":"@ + padded(
            m as nat,
            2,
        ) + ":"@ + padded(s as nat, 2) + "Z"@,
        compact_form(date, h * 3600 + m * 60 + s) == padded(date.year as nat, 4) + padded(
            date.month as nat,
            2,
        ) + padded(date.day as nat, 2) + "-"@ + padded(h as nat, 2) + padded(m as nat, 2) + padded(
            s as nat,
            2,
        ),
{
    let rem = h * 3600 + m * 60 + s;
    assert(rem / 3600 == h);
    assert(rem % 3600 == m * 60 + s);
    assert((m * 60 + s) / 60 == m);
    assert(rem % 60 == s);
}

/// The date of a timestamp is that of its day, and the time what is left of it.
pub proof fn timestamps_are_of_their_second(unix_secs: u64, text: Seq<char>)
    requires
        rfc3339_of(unix_secs, text),
    ensures
        exists|date: Date|
            #![trigger date.valid()]
            date.valid() && date.day_number() * 86_400 + unix_secs as int % 86_400 == unix_secs
                && text == rfc3339_form(date, unix_secs as int % 86_400),
{
    let date = choose|date: Date| #[trigger]
        date_of(unix_secs, date) && text == rfc3339_form(date, unix_secs as int % 86_400);
    assert(date.valid());
    assert(unix_secs as int / 86_400 * 86_400 + unix_secs as int % 86_400 == unix_secs);
}

} // verus!
