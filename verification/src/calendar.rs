//! Wall-clock time, as a date.
//!
//! A log line is read after the fact, so it needs a date, and UTC keeps that to
//! arithmetic on the epoch.

use vstd::prelude::*;
use crate::number::{padded, write_padded};

verus! {

pub open spec fn is_leap(y: int) -> bool {
    y % 4 == 0 && (y % 100 != 0 || y % 400 == 0)
}

/// How many days a month has.
pub open spec fn month_len(y: int, m: int) -> int {
    if m == 2 {
        if is_leap(y) {
            29
        } else {
            28
        }
    } else if m == 4 || m == 6 || m == 9 || m == 11 {
        30
    } else {
        31
    }
}

pub open spec fn valid_date(y: int, m: int, d: int) -> bool {
    1 <= m <= 12 && 1 <= d <= month_len(y, m)
}

/// The days from the start of year 0 to the start of year `y`.
pub open spec fn days_before_year(y: int) -> int {
    365 * y + (y + 3) / 4 - (y + 99) / 100 + (y + 399) / 400
}

/// The days of year `y` before month `m`.
pub open spec fn days_before_month(y: int, m: int) -> int
    decreases m,
{
    if m <= 1 {
        0
    } else {
        days_before_month(y, m - 1) + month_len(y, m - 1)
    }
}

/// The days from 0000-01-01 to a date.
pub open spec fn day_number(y: int, m: int, d: int) -> int {
    days_before_year(y) + days_before_month(y, m) + (d - 1)
}

/// 1970-01-01, where the clock starts.
pub open spec fn epoch_day() -> int {
    719528
}

/// A year is as long as its months, and its length is 365 days or 366 in a leap
/// year: the days count up without a gap.
pub proof fn law_years_are_their_months(y: int)
    ensures
        days_before_year(y + 1) - days_before_year(y) == if is_leap(y) {
            366int
        } else {
            365int
        },
        days_before_month(y, 12) + month_len(y, 12) == days_before_year(y + 1) - days_before_year(
            y,
        ),
{
    lemma_leap_step(y);
    lemma_months(y);
}

proof fn lemma_leap_step(y: int)
    ensures
        days_before_year(y + 1) - days_before_year(y) == if is_leap(y) {
            366int
        } else {
            365int
        },
{
    assert((y + 4) / 4 - (y + 3) / 4 == if y % 4 == 0 { 1int } else { 0 });
    assert((y + 100) / 100 - (y + 99) / 100 == if y % 100 == 0 { 1int } else { 0 });
    assert((y + 400) / 400 - (y + 399) / 400 == if y % 400 == 0 { 1int } else { 0 });
    assert(y % 100 == 0 ==> y % 4 == 0);
    assert(y % 400 == 0 ==> y % 100 == 0);
}

proof fn lemma_months(y: int)
    ensures
        days_before_month(y, 1) == 0,
        days_before_month(y, 2) == 31,
        days_before_month(y, 3) == 59 + (if is_leap(y) { 1int } else { 0 }),
        days_before_month(y, 4) == days_before_month(y, 3) + 31,
        days_before_month(y, 5) == days_before_month(y, 3) + 61,
        days_before_month(y, 6) == days_before_month(y, 3) + 92,
        days_before_month(y, 7) == days_before_month(y, 3) + 122,
        days_before_month(y, 8) == days_before_month(y, 3) + 153,
        days_before_month(y, 9) == days_before_month(y, 3) + 184,
        days_before_month(y, 10) == days_before_month(y, 3) + 214,
        days_before_month(y, 11) == days_before_month(y, 3) + 245,
        days_before_month(y, 12) == days_before_month(y, 3) + 275,
{
    reveal_with_fuel(days_before_month, 13);
}

/// Within a cycle of 400 years that starts on a first of March, the year a day
/// falls in.
#[verifier::rlimit(30)]
proof fn lemma_year_of_cycle(doe: int, yoe: int)
    requires
        0 <= doe <= 146096,
        yoe == (doe - doe / 1460 + doe / 36524 - doe / 146096) / 365,
    ensures
        0 <= yoe <= 399,
        365 * yoe + yoe / 4 - yoe / 100 <= doe,
        doe - (365 * yoe + yoe / 4 - yoe / 100) <= 365,
        doe - (365 * yoe + yoe / 4 - yoe / 100) == 365 ==> (yoe + 1) % 4 == 0 && ((yoe + 1) % 100
            != 0 || yoe + 1 == 400),
{
    let c = doe / 36524;
    assert(0 <= c <= 4);
    if c == 4 {
        assert(doe == 146096);
    } else {
        let r = doe - 36524 * c;
        let q = doe / 1460;
        assert(0 <= r < 36524);
    }
}

/// The first of March of a year, counted in whole cycles of 400 years.
proof fn lemma_march_start(yoe: int, era: int)
    requires
        0 <= yoe <= 399,
    ensures
        days_before_year(yoe + 400 * era + 1) == 365 * yoe + yoe / 4 - yoe / 100 + 146097 * era
            + 366,
        is_leap(yoe + 400 * era + 1) <==> (yoe + 1) % 4 == 0 && ((yoe + 1) % 100 != 0 || yoe + 1
            == 400),
{
    let y = yoe + 400 * era;
    assert((y + 4) / 4 == yoe / 4 + 1 + 100 * era);
    assert((y + 100) / 100 == yoe / 100 + 1 + 4 * era);
    assert((y + 400) / 400 == 1 + era);
    assert((y + 1) % 4 == (yoe + 1) % 4);
    assert((y + 1) % 100 == (yoe + 1) % 100);
    assert((y + 1) % 400 == (yoe + 1) % 400);
}

/// From the day of a year that starts in March to the month and day.
proof fn lemma_day_of_year(y: int, doy: int, mp: int, m: int, d: int, year: int)
    requires
        0 <= doy <= 365,
        doy == 365 ==> is_leap(y + 1),
        mp == (5 * doy + 2) / 153,
        d == doy - (153 * mp + 2) / 5 + 1,
        m == if mp < 10 { mp + 3 } else { mp - 9 },
        year == if m <= 2 { y + 1 } else { y },
    ensures
        valid_date(year, m, d),
        day_number(year, m, d) == days_before_year(y + 1) - 306 + doy,
{
    lemma_months(y);
    lemma_months(year);
    lemma_leap_step(y);
    assert(mp == 0 || mp == 1 || mp == 2 || mp == 3 || mp == 4 || mp == 5 || mp == 6 || mp == 7
        || mp == 8 || mp == 9 || mp == 10 || mp == 11);
}

/// The date `days` days after 1970-01-01, or before it where that is negative.
pub open spec fn date_of(days: int) -> (int, int, int) {
    choose|t: (int, int, int)|
        valid_date(t.0, t.1, t.2) && #[trigger] day_number(t.0, t.1, t.2) == days + epoch_day()
}

proof fn lemma_date_of(days: int, y: int, m: int, d: int)
    requires
        valid_date(y, m, d),
        day_number(y, m, d) == days + epoch_day(),
    ensures
        date_of(days) == (y, m, d),
{
    let t = (y, m, d);
    assert(valid_date(t.0, t.1, t.2) && day_number(t.0, t.1, t.2) == days + epoch_day());
    let u = date_of(days);
    law_dates_are_distinct(y, m, d, u.0, u.1, u.2);
}

/// The algorithm of [`civil_from_days`] on a day of any size.
proof fn lemma_a_date(days: int) -> (r: (int, int, int))
    ensures
        valid_date(r.0, r.1, r.2),
        day_number(r.0, r.1, r.2) == days + epoch_day(),
        date_of(days) == r,
{
    let z = days + 719468;
    let era = z / 146097;
    let doe = z % 146097;
    let yoe = (doe - doe / 1460 + doe / 36524 - doe / 146096) / 365;
    lemma_year_of_cycle(doe, yoe);
    let y = yoe + era * 400;
    let doy = doe - (365 * yoe + yoe / 4 - yoe / 100);
    let mp = (5 * doy + 2) / 153;
    let d = doy - (153 * mp + 2) / 5 + 1;
    let m = if mp < 10 {
        mp + 3
    } else {
        mp - 9
    };
    let year = if m <= 2 {
        y + 1
    } else {
        y
    };
    lemma_march_start(yoe, era);
    lemma_day_of_year(y, doy, mp, m, d, year);
    assert(z == 146097 * era + doe);
    lemma_date_of(days, year, m, d);
    (year, m, d)
}

/// The day after a date.
pub open spec fn next_day(t: (int, int, int)) -> (int, int, int) {
    if t.2 < month_len(t.0, t.1) {
        (t.0, t.1, t.2 + 1)
    } else if t.1 < 12 {
        (t.0, t.1 + 1, 1)
    } else {
        (t.0 + 1, 1, 1)
    }
}

/// The days of the calendar follow one another from 1970-01-01, without a gap and
/// in both directions.
pub proof fn law_days_follow_one_another(days: int)
    ensures
        date_of(0) == (1970int, 1int, 1int),
        valid_date(date_of(days).0, date_of(days).1, date_of(days).2),
        date_of(days + 1) == next_day(date_of(days)),
{
    lemma_months(1970);
    lemma_date_of(0, 1970, 1, 1);
    let t = lemma_a_date(days);
    let n = next_day(t);
    lemma_months(t.0);
    lemma_months(n.0);
    lemma_leap_step(t.0);
    assert(t.1 == 1 || t.1 == 2 || t.1 == 3 || t.1 == 4 || t.1 == 5 || t.1 == 6 || t.1 == 7 || t.1
        == 8 || t.1 == 9 || t.1 == 10 || t.1 == 11 || t.1 == 12);
    lemma_date_of(days + 1, n.0, n.1, n.2);
}

/// The date `days` days after 1970-01-01, or before it where that is negative.
///
/// Howard Hinnant's days-to-civil-date algorithm, with the era starting on
/// 0000-03-01 so leap days land at the end of a four-century cycle.
pub fn civil_from_days(days: i64) -> (r: (i64, u32, u32))
    requires
        days + 719_468 <= i64::MAX,
    ensures
        (r.0 as int, r.1 as int, r.2 as int) == date_of(days as int),
        valid_date(r.0 as int, r.1 as int, r.2 as int),
        day_number(r.0 as int, r.1 as int, r.2 as int) == days + epoch_day(),
{
    let z: i64 = days + 719_468;
    let era: i64 = z.checked_div_euclid(146_097).unwrap();
    let doe: i64 = z.checked_rem_euclid(146_097).unwrap();
    let yoe: i64 = (doe - doe / 1460 + doe / 36_524 - doe / 146_096) / 365;
    proof {
        lemma_year_of_cycle(doe as int, yoe as int);
    }
    let y: i64 = yoe + era * 400;
    let doy: i64 = doe - (365 * yoe + yoe / 4 - yoe / 100);
    let mp: i64 = (5 * doy + 2) / 153;
    let d: i64 = doy - (153 * mp + 2) / 5 + 1;
    let m: i64 = if mp < 10 {
        mp + 3
    } else {
        mp - 9
    };
    let year: i64 = if m <= 2 {
        y + 1
    } else {
        y
    };
    proof {
        lemma_march_start(yoe as int, era as int);
        lemma_day_of_year(y as int, doy as int, mp as int, m as int, d as int, year as int);
        assert(z == 146097 * era + doe);
        lemma_date_of(days as int, year as int, m as int, d as int);
    }
    (year, m as u32, d as u32)
}

/// A point in time in calendar parts.
pub struct Moment {
    pub year: u64,
    pub month: u64,
    pub day: u64,
    pub hour: u64,
    pub minute: u64,
    pub second: u64,
}

impl Moment {
    /// A real date and a real time of day.
    pub open spec fn valid(self) -> bool {
        &&& valid_date(self.year as int, self.month as int, self.day as int)
        &&& self.hour < 24 && self.minute < 60 && self.second < 60
    }

    /// The seconds from 1970-01-01 00:00:00 to this moment.
    pub open spec fn seconds(self) -> int {
        (day_number(self.year as int, self.month as int, self.day as int) - epoch_day()) * 86400
            + self.hour * 3600 + self.minute * 60 + self.second
    }
}

proof fn lemma_years_grow(a: int, b: int)
    requires
        a <= b,
    ensures
        days_before_year(a) <= days_before_year(b),
    decreases b - a,
{
    if a < b {
        lemma_years_grow(a, b - 1);
        lemma_leap_step(b - 1);
    }
}

proof fn lemma_day_in_year(y: int, m: int, d: int)
    requires
        valid_date(y, m, d),
    ensures
        days_before_year(y) <= day_number(y, m, d) < days_before_year(y + 1),
{
    lemma_months(y);
    lemma_leap_step(y);
    assert(m == 1 || m == 2 || m == 3 || m == 4 || m == 5 || m == 6 || m == 7 || m == 8 || m == 9
        || m == 10 || m == 11 || m == 12);
}

proof fn lemma_month_of_day(y: int, m: int, d: int, n: int, e: int)
    requires
        valid_date(y, m, d),
        valid_date(y, n, e),
        m < n,
    ensures
        day_number(y, m, d) < day_number(y, n, e),
{
    lemma_months(y);
    assert(m == 1 || m == 2 || m == 3 || m == 4 || m == 5 || m == 6 || m == 7 || m == 8 || m == 9
        || m == 10 || m == 11);
    assert(n == 2 || n == 3 || n == 4 || n == 5 || n == 6 || n == 7 || n == 8 || n == 9 || n == 10
        || n == 11 || n == 12);
}

/// No two dates stand for the same day.
pub proof fn law_dates_are_distinct(y: int, m: int, d: int, z: int, n: int, e: int)
    requires
        valid_date(y, m, d),
        valid_date(z, n, e),
        day_number(y, m, d) == day_number(z, n, e),
    ensures
        y == z && m == n && d == e,
{
    lemma_day_in_year(y, m, d);
    lemma_day_in_year(z, n, e);
    if y < z {
        lemma_years_grow(y + 1, z);
    } else if z < y {
        lemma_years_grow(z + 1, y);
    } else if m < n {
        lemma_month_of_day(y, m, d, n, e);
    } else if n < m {
        lemma_month_of_day(y, n, e, m, d);
    }
}

/// The date and time `at` seconds after 1970-01-01 00:00:00.
pub open spec fn moment_of(at: int) -> Moment {
    choose|m: Moment| m.valid() && #[trigger] m.seconds() == at
}

proof fn lemma_moment(m: Moment)
    requires
        m.valid(),
    ensures
        moment_of(m.seconds()) == m,
{
    let n = moment_of(m.seconds());
    assert(n.valid() && n.seconds() == m.seconds());
    let a = day_number(m.year as int, m.month as int, m.day as int);
    let b = day_number(n.year as int, n.month as int, n.day as int);
    assert(a == b && m.hour == n.hour && m.minute == n.minute && m.second == n.second);
    law_dates_are_distinct(
        m.year as int,
        m.month as int,
        m.day as int,
        n.year as int,
        n.month as int,
        n.day as int,
    );
}

/// Split a time, in seconds since 1970, into UTC calendar parts.
pub fn parts(at: u64) -> (r: Moment)
    ensures
        r.valid(),
        r.seconds() == at,
        r == moment_of(at as int),
{
    let days: u64 = at / 86_400;
    let rem: u64 = at % 86_400;
    let (year, month, day) = civil_from_days(days as i64);
    proof {
        lemma_day_in_year(year as int, month as int, day as int);
        if year < 0 {
            lemma_years_grow(year + 1, 0);
        }
    }
    let m = Moment {
        year: year as u64,
        month: month as u64,
        day: day as u64,
        hour: rem / 3600,
        minute: (rem % 3600) / 60,
        second: rem % 60,
    };
    proof {
        lemma_moment(m);
    }
    m
}

pub open spec fn clock_text(m: Moment) -> Seq<char> {
    padded(m.hour as nat, 2) + ":"@ + padded(m.minute as nat, 2) + ":"@ + padded(m.second as nat, 2)
}

/// `14:03:11`: how a log pane prefixes a line.
pub fn clock(at: u64) -> (r: String)
    ensures
        r@ == clock_text(moment_of(at as int)),
{
    let m = parts(at);
    let mut s = write_padded(m.hour, 2);
    s.push_str(":");
    s.push_str(write_padded(m.minute, 2).as_str());
    s.push_str(":");
    s.push_str(write_padded(m.second, 2).as_str());
    s
}

pub open spec fn stamp_text(m: Moment) -> Seq<char> {
    padded(m.year as nat, 4) + "-"@ + padded(m.month as nat, 2) + "-"@ + padded(m.day as nat, 2)
        + " "@ + clock_text(m) + " UTC"@
}

/// `2026-08-26 14:03:11 UTC`: how a report writes a time.
pub fn stamp(at: u64) -> (r: String)
    ensures
        r@ == stamp_text(moment_of(at as int)),
{
    let m = parts(at);
    let mut s = write_padded(m.year, 4);
    s.push_str("-");
    s.push_str(write_padded(m.month, 2).as_str());
    s.push_str("-");
    s.push_str(write_padded(m.day, 2).as_str());
    s.push_str(" ");
    s.push_str(clock(at).as_str());
    s.push_str(" UTC");
    s
}

pub open spec fn file_stamp_text(m: Moment) -> Seq<char> {
    padded(m.year as nat, 4) + padded(m.month as nat, 2) + padded(m.day as nat, 2) + "-"@ + padded(
        m.hour as nat,
        2,
    ) + padded(m.minute as nat, 2) + padded(m.second as nat, 2)
}

/// `20260826-140311`: how a report's filename writes a time.
pub fn file_stamp(at: u64) -> (r: String)
    ensures
        r@ == file_stamp_text(moment_of(at as int)),
{
    let m = parts(at);
    let mut s = write_padded(m.year, 4);
    s.push_str(write_padded(m.month, 2).as_str());
    s.push_str(write_padded(m.day, 2).as_str());
    s.push_str("-");
    s.push_str(write_padded(m.hour, 2).as_str());
    s.push_str(write_padded(m.minute, 2).as_str());
    s.push_str(write_padded(m.second, 2).as_str());
    s
}

}
