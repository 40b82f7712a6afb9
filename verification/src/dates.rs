//! Calendar dates of the proleptic Gregorian calendar, held as plain values.
//!
//! A dated index name carries its date as `YYYY.MM.DD`, so the library's
//! dates keep the year within four digits. Ages are computed through a day
//! number: the rank of a date among all days counted from the first day of
//! year 0.

use vstd::prelude::*;

verus! {

/// A calendar date as carried by a dated index name: a four-digit year,
/// a month and a day of month.
#[derive(Clone, Copy, Debug, PartialEq, Eq, Structural, PartialOrd, Ord, Hash)]
pub struct Date {
    pub year: u32,
    pub month: u32,
    pub day: u32,
}

/// True of leap years in the proleptic Gregorian calendar.
pub open spec fn is_leap_year(y: int) -> bool {
    y % 4 == 0 && (y % 100 != 0 || y % 400 == 0)
}

/// Days in the given month of the given year.
pub open spec fn days_in_month(y: int, m: int) -> int
    recommends
        1 <= m <= 12,
{
    if m == 2 {
        if is_leap_year(y) {
            29
        } else {
            28
        }
    } else if m == 4 || m == 6 || m == 9 || m == 11 {
        30
    } else {
        31
    }
}

/// A valid calendar date whose year fits in four digits: exactly the dates
/// the canonical `name-YYYY.MM.DD` form can carry. An out-of-range component
/// is a construction error, never a silently clamped value.
pub open spec fn valid_ymd(y: int, m: int, d: int) -> bool {
    &&& 0 <= y <= 9999
    &&& 1 <= m <= 12
    &&& 1 <= d <= days_in_month(y, m)
}

/// Days in the given year.
pub open spec fn days_in_year(y: int) -> int {
    if is_leap_year(y) {
        366
    } else {
        365
    }
}

/// Days in all years from year 0 up to, and not including, year `y`.
pub open spec fn days_before_year(y: int) -> int
    recommends
        0 <= y,
    decreases y,
{
    if y <= 0 {
        0
    } else {
        days_before_year(y - 1) + days_in_year(y - 1)
    }
}

/// Days in the months of year `y` before month `m`.
pub open spec fn days_before_month(y: int, m: int) -> int
    recommends
        1 <= m <= 12,
    decreases m,
{
    if m <= 1 {
        0
    } else {
        days_before_month(y, m - 1) + days_in_month(y, m - 1)
    }
}

/// The day number of a date: how many days lie before it, counted from the
/// first day of year 0. The difference of two day numbers is the number of
/// days between the two dates.
pub open spec fn day_number(y: int, m: int, d: int) -> int {
    days_before_year(y) + days_before_month(y, m) + d - 1
}

/// Strict chronological order on dates: by year, then month, then day.
pub open spec fn date_lt(a: Date, b: Date) -> bool {
    ||| a.year < b.year
    ||| (a.year == b.year && a.month < b.month)
    ||| (a.year == b.year && a.month == b.month && a.day < b.day)
}

/// Chronological order on dates: by year, then month, then day.
pub open spec fn date_le(a: Date, b: Date) -> bool {
    ||| a.year < b.year
    ||| (a.year == b.year && a.month < b.month)
    ||| (a.year == b.year && a.month == b.month && a.day <= b.day)
}

/// The day count of the years before `y` grows at least 365 and at most 366
/// days per year.
pub proof fn lemma_days_before_year_bound(y: int)
    requires
        0 <= y,
    ensures
        365 * y <= days_before_year(y) <= 366 * y,
    decreases y,
{
    if y > 0 {
        lemma_days_before_year_bound(y - 1);
    }
}

/// The day count of the months before `m` stays under one year of days.
pub proof fn lemma_days_before_month_bound(y: int, m: int)
    requires
        1 <= m <= 12,
    ensures
        0 <= days_before_month(y, m) <= 31 * (m - 1),
    decreases m,
{
    if m > 1 {
        lemma_days_before_month_bound(y, m - 1);
    }
}

impl Date {
    /// A well-formed date: its components form a valid calendar date.
    pub open spec fn wf(self) -> bool {
        valid_ymd(self.year as int, self.month as int, self.day as int)
    }

    /// The day number of this date.
    pub open spec fn spec_day_number(self) -> int {
        day_number(self.year as int, self.month as int, self.day as int)
    }

    /// Builds a date from components that form a valid calendar date.
    pub fn new(year: u32, month: u32, day: u32) -> (r: Date)
        requires
            valid_ymd(year as int, month as int, day as int),
        ensures
            r == (Date { year, month, day }),
            r.wf(),
    {
        Date { year, month, day }
    }

    /// Builds a date from its components, rejecting any combination that is
    /// no valid calendar date.
    pub fn try_new(year: u32, month: u32, day: u32) -> (r: Option<Date>)
        ensures
            r is Some <==> valid_ymd(year as int, month as int, day as int),
            r is Some ==> r->0 == (Date { year, month, day }),
    {
        if year <= 9999 && 1 <= month && month <= 12 && 1 <= day && day <= exec_days_in_month(
            year,
            month,
        ) {
            Some(Date { year, month, day })
        } else {
            None
        }
    }
}

/// True of leap years; mirrors `is_leap_year`.
pub fn exec_is_leap_year(y: u32) -> (r: bool)
    ensures
        r == is_leap_year(y as int),
{
    y % 4 == 0 && (y % 100 != 0 || y % 400 == 0)
}

/// Days in the given month; mirrors `days_in_month`.
pub fn exec_days_in_month(y: u32, m: u32) -> (r: u32)
    requires
        1 <= m <= 12,
    ensures
        r == days_in_month(y as int, m as int),
{
    if m == 2 {
        if exec_is_leap_year(y) {
            29
        } else {
            28
        }
    } else if m == 4 || m == 6 || m == 9 || m == 11 {
        30
    } else {
        31
    }
}

/// Days in all years before `y`; mirrors `days_before_year`.
fn exec_days_before_year(y: u32) -> (r: u64)
    ensures
        r == days_before_year(y as int),
{
    let mut acc: u64 = 0;
    let mut i: u32 = 0;
    while i < y
        invariant
            0 <= i <= y,
            acc == days_before_year(i as int),
            acc <= 366 * (i as u64),
        decreases y - i,
    {
        let d: u64 = if exec_is_leap_year(i) {
            366
        } else {
            365
        };
        acc = acc + d;
        i = i + 1;
    }
    acc
}

/// Days in the months of year `y` before month `m`; mirrors
/// `days_before_month`.
fn exec_days_before_month(y: u32, m: u32) -> (r: u32)
    requires
        1 <= m <= 12,
    ensures
        r == days_before_month(y as int, m as int),
        r <= 341,
{
    proof {
        lemma_days_before_month_bound(y as int, m as int);
    }
    let mut acc: u32 = 0;
    let mut i: u32 = 1;
    while i < m
        invariant
            1 <= i <= m <= 12,
            acc == days_before_month(y as int, i as int),
        decreases m - i,
    {
        proof {
            lemma_days_before_month_bound(y as int, i as int);
        }
        acc = acc + exec_days_in_month(y, i);
        i = i + 1;
    }
    acc
}

/// The day number of the given components; mirrors `day_number`. The result
/// stays well under `2^41` for any `u32` year.
pub fn exec_day_number(y: u32, m: u32, d: u32) -> (r: u64)
    requires
        1 <= m <= 12,
        1 <= d <= 31,
    ensures
        r == day_number(y as int, m as int, d as int),
        r < 0x180_0000_0000,
{
    proof {
        lemma_days_before_year_bound(y as int);
    }
    let by = exec_days_before_year(y);
    let bm = exec_days_before_month(y, m);
    by + bm as u64 + d as u64 - 1
}

/// The month day-counts are monotone: an earlier month of the same year
/// begins no later in the year.
proof fn lemma_days_before_month_monotone(y: int, m1: int, m2: int)
    requires
        1 <= m1 <= m2 <= 12,
    ensures
        days_before_month(y, m1) <= days_before_month(y, m2),
    decreases m2 - m1,
{
    if m1 < m2 {
        lemma_days_before_month_monotone(y, m1, m2 - 1);
    }
}

/// Any month of a year, days of the month included, ends within that year's
/// days.
proof fn lemma_month_fits_in_year(y: int, m: int)
    requires
        1 <= m <= 12,
    ensures
        days_before_month(y, m) + days_in_month(y, m) <= days_in_year(y),
{
    reveal_with_fuel(days_before_month, 13);
    if m < 12 {
        lemma_days_before_month_monotone(y, m + 1, 12);
    }
}

/// The year day-counts are monotone: each year adds at least 365 days.
proof fn lemma_days_before_year_monotone(y1: int, y2: int)
    requires
        0 <= y1 <= y2,
    ensures
        days_before_year(y1) + 365 * (y2 - y1) <= days_before_year(y2),
    decreases y2 - y1,
{
    if y1 < y2 {
        lemma_days_before_year_monotone(y1, y2 - 1);
    }
}

/// Day numbers order dates exactly as the calendar does: a date is
/// chronologically earlier than another precisely when its day number is
/// smaller. Ages — differences of day numbers — therefore respect
/// chronological order.
pub proof fn lemma_day_number_orders_dates(a: Date, b: Date)
    requires
        a.wf(),
        b.wf(),
    ensures
        date_lt(a, b) <==> a.spec_day_number() < b.spec_day_number(),
        date_le(a, b) <==> a.spec_day_number() <= b.spec_day_number(),
{
    lemma_day_number_strict(a, b);
    lemma_day_number_strict(b, a);
}

/// The forward direction: a chronologically earlier date has a strictly
/// smaller day number.
proof fn lemma_day_number_strict(a: Date, b: Date)
    requires
        a.wf(),
        b.wf(),
    ensures
        date_lt(a, b) ==> a.spec_day_number() < b.spec_day_number(),
{
    if date_lt(a, b) {
        let ya = a.year as int;
        let yb = b.year as int;
        let ma = a.month as int;
        let mb = b.month as int;
        if ya == yb && ma == mb {
        } else if ya == yb {
            lemma_days_before_month_monotone(ya, ma + 1, mb);
        } else {
            lemma_days_before_year_monotone(ya + 1, yb);
            lemma_month_fits_in_year(ya, ma);
            lemma_days_before_month_bound(yb, mb);
            assert(days_before_year(yb) >= days_before_year(ya) + days_in_year(ya));
            assert(days_before_month(ya, ma) + a.day <= days_in_year(ya));
        }
    }
}

/// Relies on chrono: `Utc::now` gives the current date and `Datelike`'s
/// `year`, `month` and `day` give its calendar components, the month ranging
/// over 1 to 12 and the day of month over 1 to 31.
#[verifier::external_body]
fn utc_today() -> (r: (i32, u32, u32))
    ensures
        1 <= r.1 <= 12,
        1 <= r.2 <= 31,
{
    let now = chrono::Utc::now();
    (chrono::Datelike::year(&now), chrono::Datelike::month(&now), chrono::Datelike::day(&now))
}

/// The day number of the current UTC date. The value depends on the clock at
/// the moment of the call; years before year 0 are counted as year 0.
pub fn today_day_number() -> (r: i64)
    ensures
        0 <= r < 0x180_0000_0000,
{
    let (y, m, d) = utc_today();
    let yy: u32 = if y < 0 {
        0
    } else {
        y as u32
    };
    let dn = exec_day_number(yy, m, d);
    dn as i64
}

} // verus!
