//! The calendar behind the Expires attribute: a civil date and time of day
//! in UTC, its day number, and its Unix timestamp. The representable range
//! is 1601-01-01 00:00:00 through 9999-12-31 23:59:59; conversions from
//! timestamps clamp to it.

use vstd::prelude::*;

verus! {

/// Unix timestamp of 1601-01-01 00:00:00 UTC, the earliest representable
/// instant. 1601-01-01 lies 134774 days before the Unix epoch.
pub const MIN_UNIX: i64 = -11644473600;

/// Unix timestamp of 9999-12-31 23:59:59 UTC, the latest representable
/// instant.
pub const MAX_UNIX: i64 = 253402300799;

/// Gregorian leap year rule.
pub open spec fn is_leap_year(y: int) -> bool {
    y % 4 == 0 && (y % 100 != 0 || y % 400 == 0)
}

/// Days in a month of a given year.
pub open spec fn days_in_month(y: int, m: int) -> int {
    if m == 2 {
        if is_leap_year(y) {
            29
        } else {
            28
        }
    } else if m == 4 || m == 6 || m == 9 || m == 11 {
        30
    } else {
        31
    }
}

/// Days in a year.
pub open spec fn days_in_year(y: int) -> int {
    if is_leap_year(y) {
        366
    } else {
        365
    }
}

/// Days in the years 1601 (inclusive) through `y` (exclusive).
pub open spec fn days_before_year(y: int) -> int
    decreases y,
{
    if y <= 1601 {
        0
    } else {
        days_before_year(y - 1) + days_in_year(y - 1)
    }
}

/// Days in the months 1 (inclusive) through `m` (exclusive) of year `y`.
pub open spec fn days_before_month(y: int, m: int) -> int
    decreases m,
{
    if m <= 1 {
        0
    } else {
        days_before_month(y, m - 1) + days_in_month(y, m - 1)
    }
}

/// A civil date and time of day, as plain mathematical values.
pub struct DateParts {
    pub year: int,
    pub month: int,
    pub day: int,
    pub hour: int,
    pub minute: int,
    pub second: int,
}

/// A well-formed date: in the representable range, with a real calendar
/// day and a valid time of day.
pub open spec fn date_wf(p: DateParts) -> bool {
    &&& 1601 <= p.year <= 9999
    &&& 1 <= p.month <= 12
    &&& 1 <= p.day <= days_in_month(p.year, p.month)
    &&& 0 <= p.hour < 24
    &&& 0 <= p.minute < 60
    &&& 0 <= p.second < 60
}

/// The number of days from 1601-01-01 to this date.
pub open spec fn day_number(p: DateParts) -> int {
    days_before_year(p.year) + days_before_month(p.year, p.month) + (p.day - 1)
}

/// The Unix timestamp of this date and time.
pub open spec fn unix_of_date(p: DateParts) -> int {
    (day_number(p) - 134774) * 86400 + p.hour * 3600 + p.minute * 60 + p.second
}

/// `secs` clamped to the representable range.
pub open spec fn clamp_unix(secs: int) -> int {
    if secs < MIN_UNIX as int {
        MIN_UNIX as int
    } else if secs > MAX_UNIX as int {
        MAX_UNIX as int
    } else {
        secs
    }
}

/// Closed form for `days_before_year`: 365 days a year plus one for every
/// leap year passed.
pub proof fn lemma_days_before_year_closed(y: int)
    requires
        1601 <= y <= 10000,
    ensures
        days_before_year(y) == 365 * (y - 1601) + ((y - 1) / 4 - (y - 1) / 100 + (y - 1) / 400
            - 388),
    decreases y,
{
    if y == 1601 {
        assert(1600int / 4 == 400 && 1600int / 100 == 16 && 1600int / 400 == 4);
    } else {
        lemma_days_before_year_closed(y - 1);
        let p = y - 1;
        assert((p / 4 - (p - 1) / 4) - (p / 100 - (p - 1) / 100) + (p / 400 - (p - 1) / 400) == (
        if is_leap_year(p) {
            1int
        } else {
            0int
        })) by (nonlinear_arith)
            requires
                p >= 1601;
    }
}

/// The day numbers of years 9999 and 10000: every representable day number
/// belongs to a year at most 9999.
pub proof fn lemma_days_before_year_9999()
    ensures
        days_before_year(9999) == 3067306,
        days_before_year(10000) == 3067671,
{
    lemma_days_before_year_closed(9999);
    lemma_days_before_year_closed(10000);
    assert(9998int / 4 == 2499 && 9998int / 100 == 99 && 9998int / 400 == 24);
    assert(9999int / 4 == 2499 && 9999int / 100 == 99 && 9999int / 400 == 24);
}

/// `days_before_year` never shrinks as years pass.
pub proof fn lemma_days_before_year_mono(a: int, b: int)
    requires
        a <= b,
    ensures
        days_before_year(a) <= days_before_year(b),
    decreases b - a,
{
    if a < b {
        lemma_days_before_year_mono(a, b - 1);
    }
}

/// The whole months of a year sum to the year's days.
pub proof fn lemma_days_before_month_full(y: int)
    ensures
        days_before_month(y, 13) == days_in_year(y),
{
    reveal_with_fuel(days_before_month, 14);
}

/// `days_before_month` is non-negative and, with the current month added,
/// stays within the year.
pub proof fn lemma_days_before_month_le(y: int, m: int)
    requires
        1 <= m <= 12,
    ensures
        days_before_month(y, m) + days_in_month(y, m) <= days_in_year(y),
        days_before_month(y, m) >= 0,
    decreases 13 - m,
{
    lemma_days_before_month_full(y);
    if m < 12 {
        lemma_days_before_month_le(y, m + 1);
    }
    lemma_days_before_month_nonneg(y, m);
}

proof fn lemma_days_before_month_nonneg(y: int, m: int)
    requires
        1 <= m <= 13,
    ensures
        days_before_month(y, m) >= 0,
    decreases m,
{
    if m > 1 {
        lemma_days_before_month_nonneg(y, m - 1);
    }
}

/// The day number of a well-formed date lies between 0 and 3067670, and
/// the date's offset within its year stays below the year's length.
pub proof fn lemma_day_number_bounds(p: DateParts)
    requires
        date_wf(p),
    ensures
        0 <= day_number(p) <= 3067670,
        days_before_month(p.year, p.month) + (p.day - 1) < days_in_year(p.year),
{
    lemma_days_before_year_mono(1601, p.year);
    lemma_days_before_year_9999();
    lemma_days_before_year_mono(p.year + 1, 10000);
    lemma_days_before_month_le(p.year, p.month);
}

/// A civil date and time of day in UTC, within 1601-01-01 00:00:00 through
/// 9999-12-31 23:59:59.
#[derive(Debug, Clone, Copy, PartialEq, Eq)]
pub struct ExpVal {
    year: u16,
    month: u8,
    day: u8,
    hour: u8,
    minute: u8,
    second: u8,
}

impl View for ExpVal {
    type V = DateParts;

    closed spec fn view(&self) -> DateParts {
        DateParts {
            year: self.year as int,
            month: self.month as int,
            day: self.day as int,
            hour: self.hour as int,
            minute: self.minute as int,
            second: self.second as int,
        }
    }
}

impl ExpVal {
    #[verifier::type_invariant]
    spec fn type_wf(self) -> bool {
        date_wf(self@)
    }

    /// Builds a date from its parts; `None` exactly when the parts do not
    /// form a representable date and time.
    pub fn new(year: u16, month: u8, day: u8, hour: u8, minute: u8, second: u8) -> (r: Option<
        ExpVal,
    >)
        ensures
            ({
                let p = DateParts {
                    year: year as int,
                    month: month as int,
                    day: day as int,
                    hour: hour as int,
                    minute: minute as int,
                    second: second as int,
                };
                match r {
                    Some(v) => date_wf(p) && v@ == p,
                    None => !date_wf(p),
                }
            }),
    {
        if 1601 <= year && year <= 9999 && 1 <= month && month <= 12 && 1 <= day && day
            <= days_in_month_ex(year, month) && hour < 24 && minute < 60 && second < 60 {
            Some(ExpVal { year, month, day, hour, minute, second })
        } else {
            None
        }
    }

    /// The year, 1601 through 9999.
    pub fn year(&self) -> (r: u16)
        ensures
            r as int == self@.year,
            date_wf(self@),
    {
        proof {
            use_type_invariant(&*self);
        }
        self.year
    }

    /// The month, 1 through 12.
    pub fn month(&self) -> (r: u8)
        ensures
            r as int == self@.month,
    {
        self.month
    }

    /// The day of the month, starting at 1.
    pub fn day(&self) -> (r: u8)
        ensures
            r as int == self@.day,
    {
        self.day
    }

    /// The hour, 0 through 23.
    pub fn hour(&self) -> (r: u8)
        ensures
            r as int == self@.hour,
    {
        self.hour
    }

    /// The minute, 0 through 59.
    pub fn minute(&self) -> (r: u8)
        ensures
            r as int == self@.minute,
    {
        self.minute
    }

    /// The second, 0 through 59.
    pub fn second(&self) -> (r: u8)
        ensures
            r as int == self@.second,
    {
        self.second
    }

    /// Whether two values are the same date and time.
    pub fn same_date(&self, other: &ExpVal) -> (r: bool)
        ensures
            r == (self@ == other@),
    {
        self.year == other.year && self.month == other.month && self.day == other.day
            && self.hour == other.hour && self.minute == other.minute && self.second
            == other.second
    }

    /// The number of days from 1601-01-01 to this date.
    pub fn day_number_ex(&self) -> (r: u64)
        ensures
            r as int == day_number(self@),
            r <= 3067670,
    {
        proof {
            use_type_invariant(&*self);
            lemma_day_number_bounds(self@);
            lemma_days_before_year_mono(self.year as int, 10000);
            lemma_days_before_year_9999();
            lemma_days_before_month_le(self.year as int, self.month as int);
        }
        let a: u64 = days_before_year_ex(self.year);
        let b: u64 = days_before_month_ex(self.year, self.month) as u64;
        let c: u64 = (self.day - 1) as u64;
        a + b + c
    }

    /// The Unix timestamp of this date and time.
    pub fn to_unix_seconds(&self) -> (r: i64)
        ensures
            r as int == unix_of_date(self@),
            MIN_UNIX <= r <= MAX_UNIX,
    {
        proof {
            use_type_invariant(&*self);
        }
        let days: u64 = self.day_number_ex();
        let sod: i64 = (self.hour as i64) * 3600 + (self.minute as i64) * 60 + (self.second
            as i64);
        (days as i64 - 134774) * 86400 + sod
    }

    /// The date and time of the given Unix timestamp, clamped to the
    /// representable range.
    pub fn from_unix_seconds(secs: i64) -> (r: ExpVal)
        ensures
            unix_of_date(r@) == clamp_unix(secs as int),
    {
        let clamped: i64 = if secs < MIN_UNIX {
            MIN_UNIX
        } else if secs > MAX_UNIX {
            MAX_UNIX
        } else {
            secs
        };
        let t: u64 = (clamped - MIN_UNIX) as u64;
        let n0: u64 = t / 86400;
        let sod: u64 = t % 86400;
        proof {
            assert(t == n0 * 86400 + sod && sod < 86400 && n0 <= 3067670) by (nonlinear_arith)
                requires
                    n0 == t / 86400,
                    sod == t % 86400,
                    0 <= t <= 265046774399;
        }
        let hour: u8 = (sod / 3600) as u8;
        let rem: u64 = sod % 3600;
        let minute: u8 = (rem / 60) as u8;
        let second: u8 = (rem % 60) as u8;
        proof {
            assert(hour * 3600 + minute * 60 + second == sod && hour < 24 && minute < 60 && second
                < 60) by (nonlinear_arith)
                requires
                    sod < 86400,
                    hour == sod / 3600,
                    rem == sod % 3600,
                    minute == rem / 60,
                    second == rem % 60;
        }
        let mut n: u64 = n0;
        let mut year: u16 = 1601;
        while year < 9999 && n >= days_in_year_ex(year)
            invariant
                1601 <= year <= 9999,
                days_before_year(year as int) + n == n0 <= 3067670,
            decreases 9999 - year,
        {
            n = n - days_in_year_ex(year);
            year = year + 1;
        }
        proof {
            if year == 9999 {
                lemma_days_before_year_9999();
            }
            assert(n < days_in_year(year as int));
            lemma_days_before_month_full(year as int);
        }
        let mut month: u8 = 1;
        while month < 12 && n >= days_in_month_ex(year, month) as u64
            invariant
                1601 <= year <= 9999,
                1 <= month <= 12,
                days_before_month(year as int, month as int) + n < days_in_year(year as int),
                days_before_year(year as int) + days_before_month(year as int, month as int) + n
                    == n0,
            decreases 12 - month,
        {
            n = n - days_in_month_ex(year, month) as u64;
            month = month + 1;
        }
        proof {
            if month == 12 {
                lemma_days_before_month_full(year as int);
            }
            assert(n < days_in_month(year as int, month as int));
        }
        let day: u8 = (n + 1) as u8;
        let r = ExpVal { year, month, day, hour, minute, second };
        proof {
            assert(day_number(r@) == n0);
            assert(unix_of_date(r@) == (n0 - 134774) * 86400 + sod as int);
            assert((n0 - 134774) * 86400 + sod == t - 11644473600) by (nonlinear_arith)
                requires
                    t == n0 * 86400 + sod;
        }
        r
    }
}

/// Days in a month of a given year.
pub fn days_in_month_ex(y: u16, m: u8) -> (r: u8)
    ensures
        r as int == days_in_month(y as int, m as int),
{
    if m == 2 {
        if y % 4 == 0 && (y % 100 != 0 || y % 400 == 0) {
            29
        } else {
            28
        }
    } else if m == 4 || m == 6 || m == 9 || m == 11 {
        30
    } else {
        31
    }
}

/// Days in a year.
pub fn days_in_year_ex(y: u16) -> (r: u64)
    ensures
        r as int == days_in_year(y as int),
{
    if y % 4 == 0 && (y % 100 != 0 || y % 400 == 0) {
        366
    } else {
        365
    }
}

/// Days in the years 1601 (inclusive) through `y` (exclusive).
fn days_before_year_ex(y: u16) -> (r: u64)
    requires
        1601 <= y <= 10000,
    ensures
        r as int == days_before_year(y as int),
{
    let mut acc: u64 = 0;
    let mut i: u16 = 1601;
    proof {
        lemma_days_before_year_9999();
    }
    while i < y
        invariant
            1601 <= i <= y <= 10000,
            acc as int == days_before_year(i as int),
        decreases y - i,
    {
        proof {
            lemma_days_before_year_mono(i as int + 1, 10000);
            lemma_days_before_year_9999();
        }
        acc = acc + days_in_year_ex(i);
        i = i + 1;
    }
    acc
}

/// Days in the months 1 (inclusive) through `m` (exclusive) of year `y`.
fn days_before_month_ex(y: u16, m: u8) -> (r: u16)
    requires
        1 <= m <= 13,
    ensures
        r as int == days_before_month(y as int, m as int),
{
    let mut acc: u16 = 0;
    let mut i: u8 = 1;
    while i < m
        invariant
            1 <= i <= m <= 13,
            acc as int == days_before_month(y as int, i as int),
        decreases m - i,
    {
        proof {
            lemma_days_before_month_nonneg(y as int, i as int);
            if i <= 12 {
                lemma_days_before_month_le(y as int, i as int);
            }
        }
        acc = acc + days_in_month_ex(y, i) as u16;
        i = i + 1;
    }
    acc
}

} // verus!
