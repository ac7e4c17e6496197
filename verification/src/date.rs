//! A plain proleptic-Gregorian calendar model.
//!
//! Dates are triples of year, month and day; a datetime adds hours and
//! minutes.  Every date is mapped to its *day index*, the number of days
//! since year 0, January 1st, and all ordering and bucketing arithmetic in
//! the library is specified over that index.

use vstd::prelude::*;

verus! {

/// A calendar date in the proleptic Gregorian calendar.
///
/// Years 0 through 10000 are representable; year 10000 exists only so that
/// the half-open end of a bucket whose last day falls in year 9999 still has
/// a representation.  Dates fed into the library lie in years 0 to 9999.
#[derive(PartialEq, Eq, Structural, Clone, Copy, Debug)]
pub struct Date {
    pub year: i32,
    pub month: u8,
    pub day: u8,
}

/// A calendar date with a time of day, at minute resolution.
#[derive(PartialEq, Eq, Structural, Clone, Copy, Debug)]
pub struct DateTime {
    pub date: Date,
    pub hour: u8,
    pub minute: u8,
}

pub open spec fn is_leap_year(y: int) -> bool {
    y % 4 == 0 && (y % 100 != 0 || y % 400 == 0)
}

pub open spec fn days_in_month_of(y: int, m: int) -> int {
    if m == 2 {
        if is_leap_year(y) {
            29
        } else {
            28
        }
    } else if m == 4 || m == 6 || m == 9 || m == 11 {
        30
    } else {
        31
    }
}

/// Days in the months of year `y` strictly before month `m`.
pub open spec fn days_before_month(y: int, m: int) -> int {
    let leap: int = if is_leap_year(y) {
        1
    } else {
        0
    };
    if m <= 1 {
        0
    } else if m == 2 {
        31
    } else if m == 3 {
        59 + leap
    } else if m == 4 {
        90 + leap
    } else if m == 5 {
        120 + leap
    } else if m == 6 {
        151 + leap
    } else if m == 7 {
        181 + leap
    } else if m == 8 {
        212 + leap
    } else if m == 9 {
        243 + leap
    } else if m == 10 {
        273 + leap
    } else if m == 11 {
        304 + leap
    } else {
        334 + leap
    }
}

/// Number of leap years in the range `[0, y)`, for `y >= 0`.
pub open spec fn leap_days_before(y: int) -> int {
    (y + 3) / 4 - (y + 99) / 100 + (y + 399) / 400
}

/// Day index of January 1st of year `y`.
pub open spec fn year_start_index(y: int) -> int {
    365 * y + leap_days_before(y)
}

impl Date {
    /// A structurally well-formed calendar date.
    pub open spec fn valid(self) -> bool {
        &&& 0 <= self.year <= 10000
        &&& 1 <= self.month <= 12
        &&& 1 <= self.day <= days_in_month_of(self.year as int, self.month as int)
    }

    /// Number of days between year 0, January 1st, and this date.
    pub open spec fn day_index(self) -> int {
        year_start_index(self.year as int) + days_before_month(
            self.year as int,
            self.month as int,
        ) + self.day - 1
    }
}

/// One more than the largest day index of a valid date (year 10000,
/// December 31st).
pub open spec fn day_index_end() -> int {
    (Date { year: 10000, month: 12, day: 31 }).day_index() + 1
}

/// Stepping the dividend across a multiple of `d` raises the quotient by
/// one exactly there: `(y + d) / d` exceeds `(y + d - 1) / d` if and only
/// if `d` divides `y`.
proof fn lemma_div_step(y: int, d: int)
    requires
        y >= 0,
        d > 0,
    ensures
        (y + d) / d == (y + d - 1) / d + if y % d == 0 {
            1int
        } else {
            0int
        },
{
    vstd::arithmetic::div_mod::lemma_div_plus_one(y, d);
    vstd::arithmetic::div_mod::lemma_div_plus_one(y - 1, d);
    vstd::arithmetic::div_mod::lemma_fundamental_div_mod(y, d);
    let q = y / d;
    let r = y % d;
    if r == 0 {
        assert((q - 1) * d == q * d - d) by (nonlinear_arith);
        vstd::arithmetic::div_mod::lemma_fundamental_div_mod_converse(y - 1, d, q - 1, d - 1);
    } else {
        vstd::arithmetic::div_mod::lemma_fundamental_div_mod_converse(y - 1, d, q, r - 1);
    }
}

/// A year divisible by 400 is divisible by 100, and one divisible by 100
/// is divisible by 4.
proof fn lemma_century_divisibility(y: int)
    requires
        y >= 0,
    ensures
        y % 100 == 0 ==> y % 4 == 0,
        y % 400 == 0 ==> y % 100 == 0,
{
    if y % 100 == 0 {
        vstd::arithmetic::div_mod::lemma_fundamental_div_mod(y, 100);
        let q = y / 100;
        assert(100 * q == 4 * (25 * q)) by (nonlinear_arith);
        vstd::arithmetic::div_mod::lemma_fundamental_div_mod_converse(y, 4, 25 * q, 0);
    }
    if y % 400 == 0 {
        vstd::arithmetic::div_mod::lemma_fundamental_div_mod(y, 400);
        let q = y / 400;
        assert(400 * q == 100 * (4 * q)) by (nonlinear_arith);
        vstd::arithmetic::div_mod::lemma_fundamental_div_mod_converse(y, 100, 4 * q, 0);
    }
}

/// Stepping from year `y` to year `y + 1` adds one leap day exactly when
/// `y` itself is a leap year.
#[verifier::rlimit(30)]
pub proof fn lemma_leap_days_step(y: int)
    requires
        y >= 0,
    ensures
        leap_days_before(y + 1) == leap_days_before(y) + if is_leap_year(y) {
            1int
        } else {
            0int
        },
{
    lemma_div_step(y, 4);
    lemma_div_step(y, 100);
    lemma_div_step(y, 400);
    lemma_century_divisibility(y);
    let b4: int = if y % 4 == 0 {
        1
    } else {
        0
    };
    let b100: int = if y % 100 == 0 {
        1
    } else {
        0
    };
    let b400: int = if y % 400 == 0 {
        1
    } else {
        0
    };
    assert(leap_days_before(y + 1) == leap_days_before(y) + b4 - b100 + b400);
    assert(b4 - b100 + b400 == if is_leap_year(y) {
        1int
    } else {
        0int
    });
}

/// Each year is 365 or 366 days long in the day-index scale.
pub proof fn lemma_year_start_step(y: int)
    requires
        y >= 0,
    ensures
        year_start_index(y + 1) == year_start_index(y) + 365 + if is_leap_year(y) {
            1int
        } else {
            0int
        },
{
    lemma_leap_days_step(y);
}

/// January 1st indices grow strictly with the year.
pub proof fn lemma_year_start_monotone(y1: int, y2: int)
    requires
        0 <= y1 <= y2,
    ensures
        year_start_index(y1) + 365 * (y2 - y1) <= year_start_index(y2),
    decreases y2 - y1,
{
    if y1 < y2 {
        lemma_year_start_monotone(y1, y2 - 1);
        lemma_year_start_step(y2 - 1);
    }
}

/// The months of one year tile it: the days before month `m` plus the days
/// of month `m` are the days before month `m + 1`, and the last month ends
/// exactly at the year's length.
pub proof fn lemma_month_step(y: int, m: int)
    requires
        1 <= m <= 12,
    ensures
        m < 12 ==> days_before_month(y, m) + days_in_month_of(y, m) == days_before_month(y, m + 1),
        m == 12 ==> days_before_month(y, m) + days_in_month_of(y, m) == 365 + if is_leap_year(y) {
            1int
        } else {
            0int
        },
{
}

/// Every valid date's index lies within its year's slice of the index line.
pub proof fn lemma_index_within_year(d: Date)
    requires
        d.valid(),
    ensures
        year_start_index(d.year as int) <= d.day_index(),
        d.day_index() < year_start_index(d.year as int) + 365 + if is_leap_year(d.year as int) {
            1int
        } else {
            0int
        },
{
    lemma_month_step(d.year as int, d.month as int);
    if d.month < 12 {
        assert(days_before_month(d.year as int, d.month as int) + days_in_month_of(
            d.year as int,
            d.month as int,
        ) <= 365 + if is_leap_year(d.year as int) {
            1int
        } else {
            0int
        });
    }
}

/// The day index respects the lexicographic year/month/day order strictly.
pub proof fn lemma_index_strictly_monotone(a: Date, b: Date)
    requires
        a.valid(),
        b.valid(),
        a.year < b.year || (a.year == b.year && a.month < b.month) || (a.year == b.year && a.month
            == b.month && a.day < b.day),
    ensures
        a.day_index() < b.day_index(),
{
    if a.year < b.year {
        lemma_index_within_year(a);
        lemma_index_within_year(b);
        lemma_year_start_step(a.year as int);
        lemma_year_start_monotone(a.year as int + 1, b.year as int);
    } else if a.month < b.month {
        lemma_month_step(a.year as int, a.month as int);
        assert(days_before_month(a.year as int, a.month as int + 1) <= days_before_month(
            b.year as int,
            b.month as int,
        ));
    }
}

/// Two valid dates compare the same way by index as by year/month/day, and
/// the index determines the date.
pub proof fn lemma_index_order(a: Date, b: Date)
    requires
        a.valid(),
        b.valid(),
    ensures
        a.day_index() == b.day_index() <==> a == b,
        a.day_index() < b.day_index() <==> (a.year < b.year || (a.year == b.year && a.month
            < b.month) || (a.year == b.year && a.month == b.month && a.day < b.day)),
{
    if a.year < b.year || (a.year == b.year && a.month < b.month) || (a.year == b.year && a.month
        == b.month && a.day < b.day) {
        lemma_index_strictly_monotone(a, b);
    } else if b.year < a.year || (b.year == a.year && b.month < a.month) || (b.year == a.year
        && b.month == a.month && b.day < a.day) {
        lemma_index_strictly_monotone(b, a);
    } else {
        assert(a == b);
    }
}

impl Date {
    /// The next calendar day, as a specification-level function.
    pub open spec fn succ(self) -> Date {
        if self.day < days_in_month_of(self.year as int, self.month as int) {
            Date { year: self.year, month: self.month, day: (self.day + 1) as u8 }
        } else if self.month < 12 {
            Date { year: self.year, month: (self.month + 1) as u8, day: 1 }
        } else {
            Date { year: (self.year + 1) as i32, month: 1, day: 1 }
        }
    }
}

/// Whether year `y` is a leap year of the proleptic Gregorian calendar.
pub fn is_leap(year: i32) -> (r: bool)
    requires
        0 <= year,
    ensures
        r == is_leap_year(year as int),
{
    year % 4 == 0 && (year % 100 != 0 || year % 400 == 0)
}

/// The number of days of month `month` in year `year`.
pub fn days_in_month(year: i32, month: u8) -> (r: u8)
    requires
        0 <= year,
        1 <= month <= 12,
    ensures
        r as int == days_in_month_of(year as int, month as int),
{
    if month == 2 {
        if is_leap(year) {
            29
        } else {
            28
        }
    } else if month == 4 || month == 6 || month == 9 || month == 11 {
        30
    } else {
        31
    }
}

impl Date {
    /// Builds a date, accepting exactly the valid calendar dates of years
    /// 0 through 9999.
    pub fn new(year: i32, month: u8, day: u8) -> (r: Option<Date>)
        ensures
            match r {
                Some(d) => d == (Date { year, month, day }) && d.valid() && d.year <= 9999,
                None => !((Date { year, month, day }).valid() && year <= 9999),
            },
    {
        if 0 <= year && year <= 9999 && 1 <= month && month <= 12 && 1 <= day && day
            <= days_in_month(year, month) {
            Some(Date { year, month, day })
        } else {
            None
        }
    }

    /// The day index as a run-time number.
    pub fn day_number(&self) -> (r: u64)
        requires
            self.valid(),
        ensures
            r as int == self.day_index(),
            r < day_index_end(),
    {
        let y = self.year as u64;
        let leap_correction: u64 = (y + 99) / 100;
        let positive: u64 = 365 * y + (y + 3) / 4 + (y + 399) / 400 + self.days_before_in_year();
        proof {
            lemma_index_within_year(*self);
            lemma_index_within_year(Date { year: 10000, month: 12, day: 31 });
            if self.year >= 1 {
                assert((y + 99) / 100 <= y + 99);
            }
        }
        positive - leap_correction + (self.day as u64) - 1
    }

    /// Days of this date's year that lie in earlier months.
    fn days_before_in_year(&self) -> (r: u64)
        requires
            self.valid(),
        ensures
            r as int == days_before_month(self.year as int, self.month as int),
    {
        let leap: u64 = if is_leap(self.year) {
            1
        } else {
            0
        };
        match self.month {
            1 => 0,
            2 => 31,
            3 => 59 + leap,
            4 => 90 + leap,
            5 => 120 + leap,
            6 => 151 + leap,
            7 => 181 + leap,
            8 => 212 + leap,
            9 => 243 + leap,
            10 => 273 + leap,
            11 => 304 + leap,
            _ => 334 + leap,
        }
    }

    /// The next calendar day.
    pub fn next_day(&self) -> (r: Date)
        requires
            self.valid(),
            self.day_index() + 1 < day_index_end(),
        ensures
            r == self.succ(),
            r.valid(),
            r.day_index() == self.day_index() + 1,
    {
        proof {
            lemma_succ(*self);
        }
        if self.day < days_in_month(self.year, self.month) {
            Date { year: self.year, month: self.month, day: self.day + 1 }
        } else if self.month < 12 {
            Date { year: self.year, month: self.month + 1, day: 1 }
        } else {
            Date { year: self.year + 1, month: 1, day: 1 }
        }
    }

    /// The previous calendar day.
    pub fn prev_day(&self) -> (r: Date)
        requires
            self.valid(),
            self.day_index() >= 1,
        ensures
            r.valid(),
            r.day_index() == self.day_index() - 1,
    {
        let r = if self.day > 1 {
            Date { year: self.year, month: self.month, day: self.day - 1 }
        } else if self.month > 1 {
            proof {
                if self.year == 0 && self.month == 1 {
                    assert(self.day_index() == self.day - 1);
                }
            }
            Date {
                year: self.year,
                month: self.month - 1,
                day: days_in_month(self.year, self.month - 1),
            }
        } else {
            proof {
                if self.year == 0 {
                    assert(self.day_index() == 0);
                }
            }
            Date { year: self.year - 1, month: 12, day: 31 }
        };
        proof {
            lemma_succ(r);
            assert(r.succ() == *self);
        }
        r
    }

    /// Whether this date's index is at most `other`'s.
    pub fn le(&self, other: &Date) -> (r: bool)
        requires
            self.valid(),
            other.valid(),
        ensures
            r == (self.day_index() <= other.day_index()),
    {
        proof {
            lemma_index_order(*self, *other);
        }
        self.year < other.year || (self.year == other.year && (self.month < other.month || (
        self.month == other.month && self.day <= other.day)))
    }
}

impl DateTime {
    /// A structurally well-formed datetime.
    pub open spec fn valid(self) -> bool {
        self.date.valid() && self.hour < 24 && self.minute < 60
    }

    /// Number of minutes between year 0, January 1st, 00:00 and this moment.
    pub open spec fn minute_index(self) -> int {
        self.date.day_index() * 1440 + self.hour * 60 + self.minute
    }

    /// Midnight at the start of `date`.
    pub fn midnight(date: Date) -> (r: DateTime)
        ensures
            r == (DateTime { date, hour: 0, minute: 0 }),
    {
        DateTime { date, hour: 0, minute: 0 }
    }

    /// The minute index as a run-time number.
    pub fn minute_number(&self) -> (r: u64)
        requires
            self.valid(),
        ensures
            r as int == self.minute_index(),
            r < day_index_end() * 1440,
    {
        let days = self.date.day_number();
        proof {
            assert(days < day_index_end());
        }
        days * 1440 + (self.hour as u64) * 60 + (self.minute as u64)
    }

    /// Whether this moment is no later than `other`.
    pub fn le(&self, other: &DateTime) -> (r: bool)
        requires
            self.valid(),
            other.valid(),
        ensures
            r == (self.minute_index() <= other.minute_index()),
    {
        self.minute_number() <= other.minute_number()
    }

    /// Minutes from `self` to `other`, negative when `other` is earlier.
    pub fn minutes_until(&self, other: &DateTime) -> (r: i64)
        requires
            self.valid(),
            other.valid(),
        ensures
            r == other.minute_index() - self.minute_index(),
    {
        (other.minute_number() as i64) - (self.minute_number() as i64)
    }
}

/// Weekday of the date with day index `i`: 0 is Monday, 6 is Sunday.
/// Year 0, January 1st, is a Saturday.
pub open spec fn weekday_of(i: int) -> int {
    (i + 5) % 7
}

/// Week number of the date with day index `i`, counting Monday-to-Sunday
/// weeks from the start of the calendar.  Day indices with the same week
/// number form one calendar week.
pub open spec fn week_of(i: int) -> int {
    (i + 5) / 7
}

/// The ISO week of `d` is week `wk` of week-based year `wy`: `wy` is the
/// year containing the Thursday of `d`'s week, and `wk` counts the weeks
/// whose Thursday falls in `wy`, starting at 1.
pub open spec fn is_iso_week_of(d: Date, wy: int, wk: int) -> bool {
    let t = d.day_index() - weekday_of(d.day_index()) + 3;
    &&& 0 <= wy <= 10000
    &&& year_start_index(wy) <= t < year_start_index(wy + 1)
    &&& wk == (t - year_start_index(wy)) / 7 + 1
}

impl Date {
    /// The weekday of this date: 0 is Monday, 6 is Sunday.
    pub fn weekday(&self) -> (r: u8)
        requires
            self.valid(),
        ensures
            r as int == weekday_of(self.day_index()),
            r < 7,
    {
        let n = self.day_number();
        ((n + 5) % 7) as u8
    }

    /// The Monday of this date's week, clamped to the start of the calendar
    /// for the first, partial week of year 0.
    pub fn week_start(&self) -> (r: Date)
        requires
            self.valid(),
        ensures
            r.valid(),
            r.day_index() == if self.day_index() >= weekday_of(self.day_index()) {
                self.day_index() - weekday_of(self.day_index())
            } else {
                0int
            },
    {
        let w = self.weekday() as u64;
        let n = self.day_number();
        let steps = if n < w {
            n
        } else {
            w
        };
        let mut cur = *self;
        let mut j: u64 = 0;
        while j < steps
            invariant
                j <= steps,
                steps <= n,
                n == self.day_index(),
                cur.valid(),
                cur.day_index() == self.day_index() - j,
            decreases steps - j,
        {
            cur = cur.prev_day();
            j = j + 1;
        }
        cur
    }

    /// The Thursday of this date's week.
    fn week_thursday(&self) -> (r: Date)
        requires
            self.valid(),
            self.day_index() >= 2,
            self.year <= 9999,
        ensures
            r.valid(),
            r.day_index() == self.day_index() - weekday_of(self.day_index()) + 3,
    {
        let w = self.weekday();
        let mut thursday = *self;
        proof {
            lemma_index_strictly_monotone(*self, Date { year: 10000, month: 12, day: 25 });
            let i = self.day_index();
            assert((i + 5) % 7 == (i + 5) - 7 * ((i + 5) / 7));
            if i + 5 >= 7 {
                assert((i + 5) / 7 >= 1) by (nonlinear_arith)
                    requires
                        i + 5 >= 7,
                ;
            }
            assert(i >= weekday_of(i) - 3);
        }
        if w < 3 {
            let mut j: u8 = w;
            while j < 3
                invariant
                    w < 3,
                    j <= 3,
                    thursday.valid(),
                    thursday.day_index() == self.day_index() + j - w,
                    self.day_index() + 3 < day_index_end(),
                decreases 3 - j,
            {
                thursday = thursday.next_day();
                j = j + 1;
            }
        } else {
            let mut j: u8 = w;
            while j > 3
                invariant
                    w >= 3,
                    j >= 3,
                    thursday.valid(),
                    thursday.day_index() == self.day_index() - (w - j),
                    self.day_index() >= w - 3,
                decreases j,
            {
                thursday = thursday.prev_day();
                j = j - 1;
            }
        }
        thursday
    }

    /// The ISO week-based year and week number of this date.
    pub fn iso_week(&self) -> (r: (i32, u8))
        requires
            self.valid(),
            self.day_index() >= 2,
            self.year <= 9999,
        ensures
            is_iso_week_of(*self, r.0 as int, r.1 as int),
            1 <= r.1 <= 53,
    {
        let thursday = self.week_thursday();
        proof {
            lemma_index_within_year(thursday);
            lemma_year_start_step(thursday.year as int);
        }
        let t = thursday.day_number();
        let ys = Date { year: thursday.year, month: 1, day: 1 }.day_number();
        let wk = ((t - ys) / 7 + 1) as u8;
        (thursday.year, wk)
    }
}

/// Two valid datetimes with ordered dates are ordered as moments, and a
/// datetime's date is recoverable from its minute index.
pub proof fn lemma_minute_index_order(a: DateTime, b: DateTime)
    requires
        a.valid(),
        b.valid(),
    ensures
        a.date.day_index() < b.date.day_index() ==> a.minute_index() < b.minute_index(),
        a.minute_index() <= b.minute_index() ==> a.date.day_index() <= b.date.day_index(),
{
}

/// The successor of a valid date is the valid date with the next day index.
pub proof fn lemma_succ(d: Date)
    requires
        d.valid(),
        d.day_index() + 1 < day_index_end(),
    ensures
        d.succ().valid(),
        d.succ().day_index() == d.day_index() + 1,
{
    lemma_month_step(d.year as int, d.month as int);
    if !(d.day < days_in_month_of(d.year as int, d.month as int)) && !(d.month < 12) {
        lemma_year_start_step(d.year as int);
        if d.year == 10000 {
            lemma_index_within_year(d);
            lemma_index_within_year(Date { year: 10000, month: 12, day: 31 });
            lemma_index_order(d, Date { year: 10000, month: 12, day: 31 });
            assert(false);
        }
    }
}

} // verus!
