//! Wall-clock instants at second resolution, and the proleptic Gregorian
//! calendar arithmetic that turns them into a single seconds count.
//!
//! Frame ages and retention decisions are differences of these seconds
//! counts, so the conversion is the foundation of the retention contract.

use vstd::prelude::*;

verus! {

use vstd::arithmetic::div_mod::lemma_fundamental_div_mod_converse;

/// A wall-clock instant at second resolution, held as plain calendar
/// fields so that contracts can speak of them directly.
#[derive(Clone, Copy, PartialEq, Eq, Structural, Debug)]
pub struct Timestamp {
    pub year: u16,
    pub month: u8,
    pub day: u8,
    pub hour: u8,
    pub minute: u8,
    pub second: u8,
}

pub open spec fn is_leap_year(y: int) -> bool {
    (y % 4 == 0 && y % 100 != 0) || y % 400 == 0
}

pub open spec fn days_in_year(y: int) -> int {
    if is_leap_year(y) {
        366
    } else {
        365
    }
}

pub open spec fn days_in_month(y: int, m: int) -> int {
    if m == 2 {
        if is_leap_year(y) {
            29
        } else {
            28
        }
    } else if m == 4 || m == 6 || m == 9 || m == 11 {
        30
    } else {
        31
    }
}

/// Days in all calendar years before year `y`, counted from year 0.
pub open spec fn days_before_year(y: int) -> int
    decreases y,
{
    if y <= 0 {
        0
    } else {
        days_before_year(y - 1) + days_in_year(y - 1)
    }
}

/// Days in the months of year `y` that precede month `m` (months count from 1).
pub open spec fn days_before_month(y: int, m: int) -> int
    decreases m,
{
    if m <= 1 {
        0
    } else {
        days_before_month(y, m - 1) + days_in_month(y, m - 1)
    }
}

pub proof fn lemma_days_before_year_bounds(y: int)
    requires
        0 <= y,
    ensures
        365 * y <= days_before_year(y) <= 366 * y,
    decreases y,
{
    if y > 0 {
        lemma_days_before_year_bounds(y - 1);
    }
}

pub proof fn lemma_days_before_month_bounds(y: int, m: int)
    requires
        1 <= m,
    ensures
        0 <= days_before_month(y, m) <= 31 * (m - 1),
    decreases m,
{
    if m > 1 {
        lemma_days_before_month_bounds(y, m - 1);
    }
}

proof fn lemma_days_before_month_step(y: int, m: int)
    requires
        1 <= m,
    ensures
        days_before_month(y, m + 1) == days_before_month(y, m) + days_in_month(y, m),
{
}

proof fn lemma_days_before_month_mono(y: int, m1: int, m2: int)
    requires
        1 <= m1 <= m2,
    ensures
        days_before_month(y, m1) <= days_before_month(y, m2),
    decreases m2,
{
    if m1 < m2 {
        lemma_days_before_month_mono(y, m1, m2 - 1);
    }
}

proof fn lemma_days_before_month_full(y: int)
    ensures
        days_before_month(y, 13) == days_in_year(y),
{
    reveal_with_fuel(days_before_month, 13);
}

/// Within its year, a date's day offset stays below the year's length.
proof fn lemma_day_offset_in_year(t: Timestamp)
    requires
        t.wf(),
    ensures
        0 <= days_before_month(t.year as int, t.month as int) + t.day - 1 < days_in_year(
            t.year as int,
        ),
{
    let y = t.year as int;
    let m = t.month as int;
    lemma_days_before_month_bounds(y, m);
    lemma_days_before_month_step(y, m);
    lemma_days_before_month_mono(y, m + 1, 13);
    lemma_days_before_month_full(y);
}

proof fn lemma_days_before_year_mono(y1: int, y2: int)
    requires
        0 <= y1 <= y2,
    ensures
        days_before_year(y1) <= days_before_year(y2),
    decreases y2,
{
    if y1 < y2 {
        lemma_days_before_year_mono(y1, y2 - 1);
    }
}

/// Two equal seconds counts can only come from the same instant: the
/// seconds count loses nothing, so a frame's identity and its registry
/// key agree.
pub proof fn lemma_epoch_seconds_injective(t1: Timestamp, t2: Timestamp)
    requires
        t1.wf(),
        t2.wf(),
        t1.epoch_seconds() == t2.epoch_seconds(),
    ensures
        t1 == t2,
{
    let s = t1.epoch_seconds();
    let tod1 = t1.hour * 3600 + t1.minute * 60 + t1.second;
    let tod2 = t2.hour * 3600 + t2.minute * 60 + t2.second;
    lemma_fundamental_div_mod_converse(s, 86400, t1.epoch_days(), tod1);
    lemma_fundamental_div_mod_converse(s, 86400, t2.epoch_days(), tod2);
    assert(t1.epoch_days() == t2.epoch_days());
    assert(tod1 == tod2);
    lemma_fundamental_div_mod_converse(tod1, 3600, t1.hour as int, t1.minute * 60 + t1.second);
    lemma_fundamental_div_mod_converse(tod2, 3600, t2.hour as int, t2.minute * 60 + t2.second);
    assert(t1.hour == t2.hour);
    lemma_fundamental_div_mod_converse(
        t1.minute * 60 + t1.second,
        60,
        t1.minute as int,
        t1.second as int,
    );
    lemma_fundamental_div_mod_converse(
        t2.minute * 60 + t2.second,
        60,
        t2.minute as int,
        t2.second as int,
    );
    assert(t1.minute == t2.minute && t1.second == t2.second);
    let y1 = t1.year as int;
    let y2 = t2.year as int;
    if y1 < y2 {
        lemma_day_offset_in_year(t1);
        lemma_days_before_year_mono(y1 + 1, y2);
        lemma_days_before_month_bounds(y2, t2.month as int);
        assert(t1.epoch_days() < days_before_year(y1 + 1));
        assert(false);
    } else if y2 < y1 {
        lemma_day_offset_in_year(t2);
        lemma_days_before_year_mono(y2 + 1, y1);
        lemma_days_before_month_bounds(y1, t1.month as int);
        assert(t2.epoch_days() < days_before_year(y2 + 1));
        assert(false);
    }
    let m1 = t1.month as int;
    let m2 = t2.month as int;
    if m1 < m2 {
        lemma_days_before_month_step(y1, m1);
        lemma_days_before_month_mono(y1, m1 + 1, m2);
        assert(false);
    } else if m2 < m1 {
        lemma_days_before_month_step(y1, m2);
        lemma_days_before_month_mono(y1, m2 + 1, m1);
        assert(false);
    }
    assert(t1.day == t2.day);
}

/// Calendar order of two instants: years, then months, days, hours,
/// minutes, seconds.
pub open spec fn chronologically_before(t1: Timestamp, t2: Timestamp) -> bool {
    if t1.year != t2.year {
        t1.year < t2.year
    } else if t1.month != t2.month {
        t1.month < t2.month
    } else if t1.day != t2.day {
        t1.day < t2.day
    } else if t1.hour != t2.hour {
        t1.hour < t2.hour
    } else if t1.minute != t2.minute {
        t1.minute < t2.minute
    } else {
        t1.second < t2.second
    }
}

/// The seconds count is a sortable encoding: the chronologically earlier
/// instant always has the strictly smaller count, so ordering frames by
/// their counts orders them by capture time.
pub proof fn lemma_epoch_seconds_monotone(t1: Timestamp, t2: Timestamp)
    requires
        t1.wf(),
        t2.wf(),
        chronologically_before(t1, t2),
    ensures
        t1.epoch_seconds() < t2.epoch_seconds(),
{
    let y1 = t1.year as int;
    let y2 = t2.year as int;
    let m1 = t1.month as int;
    let m2 = t2.month as int;
    if t1.epoch_days() < t2.epoch_days() {
        assert(t1.hour * 3600 + t1.minute * 60 + t1.second < 86400);
        assert(t2.hour * 3600 + t2.minute * 60 + t2.second >= 0);
    } else {
        if y1 < y2 {
            lemma_day_offset_in_year(t1);
            lemma_days_before_year_mono(y1 + 1, y2);
            lemma_days_before_month_bounds(y2, m2);
            assert(t1.epoch_days() < days_before_year(y1 + 1));
            assert(false);
        } else if y1 == y2 && m1 < m2 {
            lemma_days_before_month_step(y1, m1);
            lemma_days_before_month_mono(y1, m1 + 1, m2);
            assert(false);
        }
    }
}

/// Number of days in the given month, as executable code.
pub fn month_length(year: u16, month: u8) -> (d: u8)
    requires
        1 <= month <= 12,
    ensures
        d == days_in_month(year as int, month as int),
{
    if month == 2 {
        if (year % 4 == 0 && year % 100 != 0) || year % 400 == 0 {
            29
        } else {
            28
        }
    } else if month == 4 || month == 6 || month == 9 || month == 11 {
        30
    } else {
        31
    }
}

impl Timestamp {
    /// The fields form a real calendar date and time of day; the year is
    /// limited to four decimal digits, which is all the frame-name grammar
    /// carries.
    pub open spec fn wf(self) -> bool {
        &&& self.year <= 9999
        &&& 1 <= self.month <= 12
        &&& 1 <= self.day <= days_in_month(self.year as int, self.month as int)
        &&& self.hour < 24
        &&& self.minute < 60
        &&& self.second < 60
    }

    /// Days since the start of year 0.
    pub open spec fn epoch_days(self) -> int {
        days_before_year(self.year as int) + days_before_month(
            self.year as int,
            self.month as int,
        ) + self.day - 1
    }

    /// Seconds since the start of year 0: the time base in which frame
    /// ages are measured.
    pub open spec fn epoch_seconds(self) -> int {
        self.epoch_days() * 86400 + self.hour * 3600 + self.minute * 60 + self.second
    }

    /// Computes the seconds count of this instant.
    pub fn to_seconds(&self) -> (s: u64)
        requires
            self.wf(),
        ensures
            s == self.epoch_seconds(),
    {
        let mut days: u64 = 0;
        let mut y: u16 = 0;
        while y < self.year
            invariant
                y <= self.year,
                self.year <= 9999,
                days == days_before_year(y as int),
            decreases self.year - y,
        {
            proof {
                lemma_days_before_year_bounds(y as int);
            }
            if (y % 4 == 0 && y % 100 != 0) || y % 400 == 0 {
                days = days + 366;
            } else {
                days = days + 365;
            }
            y = y + 1;
        }
        let mut mdays: u64 = 0;
        let mut m: u8 = 1;
        while m < self.month
            invariant
                1 <= m <= self.month,
                self.month <= 12,
                mdays == days_before_month(self.year as int, m as int),
            decreases self.month - m,
        {
            proof {
                lemma_days_before_month_bounds(self.year as int, m as int);
            }
            mdays = mdays + month_length(self.year, m) as u64;
            m = m + 1;
        }
        proof {
            lemma_days_before_year_bounds(self.year as int);
            lemma_days_before_month_bounds(self.year as int, self.month as int);
        }
        let total_days: u64 = days + mdays + (self.day as u64) - 1;
        total_days * 86400 + (self.hour as u64) * 3600 + (self.minute as u64) * 60 + (
        self.second as u64)
    }
}

} // verus!
