//! Calendar dates for the local usage history: parsing `YYYY-MM-DD` strings,
//! ordering, and stepping backwards day by day.
//!
//! The library's calendar covers the years 1 through 9999 of the proleptic
//! Gregorian calendar. Stepping back from its first day saturates there, so
//! walking backwards is total on valid dates.

use vstd::prelude::*;

use crate::numbers::{all_digits, digits_val};

verus! {

/// A calendar date, held as plain year, month and day numbers.
#[derive(Clone, Copy, Debug, PartialEq, Eq, Structural)]
pub struct Date {
    pub year: i32,
    pub month: u8,
    pub day: u8,
}

/// True in years with a February 29th.
pub open spec fn is_leap_year(y: int) -> bool {
    y % 4 == 0 && (y % 100 != 0 || y % 400 == 0)
}

/// Number of days in month `m` of year `y`.
pub open spec fn days_in_month_spec(y: int, m: int) -> int {
    if m == 1 || m == 3 || m == 5 || m == 7 || m == 8 || m == 10 || m == 12 {
        31
    } else if m == 4 || m == 6 || m == 9 || m == 11 {
        30
    } else if is_leap_year(y) {
        29
    } else {
        28
    }
}

impl Date {
    /// A date the library's calendar covers.
    pub open spec fn valid(self) -> bool {
        1 <= self.year <= 9999 && 1 <= self.month <= 12 && 1 <= self.day
            <= days_in_month_spec(self.year as int, self.month as int)
    }
}

/// Strict ordering of dates: year, then month, then day.
pub open spec fn date_lt(a: Date, b: Date) -> bool {
    a.year < b.year || (a.year == b.year && (a.month < b.month || (a.month == b.month && a.day
        < b.day)))
}

/// `a` is on or before `b`.
pub open spec fn date_le(a: Date, b: Date) -> bool {
    date_lt(a, b) || a == b
}

/// The day before `d`; the first day of the calendar stays put.
pub open spec fn prev_day_spec(d: Date) -> Date {
    if d.day > 1 {
        Date { year: d.year, month: d.month, day: (d.day - 1) as u8 }
    } else if d.month > 1 {
        Date {
            year: d.year,
            month: (d.month - 1) as u8,
            day: days_in_month_spec(d.year as int, d.month - 1) as u8,
        }
    } else if d.year > 1 {
        Date { year: (d.year - 1) as i32, month: 12u8, day: 31u8 }
    } else {
        d
    }
}

/// `d` stepped back `k` days, saturating at the calendar's first day.
pub open spec fn sub_days_spec(d: Date, k: nat) -> Date
    decreases k,
{
    if k == 0 {
        d
    } else {
        prev_day_spec(sub_days_spec(d, (k - 1) as nat))
    }
}

/// What parsing a `YYYY-MM-DD` string yields: the date it writes, or `None`
/// when the shape is wrong or the date is not a calendar date.
pub open spec fn date_parse_spec(s: Seq<char>) -> Option<Date> {
    if s.len() == 10 && s[4] == '-' && s[7] == '-' && all_digits(s.subrange(0, 4)) && all_digits(
        s.subrange(5, 7),
    ) && all_digits(s.subrange(8, 10)) {
        let y = digits_val(s.subrange(0, 4));
        let m = digits_val(s.subrange(5, 7));
        let d = digits_val(s.subrange(8, 10));
        let date = Date { year: y as i32, month: m as u8, day: d as u8 };
        if date.valid() {
            Some(date)
        } else {
            None
        }
    } else {
        None
    }
}

/// Number of days in month `m` of year `y`.
pub fn days_in_month(y: i32, m: u8) -> (r: u8)
    requires
        1 <= y,
        1 <= m <= 12,
    ensures
        r == days_in_month_spec(y as int, m as int),
{
    if m == 1 || m == 3 || m == 5 || m == 7 || m == 8 || m == 10 || m == 12 {
        31
    } else if m == 4 || m == 6 || m == 9 || m == 11 {
        30
    } else if y % 4 == 0 && (y % 100 != 0 || y % 400 == 0) {
        29
    } else {
        28
    }
}

impl Date {
    /// Whether this date lies in the library's calendar.
    pub fn is_valid(&self) -> (r: bool)
        ensures
            r == self.valid(),
    {
        if self.year < 1 || self.year > 9999 {
            return false;
        }
        if self.month < 1 || self.month > 12 {
            return false;
        }
        if self.day < 1 {
            return false;
        }
        self.day <= days_in_month(self.year, self.month)
    }

    /// Parses a strict `YYYY-MM-DD` date string.
    pub fn parse(s: &str) -> (r: Option<Date>)
        ensures
            r == date_parse_spec(s@),
    {
        let n = s.unicode_len();
        if n != 10 {
            return None;
        }
        if s.get_char(4) != '-' || s.get_char(7) != '-' {
            return None;
        }
        if !crate::numbers::check_digits(s, 0, 4) || !crate::numbers::check_digits(s, 5, 7)
            || !crate::numbers::check_digits(s, 8, 10) {
            return None;
        }
        let y = match crate::numbers::parse_digits_u64(s, 0, 4) {
            Some(v) => v,
            None => {
                proof {
                    lemma_small_digits_bound(s@.subrange(0, 4));
                }
                assert(false);
                0
            },
        };
        let m = match crate::numbers::parse_digits_u64(s, 5, 7) {
            Some(v) => v,
            None => {
                proof {
                    lemma_small_digits_bound(s@.subrange(5, 7));
                }
                assert(false);
                0
            },
        };
        let d = match crate::numbers::parse_digits_u64(s, 8, 10) {
            Some(v) => v,
            None => {
                proof {
                    lemma_small_digits_bound(s@.subrange(8, 10));
                }
                assert(false);
                0
            },
        };
        proof {
            lemma_small_digits_bound(s@.subrange(0, 4));
            lemma_small_digits_bound(s@.subrange(5, 7));
            lemma_small_digits_bound(s@.subrange(8, 10));
        }
        let date = Date { year: y as i32, month: m as u8, day: d as u8 };
        if date.is_valid() {
            Some(date)
        } else {
            None
        }
    }

    /// The day before this one, saturating at the calendar's first day.
    pub fn prev_day(&self) -> (r: Date)
        requires
            self.valid(),
        ensures
            r == prev_day_spec(*self),
            r.valid(),
            date_le(r, *self),
    {
        if self.day > 1 {
            Date { year: self.year, month: self.month, day: self.day - 1 }
        } else if self.month > 1 {
            Date {
                year: self.year,
                month: self.month - 1,
                day: days_in_month(self.year, self.month - 1),
            }
        } else if self.year > 1 {
            Date { year: self.year - 1, month: 12, day: 31 }
        } else {
            *self
        }
    }

    /// This date stepped back `k` days, saturating at the calendar's first
    /// day.
    pub fn sub_days(&self, k: usize) -> (r: Date)
        requires
            self.valid(),
        ensures
            r == sub_days_spec(*self, k as nat),
            r.valid(),
    {
        let mut cur = *self;
        for i in 0..k
            invariant
                cur == sub_days_spec(*self, i as nat),
                cur.valid(),
        {
            cur = cur.prev_day();
        }
        cur
    }

    /// True when this date is strictly before `other`.
    pub fn before(&self, other: &Date) -> (r: bool)
        ensures
            r == date_lt(*self, *other),
    {
        self.year < other.year || (self.year == other.year && (self.month < other.month || (
        self.month == other.month && self.day < other.day)))
    }

    /// True when this date is on or before `other`.
    pub fn on_or_before(&self, other: &Date) -> (r: bool)
        ensures
            r == date_le(*self, *other),
    {
        !other.before(self)
    }
}

/// A digit string of at most four characters has a small value.
proof fn lemma_small_digits_bound(s: Seq<char>)
    requires
        all_digits(s),
        s.len() <= 4,
    ensures
        0 <= digits_val(s) <= 9999,
{
    crate::numbers::lemma_digits_val_bounded(s);
    crate::numbers::lemma_pow10_le(s.len() as nat, 4nat);
    crate::numbers::lemma_pow10_vals();
}

/// Relies on chrono's `Local::now`, `Datelike` and
/// `Weekday::num_days_from_monday`: the machine's current local calendar
/// date, and how many days have passed since the last Monday. chrono
/// documents the month as 1 to 12, the day as 1 to 31 and the weekday
/// offset as 0 to 6; the year can lie outside this library's calendar.
#[verifier::external_body]
fn chrono_today() -> (r: (i32, u32, u32, u32))
    ensures
        1 <= r.1 <= 12,
        1 <= r.2 <= 31,
        r.3 < 7,
{
    let now = chrono::Local::now().date_naive();
    let year = chrono::Datelike::year(&now);
    let month = chrono::Datelike::month(&now);
    let day = chrono::Datelike::day(&now);
    let weekday = chrono::Datelike::weekday(&now).num_days_from_monday();
    (year, month, day, weekday)
}

/// True when the four numbers a clock hands over name a date of the
/// library's calendar and a weekday offset.
pub open spec fn date_parts_valid(y: int, m: int, d: int, w: int) -> bool {
    1 <= y <= 9999 && 1 <= m <= 12 && 1 <= d <= days_in_month_spec(y, m) && 0 <= w < 7
}

/// Turns the plain values a clock hands over into a date and weekday
/// offset, exactly when they name one.
pub fn date_of_parts(y: i32, m: u32, d: u32, w: u32) -> (r: Option<(Date, u8)>)
    ensures
        r is Some <==> date_parts_valid(y as int, m as int, d as int, w as int),
        match r {
            Some(p) => p.0 == (Date { year: y, month: m as u8, day: d as u8 }) && p.0.valid()
                && p.1 == w && p.1 < 7,
            None => true,
        },
{
    if m < 1 || m > 12 || d < 1 || d > 31 || w >= 7 {
        return None;
    }
    let date = Date { year: y, month: m as u8, day: d as u8 };
    if date.is_valid() {
        Some((date, w as u8))
    } else {
        None
    }
}

/// The machine's current local date and its offset from Monday, when that
/// date lies in the library's calendar; the decision itself is
/// `date_of_parts`.
pub fn current_local_date() -> (r: Option<(Date, u8)>)
    ensures
        match r {
            Some(p) => p.0.valid() && p.1 < 7,
            None => true,
        },
{
    let (y, m, d, w) = chrono_today();
    date_of_parts(y, m, d, w)
}

} // verus!
