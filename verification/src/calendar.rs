//! The proleptic Gregorian calendar and what a UNIX timestamp is: the
//! number of non-leap seconds from 1970-01-01 00:00:00 UTC to a civil date
//! and time.
use vstd::prelude::*;

verus! {

/// Gregorian leap year.
pub open spec fn is_leap_year(y: int) -> bool {
    (y % 4 == 0 && y % 100 != 0) || y % 400 == 0
}

/// Days in year `y`.
pub open spec fn days_in_year(y: int) -> int {
    if is_leap_year(y) {
        366
    } else {
        365
    }
}

/// Days in month `m` (1 to 12) of year `y`.
pub open spec fn days_in_month(y: int, m: int) -> int {
    if m == 2 {
        if is_leap_year(y) {
            29
        } else {
            28
        }
    } else if m == 4 || m == 6 || m == 9 || m == 11 {
        30
    } else {
        31
    }
}

/// `y-m-d` names a day of the calendar.
pub open spec fn is_valid_date(y: int, m: int, d: int) -> bool {
    1 <= m <= 12 && 1 <= d <= days_in_month(y, m)
}

/// `y` is a year that chrono's `NaiveDate` can hold (`NaiveDate::MIN` is
/// January 1, 262144 BCE, `NaiveDate::MAX` December 31, 262142 CE).
pub open spec fn in_chrono_range(y: int) -> bool {
    -262143 <= y <= 262142
}

/// Days from 1970-01-01 to January 1st of year `y` (negative before 1970).
pub open spec fn days_before_year(y: int) -> int
    decreases (if y >= 1970 {
        y - 1970
    } else {
        1970 - y
    }),
{
    if y == 1970 {
        0
    } else if y > 1970 {
        days_before_year(y - 1) + days_in_year(y - 1)
    } else {
        days_before_year(y + 1) - days_in_year(y)
    }
}

/// Days from January 1st of year `y` to the first day of month `m`.
pub open spec fn days_before_month(y: int, m: int) -> int
    decreases m,
{
    if m <= 1 {
        0
    } else {
        days_before_month(y, m - 1) + days_in_month(y, m - 1)
    }
}

/// Days from 1970-01-01 to `y-m-d`.
pub open spec fn days_since_epoch(y: int, m: int, d: int) -> int {
    days_before_year(y) + days_before_month(y, m) + d - 1
}

/// The UNIX timestamp of `y-m-d` at `h:mi:s` UTC.
pub open spec fn unix_seconds(y: int, m: int, d: int, h: int, mi: int, s: int) -> int {
    days_since_epoch(y, m, d) * 86400 + h * 3600 + mi * 60 + s
}

/// Days before each month, in closed form.
proof fn lemma_days_before_month_table(y: int, m: int)
    requires
        1 <= m <= 13,
    ensures
        days_before_month(y, m) == (if m == 1 {
            0int
        } else if m == 2 {
            31int
        } else if m == 3 {
            59int
        } else if m == 4 {
            90int
        } else if m == 5 {
            120int
        } else if m == 6 {
            151int
        } else if m == 7 {
            181int
        } else if m == 8 {
            212int
        } else if m == 9 {
            243int
        } else if m == 10 {
            273int
        } else if m == 11 {
            304int
        } else if m == 12 {
            334int
        } else {
            365int
        }) + (if is_leap_year(y) && m > 2 {
            1int
        } else {
            0int
        }),
{
    reveal_with_fuel(days_before_month, 13);
}

proof fn lemma_days_before_year_step(y: int)
    ensures
        days_before_year(y + 1) == days_before_year(y) + days_in_year(y),
{
}

proof fn lemma_days_before_year_monotone(y1: int, y2: int)
    requires
        y1 < y2,
    ensures
        days_before_year(y1) + days_in_year(y1) <= days_before_year(y2),
    decreases y2 - y1,
{
    lemma_days_before_year_step(y1);
    if y1 + 1 < y2 {
        lemma_days_before_year_monotone(y1 + 1, y2);
    }
}

/// Timestamps are ordered as the dates are: of two valid dates, the later
/// one (by year, then month, then day) is the later day since the epoch.
pub proof fn lemma_later_date_later_day(y1: int, m1: int, d1: int, y2: int, m2: int, d2: int)
    requires
        is_valid_date(y1, m1, d1),
        is_valid_date(y2, m2, d2),
        y1 < y2 || (y1 == y2 && m1 < m2) || (y1 == y2 && m1 == m2 && d1 < d2),
    ensures
        days_since_epoch(y1, m1, d1) < days_since_epoch(y2, m2, d2),
        unix_seconds(y1, m1, d1, 23, 59, 59) < unix_seconds(y2, m2, d2, 0, 0, 0),
{
    lemma_days_before_month_table(y1, m1);
    lemma_days_before_month_table(y1, m1 + 1);
    lemma_days_before_month_table(y2, m2);
    if y1 < y2 {
        lemma_days_before_year_monotone(y1, y2);
    }
}

} // verus!
