//! Publication times of posts: the date text of a post page, read with
//! chrono in the format its source uses, as a UNIX timestamp.
use vstd::prelude::*;

use chrono::{DateTime, Datelike, NaiveDate, NaiveDateTime, Timelike};

use crate::calendar::{in_chrono_range, is_valid_date, unix_seconds};
use crate::text::{chars_of, split, split_exec, string_of, trim, trim_exec};

verus! {

/// What chrono's `NaiveDate::parse_from_str(s, fmt)` reads: the year,
/// month and day of the date, or `None` when it refuses the text.
pub uninterp spec fn chrono_parse_date(s: Seq<char>, fmt: Seq<char>) -> Option<(i32, u32, u32)>;

/// What chrono's `NaiveDateTime::parse_from_str(s, fmt)` reads: year,
/// month, day, hour, minute and second, or `None` when it refuses the text.
pub uninterp spec fn chrono_parse_datetime(s: Seq<char>, fmt: Seq<char>) -> Option<
    (i32, u32, u32, u32, u32, u32),
>;

/// What chrono's `DateTime::parse_from_rfc3339(s)` reads, as its
/// `timestamp()`, or `None` when it refuses the text.
pub uninterp spec fn chrono_rfc3339_timestamp(s: Seq<char>) -> Option<i64>;

/// Calls chrono's `NaiveDate::parse_from_str(s, fmt)` and hands back the
/// date's year, month and day (`Datelike`). Claimed: the result is the
/// named result of that parse, and a date chrono builds is a valid
/// calendar date between `NaiveDate::MIN` and `NaiveDate::MAX`. Which texts
/// chrono accepts, and which date it reads from them, is not stated.
#[verifier::external_body]
fn parse_naive_date(s: &str, fmt: &str) -> (r: Option<(i32, u32, u32)>)
    ensures
        r == chrono_parse_date(s@, fmt@),
        r matches Some((y, m, d)) ==> is_valid_date(y as int, m as int, d as int)
            && in_chrono_range(y as int),
{
    match NaiveDate::parse_from_str(s, fmt) {
        Ok(date) => Some((date.year(), date.month(), date.day())),
        Err(_) => None,
    }
}

/// Calls chrono's `NaiveDateTime::parse_from_str(s, fmt)` and hands back
/// its date and its hour, minute and second (`Datelike`, `Timelike`).
/// Claimed: the result is the named result of that parse; the date is a
/// valid calendar date between `NaiveDate::MIN` and `NaiveDate::MAX`; the
/// hour is below 24 and minute and second below 60 (chrono keeps a leap
/// second in the nanoseconds, not in `second()`). Which texts chrono
/// accepts, and what it reads from them, is not stated.
#[verifier::external_body]
fn parse_naive_datetime(s: &str, fmt: &str) -> (r: Option<(i32, u32, u32, u32, u32, u32)>)
    ensures
        r == chrono_parse_datetime(s@, fmt@),
        r matches Some((y, m, d, h, mi, sec)) ==> is_valid_date(y as int, m as int, d as int)
            && in_chrono_range(y as int) && h < 24 && mi < 60 && sec < 60,
{
    match NaiveDateTime::parse_from_str(s, fmt) {
        Ok(t) => Some((t.year(), t.month(), t.day(), t.hour(), t.minute(), t.second())),
        Err(_) => None,
    }
}

/// Calls chrono's `DateTime::parse_from_rfc3339(s)` and hands back the
/// `timestamp()` of what it reads. Claimed: the result is the named result
/// of these calls; which texts chrono accepts is not stated.
#[verifier::external_body]
fn parse_rfc3339_timestamp(s: &str) -> (r: Option<i64>)
    ensures
        r == chrono_rfc3339_timestamp(s@),
{
    match DateTime::parse_from_rfc3339(s) {
        Ok(t) => Some(t.timestamp()),
        Err(_) => None,
    }
}

/// Builds the date and time with chrono's `NaiveDate::from_ymd_opt` and
/// `NaiveDate::and_hms_opt` (both defined on these arguments), and takes
/// `NaiveDateTime::and_utc` and `DateTime::timestamp`. Claimed: the result
/// is what `DateTime::timestamp` documents, the number of non-leap seconds
/// from 1970-01-01 00:00:00 UTC to that date and time.
#[verifier::external_body]
fn chrono_timestamp(y: i32, m: u32, d: u32, h: u32, mi: u32, s: u32) -> (r: i64)
    requires
        is_valid_date(y as int, m as int, d as int),
        in_chrono_range(y as int),
        h < 24,
        mi < 60,
        s < 60,
    ensures
        r == unix_seconds(y as int, m as int, d as int, h as int, mi as int, s as int),
{
    NaiveDate::from_ymd_opt(y, m, d).unwrap().and_hms_opt(h, mi, s).unwrap().and_utc().timestamp()
}

/// The timestamp of midnight UTC of a parsed date, when it is not before
/// the epoch.
pub open spec fn spec_date_timestamp(parsed: Option<(i32, u32, u32)>) -> Option<u64> {
    match parsed {
        Some((y, m, d)) => {
            let t = unix_seconds(y as int, m as int, d as int, 0, 0, 0);
            if 0 <= t <= u64::MAX {
                Some(t as u64)
            } else {
                None
            }
        },
        None => None,
    }
}

/// The timestamp of a parsed date and time (UTC), when it is not before
/// the epoch.
pub open spec fn spec_datetime_timestamp(parsed: Option<(i32, u32, u32, u32, u32, u32)>) -> Option<
    u64,
> {
    match parsed {
        Some((y, m, d, h, mi, s)) => {
            let t = unix_seconds(y as int, m as int, d as int, h as int, mi as int, s as int);
            if 0 <= t <= u64::MAX {
                Some(t as u64)
            } else {
                None
            }
        },
        None => None,
    }
}

/// The date text of a post of the second source: the text after the first
/// `"- "` and before the next one, trimmed; `None` when there is no `"- "`.
pub open spec fn spec_dash_date_text(s: Seq<char>) -> Option<Seq<char>> {
    let pieces = split(s, "- "@);
    if pieces.len() >= 2 {
        Some(trim(pieces[1]))
    } else {
        None
    }
}

/// A timestamp that is not before the epoch.
pub open spec fn spec_nonneg(t: Option<i64>) -> Option<u64> {
    match t {
        Some(x) => if x >= 0 {
            Some(x as u64)
        } else {
            None
        },
        None => None,
    }
}

/// The first of `a`, `b`, `c`, `d`, `e` that is present; 0 when none is.
pub open spec fn first_present(
    a: Option<u64>,
    b: Option<u64>,
    c: Option<u64>,
    d: Option<u64>,
    e: Option<u64>,
) -> u64 {
    if a is Some {
        a->0
    } else if b is Some {
        b->0
    } else if c is Some {
        c->0
    } else if d is Some {
        d->0
    } else if e is Some {
        e->0
    } else {
        0
    }
}

/// The time a page of the other sources shows in the text `t`: the first
/// of these readings that chrono accepts and that is not before the epoch:
/// an RFC 3339 time ("2023-03-05T10:20:30+00:00", as `datetime` and
/// `content` attributes hold it), an ISO time with milliseconds,
/// "March 5, 2023" (or "Mar 5, 2023"), "2023-03-05", "05/03/2023"; 0 (time
/// unknown) when none is.
pub open spec fn spec_page_time(t: Seq<char>) -> u64 {
    first_present(
        spec_nonneg(chrono_rfc3339_timestamp(t)),
        spec_datetime_timestamp(chrono_parse_datetime(t, "%Y-%m-%dT%H:%M:%S%.3fZ"@)),
        spec_date_timestamp(chrono_parse_date(t, "%B %e, %Y"@)),
        spec_date_timestamp(chrono_parse_date(t, "%Y-%m-%d"@)),
        spec_date_timestamp(chrono_parse_date(t, "%d/%m/%Y"@)),
    )
}

/// The timestamp of the post time text `s` of a post of source `postid`,
/// or `None` where no timestamp can be read from it:
/// - 1: "March 5, 2023", at midnight UTC;
/// - 2: the date "05/03/2023" after the first `"- "`, at midnight UTC (0
///   when the text has no `"- "`);
/// - 3: an ISO time with milliseconds, "2023-03-05T10:20:30.123Z";
/// - any other source: the time the trimmed text shows
///   ([`spec_page_time`]).
pub open spec fn spec_parse_time(postid: u32, s: Seq<char>) -> Option<u64> {
    if postid == 1 {
        spec_date_timestamp(chrono_parse_date(s, "%B %e, %Y"@))
    } else if postid == 2 {
        match spec_dash_date_text(s) {
            Some(t) => spec_date_timestamp(chrono_parse_date(t, "%d/%m/%Y"@)),
            None => Some(0),
        }
    } else if postid == 3 {
        spec_datetime_timestamp(chrono_parse_datetime(s, "%Y-%m-%dT%H:%M:%S%.3fZ"@))
    } else {
        Some(spec_page_time(trim(s)))
    }
}

/// The timestamp of midnight UTC of a date that chrono parsed, or `None`
/// for a refused text or a date before the epoch.
pub fn timestamp_of_date(parsed: Option<(i32, u32, u32)>) -> (r: Option<u64>)
    requires
        parsed matches Some((y, m, d)) ==> is_valid_date(y as int, m as int, d as int)
            && in_chrono_range(y as int),
    ensures
        r == spec_date_timestamp(parsed),
{
    match parsed {
        Some((y, m, d)) => {
            let t = chrono_timestamp(y, m, d, 0, 0, 0);
            if t >= 0 {
                Some(t as u64)
            } else {
                None
            }
        },
        None => None,
    }
}

/// The timestamp of a date and time that chrono parsed, or `None` for a
/// refused text or a time before the epoch.
pub fn timestamp_of_datetime(parsed: Option<(i32, u32, u32, u32, u32, u32)>) -> (r: Option<u64>)
    requires
        parsed matches Some((y, m, d, h, mi, s)) ==> is_valid_date(y as int, m as int, d as int)
            && in_chrono_range(y as int) && h < 24 && mi < 60 && s < 60,
    ensures
        r == spec_datetime_timestamp(parsed),
{
    match parsed {
        Some((y, m, d, h, mi, s)) => {
            let t = chrono_timestamp(y, m, d, h, mi, s);
            if t >= 0 {
                Some(t as u64)
            } else {
                None
            }
        },
        None => None,
    }
}

/// The trimmed text between the first and the second `"- "` of `s`.
pub fn dash_date_text(s: &str) -> (r: Option<String>)
    ensures
        match r {
            Some(t) => spec_dash_date_text(s@) == Some(t@),
            None => spec_dash_date_text(s@) is None,
        },
{
    let chars = chars_of(s);
    let sep = chars_of("- ");
    proof {
        reveal_strlit("- ");
    }
    let pieces = split_exec(chars.as_slice(), sep.as_slice());
    proof {
        assert(pieces@.map_values(|p: Vec<char>| p@).len() == pieces@.len());
    }
    if pieces.len() >= 2 {
        let trimmed = trim_exec(pieces[1].as_slice());
        assert(pieces@.map_values(|p: Vec<char>| p@)[1] == pieces@[1]@);
        Some(string_of(trimmed.as_slice()))
    } else {
        None
    }
}

fn parse_time_impl(postid: u32, html_time: &str) -> (r: Option<u64>)
    ensures
        r == spec_parse_time(postid, html_time@),
{
    if postid == 1 {
        timestamp_of_date(parse_naive_date(html_time, "%B %e, %Y"))
    } else if postid == 2 {
        match dash_date_text(html_time) {
            Some(t) => timestamp_of_date(parse_naive_date(t.as_str(), "%d/%m/%Y")),
            None => Some(0),
        }
    } else if postid == 3 {
        timestamp_of_datetime(parse_naive_datetime(html_time, "%Y-%m-%dT%H:%M:%S%.3fZ"))
    } else {
        let chars = chars_of(html_time);
        let trimmed = string_of(trim_exec(chars.as_slice()).as_slice());
        Some(page_time(trimmed.as_str()))
    }
}

/// The time that a page of the other sources shows in the text `t` (see
/// [`spec_page_time`]); 0 when it shows none that can be read.
pub fn page_time(t: &str) -> (r: u64)
    ensures
        r == spec_page_time(t@),
{
    let rfc = match parse_rfc3339_timestamp(t) {
        Some(x) => if x >= 0 {
            Some(x as u64)
        } else {
            None
        },
        None => None,
    };
    if let Some(x) = rfc {
        return x;
    }
    if let Some(x) = timestamp_of_datetime(parse_naive_datetime(t, "%Y-%m-%dT%H:%M:%S%.3fZ")) {
        return x;
    }
    if let Some(x) = timestamp_of_date(parse_naive_date(t, "%B %e, %Y")) {
        return x;
    }
    if let Some(x) = timestamp_of_date(parse_naive_date(t, "%Y-%m-%d")) {
        return x;
    }
    if let Some(x) = timestamp_of_date(parse_naive_date(t, "%d/%m/%Y")) {
        return x;
    }
    0
}

/// The creation timestamp of a post of source `postid` from its time text:
/// sources 1 and 2 give midnight UTC of a date ("March 5, 2023"; the
/// "05/03/2023" after a `"- "`), source 3 an ISO-8601 UTC time with
/// milliseconds, every other source the time its text shows (see
/// [`spec_page_time`]). Defined where the text can be read.
pub fn parse_time(postid: u32, html_time: String) -> (r: u64)
    requires
        spec_parse_time(postid, html_time@) is Some,
    ensures
        Some(r) == spec_parse_time(postid, html_time@),
{
    match parse_time_impl(postid, html_time.as_str()) {
        Some(t) => t,
        None => 0,
    }
}

/// [`parse_time`] where the time text can be read, `None` elsewhere.
pub fn checked_parse_time(postid: u32, html_time: &str) -> (r: Option<u64>)
    ensures
        r == spec_parse_time(postid, html_time@),
{
    if parse_time_impl(postid, html_time).is_some() {
        Some(parse_time(postid, html_time.to_owned()))
    } else {
        None
    }
}

/// A date read as a date and the same date read as a date and time agree:
/// midnight is a whole number of days after the epoch, and a time of day
/// adds its seconds to it.
pub proof fn lemma_date_and_datetime_agree(y: i32, m: u32, d: u32, h: u32, mi: u32, s: u32)
    requires
        is_valid_date(y as int, m as int, d as int),
        h < 24,
        mi < 60,
        s < 60,
    ensures
        spec_date_timestamp(Some((y, m, d))) == spec_datetime_timestamp(Some((y, m, d, 0, 0, 0))),
        spec_date_timestamp(Some((y, m, d))) matches Some(t) ==> t % 86400 == 0 && (t + h * 3600
            + mi * 60 + s <= u64::MAX ==> spec_datetime_timestamp(Some((y, m, d, h, mi, s))) == Some(
            (t + h * 3600 + mi * 60 + s) as u64,
        )),
{
    let days = crate::calendar::days_since_epoch(y as int, m as int, d as int);
    assert((days * 86400) % 86400 == 0) by (nonlinear_arith);
}

} // verus!
