//! The timestamp of the last run: how it is written to, and read back
//! from, the timestamp file, and what a run learns from it.
use vstd::prelude::*;

use crate::decimal::{all_digits, decimal, decimal_exec, is_digit, lemma_decimal, parse_u64, parse_u64_exec};
use crate::text::{chars_of, string_of, trim, trim_end, trim_exec, trim_start};

verus! {

/// Why the stored timestamp could not be used.
#[derive(Debug, Clone, Copy, PartialEq, Eq, Structural)]
pub enum TimestampError {
    /// The file holds something other than a decimal `u64`.
    InvalidData,
}

/// The timestamp that the file contents `contents` hold: the trimmed text
/// read as a `u64`.
pub open spec fn spec_stored_timestamp(contents: Seq<char>) -> Option<u64> {
    parse_u64(trim(contents))
}

/// What a run learns from the timestamp file: `None` when no file existed
/// (first run: everything since the epoch is new), else the timestamp it
/// holds. The pair is (last run, this run).
pub open spec fn spec_next_run(stored: Option<Seq<char>>, now: u64) -> Result<
    (u64, u64),
    TimestampError,
> {
    match stored {
        None => Ok((0, now)),
        Some(contents) => match spec_stored_timestamp(contents) {
            Some(last) => Ok((last, now)),
            None => Err(TimestampError::InvalidData),
        },
    }
}

/// The text written to the timestamp file for `timestamp`.
pub fn format_timestamp(timestamp: u64) -> (s: String)
    ensures
        s@ == decimal(timestamp as nat),
{
    let digits = decimal_exec(timestamp);
    string_of(digits.as_slice())
}

/// The timestamp held by the timestamp file contents, if they hold one.
pub fn parse_stored_timestamp(contents: &str) -> (r: Option<u64>)
    ensures
        r == spec_stored_timestamp(contents@),
{
    let chars = chars_of(contents);
    let trimmed = trim_exec(chars.as_slice());
    parse_u64_exec(trimmed.as_slice())
}

/// The (last run, this run) timestamps, given the timestamp file contents
/// (`None` when there was no file) and the current time.
pub fn next_run_timestamps(stored: Option<&str>, now: u64) -> (r: Result<(u64, u64), TimestampError>)
    ensures
        r == spec_next_run(
            match stored {
                Some(s) => Some(s@),
                None => None,
            },
            now,
        ),
{
    match stored {
        None => Ok((0, now)),
        Some(contents) => match parse_stored_timestamp(contents) {
            Some(last) => Ok((last, now)),
            None => Err(TimestampError::InvalidData),
        },
    }
}

proof fn lemma_trim_digits(s: Seq<char>)
    requires
        s.len() >= 1,
        all_digits(s),
    ensures
        trim(s) == s,
{
    assert(is_digit(s[0]));
    assert(is_digit(s[s.len() - 1]));
    assert(trim_start(s) == s);
    assert(trim_end(s) == s);
}

/// What a run writes to the timestamp file is what the next run reads
/// back: the stored text of `timestamp` parses to `timestamp`.
pub proof fn lemma_stored_timestamp_roundtrip(timestamp: u64)
    ensures
        spec_stored_timestamp(decimal(timestamp as nat)) == Some(timestamp),
{
    lemma_decimal(timestamp as nat);
    lemma_trim_digits(decimal(timestamp as nat));
    let d = decimal(timestamp as nat);
    assert(is_digit(d[0]));
}

/// The run after a run at `written` takes `written` as its last run,
/// whatever the time `now` of that next run.
pub proof fn lemma_next_run_reads_previous_run(written: u64, now: u64)
    ensures
        spec_next_run(Some(decimal(written as nat)), now) == Ok::<(u64, u64), TimestampError>(
            (written, now),
        ),
{
    lemma_stored_timestamp_roundtrip(written);
}

} // verus!
