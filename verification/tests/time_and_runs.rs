use blogworm::run::{format_timestamp, next_run_timestamps, parse_stored_timestamp, TimestampError};
use blogworm::time::{checked_parse_time, dash_date_text, page_time, parse_time, timestamp_of_date, timestamp_of_datetime};

#[test]
fn epoch_is_time_zero() {
    assert_eq!(timestamp_of_date(Some((1970, 1, 1))), Some(0));
    assert_eq!(timestamp_of_datetime(Some((1970, 1, 1, 23, 59, 59))), Some(86399));
}

#[test]
fn midnight_timestamps_of_known_dates() {
    assert_eq!(timestamp_of_date(Some((2023, 3, 5))), Some(1677974400));
    assert_eq!(timestamp_of_date(Some((2000, 3, 1))), Some(951868800));
    assert_eq!(timestamp_of_date(Some((2024, 2, 29))), Some(1709164800));
    assert_eq!(timestamp_of_date(Some((1900, 1, 1))), None);
}

#[test]
fn datetime_timestamp_adds_time_of_day() {
    assert_eq!(timestamp_of_datetime(Some((2023, 3, 5, 10, 20, 30))), Some(1678011630));
    assert_eq!(timestamp_of_datetime(Some((2023, 3, 5, 0, 0, 0))), timestamp_of_date(Some((2023, 3, 5))));
}

#[test]
fn later_date_has_later_timestamp() {
    assert!(timestamp_of_date(Some((2023, 3, 5))) < timestamp_of_date(Some((2023, 3, 6))));
    assert!(timestamp_of_date(Some((2023, 2, 28))) < timestamp_of_date(Some((2023, 3, 1))));
    assert!(timestamp_of_datetime(Some((2022, 12, 31, 23, 59, 59))) < timestamp_of_date(Some((2023, 1, 1))));
}

#[test]
fn first_source_reads_month_name_dates() {
    assert_eq!(checked_parse_time(1, "March 5, 2023"), Some(1677974400));
    assert_eq!(parse_time(1, "March 5, 2023".to_string()), 1677974400);
    assert_eq!(checked_parse_time(1, "2023-03-05"), None);
}

#[test]
fn second_source_reads_date_after_dash() {
    assert_eq!(checked_parse_time(2, "By Someone - 05/03/2023 "), Some(1677974400));
    assert_eq!(checked_parse_time(2, "no dash here"), Some(0));
    assert_eq!(checked_parse_time(2, "x - not a date"), None);
}

#[test]
fn third_source_reads_iso_times() {
    assert_eq!(checked_parse_time(3, "2023-03-05T10:20:30.123Z"), Some(1678011630));
    assert_eq!(checked_parse_time(3, "2023-03-05"), None);
}

#[test]
fn other_sources_read_the_time_the_page_shows() {
    assert_eq!(checked_parse_time(5, "2023-03-05T10:20:30+00:00"), Some(1678011630));
    assert_eq!(checked_parse_time(7, "2023-03-05T12:20:30+02:00"), Some(1678011630));
    assert_eq!(checked_parse_time(4, " 2023-03-05T10:20:30.123Z\n"), Some(1678011630));
    assert_eq!(checked_parse_time(10, "March 5, 2023"), Some(1677974400));
    assert_eq!(checked_parse_time(10, "Mar 5, 2023 "), Some(1677974400));
    assert_eq!(checked_parse_time(6, "2023-03-05"), Some(1677974400));
    assert_eq!(checked_parse_time(9, "05/03/2023"), Some(1677974400));
    assert_eq!(parse_time(8, "2023-03-05T10:20:30Z".to_string()), 1678011630);
}

#[test]
fn other_sources_unknown_time_is_zero() {
    assert_eq!(checked_parse_time(6, "whatever"), Some(0));
    assert_eq!(parse_time(7, String::new()), 0);
    assert_eq!(page_time("1969-12-31T00:00:00Z"), 0);
    assert_eq!(page_time("yesterday"), 0);
}

#[test]
fn dates_before_the_epoch_are_refused() {
    assert_eq!(checked_parse_time(1, "March 5, 1969"), None);
    assert_eq!(timestamp_of_date(Some((1969, 12, 31))), None);
    assert_eq!(timestamp_of_date(Some((1970, 1, 2))), Some(86400));
    assert_eq!(timestamp_of_date(None), None);
    assert_eq!(timestamp_of_datetime(Some((1970, 1, 1, 0, 0, 1))), Some(1));
}

#[test]
fn dash_date_text_takes_second_piece_trimmed() {
    assert_eq!(dash_date_text("a - b - c"), Some("b".to_string()));
    assert_eq!(dash_date_text("a- \t05/03/2023\n"), Some("05/03/2023".to_string()));
    assert_eq!(dash_date_text("abc"), None);
}

#[test]
fn stored_timestamp_round_trip() {
    for t in [0u64, 7, 10, 1677974400, u64::MAX] {
        let text = format_timestamp(t);
        assert_eq!(text, t.to_string());
        assert_eq!(parse_stored_timestamp(&text), Some(t));
        assert_eq!(next_run_timestamps(Some(&text), 99), Ok((t, 99)));
    }
}

#[test]
fn stored_timestamp_parsing() {
    assert_eq!(parse_stored_timestamp("  42\n"), Some(42));
    assert_eq!(parse_stored_timestamp("+7"), Some(7));
    assert_eq!(parse_stored_timestamp(""), None);
    assert_eq!(parse_stored_timestamp("+"), None);
    assert_eq!(parse_stored_timestamp("-1"), None);
    assert_eq!(parse_stored_timestamp("12a"), None);
    assert_eq!(parse_stored_timestamp("18446744073709551615"), Some(u64::MAX));
    assert_eq!(parse_stored_timestamp("18446744073709551616"), None);
    assert_eq!(parse_stored_timestamp("\u{3000}5\u{a0}"), Some(5));
}

#[test]
fn first_run_and_bad_file() {
    assert_eq!(next_run_timestamps(None, 1234), Ok((0, 1234)));
    assert_eq!(next_run_timestamps(Some("garbage"), 1234), Err(TimestampError::InvalidData));
}
