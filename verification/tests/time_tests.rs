use chrono::TimeZone;
use process_dispatcher::dispatch_time::{
    berlin_day_of_millis, epoch_millis_of, parse_db_datetime, same_berlin_day_millis,
    CivilDateTime, DispatchTimeFormatter,
};

fn dt(
    year: u32,
    month: u32,
    day: u32,
    hour: u32,
    minute: u32,
    second: u32,
    millisecond: u32,
) -> CivilDateTime {
    CivilDateTime { year, month, day, hour, minute, second, millisecond }
}

#[test]
fn parse_plain_timestamp() {
    assert_eq!(
        parse_db_datetime("2024-06-01 07:00:00"),
        Some(dt(2024, 6, 1, 7, 0, 0, 0))
    );
    assert_eq!(
        parse_db_datetime("1970-01-01 00:00:00"),
        Some(dt(1970, 1, 1, 0, 0, 0, 0))
    );
    assert_eq!(
        parse_db_datetime("9999-12-31 23:59:59"),
        Some(dt(9999, 12, 31, 23, 59, 59, 0))
    );
}

#[test]
fn parse_fractional_seconds() {
    assert_eq!(
        parse_db_datetime("2024-06-01 07:00:00.123"),
        Some(dt(2024, 6, 1, 7, 0, 0, 123))
    );
    assert_eq!(
        parse_db_datetime("2024-06-01 07:00:00.1"),
        Some(dt(2024, 6, 1, 7, 0, 0, 100))
    );
    assert_eq!(
        parse_db_datetime("2024-06-01 07:00:00.12"),
        Some(dt(2024, 6, 1, 7, 0, 0, 120))
    );
    // Digits beyond the millisecond are dropped.
    assert_eq!(
        parse_db_datetime("2024-06-01 07:00:00.123999"),
        Some(dt(2024, 6, 1, 7, 0, 0, 123))
    );
    assert_eq!(
        parse_db_datetime("2024-06-01 07:00:00.000"),
        Some(dt(2024, 6, 1, 7, 0, 0, 0))
    );
}

#[test]
fn parse_rejects_malformed_strings() {
    assert_eq!(parse_db_datetime(""), None);
    assert_eq!(parse_db_datetime("2024-06-01"), None);
    assert_eq!(parse_db_datetime("2024-06-01T07:00:00"), None);
    assert_eq!(parse_db_datetime("2024/06/01 07:00:00"), None);
    assert_eq!(parse_db_datetime("2024-06-01 07:00:00."), None);
    assert_eq!(parse_db_datetime("2024-06-01 07:00:00.1234567890"), None);
    assert_eq!(parse_db_datetime("2024-06-01 07:00:0x"), None);
    assert_eq!(parse_db_datetime("2024-06-01 24:00:00"), None);
    assert_eq!(parse_db_datetime("2024-06-01 07:60:00"), None);
    assert_eq!(parse_db_datetime("2024-06-01 07:00:60"), None);
    assert_eq!(parse_db_datetime("2024-13-01 07:00:00"), None);
    assert_eq!(parse_db_datetime("2024-00-01 07:00:00"), None);
    assert_eq!(parse_db_datetime("2024-06-00 07:00:00"), None);
    assert_eq!(parse_db_datetime("2024-06-31 07:00:00"), None);
    assert_eq!(parse_db_datetime("1969-12-31 23:59:59"), None);
}

#[test]
fn parse_handles_leap_years() {
    assert!(parse_db_datetime("2024-02-29 00:00:00").is_some());
    assert_eq!(parse_db_datetime("2023-02-29 00:00:00"), None);
    assert_eq!(parse_db_datetime("1900-02-29 00:00:00"), None);
    assert!(parse_db_datetime("2000-02-29 00:00:00").is_some());
}

#[test]
fn epoch_conversion_exact_values() {
    assert_eq!(epoch_millis_of(&dt(1970, 1, 1, 0, 0, 0, 0)), 0);
    assert_eq!(epoch_millis_of(&dt(1970, 1, 2, 0, 0, 0, 0)), 86_400_000);
    assert_eq!(epoch_millis_of(&dt(1970, 1, 1, 0, 0, 1, 500)), 1_500);
    assert_eq!(
        epoch_millis_of(&dt(2024, 6, 1, 7, 0, 0, 0)),
        1_717_225_200_000
    );
    assert_eq!(
        epoch_millis_of(&dt(2024, 6, 1, 7, 0, 0, 123)),
        1_717_225_200_123
    );
}

#[test]
fn epoch_conversion_agrees_with_chrono() {
    for s in [
        "1970-01-01 00:00:00",
        "1999-12-31 23:59:59.999",
        "2016-02-29 12:30:45.5",
        "2024-06-01 07:00:00",
        "2038-01-19 03:14:07",
    ] {
        let parsed = parse_db_datetime(s).unwrap();
        let ms = epoch_millis_of(&parsed);
        let expected = chrono::NaiveDateTime::parse_from_str(s, "%Y-%m-%d %H:%M:%S%.f")
            .unwrap()
            .and_utc()
            .timestamp_millis();
        assert_eq!(ms, expected);
    }
}

#[test]
fn db_to_dt_parses_known_good_strings() {
    assert_eq!(
        DispatchTimeFormatter::db_to_dt("2024-06-01 07:00:00.250"),
        dt(2024, 6, 1, 7, 0, 0, 250)
    );
}

#[test]
fn now_dt_is_after_the_epoch() {
    assert!(DispatchTimeFormatter::now_dt() > 0);
}

#[test]
fn berlin_day_agrees_with_chrono_tz() {
    let epoch_date = chrono::NaiveDate::from_ymd_opt(1970, 1, 1).unwrap();
    for ms in [
        0i64,
        1_717_194_600_000, // 2024-05-31 22:30 UTC, already June 1st in Berlin
        1_717_189_200_000, // 2024-05-31 21:00 UTC, still May 31st in Berlin
        1_717_225_200_000, // 2024-06-01 07:00 UTC
        1_704_063_600_000, // 2023-12-31 23:00 UTC, New Year in Berlin
        951_868_800_000,   // 2000-02-29 UTC, during CET
    ] {
        let lib_day = berlin_day_of_millis(ms);
        let local = chrono_tz::Europe::Berlin
            .from_utc_datetime(&chrono::DateTime::from_timestamp_millis(ms).unwrap().naive_utc());
        let expected = local.date_naive().signed_duration_since(epoch_date).num_days();
        assert_eq!(lib_day, expected);
    }
}

#[test]
fn same_berlin_day_crosses_utc_midnight() {
    // 2024-05-31 22:30 UTC is 00:30 on June 1st in Berlin, the same Berlin
    // day as 2024-06-01 07:00 UTC (09:00 Berlin).
    assert!(same_berlin_day_millis(1_717_194_600_000, 1_717_225_200_000));
    // 2024-05-31 21:00 UTC is 23:00 on May 31st in Berlin: a different day.
    assert!(!same_berlin_day_millis(1_717_189_200_000, 1_717_225_200_000));
}

#[test]
fn berlin_midnight_counts_as_its_own_day() {
    // 2024-05-31 22:00:00.000 UTC is exactly 00:00:00.000 on June 1st in
    // Berlin: it belongs to June 1st, not May 31st.
    let midnight = 1_717_192_800_000i64;
    assert!(same_berlin_day_millis(midnight, 1_717_225_200_000));
    assert!(!same_berlin_day_millis(midnight - 1, midnight));
    assert_eq!(berlin_day_of_millis(midnight - 1) + 1, berlin_day_of_millis(midnight));
}
