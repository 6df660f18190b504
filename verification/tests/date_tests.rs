use os_active::date::{
    civil_from_days, days_from_civil, days_from_civil_from_secs, format_local_datetime, local_day,
    local_secs, secs_since_epoch, today_days,
};

#[test]
fn epoch_and_known_days() {
    assert_eq!(days_from_civil(1970, 1, 1), 0);
    assert_eq!(days_from_civil(2026, 1, 1), 20454);
    assert_eq!(days_from_civil(2000, 2, 29), 11016);
    assert_eq!(days_from_civil(2024, 2, 29), 19782);
    assert_eq!(days_from_civil(1600, 3, 1), -135080);
    assert_eq!(days_from_civil(1969, 12, 31), -1);
}

#[test]
fn month_past_december_runs_on() {
    // the formula treats month 13 of 2025 as January 2026
    assert_eq!(days_from_civil(2025, 13, 1), 20454);
}

#[test]
fn civil_dates_of_day_numbers() {
    assert_eq!(civil_from_days(0), (1970, 1, 1));
    assert_eq!(civil_from_days(20454), (2026, 1, 1));
    assert_eq!(civil_from_days(-1), (1969, 12, 31));
    assert_eq!(civil_from_days(11016), (2000, 2, 29));
    assert_eq!(civil_from_days(-135080), (1600, 3, 1));
}

#[test]
fn day_to_date_and_back() {
    for z in [-800000i64, -135081, -1, 0, 59, 60, 11016, 20298, 2932896] {
        let (y, m, d) = civil_from_days(z);
        assert_eq!(days_from_civil(y, m, d), z);
    }
}

#[test]
fn date_to_day_and_back() {
    for (y, m, d) in [(2024i64, 2i64, 29i64), (1900, 2, 28), (1900, 3, 1), (2000, 12, 31), (-1, 1, 1)] {
        assert_eq!(civil_from_days(days_from_civil(y, m, d)), (y, m, d));
    }
}

#[test]
fn earlier_dates_have_smaller_numbers() {
    assert!(days_from_civil(2025, 7, 29) < days_from_civil(2025, 7, 30));
    assert!(days_from_civil(2025, 12, 31) < days_from_civil(2026, 1, 1));
    assert!(days_from_civil(2024, 2, 29) < days_from_civil(2024, 3, 1));
}

#[test]
fn seconds_to_days_floor() {
    assert_eq!(days_from_civil_from_secs(0), 0);
    assert_eq!(days_from_civil_from_secs(86399), 0);
    assert_eq!(days_from_civil_from_secs(86400), 1);
    assert_eq!(days_from_civil_from_secs(-1), -1);
    assert_eq!(days_from_civil_from_secs(-86400), -1);
    assert_eq!(days_from_civil_from_secs(-86401), -2);
}

#[test]
fn local_time_is_utc_plus_eight() {
    assert_eq!(local_secs(0), 28800);
    assert_eq!(local_secs(u64::MAX), i64::MAX);
    assert_eq!(local_day(1767225600), 20454);
    assert_eq!(local_day(1767196800 - 28801), 20453);
    assert_eq!(format_local_datetime(0), "1970-01-01 08:00:00");
    assert_eq!(format_local_datetime(1767225600), "2026-01-01 08:00:00");
    assert_eq!(format_local_datetime(1700000000), "2023-11-15 06:13:20");
}

#[test]
fn today_is_after_the_test_data() {
    assert!(today_days() > days_from_civil(2025, 1, 1));
}

#[test]
fn clock_before_epoch_counts_as_zero() {
    assert_eq!(secs_since_epoch(Some(1767225600)), 1767225600);
    assert_eq!(secs_since_epoch(None), 0);
}

#[test]
fn next_calendar_day_is_one_more() {
    assert_eq!(days_from_civil(2024, 2, 29) + 1, days_from_civil(2024, 3, 1));
    assert_eq!(days_from_civil(2023, 2, 28) + 1, days_from_civil(2023, 3, 1));
    assert_eq!(days_from_civil(2025, 12, 31) + 1, days_from_civil(2026, 1, 1));
    assert_eq!(days_from_civil(2026, 4, 30) + 1, days_from_civil(2026, 5, 1));
}
