//! Dates, times and their literals.

use mssql_odbc::conversion::calendar::{
    civil_from_days_since_0001, days_in_month, days_since_0001_from_civil, hms_from_ticks_100ns,
    CivilDate, DAYS_0001_TO_1900, MAX_DAYS_SINCE_0001,
};
use mssql_odbc::conversion::datetime::{
    is_valid_timezone_offset, parse_date_literal, parse_datetime_literal, parse_time_literal,
    DateTimeParts,
};

#[test]
fn civil_anchor_dates() {
    let civil = |days| {
        let d = civil_from_days_since_0001(days);
        (d.year, d.month, d.day)
    };
    assert_eq!(civil(0), (1, 1, 1));
    assert_eq!(civil(693_595), (1900, 1, 1));
    assert_eq!(civil(730_178), (2000, 2, 29));
    assert_eq!(civil(738_685), (2023, 6, 15));
    assert_eq!(civil(3_652_058), (9999, 12, 31));
}

#[test]
fn the_calendar_round_trips_at_its_boundaries() {
    for days in [
        0,
        1,
        DAYS_0001_TO_1900,
        730_178,
        738_685,
        MAX_DAYS_SINCE_0001,
    ] {
        let d = civil_from_days_since_0001(days);
        assert_eq!(
            days_since_0001_from_civil(d.year, d.month, d.day),
            Some(days),
            "day {days}"
        );
    }
}

#[test]
fn impossible_days_are_rejected_rather_than_rolled_forward() {
    for (y, m, d) in [
        (2024, 4u16, 31u16),
        (2023, 2, 29),
        (1900, 2, 29),
        (2024, 1, 0),
        (2024, 13, 1),
        (2024, 0, 1),
        (0, 1, 1),
        (10000, 1, 1),
    ] {
        assert_eq!(days_since_0001_from_civil(y, m, d), None, "{y}-{m}-{d}");
    }
    for y in [1700i16, 1800, 1900] {
        assert_eq!(days_since_0001_from_civil(y, 2, 29), None, "{y}-02-29");
    }
    for y in [1600i16, 2000, 1804, 2004, 2024, 2028] {
        assert!(days_since_0001_from_civil(y, 2, 29).is_some(), "{y}-02-29");
    }
    assert!(days_since_0001_from_civil(1601, 2, 28).is_some());
}

#[test]
fn the_accepted_literal_shapes_parse() {
    let date_only = parse_datetime_literal("2024-05-20").unwrap();
    assert!(date_only.has_date && !date_only.has_time);
    assert_eq!(
        (date_only.year, date_only.month, date_only.day),
        (2024, 5, 20)
    );

    let time_only = parse_datetime_literal("12:34:56").unwrap();
    assert!(time_only.has_time && !time_only.has_date);
    assert_eq!(
        (time_only.hour, time_only.minute, time_only.second),
        (12, 34, 56)
    );

    assert_eq!(
        parse_datetime_literal("2024-05-20 12:34:56"),
        parse_datetime_literal("2024-05-20T12:34:56")
    );

    let hhmm = parse_datetime_literal("12:34").unwrap();
    assert_eq!((hhmm.second, hhmm.fraction_ns, hhmm.scale), (0, 0, 0));
    let frac = parse_datetime_literal("12:34:56.000000").unwrap();
    assert_eq!((frac.fraction_ns, frac.scale), (0, 6));
    let ns = parse_datetime_literal("12:34:56.123456789").unwrap();
    assert_eq!((ns.fraction_ns, ns.scale), (123_456_789, 9));

    assert_eq!(
        parse_datetime_literal("  2024-05-20  "),
        parse_datetime_literal("2024-05-20")
    );
}

#[test]
fn an_offset_is_signed_and_bounded() {
    let plus = parse_datetime_literal("2024-05-20 12:34:56+05:30").unwrap();
    assert!(plus.has_tz);
    assert_eq!((plus.tz_hour, plus.tz_minute), (5, 30));

    let minus = parse_datetime_literal("2024-05-20 12:34:56-08:00").unwrap();
    assert_eq!((minus.tz_hour, minus.tz_minute), (-8, 0));

    assert_eq!(parse_datetime_literal("2024-05-20 12:34:56+15:00"), None);
    assert_eq!(parse_datetime_literal("2024-05-20 12:34:56+05:60"), None);
    assert_eq!(parse_datetime_literal("12:34:56+05:30"), None);
    assert_eq!(parse_datetime_literal("2024-05-20+05:30"), None);
}

#[test]
fn an_offset_is_bounded_on_the_total() {
    assert!(parse_datetime_literal("2024-05-20 12:34:56+14:00").is_some());
    assert!(parse_datetime_literal("2024-05-20 12:34:56-14:00").is_some());
    for bad in [
        "2024-05-20 12:34:56+14:01",
        "2024-05-20 12:34:56+14:30",
        "2024-05-20 12:34:56+14:59",
        "2024-05-20 12:34:56-14:01",
        "2024-05-20 12:34:56-14:30",
    ] {
        assert_eq!(parse_datetime_literal(bad), None, "{bad:?} was accepted");
    }
}

#[test]
fn malformed_literals_are_rejected() {
    for bad in [
        "",
        "   ",
        "abc",
        "2024-05-20 25:00:00",
        "2024-05-20 12:60:00",
        "2024-05-20 12:00:60",
        "2023-02-31",
        "+123-01-01",
        "+1:00:00",
        "2024-05-20 12:34:56.1234567890",
        "2024-05-20 12:34:56:78",
        "2024-05-20-01",
        "2024-05-20T",
        "2024-05-20T   ",
    ] {
        assert_eq!(parse_datetime_literal(bad), None, "{bad:?} was accepted");
    }
}

#[test]
fn the_permissive_shapes_stay_accepted() {
    for text in [
        "2024-5-20",
        "2023-6-5",
        "12:34",
        "2024-5-20 1:2:3",
        "12:00:00.",
        "2024-05-20T12:34:56.123",
    ] {
        assert!(
            parse_datetime_literal(text).is_some(),
            "{text:?} was rejected"
        );
    }
    assert_eq!(parse_datetime_literal("999-01-01"), None);
}

#[test]
fn days_and_dates_agree_over_a_span_of_years() {
    let mut expected: i64 = days_since_0001_from_civil(1899, 1, 1).unwrap();
    for year in 1899i16..=2001 {
        for month in 1u16..=12 {
            for day in 1..=days_in_month(year, month) {
                assert_eq!(days_since_0001_from_civil(year, month, day), Some(expected));
                let date = civil_from_days_since_0001(expected);
                assert_eq!((date.year, date.month, date.day), (year, month, day));
                expected += 1;
            }
        }
    }
}

#[test]
fn an_impossible_month_has_no_days() {
    assert_eq!(days_in_month(2024, 2), 29);
    assert_eq!(days_in_month(1900, 2), 28);
    assert_eq!(days_in_month(2024, 0), 0);
    assert_eq!(days_in_month(2024, 13), 0);
}

#[test]
fn ticks_are_split_into_a_time_of_day() {
    let last = hms_from_ticks_100ns(863_999_999_999);
    assert_eq!((last.hour, last.minute, last.second), (23, 59, 59));
    let first = hms_from_ticks_100ns(36_610_000_001);
    assert_eq!((first.hour, first.minute, first.second), (1, 1, 1));
}

#[test]
fn offsets_mix_no_signs() {
    assert!(is_valid_timezone_offset(-8, -30));
    assert!(!is_valid_timezone_offset(-8, 30));
    assert!(!is_valid_timezone_offset(8, -30));
    assert!(is_valid_timezone_offset(14, 0));
    assert!(!is_valid_timezone_offset(14, 1));
    assert!(!is_valid_timezone_offset(0, 60));
}

#[test]
fn the_parts_of_a_literal_parse_alone() {
    assert_eq!(
        parse_date_literal("2024-02-29"),
        Some(CivilDate { year: 2024, month: 2, day: 29 })
    );
    assert_eq!(parse_date_literal("2023-02-29"), None);
    let time = parse_time_literal("23:59:58.5").unwrap();
    assert_eq!((time.time.hour, time.time.minute, time.time.second), (23, 59, 58));
    assert_eq!(time.scale, 1);
    assert_eq!(parse_time_literal("24:00:00"), None);
}

#[test]
fn nothing_is_present_by_default() {
    let parts = DateTimeParts::default();
    assert!(!parts.has_date && !parts.has_time && !parts.has_tz);
    assert_eq!((parts.year, parts.hour, parts.fraction_ns), (0, 0, 0));
}

#[test]
fn either_separator_of_a_literal_will_do() {
    for (date, time) in [
        ("2024-02-29", "12:34:56.789"),
        ("2024-02-29", "12:34 +05:30"),
        ("2024-02-29", "12:34-14:00"),
        ("2024-02-29", "+05:30"),
        ("2024-02-30", "12:34"),
        ("12:34", "2024-02-29"),
    ] {
        assert_eq!(
            parse_datetime_literal(&format!("{date}T{time}")),
            parse_datetime_literal(&format!("{date} {time}")),
            "{date} {time}"
        );
    }
}

#[test]
fn what_a_literal_has_not_is_zero() {
    let date = parse_datetime_literal("2024-02-29").unwrap();
    assert_eq!(
        date,
        DateTimeParts { year: 2024, month: 2, day: 29, has_date: true, ..DateTimeParts::default() }
    );
    let time = parse_datetime_literal("23:59:59.999999999").unwrap();
    assert_eq!(
        time,
        DateTimeParts {
            hour: 23,
            minute: 59,
            second: 59,
            fraction_ns: 999_999_999,
            scale: 9,
            has_time: true,
            ..DateTimeParts::default()
        }
    );
}
