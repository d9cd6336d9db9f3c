use yaml_rs::dump::{format_date, format_datetime};
use yaml_rs::host::{HostDateTime, HostZone};
use yaml_rs::datetime::{
    find_separator, find_zone_mark, is_datetime, make_offset, parse_date, parse_datetime,
    parse_fraction, parse_offset, parse_time, parse_zone, read_number, skip_spaces_back,
    zone_mark_at, Date, DateTime, Time, Timestamp, Zone,
};

fn date(year: i32, month: u8, day: u8) -> Date {
    Date { year, month, day }
}

fn time(hour: u8, minute: u8, second: u8, microsecond: u32) -> Time {
    Time { hour, minute, second, microsecond }
}

fn stamp(d: Date, t: Time, zone: Option<Zone>) -> Option<Timestamp> {
    Some(Timestamp::DateTime(DateTime { date: d, time: t, zone }))
}

#[test]
fn a_bare_date() {
    assert_eq!(parse_datetime("2024-01-02"), Some(Timestamp::Date(date(2024, 1, 2))));
    assert_eq!(parse_datetime("0001-12-31"), Some(Timestamp::Date(date(1, 12, 31))));
}

#[test]
fn a_utc_datetime() {
    assert_eq!(
        parse_datetime("2024-01-02T03:04:05Z"),
        stamp(date(2024, 1, 2), time(3, 4, 5, 0), Some(Zone::Utc))
    );
}

#[test]
fn a_datetime_with_fraction_and_offset() {
    assert_eq!(
        parse_datetime("2024-01-02T03:04:05.5+02:00"),
        stamp(
            date(2024, 1, 2),
            time(3, 4, 5, 500_000),
            Some(Zone::Offset { days: 0, seconds: 7200 })
        )
    );
}

#[test]
fn offsets_west_of_utc_wrap_into_the_day_before() {
    assert_eq!(
        parse_datetime("2024-01-02 03:04:05 -05:30"),
        stamp(
            date(2024, 1, 2),
            time(3, 4, 5, 0),
            Some(Zone::Offset { days: -1, seconds: 66_600 })
        )
    );
    assert_eq!(
        parse_datetime("2024-01-02T03:04:05-02:00"),
        stamp(
            date(2024, 1, 2),
            time(3, 4, 5, 0),
            Some(Zone::Offset { days: -1, seconds: 79_200 })
        )
    );
    assert_eq!(
        parse_datetime("2024-01-02T03:04:05-00:00"),
        stamp(date(2024, 1, 2), time(3, 4, 5, 0), Some(Zone::Offset { days: 0, seconds: 0 }))
    );
}

#[test]
fn naive_datetimes() {
    assert_eq!(
        parse_datetime("2024-01-02T03:04"),
        stamp(date(2024, 1, 2), time(3, 4, 0, 0), None)
    );
    assert_eq!(
        parse_datetime("2024-01-02t03:04:05"),
        stamp(date(2024, 1, 2), time(3, 4, 5, 0), None)
    );
    assert_eq!(
        parse_datetime("2024-01-02 03:04:05.000001"),
        stamp(date(2024, 1, 2), time(3, 4, 5, 1), None)
    );
    assert_eq!(
        parse_datetime("2024-01-02\t03:04:05"),
        stamp(date(2024, 1, 2), time(3, 4, 5, 0), None)
    );
}

#[test]
fn fractions_are_padded_on_the_right_and_cut_at_six() {
    assert_eq!(parse_fraction(b"5"), Some(500_000));
    assert_eq!(parse_fraction(b"05"), Some(50_000));
    assert_eq!(parse_fraction(b"123456"), Some(123_456));
    assert_eq!(parse_fraction(b"1234567"), Some(123_456));
    assert_eq!(parse_fraction(b"000001"), Some(1));
    assert_eq!(parse_fraction(b""), Some(0));
    assert_eq!(parse_fraction(b"12a"), None);
    assert_eq!(parse_fraction(b"1 "), None);
    assert_eq!(
        parse_datetime("2024-01-02T03:04:05.1234567Z"),
        stamp(date(2024, 1, 2), time(3, 4, 5, 123_456), Some(Zone::Utc))
    );
}

#[test]
fn offset_forms() {
    assert_eq!(parse_offset(b"5"), Some((5, 0)));
    assert_eq!(parse_offset(b"05"), Some((5, 0)));
    assert_eq!(parse_offset(b"5:30"), Some((5, 30)));
    assert_eq!(parse_offset(b"05:30"), Some((5, 30)));
    assert_eq!(parse_offset(b"0530"), Some((5, 30)));
    assert_eq!(parse_offset(b""), None);
    assert_eq!(parse_offset(b"053"), None);
    assert_eq!(parse_offset(b"05:3"), None);
    assert_eq!(parse_offset(b"05:"), None);
    assert_eq!(parse_offset(b":30"), None);
    assert_eq!(parse_offset(b"123:00"), None);
    assert_eq!(parse_offset(b"0x:00"), None);
    assert_eq!(parse_offset(b"-5"), None);
    assert_eq!(parse_offset(b"05:30 "), None);
    assert_eq!(parse_offset(b"05:30:00"), None);
}

#[test]
fn zones() {
    assert_eq!(parse_zone(b"Z"), Some(Zone::Utc));
    assert_eq!(parse_zone(b"+02:00"), Some(Zone::Offset { days: 0, seconds: 7200 }));
    assert_eq!(parse_zone(b"+5"), Some(Zone::Offset { days: 0, seconds: 18_000 }));
    assert_eq!(parse_zone(b"-0530"), Some(Zone::Offset { days: -1, seconds: 66_600 }));
    assert_eq!(parse_zone(b"+24:00"), Some(Zone::Offset { days: 1, seconds: 0 }));
    assert_eq!(parse_zone(b"-24:00"), Some(Zone::Offset { days: -1, seconds: 0 }));
    assert_eq!(parse_zone(b"z"), None);
    assert_eq!(parse_zone(b"Z05"), None);
    assert_eq!(parse_zone(b""), None);
    assert_eq!(parse_zone(b"+"), None);
    assert_eq!(parse_zone(b"02:00"), None);
    assert_eq!(make_offset(false, 1, 30), Zone::Offset { days: 0, seconds: 5400 });
    assert_eq!(make_offset(true, 1, 30), Zone::Offset { days: -1, seconds: 81_000 });
    assert_eq!(make_offset(true, 0, 0), Zone::Offset { days: 0, seconds: 0 });
    assert_eq!(make_offset(false, 99, 99), Zone::Offset { days: 4, seconds: 16_740 });
}

#[test]
fn times() {
    assert_eq!(parse_time(b"03:04"), Some(time(3, 4, 0, 0)));
    assert_eq!(parse_time(b"03:04:05"), Some(time(3, 4, 5, 0)));
    assert_eq!(parse_time(b"03:04:05.25"), Some(time(3, 4, 5, 250_000)));
    assert_eq!(parse_time(b"03:04:05."), Some(time(3, 4, 5, 0)));
    assert_eq!(parse_time(b"99:99:99"), Some(time(99, 99, 99, 0)));
    assert_eq!(parse_time(b"3:04"), None);
    assert_eq!(parse_time(b"03-04"), None);
    assert_eq!(parse_time(b"03:04:"), None);
    assert_eq!(parse_time(b"03:04:5"), None);
    assert_eq!(parse_time(b"03:04x"), None);
    assert_eq!(parse_time(b"03:04:05x"), None);
    assert_eq!(parse_time(b"03:04:05.1x"), None);
    assert_eq!(parse_time(b"0a:04"), None);
    assert_eq!(parse_time(b""), None);
}

#[test]
fn malformed_timestamps_are_declined() {
    assert_eq!(parse_datetime(""), None);
    assert_eq!(parse_datetime("2024-01-0"), None);
    assert_eq!(parse_datetime("2024-1-002"), None);
    assert_eq!(parse_datetime("2024/01/02"), None);
    assert_eq!(parse_datetime("20x4-01-02"), None);
    assert_eq!(parse_datetime("2024-01-02T"), None);
    assert_eq!(parse_datetime("2024-01-02X03:04:05"), None);
    assert_eq!(parse_datetime("2024-01-02T3:04:05"), None);
    assert_eq!(parse_datetime("2024-01-02T03:04:05z"), None);
    assert_eq!(parse_datetime("2024-01-02T03:04:05+"), None);
    assert_eq!(parse_datetime("2024-01-02T03:04:05+0x:00"), None);
    assert_eq!(parse_datetime("2024-01-02T03:04:05 PM"), None);
    assert_eq!(parse_datetime("2024-01-02T03:04:05Z "), None);
    assert_eq!(parse_datetime("hello world"), None);
}

#[test]
fn the_quick_check() {
    assert!(is_datetime(b"2024-01-02"));
    assert!(is_datetime(b"2024-01-02T03:04:05"));
    assert!(is_datetime(b"2024-01-02t"));
    assert!(is_datetime(b"2024-01-02 anything"));
    assert!(is_datetime(b"2024-01-02\t03:04"));
    assert!(!is_datetime(b"2024-01-0"));
    assert!(!is_datetime(b"2024-01-02x"));
    assert!(!is_datetime(b"2024_01-02"));
    assert!(!is_datetime(b"2024-01_02"));
    assert!(!is_datetime(b"202a-01-02"));
    assert!(!is_datetime(b"2024-0a-02"));
    assert!(!is_datetime(b"2024-01-0a"));
    assert!(!is_datetime(b""));
}

#[test]
fn the_parts_of_the_scan() {
    assert_eq!(parse_date(b"2024-01-02T"), Some(date(2024, 1, 2)));
    assert_eq!(parse_date(b"2024-01"), None);
    assert_eq!(read_number(b"ab12cd", 2, 2), Some(12));
    assert_eq!(read_number(b"ab1xcd", 2, 2), None);
    assert_eq!(read_number(b"123456789", 0, 9), Some(123_456_789));
    assert_eq!(find_separator(b"2024-01-02T03:04"), 10);
    assert_eq!(find_separator(b"2024-01-02xx 03:04"), 12);
    assert_eq!(find_separator(b"2024-01-02xx\t03 04"), 12);
    assert_eq!(find_separator(b"2024-01-02"), 10);
    assert_eq!(find_separator(b"2024-01-02abc"), 13);
    let text = b"2024-01-02T03:04:05  -05:30";
    assert_eq!(find_zone_mark(text, 10), 21);
    assert_eq!(skip_spaces_back(text, 10, 20), 18);
    assert!(zone_mark_at(text, 10, 21));
    assert!(!zone_mark_at(text, 10, 13));
    assert_eq!(find_zone_mark(b"2024-01-02T03:04:05", 10), 10);
    assert_eq!(find_zone_mark(b"2024-01-02T  -05", 10), 10);
    assert_eq!(skip_spaces_back(b"a   ", 0, 3), 0);
}

#[test]
fn rendered_dates_read_back() {
    for d in [date(2024, 1, 2), date(0, 0, 0), date(9999, 99, 99), date(7, 12, 31)] {
        assert_eq!(parse_datetime(&format_date(d)), Some(Timestamp::Date(d)));
    }
}

#[test]
fn rendered_datetimes_read_back() {
    let cases = [
        (time(3, 4, 5, 0), HostZone::Naive, None),
        (time(3, 4, 5, 100_000), HostZone::Naive, None),
        (time(3, 4, 5, 100_000), HostZone::Utc, Some(Zone::Utc)),
        (time(0, 0, 0, 1), HostZone::Utc, Some(Zone::Utc)),
        (time(23, 59, 59, 999_999), HostZone::Utc, Some(Zone::Utc)),
        (
            time(3, 4, 5, 120_000),
            HostZone::Offset { days: 0, seconds: 19_800 },
            Some(Zone::Offset { days: 0, seconds: 19_800 }),
        ),
        (
            time(3, 4, 5, 0),
            HostZone::Offset { days: -1, seconds: 66_600 },
            Some(Zone::Offset { days: -1, seconds: 66_600 }),
        ),
        (
            time(3, 4, 5, 500),
            HostZone::Offset { days: 0, seconds: 0 },
            Some(Zone::Offset { days: 0, seconds: 0 }),
        ),
        (
            time(3, 4, 5, 0),
            HostZone::Offset { days: -1, seconds: 84_600 },
            Some(Zone::Offset { days: -1, seconds: 84_600 }),
        ),
    ];
    for (t, zone, expected) in cases {
        let text = format_datetime(HostDateTime { date: date(2024, 1, 2), time: t, zone });
        assert_eq!(parse_datetime(&text), stamp(date(2024, 1, 2), t, expected), "{}", text);
    }
}

#[test]
fn an_unknown_zone_reads_back_as_none() {
    let text = format_datetime(HostDateTime {
        date: date(2024, 1, 2),
        time: time(3, 4, 5, 0),
        zone: HostZone::Unknown,
    });
    assert_eq!(parse_datetime(&text), stamp(date(2024, 1, 2), time(3, 4, 5, 0), None));
}
