use playtime::calendar::MS_PER_DAY;
use playtime::calendar::civil_from_day;
use playtime::calendar::datetime_to_ms;
use playtime::calendar::day_limit;
use playtime::calendar::day_number_exec;
use playtime::calendar::format_datetime_ms;
use playtime::calendar::parse_datetime_ms;

#[test]
fn test_format_datetime() {
    let ms = datetime_to_ms(2024, 1, 15, 10, 30, 45).unwrap();
    assert_eq!(format_datetime_ms(ms), "2024-01-15T10:30:45");

    let epoch = datetime_to_ms(1970, 1, 1, 0, 0, 0).unwrap();
    assert_eq!(epoch, 0);
    assert_eq!(format_datetime_ms(0), "1970-01-01T00:00:00");

    let padded = datetime_to_ms(2024, 2, 3, 4, 5, 6).unwrap();
    assert_eq!(format_datetime_ms(padded), "2024-02-03T04:05:06");
}

#[test]
fn test_parse_datetime() {
    assert_eq!(
        parse_datetime_ms("2024-01-15T10:30:45"),
        datetime_to_ms(2024, 1, 15, 10, 30, 45)
    );
    assert_eq!(parse_datetime_ms("1970-01-01T00:00:00"), Some(0));

    // Round trip through the canonical text.
    let ms = datetime_to_ms(2031, 12, 31, 23, 59, 59).unwrap();
    assert_eq!(parse_datetime_ms(&format_datetime_ms(ms)), Some(ms));

    // Rejections: wrong shape, wrong separators, impossible components.
    assert_eq!(parse_datetime_ms(""), None);
    assert_eq!(parse_datetime_ms("2024-01-15 10:30:45"), None);
    assert_eq!(parse_datetime_ms("2024-01-15T10:30"), None);
    assert_eq!(parse_datetime_ms("2024-13-01T00:00:00"), None);
    assert_eq!(parse_datetime_ms("2024-02-30T00:00:00"), None);
    assert_eq!(parse_datetime_ms("2024-01-15T24:00:00"), None);
    assert_eq!(parse_datetime_ms("2024-01-15T10:30:4x"), None);
    assert_eq!(parse_datetime_ms("1969-12-31T23:59:59"), None);
}

#[test]
fn test_leap_years() {
    assert!(datetime_to_ms(2024, 2, 29, 0, 0, 0).is_some());
    assert!(datetime_to_ms(2023, 2, 29, 0, 0, 0).is_none());
    assert!(datetime_to_ms(2000, 2, 29, 0, 0, 0).is_some());
    assert!(datetime_to_ms(1900, 2, 29, 0, 0, 0).is_none());
}

#[test]
fn test_civil_day_round_trip() {
    let day = day_number_exec(2024, 3, 1);
    assert_eq!(civil_from_day(day), (2024, 3, 1));

    // The day after 2024-02-29 is 2024-03-01.
    assert_eq!(day_number_exec(2024, 2, 29) + 1, day);

    // 2024-01-01 is 54 years x 365 days plus 13 leap days past the epoch.
    assert_eq!(day_number_exec(2024, 1, 1), 54 * 365 + 13);
}

#[test]
fn test_day_limit_bounds() {
    let lim = day_limit();
    // 8030 years of 365 days plus one day per leap year in 1970..=9999.
    assert_eq!(lim, 8030 * 365 + 1947);
    // The last supported instant formats; one day past it is out of range.
    let last = lim * MS_PER_DAY - 1000;
    assert_eq!(format_datetime_ms(last), "9999-12-31T23:59:59");
}
