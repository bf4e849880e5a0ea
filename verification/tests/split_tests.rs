use playtime::calendar::MS_PER_DAY;
use playtime::calendar::MS_PER_SECOND;
use playtime::calendar::datetime_to_ms;
use playtime::models::PlaySession;
use playtime::split::END_OF_DAY_OFFSET;
use playtime::split::end_of_day;
use playtime::split::split_session_by_day;
use playtime::split::start_of_day;

fn local_ms(y: i64, m: i64, d: i64, h: i64, mi: i64, s: i64) -> i64 {
    datetime_to_ms(y, m, d, h, mi, s).unwrap()
}

#[test]
fn test_split_single_day_session() {
    let start = local_ms(2024, 1, 1, 10, 0, 0);
    let end = local_ms(2024, 1, 1, 12, 0, 0);

    let session = PlaySession::new("game123".to_string(), start, end);

    let splits = split_session_by_day(&session);
    assert_eq!(splits.len(), 1);
    assert_eq!(splits[0].duration, 7200 * MS_PER_SECOND); // 2 hours
}

#[test]
fn test_split_multi_day_session() {
    let start = local_ms(2024, 1, 1, 22, 0, 0);
    let end = local_ms(2024, 1, 2, 2, 0, 0);

    let session = PlaySession::new("game123".to_string(), start, end);

    let splits = split_session_by_day(&session);
    assert_eq!(splits.len(), 2);

    // First session: 22:00 to 23:59:59
    assert!(splits[0].duration > 7100 * MS_PER_SECOND && splits[0].duration < 7200 * MS_PER_SECOND);

    // Second session: 00:00:00 to 02:00:00
    assert!(splits[1].duration > 7100 * MS_PER_SECOND && splits[1].duration < 7300 * MS_PER_SECOND);
}

#[test]
fn test_end_of_day() {
    let dt = local_ms(2024, 1, 15, 10, 30, 45);
    let eod = end_of_day(dt);

    let secs = (eod % MS_PER_DAY) / MS_PER_SECOND;
    assert_eq!(secs / 3600, 23);
    assert_eq!((secs / 60) % 60, 59);
    assert_eq!(secs % 60, 59);
    assert_eq!(eod / MS_PER_DAY, dt / MS_PER_DAY);
}

#[test]
fn test_start_of_day() {
    let dt = local_ms(2024, 1, 15, 10, 30, 45);
    let sod = start_of_day(dt);

    let secs = (sod % MS_PER_DAY) / MS_PER_SECOND;
    assert_eq!(secs / 3600, 0);
    assert_eq!((secs / 60) % 60, 0);
    assert_eq!(secs % 60, 0);
    assert_eq!(sod / MS_PER_DAY, dt / MS_PER_DAY);
}

#[test]
fn test_split_session_ending_at_midnight() {
    let start = local_ms(2024, 1, 1, 23, 0, 0);
    let end = local_ms(2024, 1, 2, 0, 0, 0);

    let session = PlaySession::new("game123".to_string(), start, end);
    let splits = split_session_by_day(&session);

    // The day is touched only at its boundary: one piece, ending at 23:59:59.
    assert_eq!(splits.len(), 1);
    assert_eq!(splits[0].started_at, start);
    assert_eq!(splits[0].ended_at, start_of_day(start) + END_OF_DAY_OFFSET);
    assert_eq!(splits[0].duration, 3599 * MS_PER_SECOND);
}

#[test]
fn test_split_three_day_session() {
    let start = local_ms(2024, 3, 1, 12, 0, 0);
    let end = local_ms(2024, 3, 3, 6, 0, 0);

    let session = PlaySession::new("game123".to_string(), start, end);
    let splits = split_session_by_day(&session);

    assert_eq!(splits.len(), 3);
    // Ordered, day-bounded, one second untracked per crossed midnight.
    assert!(splits[0].ended_at < splits[1].started_at);
    assert!(splits[1].ended_at < splits[2].started_at);
    let total: i64 = splits.iter().map(|p| p.duration).sum();
    assert_eq!(total, (end - start) - 2 * MS_PER_SECOND);
}

#[test]
fn test_session_dates_and_multi_day() {
    let start = local_ms(2024, 1, 1, 22, 0, 0);
    let end = local_ms(2024, 1, 2, 2, 0, 0);
    let session = PlaySession::new("g".to_string(), start, end);
    assert!(session.is_multi_day());
    assert_eq!(session.started_date(), "2024-01-01T22:00:00");
    assert_eq!(session.ended_date(), "2024-01-02T02:00:00");

    let single = PlaySession::new("g".to_string(), start, start + 1000);
    assert!(!single.is_multi_day());

    let with_sum = single.with_checksum("abc".to_string());
    assert_eq!(with_sum.checksum.as_deref(), Some("abc"));
}
