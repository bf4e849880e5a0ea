use playtime::calendar::MS_PER_DAY;
use playtime::calendar::datetime_to_ms;
use playtime::migrations::run_migrations;
use playtime::stats::get_daily_statistics;
use playtime::stats::get_game_statistics;
use playtime::stats::get_overall_statistics;
use playtime::tracking::add_time_local;
use playtime::tracking::apply_manual_time_correction;
use rusqlite::Connection;

fn setup_test_db() -> Connection {
    let mut conn = Connection::open_in_memory().unwrap();
    run_migrations(&mut conn).unwrap();
    conn
}

#[test]
fn test_overall_statistics_order_and_filter() {
    let mut conn = setup_test_db();

    let t0 = datetime_to_ms(2024, 5, 1, 10, 0, 0).unwrap();
    add_time_local(&mut conn, "small", "Small Game", t0, t0 + 10_000, None).unwrap();
    add_time_local(&mut conn, "big", "Big Game", t0, t0 + 500_000, None).unwrap();
    // A game whose recorded total is negative stays out of the overall view.
    apply_manual_time_correction(&mut conn, "neg", "Negative Game", -10, "manual-correction")
        .unwrap();

    let overall = get_overall_statistics(&conn).unwrap();
    assert_eq!(overall.len(), 2);
    assert_eq!(overall[0].game.id, "big");
    assert_eq!(overall[0].total_time, 500_000);
    assert_eq!(overall[0].total_sessions, 1);
    assert_eq!(overall[1].game.id, "small");
    assert_eq!(overall[1].total_time, 10_000);
}

#[test]
fn test_game_statistics() {
    let mut conn = setup_test_db();

    assert!(get_game_statistics(&conn, "nope").unwrap().is_none());

    let t0 = datetime_to_ms(2024, 5, 1, 10, 0, 0).unwrap();
    let t1 = datetime_to_ms(2024, 5, 2, 20, 0, 0).unwrap();
    add_time_local(&mut conn, "g1", "Game One", t0, t0 + 60_000, None).unwrap();
    add_time_local(&mut conn, "g1", "Game One", t1, t1 + 120_000, None).unwrap();

    let st = get_game_statistics(&conn, "g1").unwrap().unwrap();
    assert_eq!(st.game.id, "g1");
    assert_eq!(st.total_time, 180_000);
    assert_eq!(st.total_sessions, 2);
    assert_eq!(st.last_played, Some(t1));
    assert!(st.last_session_duration.is_none());
}

#[test]
fn test_daily_statistics_grouping() {
    let mut conn = setup_test_db();

    let day1_a = datetime_to_ms(2024, 5, 1, 10, 0, 0).unwrap();
    let day1_b = datetime_to_ms(2024, 5, 1, 15, 0, 0).unwrap();
    let day2 = datetime_to_ms(2024, 5, 2, 9, 0, 0).unwrap();
    add_time_local(&mut conn, "g1", "Game One", day1_a, day1_a + 60_000, None).unwrap();
    add_time_local(&mut conn, "g1", "Game One", day1_b, day1_b + 30_000, None).unwrap();
    add_time_local(&mut conn, "g2", "Game Two", day1_a, day1_a + 600_000, None).unwrap();
    add_time_local(&mut conn, "g2", "Game Two", day2, day2 + 5_000, None).unwrap();

    let start_day = day1_a / MS_PER_DAY;
    let end_day = day2 / MS_PER_DAY;
    let daily = get_daily_statistics(&conn, start_day, end_day).unwrap();

    // Two days, latest first.
    assert_eq!(daily.len(), 2);
    assert_eq!(daily[0].date, day2 / MS_PER_DAY);
    assert_eq!(daily[1].date, day1_a / MS_PER_DAY);

    // The later day has one game with one session.
    assert_eq!(daily[0].games.len(), 1);
    assert_eq!(daily[0].games[0].game.id, "g2");
    assert_eq!(daily[0].games[0].time, 5_000);
    assert_eq!(daily[0].games[0].sessions.len(), 1);
    assert_eq!(daily[0].games[0].sessions[0].date, day2);

    // The earlier day lists the larger game first.
    assert_eq!(daily[1].games.len(), 2);
    assert_eq!(daily[1].games[0].game.id, "g2");
    assert_eq!(daily[1].games[0].time, 600_000);
    assert_eq!(daily[1].games[1].game.id, "g1");
    assert_eq!(daily[1].games[1].time, 90_000);
    assert_eq!(daily[1].games[1].sessions.len(), 2);
    assert_eq!(daily[1].games[1].sessions[0].date, day1_a);
    assert_eq!(daily[1].games[1].sessions[1].date, day1_b);
}

#[test]
fn test_daily_statistics_range_filter() {
    let mut conn = setup_test_db();

    let inside = datetime_to_ms(2024, 5, 1, 10, 0, 0).unwrap();
    let outside = datetime_to_ms(2024, 6, 1, 10, 0, 0).unwrap();
    add_time_local(&mut conn, "g1", "Game One", inside, inside + 1_000, None).unwrap();
    add_time_local(&mut conn, "g1", "Game One", outside, outside + 1_000, None).unwrap();

    let d = inside / MS_PER_DAY;
    let daily = get_daily_statistics(&conn, d, d).unwrap();
    assert_eq!(daily.len(), 1);
    assert_eq!(daily[0].date, d);
    assert_eq!(daily[0].games.len(), 1);
    assert_eq!(daily[0].games[0].sessions.len(), 1);
}

#[test]
fn test_daily_statistics_empty_range() {
    let conn = setup_test_db();
    let daily = get_daily_statistics(&conn, 0, 10).unwrap();
    assert!(daily.is_empty());
}
