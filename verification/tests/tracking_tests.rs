use playtime::calendar::datetime_to_ms;
use playtime::games::get_game;
use playtime::migrations::run_migrations;
use playtime::tracking::add_time;
use playtime::tracking::add_time_local;
use playtime::tracking::apply_manual_time_correction;
use playtime::tracking::get_game_sessions;
use playtime::tracking::get_total_playtime;
use rusqlite::Connection;

fn setup_test_db() -> Connection {
    let mut conn = Connection::open_in_memory().unwrap();
    run_migrations(&mut conn).unwrap();
    conn
}

#[test]
fn test_add_time() {
    let mut conn = setup_test_db();

    let now = chrono::Local::now().timestamp_millis();
    let result = add_time(&mut conn, "123", "Test Game", now, now + 3_600_000, None);

    assert!(result.is_ok());
}

#[test]
fn test_add_time_rejects_empty_interval() {
    let mut conn = setup_test_db();

    let t = datetime_to_ms(2024, 1, 1, 12, 0, 0).unwrap();
    let result = add_time(&mut conn, "g1", "Game One", t, t, None);
    assert!(result.is_err());
    let msg = result.unwrap_err().message();
    assert!(msg.contains("End time must be after start time"), "got: {}", msg);

    // Nothing was recorded.
    assert_eq!(get_total_playtime(&conn, "g1").unwrap(), 0);
    assert!(get_game_sessions(&conn, "g1").unwrap().is_empty());
    assert!(get_game(&conn, "g1").unwrap().is_none());
}

#[test]
fn test_add_time_midnight_crossing_scenario() {
    let mut conn = setup_test_db();

    let t0 = datetime_to_ms(2024, 1, 1, 22, 0, 0).unwrap();
    let t1 = datetime_to_ms(2024, 1, 2, 2, 0, 0).unwrap();
    add_time_local(&mut conn, "g1", "Game One", t0, t1, None).unwrap();

    let sessions = get_game_sessions(&conn, "g1").unwrap();
    assert_eq!(sessions.len(), 2);
    // Latest start first.
    assert_eq!(sessions[0].started_at, datetime_to_ms(2024, 1, 2, 0, 0, 0).unwrap());
    assert_eq!(sessions[0].duration, 7_200_000);
    assert_eq!(sessions[1].started_at, t0);
    assert_eq!(sessions[1].duration, 7_199_000);

    // The running total matches the recorded rows: just under four hours.
    assert_eq!(get_total_playtime(&conn, "g1").unwrap(), 14_399_000);
    let stored: i64 = conn
        .query_row(
            "SELECT duration FROM overall_time WHERE game_id = ?1",
            ("g1",),
            |row| row.get(0),
        )
        .unwrap();
    assert_eq!(stored, 14_399_000);

    let game = get_game(&conn, "g1").unwrap().unwrap();
    assert_eq!(game.name, "Game One");
}

#[test]
fn test_running_total_accumulates() {
    let mut conn = setup_test_db();

    let t0 = datetime_to_ms(2024, 5, 1, 10, 0, 0).unwrap();
    add_time_local(&mut conn, "g1", "Game One", t0, t0 + 600_000, None).unwrap();
    add_time_local(&mut conn, "g1", "Game One", t0 + 700_000, t0 + 800_000, None).unwrap();
    add_time_local(&mut conn, "g2", "Game Two", t0, t0 + 50_000, None).unwrap();

    assert_eq!(get_total_playtime(&conn, "g1").unwrap(), 700_000);
    assert_eq!(get_total_playtime(&conn, "g2").unwrap(), 50_000);

    let total_g1: i64 = conn
        .query_row(
            "SELECT duration FROM overall_time WHERE game_id = ?1",
            ("g1",),
            |row| row.get(0),
        )
        .unwrap();
    assert_eq!(total_g1, 700_000);
}

#[test]
fn test_add_time_overwrites_name() {
    let mut conn = setup_test_db();

    let t0 = datetime_to_ms(2024, 5, 1, 10, 0, 0).unwrap();
    add_time_local(&mut conn, "g1", "First Name", t0, t0 + 1000, None).unwrap();
    add_time_local(&mut conn, "g1", "Second Name", t0 + 2000, t0 + 3000, None).unwrap();

    let game = get_game(&conn, "g1").unwrap().unwrap();
    assert_eq!(game.name, "Second Name");
}

#[test]
fn test_manual_correction_skips_running_total() {
    let mut conn = setup_test_db();

    apply_manual_time_correction(&mut conn, "g1", "Game One", 90, "manual-correction").unwrap();

    // The ledger holds the adjustment...
    assert_eq!(get_total_playtime(&conn, "g1").unwrap(), 90_000);
    let sessions = get_game_sessions(&conn, "g1").unwrap();
    assert_eq!(sessions.len(), 1);
    assert_eq!(sessions[0].duration, 90_000);

    // ...but the running-total table was deliberately not touched.
    let total_rows: i64 = conn
        .query_row("SELECT COUNT(*) FROM overall_time", (), |row| row.get(0))
        .unwrap();
    assert_eq!(total_rows, 0);

    // The provenance tag was recorded.
    let tag: Option<String> = conn
        .query_row("SELECT migrated FROM play_time WHERE game_id = ?1", ("g1",), |row| {
            row.get(0)
        })
        .unwrap();
    assert_eq!(tag.as_deref(), Some("manual-correction"));
}

#[test]
fn test_negative_manual_correction() {
    let mut conn = setup_test_db();

    let t0 = datetime_to_ms(2024, 5, 1, 10, 0, 0).unwrap();
    add_time_local(&mut conn, "g1", "Game One", t0, t0 + 100_000, None).unwrap();
    apply_manual_time_correction(&mut conn, "g1", "Game One", -40, "manual-correction").unwrap();

    assert_eq!(get_total_playtime(&conn, "g1").unwrap(), 60_000);
}
