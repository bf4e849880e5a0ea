use playtime::error::Error;
use playtime::migrations::SCHEMA_VERSION;
use playtime::migrations::apply_migration;
use playtime::migrations::ensure_migration_table;
use playtime::migrations::get_schema_version;
use playtime::migrations::run_migrations;
use rusqlite::Connection;

const EXPECTED_TABLES: &[&str] = &[
    "play_time",
    "overall_time",
    "game_dict",
    "game_file_checksum",
    "migration",
];

fn table_exists(conn: &Connection, table_name: &str) -> bool {
    conn.query_row(
        "SELECT COUNT(*) > 0 FROM sqlite_master
         WHERE type = 'table' AND name = ?1",
        [table_name],
        |row| row.get(0),
    )
    .unwrap_or(false)
}

fn column_exists(conn: &Connection, table_name: &str, column_name: &str) -> bool {
    conn.query_row(
        "SELECT COUNT(*) > 0 FROM pragma_table_info(?1)
         WHERE name = ?2",
        [table_name, column_name],
        |row| row.get(0),
    )
    .unwrap_or(false)
}

#[test]
fn test_full_migration_sequence() {
    let mut conn = Connection::open_in_memory().unwrap();

    run_migrations(&mut conn).unwrap();

    let version = get_schema_version(&conn).unwrap();
    assert_eq!(version, SCHEMA_VERSION, "Schema version should match expected");

    for &table_name in EXPECTED_TABLES {
        assert!(
            table_exists(&conn, table_name),
            "Table '{}' should exist after migrations",
            table_name
        );
    }

    assert!(
        column_exists(&conn, "play_time", "migrated"),
        "play_time should have migrated column"
    );
}

#[test]
fn test_incremental_migrations() {
    let mut conn = Connection::open_in_memory().unwrap();
    ensure_migration_table(&mut conn).unwrap();

    for expected_version in 1..=SCHEMA_VERSION {
        apply_migration(&mut conn, expected_version).unwrap();

        let actual_version = get_schema_version(&conn).unwrap();

        assert_eq!(
            actual_version, expected_version,
            "Schema version should be {} after migration {}",
            expected_version, expected_version
        );
    }
}

#[test]
fn test_migration_idempotency() {
    let mut conn = Connection::open_in_memory().unwrap();

    run_migrations(&mut conn).unwrap();
    run_migrations(&mut conn).unwrap();

    let version = get_schema_version(&conn).unwrap();
    assert_eq!(version, SCHEMA_VERSION, "Version should remain stable");
}

#[test]
fn test_future_schema_version_error() {
    let conn = Connection::open_in_memory().unwrap();

    conn.execute("CREATE TABLE migration (id INTEGER PRIMARY KEY)", ())
        .unwrap();
    conn.execute(
        "INSERT INTO migration (id) VALUES (?1)",
        [SCHEMA_VERSION + 100],
    )
    .unwrap();

    let mut conn = conn;
    let result = run_migrations(&mut conn);

    assert!(result.is_err(), "Should error on future schema version");

    let error_msg = result.unwrap_err().message();

    assert!(
        error_msg.contains("newer than supported"),
        "Error should mention version incompatibility, got: {}",
        error_msg
    );
}

#[test]
fn test_migration_atomicity() {
    let mut conn = Connection::open_in_memory().unwrap();
    ensure_migration_table(&mut conn).unwrap();

    for v in 1..=3 {
        apply_migration(&mut conn, v).unwrap();
    }

    let version_before = get_schema_version(&conn).unwrap();
    assert_eq!(version_before, 3);

    assert!(table_exists(&conn, "play_time"));
    assert!(column_exists(&conn, "play_time", "migrated"));
}

#[test]
fn test_unknown_migration_version() {
    let mut conn = Connection::open_in_memory().unwrap();
    ensure_migration_table(&mut conn).unwrap();

    let result = apply_migration(&mut conn, 99);
    assert!(result.is_err());
    let msg = result.unwrap_err().message();
    assert!(msg.contains("Unknown migration version: 99"), "got: {}", msg);

    let version = get_schema_version(&conn).unwrap();
    assert_eq!(version, 0, "A refused step must record nothing");
}

#[test]
fn test_error_kinds() {
    let not_found = Error::NotFound("g".to_string());
    assert!(not_found.is_not_found());
    assert_eq!(not_found.message(), "Not found: g");

    let invalid = Error::InvalidInput("bad".to_string());
    assert!(!invalid.is_not_found());
    assert_eq!(invalid.message(), "Invalid input: bad");

    let internal = Error::Internal("x".to_string());
    assert_eq!(internal.message(), "Internal error: x");

    let db = Error::Database("boom".to_string());
    assert_eq!(db.message(), "Database error: boom");

    let io = Error::Io("disk".to_string());
    assert_eq!(io.message(), "IO error: disk");

    let tt = Error::TimeTracking("t".to_string());
    assert_eq!(tt.message(), "Time tracking error: t");
}
