use playtime::games::get_all_games;
use playtime::games::get_game;
use playtime::games::get_game_checksums;
use playtime::games::get_game_with_stats;
use playtime::games::save_game;
use playtime::games::save_game_checksum;
use playtime::migrations::run_migrations;
use playtime::models::ChecksumAlgorithm;
use playtime::models::Game;
use playtime::models::GameChecksum;
use rusqlite::Connection;

fn setup_test_db() -> Connection {
    let mut conn = Connection::open_in_memory().unwrap();
    run_migrations(&mut conn).unwrap();
    conn
}

#[test]
fn test_save_and_get_game() {
    let mut conn = setup_test_db();

    let game = Game::new("123", "Test Game");
    save_game(&mut conn, &game).unwrap();

    let retrieved = get_game(&conn, "123").unwrap();
    assert!(retrieved.is_some());
    assert_eq!(retrieved.unwrap().name, "Test Game");
}

#[test]
fn test_get_all_games() {
    let mut conn = setup_test_db();

    save_game(&mut conn, &Game::new("a", "Zulu")).unwrap();
    save_game(&mut conn, &Game::new("b", "Beta")).unwrap();
    save_game(&mut conn, &Game::new("c", "Alpha")).unwrap();
    save_game(&mut conn, &Game::new("a", "Omega")).unwrap();

    // Ordered by display name ascending, not by id or insertion.
    let all = get_all_games(&conn).unwrap();
    assert_eq!(all.len(), 3);
    assert_eq!(all[0].name, "Alpha");
    assert_eq!(all[0].id, "c");
    assert_eq!(all[1].name, "Beta");
    assert_eq!(all[1].id, "b");
    assert_eq!(all[2].name, "Omega");
    assert_eq!(all[2].id, "a");
}

#[test]
fn test_checksum_round_trip() {
    let mut conn = setup_test_db();

    let checksum = GameChecksum {
        game: Game::new("g1", "Game One"),
        checksum: "deadbeef".to_string(),
        algorithm: ChecksumAlgorithm::Sha256,
        chunk_size: 4096,
        created_at: Some("2024-01-01T00:00:00+00:00".to_string()),
        updated_at: Some("2024-01-01T00:00:00+00:00".to_string()),
    };
    save_game_checksum(&mut conn, &checksum).unwrap();

    let got = get_game_checksums(&conn, "g1").unwrap();
    assert_eq!(got.len(), 1);
    assert_eq!(got[0].game.id, "g1");
    assert_eq!(got[0].game.name, "Game One");
    assert_eq!(got[0].checksum, "deadbeef");
    assert_eq!(got[0].algorithm, ChecksumAlgorithm::Sha256);
    assert_eq!(got[0].chunk_size, 4096);
    assert_eq!(got[0].created_at.as_deref(), Some("2024-01-01T00:00:00+00:00"));
}

#[test]
fn test_checksum_upsert_updates_timestamp_only() {
    let mut conn = setup_test_db();

    let first = GameChecksum {
        game: Game::new("g1", "Game One"),
        checksum: "deadbeef".to_string(),
        algorithm: ChecksumAlgorithm::Md5,
        chunk_size: 1024,
        created_at: Some("2024-01-01T00:00:00+00:00".to_string()),
        updated_at: Some("2024-01-01T00:00:00+00:00".to_string()),
    };
    save_game_checksum(&mut conn, &first).unwrap();

    let second = GameChecksum {
        chunk_size: 9999,
        created_at: Some("2025-06-06T00:00:00+00:00".to_string()),
        updated_at: Some("2025-06-06T00:00:00+00:00".to_string()),
        ..first.clone()
    };
    save_game_checksum(&mut conn, &second).unwrap();

    let got = get_game_checksums(&conn, "g1").unwrap();
    assert_eq!(got.len(), 1);
    // Chunk size and creation stamp keep their first values; only the update
    // stamp moves.
    assert_eq!(got[0].chunk_size, 1024);
    assert_eq!(got[0].created_at.as_deref(), Some("2024-01-01T00:00:00+00:00"));
    assert_eq!(got[0].updated_at.as_deref(), Some("2025-06-06T00:00:00+00:00"));
}

#[test]
fn test_get_game_with_stats() {
    let mut conn = setup_test_db();

    assert!(get_game_with_stats(&conn, "missing").unwrap().is_none());

    let t0 = playtime::calendar::datetime_to_ms(2024, 5, 1, 10, 0, 0).unwrap();
    playtime::tracking::add_time_local(&mut conn, "g1", "Game One", t0, t0 + 60_000, None).unwrap();

    let st = get_game_with_stats(&conn, "g1").unwrap().unwrap();
    assert_eq!(st.game.name, "Game One");
    assert_eq!(st.total_time, 60_000);
    assert_eq!(st.total_sessions, 1);
    assert_eq!(st.last_played, Some(t0));
}

#[test]
fn test_algorithm_text() {
    assert_eq!(ChecksumAlgorithm::Sha256.as_text(), "sha256");
    assert_eq!(ChecksumAlgorithm::Md5.as_text(), "md5");
    assert_eq!(ChecksumAlgorithm::from_text("md5"), ChecksumAlgorithm::Md5);
    assert_eq!(ChecksumAlgorithm::from_text("sha256"), ChecksumAlgorithm::Sha256);
    assert_eq!(ChecksumAlgorithm::from_text("unknown"), ChecksumAlgorithm::Sha256);
}
