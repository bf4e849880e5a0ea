//! The trusted boundary to the embedded relational store.
//!
//! Everything the library knows about a `rusqlite::Connection` is phrased over
//! three names: `store_of` (the visible contents of the tables this library
//! owns), `saved_of` (those contents as of the most recent `BEGIN`), and
//! `in_tx_of` (whether a transaction is open).  Each wrapper below runs one
//! fixed SQL statement and states what that statement does to the names; the
//! statements' semantics follow SQLite's documentation.
//!
//! A failing statement either leaves everything unchanged or — for the few
//! error classes on which SQLite aborts the whole transaction — resets the
//! contents to the transaction's start; `dml_failure_ok` captures exactly
//! these two outcomes.

use vstd::prelude::*;
use crate::error::Error;
use crate::models::Game;
use crate::models::LedgerRow;
use crate::models::LedgerRowV;

verus! {

#[verifier::external_type_specification]
#[verifier::external_body]
pub struct ExConnection(rusqlite::Connection);

/// The mathematical contents of the tables this library owns.
pub ghost struct StoreV {
    /// `game_dict`: game id to display name.
    pub games: Map<Seq<char>, Seq<char>>,
    /// `play_time`: the append-only ledger, in insertion order.
    pub ledger: Seq<LedgerRowV>,
    /// `overall_time`: game id to running total, in milliseconds.
    pub totals: Map<Seq<char>, int>,
    /// The migration ledger's current version: its greatest recorded id, or 0
    /// when it holds no row.
    pub version: int,
    /// Whether the migration ledger table exists at all.
    pub has_version_table: bool,
    /// `game_file_checksum`: (game id, checksum, algorithm) to
    /// (chunk size, created-at text, updated-at text).
    pub checksums: Map<(Seq<char>, Seq<char>, Seq<char>), (int, Option<Seq<char>>, Option<
        Seq<char>,
    >)>,
}

/// The visible contents of the library's tables on this connection.
pub uninterp spec fn store_of(c: rusqlite::Connection) -> StoreV;

/// The contents as of the most recent `BEGIN` on this connection.
pub uninterp spec fn saved_of(c: rusqlite::Connection) -> StoreV;

/// Whether a transaction is open on this connection.
pub uninterp spec fn in_tx_of(c: rusqlite::Connection) -> bool;

/// The running total recorded for game `g`, zero when no row exists.
pub open spec fn total_of(s: StoreV, g: Seq<char>) -> int {
    if s.totals.contains_key(g) {
        s.totals[g]
    } else {
        0
    }
}

/// What a successful statement inside a transaction leaves untouched.
pub open spec fn keeps_tx(pre_saved: StoreV, pre_tx: bool, c: rusqlite::Connection) -> bool {
    saved_of(c) == pre_saved && in_tx_of(c) == pre_tx
}

/// What a failed statement may leave behind: nothing changed, or — when the
/// store aborted the enclosing transaction — the contents at its start.
pub open spec fn dml_failure_ok(
    pre_store: StoreV,
    pre_saved: StoreV,
    pre_tx: bool,
    c: rusqlite::Connection,
) -> bool {
    ||| (store_of(c) == pre_store && saved_of(c) == pre_saved && in_tx_of(c) == pre_tx)
    ||| (pre_tx && store_of(c) == pre_saved && !in_tx_of(c))
}

/// Relies on rusqlite's `Connection::execute_batch` running `BEGIN`: on
/// success a transaction is open and no table has changed.
#[verifier::external_body]
pub(crate) fn begin_transaction(conn: &mut rusqlite::Connection) -> (r: Result<(), Error>)
    ensures
        r is Ok ==> store_of(*final(conn)) == store_of(*old(conn)) && in_tx_of(*final(conn))
            && saved_of(*final(conn)) == store_of(*old(conn)),
        r is Err ==> (r->Err_0 is Database) && store_of(*final(conn)) == store_of(*old(conn))
            && saved_of(*final(conn)) == saved_of(*old(conn)) && in_tx_of(*final(conn)) == in_tx_of(
            *old(conn),
        ),
{
    conn.execute_batch("BEGIN").map_err(|e| Error::Database(e.to_string()))
}

/// Relies on rusqlite's `Connection::execute_batch` running `COMMIT`: on
/// success the transaction is closed and its writes stay visible.
#[verifier::external_body]
pub(crate) fn commit_transaction(conn: &mut rusqlite::Connection) -> (r: Result<(), Error>)
    ensures
        r is Ok ==> store_of(*final(conn)) == store_of(*old(conn)) && !in_tx_of(*final(conn)),
        r is Err ==> (r->Err_0 is Database) && dml_failure_ok(
            store_of(*old(conn)),
            saved_of(*old(conn)),
            in_tx_of(*old(conn)),
            *final(conn),
        ),
{
    conn.execute_batch("COMMIT").map_err(|e| Error::Database(e.to_string()))
}

/// Relies on rusqlite's `Connection::execute_batch` running `ROLLBACK`: an
/// open transaction's writes are discarded; without one nothing changes.
#[verifier::external_body]
pub(crate) fn rollback_transaction(conn: &mut rusqlite::Connection)
    ensures
        in_tx_of(*old(conn)) ==> store_of(*final(conn)) == saved_of(*old(conn)),
        !in_tx_of(*old(conn)) ==> store_of(*final(conn)) == store_of(*old(conn)),
        !in_tx_of(*final(conn)),
{
    let _ = conn.execute_batch("ROLLBACK");
}

/// Relies on rusqlite's `Connection::execute` running an upsert on
/// `game_dict`: the game's display name is inserted or overwritten.
#[verifier::external_body]
pub(crate) fn exec_upsert_game(conn: &mut rusqlite::Connection, game_id: &str, name: &str) -> (r:
    Result<(), Error>)
    ensures
        r is Ok ==> store_of(*final(conn)) == (StoreV {
            games: store_of(*old(conn)).games.insert(game_id@, name@),
            ..store_of(*old(conn))
        }) && keeps_tx(saved_of(*old(conn)), in_tx_of(*old(conn)), *final(conn)),
        r is Err ==> (r->Err_0 is Database) && dml_failure_ok(
            store_of(*old(conn)),
            saved_of(*old(conn)),
            in_tx_of(*old(conn)),
            *final(conn),
        ),
{
    let sql = "INSERT INTO game_dict (game_id, name) VALUES (?1, ?2) ON CONFLICT(game_id) DO UPDATE SET name = ?2";
    conn.execute(sql, (game_id, name)).map_err(|e| Error::Database(e.to_string()))?;
    Ok(())
}

/// Relies on rusqlite's `Connection::execute` running an `INSERT` on
/// `play_time`: one ledger row is appended.
#[verifier::external_body]
pub(crate) fn exec_insert_ledger_row(
    conn: &mut rusqlite::Connection,
    game_id: &str,
    date_time: &str,
    duration: i64,
    provenance: Option<&str>,
    checksum: Option<&str>,
) -> (r: Result<(), Error>)
    ensures
        r is Ok ==> store_of(*final(conn)) == (StoreV {
            ledger: store_of(*old(conn)).ledger.push(
                LedgerRowV {
                    game_id: game_id@,
                    date_time: date_time@,
                    duration: duration as int,
                    provenance: provenance.deep_view(),
                    checksum: checksum.deep_view(),
                },
            ),
            ..store_of(*old(conn))
        }) && keeps_tx(saved_of(*old(conn)), in_tx_of(*old(conn)), *final(conn)),
        r is Err ==> (r->Err_0 is Database) && dml_failure_ok(
            store_of(*old(conn)),
            saved_of(*old(conn)),
            in_tx_of(*old(conn)),
            *final(conn),
        ),
{
    let sql = "INSERT INTO play_time (date_time, duration, game_id, migrated, checksum) VALUES (?1, ?2, ?3, ?4, ?5)";
    conn.execute(sql, (date_time, duration, game_id, provenance, checksum)).map_err(|e| Error::Database(e.to_string()))?;
    Ok(())
}

/// Relies on rusqlite's `Connection::execute` running an upsert on
/// `overall_time`: the game's running total grows by `duration`, a missing
/// row starting from zero.  The exact sum is promised only while it stays in
/// the store's integer range: past it SQLite's `+` falls back to approximate
/// floating-point arithmetic instead of failing, so beyond the range only the
/// untouched rest of the store is stated.
#[verifier::external_body]
pub(crate) fn exec_upsert_total(conn: &mut rusqlite::Connection, game_id: &str, duration: i64) -> (
    r: Result<(), Error>)
    ensures
        r is Ok ==> store_of(*final(conn)) == (StoreV {
            totals: store_of(*final(conn)).totals,
            ..store_of(*old(conn))
        }) && keeps_tx(saved_of(*old(conn)), in_tx_of(*old(conn)), *final(conn)) && (forall|
            g2: Seq<char>,
        |
            g2 != game_id@ ==> #[trigger] store_of(*final(conn)).totals.contains_key(g2)
                == store_of(*old(conn)).totals.contains_key(g2) && (store_of(
                *old(conn),
            ).totals.contains_key(g2) ==> store_of(*final(conn)).totals[g2] == store_of(
                *old(conn),
            ).totals[g2])),
        r is Ok && i64::MIN as int <= total_of(store_of(*old(conn)), game_id@) + duration as int
            <= i64::MAX as int ==> store_of(*final(conn)) == (StoreV {
            totals: store_of(*old(conn)).totals.insert(
                game_id@,
                total_of(store_of(*old(conn)), game_id@) + duration as int,
            ),
            ..store_of(*old(conn))
        }),
        r is Err ==> (r->Err_0 is Database) && dml_failure_ok(
            store_of(*old(conn)),
            saved_of(*old(conn)),
            in_tx_of(*old(conn)),
            *final(conn),
        ),
{
    let sql = "INSERT INTO overall_time (game_id, duration) VALUES (?1, ?2) ON CONFLICT(game_id) DO UPDATE SET duration = duration + ?2";
    conn.execute(sql, (game_id, duration)).map_err(|e| Error::Database(e.to_string()))?;
    Ok(())
}

/// How a fetched game list reflects the `game_dict` contents: every returned
/// pair is an entry, ids do not repeat, and every entry is returned.
pub open spec fn games_vec_matches(v: Seq<Game>, m: Map<Seq<char>, Seq<char>>) -> bool {
    &&& forall|i: int|
        0 <= i < v.len() ==> m.contains_key(#[trigger] v[i].id@) && m[v[i].id@] == v[i].name@
    &&& forall|i: int, j: int| 0 <= i < j < v.len() ==> v[i].id@ != v[j].id@
    &&& forall|k: Seq<char>| #[trigger] m.contains_key(k) ==> exists|i: int|
        0 <= i < v.len() && #[trigger] v[i].id@ == k
}

/// Relies on rusqlite's `Statement::query_map` over a `SELECT` on
/// `game_dict`: the rows are its entries, each exactly once.
#[verifier::external_body]
pub(crate) fn exec_fetch_games(conn: &rusqlite::Connection) -> (r: Result<Vec<Game>, Error>)
    ensures
        r is Ok ==> games_vec_matches(r->Ok_0@, store_of(*conn).games),
        r is Err ==> (r->Err_0 is Database),
{
    let mut stmt = conn.prepare("SELECT game_id, name FROM game_dict").map_err(|e| Error::Database(e.to_string()))?;
    let rows = stmt.query_map((), |row| Ok(Game { id: row.get(0)?, name: row.get(1)? })).map_err(|e| Error::Database(e.to_string()))?;
    let mut out = Vec::new();
    for row in rows {
        out.push(row.map_err(|e| Error::Database(e.to_string()))?);
    }
    Ok(out)
}

/// Relies on rusqlite's `Statement::query_map` over a `SELECT` on
/// `play_time` ordered by the rowid: the whole ledger in insertion order.
#[verifier::external_body]
pub(crate) fn exec_fetch_ledger(conn: &rusqlite::Connection) -> (r: Result<Vec<LedgerRow>, Error>)
    ensures
        r is Ok ==> r->Ok_0@.map_values(|x: LedgerRow| x@) == store_of(*conn).ledger,
        r is Err ==> (r->Err_0 is Database),
{
    let sql = "SELECT game_id, date_time, duration, migrated, checksum FROM play_time ORDER BY id";
    let mut stmt = conn.prepare(sql).map_err(|e| Error::Database(e.to_string()))?;
    let map = |row: &rusqlite::Row| Ok(LedgerRow {
        game_id: row.get(0)?, date_time: row.get(1)?, duration: row.get(2)?,
        provenance: row.get(3)?, checksum: row.get(4)?,
    });
    let rows = stmt.query_map((), map).map_err(|e| Error::Database(e.to_string()))?;
    let mut out = Vec::new();
    for row in rows {
        out.push(row.map_err(|e| Error::Database(e.to_string()))?);
    }
    Ok(out)
}

/// Relies on rusqlite's `Connection::execute` running an upsert on
/// `game_file_checksum`: a new association is recorded whole; an existing one
/// only has its updated-at text overwritten.
#[verifier::external_body]
pub(crate) fn exec_upsert_checksum(
    conn: &mut rusqlite::Connection,
    game_id: &str,
    checksum: &str,
    algorithm: &str,
    chunk_size: i64,
    created_at: Option<&str>,
    updated_at: Option<&str>,
) -> (r: Result<(), Error>)
    ensures
        r is Ok ==> store_of(*final(conn)) == (StoreV {
            checksums: store_of(*old(conn)).checksums.insert(
                (game_id@, checksum@, algorithm@),
                if store_of(*old(conn)).checksums.contains_key((game_id@, checksum@, algorithm@)) {
                    (
                        store_of(*old(conn)).checksums[(game_id@, checksum@, algorithm@)].0,
                        store_of(*old(conn)).checksums[(game_id@, checksum@, algorithm@)].1,
                        updated_at.deep_view(),
                    )
                } else {
                    (chunk_size as int, created_at.deep_view(), updated_at.deep_view())
                },
            ),
            ..store_of(*old(conn))
        }) && keeps_tx(saved_of(*old(conn)), in_tx_of(*old(conn)), *final(conn)),
        r is Err ==> (r->Err_0 is Database) && dml_failure_ok(
            store_of(*old(conn)),
            saved_of(*old(conn)),
            in_tx_of(*old(conn)),
            *final(conn),
        ),
{
    let sql = "INSERT INTO game_file_checksum (game_id, checksum, algorithm, chunk_size, created_at, updated_at) VALUES (?1, ?2, ?3, ?4, ?5, ?6) ON CONFLICT(game_id, checksum, algorithm) DO UPDATE SET updated_at = ?6";
    conn.execute(sql, (game_id, checksum, algorithm, chunk_size, created_at, updated_at)).map_err(|e| Error::Database(e.to_string()))?;
    Ok(())
}

/// One checksum association as read back from the store, with the game's
/// display name joined in.
pub struct ChecksumRow {
    pub game_id: String,
    pub name: String,
    pub checksum: String,
    pub algorithm: String,
    pub chunk_size: i64,
    pub created_at: Option<String>,
    pub updated_at: Option<String>,
}

/// How fetched checksum rows reflect the store for `game`: each row is a
/// recorded association of `game` joined with its dictionary name, no
/// association repeats, and — when the game is known — none is missing.
pub open spec fn checksum_rows_match(v: Seq<ChecksumRow>, s: StoreV, game: Seq<char>) -> bool {
    &&& forall|i: int|
        0 <= i < v.len() ==> {
            let row = #[trigger] v[i];
            &&& row.game_id@ == game
            &&& s.games.contains_key(game) && row.name@ == s.games[game]
            &&& s.checksums.contains_key((game, row.checksum@, row.algorithm@))
            &&& s.checksums[(game, row.checksum@, row.algorithm@)] == (
                row.chunk_size as int,
                row.created_at.deep_view(),
                row.updated_at.deep_view(),
            )
        }
    &&& forall|i: int, j: int|
        0 <= i < j < v.len() ==> (v[i].checksum@, v[i].algorithm@) != (
            v[j].checksum@,
            v[j].algorithm@,
        )
    &&& forall|k: (Seq<char>, Seq<char>, Seq<char>)|
        #[trigger] s.checksums.contains_key(k) && k.0 == game && s.games.contains_key(game)
            ==> exists|i: int|
            0 <= i < v.len() && (#[trigger] v[i].checksum@, v[i].algorithm@) == (k.1, k.2)
    &&& !s.games.contains_key(game) ==> v.len() == 0
}

/// Relies on rusqlite's `Statement::query_map` over a `SELECT` joining
/// `game_file_checksum` with `game_dict`: the game's recorded associations.
#[verifier::external_body]
pub(crate) fn exec_fetch_checksums(conn: &rusqlite::Connection, game_id: &str) -> (r: Result<
    Vec<ChecksumRow>,
    Error,
>)
    ensures
        r is Ok ==> checksum_rows_match(r->Ok_0@, store_of(*conn), game_id@),
        r is Err ==> (r->Err_0 is Database),
{
    let sql = "SELECT g.game_id, g.name, gfc.checksum, gfc.algorithm, gfc.chunk_size, gfc.created_at, gfc.updated_at FROM game_file_checksum gfc JOIN game_dict g ON gfc.game_id = g.game_id WHERE gfc.game_id = ?1";
    let mut stmt = conn.prepare(sql).map_err(|e| Error::Database(e.to_string()))?;
    let map = |row: &rusqlite::Row| Ok(ChecksumRow {
        game_id: row.get(0)?, name: row.get(1)?, checksum: row.get(2)?, algorithm: row.get(3)?,
        chunk_size: row.get(4)?, created_at: row.get(5)?, updated_at: row.get(6)?,
    });
    let rows = stmt.query_map((game_id,), map).map_err(|e| Error::Database(e.to_string()))?;
    let mut out = Vec::new();
    for row in rows {
        out.push(row.map_err(|e| Error::Database(e.to_string()))?);
    }
    Ok(out)
}

/// Relies on chrono's `Local`: shifts an absolute instant (milliseconds from
/// the UTC epoch) to the same instant's local wall-clock reading.  What comes
/// back depends on the machine's time zone, so nothing is promised of it.
#[verifier::external_body]
pub(crate) fn to_local_naive_ms(epoch_ms: i64) -> i64 {
    match chrono::TimeZone::timestamp_millis_opt(&chrono::Local, epoch_ms).single() {
        Some(dt) => dt.naive_local().and_utc().timestamp_millis(),
        None => epoch_ms,
    }
}

/// Relies on chrono's `Local::now`: the current local wall-clock reading in
/// milliseconds.  The clock decides, so nothing is promised of the result.
#[verifier::external_body]
pub(crate) fn now_local_naive_ms() -> i64 {
    chrono::Local::now().naive_local().and_utc().timestamp_millis()
}

} // verus!
