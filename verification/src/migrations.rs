//! The versioned schema migrator.
//!
//! Applied versions are recorded in a dedicated migration ledger table; the
//! current version is the greatest recorded id, 0 for a fresh file.  Each
//! pending step runs inside its own transaction together with the record of
//! its version: either both land or neither does.  A file recorded at a
//! version newer than this build supports is refused before any mutation.

use vstd::prelude::*;
use vstd::string::StringExecFns;
use crate::error::Error;
use crate::error::dec_signed;
use crate::error::push_signed_decimal;
use crate::store::StoreV;
use crate::store::begin_transaction;
use crate::store::commit_transaction;
use crate::store::dml_failure_ok;
use crate::store::in_tx_of;
use crate::store::keeps_tx;
use crate::store::rollback_transaction;
use crate::store::saved_of;
use crate::store::store_of;

verus! {

/// The newest schema version this build supports.
pub const SCHEMA_VERSION: i64 = 8;

/// The checksum associations that survive the orphan cleanup: those whose
/// game stands in the dictionary.
pub open spec fn prune_orphans(s: StoreV) -> Map<
    (Seq<char>, Seq<char>, Seq<char>),
    (int, Option<Seq<char>>, Option<Seq<char>>),
> {
    Map::new(
        |k: (Seq<char>, Seq<char>, Seq<char>)|
            s.checksums.dom().contains(k) && s.games.contains_key(k.0),
        |k: (Seq<char>, Seq<char>, Seq<char>)| s.checksums[k],
    )
}

/// What migration step `v` does to the modeled contents.  Steps not listed
/// here only create or drop indexes and change nothing the model sees.
pub open spec fn migration_body_effect(pre: StoreV, v: int) -> StoreV {
    if v == 1 {
        StoreV { games: Map::empty(), ledger: Seq::empty(), totals: Map::empty(), ..pre }
    } else if v == 5 {
        StoreV { checksums: Map::empty(), ..pre }
    } else if v == 8 {
        StoreV { checksums: prune_orphans(pre), ..pre }
    } else {
        pre
    }
}

/// The store after migration step `v` is applied and recorded.
pub open spec fn migration_effect(pre: StoreV, v: int) -> StoreV {
    StoreV {
        version: if v > pre.version {
            v
        } else {
            pre.version
        },
        ..migration_body_effect(pre, v)
    }
}

/// The store a full run from a fresh file reaches after step `k`.
pub open spec fn fresh_state(pre: StoreV, k: int) -> StoreV {
    StoreV {
        games: if k >= 1 {
            Map::empty()
        } else {
            pre.games
        },
        ledger: if k >= 1 {
            Seq::empty()
        } else {
            pre.ledger
        },
        totals: if k >= 1 {
            Map::empty()
        } else {
            pre.totals
        },
        checksums: if k >= 5 {
            Map::empty()
        } else {
            pre.checksums
        },
        version: k,
        has_version_table: true,
    }
}

/// On a fresh file the steps walk the `fresh_state` states in order.
proof fn lemma_fresh_step(pre: StoreV, k: int)
    requires
        0 <= k < 8,
    ensures
        migration_effect(fresh_state(pre, k), k + 1) == fresh_state(pre, k + 1),
{
    if k + 1 == 8 {
        assert(prune_orphans(fresh_state(pre, k)) =~= Map::<
            (Seq<char>, Seq<char>, Seq<char>),
            (int, Option<Seq<char>>, Option<Seq<char>>),
        >::empty());
    }
}

/// The store after applying steps `from + 1` through `upto` in order.
pub open spec fn migrations_from(pre: StoreV, from: int, upto: int) -> StoreV
    decreases upto - from,
{
    if upto <= from {
        pre
    } else {
        migration_effect(migrations_from(pre, from, upto - 1), upto)
    }
}

/// The state the migration ledger's bookkeeping starts a run from: the store
/// as found, or — when the ledger table is missing — the store with the
/// table created at version 0.
pub open spec fn run_base(pre: StoreV) -> StoreV {
    if pre.has_version_table {
        pre
    } else {
        StoreV { has_version_table: true, version: 0, ..pre }
    }
}

/// The message refusing a file recorded past the supported version.
pub open spec fn incompatible_version_message(v: int) -> Seq<char> {
    "Database schema version ("@ + dec_signed(v)
        + ") is newer than supported version (8). Please update the plugin."@
}

fn build_incompatible_version_message(v: i64) -> (r: String)
    requires
        i64::MIN < v,
    ensures
        r@ == incompatible_version_message(v as int),
{
    let mut out = String::new();
    out.append("Database schema version (");
    push_signed_decimal(&mut out, v);
    out.append(") is newer than supported version (8). Please update the plugin.");
    proof {
        assert(out@ =~= incompatible_version_message(v as int));
    }
    out
}

/// The message naming a version the fixed catalog does not know.
pub open spec fn unknown_version_message(v: int) -> Seq<char> {
    "Unknown migration version: "@ + dec_signed(v)
}

fn build_unknown_version_message(v: i64) -> (r: String)
    requires
        i64::MIN < v,
    ensures
        r@ == unknown_version_message(v as int),
{
    let mut out = String::new();
    out.append("Unknown migration version: ");
    push_signed_decimal(&mut out, v);
    proof {
        assert(out@ =~= unknown_version_message(v as int));
    }
    out
}

/// The message wrapping a failed step with its version.
pub open spec fn failed_migration_message(v: int, inner: Seq<char>) -> Seq<char> {
    "Failed to apply migration "@ + dec_signed(v) + ": "@ + inner
}

fn build_failed_migration_message(v: i64, inner: &Error) -> (r: String)
    requires
        i64::MIN < v,
    ensures
        r@ == failed_migration_message(v as int, crate::error::error_message(*inner)),
{
    let mut out = String::new();
    out.append("Failed to apply migration ");
    push_signed_decimal(&mut out, v);
    out.append(": ");
    let inner_text = inner.message();
    out.append(inner_text.as_str());
    proof {
        assert(out@ =~= failed_migration_message(v as int, crate::error::error_message(*inner)));
    }
    out
}

/// Relies on rusqlite's `Connection::execute` running
/// `CREATE TABLE IF NOT EXISTS` on the migration ledger: afterwards the table
/// exists; a fresh one records version 0; an existing one is untouched.
#[verifier::external_body]
pub fn ensure_migration_table(conn: &mut rusqlite::Connection) -> (r: Result<(), Error>)
    ensures
        r is Ok ==> store_of(*final(conn)).has_version_table && keeps_tx(
            saved_of(*old(conn)),
            in_tx_of(*old(conn)),
            *final(conn),
        ) && (if store_of(*old(conn)).has_version_table {
            store_of(*final(conn)) == store_of(*old(conn))
        } else {
            store_of(*final(conn)) == (StoreV {
                has_version_table: true,
                version: 0,
                ..store_of(*old(conn))
            })
        }),
        r is Err ==> (r->Err_0 is Database) && dml_failure_ok(
            store_of(*old(conn)),
            saved_of(*old(conn)),
            in_tx_of(*old(conn)),
            *final(conn),
        ),
{
    conn.execute("CREATE TABLE IF NOT EXISTS migration (id INTEGER PRIMARY KEY)", ()).map_err(
        |e| Error::Database(e.to_string()),
    )?;
    Ok(())
}

/// Relies on rusqlite's `Connection::query_row` running
/// `SELECT COALESCE(MAX(id), 0)` on the migration ledger: the recorded
/// version, which also shows the table exists.
#[verifier::external_body]
pub fn get_schema_version(conn: &rusqlite::Connection) -> (r: Result<i64, Error>)
    ensures
        r matches Ok(v) ==> v == store_of(*conn).version && store_of(*conn).has_version_table,
        r is Err ==> (r->Err_0 is Database),
{
    conn.query_row("SELECT COALESCE(MAX(id), 0) FROM migration", (), |row| row.get(0)).map_err(
        |e| Error::Database(e.to_string()),
    )
}

/// Relies on rusqlite's `Connection::execute` running `INSERT` on the
/// migration ledger: the recorded version becomes the greater of the old one
/// and `version`.
#[verifier::external_body]
fn set_schema_version(conn: &mut rusqlite::Connection, version: i64) -> (r: Result<(), Error>)
    requires
        1 <= version,
    ensures
        r is Ok ==> store_of(*final(conn)) == (StoreV {
            version: if version as int > store_of(*old(conn)).version {
                version as int
            } else {
                store_of(*old(conn)).version
            },
            ..store_of(*old(conn))
        }) && keeps_tx(saved_of(*old(conn)), in_tx_of(*old(conn)), *final(conn)),
        r is Err ==> (r->Err_0 is Database) && dml_failure_ok(
            store_of(*old(conn)),
            saved_of(*old(conn)),
            in_tx_of(*old(conn)),
            *final(conn),
        ),
{
    conn.execute("INSERT INTO migration (id) VALUES (?1)", (version,)).map_err(
        |e| Error::Database(e.to_string()),
    )?;
    Ok(())
}

/// Relies on rusqlite's `Connection::execute_batch` creating the three
/// time-tracking tables: on success they exist and are empty.
#[verifier::external_body]
fn migration_v1(conn: &mut rusqlite::Connection) -> (r: Result<(), Error>)
    ensures
        r is Ok ==> store_of(*final(conn)) == migration_body_effect(store_of(*old(conn)), 1)
            && keeps_tx(saved_of(*old(conn)), in_tx_of(*old(conn)), *final(conn)),
        r is Err ==> (r->Err_0 is Database) && dml_failure_ok(
            store_of(*old(conn)),
            saved_of(*old(conn)),
            in_tx_of(*old(conn)),
            *final(conn),
        ),
{
    let sql = "CREATE TABLE play_time(id INTEGER PRIMARY KEY AUTOINCREMENT, date_time TEXT, duration INT, game_id TEXT, checksum TEXT); \
        CREATE TABLE overall_time(game_id TEXT PRIMARY KEY, duration INT); \
        CREATE TABLE game_dict(game_id TEXT PRIMARY KEY, name TEXT);";
    conn.execute_batch(sql).map_err(|e| Error::Database(e.to_string()))?;
    Ok(())
}

/// Relies on rusqlite's `Connection::execute_batch` creating indexes only:
/// the modeled contents do not change.
#[verifier::external_body]
fn migration_v2(conn: &mut rusqlite::Connection) -> (r: Result<(), Error>)
    ensures
        r is Ok ==> store_of(*final(conn)) == migration_body_effect(store_of(*old(conn)), 2)
            && keeps_tx(saved_of(*old(conn)), in_tx_of(*old(conn)), *final(conn)),
        r is Err ==> (r->Err_0 is Database) && dml_failure_ok(
            store_of(*old(conn)),
            saved_of(*old(conn)),
            in_tx_of(*old(conn)),
            *final(conn),
        ),
{
    let sql = "CREATE INDEX play_time_date_time_epoch_idx ON play_time(STRFTIME('%s', date_time)); \
        CREATE INDEX play_time_game_id_idx ON play_time(game_id); \
        CREATE INDEX overall_time_game_id_idx ON overall_time(game_id);";
    conn.execute_batch(sql).map_err(|e| Error::Database(e.to_string()))?;
    Ok(())
}

/// Relies on rusqlite's `Connection::execute` adding the nullable `migrated`
/// column.  Every existing row reads back with no provenance both before and
/// after, so the modeled ledger does not change.
#[verifier::external_body]
fn migration_v3(conn: &mut rusqlite::Connection) -> (r: Result<(), Error>)
    ensures
        r is Ok ==> store_of(*final(conn)) == migration_body_effect(store_of(*old(conn)), 3)
            && keeps_tx(saved_of(*old(conn)), in_tx_of(*old(conn)), *final(conn)),
        r is Err ==> (r->Err_0 is Database) && dml_failure_ok(
            store_of(*old(conn)),
            saved_of(*old(conn)),
            in_tx_of(*old(conn)),
            *final(conn),
        ),
{
    conn.execute("ALTER TABLE play_time ADD COLUMN migrated TEXT", ()).map_err(
        |e| Error::Database(e.to_string()),
    )?;
    Ok(())
}

/// Relies on rusqlite's `Connection::execute_batch` rebuilding an index:
/// the modeled contents do not change.
#[verifier::external_body]
fn migration_v4(conn: &mut rusqlite::Connection) -> (r: Result<(), Error>)
    ensures
        r is Ok ==> store_of(*final(conn)) == migration_body_effect(store_of(*old(conn)), 4)
            && keeps_tx(saved_of(*old(conn)), in_tx_of(*old(conn)), *final(conn)),
        r is Err ==> (r->Err_0 is Database) && dml_failure_ok(
            store_of(*old(conn)),
            saved_of(*old(conn)),
            in_tx_of(*old(conn)),
            *final(conn),
        ),
{
    let sql = "DROP INDEX play_time_date_time_epoch_idx; \
        CREATE INDEX play_time_date_time_epoch_idx ON play_time(STRFTIME('%s', date_time));";
    conn.execute_batch(sql).map_err(|e| Error::Database(e.to_string()))?;
    Ok(())
}

/// Relies on rusqlite's `Connection::execute_batch` creating the checksum
/// table: on success it exists and is empty.
#[verifier::external_body]
fn migration_v5(conn: &mut rusqlite::Connection) -> (r: Result<(), Error>)
    ensures
        r is Ok ==> store_of(*final(conn)) == migration_body_effect(store_of(*old(conn)), 5)
            && keeps_tx(saved_of(*old(conn)), in_tx_of(*old(conn)), *final(conn)),
        r is Err ==> (r->Err_0 is Database) && dml_failure_ok(
            store_of(*old(conn)),
            saved_of(*old(conn)),
            in_tx_of(*old(conn)),
            *final(conn),
        ),
{
    let sql = "CREATE TABLE game_file_checksum( \
            checksum_id INTEGER PRIMARY KEY AUTOINCREMENT, game_id TEXT NOT NULL, checksum TEXT NOT NULL, \
            algorithm TEXT NOT NULL CHECK(algorithm IN ('BLAKE2B', 'BLAKE2S', 'SHA224', 'SHA256', 'SHA384', \
                'SHA512', 'SHA512_224', 'SHA512_256', 'SHA3_224', 'SHA3_256', 'SHA3_384', 'SHA3_512', \
                'SHAKE_128', 'SHAKE_256', 'sha256', 'md5')), \
            chunk_size INTEGER NOT NULL, created_at DATETIME DEFAULT CURRENT_TIMESTAMP, \
            updated_at DATETIME DEFAULT CURRENT_TIMESTAMP, \
            FOREIGN KEY (game_id) REFERENCES game_dict(game_id), UNIQUE (game_id, checksum, algorithm)); \
        CREATE INDEX game_file_checksum_checksum_algorithm_idx ON game_file_checksum(checksum, algorithm);";
    conn.execute_batch(sql).map_err(|e| Error::Database(e.to_string()))?;
    Ok(())
}

/// Relies on rusqlite's `Connection::execute_batch` replacing indexes:
/// the modeled contents do not change.
#[verifier::external_body]
fn migration_v6(conn: &mut rusqlite::Connection) -> (r: Result<(), Error>)
    ensures
        r is Ok ==> store_of(*final(conn)) == migration_body_effect(store_of(*old(conn)), 6)
            && keeps_tx(saved_of(*old(conn)), in_tx_of(*old(conn)), *final(conn)),
        r is Err ==> (r->Err_0 is Database) && dml_failure_ok(
            store_of(*old(conn)),
            saved_of(*old(conn)),
            in_tx_of(*old(conn)),
            *final(conn),
        ),
{
    let sql = "DROP INDEX IF EXISTS overall_time_game_id_idx; DROP INDEX IF EXISTS play_time_game_id_idx; \
        DROP INDEX IF EXISTS play_time_date_time_epoch_idx; \
        CREATE INDEX IF NOT EXISTS play_time_date_time_idx ON play_time(date_time); \
        CREATE INDEX IF NOT EXISTS play_time_game_id_date_time_idx ON play_time(game_id, date_time);";
    conn.execute_batch(sql).map_err(|e| Error::Database(e.to_string()))?;
    Ok(())
}

/// Relies on rusqlite's `Connection::execute_batch` creating indexes:
/// the modeled contents do not change.
#[verifier::external_body]
fn migration_v7(conn: &mut rusqlite::Connection) -> (r: Result<(), Error>)
    ensures
        r is Ok ==> store_of(*final(conn)) == migration_body_effect(store_of(*old(conn)), 7)
            && keeps_tx(saved_of(*old(conn)), in_tx_of(*old(conn)), *final(conn)),
        r is Err ==> (r->Err_0 is Database) && dml_failure_ok(
            store_of(*old(conn)),
            saved_of(*old(conn)),
            in_tx_of(*old(conn)),
            *final(conn),
        ),
{
    let sql = "CREATE INDEX IF NOT EXISTS idx_overall_time_game_id ON overall_time(game_id); \
        CREATE INDEX IF NOT EXISTS idx_game_dict_game_id ON game_dict(game_id); \
        CREATE INDEX IF NOT EXISTS idx_play_time_migrated ON play_time(migrated) WHERE migrated IS NULL; \
        CREATE INDEX IF NOT EXISTS idx_game_file_checksum_game_id ON game_file_checksum(game_id); \
        CREATE INDEX IF NOT EXISTS idx_game_file_checksum_composite ON game_file_checksum(game_id, checksum, algorithm);";
    conn.execute_batch(sql).map_err(|e| Error::Database(e.to_string()))?;
    Ok(())
}

/// Relies on rusqlite's `Connection::execute` deleting checksum rows whose
/// game is not in the dictionary: exactly the orphans leave.
#[verifier::external_body]
fn migration_v8(conn: &mut rusqlite::Connection) -> (r: Result<(), Error>)
    ensures
        r is Ok ==> store_of(*final(conn)) == migration_body_effect(store_of(*old(conn)), 8)
            && keeps_tx(saved_of(*old(conn)), in_tx_of(*old(conn)), *final(conn)),
        r is Err ==> (r->Err_0 is Database) && dml_failure_ok(
            store_of(*old(conn)),
            saved_of(*old(conn)),
            in_tx_of(*old(conn)),
            *final(conn),
        ),
{
    let sql = "DELETE FROM game_file_checksum WHERE game_id NOT IN (SELECT game_id FROM game_dict)";
    conn.execute(sql, ()).map_err(|e| Error::Database(e.to_string()))?;
    Ok(())
}

/// Apply one numbered migration step and record its version, as one
/// transaction.  A version outside the fixed catalog is refused; any failure
/// leaves the store as it was.
pub fn apply_migration(conn: &mut rusqlite::Connection, version: i64) -> (r: Result<(), Error>)
    requires
        i64::MIN < version,
    ensures
        r is Ok ==> 1 <= version <= SCHEMA_VERSION && !in_tx_of(*final(conn)) && store_of(
            *final(conn),
        ) == migration_effect(store_of(*old(conn)), version as int),
        !(1 <= version <= SCHEMA_VERSION) ==> r is Err && (r->Err_0 is Internal) && (
        r->Err_0 matches Error::Internal(m) ==> m@ == unknown_version_message(version as int))
            && *final(conn) == *old(conn),
        r is Err ==> store_of(*final(conn)) == store_of(*old(conn)),
{
    if version < 1 || version > SCHEMA_VERSION {
        return Err(Error::Internal(build_unknown_version_message(version)));
    }
    begin_transaction(conn)?;
    let body = if version == 1 {
        migration_v1(conn)
    } else if version == 2 {
        migration_v2(conn)
    } else if version == 3 {
        migration_v3(conn)
    } else if version == 4 {
        migration_v4(conn)
    } else if version == 5 {
        migration_v5(conn)
    } else if version == 6 {
        migration_v6(conn)
    } else if version == 7 {
        migration_v7(conn)
    } else {
        migration_v8(conn)
    };
    match body {
        Ok(()) => {},
        Err(e) => {
            rollback_transaction(conn);
            return Err(e);
        },
    }
    match set_schema_version(conn, version) {
        Ok(()) => {},
        Err(e) => {
            rollback_transaction(conn);
            return Err(e);
        },
    }
    match commit_transaction(conn) {
        Ok(()) => {},
        Err(e) => {
            rollback_transaction(conn);
            return Err(e);
        },
    }
    Ok(())
}

/// Bring the store to the supported schema version.  A fresh file walks every
/// step; a file already at the supported version is untouched; a file past it
/// is refused with a version-incompatibility error and no mutation.
pub fn run_migrations(conn: &mut rusqlite::Connection) -> (r: Result<(), Error>)
    ensures
        r is Ok ==> store_of(*final(conn)).version == SCHEMA_VERSION && store_of(
            *final(conn),
        ).has_version_table,
        r is Ok && !store_of(*old(conn)).has_version_table ==> store_of(*final(conn))
            == fresh_state(store_of(*old(conn)), SCHEMA_VERSION as int),
        store_of(*old(conn)).has_version_table && store_of(*old(conn)).version > SCHEMA_VERSION
            ==> r is Err && (r->Err_0 is Internal || r->Err_0 is Database) && (
        r->Err_0 matches Error::Internal(m) ==> m@ == incompatible_version_message(
            store_of(*old(conn)).version,
        )),
        !in_tx_of(*old(conn)) && store_of(*old(conn)).has_version_table && store_of(
            *old(conn),
        ).version >= SCHEMA_VERSION ==> store_of(*final(conn)) == store_of(*old(conn)),
        r is Ok ==> store_of(*final(conn)) == migrations_from(
            run_base(store_of(*old(conn))),
            run_base(store_of(*old(conn))).version,
            SCHEMA_VERSION as int,
        ),
        !in_tx_of(*old(conn)) && r is Err ==> {
            let pre = store_of(*old(conn));
            let base = run_base(pre);
            ||| ((store_of(*final(conn)) == pre || store_of(*final(conn)) == base) && (
            r->Err_0 is Database || (r->Err_0 matches Error::Internal(m) && m@
                == incompatible_version_message(base.version))))
            ||| (exists|k: int, inner: Seq<char>|
                base.version < k <= SCHEMA_VERSION && (r->Err_0 matches Error::Internal(m) && m@
                    == #[trigger] failed_migration_message(k, inner)) && store_of(*final(conn))
                    == migrations_from(base, base.version, k - 1))
        },
{
    let ghost pre = store_of(*old(conn));
    ensure_migration_table(conn)?;
    let ghost base = run_base(pre);
    proof {
        assert(store_of(*conn) == base);
    }
    let current = match get_schema_version(&*conn) {
        Ok(v) => v,
        Err(e) => {
            return Err(e);
        },
    };
    if current > SCHEMA_VERSION {
        return Err(Error::Internal(build_incompatible_version_message(current)));
    }
    let ghost fresh = !pre.has_version_table;
    let mut v: i64 = current + 1;
    while v <= SCHEMA_VERSION
        invariant
            pre == store_of(*old(conn)),
            base == run_base(pre),
            fresh == !pre.has_version_table,
            v <= SCHEMA_VERSION + 1,
            i64::MIN < v,
            base.version < v,
            pre.has_version_table ==> v > pre.version,
            pre.has_version_table && pre.version >= SCHEMA_VERSION ==> store_of(*conn) == pre,
            store_of(*conn).has_version_table,
            store_of(*conn).version == v - 1,
            store_of(*conn) == migrations_from(base, base.version as int, v as int - 1),
            fresh ==> 1 <= v && store_of(*conn) == fresh_state(pre, v as int - 1),
        decreases SCHEMA_VERSION + 1 - v,
    {
        let step = apply_migration(conn, v);
        match step {
            Ok(()) => {},
            Err(e) => {
                let msg = build_failed_migration_message(v, &e);
                proof {
                    let inner = crate::error::error_message(e);
                    assert(msg@ == failed_migration_message(v as int, inner));
                }
                return Err(Error::Internal(msg));
            },
        }
        proof {
            assert(store_of(*conn) == migration_effect(
                migrations_from(base, base.version as int, v as int - 1),
                v as int,
            ));
            assert(store_of(*conn) == migrations_from(base, base.version as int, v as int));
            if fresh {
                lemma_fresh_step(pre, v as int - 1);
            }
        }
        v = v + 1;
    }
    Ok(())
}

} // verus!
