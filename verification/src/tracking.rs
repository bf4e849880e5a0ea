//! The transactional time-tracking write path.
//!
//! `add_time_local` validates the interval, splits it at local midnights, and
//! records — inside one transaction — the game identity, one ledger row per
//! piece, and the matching growth of the running total.  Either all of it
//! becomes visible or none of it.

use vstd::prelude::*;
use vstd::multiset::Multiset;
use crate::calendar::MS_PER_DAY;
use crate::calendar::MS_PER_SECOND;
use crate::calendar::canonical_datetime_ms;
use crate::calendar::datetime_seq_of_ms;
use crate::calendar::day_limit;
use crate::calendar::day_of;
use crate::calendar::format_datetime_ms;
use crate::calendar::in_calendar_range;
use crate::calendar::is_canonical_datetime;
use crate::calendar::lemma_parse_result;
use crate::calendar::parse_datetime_ms;
use crate::error::Error;
use crate::models::LedgerRow;
use crate::models::LedgerRowV;
use crate::models::PlaySession;
use crate::models::PlaySessionV;
use crate::models::session_views;
use crate::models::str_eq;
use crate::split::interval_sum;
use crate::split::lemma_day_of_bounds;
use crate::split::lemma_interval_sum_push;
use crate::split::lemma_interval_sum_take_mono;
use crate::split::lemma_split_structure;
use crate::split::split_intervals;
use crate::split::split_session_by_day;
use crate::store::StoreV;
use crate::store::total_of;
use crate::store::begin_transaction;
use crate::store::commit_transaction;
use crate::store::exec_fetch_ledger;
use crate::store::exec_insert_ledger_row;
use crate::store::exec_upsert_game;
use crate::store::exec_upsert_total;
use crate::store::in_tx_of;
use crate::store::now_local_naive_ms;
use crate::store::rollback_transaction;
use crate::store::saved_of;
use crate::store::store_of;
use crate::store::to_local_naive_ms;

verus! {

/// Sum of the recorded durations of game `g`'s ledger rows.
pub open spec fn sum_for(ledger: Seq<LedgerRowV>, g: Seq<char>) -> int
    decreases ledger.len(),
{
    if ledger.len() == 0 {
        0
    } else {
        (if ledger[0].game_id == g {
            ledger[0].duration
        } else {
            0
        }) + sum_for(ledger.drop_first(), g)
    }
}

/// Number of ledger rows recorded for game `g`.
pub open spec fn count_for(ledger: Seq<LedgerRowV>, g: Seq<char>) -> int
    decreases ledger.len(),
{
    if ledger.len() == 0 {
        0
    } else {
        (if ledger[0].game_id == g {
            1int
        } else {
            0int
        }) + count_for(ledger.drop_first(), g)
    }
}

/// The lockstep invariant of the tracking write path: every game's running
/// total equals the sum of its ledger durations.
pub open spec fn tracking_consistent(s: StoreV) -> bool {
    forall|g: Seq<char>| #[trigger] sum_for(s.ledger, g) == total_of(s, g)
}

pub proof fn lemma_sum_for_concat(a: Seq<LedgerRowV>, b: Seq<LedgerRowV>, g: Seq<char>)
    ensures
        sum_for(a + b, g) == sum_for(a, g) + sum_for(b, g),
    decreases a.len(),
{
    if a.len() == 0 {
        assert(a + b =~= b);
    } else {
        assert((a + b).drop_first() =~= a.drop_first() + b);
        lemma_sum_for_concat(a.drop_first(), b, g);
    }
}

pub proof fn lemma_sum_for_push(l: Seq<LedgerRowV>, row: LedgerRowV, g: Seq<char>)
    ensures
        sum_for(l.push(row), g) == sum_for(l, g) + (if row.game_id == g {
            row.duration
        } else {
            0
        }),
{
    assert(l.push(row) =~= l + seq![row]);
    lemma_sum_for_concat(l, seq![row], g);
    let s = seq![row];
    assert(s.len() == 1 && s[0] == row);
    assert(s.drop_first() =~= Seq::<LedgerRowV>::empty());
    assert(sum_for(s.drop_first(), g) == 0);
}

pub proof fn lemma_count_for_push(l: Seq<LedgerRowV>, row: LedgerRowV, g: Seq<char>)
    ensures
        count_for(l.push(row), g) == count_for(l, g) + (if row.game_id == g {
            1int
        } else {
            0int
        }),
{
    assert(l.push(row) =~= l + seq![row]);
    lemma_count_for_concat(l, seq![row], g);
    let s = seq![row];
    assert(s.len() == 1 && s[0] == row);
    assert(s.drop_first() =~= Seq::<LedgerRowV>::empty());
    assert(count_for(s.drop_first(), g) == 0);
}

pub proof fn lemma_count_for_concat(a: Seq<LedgerRowV>, b: Seq<LedgerRowV>, g: Seq<char>)
    ensures
        count_for(a + b, g) == count_for(a, g) + count_for(b, g),
    decreases a.len(),
{
    if a.len() == 0 {
        assert(a + b =~= b);
    } else {
        assert((a + b).drop_first() =~= a.drop_first() + b);
        lemma_count_for_concat(a.drop_first(), b, g);
    }
}

/// The ledger row recorded for one split piece.
pub open spec fn row_of_piece(
    g: Seq<char>,
    c: (int, int),
    src: Option<Seq<char>>,
) -> LedgerRowV {
    LedgerRowV {
        game_id: g,
        date_time: datetime_seq_of_ms(c.0),
        duration: c.1 - c.0,
        provenance: src,
        checksum: None,
    }
}

/// The ledger rows one successful `add_time` appends, one per split piece.
pub open spec fn split_rows(g: Seq<char>, start: int, end: int, src: Option<Seq<char>>) -> Seq<
    LedgerRowV,
> {
    split_intervals(start, end).map_values(|c: (int, int)| row_of_piece(g, c, src))
}

/// A mapped piece sequence sums, per game, to the pieces' durations.
proof fn lemma_rows_of_pieces_sum(
    s: Seq<(int, int)>,
    g: Seq<char>,
    src: Option<Seq<char>>,
    g2: Seq<char>,
)
    ensures
        sum_for(s.map_values(|c: (int, int)| row_of_piece(g, c, src)), g2) == (if g2 == g {
            interval_sum(s)
        } else {
            0
        }),
    decreases s.len(),
{
    let rows = s.map_values(|c: (int, int)| row_of_piece(g, c, src));
    if s.len() == 0 {
    } else {
        assert(rows.drop_first() =~= s.drop_first().map_values(
            |c: (int, int)| row_of_piece(g, c, src),
        ));
        lemma_rows_of_pieces_sum(s.drop_first(), g, src, g2);
    }
}

/// The store after a successful `add_time` of the local interval
/// `[start, end)` for game `g` with display name `name` and provenance `src`.
pub open spec fn add_time_effect(
    pre: StoreV,
    g: Seq<char>,
    name: Seq<char>,
    start: int,
    end: int,
    src: Option<Seq<char>>,
) -> StoreV {
    StoreV {
        games: pre.games.insert(g, name),
        ledger: pre.ledger + split_rows(g, start, end, src),
        totals: if split_intervals(start, end).len() == 0 {
            pre.totals
        } else {
            pre.totals.insert(g, total_of(pre, g) + interval_sum(split_intervals(start, end)))
        },
        ..pre
    }
}

/// A successful `add_time` keeps every game's running total equal to the sum
/// of its ledger durations.
pub proof fn lemma_add_time_preserves_consistency(
    pre: StoreV,
    g: Seq<char>,
    name: Seq<char>,
    start: int,
    end: int,
    src: Option<Seq<char>>,
)
    requires
        tracking_consistent(pre),
    ensures
        tracking_consistent(add_time_effect(pre, g, name, start, end, src)),
{
    let post = add_time_effect(pre, g, name, start, end, src);
    let rows = split_rows(g, start, end, src);
    assert forall|g2: Seq<char>| #[trigger] sum_for(post.ledger, g2) == total_of(post, g2) by {
        lemma_sum_for_concat(pre.ledger, rows, g2);
        lemma_rows_of_pieces_sum(split_intervals(start, end), g, src, g2);
    }
}

/// Whether the game's running total stays within the store's integer range
/// throughout the write.
pub open spec fn total_in_range(pre: StoreV, g: Seq<char>, start: int, end: int) -> bool {
    &&& i64::MIN as int <= total_of(pre, g)
    &&& total_of(pre, g) + interval_sum(split_intervals(start, end)) <= i64::MAX as int
}

/// What any successful `add_time` guarantees regardless of the running
/// total's magnitude: identity and ledger exact, and everything but the
/// game's own running total untouched.
pub open spec fn add_time_frame(
    pre: StoreV,
    post: StoreV,
    g: Seq<char>,
    name: Seq<char>,
    start: int,
    end: int,
    src: Option<Seq<char>>,
) -> bool {
    &&& post.games == pre.games.insert(g, name)
    &&& post.ledger == pre.ledger + split_rows(g, start, end, src)
    &&& post.version == pre.version
    &&& post.has_version_table == pre.has_version_table
    &&& post.checksums == pre.checksums
    &&& forall|g2: Seq<char>|
        g2 != g ==> #[trigger] post.totals.contains_key(g2) == pre.totals.contains_key(g2) && (
        pre.totals.contains_key(g2) ==> post.totals[g2] == pre.totals[g2])
}

/// Everything a successful `add_time` of `[start, end)` says of the store:
/// the frame above always, and — whenever the game's running total stays
/// within the store's integer range — the exact effect, preserving the
/// lockstep invariant.  Past that range the store keeps only an approximate
/// total, so nothing more can be said of it.
pub open spec fn add_time_outcome(
    pre: StoreV,
    post: StoreV,
    g: Seq<char>,
    name: Seq<char>,
    start: int,
    end: int,
    src: Option<Seq<char>>,
) -> bool {
    &&& add_time_frame(pre, post, g, name, start, end, src)
    &&& (total_in_range(pre, g, start, end) ==> post == add_time_effect(
        pre,
        g,
        name,
        start,
        end,
        src,
    ))
    &&& (tracking_consistent(pre) && total_in_range(pre, g, start, end) ==> tracking_consistent(
        post,
    ))
}

/// Record play time for a game over a local wall-clock interval, given in
/// milliseconds.  The game identity, the per-day ledger rows and the running
/// total commit as one unit; on any failure nothing is changed.
pub fn add_time_local(
    conn: &mut rusqlite::Connection,
    game_id: &str,
    game_name: &str,
    started_at: i64,
    ended_at: i64,
    source: Option<&str>,
) -> (r: Result<(), Error>)
    requires
        started_at < ended_at ==> in_calendar_range(started_at as int) && in_calendar_range(
            ended_at as int,
        ),
    ensures
        ended_at <= started_at ==> r is Err && (r->Err_0 is InvalidInput) && *final(conn) == *old(
            conn,
        ),
        r is Ok ==> started_at < ended_at && !in_tx_of(*final(conn)) && add_time_outcome(
            store_of(*old(conn)),
            store_of(*final(conn)),
            game_id@,
            game_name@,
            started_at as int,
            ended_at as int,
            source.deep_view(),
        ),
        r is Err ==> store_of(*final(conn)) == store_of(*old(conn)),
{
    if ended_at <= started_at {
        return Err(Error::InvalidInput("End time must be after start time".to_owned()));
    }
    let ghost gstart = started_at as int;
    let ghost gend = ended_at as int;
    let ghost pre = store_of(*old(conn));
    let ghost gid = game_id@;
    let ghost src = source.deep_view();
    let ghost split = split_intervals(gstart, gend);
    let ghost rows = split_rows(gid, gstart, gend, src);
    let session = PlaySession::new(game_id.to_owned(), started_at, ended_at);
    let pieces = split_session_by_day(&session);
    proof {
        assert forall|k: int| 0 <= k < pieces@.len() implies #[trigger] pieces@[k].duration
            == pieces@[k].ended_at - pieces@[k].started_at by {
            assert(pieces@[k].game_id@ == session.game_id@);
        }
    }
    begin_transaction(conn)?;
    match exec_upsert_game(conn, game_id, game_name) {
        Ok(()) => {},
        Err(e) => {
            rollback_transaction(conn);
            return Err(e);
        },
    }
    let mut i: usize = 0;
    while i < pieces.len()
        invariant
            gstart == started_at as int,
            gend == ended_at as int,
            gid == game_id@,
            src == source.deep_view(),
            0 <= gstart < gend,
            in_calendar_range(gstart),
            in_calendar_range(gend),
            split == split_intervals(gstart, gend),
            rows == split_rows(gid, gstart, gend, src),
            pieces@.map_values(|p: PlaySession| (p.started_at as int, p.ended_at as int))
                == split,
            forall|k: int|
                0 <= k < pieces@.len() ==> #[trigger] pieces@[k].duration == pieces@[k].ended_at
                    - pieces@[k].started_at,
            i <= pieces@.len(),
            pre == store_of(*old(conn)),
            in_tx_of(*conn),
            saved_of(*conn) == pre,
            store_of(*conn).games == pre.games.insert(gid, game_name@),
            store_of(*conn).ledger == pre.ledger + rows.take(i as int),
            store_of(*conn).version == pre.version,
            store_of(*conn).has_version_table == pre.has_version_table,
            store_of(*conn).checksums == pre.checksums,
            forall|g2: Seq<char>|
                g2 != gid ==> #[trigger] store_of(*conn).totals.contains_key(g2)
                    == pre.totals.contains_key(g2) && (pre.totals.contains_key(g2) ==> store_of(
                    *conn,
                ).totals[g2] == pre.totals[g2]),
            total_in_range(pre, gid, gstart, gend) ==> store_of(*conn).totals == (if i == 0 {
                pre.totals
            } else {
                pre.totals.insert(gid, total_of(pre, gid) + interval_sum(split.take(i as int)))
            }),
        decreases pieces@.len() - i,
    {
        proof {
            lemma_split_structure(gstart, gend);
            assert(split[i as int] == (pieces@[i as int].started_at as int, pieces@[
                i as int
            ].ended_at as int));
        }
        let started_piece = pieces[i].started_at;
        let duration_piece = pieces[i].duration;
        let date = format_datetime_ms(started_piece);
        let ghost before_ledger = store_of(*conn);
        match exec_insert_ledger_row(conn, game_id, date.as_str(), duration_piece, source, None) {
            Ok(()) => {},
            Err(e) => {
                rollback_transaction(conn);
                return Err(e);
            },
        }
        proof {
            assert(rows[i as int] == row_of_piece(gid, split[i as int], src));
            assert(rows.take(i as int).push(rows[i as int]) =~= rows.take(i as int + 1));
            assert(store_of(*conn).ledger =~= pre.ledger + rows.take(i as int + 1));
        }
        let ghost cur = store_of(*conn);
        proof {
            if total_in_range(pre, gid, gstart, gend) {
                // The running total seen by this upsert, and the one it
                // writes, both lie between the final total and the old one.
                assert(split.len() == split_intervals(gstart, gend).len());
                lemma_interval_sum_take_mono(split, 0, i as int + 1);
                lemma_interval_sum_take_mono(split, i as int + 1, split.len() as int);
                assert(split.take(split.len() as int) =~= split);
                assert(interval_sum(split.take(0)) == 0);
                assert(split.take(i as int).push(split[i as int]) =~= split.take(i as int + 1));
                lemma_interval_sum_push(split.take(i as int), split[i as int]);
                assert(total_of(cur, gid) + duration_piece as int == total_of(pre, gid)
                    + interval_sum(split.take(i as int + 1)));
            }
        }
        match exec_upsert_total(conn, game_id, duration_piece) {
            Ok(()) => {},
            Err(e) => {
                rollback_transaction(conn);
                return Err(e);
            },
        }
        proof {
            assert forall|g2: Seq<char>|
                g2 != gid implies #[trigger] store_of(*conn).totals.contains_key(g2)
                == pre.totals.contains_key(g2) && (pre.totals.contains_key(g2) ==> store_of(
                *conn,
            ).totals[g2] == pre.totals[g2]) by {
                assert(store_of(*conn).totals.contains_key(g2) == cur.totals.contains_key(g2));
            }
            if total_in_range(pre, gid, gstart, gend) {
                assert(split.take(i as int).push(split[i as int]) =~= split.take(i as int + 1));
                lemma_interval_sum_push(split.take(i as int), split[i as int]);
                if i > 0 {
                    assert(pre.totals.insert(
                        gid,
                        total_of(pre, gid) + interval_sum(split.take(i as int)),
                    ).insert(gid, total_of(pre, gid) + interval_sum(split.take(i as int + 1)))
                        =~= pre.totals.insert(
                        gid,
                        total_of(pre, gid) + interval_sum(split.take(i as int + 1)),
                    ));
                } else {
                    assert(interval_sum(split.take(0)) == 0);
                }
            }
        }
        i = i + 1;
    }
    proof {
        assert(rows.take(pieces@.len() as int) =~= rows);
        assert(split.take(pieces@.len() as int) =~= split);
        assert(store_of(*conn).ledger =~= pre.ledger + rows);
    }
    match commit_transaction(conn) {
        Ok(()) => {},
        Err(e) => {
            rollback_transaction(conn);
            return Err(e);
        },
    }
    proof {
        assert(add_time_frame(pre, store_of(*conn), gid, game_name@, gstart, gend, src));
        if total_in_range(pre, gid, gstart, gend) {
            assert(store_of(*conn).totals == add_time_effect(
                pre,
                gid,
                game_name@,
                gstart,
                gend,
                src,
            ).totals);
            assert(store_of(*conn) == add_time_effect(pre, gid, game_name@, gstart, gend, src));
            if tracking_consistent(pre) {
                lemma_add_time_preserves_consistency(pre, gid, game_name@, gstart, gend, src);
            }
        }
        assert(add_time_outcome(pre, store_of(*conn), gid, game_name@, gstart, gend, src));
    }
    Ok(())
}

/// Record play time for a game over an absolute interval, given in
/// milliseconds from the UTC epoch.  The interval is shifted to local
/// wall-clock time first; what the machine's time zone makes of it is not
/// observable here, so the recorded interval is stated existentially.
pub fn add_time(
    conn: &mut rusqlite::Connection,
    game_id: &str,
    game_name: &str,
    started_at: i64,
    ended_at: i64,
    source: Option<&str>,
) -> (r: Result<(), Error>)
    ensures
        ended_at <= started_at ==> r is Err && (r->Err_0 is InvalidInput) && *final(conn) == *old(
            conn,
        ),
        r is Ok ==> !in_tx_of(*final(conn)) && (exists|ls: int, le: int|
            0 <= ls < le && in_calendar_range(ls) && in_calendar_range(le) && add_time_outcome(
                store_of(*old(conn)),
                store_of(*final(conn)),
                game_id@,
                game_name@,
                ls,
                le,
                source.deep_view(),
            )),
        r is Err ==> store_of(*final(conn)) == store_of(*old(conn)),
{
    if ended_at <= started_at {
        return Err(Error::InvalidInput("End time must be after start time".to_owned()));
    }
    let ls = to_local_naive_ms(started_at);
    let le = to_local_naive_ms(ended_at);
    if !(0 <= ls && ls < le) {
        return Err(
            Error::InvalidInput("Session interval is empty in local time".to_owned()),
        );
    }
    let lim = day_limit();
    if le / MS_PER_DAY >= lim {
        return Err(
            Error::InvalidInput(
                "Session lies outside the supported calendar range".to_owned(),
            ),
        );
    }
    proof {
        lemma_day_of_bounds(le as int);
        assert((day_of(le as int) + 1) * (MS_PER_DAY as int) <= (lim as int) * (
        MS_PER_DAY as int)) by (nonlinear_arith)
            requires
                day_of(le as int) + 1 <= lim as int,
        ;
    }
    let r = add_time_local(conn, game_id, game_name, ls, le, source);
    proof {
        if r is Ok {
            assert(in_calendar_range(ls as int) && in_calendar_range(le as int));
        }
    }
    r
}

/// Record a signed manual adjustment as one ledger row stamped with the
/// current local time.  By design this path does not touch the running-total
/// table: the effect keeps `totals` as it was, so running totals are accurate
/// only for the `add_time` path.
pub fn apply_manual_time_correction(
    conn: &mut rusqlite::Connection,
    game_id: &str,
    game_name: &str,
    time_seconds: i64,
    source: &str,
) -> (r: Result<(), Error>)
    requires
        -9_000_000_000_000_000 <= time_seconds <= 9_000_000_000_000_000,
    ensures
        r is Ok ==> !in_tx_of(*final(conn)) && (exists|now_ms: int|
            in_calendar_range(now_ms) && store_of(*final(conn)) == (StoreV {
                games: store_of(*old(conn)).games.insert(game_id@, game_name@),
                ledger: store_of(*old(conn)).ledger.push(
                    LedgerRowV {
                        game_id: game_id@,
                        date_time: datetime_seq_of_ms(now_ms),
                        duration: time_seconds as int * 1000,
                        provenance: Some(source@),
                        checksum: None,
                    },
                ),
                ..store_of(*old(conn))
            })),
        r is Err ==> store_of(*final(conn)) == store_of(*old(conn)),
{
    let ghost pre = store_of(*old(conn));
    let now = now_local_naive_ms();
    let lim = day_limit();
    if !(0 <= now && now / MS_PER_DAY < lim) {
        return Err(
            Error::Internal(
                "Current local time is outside the supported calendar range".to_owned(),
            ),
        );
    }
    proof {
        lemma_day_of_bounds(now as int);
        assert((day_of(now as int) + 1) * (MS_PER_DAY as int) <= (lim as int) * (
        MS_PER_DAY as int)) by (nonlinear_arith)
            requires
                day_of(now as int) + 1 <= lim as int,
        ;
    }
    let date = format_datetime_ms(now);
    begin_transaction(conn)?;
    match exec_upsert_game(conn, game_id, game_name) {
        Ok(()) => {},
        Err(e) => {
            rollback_transaction(conn);
            return Err(e);
        },
    }
    match exec_insert_ledger_row(
        conn,
        game_id,
        date.as_str(),
        time_seconds * 1000,
        Some(source),
        None,
    ) {
        Ok(()) => {},
        Err(e) => {
            rollback_transaction(conn);
            return Err(e);
        },
    }
    match commit_transaction(conn) {
        Ok(()) => {},
        Err(e) => {
            rollback_transaction(conn);
            return Err(e);
        },
    }
    proof {
        let w = now as int;
        assert(in_calendar_range(w) && store_of(*conn) == (StoreV {
            games: pre.games.insert(game_id@, game_name@),
            ledger: pre.ledger.push(
                LedgerRowV {
                    game_id: game_id@,
                    date_time: datetime_seq_of_ms(w),
                    duration: time_seconds as int * 1000,
                    provenance: Some(source@),
                    checksum: None,
                },
            ),
            ..pre
        }));
    }
    Ok(())
}

/// Total recorded playtime of a game, in milliseconds: the sum of all its
/// ledger durations, manual corrections included.
pub fn get_total_playtime(conn: &rusqlite::Connection, game_id: &str) -> (r: Result<i64, Error>)
    ensures
        r is Ok ==> r->Ok_0 == sum_for(store_of(*conn).ledger, game_id@),
        r is Err ==> (r->Err_0 is Database) || ((r->Err_0 is Internal) && exists|k: int|
            0 <= k <= store_of(*conn).ledger.len() && !(i64::MIN as int <= sum_for(
                #[trigger] store_of(*conn).ledger.take(k),
                game_id@,
            ) <= i64::MAX as int)),
{
    let rows = exec_fetch_ledger(conn)?;
    let ghost ledger = store_of(*conn).ledger;
    let ghost gid = game_id@;
    let mut acc: i64 = 0;
    let mut i: usize = 0;
    while i < rows.len()
        invariant
            gid == game_id@,
            ledger == store_of(*conn).ledger,
            rows@.map_values(|x: LedgerRow| x@) == ledger,
            i <= rows@.len(),
            acc == sum_for(ledger.take(i as int), gid),
        decreases rows@.len() - i,
    {
        proof {
            assert(ledger.take(i as int).push(ledger[i as int]) =~= ledger.take(i as int + 1));
            lemma_sum_for_push(ledger.take(i as int), ledger[i as int], gid);
            assert(rows@[i as int]@ == ledger[i as int]);
        }
        if str_eq(rows[i].game_id.as_str(), game_id) {
            acc = match acc.checked_add(rows[i].duration) {
                Some(v) => v,
                None => {
                    proof {
                        assert(!(i64::MIN as int <= sum_for(
                            store_of(*conn).ledger.take(i as int + 1),
                            game_id@,
                        ) <= i64::MAX as int));
                    }
                    return Err(
                        Error::Internal(
                            "Total playtime exceeds the representable range".to_owned(),
                        ),
                    );
                },
            };
        }
        i = i + 1;
    }
    proof {
        assert(ledger.take(rows@.len() as int) =~= ledger);
    }
    Ok(acc)
}

/// The ledger rows recorded for game `g`, in ledger order.
pub open spec fn rows_for(ledger: Seq<LedgerRowV>, g: Seq<char>) -> Seq<LedgerRowV>
    decreases ledger.len(),
{
    if ledger.len() == 0 {
        Seq::empty()
    } else {
        (if ledger[0].game_id == g {
            seq![ledger[0]]
        } else {
            Seq::empty()
        }) + rows_for(ledger.drop_first(), g)
    }
}

pub proof fn lemma_rows_for_concat(a: Seq<LedgerRowV>, b: Seq<LedgerRowV>, g: Seq<char>)
    ensures
        rows_for(a + b, g) == rows_for(a, g) + rows_for(b, g),
    decreases a.len(),
{
    if a.len() == 0 {
        assert(a + b =~= b);
        assert(rows_for(a, g) + rows_for(b, g) =~= rows_for(b, g));
    } else {
        assert((a + b).drop_first() =~= a.drop_first() + b);
        lemma_rows_for_concat(a.drop_first(), b, g);
        assert(rows_for(a + b, g) =~= rows_for(a, g) + rows_for(b, g));
    }
}

pub proof fn lemma_rows_for_push(l: Seq<LedgerRowV>, row: LedgerRowV, g: Seq<char>)
    ensures
        rows_for(l.push(row), g) == rows_for(l, g) + (if row.game_id == g {
            seq![row]
        } else {
            Seq::<LedgerRowV>::empty()
        }),
{
    assert(l.push(row) =~= l + seq![row]);
    lemma_rows_for_concat(l, seq![row], g);
    let s = seq![row];
    assert(s.len() == 1 && s[0] == row);
    assert(s.drop_first() =~= Seq::<LedgerRowV>::empty());
    assert(rows_for(s.drop_first(), g) =~= Seq::<LedgerRowV>::empty());
    if row.game_id == g {
        assert(rows_for(s, g) =~= seq![row]);
    } else {
        assert(rows_for(s, g) =~= Seq::<LedgerRowV>::empty());
    }
}

/// A value clipped to what an `i64` can hold.
pub open spec fn clip_i64(x: int) -> int {
    if x > i64::MAX as int {
        i64::MAX as int
    } else if x < i64::MIN as int {
        i64::MIN as int
    } else {
        x
    }
}

/// The session a ledger row reads back as: the recorded stamp when its text
/// is canonical, the fallback instant `now` otherwise; the end is the start
/// plus the recorded duration, clipped to the representable range.
pub open spec fn session_of_row(row: LedgerRowV, now: int) -> PlaySessionV {
    let started = if is_canonical_datetime(row.date_time) {
        canonical_datetime_ms(row.date_time)
    } else {
        now
    };
    PlaySessionV {
        game_id: row.game_id,
        started_at: started,
        ended_at: clip_i64(started + row.duration),
        duration: row.duration,
        checksum: row.checksum,
    }
}

/// The sessions game `g`'s ledger rows read back as, with `now` standing in
/// for stamps that are not canonical text.
pub open spec fn expected_sessions(ledger: Seq<LedgerRowV>, g: Seq<char>, now: int) -> Seq<
    PlaySessionV,
> {
    rows_for(ledger, g).map_values(|row: LedgerRowV| session_of_row(row, now))
}

/// Reorder sessions by start, latest first, keeping exactly the same sessions.
fn sort_sessions_desc(v: &mut Vec<PlaySession>)
    ensures
        session_views(final(v)@).to_multiset() == session_views(old(v)@).to_multiset(),
        forall|i: int, j: int|
            0 <= i < j < final(v)@.len() ==> final(v)@[i].started_at >= final(v)@[j].started_at,
{
    broadcast use vstd::seq_lib::group_to_multiset_ensures;

    let ghost orig = session_views(old(v)@);
    let mut out: Vec<PlaySession> = Vec::new();
    while v.len() > 0
        invariant
            orig == session_views(old(v)@),
            session_views(out@).to_multiset().add(session_views(v@).to_multiset())
                == orig.to_multiset(),
            forall|i: int, j: int|
                0 <= i < j < out@.len() ==> out@[i].started_at >= out@[j].started_at,
            forall|k: int, j: int|
                0 <= k < out@.len() && 0 <= j < v@.len() ==> out@[k].started_at
                    >= v@[j].started_at,
        decreases v@.len(),
    {
        let mut best: usize = 0;
        let mut j: usize = 1;
        while j < v.len()
            invariant
                0 < v@.len(),
                best < j <= v@.len(),
                forall|k: int| 0 <= k < j ==> v@[best as int].started_at >= v@[k].started_at,
            decreases v@.len() - j,
        {
            if v[j].started_at > v[best].started_at {
                best = j;
            }
            j = j + 1;
        }
        let ghost prev = v@;
        let ghost prev_out = out@;
        let x = v.remove(best);
        out.push(x);
        proof {
            let m = session_views(prev);
            m.to_multiset_ensures();
            session_views(prev_out).to_multiset_ensures();
            assert(m.remove(best as int) =~= session_views(v@));
            assert(m[best as int] == x@);
            assert(m.remove(best as int).to_multiset() =~= m.to_multiset().remove(x@));
            assert(m.contains(m[best as int]));
            assert(m.to_multiset().count(x@) > 0);
            assert(session_views(out@) =~= session_views(prev_out).push(x@));
            assert(session_views(out@).to_multiset() =~= session_views(prev_out).to_multiset()
                .insert(x@));
            assert(session_views(out@).to_multiset().add(session_views(v@).to_multiset())
                =~= session_views(prev_out).to_multiset().add(session_views(prev).to_multiset()));
            assert forall|jj: int| 0 <= jj < v@.len() implies x.started_at >= v@[jj].started_at by {
                if jj < best as int {
                    assert(v@[jj] == prev[jj]);
                } else {
                    assert(v@[jj] == prev[jj + 1]);
                }
            }
        }
    }
    proof {
        assert(session_views(v@).to_multiset() =~= Multiset::<PlaySessionV>::empty());
        assert(session_views(out@).to_multiset() =~= orig.to_multiset());
    }
    *v = out;
}

/// All recorded sessions of a game, latest start first.  Each ledger row of
/// the game reads back as one session; a row whose stamp is not canonical
/// text is given the current local time instead, per the lossy read policy.
pub fn get_game_sessions(conn: &rusqlite::Connection, game_id: &str) -> (r: Result<
    Vec<PlaySession>,
    Error,
>)
    ensures
        r matches Ok(v) ==> (exists|now_ms: int|
            session_views(v@).to_multiset() == #[trigger] expected_sessions(
                store_of(*conn).ledger,
                game_id@,
                now_ms,
            ).to_multiset()) && (forall|i: int, j: int|
            0 <= i < j < v@.len() ==> v@[i].started_at >= v@[j].started_at),
        r is Err ==> (r->Err_0 is Database),
{
    let rows = exec_fetch_ledger(conn)?;
    let now = now_local_naive_ms();
    let ghost ledger = store_of(*conn).ledger;
    let ghost gid = game_id@;
    let ghost gnow = now as int;
    let mut out: Vec<PlaySession> = Vec::new();
    let mut i: usize = 0;
    while i < rows.len()
        invariant
            gid == game_id@,
            gnow == now as int,
            rows@.map_values(|x: LedgerRow| x@) == ledger,
            i <= rows@.len(),
            session_views(out@) == rows_for(ledger.take(i as int), gid).map_values(
                |row: LedgerRowV| session_of_row(row, gnow),
            ),
        decreases rows@.len() - i,
    {
        proof {
            assert(ledger.take(i as int).push(ledger[i as int]) =~= ledger.take(i as int + 1));
            lemma_rows_for_push(ledger.take(i as int), ledger[i as int], gid);
            assert(rows@[i as int]@ == ledger[i as int]);
        }
        let ghost prev_out = out@;
        if str_eq(rows[i].game_id.as_str(), game_id) {
            let parsed = parse_datetime_ms(rows[i].date_time.as_str());
            proof {
                lemma_parse_result(rows@[i as int].date_time@, parsed);
            }
            let started = match parsed {
                Some(v) => v,
                None => now,
            };
            let duration = rows[i].duration;
            let ended = match started.checked_add(duration) {
                Some(v) => v,
                None => {
                    if duration >= 0 {
                        i64::MAX
                    } else {
                        i64::MIN
                    }
                },
            };
            let piece = PlaySession {
                game_id: rows[i].game_id.clone(),
                started_at: started,
                ended_at: ended,
                duration,
                checksum: match &rows[i].checksum {
                    Some(c) => Some(c.clone()),
                    None => None,
                },
            };
            out.push(piece);
            proof {
                assert(piece@ == session_of_row(ledger[i as int], gnow));
                assert(session_views(out@) =~= session_views(prev_out).push(piece@));
                assert(session_views(out@) =~= rows_for(ledger.take(i as int + 1), gid).map_values(
                    |row: LedgerRowV| session_of_row(row, gnow),
                ));
            }
        } else {
            proof {
                assert(rows_for(ledger.take(i as int), gid) + Seq::<LedgerRowV>::empty()
                    =~= rows_for(ledger.take(i as int), gid));
                assert(session_views(out@) =~= rows_for(ledger.take(i as int + 1), gid).map_values(
                    |row: LedgerRowV| session_of_row(row, gnow),
                ));
            }
        }
        i = i + 1;
    }
    proof {
        assert(ledger.take(rows@.len() as int) =~= ledger);
        assert(session_views(out@) == expected_sessions(ledger, gid, gnow));
    }
    sort_sessions_desc(&mut out);
    proof {
        assert(session_views(out@).to_multiset() == expected_sessions(
            ledger,
            gid,
            gnow,
        ).to_multiset());
    }
    Ok(out)
}

} // verus!
