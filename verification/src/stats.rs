//! Read-only aggregates over the ledger, the running totals and the game
//! dictionary.

use vstd::prelude::*;
use vstd::multiset::Multiset;
use crate::calendar::canonical_datetime_ms;
use crate::calendar::day_of;
use crate::calendar::is_canonical_datetime;
use crate::calendar::lemma_parse_result;
use crate::calendar::parse_datetime_ms;
use crate::error::Error;
use crate::games::get_game;
use crate::models::DailyGameStats;
use crate::models::DailyStatistics;
use crate::models::Game;
use crate::models::GameStatistics;
use crate::models::LedgerRow;
use crate::models::LedgerRowV;
use crate::models::SessionInfo;
use crate::models::SessionInfoV;
use crate::models::info_views;
use crate::models::row_views;
use crate::models::str_eq;
use crate::store::exec_fetch_games;
use crate::store::exec_fetch_ledger;
use crate::store::games_vec_matches;
use crate::store::StoreV;
use crate::store::store_of;
use crate::tracking::count_for;
use crate::tracking::sum_for;

verus! {

/// The later of two optional stamps.
pub open spec fn opt_max(a: Option<int>, b: Option<int>) -> Option<int> {
    match (a, b) {
        (Option::None, Option::None) => Option::None,
        (Option::Some(x), Option::None) => Option::Some(x),
        (Option::None, Option::Some(y)) => Option::Some(y),
        (Option::Some(x), Option::Some(y)) => Option::Some(
            if x >= y {
                x
            } else {
                y
            },
        ),
    }
}

/// The stamp a row contributes to "last played": its canonical value, when
/// the row belongs to game `g` and its stamp is canonical text.
pub open spec fn row_stamp(row: LedgerRowV, g: Seq<char>) -> Option<int> {
    if row.game_id == g && is_canonical_datetime(row.date_time) {
        Option::Some(canonical_datetime_ms(row.date_time))
    } else {
        Option::None
    }
}

/// The latest readable stamp among game `g`'s ledger rows.
pub open spec fn max_stamp(ledger: Seq<LedgerRowV>, g: Seq<char>) -> Option<int>
    decreases ledger.len(),
{
    if ledger.len() == 0 {
        Option::None
    } else {
        opt_max(max_stamp(ledger.drop_first(), g), row_stamp(ledger[0], g))
    }
}

#[verifier::spinoff_prover]
pub proof fn lemma_max_stamp_push(l: Seq<LedgerRowV>, row: LedgerRowV, g: Seq<char>)
    ensures
        max_stamp(l.push(row), g) == opt_max(max_stamp(l, g), row_stamp(row, g)),
    decreases l.len(),
{
    let s = l.push(row);
    if l.len() == 0 {
        assert(s.drop_first() =~= Seq::<LedgerRowV>::empty());
        assert(s[0] == row);
        assert(s.len() == 1);
        assert(max_stamp(s, g) == opt_max(max_stamp(s.drop_first(), g), row_stamp(s[0], g)));
        assert(max_stamp(s.drop_first(), g) == Option::<int>::None);
        assert(max_stamp(l, g) == Option::<int>::None);
    } else {
        assert(s.drop_first() =~= l.drop_first().push(row));
        lemma_max_stamp_push(l.drop_first(), row, g);
        let a = max_stamp(l.drop_first(), g);
        let b = row_stamp(row, g);
        let c = row_stamp(l[0], g);
        assert(s[0] == l[0]);
        assert(max_stamp(s, g) == opt_max(max_stamp(s.drop_first(), g), row_stamp(s[0], g)));
        assert(max_stamp(s.drop_first(), g) == opt_max(a, b));
        assert(max_stamp(l, g) == opt_max(a, c));
        assert(opt_max(opt_max(a, b), c) == opt_max(opt_max(a, c), b));
    }
}

/// One pass over fetched ledger rows for one game: its total duration, its
/// row count, and its latest readable stamp.
fn scan_rows(rows: &Vec<LedgerRow>, game_id: &str) -> (r: Result<(i64, i64, Option<i64>), Error>)
    ensures
        r matches Ok(t) ==> {
            let views = rows@.map_values(|x: LedgerRow| x@);
            &&& t.0 == sum_for(views, game_id@)
            &&& t.1 == count_for(views, game_id@)
            &&& (match max_stamp(views, game_id@) {
                Option::None => t.2 is None,
                Option::Some(v) => t.2 == Option::Some(v as i64) && v == v as i64 as int,
            })
        },
        r is Err ==> (r->Err_0 is Internal) && (exists|k: int|
            0 <= k <= rows@.len() && (!(i64::MIN as int <= sum_for(
                #[trigger] row_views(rows@).take(k),
                game_id@,
            ) <= i64::MAX as int) || count_for(row_views(rows@).take(k), game_id@)
                > i64::MAX as int)),
{
    let ghost views = rows@.map_values(|x: LedgerRow| x@);
    let mut total: i64 = 0;
    let mut count: i64 = 0;
    let mut last: Option<i64> = None;
    let mut i: usize = 0;
    while i < rows.len()
        invariant
            views == rows@.map_values(|x: LedgerRow| x@),
            i <= rows@.len(),
            total == sum_for(views.take(i as int), game_id@),
            count == count_for(views.take(i as int), game_id@),
            (match max_stamp(views.take(i as int), game_id@) {
                Option::None => last is None,
                Option::Some(v) => last == Option::Some(v as i64) && v == v as i64 as int,
            }),
        decreases rows@.len() - i,
    {
        proof {
            assert(views.take(i as int).push(views[i as int]) =~= views.take(i as int + 1));
            crate::tracking::lemma_sum_for_push(views.take(i as int), views[i as int], game_id@);
            crate::tracking::lemma_count_for_push(views.take(i as int), views[i as int], game_id@);
            lemma_max_stamp_push(views.take(i as int), views[i as int], game_id@);
            assert(rows@[i as int]@ == views[i as int]);
        }
        if str_eq(rows[i].game_id.as_str(), game_id) {
            total = match total.checked_add(rows[i].duration) {
                Some(v) => v,
                None => {
                    proof {
                        assert(views == row_views(rows@));
                        assert(!(i64::MIN as int <= sum_for(
                            row_views(rows@).take(i as int + 1),
                            game_id@,
                        ) <= i64::MAX as int));
                    }
                    return Err(
                        Error::Internal("Total playtime exceeds the representable range".to_owned()),
                    );
                },
            };
            count = match count.checked_add(1) {
                Some(v) => v,
                None => {
                    proof {
                        assert(views == row_views(rows@));
                        assert(count_for(
                            row_views(rows@).take(i as int + 1),
                            game_id@,
                        ) > i64::MAX as int);
                    }
                    return Err(
                        Error::Internal("Session count exceeds the representable range".to_owned()),
                    );
                },
            };
            let parsed = parse_datetime_ms(rows[i].date_time.as_str());
            proof {
                lemma_parse_result(rows@[i as int].date_time@, parsed);
            }
            match parsed {
                Some(ms) => {
                    last = match last {
                        Some(prev) => {
                            if ms >= prev {
                                Some(ms)
                            } else {
                                Some(prev)
                            }
                        },
                        None => Some(ms),
                    };
                },
                None => {},
            }
        }
        i = i + 1;
    }
    proof {
        assert(views.take(rows@.len() as int) =~= views);
    }
    Ok((total, count, last))
}

/// Aggregate figures for one game, or nothing when the game is unknown.
pub fn get_game_statistics(conn: &rusqlite::Connection, game_id: &str) -> (r: Result<
    Option<GameStatistics>,
    Error,
>)
    ensures
        r matches Ok(None) ==> !store_of(*conn).games.contains_key(game_id@),
        r matches Ok(Some(st)) ==> {
            let s = store_of(*conn);
            &&& s.games.contains_key(game_id@)
            &&& st.game.id@ == game_id@ && st.game.name@ == s.games[game_id@]
            &&& st.total_time == sum_for(s.ledger, game_id@)
            &&& st.total_sessions == count_for(s.ledger, game_id@)
            &&& (match max_stamp(s.ledger, game_id@) {
                Option::None => st.last_played is None,
                Option::Some(v) => st.last_played == Option::Some(v as i64) && v == v as i64 as int,
            })
            &&& st.last_session_duration is None
        },
        r is Err ==> (r->Err_0 is Database) || ((r->Err_0 is Internal) && exists|k: int|
            0 <= k <= store_of(*conn).ledger.len() && (!(i64::MIN as int <= sum_for(
                #[trigger] store_of(*conn).ledger.take(k),
                game_id@,
            ) <= i64::MAX as int) || count_for(store_of(*conn).ledger.take(k), game_id@)
                > i64::MAX as int)),
{
    let game = match get_game(conn, game_id)? {
        Some(g) => g,
        None => {
            return Ok(None);
        },
    };
    let rows = exec_fetch_ledger(conn)?;
    let t = match scan_rows(&rows, game_id) {
        Ok(t) => t,
        Err(e) => {
            proof {
                let k = choose|k: int|
                    0 <= k <= rows@.len() && (!(i64::MIN as int <= sum_for(
                        #[trigger] row_views(rows@).take(k),
                        game_id@,
                    ) <= i64::MAX as int) || count_for(row_views(rows@).take(k), game_id@)
                        > i64::MAX as int);
                assert(row_views(rows@) == store_of(*conn).ledger);
                assert(!(i64::MIN as int <= sum_for(store_of(*conn).ledger.take(k), game_id@)
                    <= i64::MAX as int) || count_for(store_of(*conn).ledger.take(k), game_id@)
                    > i64::MAX as int);
            }
            return Err(e);
        },
    };
    Ok(
        Some(
            GameStatistics {
                game,
                total_time: t.0,
                total_sessions: t.1,
                last_played: t.2,
                last_session_duration: None,
            },
        ),
    )
}

/// Whether every listed game is a dictionary game with its true aggregates
/// and a positive total.
pub open spec fn overall_entries_sound(
    v: Seq<GameStatistics>,
    games: Map<Seq<char>, Seq<char>>,
    ledger: Seq<LedgerRowV>,
) -> bool {
    forall|i: int|
        0 <= i < v.len() ==> {
            let st = #[trigger] v[i];
            &&& games.contains_key(st.game.id@) && st.game.name@ == games[st.game.id@]
            &&& st.total_time == sum_for(ledger, st.game.id@) && st.total_time > 0
            &&& st.total_sessions == count_for(ledger, st.game.id@)
            &&& (match max_stamp(ledger, st.game.id@) {
                Option::None => st.last_played is None,
                Option::Some(m) => st.last_played == Option::Some(m as i64) && m == m as i64 as int,
            })
            &&& st.last_session_duration is None
        }
}

/// Aggregates for every game with positive recorded total, largest total
/// first.  Games whose recorded total is not positive are left out.
pub fn get_overall_statistics(conn: &rusqlite::Connection) -> (r: Result<
    Vec<GameStatistics>,
    Error,
>)
    ensures
        r matches Ok(v) ==> {
            let s = store_of(*conn);
            &&& overall_entries_sound(v@, s.games, s.ledger)
            &&& (forall|g: Seq<char>|
                #[trigger] s.games.contains_key(g) && sum_for(s.ledger, g) > 0 ==> exists|i: int|
                    0 <= i < v@.len() && (#[trigger] v@[i].game.id@) == g)
            &&& (forall|i: int, j: int|
                0 <= i < j < v@.len() ==> v@[i].total_time >= v@[j].total_time)
        },
        r is Err ==> (r->Err_0 is Database) || ((r->Err_0 is Internal) && exists|
            g: Seq<char>,
            k: int,
        |
            0 <= k <= store_of(*conn).ledger.len() && (!(i64::MIN as int <= #[trigger] sum_for(
                store_of(*conn).ledger.take(k),
                g,
            ) <= i64::MAX as int) || count_for(store_of(*conn).ledger.take(k), g)
                > i64::MAX as int)),
{
    let games = exec_fetch_games(conn)?;
    let rows = exec_fetch_ledger(conn)?;
    let ghost s = store_of(*conn);
    proof {
        assert(rows@.map_values(|x: LedgerRow| x@) == s.ledger);
        assert(row_views(rows@) == s.ledger);
    }
    let mut out: Vec<GameStatistics> = Vec::new();
    let mut i: usize = 0;
    while i < games.len()
        invariant
            s == store_of(*conn),
            games_vec_matches(games@, s.games),
            rows@.map_values(|x: LedgerRow| x@) == s.ledger,
            i <= games@.len(),
            overall_entries_sound(out@, s.games, s.ledger),
            forall|j: int|
                0 <= j < i && sum_for(s.ledger, #[trigger] games@[j].id@) > 0 ==> exists|k: int|
                    0 <= k < out@.len() && (#[trigger] out@[k].game.id@) == games@[j].id@,
        decreases games@.len() - i,
    {
        let t = match scan_rows(&rows, games[i].id.as_str()) {
            Ok(t) => t,
            Err(e) => {
                proof {
                    let gg = games@[i as int].id@;
                    let k = choose|k: int|
                        0 <= k <= rows@.len() && (!(i64::MIN as int <= sum_for(
                            #[trigger] row_views(rows@).take(k),
                            gg,
                        ) <= i64::MAX as int) || count_for(row_views(rows@).take(k), gg)
                            > i64::MAX as int);
                    assert(row_views(rows@) == store_of(*conn).ledger);
                    assert(!(i64::MIN as int <= sum_for(store_of(*conn).ledger.take(k), gg)
                        <= i64::MAX as int) || count_for(store_of(*conn).ledger.take(k), gg)
                        > i64::MAX as int);
                }
                return Err(e);
            },
        };
        let ghost prev_out = out@;
        if t.0 > 0 {
            let st = GameStatistics {
                game: Game { id: games[i].id.clone(), name: games[i].name.clone() },
                total_time: t.0,
                total_sessions: t.1,
                last_played: t.2,
                last_session_duration: None,
            };
            out.push(st);
        }
        proof {
            assert forall|j: int|
                0 <= j < i + 1 && sum_for(s.ledger, #[trigger] games@[j].id@) > 0 implies exists|
                k: int,
            |
                0 <= k < out@.len() && (#[trigger] out@[k].game.id@) == games@[j].id@ by {
                if j == i {
                    assert(out@[out@.len() - 1].game.id@ == games@[j].id@);
                } else {
                    let k = choose|k: int|
                        0 <= k < prev_out.len() && (#[trigger] prev_out[k].game.id@)
                            == games@[j].id@;
                    assert(out@[k].game.id@ == games@[j].id@);
                }
            }
        }
        i = i + 1;
    }
    proof {
        assert forall|g: Seq<char>|
            #[trigger] s.games.contains_key(g) && sum_for(s.ledger, g) > 0 implies exists|k: int|
            0 <= k < out@.len() && (#[trigger] out@[k].game.id@) == g by {
            let j = choose|j: int| 0 <= j < games@.len() && #[trigger] games@[j].id@ == g;
            assert(sum_for(s.ledger, games@[j].id@) > 0);
        }
    }
    let ghost before_sort = out@;
    sort_stats_desc(&mut out);
    proof {
        assert forall|ii: int| 0 <= ii < out@.len() implies {
            let st = #[trigger] out@[ii];
            &&& s.games.contains_key(st.game.id@) && st.game.name@ == s.games[st.game.id@]
            &&& st.total_time == sum_for(s.ledger, st.game.id@) && st.total_time > 0
            &&& st.total_sessions == count_for(s.ledger, st.game.id@)
            &&& (match max_stamp(s.ledger, st.game.id@) {
                Option::None => st.last_played is None,
                Option::Some(m) => st.last_played == Option::Some(m as i64) && m == m as i64 as int,
            })
            &&& st.last_session_duration is None
        } by {
            assert(out@.contains(out@[ii]));
            assert(before_sort.contains(out@[ii]));
            let k = choose|k: int| 0 <= k < before_sort.len() && before_sort[k] == out@[ii];
            assert(before_sort[k] == out@[ii]);
        }
        assert forall|g: Seq<char>|
            #[trigger] s.games.contains_key(g) && sum_for(s.ledger, g) > 0 implies exists|k: int|
            0 <= k < out@.len() && (#[trigger] out@[k].game.id@) == g by {
            let k0 = choose|k: int|
                0 <= k < before_sort.len() && (#[trigger] before_sort[k].game.id@) == g;
            let x = before_sort[k0];
            assert(before_sort.contains(x));
            assert(out@.contains(x));
            let k = choose|k: int| 0 <= k < out@.len() && out@[k] == x;
            assert(out@[k].game.id@ == g);
        }
    }
    Ok(out)
}

/// Whether a ledger row shows up in the day-bucketed view for the given day
/// range: its game is in the dictionary, its stamp is canonical text, and the
/// stamp's day lies in the range.
pub open spec fn row_in_range(
    row: LedgerRowV,
    games: Map<Seq<char>, Seq<char>>,
    start_day: int,
    end_day: int,
) -> bool {
    &&& games.contains_key(row.game_id)
    &&& is_canonical_datetime(row.date_time)
    &&& start_day <= day_of(canonical_datetime_ms(row.date_time)) <= end_day
}

/// The in-range ledger rows of game `g` whose stamp falls on day `d`, in
/// ledger order.
pub open spec fn day_game_rows(
    ledger: Seq<LedgerRowV>,
    games: Map<Seq<char>, Seq<char>>,
    start_day: int,
    end_day: int,
    d: int,
    g: Seq<char>,
) -> Seq<LedgerRowV>
    decreases ledger.len(),
{
    if ledger.len() == 0 {
        Seq::empty()
    } else {
        (if row_in_range(ledger[0], games, start_day, end_day) && day_of(
            canonical_datetime_ms(ledger[0].date_time),
        ) == d && ledger[0].game_id == g {
            seq![ledger[0]]
        } else {
            Seq::empty()
        }) + day_game_rows(ledger.drop_first(), games, start_day, end_day, d, g)
    }
}

#[verifier::spinoff_prover]
proof fn lemma_day_game_rows_push(
    l: Seq<LedgerRowV>,
    row: LedgerRowV,
    games: Map<Seq<char>, Seq<char>>,
    start_day: int,
    end_day: int,
    d: int,
    g: Seq<char>,
)
    ensures
        day_game_rows(l.push(row), games, start_day, end_day, d, g) == day_game_rows(
            l,
            games,
            start_day,
            end_day,
            d,
            g,
        ) + (if row_in_range(row, games, start_day, end_day) && day_of(
            canonical_datetime_ms(row.date_time),
        ) == d && row.game_id == g {
            seq![row]
        } else {
            Seq::<LedgerRowV>::empty()
        }),
    decreases l.len(),
{
    let s = l.push(row);
    let piece = if row_in_range(row, games, start_day, end_day) && day_of(
        canonical_datetime_ms(row.date_time),
    ) == d && row.game_id == g {
        seq![row]
    } else {
        Seq::<LedgerRowV>::empty()
    };
    if l.len() == 0 {
        assert(s.drop_first() =~= Seq::<LedgerRowV>::empty());
        assert(s[0] == row);
        assert(s.len() == 1);
        assert(day_game_rows(s, games, start_day, end_day, d, g) == piece + day_game_rows(
            s.drop_first(),
            games,
            start_day,
            end_day,
            d,
            g,
        ));
        assert(day_game_rows(s.drop_first(), games, start_day, end_day, d, g) =~= Seq::<
            LedgerRowV,
        >::empty());
        assert(day_game_rows(l, games, start_day, end_day, d, g) =~= Seq::<LedgerRowV>::empty());
        assert(day_game_rows(s, games, start_day, end_day, d, g) =~= day_game_rows(
            l,
            games,
            start_day,
            end_day,
            d,
            g,
        ) + piece);
    } else {
        assert(s.drop_first() =~= l.drop_first().push(row));
        assert(s[0] == l[0]);
        assert(s.len() == l.len() + 1);
        lemma_day_game_rows_push(l.drop_first(), row, games, start_day, end_day, d, g);
        let head = if row_in_range(l[0], games, start_day, end_day) && day_of(
            canonical_datetime_ms(l[0].date_time),
        ) == d && l[0].game_id == g {
            seq![l[0]]
        } else {
            Seq::<LedgerRowV>::empty()
        };
        assert(day_game_rows(s, games, start_day, end_day, d, g) == head + day_game_rows(
            s.drop_first(),
            games,
            start_day,
            end_day,
            d,
            g,
        ));
        assert(day_game_rows(l, games, start_day, end_day, d, g) == head + day_game_rows(
            l.drop_first(),
            games,
            start_day,
            end_day,
            d,
            g,
        ));
        assert(day_game_rows(s, games, start_day, end_day, d, g) =~= day_game_rows(
            l,
            games,
            start_day,
            end_day,
            d,
            g,
        ) + piece);
    }
}

/// The day-bucket entry a qualifying row reads back as.
pub open spec fn info_of_row(row: LedgerRowV) -> SessionInfoV {
    SessionInfoV {
        date: canonical_datetime_ms(row.date_time),
        duration: row.duration,
        migrated: row.provenance,
        checksum: row.checksum,
    }
}

/// Total duration of a sequence of ledger rows.
pub open spec fn rows_duration_sum(s: Seq<LedgerRowV>) -> int
    decreases s.len(),
{
    if s.len() == 0 {
        0
    } else {
        s[0].duration + rows_duration_sum(s.drop_first())
    }
}

#[verifier::spinoff_prover]
proof fn lemma_rows_duration_sum_push(l: Seq<LedgerRowV>, row: LedgerRowV)
    ensures
        rows_duration_sum(l.push(row)) == rows_duration_sum(l) + row.duration,
    decreases l.len(),
{
    if l.len() == 0 {
        assert(l.push(row).drop_first() =~= Seq::<LedgerRowV>::empty());
        assert((l.push(row))[0] == row);
        assert(l.push(row).len() == 1);
        assert(rows_duration_sum(l.push(row).drop_first()) == 0);
    } else {
        assert(l.push(row).drop_first() =~= l.drop_first().push(row));
        assert((l.push(row))[0] == l[0]);
        assert(l.push(row).len() == l.len() + 1);
        lemma_rows_duration_sum_push(l.drop_first(), row);
    }
}

/// Find a game's display name in a fetched dictionary.
fn find_game_name(
    games: &Vec<Game>,
    game_id: &str,
    Ghost(gm): Ghost<Map<Seq<char>, Seq<char>>>,
) -> (r: Option<String>)
    requires
        games_vec_matches(games@, gm),
    ensures
        r matches Some(name) ==> gm.contains_key(game_id@) && name@ == gm[game_id@],
        r is None ==> !gm.contains_key(game_id@),
{
    let mut i: usize = 0;
    while i < games.len()
        invariant
            games_vec_matches(games@, gm),
            i <= games@.len(),
            forall|j: int| 0 <= j < i ==> games@[j].id@ != game_id@,
        decreases games@.len() - i,
    {
        if str_eq(games[i].id.as_str(), game_id) {
            return Some(games[i].name.clone());
        }
        i = i + 1;
    }
    proof {
        if gm.contains_key(game_id@) {
            let w = choose|j: int| 0 <= j < games@.len() && #[trigger] games@[j].id@ == game_id@;
            assert(false);
        }
    }
    None
}

/// Decide whether a row shows up in the day-bucketed view, and on which day.
fn qualify_row(
    row: &LedgerRow,
    games: &Vec<Game>,
    Ghost(gm): Ghost<Map<Seq<char>, Seq<char>>>,
    start_day: i64,
    end_day: i64,
) -> (r: Option<i64>)
    requires
        games_vec_matches(games@, gm),
    ensures
        r matches Some(d) ==> row_in_range(row@, gm, start_day as int, end_day as int) && d
            == day_of(canonical_datetime_ms(row@.date_time)),
        r is None ==> !row_in_range(row@, gm, start_day as int, end_day as int),
{
    let known = match find_game_name(games, row.game_id.as_str(), Ghost(gm)) {
        Some(_) => true,
        None => false,
    };
    if !known {
        return None;
    }
    let parsed = parse_datetime_ms(row.date_time.as_str());
    proof {
        lemma_parse_result(row.date_time@, parsed);
    }
    match parsed {
        Some(ms) => {
            let d = ms / crate::calendar::MS_PER_DAY;
            if start_day <= d && d <= end_day {
                Some(d)
            } else {
                None
            }
        },
        None => None,
    }
}

/// Gather the sessions of game `g` on day `d`, in ledger order, with their
/// total duration.
fn collect_day_game_sessions(
    rows: &Vec<LedgerRow>,
    games: &Vec<Game>,
    Ghost(gm): Ghost<Map<Seq<char>, Seq<char>>>,
    start_day: i64,
    end_day: i64,
    d: i64,
    g: &str,
) -> (r: Result<(Vec<SessionInfo>, i64), Error>)
    requires
        games_vec_matches(games@, gm),
    ensures
        r matches Ok(t) ==> {
            let picked = day_game_rows(
                rows@.map_values(|x: LedgerRow| x@),
                gm,
                start_day as int,
                end_day as int,
                d as int,
                g@,
            );
            &&& info_views(t.0@) == picked.map_values(|row: LedgerRowV| info_of_row(row))
            &&& t.1 == rows_duration_sum(picked)
        },
        r is Err ==> (r->Err_0 is Internal) && (exists|k: int|
            0 <= k <= rows@.len() && !(i64::MIN as int <= rows_duration_sum(
                day_game_rows(
                    #[trigger] row_views(rows@).take(k),
                    gm,
                    start_day as int,
                    end_day as int,
                    d as int,
                    g@,
                ),
            ) <= i64::MAX as int)),
{
    let ghost views = rows@.map_values(|x: LedgerRow| x@);
    let mut out: Vec<SessionInfo> = Vec::new();
    let mut time: i64 = 0;
    let mut k: usize = 0;
    while k < rows.len()
        invariant
            games_vec_matches(games@, gm),
            views == rows@.map_values(|x: LedgerRow| x@),
            k <= rows@.len(),
            info_views(out@) == day_game_rows(
                views.take(k as int),
                gm,
                start_day as int,
                end_day as int,
                d as int,
                g@,
            ).map_values(|row: LedgerRowV| info_of_row(row)),
            time == rows_duration_sum(
                day_game_rows(
                    views.take(k as int),
                    gm,
                    start_day as int,
                    end_day as int,
                    d as int,
                    g@,
                ),
            ),
        decreases rows@.len() - k,
    {
        let ghost taken = views.take(k as int);
        let ghost picked = day_game_rows(
            taken,
            gm,
            start_day as int,
            end_day as int,
            d as int,
            g@,
        );
        proof {
            assert(taken.push(views[k as int]) =~= views.take(k as int + 1));
            lemma_day_game_rows_push(
                taken,
                views[k as int],
                gm,
                start_day as int,
                end_day as int,
                d as int,
                g@,
            );
            assert(rows@[k as int]@ == views[k as int]);
        }
        let ghost prev_out = out@;
        let mut picked_here = false;
        let qd = qualify_row(&rows[k], games, Ghost(gm), start_day, end_day);
        match qd {
            Some(day) => {
                if day == d && str_eq(rows[k].game_id.as_str(), g) {
                    picked_here = true;
                    let parsed = parse_datetime_ms(rows[k].date_time.as_str());
                    proof {
                        lemma_parse_result(rows@[k as int].date_time@, parsed);
                    }
                    let ms = match parsed {
                        Some(v) => v,
                        None => {
                            // A row this branch reaches qualified, so its
                            // stamp is canonical text and must parse.
                            proof {
                                assert(is_canonical_datetime(views[k as int].date_time));
                                assert(false);
                            }
                            vstd::pervasive::unreached()
                        },
                    };
                    let info = SessionInfo {
                        date: ms,
                        duration: rows[k].duration,
                        migrated: match &rows[k].provenance {
                            Some(s) => Some(s.clone()),
                            None => None,
                        },
                        checksum: match &rows[k].checksum {
                            Some(s) => Some(s.clone()),
                            None => None,
                        },
                    };
                    time = match time.checked_add(rows[k].duration) {
                        Some(v) => v,
                        None => {
                            proof {
                                lemma_rows_duration_sum_push(picked, views[k as int]);
                                assert(day_game_rows(
                                    views.take(k as int + 1),
                                    gm,
                                    start_day as int,
                                    end_day as int,
                                    d as int,
                                    g@,
                                ) =~= picked.push(views[k as int]));
                                assert(views == row_views(rows@));
                                assert(!(i64::MIN as int <= rows_duration_sum(
                                    day_game_rows(
                                        row_views(rows@).take(k as int + 1),
                                        gm,
                                        start_day as int,
                                        end_day as int,
                                        d as int,
                                        g@,
                                    ),
                                ) <= i64::MAX as int));
                            }
                            return Err(
                                Error::Internal(
                                    "Daily playtime exceeds the representable range".to_owned(),
                                ),
                            );
                        },
                    };
                    out.push(info);
                    proof {
                        assert(info@ == info_of_row(views[k as int]));
                        assert(info_views(out@) =~= info_views(prev_out).push(info@));
                        assert(picked.push(views[k as int]).map_values(
                            |row: LedgerRowV| info_of_row(row),
                        ) =~= picked.map_values(|row: LedgerRowV| info_of_row(row)).push(
                            info_of_row(views[k as int]),
                        ));
                        lemma_rows_duration_sum_push(picked, views[k as int]);
                        assert(day_game_rows(
                            views.take(k as int + 1),
                            gm,
                            start_day as int,
                            end_day as int,
                            d as int,
                            g@,
                        ) =~= picked.push(views[k as int]));
                    }
                }
            },
            None => {},
        }
        proof {
            if !picked_here {
                assert(day_game_rows(
                    views.take(k as int + 1),
                    gm,
                    start_day as int,
                    end_day as int,
                    d as int,
                    g@,
                ) =~= picked);
            }
        }
        k = k + 1;
    }
    proof {
        assert(views.take(rows@.len() as int) =~= views);
    }
    Ok((out, time))
}

/// Whether one game's share of one day is truthful: the game is in the
/// dictionary, the sessions are exactly the game's in-range rows of that day
/// in ledger order, and the time is their total duration.
pub open spec fn daily_game_ok(
    dg: DailyGameStats,
    games: Map<Seq<char>, Seq<char>>,
    ledger: Seq<LedgerRowV>,
    start_day: int,
    end_day: int,
    d: int,
) -> bool {
    &&& games.contains_key(dg.game.id@) && dg.game.name@ == games[dg.game.id@]
    &&& info_views(dg.sessions@) == day_game_rows(
        ledger,
        games,
        start_day,
        end_day,
        d,
        dg.game.id@,
    ).map_values(|row: LedgerRowV| info_of_row(row))
    &&& dg.time == rows_duration_sum(
        day_game_rows(ledger, games, start_day, end_day, d, dg.game.id@),
    )
}

/// Whether one day's bucket is truthful: every listed game is truthful for
/// the day, games are listed once each and by descending time, and every
/// in-range row of the day has its game listed.
pub open spec fn daily_entry_ok(
    e: DailyStatistics,
    games: Map<Seq<char>, Seq<char>>,
    ledger: Seq<LedgerRowV>,
    start_day: int,
    end_day: int,
) -> bool {
    &&& forall|a: int|
        0 <= a < e.games@.len() ==> daily_game_ok(
            #[trigger] e.games@[a],
            games,
            ledger,
            start_day,
            end_day,
            e.date as int,
        )
    &&& forall|a: int, b: int|
        0 <= a < b < e.games@.len() ==> e.games@[a].game.id@ != e.games@[b].game.id@
    &&& forall|a: int, b: int| 0 <= a < b < e.games@.len() ==> e.games@[a].time >= e.games@[b].time
    &&& forall|k: int|
        0 <= k < ledger.len() && row_in_range(#[trigger] ledger[k], games, start_day, end_day)
            && day_of(canonical_datetime_ms(ledger[k].date_time)) == e.date as int ==> exists|
            a: int,
        |
            0 <= a < e.games@.len() && (#[trigger] e.games@[a].game.id@) == ledger[k].game_id
}

/// Whether a day index already stands in the list.
fn contains_day(v: &Vec<i64>, x: i64) -> (r: bool)
    ensures
        r == v@.contains(x),
{
    let mut i: usize = 0;
    while i < v.len()
        invariant
            i <= v@.len(),
            forall|j: int| 0 <= j < i ==> v@[j] != x,
        decreases v@.len() - i,
    {
        if v[i] == x {
            assert(v@[i as int] == x);
            return true;
        }
        i = i + 1;
    }
    false
}

/// Whether a game already stands in a day's list.
fn contains_game(v: &Vec<DailyGameStats>, id: &str) -> (r: bool)
    ensures
        r == exists|a: int| 0 <= a < v@.len() && (#[trigger] v@[a].game.id@) == id@,
{
    let mut i: usize = 0;
    while i < v.len()
        invariant
            i <= v@.len(),
            forall|j: int| 0 <= j < i ==> v@[j].game.id@ != id@,
        decreases v@.len() - i,
    {
        if str_eq(v[i].game.id.as_str(), id) {
            assert(v@[i as int].game.id@ == id@);
            return true;
        }
        i = i + 1;
    }
    false
}

/// Reorder day indices, latest first, keeping exactly the same days.
fn sort_days_desc(v: &mut Vec<i64>)
    ensures
        final(v)@.to_multiset() == old(v)@.to_multiset(),
        forall|i: int, j: int| 0 <= i < j < final(v)@.len() ==> final(v)@[i] >= final(v)@[j],
        forall|x: i64| #[trigger] final(v)@.contains(x) <==> old(v)@.contains(x),
{
    broadcast use vstd::seq_lib::group_to_multiset_ensures;

    let ghost orig = old(v)@;
    let mut out: Vec<i64> = Vec::new();
    while v.len() > 0
        invariant
            orig == old(v)@,
            out@.to_multiset().add(v@.to_multiset()) == orig.to_multiset(),
            forall|i: int, j: int| 0 <= i < j < out@.len() ==> out@[i] >= out@[j],
            forall|k: int, j: int|
                0 <= k < out@.len() && 0 <= j < v@.len() ==> out@[k] >= v@[j],
        decreases v@.len(),
    {
        let mut best: usize = 0;
        let mut j: usize = 1;
        while j < v.len()
            invariant
                0 < v@.len(),
                best < j <= v@.len(),
                forall|k: int| 0 <= k < j ==> v@[best as int] >= v@[k],
            decreases v@.len() - j,
        {
            if v[j] > v[best] {
                best = j;
            }
            j = j + 1;
        }
        let ghost prev = v@;
        let ghost prev_out = out@;
        let x = v.remove(best);
        out.push(x);
        proof {
            prev.to_multiset_ensures();
            prev_out.to_multiset_ensures();
            assert(prev.contains(prev[best as int]));
            assert(prev.to_multiset().count(x) > 0);
            assert(v@ == prev.remove(best as int));
            assert(prev.remove(best as int).to_multiset() =~= prev.to_multiset().remove(x));
            assert(prev_out.push(x).to_multiset() =~= prev_out.to_multiset().insert(x));
            assert(out@.to_multiset().add(v@.to_multiset()) =~= prev_out.to_multiset().add(
                prev.to_multiset(),
            ));
            assert forall|jj: int| 0 <= jj < v@.len() implies x >= v@[jj] by {
                if jj < best as int {
                    assert(v@[jj] == prev[jj]);
                } else {
                    assert(v@[jj] == prev[jj + 1]);
                }
            }
        }
    }
    proof {
        v@.to_multiset_ensures();
        assert(v@.to_multiset() =~= Multiset::<i64>::empty());
        assert(out@.to_multiset() =~= orig.to_multiset());
        out@.to_multiset_ensures();
        orig.to_multiset_ensures();
        assert forall|x: i64| #[trigger] out@.contains(x) <==> orig.contains(x) by {
            assert(out@.to_multiset().count(x) == orig.to_multiset().count(x));
        }
    }
    *v = out;
}

/// Reorder one day's games by their time, largest first, keeping exactly the
/// same entries.
fn sort_day_games_desc(v: &mut Vec<DailyGameStats>)
    ensures
        final(v)@.to_multiset() == old(v)@.to_multiset(),
        forall|i: int, j: int|
            0 <= i < j < final(v)@.len() ==> final(v)@[i].time >= final(v)@[j].time,
        forall|x: DailyGameStats| #[trigger] final(v)@.contains(x) <==> old(v)@.contains(x),
{
    broadcast use vstd::seq_lib::group_to_multiset_ensures;

    let ghost orig = old(v)@;
    let mut out: Vec<DailyGameStats> = Vec::new();
    while v.len() > 0
        invariant
            orig == old(v)@,
            out@.to_multiset().add(v@.to_multiset()) == orig.to_multiset(),
            forall|i: int, j: int| 0 <= i < j < out@.len() ==> out@[i].time >= out@[j].time,
            forall|k: int, j: int|
                0 <= k < out@.len() && 0 <= j < v@.len() ==> out@[k].time >= v@[j].time,
        decreases v@.len(),
    {
        let mut best: usize = 0;
        let mut j: usize = 1;
        while j < v.len()
            invariant
                0 < v@.len(),
                best < j <= v@.len(),
                forall|k: int| 0 <= k < j ==> v@[best as int].time >= v@[k].time,
            decreases v@.len() - j,
        {
            if v[j].time > v[best].time {
                best = j;
            }
            j = j + 1;
        }
        let ghost prev = v@;
        let ghost prev_out = out@;
        let x = v.remove(best);
        out.push(x);
        proof {
            prev.to_multiset_ensures();
            prev_out.to_multiset_ensures();
            assert(prev.contains(prev[best as int]));
            assert(prev.to_multiset().count(x) > 0);
            assert(v@ == prev.remove(best as int));
            assert(prev.remove(best as int).to_multiset() =~= prev.to_multiset().remove(x));
            assert(prev_out.push(x).to_multiset() =~= prev_out.to_multiset().insert(x));
            assert(out@.to_multiset().add(v@.to_multiset()) =~= prev_out.to_multiset().add(
                prev.to_multiset(),
            ));
            assert forall|jj: int| 0 <= jj < v@.len() implies x.time >= v@[jj].time by {
                if jj < best as int {
                    assert(v@[jj] == prev[jj]);
                } else {
                    assert(v@[jj] == prev[jj + 1]);
                }
            }
        }
    }
    proof {
        v@.to_multiset_ensures();
        assert(v@.to_multiset() =~= Multiset::<DailyGameStats>::empty());
        assert(out@.to_multiset() =~= orig.to_multiset());
        out@.to_multiset_ensures();
        orig.to_multiset_ensures();
        assert forall|x: DailyGameStats| #[trigger] out@.contains(x) <==> orig.contains(x) by {
            assert(out@.to_multiset().count(x) == orig.to_multiset().count(x));
        }
    }
    *v = out;
}

/// Reorder aggregates by total, largest first, keeping exactly the same
/// entries.
fn sort_stats_desc(v: &mut Vec<GameStatistics>)
    ensures
        final(v)@.to_multiset() == old(v)@.to_multiset(),
        forall|i: int, j: int|
            0 <= i < j < final(v)@.len() ==> final(v)@[i].total_time >= final(v)@[j].total_time,
        forall|x: GameStatistics| #[trigger] final(v)@.contains(x) <==> old(v)@.contains(x),
{
    proof {
        old(v)@.to_multiset_ensures();
    }
    broadcast use vstd::seq_lib::group_to_multiset_ensures;

    let ghost orig = old(v)@;
    let mut out: Vec<GameStatistics> = Vec::new();
    while v.len() > 0
        invariant
            orig == old(v)@,
            out@.to_multiset().add(v@.to_multiset()) == orig.to_multiset(),
            forall|i: int, j: int|
                0 <= i < j < out@.len() ==> out@[i].total_time >= out@[j].total_time,
            forall|k: int, j: int|
                0 <= k < out@.len() && 0 <= j < v@.len() ==> out@[k].total_time
                    >= v@[j].total_time,
        decreases v@.len(),
    {
        let mut best: usize = 0;
        let mut j: usize = 1;
        while j < v.len()
            invariant
                0 < v@.len(),
                best < j <= v@.len(),
                forall|k: int| 0 <= k < j ==> v@[best as int].total_time >= v@[k].total_time,
            decreases v@.len() - j,
        {
            if v[j].total_time > v[best].total_time {
                best = j;
            }
            j = j + 1;
        }
        let ghost prev = v@;
        let ghost prev_out = out@;
        let x = v.remove(best);
        out.push(x);
        proof {
            prev.to_multiset_ensures();
            prev_out.to_multiset_ensures();
            assert(prev.contains(prev[best as int]));
            assert(prev.to_multiset().count(x) > 0);
            assert(v@ == prev.remove(best as int));
            assert(prev.remove(best as int).to_multiset() =~= prev.to_multiset().remove(x));
            assert(out@ == prev_out.push(x));
            assert(prev_out.push(x).to_multiset() =~= prev_out.to_multiset().insert(x));
            assert(out@.to_multiset().add(v@.to_multiset()) =~= prev_out.to_multiset().add(
                prev.to_multiset(),
            ));
            assert forall|jj: int| 0 <= jj < v@.len() implies x.total_time
                >= v@[jj].total_time by {
                if jj < best as int {
                    assert(v@[jj] == prev[jj]);
                } else {
                    assert(v@[jj] == prev[jj + 1]);
                }
            }
        }
    }
    proof {
        v@.to_multiset_ensures();
        assert(v@.to_multiset() =~= Multiset::<GameStatistics>::empty());
        assert(out@.to_multiset() =~= orig.to_multiset());
        out@.to_multiset_ensures();
        orig.to_multiset_ensures();
        assert forall|x: GameStatistics| #[trigger] out@.contains(x) <==> orig.contains(x) by {
            assert(out@.to_multiset().count(x) == orig.to_multiset().count(x));
        }
    }
    *v = out;
}


/// Whether the whole day-bucketed report is truthful for the store: days in
/// range, strictly descending, every bucket truthful, and no in-range row's
/// day missing.
pub open spec fn daily_report_ok(
    v: Seq<DailyStatistics>,
    s: StoreV,
    start_day: int,
    end_day: int,
) -> bool {
    &&& forall|i: int| 0 <= i < v.len() ==> start_day <= (#[trigger] v[i].date) <= end_day
    &&& forall|i: int, j: int| 0 <= i < j < v.len() ==> v[i].date > v[j].date
    &&& forall|i: int|
        0 <= i < v.len() ==> daily_entry_ok(#[trigger] v[i], s.games, s.ledger, start_day, end_day)
    &&& forall|k: int|
        0 <= k < s.ledger.len() && row_in_range(#[trigger] s.ledger[k], s.games, start_day, end_day)
            ==> exists|i: int|
            0 <= i < v.len() && (#[trigger] v[i].date) == day_of(
                canonical_datetime_ms(s.ledger[k].date_time),
            )
}

/// The day-bucketed view: all in-range play grouped by local calendar day and
/// then by game, days latest first, games by descending time within a day.
/// A day index pair `[start_day, end_day]` bounds the range, inclusive.
#[verifier::rlimit(100)]
#[verifier::spinoff_prover]
pub fn get_daily_statistics(conn: &rusqlite::Connection, start_day: i64, end_day: i64) -> (r:
    Result<Vec<DailyStatistics>, Error>)
    ensures
        r matches Ok(v) ==> daily_report_ok(v@, store_of(*conn), start_day as int, end_day as int),
        r is Err ==> (r->Err_0 is Database) || ((r->Err_0 is Internal) && exists|
            dd: int,
            g: Seq<char>,
            k: int,
        |
            0 <= k <= store_of(*conn).ledger.len() && !(i64::MIN as int <= #[trigger]
            rows_duration_sum(
                day_game_rows(
                    store_of(*conn).ledger.take(k),
                    store_of(*conn).games,
                    start_day as int,
                    end_day as int,
                    dd,
                    g,
                ),
            ) <= i64::MAX as int)),
{
    let games = exec_fetch_games(conn)?;
    let rows = exec_fetch_ledger(conn)?;
    let ghost gm = store_of(*conn).games;
    let ghost ledger = store_of(*conn).ledger;
    proof {
        assert(rows@.map_values(|x: LedgerRow| x@) == ledger);
    }
    // Gather the distinct days that in-range rows fall on.
    let mut days: Vec<i64> = Vec::new();
    let mut k: usize = 0;
    while k < rows.len()
        invariant
            gm == store_of(*conn).games,
            ledger == store_of(*conn).ledger,
            games_vec_matches(games@, gm),
            rows@.map_values(|x: LedgerRow| x@) == ledger,
            k <= rows@.len(),
            forall|i: int, j: int| 0 <= i < j < days@.len() ==> days@[i] != days@[j],
            forall|i: int| 0 <= i < days@.len() ==> start_day <= (#[trigger] days@[i]) <= end_day,
            forall|kk: int|
                0 <= kk < k && row_in_range(
                    #[trigger] ledger[kk],
                    gm,
                    start_day as int,
                    end_day as int,
                ) ==> days@.contains(day_of(canonical_datetime_ms(ledger[kk].date_time)) as i64)
                    && day_of(canonical_datetime_ms(ledger[kk].date_time)) == day_of(
                    canonical_datetime_ms(ledger[kk].date_time),
                ) as i64 as int,
        decreases rows@.len() - k,
    {
        proof {
            assert(rows@[k as int]@ == ledger[k as int]);
        }
        let ghost prev_days = days@;
        match qualify_row(&rows[k], &games, Ghost(gm), start_day, end_day) {
            Some(d) => {
                let already = contains_day(&days, d);
                if !already {
                    days.push(d);
                    proof {
                        assert(days@[days@.len() - 1] == d);
                        assert(days@.contains(d));
                    }
                }
                proof {
                    assert(days@.contains(d));
                }
            },
            None => {},
        }
        proof {
            assert forall|kk: int|
                0 <= kk < k + 1 && row_in_range(
                    #[trigger] ledger[kk],
                    gm,
                    start_day as int,
                    end_day as int,
                ) implies days@.contains(
                day_of(canonical_datetime_ms(ledger[kk].date_time)) as i64,
            ) && day_of(canonical_datetime_ms(ledger[kk].date_time)) == day_of(
                canonical_datetime_ms(ledger[kk].date_time),
            ) as i64 as int by {
                if kk < k {
                    let d0 = day_of(canonical_datetime_ms(ledger[kk].date_time)) as i64;
                    assert(prev_days.contains(d0));
                    let w = choose|w: int| 0 <= w < prev_days.len() && prev_days[w] == d0;
                    assert(days@[w] == d0);
                    assert(days@.contains(d0));
                }
            }
        }
        k = k + 1;
    }
    let ghost pre_days = days@;
    sort_days_desc(&mut days);
    let ghost sorted_days = days@;
    proof {
        assert(pre_days.no_duplicates()) by {
            assert forall|i: int, j: int|
                0 <= i < pre_days.len() && 0 <= j < pre_days.len() && i != j implies pre_days[i]
                != pre_days[j] by {
                if i < j {
                    assert(pre_days[i] != pre_days[j]);
                } else {
                    assert(pre_days[j] != pre_days[i]);
                }
            }
        }
        pre_days.lemma_multiset_has_no_duplicates();
        sorted_days.lemma_multiset_has_no_duplicates_conv();
        assert(sorted_days.no_duplicates());
        assert forall|i: int| 0 <= i < sorted_days.len() implies start_day <= (
        #[trigger] sorted_days[i]) <= end_day by {
            assert(sorted_days.contains(sorted_days[i]));
            assert(pre_days.contains(sorted_days[i]));
            let w = choose|w: int| 0 <= w < pre_days.len() && pre_days[w] == sorted_days[i];
        }
        assert forall|kk: int|
            0 <= kk < ledger.len() && row_in_range(
                #[trigger] ledger[kk],
                gm,
                start_day as int,
                end_day as int,
            ) implies sorted_days.contains(
            day_of(canonical_datetime_ms(ledger[kk].date_time)) as i64,
        ) by {
            let d0 = day_of(canonical_datetime_ms(ledger[kk].date_time)) as i64;
            assert(pre_days.contains(d0));
        }
    }
    // Build one bucket per day, in order.
    let mut result: Vec<DailyStatistics> = Vec::new();
    let mut di: usize = 0;
    while di < days.len()
        invariant
            gm == store_of(*conn).games,
            ledger == store_of(*conn).ledger,
            games_vec_matches(games@, gm),
            rows@.map_values(|x: LedgerRow| x@) == ledger,
            sorted_days == days@,
            sorted_days.no_duplicates(),
            forall|i: int, j: int| 0 <= i < j < days@.len() ==> days@[i] >= days@[j],
            forall|i: int| 0 <= i < days@.len() ==> start_day <= (#[trigger] days@[i]) <= end_day,
            forall|kk: int|
                0 <= kk < ledger.len() && row_in_range(
                    #[trigger] ledger[kk],
                    gm,
                    start_day as int,
                    end_day as int,
                ) ==> days@.contains(day_of(canonical_datetime_ms(ledger[kk].date_time)) as i64)
                    && day_of(canonical_datetime_ms(ledger[kk].date_time)) == day_of(
                    canonical_datetime_ms(ledger[kk].date_time),
                ) as i64 as int,
            di <= days@.len(),
            result@.len() == di,
            forall|i: int| 0 <= i < di ==> (#[trigger] result@[i].date) == days@[i],
            forall|i: int|
                0 <= i < di ==> daily_entry_ok(
                    #[trigger] result@[i],
                    gm,
                    ledger,
                    start_day as int,
                    end_day as int,
                ),
        decreases days@.len() - di,
    {
        let d = days[di];
        let mut day_games: Vec<DailyGameStats> = Vec::new();
        let mut k2: usize = 0;
        while k2 < rows.len()
            invariant
                gm == store_of(*conn).games,
                ledger == store_of(*conn).ledger,
                games_vec_matches(games@, gm),
                rows@.map_values(|x: LedgerRow| x@) == ledger,
                k2 <= rows@.len(),
                forall|a: int, b: int|
                    0 <= a < b < day_games@.len() ==> day_games@[a].game.id@
                        != day_games@[b].game.id@,
                forall|a: int|
                    0 <= a < day_games@.len() ==> daily_game_ok(
                        #[trigger] day_games@[a],
                        gm,
                        ledger,
                        start_day as int,
                        end_day as int,
                        d as int,
                    ),
                forall|kk: int|
                    0 <= kk < k2 && row_in_range(
                        #[trigger] ledger[kk],
                        gm,
                        start_day as int,
                        end_day as int,
                    ) && day_of(canonical_datetime_ms(ledger[kk].date_time)) == d as int
                        ==> exists|a: int|
                        0 <= a < day_games@.len() && (#[trigger] day_games@[a].game.id@)
                            == ledger[kk].game_id,
            decreases rows@.len() - k2,
        {
            proof {
                assert(rows@[k2 as int]@ == ledger[k2 as int]);
            }
            let ghost prev_games = day_games@;
            let mut added = false;
            match qualify_row(&rows[k2], &games, Ghost(gm), start_day, end_day) {
                Some(dd) => {
                    if dd == d {
                        if !contains_game(&day_games, rows[k2].game_id.as_str()) {
                            let name = match find_game_name(
                                &games,
                                rows[k2].game_id.as_str(),
                                Ghost(gm),
                            ) {
                                Some(n) => n,
                                None => {
                                    // A row this branch reaches qualified, so
                                    // its game stands in the dictionary.
                                    proof {
                                        assert(gm.contains_key(rows@[k2 as int]@.game_id));
                                        assert(false);
                                    }
                                    vstd::pervasive::unreached()
                                },
                            };
                            let t = match collect_day_game_sessions(
                                &rows,
                                &games,
                                Ghost(gm),
                                start_day,
                                end_day,
                                d,
                                rows[k2].game_id.as_str(),
                            ) {
                                Ok(t) => t,
                                Err(e) => {
                                    proof {
                                        let gg = rows@[k2 as int].game_id@;
                                        let k = choose|k: int|
                                            0 <= k <= rows@.len() && !(i64::MIN as int
                                                <= rows_duration_sum(
                                                day_game_rows(
                                                    #[trigger] row_views(rows@).take(k),
                                                    gm,
                                                    start_day as int,
                                                    end_day as int,
                                                    d as int,
                                                    gg,
                                                ),
                                            ) <= i64::MAX as int);
                                        assert(row_views(rows@) == store_of(*conn).ledger);
                                        assert(!(i64::MIN as int <= rows_duration_sum(
                                            day_game_rows(
                                                store_of(*conn).ledger.take(k),
                                                store_of(*conn).games,
                                                start_day as int,
                                                end_day as int,
                                                d as int,
                                                gg,
                                            ),
                                        ) <= i64::MAX as int));
                                    }
                                    return Err(e);
                                },
                            };
                            let entry = DailyGameStats {
                                game: Game { id: rows[k2].game_id.clone(), name },
                                time: t.1,
                                sessions: t.0,
                            };
                            day_games.push(entry);
                            added = true;
                        }
                    }
                },
                None => {},
            }
            proof {
                assert forall|kk: int|
                    0 <= kk < k2 + 1 && row_in_range(
                        #[trigger] ledger[kk],
                        gm,
                        start_day as int,
                        end_day as int,
                    ) && day_of(canonical_datetime_ms(ledger[kk].date_time)) == d as int implies
                    exists|a: int|
                    0 <= a < day_games@.len() && (#[trigger] day_games@[a].game.id@)
                        == ledger[kk].game_id by {
                    if kk < k2 {
                        let a0 = choose|a: int|
                            0 <= a < prev_games.len() && (#[trigger] prev_games[a].game.id@)
                                == ledger[kk].game_id;
                        assert(day_games@[a0].game.id@ == ledger[kk].game_id);
                    } else {
                        if added {
                            assert(day_games@[day_games@.len() - 1].game.id@
                                == ledger[kk].game_id);
                        } else {
                            let a0 = choose|a: int|
                                0 <= a < prev_games.len() && (#[trigger] prev_games[a].game.id@)
                                    == ledger[kk].game_id;
                            assert(day_games@[a0].game.id@ == ledger[kk].game_id);
                        }
                    }
                }
            }
            k2 = k2 + 1;
        }
        let ghost pre_sort = day_games@;
        sort_day_games_desc(&mut day_games);
        proof {
            // The per-game facts survive the reordering.
            assert forall|a: int| 0 <= a < day_games@.len() implies daily_game_ok(
                #[trigger] day_games@[a],
                gm,
                ledger,
                start_day as int,
                end_day as int,
                d as int,
            ) by {
                assert(day_games@.contains(day_games@[a]));
                assert(pre_sort.contains(day_games@[a]));
                let a0 = choose|a0: int| 0 <= a0 < pre_sort.len() && pre_sort[a0] == day_games@[a];
                assert(daily_game_ok(
                    pre_sort[a0],
                    gm,
                    ledger,
                    start_day as int,
                    end_day as int,
                    d as int,
                ));
            }
            assert forall|a: int, b: int| 0 <= a < b < day_games@.len() implies day_games@[
                a
            ].game.id@ != day_games@[b].game.id@ by {
                if day_games@[a].game.id@ == day_games@[b].game.id@ {
                    pre_sort.to_multiset_ensures();
                    day_games@.to_multiset_ensures();
                    assert(day_games@.contains(day_games@[a]));
                    assert(day_games@.contains(day_games@[b]));
                    assert(pre_sort.contains(day_games@[a]));
                    assert(pre_sort.contains(day_games@[b]));
                    let a0 = choose|i: int|
                        0 <= i < pre_sort.len() && pre_sort[i] == day_games@[a];
                    let b0 = choose|i: int|
                        0 <= i < pre_sort.len() && pre_sort[i] == day_games@[b];
                    if a0 != b0 {
                        assert(pre_sort[a0].game.id@ != pre_sort[b0].game.id@);
                    } else {
                        assert(day_games@[a] == day_games@[b]);
                        assert(pre_sort.no_duplicates()) by {
                            assert forall|i: int, j: int|
                                0 <= i < pre_sort.len() && 0 <= j < pre_sort.len() && i != j
                                implies pre_sort[i] != pre_sort[j] by {
                                if i < j {
                                    assert(pre_sort[i].game.id@ != pre_sort[j].game.id@);
                                } else {
                                    assert(pre_sort[j].game.id@ != pre_sort[i].game.id@);
                                }
                            }
                        }
                        pre_sort.lemma_multiset_has_no_duplicates();
                        day_games@.lemma_multiset_has_no_duplicates_conv();
                        assert(false);
                    }
                }
            }
            assert forall|kk: int|
                0 <= kk < ledger.len() && row_in_range(
                    #[trigger] ledger[kk],
                    gm,
                    start_day as int,
                    end_day as int,
                ) && day_of(canonical_datetime_ms(ledger[kk].date_time)) == d as int implies
                exists|a: int|
                0 <= a < day_games@.len() && (#[trigger] day_games@[a].game.id@)
                    == ledger[kk].game_id by {
                let a0 = choose|a: int|
                    0 <= a < pre_sort.len() && (#[trigger] pre_sort[a].game.id@)
                        == ledger[kk].game_id;
                assert(pre_sort.contains(pre_sort[a0]));
                assert(day_games@.contains(pre_sort[a0]));
                let a1 = choose|i: int|
                    0 <= i < day_games@.len() && day_games@[i] == pre_sort[a0];
                assert(day_games@[a1].game.id@ == ledger[kk].game_id);
            }
        }
        let ghost fg = day_games@;
        let bucket = DailyStatistics { date: d, games: day_games };
        result.push(bucket);
        proof {
            let e = result@[di as int];
            assert(e.date == d && e.games@ == fg);
            assert forall|a: int| 0 <= a < e.games@.len() implies daily_game_ok(
                #[trigger] e.games@[a],
                gm,
                ledger,
                start_day as int,
                end_day as int,
                e.date as int,
            ) by {
                assert(e.games@[a] == fg[a]);
                assert(daily_game_ok(fg[a], gm, ledger, start_day as int, end_day as int, d as int));
            }
            assert forall|a: int, b: int| 0 <= a < b < e.games@.len() implies e.games@[a].game.id@
                != e.games@[b].game.id@ by {
                assert(fg[a].game.id@ != fg[b].game.id@);
            }
            assert forall|a: int, b: int| 0 <= a < b < e.games@.len() implies e.games@[a].time
                >= e.games@[b].time by {
                assert(fg[a].time >= fg[b].time);
            }
            assert forall|kk: int|
                0 <= kk < ledger.len() && row_in_range(
                    #[trigger] ledger[kk],
                    gm,
                    start_day as int,
                    end_day as int,
                ) && day_of(canonical_datetime_ms(ledger[kk].date_time)) == e.date as int implies
                exists|a: int|
                0 <= a < e.games@.len() && (#[trigger] e.games@[a].game.id@)
                    == ledger[kk].game_id by {
                let a0 = choose|a: int|
                    0 <= a < fg.len() && (#[trigger] fg[a].game.id@) == ledger[kk].game_id;
                assert(e.games@[a0].game.id@ == ledger[kk].game_id);
            }
            assert(daily_entry_ok(e, gm, ledger, start_day as int, end_day as int));
        }
        di = di + 1;
    }
    proof {
        // Every in-range row's day found its bucket.
        assert forall|kk: int|
            0 <= kk < ledger.len() && row_in_range(
                #[trigger] ledger[kk],
                gm,
                start_day as int,
                end_day as int,
            ) implies exists|i: int|
            0 <= i < result@.len() && (#[trigger] result@[i].date) == day_of(
                canonical_datetime_ms(ledger[kk].date_time),
            ) by {
            let d0 = day_of(canonical_datetime_ms(ledger[kk].date_time)) as i64;
            assert(sorted_days.contains(d0));
            let i = choose|i: int| 0 <= i < sorted_days.len() && sorted_days[i] == d0;
            assert(result@[i].date == d0);
        }
        // Distinct sorted days descend strictly.
        assert forall|i: int, j: int| 0 <= i < j < result@.len() implies result@[i].date > result@[
            j
        ].date by {
            assert(result@[i].date == sorted_days[i] && result@[j].date == sorted_days[j]);
        }
        assert forall|i: int| 0 <= i < result@.len() implies start_day <= (
        #[trigger] result@[i].date) <= end_day by {
            assert(result@[i].date == sorted_days[i]);
        }
        assert forall|i: int| 0 <= i < result@.len() implies daily_entry_ok(
            #[trigger] result@[i],
            store_of(*conn).games,
            store_of(*conn).ledger,
            start_day as int,
            end_day as int,
        ) by {
            assert(daily_entry_ok(result@[i], gm, ledger, start_day as int, end_day as int));
        }
        assert(daily_report_ok(result@, store_of(*conn), start_day as int, end_day as int));
    }
    Ok(result)
}

} // verus!
