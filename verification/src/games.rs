//! Game identities and file-checksum associations.

use vstd::prelude::*;
use vstd::multiset::Multiset;
use crate::error::Error;
use crate::models::ChecksumAlgorithm;
use crate::models::Game;
use crate::models::GameChecksum;
use crate::models::algorithm_of;
use crate::models::lemma_lex_le_total;
use crate::models::lemma_lex_le_trans;
use crate::models::lex_le;
use crate::models::str_eq;
use crate::models::str_le;
use crate::store::StoreV;
use crate::store::checksum_rows_match;
use crate::store::exec_fetch_checksums;
use crate::store::exec_fetch_games;
use crate::store::exec_upsert_checksum;
use crate::store::exec_upsert_game;
use crate::store::games_vec_matches;
use crate::store::in_tx_of;
use crate::store::keeps_tx;
use crate::store::saved_of;
use crate::store::store_of;

verus! {

/// Look a game up by its identifier.
pub fn get_game(conn: &rusqlite::Connection, game_id: &str) -> (r: Result<Option<Game>, Error>)
    ensures
        r matches Ok(Some(g)) ==> store_of(*conn).games.contains_key(game_id@) && g.id@ == game_id@
            && g.name@ == store_of(*conn).games[game_id@],
        r matches Ok(None) ==> !store_of(*conn).games.contains_key(game_id@),
        r is Err ==> (r->Err_0 is Database),
{
    let games = exec_fetch_games(conn)?;
    let mut i: usize = 0;
    while i < games.len()
        invariant
            games_vec_matches(games@, store_of(*conn).games),
            i <= games@.len(),
            forall|j: int| 0 <= j < i ==> games@[j].id@ != game_id@,
        decreases games@.len() - i,
    {
        if str_eq(games[i].id.as_str(), game_id) {
            let g = Game { id: games[i].id.clone(), name: games[i].name.clone() };
            return Ok(Some(g));
        }
        i = i + 1;
    }
    proof {
        if store_of(*conn).games.contains_key(game_id@) {
            let w = choose|j: int| 0 <= j < games@.len() && #[trigger] games@[j].id@ == game_id@;
            assert(false);
        }
    }
    Ok(None)
}

/// Insert a game or overwrite its display name — last writer wins.
pub fn save_game(conn: &mut rusqlite::Connection, game: &Game) -> (r: Result<(), Error>)
    ensures
        r is Ok ==> store_of(*final(conn)) == (StoreV {
            games: store_of(*old(conn)).games.insert(game.id@, game.name@),
            ..store_of(*old(conn))
        }) && keeps_tx(saved_of(*old(conn)), in_tx_of(*old(conn)), *final(conn)),
        r is Err && !in_tx_of(*old(conn)) ==> store_of(*final(conn)) == store_of(*old(conn)),
{
    exec_upsert_game(conn, game.id.as_str(), game.name.as_str())
}

/// Reorder games by display name, earliest name first, keeping exactly the
/// same entries.
fn sort_games_by_name(v: &mut Vec<Game>)
    ensures
        final(v)@.to_multiset() == old(v)@.to_multiset(),
        forall|i: int, j: int|
            0 <= i < j < final(v)@.len() ==> lex_le(final(v)@[i].name@, final(v)@[j].name@),
        forall|x: Game| #[trigger] final(v)@.contains(x) <==> old(v)@.contains(x),
{
    broadcast use vstd::seq_lib::group_to_multiset_ensures;

    let ghost orig = old(v)@;
    let mut out: Vec<Game> = Vec::new();
    while v.len() > 0
        invariant
            orig == old(v)@,
            out@.to_multiset().add(v@.to_multiset()) == orig.to_multiset(),
            forall|i: int, j: int|
                0 <= i < j < out@.len() ==> lex_le(out@[i].name@, out@[j].name@),
            forall|k: int, j: int|
                0 <= k < out@.len() && 0 <= j < v@.len() ==> lex_le(out@[k].name@, v@[j].name@),
        decreases v@.len(),
    {
        let mut best: usize = 0;
        let mut j: usize = 1;
        proof {
            lemma_lex_le_total(v@[0].name@, v@[0].name@);
        }
        while j < v.len()
            invariant
                0 < v@.len(),
                best < j <= v@.len(),
                forall|k: int| 0 <= k < j ==> lex_le(v@[best as int].name@, v@[k].name@),
            decreases v@.len() - j,
        {
            let ghost prev_best = best as int;
            if !str_le(v[best].name.as_str(), v[j].name.as_str()) {
                proof {
                    lemma_lex_le_total(v@[prev_best].name@, v@[j as int].name@);
                    assert forall|k: int| 0 <= k < j + 1 implies lex_le(
                        v@[j as int].name@,
                        v@[k].name@,
                    ) by {
                        if k < j as int {
                            lemma_lex_le_trans(
                                v@[j as int].name@,
                                v@[prev_best].name@,
                                v@[k].name@,
                            );
                        } else {
                            lemma_lex_le_total(v@[j as int].name@, v@[j as int].name@);
                        }
                    }
                }
                best = j;
            }
            j = j + 1;
        }
        let ghost prev = v@;
        let ghost prev_out = out@;
        let x = v.remove(best);
        out.push(x);
        proof {
            prev.to_multiset_ensures();
            prev_out.to_multiset_ensures();
            assert(prev.contains(prev[best as int]));
            assert(prev.to_multiset().count(x) > 0);
            assert(v@ == prev.remove(best as int));
            assert(prev.remove(best as int).to_multiset() =~= prev.to_multiset().remove(x));
            assert(prev_out.push(x).to_multiset() =~= prev_out.to_multiset().insert(x));
            assert(out@.to_multiset().add(v@.to_multiset()) =~= prev_out.to_multiset().add(
                prev.to_multiset(),
            ));
            assert forall|jj: int| 0 <= jj < v@.len() implies lex_le(
                x.name@,
                v@[jj].name@,
            ) by {
                if jj < best as int {
                    assert(v@[jj] == prev[jj]);
                } else {
                    assert(v@[jj] == prev[jj + 1]);
                }
            }
        }
    }
    proof {
        v@.to_multiset_ensures();
        assert(v@.to_multiset() =~= Multiset::<Game>::empty());
        assert(out@.to_multiset() =~= orig.to_multiset());
        out@.to_multiset_ensures();
        orig.to_multiset_ensures();
        assert forall|x: Game| #[trigger] out@.contains(x) <==> orig.contains(x) by {
            assert(out@.to_multiset().count(x) == orig.to_multiset().count(x));
        }
    }
    *v = out;
}

/// Every game in the dictionary, each exactly once, ordered by display name.
pub fn get_all_games(conn: &rusqlite::Connection) -> (r: Result<Vec<Game>, Error>)
    ensures
        r matches Ok(v) ==> games_vec_matches(v@, store_of(*conn).games) && (forall|i: int, j: int|
            0 <= i < j < v@.len() ==> lex_le(v@[i].name@, v@[j].name@)),
        r is Err ==> (r->Err_0 is Database),
{
    let mut games = exec_fetch_games(conn)?;
    let ghost pre = games@;
    let ghost gm = store_of(*conn).games;
    sort_games_by_name(&mut games);
    proof {
        assert forall|i: int| 0 <= i < games@.len() implies gm.contains_key(
            #[trigger] games@[i].id@,
        ) && gm[games@[i].id@] == games@[i].name@ by {
            assert(games@.contains(games@[i]));
            assert(pre.contains(games@[i]));
            let w = choose|w: int| 0 <= w < pre.len() && pre[w] == games@[i];
            assert(pre[w] == games@[i]);
        }
        assert forall|i: int, j: int| 0 <= i < j < games@.len() implies games@[i].id@ != games@[
            j
        ].id@ by {
            if games@[i].id@ == games@[j].id@ {
                pre.to_multiset_ensures();
                games@.to_multiset_ensures();
                assert(games@.contains(games@[i]));
                assert(games@.contains(games@[j]));
                assert(pre.contains(games@[i]));
                assert(pre.contains(games@[j]));
                let a0 = choose|w: int| 0 <= w < pre.len() && pre[w] == games@[i];
                let b0 = choose|w: int| 0 <= w < pre.len() && pre[w] == games@[j];
                if a0 != b0 {
                    assert(pre[a0].id@ != pre[b0].id@);
                } else {
                    assert(games@[i] == games@[j]);
                    assert(pre.no_duplicates()) by {
                        assert forall|x: int, y: int|
                            0 <= x < pre.len() && 0 <= y < pre.len() && x != y implies pre[x]
                            != pre[y] by {
                            if x < y {
                                assert(pre[x].id@ != pre[y].id@);
                            } else {
                                assert(pre[y].id@ != pre[x].id@);
                            }
                        }
                    }
                    pre.lemma_multiset_has_no_duplicates();
                    games@.lemma_multiset_has_no_duplicates_conv();
                    assert(false);
                }
            }
        }
        assert forall|k: Seq<char>| #[trigger] gm.contains_key(k) implies exists|i: int|
            0 <= i < games@.len() && (#[trigger] games@[i].id@) == k by {
            let w = choose|w: int| 0 <= w < pre.len() && (#[trigger] pre[w].id@) == k;
            assert(pre.contains(pre[w]));
            assert(games@.contains(pre[w]));
            let i = choose|i: int| 0 <= i < games@.len() && games@[i] == pre[w];
            assert(games@[i].id@ == k);
        }
    }
    Ok(games)
}

/// A game's identity together with its aggregates, or nothing when the game
/// is unknown.
pub fn get_game_with_stats(conn: &rusqlite::Connection, game_id: &str) -> (r: Result<
    Option<crate::models::GameStatistics>,
    Error,
>)
    ensures
        r matches Ok(None) ==> !store_of(*conn).games.contains_key(game_id@),
        r matches Ok(Some(st)) ==> {
            let s = store_of(*conn);
            &&& s.games.contains_key(game_id@)
            &&& st.game.id@ == game_id@ && st.game.name@ == s.games[game_id@]
            &&& st.total_time == crate::tracking::sum_for(s.ledger, game_id@)
            &&& st.total_sessions == crate::tracking::count_for(s.ledger, game_id@)
            &&& (match crate::stats::max_stamp(s.ledger, game_id@) {
                Option::None => st.last_played is None,
                Option::Some(v) => st.last_played == Option::Some(v as i64) && v == v as i64 as int,
            })
            &&& st.last_session_duration is None
        },
{
    crate::stats::get_game_statistics(conn, game_id)
}

/// How an upsert changes the recorded checksum associations: a new key is
/// recorded whole, an existing one only has its updated-at text replaced.
pub open spec fn checksum_upsert(
    m: Map<(Seq<char>, Seq<char>, Seq<char>), (int, Option<Seq<char>>, Option<Seq<char>>)>,
    key: (Seq<char>, Seq<char>, Seq<char>),
    chunk: int,
    created: Option<Seq<char>>,
    updated: Option<Seq<char>>,
) -> Map<(Seq<char>, Seq<char>, Seq<char>), (int, Option<Seq<char>>, Option<Seq<char>>)> {
    if m.contains_key(key) {
        m.insert(key, (m[key].0, m[key].1, updated))
    } else {
        m.insert(key, (chunk, created, updated))
    }
}

/// Record a file checksum for a game, writing the game identity first.  The
/// two writes are separate statements, so a failure may leave the identity
/// written and the association not.
pub fn save_game_checksum(conn: &mut rusqlite::Connection, checksum: &GameChecksum) -> (r: Result<
    (),
    Error,
>)
    ensures
        r is Ok ==> store_of(*final(conn)) == (StoreV {
            games: store_of(*old(conn)).games.insert(checksum.game.id@, checksum.game.name@),
            checksums: checksum_upsert(
                store_of(*old(conn)).checksums,
                (
                    checksum.game.id@,
                    checksum.checksum@,
                    crate::models::algorithm_seq(checksum.algorithm),
                ),
                checksum.chunk_size as int,
                checksum.created_at.deep_view(),
                checksum.updated_at.deep_view(),
            ),
            ..store_of(*old(conn))
        }),
        r is Err && !in_tx_of(*old(conn)) ==> store_of(*final(conn)) == store_of(*old(conn))
            || store_of(*final(conn)) == (StoreV {
            games: store_of(*old(conn)).games.insert(checksum.game.id@, checksum.game.name@),
            ..store_of(*old(conn))
        }),
{
    save_game(conn, &checksum.game)?;
    let created: Option<&str> = match &checksum.created_at {
        Some(s) => Some(s.as_str()),
        None => None,
    };
    let updated: Option<&str> = match &checksum.updated_at {
        Some(s) => Some(s.as_str()),
        None => None,
    };
    exec_upsert_checksum(
        conn,
        checksum.game.id.as_str(),
        checksum.checksum.as_str(),
        checksum.algorithm.as_text(),
        checksum.chunk_size,
        created,
        updated,
    )
}

/// The checksum associations recorded for a game, each exactly once, with the
/// game's display name joined in.
pub fn get_game_checksums(conn: &rusqlite::Connection, game_id: &str) -> (r: Result<
    Vec<GameChecksum>,
    Error,
>)
    ensures
        r matches Ok(v) ==> {
            let s = store_of(*conn);
            &&& forall|i: int|
                0 <= i < v.len() ==> {
                    let c = #[trigger] v[i];
                    &&& c.game.id@ == game_id@
                    &&& s.games.contains_key(game_id@) && c.game.name@ == s.games[game_id@]
                    &&& exists|a: Seq<char>|
                        #[trigger] s.checksums.contains_key((game_id@, c.checksum@, a))
                            && c.algorithm == algorithm_of(a) && s.checksums[(
                            game_id@,
                            c.checksum@,
                            a,
                        )] == (
                            c.chunk_size as int,
                            c.created_at.deep_view(),
                            c.updated_at.deep_view(),
                        )
                }
            &&& forall|k: (Seq<char>, Seq<char>, Seq<char>)|
                #[trigger] s.checksums.contains_key(k) && k.0 == game_id@ && s.games.contains_key(
                    game_id@,
                ) ==> exists|i: int| 0 <= i < v.len() && (#[trigger] v[i].checksum@) == k.1
            &&& !s.games.contains_key(game_id@) ==> v.len() == 0
        },
        r is Err ==> (r->Err_0 is Database),
{
    let rows = exec_fetch_checksums(conn, game_id)?;
    let mut out: Vec<GameChecksum> = Vec::new();
    let mut i: usize = 0;
    while i < rows.len()
        invariant
            checksum_rows_match(rows@, store_of(*conn), game_id@),
            i <= rows@.len(),
            out@.len() == i,
            forall|j: int|
                0 <= j < i ==> {
                    let c = #[trigger] out@[j];
                    let row = rows@[j];
                    &&& c.game.id@ == row.game_id@
                    &&& c.game.name@ == row.name@
                    &&& c.checksum@ == row.checksum@
                    &&& c.algorithm == algorithm_of(row.algorithm@)
                    &&& c.chunk_size == row.chunk_size
                    &&& c.created_at.deep_view() == row.created_at.deep_view()
                    &&& c.updated_at.deep_view() == row.updated_at.deep_view()
                },
        decreases rows@.len() - i,
    {
        let row = &rows[i];
        let item = GameChecksum {
            game: Game { id: row.game_id.clone(), name: row.name.clone() },
            checksum: row.checksum.clone(),
            algorithm: ChecksumAlgorithm::from_text(row.algorithm.as_str()),
            chunk_size: row.chunk_size,
            created_at: match &row.created_at {
                Some(s) => Some(s.clone()),
                None => None,
            },
            updated_at: match &row.updated_at {
                Some(s) => Some(s.clone()),
                None => None,
            },
        };
        out.push(item);
        i = i + 1;
    }
    proof {
        let s = store_of(*conn);
        assert forall|ii: int| 0 <= ii < out@.len() implies {
            let c = #[trigger] out@[ii];
            exists|a: Seq<char>|
                #[trigger] s.checksums.contains_key((game_id@, c.checksum@, a)) && c.algorithm
                    == algorithm_of(a) && s.checksums[(game_id@, c.checksum@, a)] == (
                    c.chunk_size as int,
                    c.created_at.deep_view(),
                    c.updated_at.deep_view(),
                )
        } by {
            let row = rows@[ii];
            assert(s.checksums.contains_key((game_id@, row.checksum@, row.algorithm@)));
            assert(s.checksums.contains_key((game_id@, out@[ii].checksum@, row.algorithm@)));
        }
        if s.games.contains_key(game_id@) {
            assert forall|k: (Seq<char>, Seq<char>, Seq<char>)|
                #[trigger] s.checksums.contains_key(k) && k.0 == game_id@ implies exists|i: int|
                0 <= i < out@.len() && (#[trigger] out@[i].checksum@) == k.1 by {
                let w = choose|i: int|
                    0 <= i < rows@.len() && (#[trigger] rows@[i].checksum@, rows@[i].algorithm@)
                        == (k.1, k.2);
                assert(out@[w].checksum@ == k.1);
            }
        }
    }
    Ok(out)
}

} // verus!
