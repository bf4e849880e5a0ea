//! The day-boundary session splitter.
//!
//! A raw interval `[started_at, ended_at)` is cut into sub-intervals, one per
//! local calendar day it touches.  Within each day the sub-interval is clipped
//! to the day's tracking window, which runs from 00:00:00.000 to 23:59:59.000
//! local time; a clipped piece is emitted only when its duration is strictly
//! positive.

use vstd::prelude::*;
use crate::calendar::MS_PER_DAY;
use crate::calendar::MS_PER_SECOND;
use crate::calendar::YEAR_LIMIT;
use crate::calendar::EPOCH_YEAR;
use crate::calendar::day_of;
use crate::calendar::days_before_year;
use crate::calendar::in_calendar_range;
use crate::calendar::lemma_days_before_year_bound;
use crate::models::PlaySession;

verus! {

/// Offset of a day's last tracked instant (23:59:59.000) from its start.
pub const END_OF_DAY_OFFSET: i64 = 86_399_000;

/// Start of the local calendar day (00:00:00.000) containing `ms`.
pub fn start_of_day(ms: i64) -> (r: i64)
    requires
        0 <= ms,
    ensures
        r == day_of(ms as int) * (MS_PER_DAY as int),
        0 <= r <= ms,
{
    ms - ms % MS_PER_DAY
}

/// Last tracked instant (23:59:59.000) of the local calendar day containing `ms`.
pub fn end_of_day(ms: i64) -> (r: i64)
    requires
        in_calendar_range(ms as int),
    ensures
        r == day_of(ms as int) * (MS_PER_DAY as int) + END_OF_DAY_OFFSET,
{
    proof {
        lemma_days_before_year_bound(YEAR_LIMIT as int);
    }
    ms - ms % MS_PER_DAY + END_OF_DAY_OFFSET
}

/// The sub-interval that day `d` contributes to `[start, end)`: the overlap of
/// the interval with the day's tracking window, or nothing when that overlap
/// is empty.
pub open spec fn day_chunk(start: int, end: int, d: int) -> Seq<(int, int)> {
    let lo = if start > d * (MS_PER_DAY as int) {
        start
    } else {
        d * (MS_PER_DAY as int)
    };
    let hi = if end < d * (MS_PER_DAY as int) + (END_OF_DAY_OFFSET as int) {
        end
    } else {
        d * (MS_PER_DAY as int) + (END_OF_DAY_OFFSET as int)
    };
    if lo < hi {
        seq![(lo, hi)]
    } else {
        Seq::empty()
    }
}

/// The sub-intervals contributed by days `d` through `day_of(end)`.
pub open spec fn split_days(start: int, end: int, d: int) -> Seq<(int, int)>
    decreases day_of(end) + 1 - d,
{
    if day_of(end) < d {
        Seq::empty()
    } else {
        day_chunk(start, end, d) + split_days(start, end, d + 1)
    }
}

/// All sub-intervals of `[start, end)`: the interval itself when it stays
/// inside one local calendar day, else one clipped piece per touched day, in
/// time order.
pub open spec fn split_intervals(start: int, end: int) -> Seq<(int, int)> {
    if day_of(start) == day_of(end) {
        seq![(start, end)]
    } else {
        split_days(start, end, day_of(start))
    }
}

/// Split a session at local midnights.  Every piece carries the session's
/// game and checksum and covers one emitted sub-interval.
pub fn split_session_by_day(session: &PlaySession) -> (r: Vec<PlaySession>)
    requires
        0 <= session.started_at < session.ended_at,
        in_calendar_range(session.ended_at as int),
    ensures
        r@.map_values(|p: PlaySession| (p.started_at as int, p.ended_at as int))
            == split_intervals(session.started_at as int, session.ended_at as int),
        forall|i: int|
            0 <= i < r@.len() ==> #[trigger] r@[i].game_id@ == session.game_id@ && r@[i].checksum
                == session.checksum && r@[i].duration == r@[i].ended_at - r@[i].started_at,
{
    let start = session.started_at;
    let end = session.ended_at;
    let ghost gstart = start as int;
    let ghost gend = end as int;
    proof {
        lemma_days_before_year_bound(YEAR_LIMIT as int);
    }
    if !session.is_multi_day() {
        let piece = PlaySession {
            game_id: session.game_id.clone(),
            started_at: start,
            ended_at: end,
            duration: end - start,
            checksum: match &session.checksum {
                Some(c) => Some(c.clone()),
                None => None,
            },
        };
        let mut out: Vec<PlaySession> = Vec::new();
        out.push(piece);
        proof {
            let f = |p: PlaySession| (p.started_at as int, p.ended_at as int);
            assert(out@.map_values(f) =~= split_intervals(gstart, gend));
        }
        return out;
    }
    let first_day = start / MS_PER_DAY;
    let last_day = end / MS_PER_DAY;
    let mut out: Vec<PlaySession> = Vec::new();
    let mut d = first_day;
    while d <= last_day
        invariant
            gstart == start as int,
            gend == end as int,
            0 <= gstart < gend,
            day_of(gstart) != day_of(gend),
            in_calendar_range(gend),
            gend < 366 * (YEAR_LIMIT - EPOCH_YEAR) * (MS_PER_DAY as int),
            first_day == day_of(gstart),
            last_day == day_of(gend),
            0 <= first_day <= d <= last_day + 1,
            last_day <= 366 * (YEAR_LIMIT - EPOCH_YEAR),
            split_intervals(gstart, gend) == out@.map_values(
                |p: PlaySession| (p.started_at as int, p.ended_at as int),
            ) + split_days(gstart, gend, d as int),
            forall|i: int|
                0 <= i < out@.len() ==> #[trigger] out@[i].game_id@ == session.game_id@
                    && out@[i].checksum == session.checksum && out@[i].duration == out@[
                    i
                ].ended_at - out@[i].started_at,
        decreases last_day + 1 - d,
    {
        let day_start = d * MS_PER_DAY;
        let day_end = day_start + END_OF_DAY_OFFSET;
        let lo = if start > day_start {
            start
        } else {
            day_start
        };
        let hi = if end < day_end {
            end
        } else {
            day_end
        };
        let ghost prev = out@;
        if lo < hi {
            let piece = PlaySession {
                game_id: session.game_id.clone(),
                started_at: lo,
                ended_at: hi,
                duration: hi - lo,
                checksum: match &session.checksum {
                    Some(c) => Some(c.clone()),
                    None => None,
                },
            };
            out.push(piece);
        }
        proof {
            let f = |p: PlaySession| (p.started_at as int, p.ended_at as int);
            let day_ms = d as int * (MS_PER_DAY as int);
            let spec_lo = if gstart > day_ms {
                gstart
            } else {
                day_ms
            };
            let spec_hi = if gend < day_ms + (END_OF_DAY_OFFSET as int) {
                gend
            } else {
                day_ms + (END_OF_DAY_OFFSET as int)
            };
            assert(day_start as int == day_ms);
            assert(lo as int == spec_lo);
            assert(hi as int == spec_hi);
            assert(split_days(gstart, gend, d as int) == day_chunk(gstart, gend, d as int)
                + split_days(gstart, gend, d as int + 1));
            if lo < hi {
                assert(day_chunk(gstart, gend, d as int) =~= seq![(lo as int, hi as int)]);
                assert(out@.map_values(f) =~= prev.map_values(f) + seq![(lo as int, hi as int)]);
            } else {
                assert(day_chunk(gstart, gend, d as int) =~= Seq::<(int, int)>::empty());
                assert(out@.map_values(f) =~= prev.map_values(f) + day_chunk(
                    gstart,
                    gend,
                    d as int,
                ));
            }
            assert(split_intervals(gstart, gend) =~= out@.map_values(f) + split_days(
                gstart,
                gend,
                d as int + 1,
            ));
        }
        d = d + 1;
    }
    proof {
        assert(split_days(gstart, gend, d as int) =~= Seq::<(int, int)>::empty());
        assert(split_intervals(gstart, gend) =~= out@.map_values(
            |p: PlaySession| (p.started_at as int, p.ended_at as int),
        ));
    }
    out
}

/// Total duration of a sequence of intervals.
pub open spec fn interval_sum(s: Seq<(int, int)>) -> int
    decreases s.len(),
{
    if s.len() == 0 {
        0
    } else {
        (s[0].1 - s[0].0) + interval_sum(s.drop_first())
    }
}

/// Appending one interval adds its duration to the total.
pub proof fn lemma_interval_sum_push(s: Seq<(int, int)>, c: (int, int))
    ensures
        interval_sum(s.push(c)) == interval_sum(s) + (c.1 - c.0),
{
    assert(s.push(c) =~= s + seq![c]);
    lemma_interval_sum_concat(s, seq![c]);
    lemma_interval_sum_singleton(c);
}

/// With no interval running backwards, longer prefixes sum to no less.
pub proof fn lemma_interval_sum_take_mono(s: Seq<(int, int)>, j: int, k: int)
    requires
        0 <= j <= k <= s.len(),
        forall|i: int| 0 <= i < s.len() ==> (#[trigger] s[i]).0 <= s[i].1,
    ensures
        interval_sum(s.take(j)) <= interval_sum(s.take(k)),
    decreases k,
{
    if j < k {
        lemma_interval_sum_take_mono(s, j, k - 1);
        assert(s.take(k - 1).push(s[k - 1]) =~= s.take(k));
        lemma_interval_sum_push(s.take(k - 1), s[k - 1]);
    }
}

proof fn lemma_interval_sum_singleton(c: (int, int))
    ensures
        interval_sum(seq![c]) == c.1 - c.0,
{
    let s = seq![c];
    assert(s.len() == 1 && s[0] == c);
    assert(s.drop_first() =~= Seq::<(int, int)>::empty());
    assert(interval_sum(s.drop_first()) == 0);
    assert(interval_sum(s) == (s[0].1 - s[0].0) + interval_sum(s.drop_first()));
}

proof fn lemma_day_of_mono(a: int, b: int)
    requires
        a <= b,
    ensures
        day_of(a) <= day_of(b),
{
    vstd::arithmetic::div_mod::lemma_div_is_ordered(a, b, MS_PER_DAY as int);
}

proof fn lemma_interval_sum_concat(a: Seq<(int, int)>, b: Seq<(int, int)>)
    ensures
        interval_sum(a + b) == interval_sum(a) + interval_sum(b),
    decreases a.len(),
{
    if a.len() == 0 {
        assert(a + b =~= b);
    } else {
        assert((a + b).drop_first() =~= a.drop_first() + b);
        lemma_interval_sum_concat(a.drop_first(), b);
    }
}

/// The timestamp `ms` lies on day `d` exactly when it lies in the day's span.
pub proof fn lemma_day_of_is(ms: int, d: int)
    requires
        d * (MS_PER_DAY as int) <= ms < (d + 1) * (MS_PER_DAY as int),
    ensures
        day_of(ms) == d,
{
    vstd::arithmetic::div_mod::lemma_fundamental_div_mod_converse(
        ms,
        MS_PER_DAY as int,
        d,
        ms - d * (MS_PER_DAY as int),
    );
}

pub proof fn lemma_day_of_bounds(ms: int)
    ensures
        day_of(ms) * (MS_PER_DAY as int) <= ms < (day_of(ms) + 1) * (MS_PER_DAY as int),
{
    vstd::arithmetic::div_mod::lemma_fundamental_div_mod(ms, MS_PER_DAY as int);
}

/// Structure of the clipped pieces for the days `d` onward: each piece is
/// non-empty, lies inside `[max(start, d·day), end]`, stays within one day,
/// and the pieces come in strictly increasing time order.
proof fn lemma_split_days_structure(start: int, end: int, d: int)
    requires
        0 <= start < end,
        day_of(start) <= d,
    ensures
        forall|i: int|
            0 <= i < split_days(start, end, d).len() ==> {
                let c = #[trigger] split_days(start, end, d)[i];
                &&& start <= c.0
                &&& d * (MS_PER_DAY as int) <= c.0
                &&& c.0 < c.1
                &&& c.1 <= end
                &&& day_of(c.0) == day_of(c.1)
            },
        forall|i: int, j: int|
            0 <= i < j < split_days(start, end, d).len() ==> (#[trigger] split_days(
                start,
                end,
                d,
            )[i]).1 < (#[trigger] split_days(start, end, d)[j]).0,
    decreases day_of(end) + 1 - d,
{
    if day_of(end) < d {
    } else {
        lemma_split_days_structure(start, end, d + 1);
        lemma_day_of_bounds(start);
        lemma_day_of_bounds(end);
        let day_ms = d * (MS_PER_DAY as int);
        let eod = day_ms + (END_OF_DAY_OFFSET as int);
        let chunk = day_chunk(start, end, d);
        let rest = split_days(start, end, d + 1);
        let s = split_days(start, end, d);
        assert(s == chunk + rest);
        if chunk.len() > 0 {
            let c = chunk[0];
            assert(day_ms <= c.0 && c.1 <= eod);
            lemma_day_of_is(c.0, d);
            lemma_day_of_is(c.1, d);
            assert(forall|i: int| 0 <= i < rest.len() ==> #[trigger] s[i + 1] == rest[i]);
        }
    }
}

/// The clipped pieces for days `d` onward cover a duration between zero and
/// what remains of the interval from day `d` on.
proof fn lemma_split_days_sum_bounds(start: int, end: int, d: int)
    requires
        0 <= start < end,
        day_of(start) <= d <= day_of(end),
    ensures
        0 <= interval_sum(split_days(start, end, d)),
        interval_sum(split_days(start, end, d)) <= end - (if start > d * (MS_PER_DAY as int) {
            start
        } else {
            d * (MS_PER_DAY as int)
        }),
    decreases day_of(end) + 1 - d,
{
    let day_ms = d * (MS_PER_DAY as int);
    let eod = day_ms + (END_OF_DAY_OFFSET as int);
    let lo = if start > day_ms {
        start
    } else {
        day_ms
    };
    let hi = if end < eod {
        end
    } else {
        eod
    };
    let chunk = day_chunk(start, end, d);
    lemma_day_of_bounds(end);
    assert(day_ms <= day_of(end) * (MS_PER_DAY as int) <= end);
    if d == day_of(end) {
        assert(split_days(start, end, d + 1) =~= Seq::<(int, int)>::empty());
        lemma_interval_sum_concat(chunk, split_days(start, end, d + 1));
        if lo < hi {
            lemma_interval_sum_singleton((lo, hi));
        }
    } else {
        lemma_split_days_sum_bounds(start, end, d + 1);
        lemma_interval_sum_concat(chunk, split_days(start, end, d + 1));
        let lo_next = if start > (d + 1) * (MS_PER_DAY as int) {
            start
        } else {
            (d + 1) * (MS_PER_DAY as int)
        };
        assert(hi <= eod < (d + 1) * (MS_PER_DAY as int) <= lo_next);
        if lo < hi {
            lemma_interval_sum_singleton((lo, hi));
            assert(interval_sum(split_days(start, end, d)) <= (hi - lo) + (end - lo_next));
        } else {
            assert(interval_sum(chunk) == 0);
            assert(lo <= lo_next);
        }
    }
}

/// The sub-intervals of a session sum to at most its whole duration; the
/// sum is never negative.
pub proof fn lemma_split_sum_bounds(start: int, end: int)
    requires
        0 <= start < end,
    ensures
        0 <= interval_sum(split_intervals(start, end)) <= end - start,
{
    if day_of(start) != day_of(end) {
        lemma_day_of_mono(start, end);
        lemma_split_days_sum_bounds(start, end, day_of(start));
        lemma_day_of_bounds(start);
    } else {
        lemma_interval_sum_singleton((start, end));
    }
}

/// The sub-intervals produced for an interval are pairwise non-overlapping,
/// ordered in time, confined each to one local calendar day, and contained in
/// the interval.
pub proof fn lemma_split_structure(start: int, end: int)
    requires
        0 <= start < end,
    ensures
        forall|i: int|
            0 <= i < split_intervals(start, end).len() ==> {
                let c = #[trigger] split_intervals(start, end)[i];
                &&& start <= c.0
                &&& c.0 < c.1
                &&& c.1 <= end
                &&& day_of(c.0) == day_of(c.1)
            },
        forall|i: int, j: int|
            0 <= i < j < split_intervals(start, end).len() ==> (#[trigger] split_intervals(
                start,
                end,
            )[i]).1 < (#[trigger] split_intervals(start, end)[j]).0,
{
    if day_of(start) != day_of(end) {
        lemma_split_days_structure(start, end, day_of(start));
        lemma_day_of_bounds(start);
    }
}

/// A session confined to one local calendar day splits into exactly the
/// unchanged interval.
pub proof fn lemma_split_single_day(start: int, end: int)
    requires
        0 <= start < end,
        day_of(start) == day_of(end),
    ensures
        split_intervals(start, end) == seq![(start, end)],
{
}

/// Exact duration accounting for the clipped pieces of days `d` onward, for
/// second-aligned interval ends: every day boundary crossed costs exactly the
/// final untracked second of the earlier day.
proof fn lemma_split_days_sum(start: int, end: int, d: int)
    requires
        0 <= start < end,
        start % (MS_PER_SECOND as int) == 0,
        end % (MS_PER_SECOND as int) == 0,
        day_of(start) <= d <= day_of(end),
    ensures
        interval_sum(split_days(start, end, d)) == end - (if start > d * (MS_PER_DAY as int) {
            start
        } else {
            d * (MS_PER_DAY as int)
        }) - (MS_PER_SECOND as int) * (day_of(end) - d),
    decreases day_of(end) + 1 - d,
{
    let day_ms = d * (MS_PER_DAY as int);
    let eod = day_ms + (END_OF_DAY_OFFSET as int);
    let lo = if start > day_ms {
        start
    } else {
        day_ms
    };
    let chunk = day_chunk(start, end, d);
    lemma_day_of_bounds(start);
    lemma_day_of_bounds(end);
    lemma_aligned_within_day(start);
    lemma_aligned_within_day(end);
    if d == day_of(end) {
        assert(split_days(start, end, d + 1) =~= Seq::<(int, int)>::empty());
        lemma_interval_sum_concat(chunk, split_days(start, end, d + 1));
        assert(end <= eod);
        if lo < end {
            lemma_interval_sum_singleton((lo, end));
        } else {
            assert(day_ms <= day_of(end) * (MS_PER_DAY as int) <= end);
            assert(lo == end);
        }
    } else {
        lemma_split_days_sum(start, end, d + 1);
        lemma_interval_sum_concat(chunk, split_days(start, end, d + 1));
        let next_ms = (d + 1) * (MS_PER_DAY as int);
        assert(next_ms <= day_of(end) * (MS_PER_DAY as int) <= end);
        // start lies on an earlier day than d + 1, so the next piece starts
        // at that day's midnight.
        assert(start < (day_of(start) + 1) * (MS_PER_DAY as int) <= next_ms);
        let lo_next = if start > next_ms {
            start
        } else {
            next_ms
        };
        assert(lo_next == next_ms);
        assert(interval_sum(split_days(start, end, d + 1)) == end - next_ms - (
        MS_PER_SECOND as int) * (day_of(end) - d - 1));
        assert(lo <= eod);
        if lo < eod {
            lemma_interval_sum_singleton((lo, eod));
            assert(interval_sum(chunk) == eod - lo);
        } else {
            assert(interval_sum(chunk) == 0 && eod == lo);
        }
        assert((MS_PER_SECOND as int) * (day_of(end) - d) == (MS_PER_SECOND as int) * (day_of(end)
            - d - 1) + (MS_PER_SECOND as int)) by (nonlinear_arith);
        assert(next_ms == eod + (MS_PER_SECOND as int));
    }
}

/// A second-aligned timestamp sits at most 23:59:59.000 into its day.
proof fn lemma_aligned_within_day(ms: int)
    requires
        ms % (MS_PER_SECOND as int) == 0,
    ensures
        ms - day_of(ms) * (MS_PER_DAY as int) <= END_OF_DAY_OFFSET as int,
{
    lemma_day_of_bounds(ms);
    let r = ms - day_of(ms) * (MS_PER_DAY as int);
    assert(r % 1000 == ms % 1000) by (nonlinear_arith)
        requires
            r == ms - day_of(ms) * (MS_PER_DAY as int),
    ;
    if r > END_OF_DAY_OFFSET as int {
        assert(false) by (nonlinear_arith)
            requires
                (END_OF_DAY_OFFSET as int) < r < (MS_PER_DAY as int),
                r % 1000 == 0,
        ;
    }
}

/// For second-aligned sessions the emitted durations sum to the session's
/// whole duration less one second for every midnight crossed.
pub proof fn lemma_split_durations_sum(start: int, end: int)
    requires
        0 <= start < end,
        start % (MS_PER_SECOND as int) == 0,
        end % (MS_PER_SECOND as int) == 0,
    ensures
        interval_sum(split_intervals(start, end)) == (end - start) - (MS_PER_SECOND as int) * (
        day_of(end) - day_of(start)),
{
    if day_of(start) == day_of(end) {
        lemma_interval_sum_singleton((start, end));
    } else {
        lemma_day_of_mono(start, end);
        lemma_split_days_sum(start, end, day_of(start));
        lemma_day_of_bounds(start);
    }
}

/// A session crossing exactly one midnight, starting before the first day's
/// last tracked second and ending past the midnight, splits into exactly two
/// pieces: the first ends at 23:59:59.000 of its day and the second starts at
/// 00:00:00.000 of the next.
pub proof fn lemma_split_one_midnight(start: int, end: int)
    requires
        0 <= start < end,
        day_of(end) == day_of(start) + 1,
        start < day_of(start) * (MS_PER_DAY as int) + (END_OF_DAY_OFFSET as int),
        end > day_of(end) * (MS_PER_DAY as int),
    ensures
        split_intervals(start, end).len() == 2,
        split_intervals(start, end)[0] == (
            start,
            day_of(start) * (MS_PER_DAY as int) + (END_OF_DAY_OFFSET as int),
        ),
        split_intervals(start, end)[1].0 == day_of(end) * (MS_PER_DAY as int),
        split_intervals(start, end)[1].1 == (if end < day_of(end) * (MS_PER_DAY as int)
            + (END_OF_DAY_OFFSET as int) {
            end
        } else {
            day_of(end) * (MS_PER_DAY as int) + (END_OF_DAY_OFFSET as int)
        }),
{
    let d0 = day_of(start);
    let d1 = day_of(end);
    lemma_day_of_bounds(start);
    lemma_day_of_bounds(end);
    assert(split_days(start, end, d1 + 1) =~= Seq::<(int, int)>::empty());
    let c0 = day_chunk(start, end, d0);
    let c1 = day_chunk(start, end, d1);
    assert(split_days(start, end, d1) == c1 + split_days(start, end, d1 + 1));
    assert(split_days(start, end, d0) == c0 + split_days(start, end, d1));
    assert(c0.len() == 1 && c1.len() == 1);
    assert(split_intervals(start, end) =~= c0 + c1);
}

} // verus!
