//! Civil-calendar arithmetic and the fixed `YYYY-MM-DDTHH:MM:SS` timestamp
//! format in which the store records local wall-clock times.
//!
//! All timestamps are local wall-clock instants measured in milliseconds from
//! 1970-01-01T00:00:00 local time; a calendar day is exactly 86_400_000
//! milliseconds.  The supported window covers the years 1970 through 9999,
//! which is what four year digits can express.

use vstd::prelude::*;
use vstd::string::StrSliceExecFns;
use vstd::string::StringExecFns;

verus! {

pub const MS_PER_SECOND: i64 = 1000;

pub const MS_PER_DAY: i64 = 86_400_000;

pub const SECONDS_PER_DAY: i64 = 86_400;

pub const EPOCH_YEAR: i64 = 1970;

pub const YEAR_LIMIT: i64 = 10_000;

pub open spec fn is_leap_year(y: int) -> bool {
    (y % 4 == 0 && y % 100 != 0) || y % 400 == 0
}

pub open spec fn days_in_year(y: int) -> int {
    if is_leap_year(y) {
        366
    } else {
        365
    }
}

pub open spec fn days_in_month(y: int, m: int) -> int {
    if m == 2 {
        if is_leap_year(y) {
            29
        } else {
            28
        }
    } else if m == 4 || m == 6 || m == 9 || m == 11 {
        30
    } else {
        31
    }
}

/// Days from 1970-01-01 to the first day of year `y`.
pub open spec fn days_before_year(y: int) -> int
    decreases y,
{
    if y <= EPOCH_YEAR {
        0
    } else {
        days_before_year(y - 1) + days_in_year(y - 1)
    }
}

/// Days from the first day of year `y` to the first day of month `m` of `y`.
pub open spec fn days_before_month(y: int, m: int) -> int
    decreases m,
{
    if m <= 1 {
        0
    } else {
        days_before_month(y, m - 1) + days_in_month(y, m - 1)
    }
}

/// Day index of the civil date `y-m-d`, counted from 1970-01-01 as day 0.
pub open spec fn day_number(y: int, m: int, d: int) -> int {
    days_before_year(y) + days_before_month(y, m) + (d - 1)
}

pub open spec fn valid_date(y: int, m: int, d: int) -> bool {
    &&& EPOCH_YEAR <= y < YEAR_LIMIT
    &&& 1 <= m <= 12
    &&& 1 <= d <= days_in_month(y, m)
}

/// The calendar window: every timestamp the store can format falls in it.
pub open spec fn in_calendar_range(ms: int) -> bool {
    0 <= ms && ms < days_before_year(YEAR_LIMIT as int) * (MS_PER_DAY as int)
}

/// The local calendar day a wall-clock timestamp falls on, as a day index.
pub open spec fn day_of(ms: int) -> int {
    ms / (MS_PER_DAY as int)
}

pub proof fn lemma_days_before_year_bound(y: int)
    requires
        EPOCH_YEAR <= y <= YEAR_LIMIT,
    ensures
        365 * (y - EPOCH_YEAR) <= days_before_year(y) <= 366 * (y - EPOCH_YEAR),
    decreases y,
{
    if y > EPOCH_YEAR {
        lemma_days_before_year_bound(y - 1);
    }
}

pub proof fn lemma_days_before_year_mono(y1: int, y2: int)
    requires
        y1 <= y2,
    ensures
        days_before_year(y1) <= days_before_year(y2),
    decreases y2,
{
    if y1 < y2 && y2 > EPOCH_YEAR {
        lemma_days_before_year_mono(y1, y2 - 1);
    }
}

pub proof fn lemma_days_before_month_mono(y: int, m1: int, m2: int)
    requires
        m1 <= m2,
    ensures
        days_before_month(y, m1) <= days_before_month(y, m2),
    decreases m2,
{
    if m1 < m2 && m2 > 1 {
        lemma_days_before_month_mono(y, m1, m2 - 1);
    }
}

/// The twelve months of year `y` together hold exactly `days_in_year(y)` days.
pub proof fn lemma_months_sum(y: int)
    ensures
        days_before_month(y, 13) == days_in_year(y),
{
    reveal_with_fuel(days_before_month, 14);
}

/// A valid date of year `y` has a day index inside year `y`'s day range.
pub proof fn lemma_day_number_in_year(y: int, m: int, d: int)
    requires
        valid_date(y, m, d),
    ensures
        days_before_year(y) <= day_number(y, m, d) < days_before_year(y + 1),
{
    lemma_days_before_month_mono(y, 1, m);
    lemma_days_before_month_mono(y, m + 1, 13);
    lemma_months_sum(y);
}

/// Distinct valid dates have distinct day indices.
pub proof fn lemma_day_number_injective(y1: int, m1: int, d1: int, y2: int, m2: int, d2: int)
    requires
        valid_date(y1, m1, d1),
        valid_date(y2, m2, d2),
        day_number(y1, m1, d1) == day_number(y2, m2, d2),
    ensures
        y1 == y2 && m1 == m2 && d1 == d2,
{
    if y1 < y2 {
        lemma_day_number_in_year(y1, m1, d1);
        lemma_day_number_in_year(y2, m2, d2);
        lemma_days_before_year_mono(y1 + 1, y2);
    } else if y2 < y1 {
        lemma_day_number_in_year(y1, m1, d1);
        lemma_day_number_in_year(y2, m2, d2);
        lemma_days_before_year_mono(y2 + 1, y1);
    } else {
        if m1 < m2 {
            lemma_days_before_month_mono(y1, m1 + 1, m2);
        } else if m2 < m1 {
            lemma_days_before_month_mono(y1, m2 + 1, m1);
        }
    }
}

/// The unique valid civil date whose day index is `day`.
pub open spec fn civil_of_day(day: int) -> (int, int, int) {
    choose|t: (int, int, int)| valid_date(t.0, t.1, t.2) && day_number(t.0, t.1, t.2) == day
}

/// Every day index in the supported window names a valid civil date.
pub proof fn lemma_civil_of_day_exists(day: int)
    requires
        0 <= day < days_before_year(YEAR_LIMIT as int),
    ensures
        valid_date(civil_of_day(day).0, civil_of_day(day).1, civil_of_day(day).2),
        day_number(civil_of_day(day).0, civil_of_day(day).1, civil_of_day(day).2) == day,
    decreases day,
{
    if day == 0 {
        lemma_civil_of_day_is(0, EPOCH_YEAR as int, 1, 1);
    } else {
        lemma_civil_of_day_exists(day - 1);
        let t = civil_of_day(day - 1);
        if t.2 < days_in_month(t.0, t.1) {
            lemma_civil_of_day_is(day, t.0, t.1, t.2 + 1);
        } else if t.1 < 12 {
            lemma_civil_of_day_is(day, t.0, t.1 + 1, 1);
        } else {
            lemma_months_sum(t.0);
            if t.0 + 1 >= YEAR_LIMIT {
                lemma_days_before_year_mono(YEAR_LIMIT as int, t.0 + 1);
                assert(false);
            }
            lemma_civil_of_day_is(day, t.0 + 1, 1, 1);
        }
    }
}

/// A valid civil date with day index `day` pins `civil_of_day(day)` down.
pub proof fn lemma_civil_of_day_is(day: int, y: int, m: int, d: int)
    requires
        valid_date(y, m, d),
        day_number(y, m, d) == day,
    ensures
        civil_of_day(day) == (y, m, d),
{
    let w = (y, m, d);
    assert(valid_date(w.0, w.1, w.2) && day_number(w.0, w.1, w.2) == day);
    assert(exists|t: (int, int, int)| valid_date(t.0, t.1, t.2) && day_number(t.0, t.1, t.2)
        == day);
    let t = civil_of_day(day);
    assert(valid_date(t.0, t.1, t.2) && day_number(t.0, t.1, t.2) == day);
    lemma_day_number_injective(t.0, t.1, t.2, y, m, d);
}

pub fn is_leap_year_exec(y: i64) -> (r: bool)
    requires
        0 <= y,
    ensures
        r == is_leap_year(y as int),
{
    (y % 4 == 0 && y % 100 != 0) || y % 400 == 0
}

pub fn days_in_year_exec(y: i64) -> (r: i64)
    requires
        0 <= y,
    ensures
        r == days_in_year(y as int),
{
    if is_leap_year_exec(y) {
        366
    } else {
        365
    }
}

pub fn days_in_month_exec(y: i64, m: i64) -> (r: i64)
    requires
        0 <= y,
    ensures
        r == days_in_month(y as int, m as int),
{
    if m == 2 {
        if is_leap_year_exec(y) {
            29
        } else {
            28
        }
    } else if m == 4 || m == 6 || m == 9 || m == 11 {
        30
    } else {
        31
    }
}

/// The number of days from 1970-01-01 to 10000-01-01: the first day index
/// past the supported calendar window.
pub fn day_limit() -> (r: i64)
    ensures
        r == days_before_year(YEAR_LIMIT as int),
{
    let mut y: i64 = EPOCH_YEAR;
    let mut acc: i64 = 0;
    while y < YEAR_LIMIT
        invariant
            EPOCH_YEAR <= y <= YEAR_LIMIT,
            acc == days_before_year(y as int),
        decreases YEAR_LIMIT - y,
    {
        proof {
            lemma_days_before_year_bound(y as int);
        }
        acc = acc + days_in_year_exec(y);
        y = y + 1;
    }
    acc
}

/// The civil date `(year, month, day)` whose day index is `day`.
pub fn civil_from_day(day: i64) -> (r: (i64, i64, i64))
    requires
        0 <= day < days_before_year(YEAR_LIMIT as int),
    ensures
        valid_date(r.0 as int, r.1 as int, r.2 as int),
        day_number(r.0 as int, r.1 as int, r.2 as int) == day,
        (r.0 as int, r.1 as int, r.2 as int) == civil_of_day(day as int),
{
    proof {
        lemma_days_before_year_bound(YEAR_LIMIT as int);
    }
    let mut y: i64 = EPOCH_YEAR;
    let mut acc: i64 = 0;
    loop
        invariant
            EPOCH_YEAR <= y < YEAR_LIMIT,
            acc == days_before_year(y as int),
            acc <= day < days_before_year(YEAR_LIMIT as int),
            days_before_year(YEAR_LIMIT as int) <= 366 * (YEAR_LIMIT - EPOCH_YEAR),
        ensures
            EPOCH_YEAR <= y < YEAR_LIMIT,
            acc == days_before_year(y as int),
            acc <= day,
            day < acc + days_in_year(y as int),
        decreases YEAR_LIMIT - y,
    {
        proof {
            lemma_days_before_year_bound(y as int);
        }
        let diy = days_in_year_exec(y);
        if acc + diy <= day {
            proof {
                if y + 1 == YEAR_LIMIT {
                    assert(days_before_year(YEAR_LIMIT as int) == days_before_year(
                        YEAR_LIMIT as int - 1,
                    ) + days_in_year(YEAR_LIMIT as int - 1));
                }
            }
            acc = acc + diy;
            y = y + 1;
        } else {
            break;
        }
    }
    let mut m: i64 = 1;
    loop
        invariant
            1 <= m <= 12,
            EPOCH_YEAR <= y < YEAR_LIMIT,
            acc == days_before_year(y as int) + days_before_month(y as int, m as int),
            acc <= day,
            day < days_before_year(y as int) + days_in_year(y as int),
            days_before_year(y as int) <= 366 * (YEAR_LIMIT - EPOCH_YEAR),
        ensures
            1 <= m <= 12,
            EPOCH_YEAR <= y < YEAR_LIMIT,
            acc == days_before_year(y as int) + days_before_month(y as int, m as int),
            acc <= day,
            day < acc + days_in_month(y as int, m as int),
        decreases 12 - m,
    {
        proof {
            lemma_days_before_month_mono(y as int, 1, m as int);
        }
        let dim = days_in_month_exec(y, m);
        if acc + dim <= day {
            proof {
                if m == 12 {
                    lemma_months_sum(y as int);
                }
            }
            acc = acc + dim;
            m = m + 1;
        } else {
            break;
        }
    }
    let d = day - acc + 1;
    proof {
        let t = (y as int, m as int, d as int);
        assert(valid_date(t.0, t.1, t.2) && day_number(t.0, t.1, t.2) == day as int);
        let c = civil_of_day(day as int);
        assert(valid_date(c.0, c.1, c.2) && day_number(c.0, c.1, c.2) == day as int);
        lemma_day_number_injective(t.0, t.1, t.2, c.0, c.1, c.2);
    }
    (y, m, d)
}

/// The day index of a valid civil date.
pub fn day_number_exec(y: i64, m: i64, d: i64) -> (r: i64)
    requires
        valid_date(y as int, m as int, d as int),
    ensures
        r == day_number(y as int, m as int, d as int),
{
    let mut yy: i64 = EPOCH_YEAR;
    let mut acc: i64 = 0;
    while yy < y
        invariant
            EPOCH_YEAR <= yy <= y < YEAR_LIMIT,
            acc == days_before_year(yy as int),
        decreases y - yy,
    {
        proof {
            lemma_days_before_year_bound(yy as int);
        }
        acc = acc + days_in_year_exec(yy);
        yy = yy + 1;
    }
    proof {
        lemma_days_before_year_bound(y as int);
    }
    let mut mm: i64 = 1;
    while mm < m
        invariant
            1 <= mm <= m <= 12,
            EPOCH_YEAR <= y < YEAR_LIMIT,
            acc == days_before_year(y as int) + days_before_month(y as int, mm as int),
            days_before_year(y as int) <= 366 * (YEAR_LIMIT - EPOCH_YEAR),
        decreases m - mm,
    {
        proof {
            lemma_days_before_month_mono(y as int, 1, mm as int);
            lemma_days_before_month_mono(y as int, mm as int + 1, 13);
            lemma_months_sum(y as int);
        }
        acc = acc + days_in_month_exec(y, mm);
        mm = mm + 1;
    }
    proof {
        lemma_days_before_month_mono(y as int, m as int, 13);
        lemma_months_sum(y as int);
    }
    acc + (d - 1)
}

pub open spec fn digit_char(d: int) -> char {
    if d == 0 {
        '0'
    } else if d == 1 {
        '1'
    } else if d == 2 {
        '2'
    } else if d == 3 {
        '3'
    } else if d == 4 {
        '4'
    } else if d == 5 {
        '5'
    } else if d == 6 {
        '6'
    } else if d == 7 {
        '7'
    } else if d == 8 {
        '8'
    } else {
        '9'
    }
}

pub open spec fn two_digits(n: int) -> Seq<char> {
    seq![digit_char(n / 10), digit_char(n % 10)]
}

pub open spec fn four_digits(n: int) -> Seq<char> {
    seq![
        digit_char(n / 1000),
        digit_char((n / 100) % 10),
        digit_char((n / 10) % 10),
        digit_char(n % 10),
    ]
}

/// The canonical text of a civil date and time of day, `YYYY-MM-DDTHH:MM:SS`.
pub open spec fn datetime_seq(y: int, m: int, d: int, h: int, mi: int, s: int) -> Seq<char> {
    four_digits(y) + seq!['-'] + two_digits(m) + seq!['-'] + two_digits(d) + seq!['T'] + two_digits(
        h,
    ) + seq![':'] + two_digits(mi) + seq![':'] + two_digits(s)
}

/// The canonical text of a local wall-clock timestamp in milliseconds.
pub open spec fn datetime_seq_of_ms(ms: int) -> Seq<char> {
    let t = civil_of_day(ms / (MS_PER_DAY as int));
    let secs = (ms % (MS_PER_DAY as int)) / (MS_PER_SECOND as int);
    datetime_seq(t.0, t.1, t.2, secs / 3600, (secs / 60) % 60, secs % 60)
}

pub(crate) fn push_digit(out: &mut String, d: i64)
    requires
        0 <= d <= 9,
    ensures
        final(out)@ == old(out)@ + seq![digit_char(d as int)],
{
    proof {
        reveal_strlit("0");
        reveal_strlit("1");
        reveal_strlit("2");
        reveal_strlit("3");
        reveal_strlit("4");
        reveal_strlit("5");
        reveal_strlit("6");
        reveal_strlit("7");
        reveal_strlit("8");
        reveal_strlit("9");
    }
    if d == 0 {
        out.append("0");
    } else if d == 1 {
        out.append("1");
    } else if d == 2 {
        out.append("2");
    } else if d == 3 {
        out.append("3");
    } else if d == 4 {
        out.append("4");
    } else if d == 5 {
        out.append("5");
    } else if d == 6 {
        out.append("6");
    } else if d == 7 {
        out.append("7");
    } else if d == 8 {
        out.append("8");
    } else {
        out.append("9");
    }
    proof {
        assert(final(out)@ =~= old(out)@ + seq![digit_char(d as int)]);
    }
}

fn push_two_digits(out: &mut String, n: i64)
    requires
        0 <= n <= 99,
    ensures
        final(out)@ == old(out)@ + two_digits(n as int),
{
    push_digit(out, n / 10);
    push_digit(out, n % 10);
    proof {
        assert(final(out)@ =~= old(out)@ + two_digits(n as int));
    }
}

fn push_four_digits(out: &mut String, n: i64)
    requires
        0 <= n <= 9999,
    ensures
        final(out)@ == old(out)@ + four_digits(n as int),
{
    push_digit(out, n / 1000);
    push_digit(out, (n / 100) % 10);
    push_digit(out, (n / 10) % 10);
    push_digit(out, n % 10);
    proof {
        assert(final(out)@ =~= old(out)@ + four_digits(n as int));
    }
}

/// Render a local wall-clock timestamp as its canonical stored text.
pub fn format_datetime_ms(ms: i64) -> (r: String)
    requires
        in_calendar_range(ms as int),
    ensures
        r@ == datetime_seq_of_ms(ms as int),
{
    let day = ms / MS_PER_DAY;
    let t = civil_from_day(day);
    let rem = ms % MS_PER_DAY;
    let secs = rem / MS_PER_SECOND;
    let h = secs / 3600;
    let mi = (secs / 60) % 60;
    let s = secs % 60;
    proof {
        reveal_strlit("-");
        reveal_strlit("T");
        reveal_strlit(":");
    }
    let mut out = String::new();
    push_four_digits(&mut out, t.0);
    out.append("-");
    push_two_digits(&mut out, t.1);
    out.append("-");
    push_two_digits(&mut out, t.2);
    out.append("T");
    push_two_digits(&mut out, h);
    out.append(":");
    push_two_digits(&mut out, mi);
    out.append(":");
    push_two_digits(&mut out, s);
    proof {
        assert(out@ =~= datetime_seq_of_ms(ms as int));
    }
    out
}

/// The digit value of an ASCII digit character, or 10 for any other character.
pub open spec fn char_digit(c: char) -> int {
    if c == '0' {
        0
    } else if c == '1' {
        1
    } else if c == '2' {
        2
    } else if c == '3' {
        3
    } else if c == '4' {
        4
    } else if c == '5' {
        5
    } else if c == '6' {
        6
    } else if c == '7' {
        7
    } else if c == '8' {
        8
    } else if c == '9' {
        9
    } else {
        10
    }
}

fn read_digit(s: &str, i: usize) -> (r: Option<i64>)
    requires
        i < s@.len(),
    ensures
        r matches Some(d) ==> 0 <= d <= 9 && s@[i as int] == digit_char(d as int),
        r is None ==> char_digit(s@[i as int]) == 10,
{
    let c = s.get_char(i);
    if c == '0' {
        Some(0)
    } else if c == '1' {
        Some(1)
    } else if c == '2' {
        Some(2)
    } else if c == '3' {
        Some(3)
    } else if c == '4' {
        Some(4)
    } else if c == '5' {
        Some(5)
    } else if c == '6' {
        Some(6)
    } else if c == '7' {
        Some(7)
    } else if c == '8' {
        Some(8)
    } else if c == '9' {
        Some(9)
    } else {
        None
    }
}

fn read_two_digits(s: &str, i: usize) -> (r: Option<i64>)
    requires
        i + 2 <= s@.len(),
        i <= 1000,
    ensures
        r matches Some(n) ==> 0 <= n <= 99 && s@.subrange(i as int, i as int + 2) == two_digits(
            n as int,
        ),
        r is None ==> char_digit(s@[i as int]) == 10 || char_digit(s@[i as int + 1]) == 10,
{
    let hi = read_digit(s, i);
    let lo = read_digit(s, i + 1);
    match (hi, lo) {
        (Some(a), Some(b)) => {
            let n = a * 10 + b;
            proof {
                assert(s@.subrange(i as int, i as int + 2) =~= two_digits(n as int));
            }
            Some(n)
        },
        _ => None,
    }
}

fn read_four_digits(s: &str, i: usize) -> (r: Option<i64>)
    requires
        i + 4 <= s@.len(),
        i <= 1000,
    ensures
        r matches Some(n) ==> 0 <= n <= 9999 && s@.subrange(i as int, i as int + 4) == four_digits(
            n as int,
        ),
        r is None ==> char_digit(s@[i as int]) == 10 || char_digit(s@[i as int + 1]) == 10
            || char_digit(s@[i as int + 2]) == 10 || char_digit(s@[i as int + 3]) == 10,
{
    let d0 = read_digit(s, i);
    let d1 = read_digit(s, i + 1);
    let d2 = read_digit(s, i + 2);
    let d3 = read_digit(s, i + 3);
    match (d0, d1, d2, d3) {
        (Some(a), Some(b), Some(c), Some(d)) => {
            let n = ((a * 10 + b) * 10 + c) * 10 + d;
            proof {
                assert(s@.subrange(i as int, i as int + 4) =~= four_digits(n as int));
            }
            Some(n)
        },
        _ => None,
    }
}

/// The local wall-clock timestamp of a valid civil date and time of day.
pub open spec fn ms_of_civil(y: int, m: int, d: int, h: int, mi: int, s: int) -> int {
    (day_number(y, m, d) * (SECONDS_PER_DAY as int) + h * 3600 + mi * 60 + s) * (
    MS_PER_SECOND as int)
}

pub open spec fn valid_time(h: int, mi: int, s: int) -> bool {
    0 <= h < 24 && 0 <= mi < 60 && 0 <= s < 60
}

/// The timestamp of a civil date and time of day, or `None` when the
/// components do not name a date in the supported window.
pub fn datetime_to_ms(y: i64, m: i64, d: i64, h: i64, mi: i64, s: i64) -> (r: Option<i64>)
    ensures
        r matches Some(ms) ==> valid_date(y as int, m as int, d as int) && valid_time(
            h as int,
            mi as int,
            s as int,
        ) && ms == ms_of_civil(y as int, m as int, d as int, h as int, mi as int, s as int)
            && in_calendar_range(ms as int),
        r is None ==> !(valid_date(y as int, m as int, d as int) && valid_time(
            h as int,
            mi as int,
            s as int,
        )),
{
    if !(EPOCH_YEAR <= y && y < YEAR_LIMIT && 1 <= m && m <= 12 && 1 <= d) {
        return None;
    }
    if d > days_in_month_exec(y, m) {
        return None;
    }
    if !(0 <= h && h < 24 && 0 <= mi && mi < 60 && 0 <= s && s < 60) {
        return None;
    }
    let day = day_number_exec(y, m, d);
    proof {
        lemma_day_number_in_year(y as int, m as int, d as int);
        lemma_days_before_year_bound(y as int);
        lemma_days_before_year_mono(y as int + 1, YEAR_LIMIT as int);
        lemma_days_before_year_bound(YEAR_LIMIT as int);
        assert(0 <= day < days_before_year(YEAR_LIMIT as int) <= 366 * (YEAR_LIMIT - EPOCH_YEAR));
    }
    Some((day * SECONDS_PER_DAY + h * 3600 + mi * 60 + s) * MS_PER_SECOND)
}

/// A sequence of 19 characters made of the canonical pieces in canonical
/// positions is the canonical text itself.
proof fn lemma_datetime_seq_parts(
    s: Seq<char>,
    y: int,
    m: int,
    d: int,
    h: int,
    mi: int,
    sec: int,
)
    requires
        s.len() == 19,
        s.subrange(0, 4) == four_digits(y),
        s[4] == '-',
        s.subrange(5, 7) == two_digits(m),
        s[7] == '-',
        s.subrange(8, 10) == two_digits(d),
        s[10] == 'T',
        s.subrange(11, 13) == two_digits(h),
        s[13] == ':',
        s.subrange(14, 16) == two_digits(mi),
        s[16] == ':',
        s.subrange(17, 19) == two_digits(sec),
    ensures
        s == datetime_seq(y, m, d, h, mi, sec),
{
    assert(s =~= datetime_seq(y, m, d, h, mi, sec));
}

/// Parse canonical stored text back to a timestamp.  Any string this returns
/// a value for is exactly the canonical text of that value; a string it
/// rejects is the canonical text of no timestamp at all.
#[verifier::rlimit(80)]
pub fn parse_datetime_ms(s: &str) -> (r: Option<i64>)
    ensures
        r matches Some(ms) ==> in_calendar_range(ms as int) && ms % MS_PER_SECOND == 0 && s@
            == datetime_seq_of_ms(ms as int),
        r is None ==> forall|ms: int| in_calendar_range(ms) ==> s@ != #[trigger] datetime_seq_of_ms(
            ms,
        ),
{
    let n = s.unicode_len();
    if n != 19 {
        proof {
            assert forall|ms: int| in_calendar_range(ms) implies s@ != datetime_seq_of_ms(ms) by {
                if s@ == datetime_seq_of_ms(ms) {
                    lemma_canonical_shape(ms);
                }
            }
        }
        return None;
    }
    proof {
        reveal_strlit("-");
        reveal_strlit("T");
        reveal_strlit(":");
    }
    if !(s.get_char(4) == '-' && s.get_char(7) == '-' && s.get_char(10) == 'T' && s.get_char(13)
        == ':' && s.get_char(16) == ':') {
        proof {
            assert forall|ms: int| in_calendar_range(ms) implies s@ != datetime_seq_of_ms(ms) by {
                if s@ == datetime_seq_of_ms(ms) {
                    lemma_canonical_shape(ms);
                }
            }
        }
        return None;
    }
    let y_opt = read_four_digits(s, 0);
    let m_opt = read_two_digits(s, 5);
    let d_opt = read_two_digits(s, 8);
    let h_opt = read_two_digits(s, 11);
    let mi_opt = read_two_digits(s, 14);
    let sec_opt = read_two_digits(s, 17);
    let (y, m, d, h, mi, sec) = match (y_opt, m_opt, d_opt, h_opt, mi_opt, sec_opt) {
        (Some(a), Some(b), Some(c), Some(dd), Some(e), Some(f)) => (a, b, c, dd, e, f),
        _ => {
            proof {
                assert forall|ms: int| in_calendar_range(ms) implies s@ != datetime_seq_of_ms(
                    ms,
                ) by {
                    if s@ == datetime_seq_of_ms(ms) {
                        lemma_canonical_shape(ms);
                    }
                }
            }
            return None;
        },
    };
    match datetime_to_ms(y, m, d, h, mi, sec) {
        Some(ms) => {
            proof {
                lemma_ms_of_civil_components(
                    y as int,
                    m as int,
                    d as int,
                    h as int,
                    mi as int,
                    sec as int,
                );
                lemma_civil_of_day_is(
                    ms as int / (MS_PER_DAY as int),
                    y as int,
                    m as int,
                    d as int,
                );
                let tod = (ms as int % (MS_PER_DAY as int)) / (MS_PER_SECOND as int);
                assert(tod == h * 3600 + mi * 60 + sec);
                assert(tod / 3600 == h && (tod / 60) % 60 == mi && tod % 60 == sec)
                    by (nonlinear_arith)
                    requires
                        tod == h * 3600 + mi * 60 + sec,
                        0 <= h < 24,
                        0 <= mi < 60,
                        0 <= sec < 60,
                ;
                lemma_datetime_seq_parts(
                    s@,
                    y as int,
                    m as int,
                    d as int,
                    h as int,
                    mi as int,
                    sec as int,
                );
                assert(ms as int % (MS_PER_SECOND as int) == 0) by (nonlinear_arith)
                    requires
                        ms as int == (day_number(y as int, m as int, d as int) * (
                        SECONDS_PER_DAY as int) + h as int * 3600 + mi as int * 60 + sec as int) * (
                        MS_PER_SECOND as int),
                ;
            }
            Some(ms)
        },
        None => {
            proof {
                assert forall|ms: int| in_calendar_range(ms) implies s@ != datetime_seq_of_ms(
                    ms,
                ) by {
                    if s@ == datetime_seq_of_ms(ms) {
                        lemma_canonical_shape(ms);
                        let t = civil_of_day(ms / (MS_PER_DAY as int));
                        lemma_four_digits_value(y as int);
                        lemma_two_digits_value(m as int);
                        lemma_two_digits_value(d as int);
                        lemma_two_digits_value(h as int);
                        lemma_two_digits_value(mi as int);
                        lemma_two_digits_value(sec as int);
                        assert(s@[0] == four_digits(y as int)[0] && s@[1] == four_digits(
                            y as int,
                        )[1] && s@[2] == four_digits(y as int)[2] && s@[3] == four_digits(
                            y as int,
                        )[3]);
                        assert(s@[5] == two_digits(m as int)[0] && s@[6] == two_digits(
                            m as int,
                        )[1]);
                        assert(s@[8] == two_digits(d as int)[0] && s@[9] == two_digits(
                            d as int,
                        )[1]);
                        assert(s@[11] == two_digits(h as int)[0] && s@[12] == two_digits(
                            h as int,
                        )[1]);
                        assert(s@[14] == two_digits(mi as int)[0] && s@[15] == two_digits(
                            mi as int,
                        )[1]);
                        assert(s@[17] == two_digits(sec as int)[0] && s@[18] == two_digits(
                            sec as int,
                        )[1]);
                        assert(t.0 == y as int && t.1 == m as int && t.2 == d as int);
                        assert(valid_date(y as int, m as int, d as int));
                        assert(valid_time(h as int, mi as int, sec as int));
                    }
                }
            }
            None
        },
    }
}

/// Whether `dt` is the canonical text of some stored timestamp.
pub open spec fn is_canonical_datetime(dt: Seq<char>) -> bool {
    exists|ms: int|
        in_calendar_range(ms) && ms % (MS_PER_SECOND as int) == 0 && dt == datetime_seq_of_ms(ms)
}

/// The timestamp whose canonical text `dt` is.
pub open spec fn canonical_datetime_ms(dt: Seq<char>) -> int {
    choose|ms: int|
        in_calendar_range(ms) && ms % (MS_PER_SECOND as int) == 0 && dt == datetime_seq_of_ms(ms)
}

/// What `parse_datetime_ms` returns, stated over the canonical-text names:
/// the parsed value of canonical text, nothing for anything else.
pub proof fn lemma_parse_result(dt: Seq<char>, r: Option<i64>)
    requires
        r matches Some(ms) ==> in_calendar_range(ms as int) && ms % MS_PER_SECOND == 0 && dt
            == datetime_seq_of_ms(ms as int),
        r is None ==> forall|ms: int| in_calendar_range(ms) ==> dt != #[trigger] datetime_seq_of_ms(
            ms,
        ),
    ensures
        r matches Some(ms) ==> is_canonical_datetime(dt) && canonical_datetime_ms(dt) == ms as int,
        r is None ==> !is_canonical_datetime(dt),
{
    if r is Some {
        let v = r->Some_0;
        assert(in_calendar_range(v as int) && v as int % (MS_PER_SECOND as int) == 0 && dt
            == datetime_seq_of_ms(v as int));
        assert(is_canonical_datetime(dt));
        let w = canonical_datetime_ms(dt);
        assert(in_calendar_range(w) && w % (MS_PER_SECOND as int) == 0 && dt == datetime_seq_of_ms(
            w,
        ));
        lemma_datetime_seq_injective(v as int, w);
    }
}

/// A digit character reads back as its digit.
pub proof fn lemma_digit_roundtrip(d: int)
    requires
        0 <= d <= 9,
    ensures
        char_digit(digit_char(d)) == d,
{
}

/// A non-negative number below 100 is its two digits read back.
pub proof fn lemma_two_digits_value(n: int)
    requires
        0 <= n <= 99,
    ensures
        char_digit(two_digits(n)[0]) * 10 + char_digit(two_digits(n)[1]) == n,
        char_digit(two_digits(n)[0]) <= 9,
        char_digit(two_digits(n)[1]) <= 9,
{
    vstd::arithmetic::div_mod::lemma_fundamental_div_mod(n, 10);
    lemma_digit_roundtrip(n / 10);
    lemma_digit_roundtrip(n % 10);
}

/// A non-negative number below 10000 is its four digits read back.
pub proof fn lemma_four_digits_value(n: int)
    requires
        0 <= n <= 9999,
    ensures
        ((char_digit(four_digits(n)[0]) * 10 + char_digit(four_digits(n)[1])) * 10 + char_digit(
            four_digits(n)[2],
        )) * 10 + char_digit(four_digits(n)[3]) == n,
        char_digit(four_digits(n)[0]) <= 9,
        char_digit(four_digits(n)[1]) <= 9,
        char_digit(four_digits(n)[2]) <= 9,
        char_digit(four_digits(n)[3]) <= 9,
{
    vstd::arithmetic::div_mod::lemma_fundamental_div_mod(n, 10);
    vstd::arithmetic::div_mod::lemma_fundamental_div_mod(n / 10, 10);
    vstd::arithmetic::div_mod::lemma_fundamental_div_mod(n / 100, 10);
    vstd::arithmetic::div_mod::lemma_div_denominator(n, 10, 10);
    vstd::arithmetic::div_mod::lemma_div_denominator(n, 100, 10);
    lemma_digit_roundtrip(n / 1000);
    lemma_digit_roundtrip((n / 100) % 10);
    lemma_digit_roundtrip((n / 10) % 10);
    lemma_digit_roundtrip(n % 10);
}

/// The shape of canonical timestamp text: its length, its separators, and the
/// civil components its digit groups read back as.
pub proof fn lemma_canonical_shape(ms: int)
    requires
        in_calendar_range(ms),
    ensures
        ({
            let s = datetime_seq_of_ms(ms);
            let t = civil_of_day(ms / (MS_PER_DAY as int));
            let secs = (ms % (MS_PER_DAY as int)) / (MS_PER_SECOND as int);
            let h = secs / 3600;
            let mi = (secs / 60) % 60;
            let sec = secs % 60;
            &&& s.len() == 19
            &&& valid_date(t.0, t.1, t.2)
            &&& day_number(t.0, t.1, t.2) == ms / (MS_PER_DAY as int)
            &&& valid_time(h, mi, sec)
            &&& ms % (MS_PER_SECOND as int) == 0 ==> ms == ms_of_civil(t.0, t.1, t.2, h, mi, sec)
            &&& s[4] == '-' && s[7] == '-' && s[10] == 'T' && s[13] == ':' && s[16] == ':'
            &&& ((char_digit(s[0]) * 10 + char_digit(s[1])) * 10 + char_digit(s[2])) * 10
                + char_digit(s[3]) == t.0
            &&& char_digit(s[5]) * 10 + char_digit(s[6]) == t.1
            &&& char_digit(s[8]) * 10 + char_digit(s[9]) == t.2
            &&& char_digit(s[11]) * 10 + char_digit(s[12]) == h
            &&& char_digit(s[14]) * 10 + char_digit(s[15]) == mi
            &&& char_digit(s[17]) * 10 + char_digit(s[18]) == sec
            &&& forall|i: int|
                #![trigger s[i]]
                (0 <= i <= 3 || 5 <= i <= 6 || 8 <= i <= 9 || 11 <= i <= 12 || 14 <= i <= 15 || 17
                    <= i <= 18) ==> char_digit(s[i]) <= 9
        }),
{
    let day = ms / (MS_PER_DAY as int);
    let secs = (ms % (MS_PER_DAY as int)) / (MS_PER_SECOND as int);
    let h = secs / 3600;
    let mi = (secs / 60) % 60;
    let sec = secs % 60;
    vstd::arithmetic::div_mod::lemma_fundamental_div_mod(ms, MS_PER_DAY as int);
    lemma_days_before_year_bound(YEAR_LIMIT as int);
    assert(0 <= day < days_before_year(YEAR_LIMIT as int)) by (nonlinear_arith)
        requires
            0 <= ms,
            ms < days_before_year(YEAR_LIMIT as int) * (MS_PER_DAY as int),
            ms == (MS_PER_DAY as int) * day + ms % (MS_PER_DAY as int),
            0 <= ms % (MS_PER_DAY as int) < (MS_PER_DAY as int),
    ;
    lemma_civil_of_day_exists(day);
    let t = civil_of_day(day);
    let rem = ms % (MS_PER_DAY as int);
    vstd::arithmetic::div_mod::lemma_fundamental_div_mod(rem, MS_PER_SECOND as int);
    assert(ms % 1000 == rem % 1000) by (nonlinear_arith)
        requires
            ms == (MS_PER_DAY as int) * day + rem,
    ;
    assert(0 <= secs < 86400);
    vstd::arithmetic::div_mod::lemma_fundamental_div_mod(secs, 3600);
    vstd::arithmetic::div_mod::lemma_fundamental_div_mod(secs / 60, 60);
    vstd::arithmetic::div_mod::lemma_fundamental_div_mod(secs, 60);
    vstd::arithmetic::div_mod::lemma_div_denominator(secs, 60, 60);
    assert(valid_time(h, mi, sec));
    assert(secs == h * 3600 + mi * 60 + sec) by (nonlinear_arith)
        requires
            secs == 3600 * (secs / 3600) + secs % 3600,
            h == secs / 3600,
            secs / 60 == 60 * ((secs / 60) / 60) + (secs / 60) % 60,
            (secs / 60) / 60 == secs / 3600,
            mi == (secs / 60) % 60,
            secs == 60 * (secs / 60) + secs % 60,
            sec == secs % 60,
    ;
    lemma_four_digits_value(t.0);
    lemma_two_digits_value(t.1);
    lemma_two_digits_value(t.2);
    lemma_two_digits_value(h);
    lemma_two_digits_value(mi);
    lemma_two_digits_value(sec);
    let s = datetime_seq_of_ms(ms);
    assert(s[0] == four_digits(t.0)[0] && s[1] == four_digits(t.0)[1] && s[2] == four_digits(
        t.0,
    )[2] && s[3] == four_digits(t.0)[3]);
    assert(s[5] == two_digits(t.1)[0] && s[6] == two_digits(t.1)[1]);
    assert(s[8] == two_digits(t.2)[0] && s[9] == two_digits(t.2)[1]);
    assert(s[11] == two_digits(h)[0] && s[12] == two_digits(h)[1]);
    assert(s[14] == two_digits(mi)[0] && s[15] == two_digits(mi)[1]);
    assert(s[17] == two_digits(sec)[0] && s[18] == two_digits(sec)[1]);
    if ms % (MS_PER_SECOND as int) == 0 {
        assert(ms == ms_of_civil(t.0, t.1, t.2, h, mi, sec)) by (nonlinear_arith)
            requires
                ms == (MS_PER_DAY as int) * day + rem,
                rem == (MS_PER_SECOND as int) * secs + rem % (MS_PER_SECOND as int),
                rem % (MS_PER_SECOND as int) == ms % (MS_PER_SECOND as int),
                ms % (MS_PER_SECOND as int) == 0,
                secs == h * 3600 + mi * 60 + sec,
                day_number(t.0, t.1, t.2) == day,
                ms_of_civil(t.0, t.1, t.2, h, mi, sec) == (day_number(t.0, t.1, t.2) * (
                SECONDS_PER_DAY as int) + h * 3600 + mi * 60 + sec) * (MS_PER_SECOND as int),
        ;
    }
}

/// Two second-aligned timestamps with the same canonical text are the same
/// timestamp.
pub proof fn lemma_datetime_seq_injective(ms1: int, ms2: int)
    requires
        in_calendar_range(ms1),
        in_calendar_range(ms2),
        ms1 % (MS_PER_SECOND as int) == 0,
        ms2 % (MS_PER_SECOND as int) == 0,
        datetime_seq_of_ms(ms1) == datetime_seq_of_ms(ms2),
    ensures
        ms1 == ms2,
{
    lemma_canonical_shape(ms1);
    lemma_canonical_shape(ms2);
    let t1 = civil_of_day(ms1 / (MS_PER_DAY as int));
    let t2 = civil_of_day(ms2 / (MS_PER_DAY as int));
    let s = datetime_seq_of_ms(ms1);
    assert(t1.0 == t2.0 && t1.1 == t2.1 && t1.2 == t2.2);
}

/// Reading the canonical timestamp of a valid civil date and time back out of
/// the timestamp recovers the same components.
pub proof fn lemma_ms_of_civil_components(y: int, m: int, d: int, h: int, mi: int, s: int)
    requires
        valid_date(y, m, d),
        valid_time(h, mi, s),
    ensures
        ms_of_civil(y, m, d, h, mi, s) / (MS_PER_DAY as int) == day_number(y, m, d),
        (ms_of_civil(y, m, d, h, mi, s) % (MS_PER_DAY as int)) / (MS_PER_SECOND as int) == h * 3600
            + mi * 60 + s,
{
    let day = day_number(y, m, d);
    let tod = h * 3600 + mi * 60 + s;
    let ms = ms_of_civil(y, m, d, h, mi, s);
    lemma_day_number_in_year(y, m, d);
    lemma_days_before_year_mono(1970, y);
    assert(0 <= tod < 86400);
    assert(ms == day * 86_400_000 + tod * 1000) by (nonlinear_arith)
        requires
            ms == (day * 86_400 + tod) * 1000,
    ;
    assert(ms / 86_400_000 == day && ms % 86_400_000 == tod * 1000) by (nonlinear_arith)
        requires
            ms == day * 86_400_000 + tod * 1000,
            0 <= tod < 86400,
            0 <= day,
    ;
    assert((tod * 1000) / 1000 == tod) by (nonlinear_arith);
}

} // verus!
