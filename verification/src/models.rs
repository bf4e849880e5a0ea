//! The entities the store works with.
//!
//! Times are local wall-clock instants in milliseconds from the local epoch
//! (see `calendar`); durations are in milliseconds.

use vstd::prelude::*;
use vstd::string::StrSliceExecFns;
use crate::calendar::MS_PER_DAY;
use crate::calendar::day_of;
use crate::calendar::in_calendar_range;
use crate::calendar::datetime_seq_of_ms;
use crate::calendar::format_datetime_ms;

verus! {

/// Whether two pieces of text hold the same characters.
pub fn str_eq(a: &str, b: &str) -> (r: bool)
    ensures
        r == (a@ == b@),
{
    let na = a.unicode_len();
    let nb = b.unicode_len();
    if na != nb {
        return false;
    }
    let mut i: usize = 0;
    while i < na
        invariant
            i <= na,
            na == a@.len(),
            na == b@.len(),
            forall|j: int| 0 <= j < i ==> a@[j] == b@[j],
        decreases na - i,
    {
        if a.get_char(i) != b.get_char(i) {
            return false;
        }
        i = i + 1;
    }
    proof {
        assert(a@ =~= b@);
    }
    true
}

/// Lexicographic order on text, by character value: the order the store's
/// binary collation sorts names in.
pub open spec fn lex_le(a: Seq<char>, b: Seq<char>) -> bool
    decreases a.len(),
{
    if a.len() == 0 {
        true
    } else if b.len() == 0 {
        false
    } else if (a[0] as u32) < (b[0] as u32) {
        true
    } else if (a[0] as u32) > (b[0] as u32) {
        false
    } else {
        lex_le(a.drop_first(), b.drop_first())
    }
}

/// Any two texts are lexicographically comparable.
pub proof fn lemma_lex_le_total(a: Seq<char>, b: Seq<char>)
    ensures
        lex_le(a, b) || lex_le(b, a),
    decreases a.len(),
{
    if a.len() != 0 && b.len() != 0 && (a[0] as u32) == (b[0] as u32) {
        lemma_lex_le_total(a.drop_first(), b.drop_first());
    }
}

/// Lexicographic order is transitive.
pub proof fn lemma_lex_le_trans(a: Seq<char>, b: Seq<char>, c: Seq<char>)
    requires
        lex_le(a, b),
        lex_le(b, c),
    ensures
        lex_le(a, c),
    decreases a.len(),
{
    if a.len() != 0 && b.len() != 0 && c.len() != 0 && (a[0] as u32) == (b[0] as u32) && (
    b[0] as u32) == (c[0] as u32) {
        lemma_lex_le_trans(a.drop_first(), b.drop_first(), c.drop_first());
    }
}

/// Whether `a` sorts no later than `b`, character by character.
pub fn str_le(a: &str, b: &str) -> (r: bool)
    ensures
        r == lex_le(a@, b@),
{
    let na = a.unicode_len();
    let nb = b.unicode_len();
    let mut i: usize = 0;
    proof {
        assert(a@.skip(0) =~= a@);
        assert(b@.skip(0) =~= b@);
    }
    loop
        invariant
            i <= na,
            i <= nb,
            na == a@.len(),
            nb == b@.len(),
            lex_le(a@, b@) == lex_le(a@.skip(i as int), b@.skip(i as int)),
            lex_le(b@, a@) == lex_le(b@.skip(i as int), a@.skip(i as int)),
        decreases na - i,
    {
        if i == na {
            proof {
                assert(a@.skip(i as int) =~= Seq::<char>::empty());
            }
            return true;
        }
        if i == nb {
            proof {
                assert(b@.skip(i as int) =~= Seq::<char>::empty());
                assert(a@.skip(i as int).len() > 0);
            }
            return false;
        }
        let ca = a.get_char(i);
        let cb = b.get_char(i);
        proof {
            assert(a@.skip(i as int)[0] == a@[i as int]);
            assert(b@.skip(i as int)[0] == b@[i as int]);
        }
        if (ca as u32) < (cb as u32) {
            return true;
        }
        if (ca as u32) > (cb as u32) {
            return false;
        }
        proof {
            assert(a@.skip(i as int).drop_first() =~= a@.skip(i as int + 1));
            assert(b@.skip(i as int).drop_first() =~= b@.skip(i as int + 1));
        }
        i = i + 1;
    }
}

/// A game identity row: stable identifier plus last-written display name.
#[derive(Debug, Clone)]
pub struct Game {
    pub id: String,
    pub name: String,
}

impl Game {
    pub fn new(id: &str, name: &str) -> (r: Game)
        ensures
            r.id@ == id@,
            r.name@ == name@,
    {
        Game { id: id.to_owned(), name: name.to_owned() }
    }
}

/// Hash algorithms a recorded file checksum may use.
#[derive(Debug, Clone, Copy, PartialEq, Eq, Structural)]
pub enum ChecksumAlgorithm {
    Sha256,
    Md5,
}

/// The stored text of a checksum algorithm.
pub open spec fn algorithm_seq(a: ChecksumAlgorithm) -> Seq<char> {
    match a {
        ChecksumAlgorithm::Sha256 => "sha256"@,
        ChecksumAlgorithm::Md5 => "md5"@,
    }
}

/// The algorithm stored text reads back as; anything unrecognized is read as
/// the default hash.
pub open spec fn algorithm_of(s: Seq<char>) -> ChecksumAlgorithm {
    if s == "md5"@ {
        ChecksumAlgorithm::Md5
    } else {
        ChecksumAlgorithm::Sha256
    }
}

impl ChecksumAlgorithm {
    /// The text under which the algorithm is stored.
    pub fn as_text(&self) -> (r: &'static str)
        ensures
            r@ == algorithm_seq(*self),
    {
        match self {
            ChecksumAlgorithm::Sha256 => "sha256",
            ChecksumAlgorithm::Md5 => "md5",
        }
    }

    /// Read an algorithm back from its stored text.
    pub fn from_text(s: &str) -> (r: ChecksumAlgorithm)
        ensures
            r == algorithm_of(s@),
    {
        if str_eq(s, "md5") {
            ChecksumAlgorithm::Md5
        } else {
            ChecksumAlgorithm::Sha256
        }
    }
}

/// A file checksum recorded for a game.  The two timestamps are kept as the
/// store's text; `None` stands for an absent value.
#[derive(Debug, Clone)]
pub struct GameChecksum {
    pub game: Game,
    pub checksum: String,
    pub algorithm: ChecksumAlgorithm,
    pub chunk_size: i64,
    pub created_at: Option<String>,
    pub updated_at: Option<String>,
}

/// One contiguous interval of play, in local wall-clock milliseconds.
#[derive(Debug, Clone)]
pub struct PlaySession {
    pub game_id: String,
    pub started_at: i64,
    pub ended_at: i64,
    pub duration: i64,
    pub checksum: Option<String>,
}

impl PlaySession {
    pub fn new(game_id: String, started_at: i64, ended_at: i64) -> (r: PlaySession)
        requires
            i64::MIN as int <= ended_at as int - started_at as int <= i64::MAX as int,
        ensures
            r.game_id == game_id,
            r.started_at == started_at,
            r.ended_at == ended_at,
            r.duration == ended_at - started_at,
            r.checksum is None,
    {
        let duration = ended_at - started_at;
        PlaySession { game_id, started_at, ended_at, duration, checksum: None }
    }

    pub fn with_checksum(self, checksum: String) -> (r: PlaySession)
        ensures
            r == (PlaySession { checksum: Some(checksum), ..self }),
    {
        PlaySession { checksum: Some(checksum), ..self }
    }

    /// The canonical text of the session's start.
    pub fn started_date(&self) -> (r: String)
        requires
            in_calendar_range(self.started_at as int),
        ensures
            r@ == datetime_seq_of_ms(self.started_at as int),
    {
        format_datetime_ms(self.started_at)
    }

    /// The canonical text of the session's end.
    pub fn ended_date(&self) -> (r: String)
        requires
            in_calendar_range(self.ended_at as int),
        ensures
            r@ == datetime_seq_of_ms(self.ended_at as int),
    {
        format_datetime_ms(self.ended_at)
    }

    /// Whether start and end fall on different local calendar days.
    pub fn is_multi_day(&self) -> (r: bool)
        requires
            0 <= self.started_at,
            0 <= self.ended_at,
        ensures
            r == (day_of(self.started_at as int) != day_of(self.ended_at as int)),
    {
        self.started_at / MS_PER_DAY != self.ended_at / MS_PER_DAY
    }
}

/// The mathematical shape of one play session.
pub ghost struct PlaySessionV {
    pub game_id: Seq<char>,
    pub started_at: int,
    pub ended_at: int,
    pub duration: int,
    pub checksum: Option<Seq<char>>,
}

impl View for PlaySession {
    type V = PlaySessionV;

    open spec fn view(&self) -> PlaySessionV {
        PlaySessionV {
            game_id: self.game_id@,
            started_at: self.started_at as int,
            ended_at: self.ended_at as int,
            duration: self.duration as int,
            checksum: self.checksum.deep_view(),
        }
    }
}

/// The session views of a sequence of sessions.
pub open spec fn session_views(s: Seq<PlaySession>) -> Seq<PlaySessionV> {
    s.map_values(|p: PlaySession| p@)
}

/// Aggregate figures for one game.
#[derive(Debug, Clone)]
pub struct GameStatistics {
    pub game: Game,
    pub total_time: i64,
    pub total_sessions: i64,
    pub last_played: Option<i64>,
    pub last_session_duration: Option<i64>,
}

/// One recorded session as the day-bucketed view reports it.
#[derive(Debug, Clone)]
pub struct SessionInfo {
    pub date: i64,
    pub duration: i64,
    pub migrated: Option<String>,
    pub checksum: Option<String>,
}

/// The mathematical shape of one reported session entry.
pub ghost struct SessionInfoV {
    pub date: int,
    pub duration: int,
    pub migrated: Option<Seq<char>>,
    pub checksum: Option<Seq<char>>,
}

impl View for SessionInfo {
    type V = SessionInfoV;

    open spec fn view(&self) -> SessionInfoV {
        SessionInfoV {
            date: self.date as int,
            duration: self.duration as int,
            migrated: self.migrated.deep_view(),
            checksum: self.checksum.deep_view(),
        }
    }
}

/// The entry views of a sequence of session entries.
pub open spec fn info_views(s: Seq<SessionInfo>) -> Seq<SessionInfoV> {
    s.map_values(|x: SessionInfo| x@)
}

/// The row views of a sequence of fetched ledger rows.
pub open spec fn row_views(s: Seq<LedgerRow>) -> Seq<LedgerRowV> {
    s.map_values(|x: LedgerRow| x@)
}

impl SessionInfo {
    pub fn new(date: i64, duration: i64) -> (r: SessionInfo)
        ensures
            r.date == date,
            r.duration == duration,
            r.migrated is None,
            r.checksum is None,
    {
        SessionInfo { date, duration, migrated: None, checksum: None }
    }
}

/// One game's share of one calendar day.
#[derive(Debug, Clone)]
pub struct DailyGameStats {
    pub game: Game,
    pub time: i64,
    pub sessions: Vec<SessionInfo>,
}

/// All play recorded on one calendar day, the day given as its day index.
#[derive(Debug, Clone)]
pub struct DailyStatistics {
    pub date: i64,
    pub games: Vec<DailyGameStats>,
}

/// The mathematical shape of one ledger row.
pub ghost struct LedgerRowV {
    pub game_id: Seq<char>,
    pub date_time: Seq<char>,
    pub duration: int,
    pub provenance: Option<Seq<char>>,
    pub checksum: Option<Seq<char>>,
}

/// One row of the play-time ledger as read back from the store.
#[derive(Debug, Clone)]
pub struct LedgerRow {
    pub game_id: String,
    pub date_time: String,
    pub duration: i64,
    pub provenance: Option<String>,
    pub checksum: Option<String>,
}

impl View for LedgerRow {
    type V = LedgerRowV;

    open spec fn view(&self) -> LedgerRowV {
        LedgerRowV {
            game_id: self.game_id@,
            date_time: self.date_time@,
            duration: self.duration as int,
            provenance: self.provenance.deep_view(),
            checksum: self.checksum.deep_view(),
        }
    }
}

} // verus!
