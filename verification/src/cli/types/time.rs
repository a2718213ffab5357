//! Seasons, weeks, and the calendar arithmetic that decides which season is in progress.

use crate::error::EspnError;
use crate::text::{parse_u16, parse_u32, unsigned_parse_error, chars_of, decimal, parse_unsigned, parse_unsigned_chars, string_of,
    u64_to_decimal};
use vstd::prelude::*;

verus! {

/// An NFL season, labelled by the year it starts in.
#[derive(Debug, Clone, Copy, PartialEq, Eq, Structural, PartialOrd, Ord, Hash)]
pub struct Season(pub u16);

/// A week (scoring period) of a season.
#[derive(Debug, Clone, Copy, PartialEq, Eq, Structural, Hash)]
pub struct Week(pub u16);

/// Month (1-based) in which ESPN rolls its fantasy data over to the next season.
///
/// A season labelled N runs from September N into February N+1, and ESPN publishes the
/// following season's players and rankings from roughly March onward.
pub const SEASON_ROLLOVER_MONTH: u32 = 3;

/// Days from 0000-03-01 to March 1st of year `y` in the proleptic Gregorian calendar:
/// 365 days a year plus one for every February 29th in between.
pub open spec fn march_first(y: int) -> int {
    365 * y + y / 4 - y / 100 + y / 400
}

/// Days from March 1st to the first day of the `mp`-th month of a March-based year
/// (`mp == 0` is March, `mp == 11` is February).
pub open spec fn month_offset(mp: int) -> int {
    if mp <= 0 { 0 }
    else if mp == 1 { 31 }
    else if mp == 2 { 61 }
    else if mp == 3 { 92 }
    else if mp == 4 { 122 }
    else if mp == 5 { 153 }
    else if mp == 6 { 184 }
    else if mp == 7 { 214 }
    else if mp == 8 { 245 }
    else if mp == 9 { 275 }
    else if mp == 10 { 306 }
    else { 337 }
}

/// First day (counted from 0000-03-01) after the `mp`-th month of March-based year `y`.
pub open spec fn month_end(y: int, mp: int) -> int {
    if mp == 11 { march_first(y + 1) } else { march_first(y) + month_offset(mp + 1) }
}

/// Day `z` (counted from 0000-03-01) lies in month `mp` of March-based year `y`.
pub open spec fn in_month(z: int, y: int, mp: int) -> bool {
    &&& 0 <= y
    &&& 0 <= mp < 12
    &&& march_first(y) + month_offset(mp) <= z < month_end(y, mp)
}

/// Days from 0000-03-01 to 1970-01-01.
pub open spec fn epoch_shift() -> int {
    719_468
}

/// The calendar (year, month) of a March-based (year, month index), the year reduced
/// modulo 2^16.
pub open spec fn civil_of(y: int, mp: int) -> (u16, u32) {
    let month: int = if mp < 10 { mp + 3 } else { mp - 9 };
    let year: int = if month <= 2 { y + 1 } else { y };
    ((year % 0x1_0000) as u16, month as u32)
}

/// The season a calendar (year, month) falls in: before March it is still the previous
/// year's season.
pub open spec fn season_of(year: u16, month: u32) -> u16 {
    if month >= SEASON_ROLLOVER_MONTH {
        year
    } else if year == 0 {
        0
    } else {
        (year - 1) as u16
    }
}

#[verifier::spinoff_prover]
#[verifier::rlimit(30)]
proof fn lemma_march_first_step(y: int)
    requires
        0 <= y,
    ensures
        365 <= march_first(y + 1) - march_first(y) <= 366,
        march_first(y + 1) - march_first(y) == 366 <==> ((y + 1) % 4 == 0 && ((y + 1) % 100
            != 0 || (y + 1) % 400 == 0)),
{
}

proof fn lemma_march_first_monotone(a: int, b: int)
    requires
        0 <= a <= b,
    ensures
        march_first(a) + 365 * (b - a) <= march_first(b),
    decreases b - a,
{
    if a < b {
        lemma_march_first_monotone(a, b - 1);
        lemma_march_first_step(b - 1);
    }
}

/// A day lies in exactly one month: the (year, month) containing a day is unique.
pub proof fn lemma_in_month_unique(z: int, y1: int, m1: int, y2: int, m2: int)
    requires
        in_month(z, y1, m1),
        in_month(z, y2, m2),
    ensures
        y1 == y2,
        m1 == m2,
{
    lemma_march_first_step(y1);
    lemma_march_first_step(y2);
    if y1 < y2 {
        lemma_march_first_monotone(y1 + 1, y2);
        assert(false);
    } else if y2 < y1 {
        lemma_march_first_monotone(y2 + 1, y1);
        assert(false);
    }
}

fn march_first_exec(y: u64) -> (out: u64)
    requires
        y <= 0x10_0000_0000_0000,
    ensures
        out == march_first(y as int),
{
    365 * y + y / 4 - y / 100 + y / 400
}

/// The March-based year containing day `z`.
fn march_year_of(z: u64) -> (y: u64)
    requires
        z <= 0x1_0000_0000_0000,
    ensures
        march_first(y as int) <= z < march_first(y + 1),
        y <= z / 365,
{
    let mut y: u64 = z / 365;
    proof {
        assert(march_first(y as int) >= 365 * y);
    }
    while march_first_exec(y) > z
        invariant
            y <= z / 365,
            z <= 0x1_0000_0000_0000,
        decreases y,
    {
        proof {
            if y == 0 {
                assert(march_first(0) == 0);
            }
        }
        y = y - 1;
    }
    while march_first_exec(y + 1) <= z
        invariant
            march_first(y as int) <= z,
            y <= z / 365,
            z <= 0x1_0000_0000_0000,
        decreases z - y,
    {
        proof {
            lemma_march_first_monotone(0, (y + 1) as int);
        }
        y = y + 1;
    }
    y
}

/// The month index (0 = March) of day `doy` of a March-based year.
fn month_index_of(doy: u64) -> (mp: u64)
    ensures
        mp < 12,
        month_offset(mp as int) <= doy,
        mp < 11 ==> doy < month_offset(mp + 1),
{
    if doy < 31 { 0 }
    else if doy < 61 { 1 }
    else if doy < 92 { 2 }
    else if doy < 122 { 3 }
    else if doy < 153 { 4 }
    else if doy < 184 { 5 }
    else if doy < 214 { 6 }
    else if doy < 245 { 7 }
    else if doy < 275 { 8 }
    else if doy < 306 { 9 }
    else if doy < 337 { 10 }
    else { 11 }
}

/// Convert a Unix timestamp to a (year, month) pair in UTC. The year is reduced modulo
/// 2^16; the month is 1-based.
pub fn civil_year_month_from_unix(secs: u64) -> (out: (u16, u32))
    ensures
        exists|y: int, mp: int| #[trigger] in_month(
            (secs / 86_400) as int + epoch_shift(),
            y,
            mp,
        ) && out == civil_of(y, mp),
{
    let days: u64 = secs / 86_400;
    // Days since 0000-03-01, so that leap days land at the end of each year.
    let z: u64 = days + 719_468;
    let y = march_year_of(z);
    let start = march_first_exec(y);
    let doy: u64 = z - start;
    let mp = month_index_of(doy);
    proof {
        lemma_march_first_step(y as int);
        assert(in_month(z as int, y as int, mp as int));
        assert(in_month((secs / 86_400) as int + epoch_shift(), y as int, mp as int));
    }
    let month: u32 = if mp < 10 { (mp + 3) as u32 } else { (mp - 9) as u32 };
    let year: u64 = if month <= 2 { y + 1 } else { y };
    let year16: u16 = (year % 0x1_0000) as u16;
    assert(year16 == civil_of(y as int, mp as int).0);
    assert(month == civil_of(y as int, mp as int).1);
    (year16, month)
}

/// Seconds since the Unix epoch according to the system clock (`SystemTime::now()`),
/// or 0 when the clock reads earlier than the epoch. The value depends on the moment of
/// the call; nothing is claimed about it.
#[verifier::external_body]
fn unix_now_secs() -> u64 {
    std::time::SystemTime::now()
        .duration_since(std::time::UNIX_EPOCH)
        .map(|d| d.as_secs())
        .unwrap_or(0)
}

impl Season {
    /// Wrap a season year.
    pub fn new(year: u16) -> (out: Self)
        ensures
            out.0 == year,
    {
        Self(year)
    }

    /// The year.
    pub fn as_u16(&self) -> (out: u16)
        ensures
            out == self.0,
    {
        self.0
    }

    /// The season in progress at Unix time `secs`.
    pub fn at_unix_time(secs: u64) -> (out: Self)
        ensures
            exists|y: int, mp: int| #[trigger] in_month(
                (secs / 86_400) as int + epoch_shift(),
                y,
                mp,
            ) && out.0 == season_of(civil_of(y, mp).0, civil_of(y, mp).1),
    {
        let (year, month) = civil_year_month_from_unix(secs);
        if month >= SEASON_ROLLOVER_MONTH {
            Self(year)
        } else {
            Self(year.saturating_sub(1))
        }
    }

    /// The NFL season currently in progress, derived from the system clock.
    ///
    /// Before March the active season is still the previous calendar year's, since the
    /// playoffs of season N run into January and February of N+1.
    pub fn current() -> (out: Self)
        ensures
            exists|secs: u64, y: int, mp: int| #[trigger] in_month(
                (secs / 86_400) as int + epoch_shift(),
                y,
                mp,
            ) && out.0 == season_of(civil_of(y, mp).0, civil_of(y, mp).1),
    {
        let now = unix_now_secs();
        Self::at_unix_time(now)
    }

    /// Defaults to the season currently in progress.
    pub fn default() -> (out: Self)
        ensures
            exists|secs: u64, y: int, mp: int| #[trigger] in_month(
                (secs / 86_400) as int + epoch_shift(),
                y,
                mp,
            ) && out.0 == season_of(civil_of(y, mp).0, civil_of(y, mp).1),
    {
        Self::current()
    }

    /// Decimal rendering.
    pub fn to_string(&self) -> (out: String)
        ensures
            out@ == decimal(self.0 as nat),
    {
        string_of(&u64_to_decimal(self.0 as u64))
    }

    /// Parse a season the way `u16::from_str` does.
    pub fn from_str(s: &str) -> (out: Result<Season, EspnError>)
        ensures
            match parse_unsigned(s@, u16::MAX as nat) {
                Some(v) => out == Ok::<Season, EspnError>(Season(v as u16)),
                None => out matches Err(EspnError::InvalidLeagueId { message }) && message@ == unsigned_parse_error(s@, u16::MAX as nat),
            },
    {
        match parse_u16(s) {
            Ok(v) => Ok(Season(v)),
            Err(message) => Err(EspnError::InvalidLeagueId { message }),
        }
    }
}

impl Week {
    /// Wrap a week number.
    pub fn new(week: u16) -> (out: Self)
        ensures
            out.0 == week,
    {
        Self(week)
    }

    /// The week number.
    pub fn as_u16(&self) -> (out: u16)
        ensures
            out == self.0,
    {
        self.0
    }

    /// Week 1.
    pub fn default() -> (out: Self)
        ensures
            out.0 == 1,
    {
        Self(1)
    }

    /// Decimal rendering.
    pub fn to_string(&self) -> (out: String)
        ensures
            out@ == decimal(self.0 as nat),
    {
        string_of(&u64_to_decimal(self.0 as u64))
    }

    /// Parse a week the way `u16::from_str` does.
    pub fn from_str(s: &str) -> (out: Result<Week, EspnError>)
        ensures
            match parse_unsigned(s@, u16::MAX as nat) {
                Some(v) => out == Ok::<Week, EspnError>(Week(v as u16)),
                None => out matches Err(EspnError::InvalidLeagueId { message }) && message@ == unsigned_parse_error(s@, u16::MAX as nat),
            },
    {
        match parse_u16(s) {
            Ok(v) => Ok(Week(v)),
            Err(message) => Err(EspnError::InvalidLeagueId { message }),
        }
    }
}

} // verus!
