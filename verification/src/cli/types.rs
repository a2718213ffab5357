//! Type-safe wrappers and enums for ESPN Fantasy Football data.
//!
//! This module holds the position table keyed by ESPN's combined position ids (`to_u8` /
//! `try_from`), together with the identifier wrappers that go with it; the submodules hold
//! the types keyed by the two separate ESPN id spaces.

pub mod filters;
pub mod ids;
pub mod position;
pub mod time;

use crate::error::EspnError;
use crate::text::{parse_u16, parse_u32, unsigned_parse_error, chars_of, concat_chars, decimal, parse_unsigned, parse_unsigned_chars,
    string_of, u64_to_decimal, upper_key, upper_key_chars};
use vstd::prelude::*;

verus! {

/// An ESPN Fantasy Football league id.
#[derive(Debug, Clone, Copy, PartialEq, Eq, Structural, Hash)]
pub struct LeagueId(pub u32);

impl LeagueId {
    /// Wrap a league id.
    pub fn new(id: u32) -> (out: Self)
        ensures
            out.0 == id,
    {
        Self(id)
    }

    /// The underlying number.
    pub fn as_u32(&self) -> (out: u32)
        ensures
            out == self.0,
    {
        self.0
    }

    /// Decimal rendering.
    pub fn to_string(&self) -> (out: String)
        ensures
            out@ == decimal(self.0 as nat),
    {
        string_of(&u64_to_decimal(self.0 as u64))
    }

    /// Parse a league id the way `u32::from_str` does.
    pub fn from_str(s: &str) -> (out: Result<LeagueId, EspnError>)
        ensures
            match parse_unsigned(s@, u32::MAX as nat) {
                Some(v) => out == Ok::<LeagueId, EspnError>(LeagueId(v as u32)),
                None => out matches Err(EspnError::InvalidLeagueId { message }) && message@ == unsigned_parse_error(s@, u32::MAX as nat),
            },
    {
        match parse_u32(s) {
            Ok(v) => Ok(LeagueId(v)),
            Err(message) => Err(EspnError::InvalidLeagueId { message }),
        }
    }
}

/// A non-negative player id.
#[derive(Debug, Clone, Copy, PartialEq, Eq, Structural, Hash)]
pub struct PlayerId(pub u64);

impl PlayerId {
    /// Wrap a player id.
    pub fn new(id: u64) -> (out: Self)
        ensures
            out.0 == id,
    {
        Self(id)
    }

    /// The underlying number.
    pub fn as_u64(&self) -> (out: u64)
        ensures
            out == self.0,
    {
        self.0
    }

    /// Decimal rendering.
    pub fn to_string(&self) -> (out: String)
        ensures
            out@ == decimal(self.0 as nat),
    {
        string_of(&u64_to_decimal(self.0))
    }
}

/// A season year; defaults to 2025.
#[derive(Debug, Clone, Copy, PartialEq, Eq, Structural, Hash)]
pub struct Season(pub u16);

impl Season {
    /// Wrap a season year.
    pub fn new(year: u16) -> (out: Self)
        ensures
            out.0 == year,
    {
        Self(year)
    }

    /// The year.
    pub fn as_u16(&self) -> (out: u16)
        ensures
            out == self.0,
    {
        self.0
    }

    /// The 2025 season.
    pub fn default() -> (out: Self)
        ensures
            out.0 == 2025,
    {
        Self(2025)
    }

    /// Decimal rendering.
    pub fn to_string(&self) -> (out: String)
        ensures
            out@ == decimal(self.0 as nat),
    {
        string_of(&u64_to_decimal(self.0 as u64))
    }

    /// Parse a season the way `u16::from_str` does.
    pub fn from_str(s: &str) -> (out: Result<Season, EspnError>)
        ensures
            match parse_unsigned(s@, u16::MAX as nat) {
                Some(v) => out == Ok::<Season, EspnError>(Season(v as u16)),
                None => out matches Err(EspnError::InvalidLeagueId { message }) && message@ == unsigned_parse_error(s@, u16::MAX as nat),
            },
    {
        match parse_u16(s) {
            Ok(v) => Ok(Season(v)),
            Err(message) => Err(EspnError::InvalidLeagueId { message }),
        }
    }
}

/// A week (scoring period) number; defaults to week 1.
#[derive(Debug, Clone, Copy, PartialEq, Eq, Structural, Hash)]
pub struct Week(pub u16);

impl Week {
    /// Wrap a week number.
    pub fn new(week: u16) -> (out: Self)
        ensures
            out.0 == week,
    {
        Self(week)
    }

    /// The week number.
    pub fn as_u16(&self) -> (out: u16)
        ensures
            out == self.0,
    {
        self.0
    }

    /// Week 1.
    pub fn default() -> (out: Self)
        ensures
            out.0 == 1,
    {
        Self(1)
    }

    /// Decimal rendering.
    pub fn to_string(&self) -> (out: String)
        ensures
            out@ == decimal(self.0 as nat),
    {
        string_of(&u64_to_decimal(self.0 as u64))
    }

    /// Parse a week the way `u16::from_str` does.
    pub fn from_str(s: &str) -> (out: Result<Week, EspnError>)
        ensures
            match parse_unsigned(s@, u16::MAX as nat) {
                Some(v) => out == Ok::<Week, EspnError>(Week(v as u16)),
                None => out matches Err(EspnError::InvalidLeagueId { message }) && message@ == unsigned_parse_error(s@, u16::MAX as nat),
            },
    {
        match parse_u16(s) {
            Ok(v) => Ok(Week(v)),
            Err(message) => Err(EspnError::InvalidLeagueId { message }),
        }
    }
}

/// Filter on a player's injury designation.
///
/// `Active` and `Injured` are applied server-side by ESPN; the specific statuses are
/// applied once the players have been fetched.
#[derive(Debug, Clone, Copy, PartialEq, Eq, Structural, Hash)]
pub enum InjuryStatusFilter {
    /// Players who are active/healthy
    Active,
    /// Any player with an injury designation
    Injured,
    /// Players ruled out for the game
    Out,
    /// Players with doubtful injury status
    Doubtful,
    /// Players with questionable injury status
    Questionable,
    /// Players with probable injury status
    Probable,
    /// Players listed as day-to-day
    DayToDay,
    /// Players on Injury Reserve
    IR,
}

/// Display label of an injury filter.
pub open spec fn injury_filter_label(f: InjuryStatusFilter) -> Seq<char> {
    match f {
        InjuryStatusFilter::Active => seq!['A', 'c', 't', 'i', 'v', 'e'],
        InjuryStatusFilter::Injured => seq!['I', 'n', 'j', 'u', 'r', 'e', 'd'],
        InjuryStatusFilter::Out => seq!['O', 'u', 't'],
        InjuryStatusFilter::Doubtful => seq!['D', 'o', 'u', 'b', 't', 'f', 'u', 'l'],
        InjuryStatusFilter::Questionable => seq![
            'Q', 'u', 'e', 's', 't', 'i', 'o', 'n', 'a', 'b', 'l', 'e',
        ],
        InjuryStatusFilter::Probable => seq!['P', 'r', 'o', 'b', 'a', 'b', 'l', 'e'],
        InjuryStatusFilter::DayToDay => seq!['D', 'a', 'y', '-', 't', 'o', '-', 'D', 'a', 'y'],
        InjuryStatusFilter::IR => seq!['I', 'R'],
    }
}

impl InjuryStatusFilter {
    /// Display label ("Active", "Day-to-Day", ...).
    pub fn to_string(&self) -> (out: String)
        ensures
            out@ == injury_filter_label(*self),
    {
        let chars = match self {
            InjuryStatusFilter::Active => vec!['A', 'c', 't', 'i', 'v', 'e'],
            InjuryStatusFilter::Injured => vec!['I', 'n', 'j', 'u', 'r', 'e', 'd'],
            InjuryStatusFilter::Out => vec!['O', 'u', 't'],
            InjuryStatusFilter::Doubtful => vec!['D', 'o', 'u', 'b', 't', 'f', 'u', 'l'],
            InjuryStatusFilter::Questionable => vec![
                'Q', 'u', 'e', 's', 't', 'i', 'o', 'n', 'a', 'b', 'l', 'e',
            ],
            InjuryStatusFilter::Probable => vec!['P', 'r', 'o', 'b', 'a', 'b', 'l', 'e'],
            InjuryStatusFilter::DayToDay => vec!['D', 'a', 'y', '-', 't', 'o', '-', 'D', 'a', 'y'],
            InjuryStatusFilter::IR => vec!['I', 'R'],
        };
        string_of(&chars)
    }
}

/// Filter on whether a player is on a fantasy roster.
#[derive(Debug, Clone, Copy, PartialEq, Eq, Structural, Hash)]
pub enum RosterStatusFilter {
    /// On any team in the league
    Rostered,
    /// Free agent (not on any team)
    FA,
}

/// Display label of a roster filter.
pub open spec fn roster_filter_label(f: RosterStatusFilter) -> Seq<char> {
    match f {
        RosterStatusFilter::Rostered => seq!['R', 'o', 's', 't', 'e', 'r', 'e', 'd'],
        RosterStatusFilter::FA => seq!['F', 'r', 'e', 'e', ' ', 'A', 'g', 'e', 'n', 't'],
    }
}

impl RosterStatusFilter {
    /// Display label ("Rostered", "Free Agent").
    pub fn to_string(&self) -> (out: String)
        ensures
            out@ == roster_filter_label(*self),
    {
        let chars = match self {
            RosterStatusFilter::Rostered => vec!['R', 'o', 's', 't', 'e', 'r', 'e', 'd'],
            RosterStatusFilter::FA => vec!['F', 'r', 'e', 'e', ' ', 'A', 'g', 'e', 'n', 't'],
        };
        string_of(&chars)
    }
}

/// Fantasy football positions keyed by ESPN's combined position ids.
#[derive(Debug, Clone, Copy, PartialEq, Eq, Structural, Hash)]
pub enum Position {
    /// Quarterback
    QB,
    /// Running Back
    RB,
    /// Wide Receiver
    WR,
    /// Tight End
    TE,
    /// Kicker
    K,
    /// Defense/Special Teams
    DEF,
    /// Flexible position (RB/WR/TE)
    FLEX,
}

/// Primary ESPN id of a position.
pub open spec fn primary_id(p: Position) -> u8 {
    match p {
        Position::QB => 0,
        Position::RB => 2,
        Position::WR => 3,
        Position::TE => 4,
        Position::K => 5,
        Position::DEF => 16,
        Position::FLEX => 23,
    }
}

/// Every ESPN id that denotes a position.
pub open spec fn all_ids(p: Position) -> Seq<u8> {
    match p {
        Position::QB => seq![0u8, 1],
        Position::RB => seq![2u8],
        Position::WR => seq![3u8],
        Position::TE => seq![4u8, 6],
        Position::K => seq![5u8, 17, 18],
        Position::DEF => seq![16u8],
        Position::FLEX => seq![2u8, 3, 4, 6],
    }
}

/// The position an ESPN id converts to, if any.
pub open spec fn position_of_id(id: u8) -> Option<Position> {
    if id == 0 || id == 1 { Some(Position::QB) }
    else if id == 2 { Some(Position::RB) }
    else if id == 3 { Some(Position::WR) }
    else if id == 4 || id == 6 { Some(Position::TE) }
    else if id == 5 || id == 17 || id == 18 { Some(Position::K) }
    else if id == 7 || id == 23 { Some(Position::FLEX) }
    else if id == 16 { Some(Position::DEF) }
    else { None }
}

/// The message of the error for an id that is not a position.
pub open spec fn rejected_id_message(id: u8) -> Seq<char> {
    if 8 <= id <= 15 {
        seq!['I', 'n', 'd', 'i', 'v', 'i', 'd', 'u', 'a', 'l', ' ', 'd', 'e', 'f', 'e', 'n', 's',
            'i', 'v', 'e', ' ', 'p', 'l', 'a', 'y', 'e', 'r', 's', ' ', 'n', 'o', 't', ' ', 'a',
            'l', 'l', 'o', 'w', 'e', 'd', ' ', 'i', 'n', ' ', 't', 'h', 'i', 's', ' ', 'l', 'e',
            'a', 'g', 'u', 'e', ' ', '(', 'p', 'o', 's', 'i', 't', 'i', 'o', 'n', ' ', 'I', 'D',
            ':', ' '] + decimal(id as nat) + seq![')']
    } else {
        seq!['U', 'n', 'k', 'n', 'o', 'w', 'n', ' ', 'p', 'o', 's', 'i', 't', 'i', 'o', 'n', ' ',
            'I', 'D', ':', ' '] + decimal(id as nat)
    }
}

/// Display label of a position.
pub open spec fn label_of(p: Position) -> Seq<char> {
    match p {
        Position::QB => seq!['Q', 'B'],
        Position::RB => seq!['R', 'B'],
        Position::WR => seq!['W', 'R'],
        Position::TE => seq!['T', 'E'],
        Position::K => seq!['K'],
        Position::DEF => seq!['D', '/', 'S', 'T'],
        Position::FLEX => seq!['F', 'L', 'E', 'X'],
    }
}

/// The position an upper-cased name denotes.
pub open spec fn position_named(u: Seq<char>) -> Option<Position> {
    if u == seq!['Q', 'B'] { Some(Position::QB) }
    else if u == seq!['R', 'B'] { Some(Position::RB) }
    else if u == seq!['W', 'R'] { Some(Position::WR) }
    else if u == seq!['T', 'E'] { Some(Position::TE) }
    else if u == seq!['K'] { Some(Position::K) }
    else if u == seq!['D', '/', 'S', 'T'] || u == seq!['D', 'E', 'F'] || u == seq!['D', 'S', 'T'] {
        Some(Position::DEF)
    }
    else if u == seq!['F', 'L', 'E', 'X'] { Some(Position::FLEX) }
    else { None }
}

fn label_chars(p: Position) -> (out: Vec<char>)
    ensures
        out@ == label_of(p),
{
    match p {
        Position::QB => vec!['Q', 'B'],
        Position::RB => vec!['R', 'B'],
        Position::WR => vec!['W', 'R'],
        Position::TE => vec!['T', 'E'],
        Position::K => vec!['K'],
        Position::DEF => vec!['D', '/', 'S', 'T'],
        Position::FLEX => vec!['F', 'L', 'E', 'X'],
    }
}

impl Position {
    /// ESPN's primary position id for this position.
    pub fn to_u8(&self) -> (out: u8)
        ensures
            out == primary_id(*self),
    {
        match self {
            Position::QB => 0,
            Position::RB => 2,
            Position::WR => 3,
            Position::TE => 4,
            Position::K => 5,
            Position::DEF => 16,
            Position::FLEX => 23,
        }
    }

    /// The positions a slot of this type accepts: RB, WR and TE for FLEX, the position
    /// itself otherwise.
    pub fn get_eligible_positions(&self) -> (out: Vec<Position>)
        ensures
            *self == Position::FLEX ==> out@ == seq![Position::RB, Position::WR, Position::TE],
            *self != Position::FLEX ==> out@ == seq![*self],
    {
        match self {
            Position::FLEX => vec![Position::RB, Position::WR, Position::TE],
            other => vec![*other],
        }
    }

    /// Every ESPN id that denotes this position (a kicker is 5, 17 or 18).
    pub fn get_all_position_ids(&self) -> (out: Vec<u8>)
        ensures
            out@ == all_ids(*self),
    {
        match self {
            Position::QB => vec![0, 1],
            Position::RB => vec![2],
            Position::WR => vec![3],
            Position::TE => vec![4, 6],
            Position::K => vec![5, 17, 18],
            Position::DEF => vec![16],
            Position::FLEX => vec![2, 3, 4, 6],
        }
    }

    /// Convert an ESPN position id. Individual defensive players (8-15) are rejected, as
    /// is any id that names no position.
    pub fn try_from(value: u8) -> (out: Result<Position, EspnError>)
        ensures
            match position_of_id(value) {
                Some(p) => out == Ok::<Position, EspnError>(p),
                None => out matches Err(EspnError::InvalidPosition { position })
                    && position@ == rejected_id_message(value),
            },
    {
        match value {
            0 | 1 => Ok(Position::QB),
            2 => Ok(Position::RB),
            3 => Ok(Position::WR),
            4 | 6 => Ok(Position::TE),
            5 | 17 | 18 => Ok(Position::K),
            7 | 23 => Ok(Position::FLEX),
            16 => Ok(Position::DEF),
            _ => {
                let digits = u64_to_decimal(value as u64);
                let message = if 8 <= value && value <= 15 {
                    let head = concat_chars(
                        &vec!['I', 'n', 'd', 'i', 'v', 'i', 'd', 'u', 'a', 'l', ' ', 'd', 'e', 'f',
                            'e', 'n', 's', 'i', 'v', 'e', ' ', 'p', 'l', 'a', 'y', 'e', 'r', 's',
                            ' ', 'n', 'o', 't', ' ', 'a', 'l', 'l', 'o', 'w', 'e', 'd', ' ', 'i',
                            'n', ' ', 't', 'h', 'i', 's', ' ', 'l', 'e', 'a', 'g', 'u', 'e', ' ',
                            '(', 'p', 'o', 's', 'i', 't', 'i', 'o', 'n', ' ', 'I', 'D', ':', ' '],
                        &digits,
                    );
                    concat_chars(&head, &vec![')'])
                } else {
                    concat_chars(
                        &vec!['U', 'n', 'k', 'n', 'o', 'w', 'n', ' ', 'p', 'o', 's', 'i', 't',
                            'i', 'o', 'n', ' ', 'I', 'D', ':', ' '],
                        &digits,
                    )
                };
                Err(EspnError::InvalidPosition { position: string_of(&message) })
            },
        }
    }

    /// Display label ("QB", "D/ST", ...).
    pub fn to_string(&self) -> (out: String)
        ensures
            out@ == label_of(*self),
    {
        string_of(&label_chars(*self))
    }

    /// Parse a position name case-insensitively; `DEF`, `D/ST` and `DST` all mean defense.
    /// The error quotes the input: `Unknown position: <input>`.
    pub fn from_str(s: &str) -> (out: Result<Position, EspnError>)
        ensures
            match position_named(upper_key(s@)) {
                Some(p) => out == Ok::<Position, EspnError>(p),
                None => out matches Err(EspnError::InvalidPosition { position })
                    && position@ == seq!['U', 'n', 'k', 'n', 'o', 'w', 'n', ' ', 'p', 'o', 's',
                        'i', 't', 'i', 'o', 'n', ':', ' '] + s@,
            },
    {
        let chars = chars_of(s);
        let u = upper_key_chars(&chars);
        let def_alias = vec!['D', 'E', 'F'];
        let dst_alias = vec!['D', 'S', 'T'];
        assert(def_alias@ == seq!['D', 'E', 'F']);
        assert(dst_alias@ == seq!['D', 'S', 'T']);
        if chars_equal_v(&u, &label_chars(Position::QB)) { Ok(Position::QB) }
        else if chars_equal_v(&u, &label_chars(Position::RB)) { Ok(Position::RB) }
        else if chars_equal_v(&u, &label_chars(Position::WR)) { Ok(Position::WR) }
        else if chars_equal_v(&u, &label_chars(Position::TE)) { Ok(Position::TE) }
        else if chars_equal_v(&u, &label_chars(Position::K)) { Ok(Position::K) }
        else if chars_equal_v(&u, &label_chars(Position::DEF)) || chars_equal_v(&u, &def_alias)
            || chars_equal_v(&u, &dst_alias) {
            Ok(Position::DEF)
        }
        else if chars_equal_v(&u, &label_chars(Position::FLEX)) { Ok(Position::FLEX) }
        else {
            let message = concat_chars(
                &vec!['U', 'n', 'k', 'n', 'o', 'w', 'n', ' ', 'p', 'o', 's', 'i', 't', 'i', 'o',
                    'n', ':', ' '],
                &chars,
            );
            Err(EspnError::InvalidPosition { position: string_of(&message) })
        }
    }
}

fn chars_equal_v(a: &Vec<char>, b: &Vec<char>) -> (eq: bool)
    ensures
        eq == (a@ == b@),
{
    crate::text::chars_equal(a.as_slice(), b.as_slice())
}

/// A position's primary id converts back to it.
pub proof fn lemma_primary_id_round_trip(p: Position)
    ensures
        position_of_id(primary_id(p)) == Some(p),
{
}

/// Every id a position lists converts back to that position, except that FLEX lists the
/// ids of the positions it accepts.
pub proof fn lemma_all_ids_convert(p: Position, i: int)
    requires
        p != Position::FLEX,
        0 <= i < all_ids(p).len(),
    ensures
        position_of_id(all_ids(p)[i]) == Some(p),
{
}

/// The label of every position parses back to it.
pub proof fn lemma_label_parses_back(p: Position)
    ensures
        position_named(upper_key(label_of(p))) == Some(p),
{
    let l = label_of(p);
    assert forall|i: int| 0 <= i < l.len() implies (#[trigger] l[i] as u32) < 128 by {
        assert(l[i] == 'Q' || l[i] == 'B' || l[i] == 'R' || l[i] == 'W' || l[i] == 'T' || l[i] == 'E' || l[i] == 'K' || l[i] == 'D' || l[i] == '/' || l[i] == 'S' || l[i] == 'F' || l[i] == 'L' || l[i] == 'X');
    }
    assert(l.map_values(|c: char| crate::text::ascii_upper_char(c)) =~= l);
    assert(upper_key(l) == l);
}

} // verus!
