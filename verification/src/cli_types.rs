//! Identifier wrappers and the lineup-slot position table.
//!
//! Here a [`Position`] is identified by its ESPN lineup-slot id (QB = 0, RB = 2, WR = 4,
//! TE = 6, D/ST = 16, K = 17, FLEX = 23).

pub use crate::cli::types::{LeagueId, PlayerId, Season, Week};

use crate::text::{chars_equal, chars_of, concat_chars, decimal, string_of, u64_to_decimal,
    upper_key, upper_key_chars};
use vstd::prelude::*;

verus! {

/// Known ESPN lineup positions.
#[derive(Debug, Clone, Copy, PartialEq, Eq, Structural, Hash)]
pub enum Position {
    D,
    FLEX,
    K,
    RB,
    QB,
    TE,
    WR,
}

/// The lineup-slot id of a position.
pub open spec fn slot_id(p: Position) -> u8 {
    match p {
        Position::D => 16,
        Position::FLEX => 23,
        Position::K => 17,
        Position::RB => 2,
        Position::QB => 0,
        Position::TE => 6,
        Position::WR => 4,
    }
}

/// The position a slot-style id converts to: every id ESPN uses for a player's slot maps
/// to the position that fills it, with the combined slots (RB/WR, WR/TE) taken as their
/// primary position and every individual defensive slot read as team defense.
pub open spec fn position_of_slot(id: u8) -> Option<Position> {
    if id == 0 || id == 1 { Some(Position::QB) }
    else if id == 2 || id == 3 { Some(Position::RB) }
    else if id == 4 || id == 5 { Some(Position::WR) }
    else if id == 6 { Some(Position::TE) }
    else if id == 7 || id == 23 { Some(Position::FLEX) }
    else if 8 <= id <= 16 { Some(Position::D) }
    else if id == 17 || id == 18 { Some(Position::K) }
    else { None }
}

/// Display label of a position.
pub open spec fn label_of(p: Position) -> Seq<char> {
    match p {
        Position::QB => seq!['Q', 'B'],
        Position::RB => seq!['R', 'B'],
        Position::WR => seq!['W', 'R'],
        Position::TE => seq!['T', 'E'],
        Position::K => seq!['K'],
        Position::D => seq!['D', '/', 'S', 'T'],
        Position::FLEX => seq!['F', 'L', 'E', 'X'],
    }
}

/// The position an upper-cased name denotes.
pub open spec fn position_named(u: Seq<char>) -> Option<Position> {
    if u == seq!['D'] || u == seq!['D', '/', 'S', 'T'] || u == seq!['D', 'E', 'F']
        || u == seq!['D', 'S', 'T'] {
        Some(Position::D)
    }
    else if u == seq!['F', 'L', 'E', 'X'] { Some(Position::FLEX) }
    else if u == seq!['K'] { Some(Position::K) }
    else if u == seq!['R', 'B'] { Some(Position::RB) }
    else if u == seq!['Q', 'B'] { Some(Position::QB) }
    else if u == seq!['T', 'E'] { Some(Position::TE) }
    else if u == seq!['W', 'R'] { Some(Position::WR) }
    else { None }
}

/// `format!("{:?}", s)` for a string: the string quoted, with special characters escaped
/// as `<str as Debug>::fmt` writes them.
pub uninterp spec fn debug_quoted(s: Seq<char>) -> Seq<char>;

/// `<str as Debug>::fmt` through `format!("{:?}", ...)`: the quoted, escaped form of `s`.
#[verifier::external_body]
fn debug_quote(s: &str) -> (out: String)
    ensures
        out@ == debug_quoted(s@),
{
    format!("{:?}", s)
}

fn label_chars(p: Position) -> (out: Vec<char>)
    ensures
        out@ == label_of(p),
{
    match p {
        Position::QB => vec!['Q', 'B'],
        Position::RB => vec!['R', 'B'],
        Position::WR => vec!['W', 'R'],
        Position::TE => vec!['T', 'E'],
        Position::K => vec!['K'],
        Position::D => vec!['D', '/', 'S', 'T'],
        Position::FLEX => vec!['F', 'L', 'E', 'X'],
    }
}

impl Position {
    /// Display label ("QB", "D/ST", ...).
    pub fn to_string(&self) -> (out: String)
        ensures
            out@ == label_of(*self),
    {
        string_of(&label_chars(*self))
    }

    /// Parse a position name case-insensitively; `D`, `D/ST`, `DEF` and `DST` all mean
    /// defense. The error quotes the input: `Unrecognized player position: "<input>"`.
    pub fn from_str(s: &str) -> (out: Result<Position, String>)
        ensures
            match position_named(upper_key(s@)) {
                Some(p) => out == Ok::<Position, String>(p),
                None => out matches Err(message) && message@ == seq!['U', 'n', 'r', 'e', 'c',
                    'o', 'g', 'n', 'i', 'z', 'e', 'd', ' ', 'p', 'l', 'a', 'y', 'e', 'r', ' ',
                    'p', 'o', 's', 'i', 't', 'i', 'o', 'n', ':', ' '] + debug_quoted(s@),
            },
    {
        let chars = chars_of(s);
        let u = upper_key_chars(&chars);
        let d = vec!['D'];
        let def_alias = vec!['D', 'E', 'F'];
        let dst_alias = vec!['D', 'S', 'T'];
        assert(d@ == seq!['D']);
        assert(def_alias@ == seq!['D', 'E', 'F']);
        assert(dst_alias@ == seq!['D', 'S', 'T']);
        if chars_equal(&u, &d) || chars_equal(&u, &label_chars(Position::D))
            || chars_equal(&u, &def_alias) || chars_equal(&u, &dst_alias) {
            Ok(Position::D)
        }
        else if chars_equal(&u, &label_chars(Position::FLEX)) { Ok(Position::FLEX) }
        else if chars_equal(&u, &label_chars(Position::K)) { Ok(Position::K) }
        else if chars_equal(&u, &label_chars(Position::RB)) { Ok(Position::RB) }
        else if chars_equal(&u, &label_chars(Position::QB)) { Ok(Position::QB) }
        else if chars_equal(&u, &label_chars(Position::TE)) { Ok(Position::TE) }
        else if chars_equal(&u, &label_chars(Position::WR)) { Ok(Position::WR) }
        else {
            let quoted = debug_quote(s);
            let quoted_chars = chars_of(quoted.as_str());
            let message = concat_chars(
                &vec!['U', 'n', 'r', 'e', 'c', 'o', 'g', 'n', 'i', 'z', 'e', 'd', ' ', 'p', 'l',
                    'a', 'y', 'e', 'r', ' ', 'p', 'o', 's', 'i', 't', 'i', 'o', 'n', ':', ' '],
                &quoted_chars,
            );
            Err(string_of(&message))
        }
    }

    /// Convert a slot-style id. The error reads `Unknown Position ID: <id>`.
    pub fn try_from(value: u8) -> (out: Result<Position, String>)
        ensures
            match position_of_slot(value) {
                Some(p) => out == Ok::<Position, String>(p),
                None => out matches Err(message) && message@ == seq!['U', 'n', 'k', 'n', 'o',
                    'w', 'n', ' ', 'P', 'o', 's', 'i', 't', 'i', 'o', 'n', ' ', 'I', 'D', ':',
                    ' '] + decimal(value as nat),
            },
    {
        match value {
            0 | 1 => Ok(Position::QB),
            2 | 3 => Ok(Position::RB),
            4 | 5 => Ok(Position::WR),
            6 => Ok(Position::TE),
            7 | 23 => Ok(Position::FLEX),
            8..=16 => Ok(Position::D),
            17 | 18 => Ok(Position::K),
            _ => {
                let message = concat_chars(
                    &vec!['U', 'n', 'k', 'n', 'o', 'w', 'n', ' ', 'P', 'o', 's', 'i', 't', 'i',
                        'o', 'n', ' ', 'I', 'D', ':', ' '],
                    &u64_to_decimal(value as u64),
                );
                Err(string_of(&message))
            },
        }
    }
}

impl From<Position> for u8 {
    fn from(p: Position) -> (out: u8) {
        match p {
            Position::D => 16,
            Position::FLEX => 23,
            Position::K => 17,
            Position::RB => 2,
            Position::QB => 0,
            Position::TE => 6,
            Position::WR => 4,
        }
    }
}

impl vstd::std_specs::convert::FromSpecImpl<Position> for u8 {
    open spec fn obeys_from_spec() -> bool {
        true
    }

    open spec fn from_spec(p: Position) -> u8 {
        slot_id(p)
    }
}

/// A position's slot id converts back to it.
pub proof fn lemma_slot_id_round_trip(p: Position)
    ensures
        position_of_slot(slot_id(p)) == Some(p),
{
}

/// The label of every position parses back to it.
#[verifier::spinoff_prover]
pub proof fn lemma_label_parses_back(p: Position)
    ensures
        position_named(upper_key(label_of(p))) == Some(p),
{
    let l = label_of(p);
    assert forall|i: int| 0 <= i < l.len() implies (#[trigger] l[i] as u32) < 128 by {
        assert(l[i] == 'Q' || l[i] == 'B' || l[i] == 'R' || l[i] == 'W' || l[i] == 'T' || l[i] == 'E' || l[i] == 'K' || l[i] == 'D' || l[i] == '/' || l[i] == 'S' || l[i] == 'F' || l[i] == 'L' || l[i] == 'X');
    }
    assert(l.map_values(|c: char| crate::text::ascii_upper_char(c)) =~= l);
    assert(upper_key(l) == l);
    match p {
        Position::D => {
            assert(l =~= seq!['D', '/', 'S', 'T']);
            assert(position_named(l) == Some(Position::D));
        },
        Position::FLEX => {
            assert(l =~= seq!['F', 'L', 'E', 'X']);
            assert(l[0] == 'F' && seq!['D', '/', 'S', 'T'][0] == 'D');
            assert(position_named(l) == Some(Position::FLEX));
        },
        Position::K => {
            assert(l =~= seq!['K']);
            assert(l[0] == 'K' && seq!['D'][0] == 'D');
            assert(position_named(l) == Some(Position::K));
        },
        Position::RB => {
            assert(l =~= seq!['R', 'B']);
            assert(l[0] == 'R' && seq!['D', 'S', 'T'].len() == 3);
            assert(position_named(l) == Some(Position::RB));
        },
        Position::QB => {
            assert(l =~= seq!['Q', 'B']);
            assert(l[0] == 'Q' && seq!['R', 'B'][0] == 'R');
            assert(position_named(l) == Some(Position::QB));
        },
        Position::TE => {
            assert(l =~= seq!['T', 'E']);
            assert(l[0] == 'T' && seq!['R', 'B'][0] == 'R' && seq!['Q', 'B'][0] == 'Q');
            assert(position_named(l) == Some(Position::TE));
        },
        Position::WR => {
            assert(l =~= seq!['W', 'R']);
            assert(l[0] == 'W' && seq!['R', 'B'][0] == 'R' && seq!['Q', 'B'][0] == 'Q'
                && seq!['T', 'E'][0] == 'T');
            assert(position_named(l) == Some(Position::WR));
        },
    }
}

} // verus!
