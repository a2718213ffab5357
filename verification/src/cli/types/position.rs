//! Fantasy football positions and ESPN's two numeric id spaces.
//!
//! - **`defaultPositionId`** — what a player *is* (QB = 1, RB = 2, WR = 3, TE = 4, K = 5,
//!   D/ST = 16). This is what appears on a player object.
//! - **`lineupSlotId`** — a *roster slot* a player may occupy (QB = 0, RB = 2, WR = 4,
//!   TE = 6, D/ST = 16, K = 17, FLEX = 23, BE = 20, IR = 21).
//!
//! They overlap numerically without agreeing (slot 4 is WR, position 4 is TE), so the two
//! are kept strictly apart: [`Position::from_default_position_id`] /
//! [`Position::default_position_id`] for the former, [`Position::lineup_slot_ids`] for the
//! latter.

use crate::error::EspnError;
use crate::text::{
    all_ascii, ascii_upper_char, chars_equal, chars_of, concat_chars, decimal, string_of,
    u64_to_decimal, upper_key, upper_key_chars,
};
use vstd::prelude::*;

verus! {

/// Fantasy football player positions and slot-only pseudo-positions.
///
/// Variants are ordered as they conventionally appear on a draft board (skill positions
/// first, then kicker and defense).
#[derive(Debug, Clone, Copy, PartialEq, Eq, Structural, PartialOrd, Ord, Hash)]
pub enum Position {
    QB,
    RB,
    WR,
    TE,
    DEF,
    K,
    /// Punter
    P,
    /// Defensive tackle
    DT,
    /// Defensive end
    DE,
    /// Linebacker
    LB,
    /// Defensive back / cornerback
    DB,
    /// Safety
    S,
    FLEX,
    BE,
    IR,
}

/// Lineup slot id for the bench, which every player is eligible for.
pub const SLOT_BENCH: u8 = 20;
/// Lineup slot id for injured reserve, which every player is eligible for.
pub const SLOT_IR: u8 = 21;
/// Lineup slot id for the flex spot (RB/WR/TE).
pub const SLOT_FLEX: u8 = 23;
/// Lineup slot id for the combined running back / wide receiver spot.
pub const SLOT_RB_WR: u8 = 3;
/// Lineup slot id for the combined wide receiver / tight end spot.
pub const SLOT_WR_TE: u8 = 5;
/// Lineup slot id for the offensive player (superflex) spot: QB, RB, WR or TE.
pub const SLOT_OP: u8 = 7;

/// The twelve positions a player can actually be, in draft-board order.
pub open spec fn player_positions() -> Seq<Position> {
    seq![
        Position::QB, Position::RB, Position::WR, Position::TE, Position::K, Position::DEF,
        Position::P, Position::DT, Position::DE, Position::LB, Position::DB, Position::S,
    ]
}

/// The lineup slot that selects exactly this position.
pub open spec fn slot_of(p: Position) -> u8 {
    match p {
        Position::QB => 0,
        Position::RB => 2,
        Position::WR => 4,
        Position::TE => 6,
        Position::DT => 8,
        Position::DE => 9,
        Position::LB => 10,
        Position::DB => 12,
        Position::S => 13,
        Position::DEF => 16,
        Position::K => 17,
        Position::P => 18,
        Position::FLEX => 23,
        Position::BE => 20,
        Position::IR => 21,
    }
}

/// ESPN's `defaultPositionId` for a position; slot-only pseudo-positions have none.
pub open spec fn default_id_of(p: Position) -> Option<u8> {
    match p {
        Position::QB => Some(1u8),
        Position::RB => Some(2u8),
        Position::WR => Some(3u8),
        Position::TE => Some(4u8),
        Position::K => Some(5u8),
        Position::P => Some(7u8),
        Position::DT => Some(9u8),
        Position::DE => Some(10u8),
        Position::LB => Some(11u8),
        Position::DB => Some(12u8),
        Position::S => Some(13u8),
        Position::DEF => Some(16u8),
        _ => None,
    }
}

/// The position a `defaultPositionId` denotes, if it denotes a rosterable player.
pub open spec fn position_of_default_id(id: u8) -> Option<Position> {
    if id == 1 { Some(Position::QB) }
    else if id == 2 { Some(Position::RB) }
    else if id == 3 { Some(Position::WR) }
    else if id == 4 { Some(Position::TE) }
    else if id == 5 { Some(Position::K) }
    else if id == 7 { Some(Position::P) }
    else if id == 9 { Some(Position::DT) }
    else if id == 10 { Some(Position::DE) }
    else if id == 11 { Some(Position::LB) }
    else if id == 12 { Some(Position::DB) }
    else if id == 13 { Some(Position::S) }
    else if id == 16 { Some(Position::DEF) }
    else { None }
}

/// The message carried by the error for an unknown `defaultPositionId`.
pub open spec fn unknown_default_id_message(id: u8) -> Seq<char> {
    if id == 14 {
        seq!['C', 'O', 'A', 'C', 'H', ' ', '(', 'i', 'd', ':', ' '] + decimal(id as nat) + seq![')']
    } else if id == 15 {
        seq!['T', 'E', 'A', 'M', '_', 'Q', 'B', ' ', '(', 'i', 'd', ':', ' '] + decimal(
            id as nat,
        ) + seq![')']
    } else {
        decimal(id as nat)
    }
}

/// Whether a player at `p` may occupy lineup slot `slot`: FLEX takes RB/WR/TE, bench and
/// IR take anyone, every other slot takes only the position whose own slot it is.
pub open spec fn fills(p: Position, slot: u8) -> bool {
    if slot == SLOT_BENCH || slot == SLOT_IR {
        true
    } else if slot == SLOT_FLEX {
        p == Position::RB || p == Position::WR || p == Position::TE
    } else {
        slot_of(p) == slot
    }
}

/// Display label of a position.
pub open spec fn label_of(p: Position) -> Seq<char> {
    match p {
        Position::QB => seq!['Q', 'B'],
        Position::RB => seq!['R', 'B'],
        Position::WR => seq!['W', 'R'],
        Position::TE => seq!['T', 'E'],
        Position::DEF => seq!['D', '/', 'S', 'T'],
        Position::K => seq!['K'],
        Position::P => seq!['P'],
        Position::DT => seq!['D', 'T'],
        Position::DE => seq!['D', 'E'],
        Position::LB => seq!['L', 'B'],
        Position::DB => seq!['D', 'B'],
        Position::S => seq!['S'],
        Position::FLEX => seq!['F', 'L', 'E', 'X'],
        Position::BE => seq!['B', 'E'],
        Position::IR => seq!['I', 'R'],
    }
}

/// The position an upper-cased name denotes.
pub open spec fn position_named(u: Seq<char>) -> Option<Position> {
    if u.len() == 1 {
        if u[0] == 'K' { Some(Position::K) }
        else if u[0] == 'P' { Some(Position::P) }
        else if u[0] == 'S' { Some(Position::S) }
        else { None }
    } else if u.len() == 2 {
        let (a, b) = (u[0], u[1]);
        if a == 'Q' && b == 'B' { Some(Position::QB) }
        else if a == 'R' && b == 'B' { Some(Position::RB) }
        else if a == 'W' && b == 'R' { Some(Position::WR) }
        else if a == 'T' && b == 'E' { Some(Position::TE) }
        else if a == 'D' && b == 'T' { Some(Position::DT) }
        else if a == 'D' && b == 'E' { Some(Position::DE) }
        else if a == 'L' && b == 'B' { Some(Position::LB) }
        else if a == 'D' && b == 'B' { Some(Position::DB) }
        else if a == 'B' && b == 'E' { Some(Position::BE) }
        else if a == 'I' && b == 'R' { Some(Position::IR) }
        else { None }
    } else if u == seq!['D', 'E', 'F'] || u == seq!['D', 'S', 'T'] || u == seq!['D', '/', 'S', 'T'] {
        Some(Position::DEF)
    } else if u == seq!['F', 'L', 'E', 'X'] {
        Some(Position::FLEX)
    } else if u == seq!['B', 'E', 'N', 'C', 'H'] {
        Some(Position::BE)
    } else {
        None
    }
}

/// The chars of a position's label.
pub fn label_chars(p: Position) -> (out: Vec<char>)
    ensures
        out@ == label_of(p),
{
    match p {
        Position::QB => vec!['Q', 'B'],
        Position::RB => vec!['R', 'B'],
        Position::WR => vec!['W', 'R'],
        Position::TE => vec!['T', 'E'],
        Position::DEF => vec!['D', '/', 'S', 'T'],
        Position::K => vec!['K'],
        Position::P => vec!['P'],
        Position::DT => vec!['D', 'T'],
        Position::DE => vec!['D', 'E'],
        Position::LB => vec!['L', 'B'],
        Position::DB => vec!['D', 'B'],
        Position::S => vec!['S'],
        Position::FLEX => vec!['F', 'L', 'E', 'X'],
        Position::BE => vec!['B', 'E'],
        Position::IR => vec!['I', 'R'],
    }
}

fn named(u: &[char]) -> (out: Option<Position>)
    ensures
        out == position_named(u@),
{
    if u.len() == 1 {
        if u[0] == 'K' { Some(Position::K) }
        else if u[0] == 'P' { Some(Position::P) }
        else if u[0] == 'S' { Some(Position::S) }
        else { None }
    } else if u.len() == 2 {
        let (a, b) = (u[0], u[1]);
        if a == 'Q' && b == 'B' { Some(Position::QB) }
        else if a == 'R' && b == 'B' { Some(Position::RB) }
        else if a == 'W' && b == 'R' { Some(Position::WR) }
        else if a == 'T' && b == 'E' { Some(Position::TE) }
        else if a == 'D' && b == 'T' { Some(Position::DT) }
        else if a == 'D' && b == 'E' { Some(Position::DE) }
        else if a == 'L' && b == 'B' { Some(Position::LB) }
        else if a == 'D' && b == 'B' { Some(Position::DB) }
        else if a == 'B' && b == 'E' { Some(Position::BE) }
        else if a == 'I' && b == 'R' { Some(Position::IR) }
        else { None }
    } else {
        let def_alias = vec!['D', 'E', 'F'];
        let dst_alias = vec!['D', 'S', 'T'];
        let bench_alias = vec!['B', 'E', 'N', 'C', 'H'];
        assert(def_alias@ == seq!['D', 'E', 'F']);
        assert(dst_alias@ == seq!['D', 'S', 'T']);
        assert(bench_alias@ == seq!['B', 'E', 'N', 'C', 'H']);
        if chars_equal(u, &def_alias) || chars_equal(u, &dst_alias)
            || chars_equal(u, &label_chars(Position::DEF)) {
            Some(Position::DEF)
        } else if chars_equal(u, &label_chars(Position::FLEX)) {
            Some(Position::FLEX)
        } else if chars_equal(u, &bench_alias) {
            Some(Position::BE)
        } else {
            None
        }
    }
}

impl Position {
    /// Lineup slot ids matching this position, for the API's `filterSlotIds` filter.
    ///
    /// A player is returned by `filterSlotIds` when *any* of their `eligibleSlots` matches,
    /// so a single slot per position is enough to select exactly that position.
    pub fn lineup_slot_ids(&self) -> (out: Vec<u8>)
        ensures
            out@ == seq![slot_of(*self)],
    {
        let slot: u8 = match self {
            Position::QB => 0,
            Position::RB => 2,
            Position::WR => 4,
            Position::TE => 6,
            Position::DT => 8,
            Position::DE => 9,
            Position::LB => 10,
            Position::DB => 12,
            Position::S => 13,
            Position::DEF => 16,
            Position::K => 17,
            Position::P => 18,
            Position::FLEX => SLOT_FLEX,
            Position::BE => SLOT_BENCH,
            Position::IR => SLOT_IR,
        };
        let mut out = Vec::new();
        out.push(slot);
        out
    }

    /// Convert an ESPN `defaultPositionId` (from a player object) into a `Position`.
    ///
    /// Rejects non-roster entries such as head coaches (14) and team-QB aggregates (15).
    pub fn from_default_position_id(id: u8) -> (out: Result<Position, EspnError>)
        ensures
            match position_of_default_id(id) {
                Some(p) => out == Ok::<Position, EspnError>(p),
                None => out matches Err(EspnError::InvalidPosition { position })
                    && position@ == unknown_default_id_message(id),
            },
    {
        match id {
            1 => Ok(Position::QB),
            2 => Ok(Position::RB),
            3 => Ok(Position::WR),
            4 => Ok(Position::TE),
            5 => Ok(Position::K),
            7 => Ok(Position::P),
            9 => Ok(Position::DT),
            10 => Ok(Position::DE),
            11 => Ok(Position::LB),
            12 => Ok(Position::DB),
            13 => Ok(Position::S),
            16 => Ok(Position::DEF),
            _ => {
                let digits = u64_to_decimal(id as u64);
                let message = if id == 14 {
                    let head = concat_chars(
                        &['C', 'O', 'A', 'C', 'H', ' ', '(', 'i', 'd', ':', ' '],
                        &digits,
                    );
                    concat_chars(&head, &[')'])
                } else if id == 15 {
                    let head = concat_chars(
                        &['T', 'E', 'A', 'M', '_', 'Q', 'B', ' ', '(', 'i', 'd', ':', ' '],
                        &digits,
                    );
                    concat_chars(&head, &[')'])
                } else {
                    digits
                };
                Err(EspnError::InvalidPosition { position: string_of(&message) })
            },
        }
    }

    /// The ESPN `defaultPositionId` for this position; `None` for the slot-only
    /// pseudo-positions (FLEX, BE, IR).
    pub fn default_position_id(&self) -> (out: Option<u8>)
        ensures
            out == default_id_of(*self),
    {
        match self {
            Position::QB => Some(1),
            Position::RB => Some(2),
            Position::WR => Some(3),
            Position::TE => Some(4),
            Position::K => Some(5),
            Position::P => Some(7),
            Position::DT => Some(9),
            Position::DE => Some(10),
            Position::LB => Some(11),
            Position::DB => Some(12),
            Position::S => Some(13),
            Position::DEF => Some(16),
            Position::FLEX | Position::BE | Position::IR => None,
        }
    }

    /// Whether this position can fill the given lineup slot.
    pub fn fills_slot(&self, slot: u8) -> (b: bool)
        ensures
            b == fills(*self, slot),
    {
        if slot == SLOT_BENCH || slot == SLOT_IR {
            true
        } else if slot == SLOT_FLEX {
            matches!(self, Position::RB | Position::WR | Position::TE)
        } else {
            let ids = self.lineup_slot_ids();
            ids[0] == slot
        }
    }

    /// Positions that occupy a starting lineup slot in a standard league.
    pub fn is_offensive_skill(&self) -> (b: bool)
        ensures
            b == (*self == Position::QB || *self == Position::RB || *self == Position::WR
                || *self == Position::TE),
    {
        matches!(self, Position::QB | Position::RB | Position::WR | Position::TE)
    }

    /// Display label ("QB", "D/ST", "FLEX", ...).
    pub fn to_string(&self) -> (out: String)
        ensures
            out@ == label_of(*self),
    {
        string_of(&label_chars(*self))
    }

    /// Parse a position name case-insensitively; `DEF`, `D/ST` and `DST` all mean defense,
    /// `BENCH` means the bench.
    pub fn from_str(s: &str) -> (out: Result<Position, EspnError>)
        ensures
            match position_named(upper_key(s@)) {
                Some(p) => out == Ok::<Position, EspnError>(p),
                None => out matches Err(EspnError::InvalidPosition { position })
                    && position@ == upper_key(s@),
            },
    {
        let chars = chars_of(s);
        let upper = upper_key_chars(&chars);
        match named(&upper) {
            Some(p) => Ok(p),
            None => Err(EspnError::InvalidPosition { position: string_of(&upper) }),
        }
    }
}

/// The id spaces round-trip: a position's `defaultPositionId` converts back to it, and
/// every `defaultPositionId` that converts comes from that position.
pub proof fn lemma_default_position_id_round_trip(p: Position, id: u8)
    ensures
        default_id_of(p) == Some(id) ==> position_of_default_id(id) == Some(p),
        position_of_default_id(id) == Some(p) ==> default_id_of(p) == Some(id),
{
}

/// Every player position has a `defaultPositionId`; the slot-only ones (FLEX, BE, IR) do
/// not.
pub proof fn lemma_player_positions_have_ids(p: Position)
    ensures
        player_positions().contains(p) <==> default_id_of(p) is Some,
{
    if default_id_of(p) is Some {
        let i: int = match p {
            Position::QB => 0,
            Position::RB => 1,
            Position::WR => 2,
            Position::TE => 3,
            Position::K => 4,
            Position::DEF => 5,
            Position::P => 6,
            Position::DT => 7,
            Position::DE => 8,
            Position::LB => 9,
            Position::DB => 10,
            Position::S => 11,
            _ => 0,
        };
        assert(player_positions()[i] == p);
    }
}

/// The label of every position parses back to it.
pub proof fn lemma_label_parses_back(p: Position)
    ensures
        position_named(upper_key(label_of(p))) == Some(p),
{
    let l = label_of(p);
    assert forall|i: int| 0 <= i < l.len() implies (#[trigger] l[i] as u32) < 128 by {
        assert(l[i] == 'Q' || l[i] == 'B' || l[i] == 'R' || l[i] == 'W' || l[i] == 'T'
            || l[i] == 'E' || l[i] == 'D' || l[i] == '/' || l[i] == 'S' || l[i] == 'K'
            || l[i] == 'P' || l[i] == 'L' || l[i] == 'F' || l[i] == 'X' || l[i] == 'I');
    }
    assert(l.map_values(|c: char| ascii_upper_char(c)) =~= l);
    assert(upper_key(l) == l);
    if l.len() > 2 {
        assert(l == seq!['D', '/', 'S', 'T'] || l == seq!['F', 'L', 'E', 'X']);
    }
}

/// A position fills the slot that selects it, and bench and IR take everyone.
pub proof fn lemma_fills_own_slot(p: Position)
    requires
        p != Position::FLEX,
    ensures
        fills(p, slot_of(p)),
        fills(p, SLOT_BENCH),
        fills(p, SLOT_IR),
{
}

} // verus!
