//! Identifier types for leagues and players.

use crate::error::EspnError;
use crate::text::{parse_u16, parse_u32, unsigned_parse_error, chars_of, decimal, i64_to_decimal, parse_unsigned, parse_unsigned_chars,
    signed_decimal, string_of, u64_to_decimal};
use vstd::prelude::*;

verus! {

/// An ESPN Fantasy Football league id.
#[derive(Debug, Clone, Copy, PartialEq, Eq, Structural, Hash)]
pub struct LeagueId(pub u32);

impl LeagueId {
    /// Wrap a league id.
    pub fn new(id: u32) -> (out: Self)
        ensures
            out.0 == id,
    {
        Self(id)
    }

    /// The underlying number.
    pub fn as_u32(&self) -> (out: u32)
        ensures
            out == self.0,
    {
        self.0
    }

    /// Decimal rendering.
    pub fn to_string(&self) -> (out: String)
        ensures
            out@ == decimal(self.0 as nat),
    {
        string_of(&u64_to_decimal(self.0 as u64))
    }

    /// Parse a league id the way `u32::from_str` does.
    pub fn from_str(s: &str) -> (out: Result<LeagueId, EspnError>)
        ensures
            match parse_unsigned(s@, u32::MAX as nat) {
                Some(v) => out == Ok::<LeagueId, EspnError>(LeagueId(v as u32)),
                None => out matches Err(EspnError::InvalidLeagueId { message }) && message@ == unsigned_parse_error(s@, u32::MAX as nat),
            },
    {
        match parse_u32(s) {
            Ok(v) => Ok(LeagueId(v)),
            Err(message) => Err(EspnError::InvalidLeagueId { message }),
        }
    }
}

/// An ESPN player id. Team defenses carry negative ids, and `-1` marks an unmade pick.
#[derive(Debug, Clone, Copy, PartialEq, Eq, Structural, Hash)]
pub struct PlayerId(pub i64);

impl PlayerId {
    /// Wrap a player id.
    pub fn new(id: i64) -> (out: Self)
        ensures
            out.0 == id,
    {
        Self(id)
    }

    /// The underlying number.
    pub fn as_i64(&self) -> (out: i64)
        ensures
            out == self.0,
    {
        self.0
    }

    /// Decimal rendering.
    pub fn to_string(&self) -> (out: String)
        ensures
            out@ == signed_decimal(self.0 as int),
    {
        string_of(&i64_to_decimal(self.0))
    }
}

} // verus!
