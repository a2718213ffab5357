//! Where the league id comes from.

use crate::cli::types::ids::LeagueId;
use crate::error::EspnError;
use crate::text::{chars_of, parse_unsigned, parse_unsigned_chars, string_of};
use vstd::prelude::*;

verus! {

/// Environment variable holding the default league id.
pub const LEAGUE_ID_ENV_VAR: &'static str = "ESPN_FFL_LEAGUE_ID";

/// The league id a command uses: the one given, else the environment's when that is a
/// non-zero `u32`.
pub open spec fn league_id_from(given: Option<LeagueId>, env_value: Option<Seq<char>>) -> Option<LeagueId> {
    match given {
        Some(id) => Some(id),
        None => match env_value {
            Some(v) => match parse_unsigned(v, 0xffff_ffff) {
                Some(n) => if n == 0 { None } else { Some(LeagueId(n as u32)) },
                None => None,
            },
            None => None,
        },
    }
}

/// Resolve the league id from the option given, or from the value of
/// [`LEAGUE_ID_ENV_VAR`] when there is none.
///
/// A missing, unparsable or zero environment value is reported as a missing league id.
pub fn resolve_league_id(league_id: Option<LeagueId>, env_value: Option<&str>) -> (out: Result<LeagueId, EspnError>)
    ensures
        match league_id_from(league_id, match env_value { Some(v) => Some(v@), None => None }) {
            Some(id) => out == Ok::<LeagueId, EspnError>(id),
            None => out matches Err(EspnError::MissingLeagueId { env_var }) && env_var@ == LEAGUE_ID_ENV_VAR@,
        },
{
    match league_id {
        Some(id) => Ok(id),
        None => {
            let missing = EspnError::MissingLeagueId { env_var: string_of(&chars_of(LEAGUE_ID_ENV_VAR)) };
            match env_value {
                Some(v) => match parse_unsigned_chars(&chars_of(v), 0xffff_ffff) {
                    Some(n) => {
                        if n == 0 {
                            Err(missing)
                        } else {
                            Ok(LeagueId::new(n as u32))
                        }
                    },
                    None => Err(missing),
                },
                None => Err(missing),
            }
        },
    }
}

} // verus!
