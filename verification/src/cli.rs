//! Command-line facing types: identifiers, seasons and weeks, positions and filters.

pub mod args;
pub mod types;

use crate::cli_types::{LeagueId, Position, Season, Week};
use vstd::prelude::*;

verus! {

/// The `get` subcommands of the first command-line layout.
#[derive(Debug, Clone)]
pub enum GetCmd {
    /// Fetch, and optionally refresh, the cached league settings of a season.
    LeagueData { league_id: Option<LeagueId>, refresh: bool, season: Season, verbose: bool },
    /// Players and their weekly fantasy points.
    PlayerData {
        debug: bool,
        json: bool,
        league_id: Option<LeagueId>,
        limit: Option<u32>,
        player_name: Option<String>,
        positions: Option<Vec<Position>>,
        projected: bool,
        season: Season,
        week: Week,
    },
}

} // verus!
