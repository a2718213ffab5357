//! Filtering arguments shared between commands.

use super::types::{
    filters::{FantasyTeamFilter, InjuryStatusFilter, RosterStatusFilter},
    ids::LeagueId,
    position::Position,
    time::{Season, Week},
};
use vstd::prelude::*;

verus! {

/// Common filtering arguments shared between commands.
pub struct CommonFilters {
    pub league_id: Option<LeagueId>,
    /// Player name filters (substring match).
    pub player_name: Option<Vec<String>>,
    pub positions: Option<Vec<Position>>,
    pub season: Season,
    pub week: Week,
    pub injury_status: Option<InjuryStatusFilter>,
    pub roster_status: Option<RosterStatusFilter>,
    /// Fantasy team name filter (partial matching).
    pub team: Option<String>,
    /// Exact fantasy team id filter.
    pub team_id: Option<u32>,
}

impl CommonFilters {
    /// The fantasy team filter, if one was given; a team name takes precedence over an id.
    pub fn get_fantasy_team_filter(&self) -> (out: Option<FantasyTeamFilter>)
        ensures
            match self.team {
                Some(name) => out matches Some(FantasyTeamFilter::Name(n)) && n@ == name@,
                None => match self.team_id {
                    Some(id) => out == Some(FantasyTeamFilter::Id(id)),
                    None => out is None,
                },
            },
    {
        match &self.team {
            Some(name) => Some(FantasyTeamFilter::Name(name.clone())),
            None => match self.team_id {
                Some(id) => Some(FantasyTeamFilter::Id(id)),
                None => None,
            },
        }
    }
}

} // verus!
