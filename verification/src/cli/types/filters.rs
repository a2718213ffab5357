//! Filter types for player queries.
//!
//! Some filters are applied server-side by ESPN (`Active`, `Injured`), the rest are applied
//! to the players once they have been fetched.

use crate::text::string_of;
use vstd::prelude::*;

verus! {

/// Filter on a player's injury designation.
#[derive(Debug, Clone, Copy, PartialEq, Eq, Structural, Hash)]
pub enum InjuryStatusFilter {
    /// Players who are active/healthy
    Active,
    /// Players with any injury status (questionable, doubtful, out, etc.)
    Injured,
    /// Players listed as "Out"
    Out,
    /// Players listed as "Doubtful"
    Doubtful,
    /// Players listed as "Questionable"
    Questionable,
    /// Players listed as "Probable"
    Probable,
    /// Players listed as "Day to Day"
    DayToDay,
    /// Players on Injured Reserve
    IR,
}

/// Display label of an injury filter.
pub open spec fn injury_filter_label(f: InjuryStatusFilter) -> Seq<char> {
    match f {
        InjuryStatusFilter::Active => seq!['A', 'c', 't', 'i', 'v', 'e'],
        InjuryStatusFilter::Injured => seq!['I', 'n', 'j', 'u', 'r', 'e', 'd'],
        InjuryStatusFilter::Out => seq!['O', 'u', 't'],
        InjuryStatusFilter::Doubtful => seq!['D', 'o', 'u', 'b', 't', 'f', 'u', 'l'],
        InjuryStatusFilter::Questionable => seq![
            'Q', 'u', 'e', 's', 't', 'i', 'o', 'n', 'a', 'b', 'l', 'e',
        ],
        InjuryStatusFilter::Probable => seq!['P', 'r', 'o', 'b', 'a', 'b', 'l', 'e'],
        InjuryStatusFilter::DayToDay => seq!['D', 'a', 'y', ' ', 't', 'o', ' ', 'D', 'a', 'y'],
        InjuryStatusFilter::IR => seq!['I', 'R'],
    }
}

impl InjuryStatusFilter {
    /// Display label ("Active", "Day to Day", ...).
    pub fn to_string(&self) -> (out: String)
        ensures
            out@ == injury_filter_label(*self),
    {
        let chars = match self {
            InjuryStatusFilter::Active => vec!['A', 'c', 't', 'i', 'v', 'e'],
            InjuryStatusFilter::Injured => vec!['I', 'n', 'j', 'u', 'r', 'e', 'd'],
            InjuryStatusFilter::Out => vec!['O', 'u', 't'],
            InjuryStatusFilter::Doubtful => vec!['D', 'o', 'u', 'b', 't', 'f', 'u', 'l'],
            InjuryStatusFilter::Questionable => vec![
                'Q', 'u', 'e', 's', 't', 'i', 'o', 'n', 'a', 'b', 'l', 'e',
            ],
            InjuryStatusFilter::Probable => vec!['P', 'r', 'o', 'b', 'a', 'b', 'l', 'e'],
            InjuryStatusFilter::DayToDay => vec!['D', 'a', 'y', ' ', 't', 'o', ' ', 'D', 'a', 'y'],
            InjuryStatusFilter::IR => vec!['I', 'R'],
        };
        string_of(&chars)
    }
}

/// Filter on whether a player is on a fantasy roster in the league.
#[derive(Debug, Clone, Copy, PartialEq, Eq, Structural, Hash)]
pub enum RosterStatusFilter {
    /// Players currently rostered on any team
    Rostered,
    /// Free agents (unrostered players)
    FA,
}

/// Display label of a roster filter.
pub open spec fn roster_filter_label(f: RosterStatusFilter) -> Seq<char> {
    match f {
        RosterStatusFilter::Rostered => seq!['R', 'o', 's', 't', 'e', 'r', 'e', 'd'],
        RosterStatusFilter::FA => seq!['F', 'A'],
    }
}

impl RosterStatusFilter {
    /// Display label ("Rostered", "FA").
    pub fn to_string(&self) -> (out: String)
        ensures
            out@ == roster_filter_label(*self),
    {
        let chars = match self {
            RosterStatusFilter::Rostered => vec!['R', 'o', 's', 't', 'e', 'r', 'e', 'd'],
            RosterStatusFilter::FA => vec!['F', 'A'],
        };
        string_of(&chars)
    }
}

/// Filter on the fantasy team a player belongs to.
#[derive(Debug, Clone, PartialEq, Eq, Hash)]
pub enum FantasyTeamFilter {
    /// Exact fantasy team id.
    Id(u32),
    /// Case-insensitive substring of the team name.
    Name(String),
}

} // verus!
