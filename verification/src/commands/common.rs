//! Parameters and helpers shared across commands.

use crate::cli::types::filters::{FantasyTeamFilter, InjuryStatusFilter, RosterStatusFilter};
use crate::cli::types::ids::LeagueId;
use crate::cli::types::position::{label_of, position_of_default_id, slot_of, Position};
use crate::cli::types::time::{Season, Week};
use crate::text::string_of;
use vstd::prelude::*;

verus! {

/// Shared command parameters that are common across multiple commands.
#[derive(Debug, Clone)]
pub struct CommandParams {
    pub league_id: Option<LeagueId>,
    pub season: Season,
    pub week: Week,
    pub as_json: bool,
    pub refresh: bool,
    pub player_names: Option<Vec<String>>,
    pub positions: Option<Vec<Position>>,
    pub injury_status: Option<InjuryStatusFilter>,
    pub roster_status: Option<RosterStatusFilter>,
    pub fantasy_team_filter: Option<FantasyTeamFilter>,
}

impl CommandParams {
    /// Parameters for `season` and `week` with every option unset.
    pub fn new(season: Season, week: Week) -> (out: Self)
        ensures
            out == (CommandParams {
                league_id: None,
                season,
                week,
                as_json: false,
                refresh: false,
                player_names: None,
                positions: None,
                injury_status: None,
                roster_status: None,
                fantasy_team_filter: None,
            }),
    {
        CommandParams {
            league_id: None,
            season,
            week,
            as_json: false,
            refresh: false,
            player_names: None,
            positions: None,
            injury_status: None,
            roster_status: None,
            fantasy_team_filter: None,
        }
    }
}

/// Builder steps shared by every command's parameters, over the [`CommandParams`] each
/// one carries.
pub trait CommandParamsBuilder: Sized {
    /// The shared parameters this value carries.
    spec fn params_of(&self) -> CommandParams;

    /// Mutable access to the shared parameters.
    fn base_mut(&mut self) -> (r: &mut CommandParams)
        ensures
            *r == old(self).params_of(),
            final(self).params_of() == *final(r),
    ;

    /// The shared parameters.
    fn base(&self) -> (r: &CommandParams)
        ensures
            *r == self.params_of(),
    ;

    /// Set the league id.
    fn with_league_id(self, league_id: LeagueId) -> (out: Self)
        ensures
            out.params_of() == (CommandParams { league_id: Some(league_id), ..self.params_of() }),
    {
        let mut s = self;
        s.base_mut().league_id = Some(league_id);
        s
    }

    /// Filter by specific player names.
    fn with_player_names(self, names: Vec<String>) -> (out: Self)
        ensures
            out.params_of() == (CommandParams { player_names: Some(names), ..self.params_of() }),
    {
        let mut s = self;
        s.base_mut().player_names = Some(names);
        s
    }

    /// Filter by positions.
    fn with_positions(self, positions: Vec<Position>) -> (out: Self)
        ensures
            out.params_of() == (CommandParams { positions: Some(positions), ..self.params_of() }),
    {
        let mut s = self;
        s.base_mut().positions = Some(positions);
        s
    }

    /// Output as JSON.
    fn with_json_output(self) -> (out: Self)
        ensures
            out.params_of() == (CommandParams { as_json: true, ..self.params_of() }),
    {
        let mut s = self;
        s.base_mut().as_json = true;
        s
    }

    /// Force a refresh from the API.
    fn with_refresh(self) -> (out: Self)
        ensures
            out.params_of() == (CommandParams { refresh: true, ..self.params_of() }),
    {
        let mut s = self;
        s.base_mut().refresh = true;
        s
    }

    /// Filter by injury status.
    fn with_injury_filter(self, filter: InjuryStatusFilter) -> (out: Self)
        ensures
            out.params_of() == (CommandParams { injury_status: Some(filter), ..self.params_of() }),
    {
        let mut s = self;
        s.base_mut().injury_status = Some(filter);
        s
    }

    /// Filter by roster status.
    fn with_roster_filter(self, filter: RosterStatusFilter) -> (out: Self)
        ensures
            out.params_of() == (CommandParams { roster_status: Some(filter), ..self.params_of() }),
    {
        let mut s = self;
        s.base_mut().roster_status = Some(filter);
        s
    }

    /// Filter by fantasy team.
    fn with_fantasy_team_filter(self, filter: FantasyTeamFilter) -> (out: Self)
        ensures
            out.params_of() == (CommandParams { fantasy_team_filter: Some(filter), ..self.params_of() }),
    {
        let mut s = self;
        s.base_mut().fantasy_team_filter = Some(filter);
        s
    }

    /// Set the league id if one is given.
    fn with_optional_league_id(self, league_id: Option<LeagueId>) -> (out: Self)
        ensures
            out.params_of() == match league_id {
                Some(id) => CommandParams { league_id: Some(id), ..self.params_of() },
                None => self.params_of(),
            },
    {
        let mut s = self;
        if let Some(id) = league_id {
            s.base_mut().league_id = Some(id);
        }
        s
    }

    /// Filter by player names if some are given.
    fn with_optional_player_names(self, names: Option<Vec<String>>) -> (out: Self)
        ensures
            out.params_of() == match names {
                Some(n) => CommandParams { player_names: Some(n), ..self.params_of() },
                None => self.params_of(),
            },
    {
        let mut s = self;
        if let Some(names) = names {
            s.base_mut().player_names = Some(names);
        }
        s
    }

    /// Filter by positions if some are given.
    fn with_optional_positions(self, positions: Option<Vec<Position>>) -> (out: Self)
        ensures
            out.params_of() == match positions {
                Some(p) => CommandParams { positions: Some(p), ..self.params_of() },
                None => self.params_of(),
            },
    {
        let mut s = self;
        if let Some(positions) = positions {
            s.base_mut().positions = Some(positions);
        }
        s
    }

    /// Filter by injury status if one is given.
    fn with_optional_injury_filter(self, filter: Option<InjuryStatusFilter>) -> (out: Self)
        ensures
            out.params_of() == match filter {
                Some(f) => CommandParams { injury_status: Some(f), ..self.params_of() },
                None => self.params_of(),
            },
    {
        let mut s = self;
        if let Some(filter) = filter {
            s.base_mut().injury_status = Some(filter);
        }
        s
    }

    /// Filter by roster status if one is given.
    fn with_optional_roster_filter(self, filter: Option<RosterStatusFilter>) -> (out: Self)
        ensures
            out.params_of() == match filter {
                Some(f) => CommandParams { roster_status: Some(f), ..self.params_of() },
                None => self.params_of(),
            },
    {
        let mut s = self;
        if let Some(filter) = filter {
            s.base_mut().roster_status = Some(filter);
        }
        s
    }

    /// Filter by fantasy team if one is given.
    fn with_optional_fantasy_team_filter(self, filter: Option<FantasyTeamFilter>) -> (out: Self)
        ensures
            out.params_of() == match filter {
                Some(f) => CommandParams { fantasy_team_filter: Some(f), ..self.params_of() },
                None => self.params_of(),
            },
    {
        let mut s = self;
        if let Some(filter) = filter {
            s.base_mut().fantasy_team_filter = Some(filter);
        }
        s
    }

    /// Ask for JSON output when `json` holds.
    fn with_json_output_if(self, json: bool) -> (out: Self)
        ensures
            out.params_of() == (if json {
                CommandParams { as_json: true, ..self.params_of() }
            } else {
                self.params_of()
            }),
    {
        let mut s = self;
        if json {
            s.base_mut().as_json = true;
        }
        s
    }

    /// Ask for a refresh when `refresh` holds.
    fn with_refresh_if(self, refresh: bool) -> (out: Self)
        ensures
            out.params_of() == (if refresh {
                CommandParams { refresh: true, ..self.params_of() }
            } else {
                self.params_of()
            }),
    {
        let mut s = self;
        if refresh {
            s.base_mut().refresh = true;
        }
        s
    }
}

/// Parameters of the player data command.
#[derive(Debug, Clone)]
pub struct PlayerDataParams {
    pub base: CommandParams,
    pub projected: bool,
    pub debug: bool,
    pub clear_db: bool,
    /// Allow the HTTP layer to serve this run from its cache even when `refresh` is set.
    pub reuse_http_response: bool,
}

impl PlayerDataParams {
    /// Parameters for `season` and `week`, actual or projected.
    pub fn new(season: Season, week: Week, projected: bool) -> (out: Self)
        ensures
            out.base == CommandParams::new_spec(season, week),
            out.projected == projected,
            !out.debug && !out.clear_db && !out.reuse_http_response,
    {
        PlayerDataParams {
            base: CommandParams::new(season, week),
            projected,
            debug: false,
            clear_db: false,
            reuse_http_response: false,
        }
    }

    /// Serve this run from the HTTP cache if possible, without also re-enabling the
    /// database cache that `refresh` disables.
    pub fn reusing_http_response(self) -> (out: Self)
        ensures
            out == (PlayerDataParams { reuse_http_response: true, ..self }),
    {
        let mut s = self;
        s.reuse_http_response = true;
        s
    }

    /// Set debug output.
    pub fn with_debug(self, debug: bool) -> (out: Self)
        ensures
            out == (PlayerDataParams { debug, ..self }),
    {
        let mut s = self;
        s.debug = debug;
        s
    }

    /// Whether the fetch from ESPN bypasses the HTTP cache: on a refresh, unless this run
    /// reuses the response a previous pass already fetched.
    pub fn network_refresh(&self) -> (out: bool)
        ensures
            out == (self.base.refresh && !self.reuse_http_response),
    {
        self.base.refresh && !self.reuse_http_response
    }

    /// Whether the local database may answer this run (when it holds the week): not on a
    /// refresh, and not when names or positions narrow the query.
    pub fn database_eligible(&self) -> (out: bool)
        ensures
            out == (!self.base.refresh && self.base.player_names is None && self.base.positions is None),
    {
        !self.base.refresh && self.base.player_names.is_none() && self.base.positions.is_none()
    }

    /// ESPN's `statSourceId` for the figures this run asks for: 1 for projections, 0 for
    /// recorded points.
    pub fn stat_source_id(&self) -> (out: u8)
        ensures
            out == (if self.projected { 1u8 } else { 0u8 }),
    {
        if self.projected { 1 } else { 0 }
    }
}

impl CommandParams {
    /// The parameters [`CommandParams::new`] builds.
    pub open spec fn new_spec(season: Season, week: Week) -> CommandParams {
        CommandParams {
            league_id: None,
            season,
            week,
            as_json: false,
            refresh: false,
            player_names: None,
            positions: None,
            injury_status: None,
            roster_status: None,
            fantasy_team_filter: None,
        }
    }
}

impl CommandParamsBuilder for PlayerDataParams {
    open spec fn params_of(&self) -> CommandParams {
        self.base
    }

    fn base_mut(&mut self) -> (r: &mut CommandParams) {
        &mut self.base
    }

    fn base(&self) -> (r: &CommandParams) {
        &self.base
    }
}

/// The lineup slot whose scoring overrides apply to a player with `defaultPositionId` `id`:
/// the slot of the position the id denotes, or the QB slot when it denotes none.
pub open spec fn scoring_slot(id: i32) -> u8 {
    if id < 0 || id > 255 {
        0
    } else {
        match position_of_default_id(id as u8) {
            Some(p) => slot_of(p),
            None => 0,
        }
    }
}

/// The position label for a `defaultPositionId`, or `UNKNOWN`.
pub open spec fn position_label_for(id: i32) -> Seq<char> {
    if id < 0 || id > 255 {
        seq!['U', 'N', 'K', 'N', 'O', 'W', 'N']
    } else {
        match position_of_default_id(id as u8) {
            Some(p) => label_of(p),
            None => seq!['U', 'N', 'K', 'N', 'O', 'W', 'N'],
        }
    }
}

/// Map a player's `defaultPositionId` to the lineup slot id used to look up scoring
/// overrides.
///
/// `pointsOverrides` in the league settings is keyed by *lineup slot* id, not by
/// `defaultPositionId`, so the two must be translated rather than passed through. Players
/// whose position does not resolve fall back to the QB slot, which carries no overrides in
/// practice.
pub fn scoring_slot_id(default_position_id: i32) -> (out: u8)
    ensures
        out == scoring_slot(default_position_id),
{
    if default_position_id < 0 || default_position_id > 255 {
        return 0;
    }
    let byte = default_position_id as u8;
    match Position::from_default_position_id(byte) {
        Ok(p) => p.lineup_slot_ids()[0],
        Err(_) => 0,
    }
}

/// Convert a player's `defaultPositionId` to a position label.
pub fn position_id_to_string(default_position_id: i32) -> (out: String)
    ensures
        out@ == position_label_for(default_position_id),
{
    if default_position_id < 0 || default_position_id > 255 {
        let unknown: Vec<char> = vec!['U', 'N', 'K', 'N', 'O', 'W', 'N'];
        return string_of(&unknown);
    }
    let byte = default_position_id as u8;
    match Position::from_default_position_id(byte) {
        Ok(p) => p.to_string(),
        Err(_) => {
            let unknown: Vec<char> = vec!['U', 'N', 'K', 'N', 'O', 'W', 'N'];
            string_of(&unknown)
        },
    }
}

/// The clauses that narrow a stored-player query to some names (substring match) and
/// positions, in the order their placeholders appear.
pub open spec fn narrowing_text(names: Seq<Seq<char>>, positions: Seq<Position>) -> Seq<char> {
    (if names.len() > 0 {
        " AND ("@ + crate::text::join_with(Seq::new(names.len(), |_i: int| "p.name LIKE ?"@), " OR "@) + ")"@
    } else {
        Seq::<char>::empty()
    }) + (if positions.len() > 0 {
        " AND p.position IN ("@ + crate::text::join_with(Seq::new(positions.len(), |_i: int| "?"@), ", "@) + ")"@
    } else {
        Seq::<char>::empty()
    })
}

/// The values of those placeholders: each name wrapped in `%` wildcards, then each
/// position's label.
pub open spec fn narrowing_values(names: Seq<Seq<char>>, positions: Seq<Position>) -> Seq<Seq<char>> {
    names.map_values(|n: Seq<char>| "%"@ + n + "%"@) + positions.map_values(|p: Position| label_of(p))
}

/// The views of optional names and positions, an absent list read as an empty one.
pub open spec fn names_or_none(names: Option<&Vec<String>>) -> Seq<Seq<char>> {
    match names {
        Some(n) => crate::text::string_views(n@),
        None => Seq::empty(),
    }
}

pub open spec fn positions_or_none(positions: Option<&Vec<Position>>) -> Seq<Position> {
    match positions {
        Some(p) => p@,
        None => Seq::empty(),
    }
}

fn repeated_parts(n: usize, text: &str) -> (out: Vec<Vec<char>>)
    ensures
        crate::text::char_views(out@) =~= Seq::new(n as nat, |_i: int| text@),
{
    let mut out: Vec<Vec<char>> = Vec::new();
    let mut i: usize = 0;
    while i < n
        invariant
            i <= n,
            crate::text::char_views(out@) =~= Seq::new(i as nat, |_i: int| text@),
        decreases n - i,
    {
        let ghost before = crate::text::char_views(out@);
        out.push(crate::text::chars_of(text));
        proof {
            assert(crate::text::char_views(out@) =~= before.push(text@));
        }
        i = i + 1;
    }
    out
}

/// Build the narrowing clauses of a stored-player query and the values of their
/// placeholders.
pub fn narrowing_sql(names: Option<&Vec<String>>, positions: Option<&Vec<Position>>) -> (out: (String, Vec<String>))
    ensures
        out.0@ == narrowing_text(names_or_none(names), positions_or_none(positions)),
        crate::text::string_views(out.1@) == narrowing_values(names_or_none(names), positions_or_none(positions)),
{
    let ghost nv = names_or_none(names);
    let ghost pv = positions_or_none(positions);
    let empty_names: Vec<String> = Vec::new();
    let empty_positions: Vec<Position> = Vec::new();
    let ns: &Vec<String> = match names {
        Some(n) => n,
        None => &empty_names,
    };
    let ps: &Vec<Position> = match positions {
        Some(p) => p,
        None => &empty_positions,
    };
    assert(crate::text::string_views(ns@) == nv);
    assert(ps@ == pv);
    let mut text: Vec<char> = Vec::new();
    if ns.len() > 0 {
        text = crate::text::chars_of(" AND (");
        crate::text::append_chars(&mut text, &crate::text::join_chars(&repeated_parts(ns.len(), "p.name LIKE ?"), &crate::text::chars_of(" OR ")));
        crate::text::append_chars(&mut text, &crate::text::chars_of(")"));
    }
    let ghost after_names = text@;
    if ps.len() > 0 {
        crate::text::append_chars(&mut text, &crate::text::chars_of(" AND p.position IN ("));
        crate::text::append_chars(&mut text, &crate::text::join_chars(&repeated_parts(ps.len(), "?"), &crate::text::chars_of(", ")));
        crate::text::append_chars(&mut text, &crate::text::chars_of(")"));
    }
    proof {
        assert(text@ =~= narrowing_text(nv, pv));
    }
    let mut values: Vec<String> = Vec::new();
    let mut i: usize = 0;
    while i < ns.len()
        invariant
            i <= ns@.len(),
            crate::text::string_views(ns@) == nv,
            crate::text::string_views(values@) =~= nv.take(i as int).map_values(|n: Seq<char>| "%"@ + n + "%"@),
        decreases ns@.len() - i,
    {
        let ghost before = crate::text::string_views(values@);
        let mut v = crate::text::chars_of("%");
        crate::text::append_chars(&mut v, &crate::text::chars_of(ns[i].as_str()));
        crate::text::append_chars(&mut v, &crate::text::chars_of("%"));
        values.push(string_of(&v));
        proof {
            assert(crate::text::string_views(values@) =~= before.push(v@));
            assert(nv[i as int] == ns@[i as int]@);
            assert(nv.take(i + 1) =~= nv.take(i as int).push(nv[i as int]));
        }
        i = i + 1;
    }
    let mut j: usize = 0;
    while j < ps.len()
        invariant
            j <= ps@.len(),
            ps@ == pv,
            i == nv.len(),
            crate::text::string_views(values@) =~= nv.map_values(|n: Seq<char>| "%"@ + n + "%"@)
                + pv.take(j as int).map_values(|p: Position| label_of(p)),
        decreases ps@.len() - j,
    {
        let ghost before = crate::text::string_views(values@);
        let label = ps[j].to_string();
        values.push(label);
        proof {
            assert(crate::text::string_views(values@) =~= before.push(label_of(pv[j as int])));
            assert(pv.take(j + 1) =~= pv.take(j as int).push(pv[j as int]));
        }
        j = j + 1;
    }
    proof {
        assert(nv.take(nv.len() as int) =~= nv);
        assert(pv.take(j as int) =~= pv);
    }
    (string_of(&text), values)
}

} // verus!
