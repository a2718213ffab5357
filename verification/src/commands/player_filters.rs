//! Player filtering shared by the player-data and projection-analysis commands.
//!
//! Two stages: [`filter_player`] decides, player by player, which of ESPN's players are
//! kept (and under which id), and the status filters then narrow computed player points by
//! injury, roster and fantasy team.

use crate::cli::types::filters::{FantasyTeamFilter, InjuryStatusFilter, RosterStatusFilter};
use crate::cli::types::ids::PlayerId;
use crate::cli::types::{all_ids, position_of_id, primary_id, Position};
use crate::espn::types::InjuryStatus;
use crate::text::{chars_of, contains_chars, contains_seq, lowercase, lowercase_chars, string_views};
use vstd::prelude::*;

verus! {

/// What the first filtering stage reads of a player ESPN sent.
#[derive(Debug, Clone)]
pub struct PlayerRecord {
    /// ESPN's raw id; team defenses carry negative ids.
    pub id: i64,
    pub full_name: Option<String>,
    /// ESPN's `defaultPositionId`.
    pub default_position_id: i8,
}

/// A player kept by the first stage, under its (non-negative) id.
#[derive(Debug, Clone)]
pub struct FilteredPlayer {
    pub player_id: PlayerId,
    pub original_player: PlayerRecord,
}

/// Whether a player is dropped outright: a negative id on anything but a team defense
/// (position 16), or an individual defensive player (positions 8 to 15).
pub open spec fn excluded(p: PlayerRecord) -> bool {
    (p.id < 0 && p.default_position_id != 16) || (8 <= p.default_position_id <= 15)
}

/// The name a player is matched by: its full name, or nothing.
pub open spec fn name_of(p: PlayerRecord) -> Seq<char> {
    match p.full_name {
        Some(n) => n@,
        None => seq![],
    }
}

/// Whether a player passes the name filter: with two or more names, the lower-cased full
/// name must contain one of them lower-cased (a single name is filtered by ESPN itself).
pub open spec fn passes_names(p: PlayerRecord, names: Option<Seq<Seq<char>>>) -> bool {
    match names {
        Some(ns) => ns.len() <= 1 || exists|k: int| 0 <= k < ns.len() && #[trigger] contains_seq(
            lowercase(name_of(p)),
            lowercase(ns[k]),
        ),
        None => true,
    }
}

/// Whether a filter position accepts a player's position: FLEX accepts any position whose
/// primary id is one of FLEX's ids, any other position only itself.
pub open spec fn accepts(filter: Position, pos: Position) -> bool {
    if filter == Position::FLEX { all_ids(filter).contains(primary_id(pos)) } else { filter == pos }
}

/// Whether a position id names a position that one of `ps` accepts.
pub open spec fn id_accepted(id: i8, ps: Seq<Position>) -> bool {
    if id < 0 {
        false
    } else {
        match position_of_id(id as u8) {
            Some(pos) => exists|k: int| 0 <= k < ps.len() && #[trigger] accepts(ps[k], pos),
            None => false,
        }
    }
}

/// Whether a player passes the position filter: its position id must name a position that
/// one of the filter positions accepts.
pub open spec fn passes_positions(p: PlayerRecord, positions: Option<Seq<Position>>) -> bool {
    match positions {
        Some(ps) => id_accepted(p.default_position_id, ps),
        None => true,
    }
}

/// What the first stage makes of a player: kept under its id made non-negative, or dropped.
pub open spec fn filtered(
    p: PlayerRecord,
    names: Option<Seq<Seq<char>>>,
    positions: Option<Seq<Position>>,
) -> Option<PlayerId> {
    if !excluded(p) && passes_names(p, names) && passes_positions(p, positions) {
        Some(PlayerId(if p.id < 0 { (-p.id) as i64 } else { p.id }))
    } else {
        None
    }
}

fn matches_any_name(name: &Vec<char>, names: &Vec<String>) -> (out: bool)
    ensures
        out == exists|k: int| 0 <= k < names@.len() && #[trigger] contains_seq(
            lowercase(name@),
            lowercase(string_views(names@)[k]),
        ),
{
    let lowered = lowercase_chars(name);
    let mut i: usize = 0;
    while i < names.len()
        invariant
            i <= names@.len(),
            lowered@ == lowercase(name@),
            forall|k: int| 0 <= k < i ==> !#[trigger] contains_seq(
                lowercase(name@),
                lowercase(string_views(names@)[k]),
            ),
        decreases names@.len() - i,
    {
        let needle = lowercase_chars(&chars_of(names[i].as_str()));
        if contains_chars(&lowered, &needle) {
            assert(contains_seq(lowercase(name@), lowercase(string_views(names@)[i as int])));
            return true;
        }
        i = i + 1;
    }
    false
}

fn accepted_by_any(pos: Position, positions: &Vec<Position>) -> (out: bool)
    ensures
        out == exists|k: int| 0 <= k < positions@.len() && #[trigger] accepts(positions@[k], pos),
{
    let mut i: usize = 0;
    while i < positions.len()
        invariant
            i <= positions@.len(),
            forall|k: int| 0 <= k < i ==> !#[trigger] accepts(positions@[k], pos),
        decreases positions@.len() - i,
    {
        let filter_pos = positions[i];
        let hit = if filter_pos == Position::FLEX {
            let ids = filter_pos.get_all_position_ids();
            let id = pos.to_u8();
            let mut j: usize = 0;
            let mut found = false;
            while j < ids.len()
                invariant
                    j <= ids@.len(),
                    ids@ == all_ids(filter_pos),
                    id == primary_id(pos),
                    found == exists|k: int| 0 <= k < j && ids@[k] == id,
                decreases ids@.len() - j,
            {
                if ids[j] == id {
                    found = true;
                }
                j = j + 1;
            }
            proof {
                if found {
                    let k = choose|k: int| 0 <= k < j && ids@[k] == id;
                    assert(all_ids(filter_pos)[k] == primary_id(pos));
                }
            }
            found
        } else {
            filter_pos == pos
        };
        if hit {
            assert(accepts(positions@[i as int], pos));
            return true;
        }
        i = i + 1;
    }
    false
}

/// Decide whether to keep one player of ESPN's response, and under which id.
///
/// Individual defensive players and negative ids other than team defenses are dropped; with
/// two or more names, only players whose name contains one of them (ignoring case) are
/// kept; with positions, only players of an accepted position. A team defense's negative id
/// is made positive, so a team defense with id `i64::MIN`, which has no positive
/// counterpart, may not be passed.
pub fn filter_player(
    player: PlayerRecord,
    player_names: &Option<Vec<String>>,
    position_filter: &Option<Vec<Position>>,
) -> (out: Option<FilteredPlayer>)
    requires
        !(player.id == i64::MIN && player.default_position_id == 16),
    ensures
        match filtered(
            player,
            match player_names { Some(n) => Some(string_views(n@)), None => None },
            match position_filter { Some(p) => Some(p@), None => None },
        ) {
            Some(id) => out matches Some(f) && f.player_id == id && f.original_player == player,
            None => out is None,
        },
{
    let ghost names_v = match player_names { Some(n) => Some(string_views(n@)), None => None };
    let ghost positions_v = match position_filter { Some(p) => Some(p@), None => None };
    if (player.id < 0 && player.default_position_id != 16)
        || (player.default_position_id >= 8 && player.default_position_id <= 15)
    {
        return None;
    }
    if let Some(names) = player_names {
        if names.len() > 1 {
            let name = match &player.full_name {
                Some(n) => chars_of(n.as_str()),
                None => Vec::new(),
            };
            proof {
                assert(name@ =~= name_of(player));
            }
            if !matches_any_name(&name, names) {
                return None;
            }
        }
    }
    assert(passes_names(player, names_v));
    if let Some(positions) = position_filter {
        if player.default_position_id < 0 {
            return None;
        }
        match Position::try_from(player.default_position_id as u8) {
            Ok(pos) => {
                if !accepted_by_any(pos, positions) {
                    return None;
                }
                assert(id_accepted(player.default_position_id, positions@));
            },
            Err(_) => {
                return None;
            },
        }
    }
    assert(passes_positions(player, positions_v));
    let player_id = if player.id < 0 { PlayerId::new(-player.id) } else { PlayerId::new(player.id) };
    Some(FilteredPlayer { player_id, original_player: player })
}

fn copy_record(p: &PlayerRecord) -> (out: PlayerRecord)
    ensures
        out == *p,
{
    let full_name = match &p.full_name {
        Some(n) => Some(n.clone()),
        None => None,
    };
    PlayerRecord { id: p.id, full_name, default_position_id: p.default_position_id }
}

/// The players the first stage keeps, in order, each under its non-negative id.
pub open spec fn kept_players(
    players: Seq<PlayerRecord>,
    names: Option<Seq<Seq<char>>>,
    positions: Option<Seq<Position>>,
) -> Seq<FilteredPlayer>
    decreases players.len(),
{
    if players.len() == 0 {
        Seq::empty()
    } else {
        let rest = kept_players(players.drop_last(), names, positions);
        match filtered(players.last(), names, positions) {
            Some(id) => rest.push(FilteredPlayer { player_id: id, original_player: players.last() }),
            None => rest,
        }
    }
}

/// Run the first filtering stage over all of ESPN's players, keeping their order.
///
/// A team defense whose id is `i64::MIN` has no non-negative id to be kept under, so
/// none may be passed.
pub fn filter_and_convert_players(
    players: Vec<PlayerRecord>,
    player_names: Option<Vec<String>>,
    position_filter: Option<Vec<Position>>,
) -> (out: Vec<FilteredPlayer>)
    requires
        forall|i: int| 0 <= i < players@.len() && #[trigger] players@[i].id == i64::MIN
            ==> players@[i].default_position_id != 16,
    ensures
        out@ == kept_players(
            players@,
            match player_names { Some(n) => Some(string_views(n@)), None => None },
            match position_filter { Some(p) => Some(p@), None => None },
        ),
{
    let ghost names_v = match &player_names { Some(n) => Some(string_views(n@)), None => None };
    let ghost positions_v = match &position_filter { Some(p) => Some(p@), None => None };
    let mut out: Vec<FilteredPlayer> = Vec::new();
    let mut i: usize = 0;
    while i < players.len()
        invariant
            i <= players@.len(),
            names_v == match &player_names { Some(n) => Some(string_views(n@)), None => None },
            positions_v == match &position_filter { Some(p) => Some(p@), None => None },
            forall|k: int| 0 <= k < players@.len() && #[trigger] players@[k].id == i64::MIN
                ==> players@[k].default_position_id != 16,
            out@ == kept_players(players@.take(i as int), names_v, positions_v),
        decreases players@.len() - i,
    {
        let player = copy_record(&players[i]);
        proof {
            assert(players@.take(i + 1).drop_last() =~= players@.take(i as int));
            assert(players@.take(i + 1).last() == players@[i as int]);
        }
        match filter_player(player, &player_names, &position_filter) {
            Some(f) => out.push(f),
            None => {},
        }
        i = i + 1;
    }
    proof {
        assert(players@.take(i as int) =~= players@);
    }
    out
}

/// What the status filters read of a player's computed points.
#[derive(Debug, Clone)]
pub struct PlayerStatus {
    pub id: PlayerId,
    pub injured: Option<bool>,
    pub injury_status: Option<InjuryStatus>,
    pub is_rostered: Option<bool>,
    pub team_id: Option<u32>,
    pub team_name: Option<String>,
}

fn copy_status(p: &PlayerStatus) -> (out: PlayerStatus)
    ensures
        out == *p,
{
    let team_name = match &p.team_name {
        Some(t) => Some(t.clone()),
        None => None,
    };
    PlayerStatus {
        id: p.id,
        injured: p.injured,
        injury_status: p.injury_status,
        is_rostered: p.is_rostered,
        team_id: p.team_id,
        team_name,
    }
}

/// Whether a player matches an injury filter. `Active` takes an `Active` designation, or no
/// designation without an injury flag; `Injured` takes an injury flag or any designation
/// other than `Active`; the others take exactly their designation (`IR` is injured reserve).
pub open spec fn injury_match(p: PlayerStatus, f: InjuryStatusFilter) -> bool {
    match f {
        InjuryStatusFilter::Active => p.injury_status == Some(InjuryStatus::Active)
            || (p.injury_status is None && p.injured != Some(true)),
        InjuryStatusFilter::Injured => p.injured == Some(true)
            || (p.injury_status matches Some(s) && s != InjuryStatus::Active),
        InjuryStatusFilter::Out => p.injury_status == Some(InjuryStatus::Out),
        InjuryStatusFilter::Doubtful => p.injury_status == Some(InjuryStatus::Doubtful),
        InjuryStatusFilter::Questionable => p.injury_status == Some(InjuryStatus::Questionable),
        InjuryStatusFilter::Probable => p.injury_status == Some(InjuryStatus::Probable),
        InjuryStatusFilter::DayToDay => p.injury_status == Some(InjuryStatus::DayToDay),
        InjuryStatusFilter::IR => p.injury_status == Some(InjuryStatus::InjuryReserve),
    }
}

/// Whether a player matches a roster filter: `Rostered` only when known to be rostered,
/// `FA` only when known not to be.
pub open spec fn roster_match(p: PlayerStatus, f: RosterStatusFilter) -> bool {
    match f {
        RosterStatusFilter::Rostered => p.is_rostered == Some(true),
        RosterStatusFilter::FA => p.is_rostered == Some(false),
    }
}

/// Whether a player matches a fantasy team filter: the same team id, or a team name that
/// contains the filter's name, ignoring case.
pub open spec fn team_match(p: PlayerStatus, f: FantasyTeamFilter) -> bool {
    match f {
        FantasyTeamFilter::Id(id) => p.team_id == Some(id),
        FantasyTeamFilter::Name(name) => p.team_name matches Some(t) && contains_seq(
            lowercase(t@),
            lowercase(name@),
        ),
    }
}

/// Check if a player matches the given injury status filter.
pub fn matches_injury_filter(player: &PlayerStatus, filter: &InjuryStatusFilter) -> (out: bool)
    ensures
        out == injury_match(*player, *filter),
{
    match filter {
        InjuryStatusFilter::Active => {
            matches!(player.injury_status, Some(InjuryStatus::Active))
                || (player.injury_status.is_none() && player.injured != Some(true))
        },
        InjuryStatusFilter::Injured => {
            player.injured == Some(true) || match player.injury_status {
                Some(s) => s != InjuryStatus::Active,
                None => false,
            }
        },
        InjuryStatusFilter::Out => matches!(player.injury_status, Some(InjuryStatus::Out)),
        InjuryStatusFilter::Doubtful => matches!(player.injury_status, Some(InjuryStatus::Doubtful)),
        InjuryStatusFilter::Questionable => matches!(player.injury_status, Some(InjuryStatus::Questionable)),
        InjuryStatusFilter::Probable => matches!(player.injury_status, Some(InjuryStatus::Probable)),
        InjuryStatusFilter::DayToDay => matches!(player.injury_status, Some(InjuryStatus::DayToDay)),
        InjuryStatusFilter::IR => matches!(player.injury_status, Some(InjuryStatus::InjuryReserve)),
    }
}

/// Check if a player matches the given roster status filter.
pub fn matches_roster_filter(player: &PlayerStatus, filter: &RosterStatusFilter) -> (out: bool)
    ensures
        out == roster_match(*player, *filter),
{
    match filter {
        RosterStatusFilter::Rostered => match player.is_rostered {
            Some(r) => r,
            None => false,
        },
        RosterStatusFilter::FA => match player.is_rostered {
            Some(r) => !r,
            None => false,
        },
    }
}

/// Check if a player matches the given fantasy team filter.
pub fn matches_fantasy_team_filter(player: &PlayerStatus, filter: &FantasyTeamFilter) -> (out: bool)
    ensures
        out == team_match(*player, *filter),
{
    match filter {
        FantasyTeamFilter::Id(team_id) => player.team_id == Some(*team_id),
        FantasyTeamFilter::Name(filter_name) => {
            let filter_lower = lowercase_chars(&chars_of(filter_name.as_str()));
            match &player.team_name {
                Some(team_name) => {
                    let team_lower = lowercase_chars(&chars_of(team_name.as_str()));
                    contains_chars(&team_lower, &filter_lower)
                },
                None => false,
            }
        },
    }
}

/// The players that satisfy `keep`, in their order.
pub open spec fn kept(players: Seq<PlayerStatus>, keep: spec_fn(PlayerStatus) -> bool) -> Seq<PlayerStatus> {
    players.filter(keep)
}

/// The injury filter as a predicate.
pub open spec fn injury_keep(f: InjuryStatusFilter) -> spec_fn(PlayerStatus) -> bool {
    |p: PlayerStatus| injury_match(p, f)
}

/// The roster filter as a predicate.
pub open spec fn roster_keep(f: RosterStatusFilter) -> spec_fn(PlayerStatus) -> bool {
    |p: PlayerStatus| roster_match(p, f)
}

/// The team filter as a predicate.
pub open spec fn team_keep(f: FantasyTeamFilter) -> spec_fn(PlayerStatus) -> bool {
    |p: PlayerStatus| team_match(p, f)
}

/// Keep the players matching the injury filter, in order.
pub fn apply_injury_filter(players: &mut Vec<PlayerStatus>, filter: &InjuryStatusFilter)
    ensures
        final(players)@ == old(players)@.filter(injury_keep(*filter)),
{
    let ghost orig = players@;
    let mut out: Vec<PlayerStatus> = Vec::new();
    let mut i: usize = 0;
    while i < players.len()
        invariant
            i <= players@.len(),
            players@ == orig,
            out@ == orig.take(i as int).filter(injury_keep(*filter)),
        decreases players@.len() - i,
    {
        proof {
            reveal(Seq::filter);
            assert(orig.take(i + 1).drop_last() =~= orig.take(i as int));
            assert(orig.take(i + 1).last() == orig[i as int]);
        }
        if matches_injury_filter(&players[i], filter) {
            out.push(copy_status(&players[i]));
        }
        i = i + 1;
    }
    proof {
        assert(orig.take(i as int) =~= orig);
    }
    *players = out;
}

/// Keep the players matching the roster filter, in order.
pub fn apply_roster_filter(players: &mut Vec<PlayerStatus>, filter: &RosterStatusFilter)
    ensures
        final(players)@ == old(players)@.filter(roster_keep(*filter)),
{
    let ghost orig = players@;
    let mut out: Vec<PlayerStatus> = Vec::new();
    let mut i: usize = 0;
    while i < players.len()
        invariant
            i <= players@.len(),
            players@ == orig,
            out@ == orig.take(i as int).filter(roster_keep(*filter)),
        decreases players@.len() - i,
    {
        proof {
            reveal(Seq::filter);
            assert(orig.take(i + 1).drop_last() =~= orig.take(i as int));
            assert(orig.take(i + 1).last() == orig[i as int]);
        }
        if matches_roster_filter(&players[i], filter) {
            out.push(copy_status(&players[i]));
        }
        i = i + 1;
    }
    proof {
        assert(orig.take(i as int) =~= orig);
    }
    *players = out;
}

/// Keep the players matching the fantasy team filter, in order.
pub fn apply_fantasy_team_filter(players: &mut Vec<PlayerStatus>, filter: &FantasyTeamFilter)
    ensures
        final(players)@ == old(players)@.filter(team_keep(*filter)),
{
    let ghost orig = players@;
    let mut out: Vec<PlayerStatus> = Vec::new();
    let mut i: usize = 0;
    while i < players.len()
        invariant
            i <= players@.len(),
            players@ == orig,
            out@ == orig.take(i as int).filter(team_keep(*filter)),
        decreases players@.len() - i,
    {
        proof {
            reveal(Seq::filter);
            assert(orig.take(i + 1).drop_last() =~= orig.take(i as int));
            assert(orig.take(i + 1).last() == orig[i as int]);
        }
        if matches_fantasy_team_filter(&players[i], filter) {
            out.push(copy_status(&players[i]));
        }
        i = i + 1;
    }
    proof {
        assert(orig.take(i as int) =~= orig);
    }
    *players = out;
}

/// The players left by the injury, roster and team filters that are given, in order.
pub open spec fn status_filtered(
    players: Seq<PlayerStatus>,
    injury: Option<InjuryStatusFilter>,
    roster: Option<RosterStatusFilter>,
    team: Option<FantasyTeamFilter>,
) -> Seq<PlayerStatus> {
    let a = match injury { Some(f) => players.filter(injury_keep(f)), None => players };
    let b = match roster { Some(f) => a.filter(roster_keep(f)), None => a };
    match team { Some(f) => b.filter(team_keep(f)), None => b }
}

/// Apply the injury, roster and fantasy team filters that are given.
pub fn apply_status_filters(
    players: &mut Vec<PlayerStatus>,
    injury_filter: Option<&InjuryStatusFilter>,
    roster_filter: Option<&RosterStatusFilter>,
    fantasy_team_filter: Option<&FantasyTeamFilter>,
)
    ensures
        final(players)@ == status_filtered(
            old(players)@,
            match injury_filter { Some(f) => Some(*f), None => None },
            match roster_filter { Some(f) => Some(*f), None => None },
            match fantasy_team_filter { Some(f) => Some(*f), None => None },
        ),
{
    if let Some(filter) = injury_filter {
        apply_injury_filter(players, filter);
    }
    if let Some(filter) = roster_filter {
        apply_roster_filter(players, filter);
    }
    if let Some(filter) = fantasy_team_filter {
        apply_fantasy_team_filter(players, filter);
    }
}

/// A player's status once the league's rosters are known: rostered, with its team, when a
/// roster lists its exact id; otherwise known not to be rostered.
pub open spec fn with_roster(p: PlayerStatus, teams: Seq<crate::espn::types::Team>) -> PlayerStatus {
    match crate::espn::types::roster_team_index(teams, p.id.0) {
        Some(i) => PlayerStatus {
            is_rostered: Some(true),
            team_id: Some(teams[i].id),
            team_name: crate::espn::types::placement_of(teams[i]).team_name,
            ..p
        },
        None => PlayerStatus { is_rostered: Some(false), ..p },
    }
}

/// Record which players the league's rosters list, and on which team (when several rosters
/// list a player, the last team wins).
pub fn update_player_points_with_roster(league: &crate::espn::types::LeagueData, players: &mut Vec<PlayerStatus>)
    ensures
        final(players)@.len() == old(players)@.len(),
        forall|i: int| 0 <= i < final(players)@.len() ==> #[trigger] final(players)@[i] == with_roster(
            old(players)@[i],
            league.teams@,
        ),
{
    broadcast use vstd::std_specs::hash::group_hash_axioms;
    let map = league.create_player_roster_map();
    let ghost orig = players@;
    let mut out: Vec<PlayerStatus> = Vec::new();
    let mut i: usize = 0;
    while i < players.len()
        invariant
            i <= orig.len(),
            players@ == orig,
            out@.len() == i,
            forall|player: i64| #[trigger] map@.contains_key(player) <==> crate::espn::types::roster_team_index(
                league.teams@,
                player,
            ) is Some,
            forall|player: i64| #[trigger] map@.contains_key(player) ==> map@[player]
                == crate::espn::types::placement_of(league.teams@[crate::espn::types::roster_team_index(league.teams@, player)->0]),
            forall|k: int| 0 <= k < i ==> #[trigger] out@[k] == with_roster(orig[k], league.teams@),
        decreases orig.len() - i,
    {
        let mut p = copy_status(&players[i]);
        let key = p.id.as_i64();
        match map.get(&key) {
            Some(placement) => {
                p.is_rostered = Some(true);
                p.team_id = Some(placement.team_id);
                p.team_name = match &placement.team_name {
                    Some(n) => Some(n.clone()),
                    None => None,
                };
            },
            None => {
                p.is_rostered = Some(false);
            },
        }
        out.push(p);
        i = i + 1;
    }
    *players = out;
}

/// Apply roster data fetched beforehand; without it every player's roster status becomes
/// unknown.
pub fn update_player_points_with_roster_data(
    players: &mut Vec<PlayerStatus>,
    roster_data: Option<&crate::espn::types::LeagueData>,
)
    ensures
        final(players)@.len() == old(players)@.len(),
        match roster_data {
            Some(league) => forall|i: int| 0 <= i < final(players)@.len() ==> #[trigger] final(players)@[i]
                == with_roster(old(players)@[i], league.teams@),
            None => forall|i: int| 0 <= i < final(players)@.len() ==> #[trigger] final(players)@[i]
                == (PlayerStatus { is_rostered: None, ..old(players)@[i] }),
        },
{
    if players.len() == 0 {
        return;
    }
    match roster_data {
        Some(league) => update_player_points_with_roster(league, players),
        None => {
            let ghost orig = players@;
            let mut out: Vec<PlayerStatus> = Vec::new();
            let mut i: usize = 0;
            while i < players.len()
                invariant
                    i <= orig.len(),
                    players@ == orig,
                    out@.len() == i,
                    forall|k: int| 0 <= k < i ==> #[trigger] out@[k] == (PlayerStatus { is_rostered: None, ..orig[k] }),
                decreases orig.len() - i,
            {
                let mut p = copy_status(&players[i]);
                p.is_rostered = None;
                out.push(p);
                i = i + 1;
            }
            *players = out;
        },
    }
}

} // verus!

verus! {

/// The health tag of a player's line: its designation in brackets, else `[Injured]` when it
/// is flagged injured, else `[Active]`.
pub open spec fn status_tag_text(p: PlayerStatus) -> Seq<char> {
    match p.injury_status {
        Some(s) => "["@ + crate::espn::types::injury_label(s) + "]"@,
        None => if p.injured == Some(true) { "[Injured]"@ } else { "[Active]"@ },
    }
}

/// The health tag printed beside a player.
pub fn status_tag(p: &PlayerStatus) -> (out: String)
    ensures
        out@ == status_tag_text(*p),
{
    match p.injury_status {
        Some(s) => {
            let mut t = chars_of("[");
            crate::text::append_chars(&mut t, &chars_of(s.as_str().as_str()));
            crate::text::append_chars(&mut t, &chars_of("]"));
            crate::text::string_of(&t)
        },
        None => if p.injured == Some(true) {
            crate::text::string_of(&chars_of("[Injured]"))
        } else {
            crate::text::string_of(&chars_of("[Active]"))
        },
    }
}

/// The roster tag of a player's line: ` (<team>)` when rostered on a named team,
/// `(Rostered)` when rostered on an unnamed one, `(FA)` for a free agent, nothing when
/// unknown.
pub open spec fn roster_tag_text(p: PlayerStatus) -> Seq<char> {
    match p.is_rostered {
        Some(true) => match p.team_name {
            Some(t) => " ("@ + t@ + ")"@,
            None => "(Rostered)"@,
        },
        Some(false) => "(FA)"@,
        None => Seq::empty(),
    }
}

/// The roster tag printed beside a player.
pub fn roster_tag(p: &PlayerStatus) -> (out: String)
    ensures
        out@ == roster_tag_text(*p),
{
    match p.is_rostered {
        Some(true) => match &p.team_name {
            Some(t) => {
                let mut c = chars_of(" (");
                crate::text::append_chars(&mut c, &chars_of(t.as_str()));
                crate::text::append_chars(&mut c, &chars_of(")"));
                crate::text::string_of(&c)
            },
            None => crate::text::string_of(&chars_of("(Rostered)")),
        },
        Some(false) => crate::text::string_of(&chars_of("(FA)")),
        None => crate::text::string_of(&Vec::new()),
    }
}

/// Whether one of the filter positions passes `p`.
pub open spec fn passes_any(fs: Seq<crate::cli::types::position::Position>, p: crate::cli::types::position::Position) -> bool {
    exists|k: int| 0 <= k < fs.len() && #[trigger] crate::commands::draft_board::position_passes(fs[k], p)
}

/// Whether a projection estimate stays in the analysis by its stored position label: a
/// recognised position must be one the league can start and, with a position filter, pass
/// it (FLEX, bench and IR read as slots); an unrecognised label passes only without a
/// filter.
pub open spec fn estimate_position_kept(
    label: Seq<char>,
    rosterable: Seq<crate::cli::types::position::Position>,
    filter: Option<Seq<crate::cli::types::position::Position>>,
) -> bool {
    match crate::cli::types::position::position_named(crate::text::upper_key(label)) {
        Some(p) => rosterable.contains(p) && match filter {
            Some(fs) => passes_any(fs, p),
            None => true,
        },
        None => filter is None,
    }
}

/// Decide whether a projection estimate is kept, by its position label.
pub fn estimate_position_ok(
    label: &str,
    rosterable: &[crate::cli::types::position::Position],
    filter: Option<&[crate::cli::types::position::Position]>,
) -> (out: bool)
    ensures
        out == estimate_position_kept(label@, rosterable@, match filter { Some(f) => Some(f@), None => None }),
{
    match crate::cli::types::position::Position::from_str(label) {
        Ok(p) => {
            let mut allowed = false;
            let mut i: usize = 0;
            while i < rosterable.len()
                invariant
                    i <= rosterable@.len(),
                    allowed == exists|k: int| 0 <= k < i && rosterable@[k] == p,
                decreases rosterable@.len() - i,
            {
                if rosterable[i] == p {
                    allowed = true;
                }
                i = i + 1;
            }
            assert(allowed ==> rosterable@.contains(p)) by {
                if allowed {
                    let k = choose|k: int| 0 <= k < i && rosterable@[k] == p;
                    assert(rosterable@[k] == p);
                }
            }
            if !allowed {
                return false;
            }
            match filter {
                Some(fs) => {
                    let mut j: usize = 0;
                    while j < fs.len()
                        invariant
                            j <= fs@.len(),
                            filter == Some(fs),
                            rosterable@.contains(p),
                            crate::cli::types::position::position_named(crate::text::upper_key(label@)) == Some(p),
                            forall|k: int| 0 <= k < j ==> !#[trigger] crate::commands::draft_board::position_passes(fs@[k], p),
                        decreases fs@.len() - j,
                    {
                        if crate::commands::draft_board::slot_aware_match(fs[j], p) {
                            proof {
                                assert(crate::commands::draft_board::position_passes(fs@[j as int], p));
                                assert(passes_any(fs@, p));
                            }
                            return true;
                        }
                        j = j + 1;
                    }
                    false
                },
                None => true,
            }
        },
        Err(_) => filter.is_none(),
    }
}

} // verus!
