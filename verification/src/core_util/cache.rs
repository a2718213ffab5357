//! The keys cached responses are stored under.
//!
//! Each key renders to a file name (without the `.json` extension) that names every
//! parameter the cached query depended on. Keys made of numbers alone never collide; keys
//! that embed free text (player and team names) are told apart as far as that text allows.

use crate::cli::types::filters::{
    injury_filter_label, roster_filter_label, FantasyTeamFilter, InjuryStatusFilter,
    RosterStatusFilter,
};
use crate::cli::types::ids::{LeagueId, PlayerId};
use crate::cli::types::position::{label_chars, label_of, Position};
use crate::cli::types::time::{Season, Week};
use crate::text::{
    append_chars, char_views, chars_of, decimal, join_chars, join_with, lowercase,
    lowercase_chars, signed_decimal, string_of, string_views, u64_to_decimal, i64_to_decimal,
};
use vstd::prelude::*;

verus! {

/// A key under which a cached value is stored, in memory and on disk.
pub trait CacheKey {
    /// The file name (without extension) the key stands for.
    spec fn file_key(&self) -> Seq<char>;

    /// Render the key as a file name (without extension).
    fn to_file_key(&self) -> (out: String)
        ensures
            out@ == self.file_key(),
    ;
}

/// `s` with every space turned into an underscore (`str::replace(' ', "_")`).
pub open spec fn spaces_to_underscores(s: Seq<char>) -> Seq<char> {
    s.map_values(|c: char| if c == ' ' { '_' } else { c })
}

/// The names part of a key: `names_` and the names joined by `_`, or `all_names`.
pub open spec fn names_part(names: Option<Seq<Seq<char>>>) -> Seq<char> {
    match names {
        Some(ns) => "names_"@ + join_with(ns, "_"@),
        None => "all_names"@,
    }
}

/// The positions part of a key: `pos_` and the labels joined by `_`, or `all_pos`.
pub open spec fn positions_part(positions: Option<Seq<Position>>) -> Seq<char> {
    match positions {
        Some(ps) => "pos_"@ + join_with(ps.map_values(|p: Position| label_of(p)), "_"@),
        None => "all_pos"@,
    }
}

/// The injury part of a key: `inj_` and the lower-cased filter label, or `all_inj`.
pub open spec fn injury_part(f: Option<InjuryStatusFilter>) -> Seq<char> {
    match f {
        Some(s) => "inj_"@ + lowercase(injury_filter_label(s)),
        None => "all_inj"@,
    }
}

/// The roster part of a key: `ros_` and the lower-cased filter label, or `all_ros`.
pub open spec fn roster_part(f: Option<RosterStatusFilter>) -> Seq<char> {
    match f {
        Some(s) => "ros_"@ + lowercase(roster_filter_label(s)),
        None => "all_ros"@,
    }
}

/// The team part of a key: `team_id_<id>`, `team_name_<name>` (lower-cased, spaces as
/// underscores), or `all_teams`.
pub open spec fn team_part(f: Option<FantasyTeamFilter>) -> Seq<char> {
    match f {
        Some(FantasyTeamFilter::Id(id)) => "team_id_"@ + decimal(id as nat),
        Some(FantasyTeamFilter::Name(name)) => "team_name_"@ + spaces_to_underscores(lowercase(name@)),
        None => "all_teams"@,
    }
}

/// `proj` for projected figures, `actual` for recorded ones.
pub open spec fn kind_part(projected: bool) -> Seq<char> {
    if projected { "proj"@ } else { "actual"@ }
}

/// The views of an optional list of names.
pub open spec fn names_view(names: Option<Vec<String>>) -> Option<Seq<Seq<char>>> {
    match names {
        Some(ns) => Some(string_views(ns@)),
        None => None,
    }
}

/// The view of an optional list of positions.
pub open spec fn positions_view(positions: Option<Vec<Position>>) -> Option<Seq<Position>> {
    match positions {
        Some(ps) => Some(ps@),
        None => None,
    }
}

fn names_chars(names: &Option<Vec<String>>) -> (out: Vec<char>)
    ensures
        out@ == names_part(names_view(*names)),
{
    match names {
        Some(ns) => {
            let mut parts: Vec<Vec<char>> = Vec::new();
            let mut i: usize = 0;
            while i < ns.len()
                invariant
                    i <= ns@.len(),
                    char_views(parts@) == string_views(ns@).take(i as int),
                decreases ns@.len() - i,
            {
                let ghost before = char_views(parts@);
                let c = chars_of(ns[i].as_str());
                parts.push(c);
                proof {
                    assert(char_views(parts@) =~= before.push(ns@[i as int]@));
                    assert(string_views(ns@).take(i + 1) =~= string_views(ns@).take(i as int).push(ns@[i as int]@));
                }
                i = i + 1;
            }
            proof {
                assert(string_views(ns@).take(i as int) =~= string_views(ns@));
            }
            let mut out = chars_of("names_");
            append_chars(&mut out, &join_chars(&parts, &chars_of("_")));
            out
        },
        None => chars_of("all_names"),
    }
}

fn positions_chars(positions: &Option<Vec<Position>>) -> (out: Vec<char>)
    ensures
        out@ == positions_part(positions_view(*positions)),
{
    match positions {
        Some(ps) => {
            let ghost labels = ps@.map_values(|p: Position| label_of(p));
            let mut parts: Vec<Vec<char>> = Vec::new();
            let mut i: usize = 0;
            while i < ps.len()
                invariant
                    i <= ps@.len(),
                    labels == ps@.map_values(|p: Position| label_of(p)),
                    char_views(parts@) == labels.take(i as int),
                decreases ps@.len() - i,
            {
                let ghost before = char_views(parts@);
                let c = label_chars(ps[i]);
                parts.push(c);
                proof {
                    assert(char_views(parts@) =~= before.push(label_of(ps@[i as int])));
                    assert(labels.take(i + 1) =~= labels.take(i as int).push(label_of(ps@[i as int])));
                }
                i = i + 1;
            }
            proof {
                assert(labels.take(i as int) =~= labels);
            }
            let mut out = chars_of("pos_");
            append_chars(&mut out, &join_chars(&parts, &chars_of("_")));
            out
        },
        None => chars_of("all_pos"),
    }
}

fn spaces_to_underscores_chars(s: &[char]) -> (out: Vec<char>)
    ensures
        out@ == spaces_to_underscores(s@),
{
    let mut out: Vec<char> = Vec::new();
    let mut i: usize = 0;
    while i < s.len()
        invariant
            i <= s@.len(),
            out@ == spaces_to_underscores(s@.take(i as int)),
        decreases s@.len() - i,
    {
        let c = s[i];
        out.push(if c == ' ' { '_' } else { c });
        proof {
            assert(spaces_to_underscores(s@.take(i + 1)) =~= spaces_to_underscores(s@.take(i as int)).push(
                if c == ' ' { '_' } else { c },
            ));
        }
        i = i + 1;
    }
    proof {
        assert(s@.take(i as int) =~= s@);
    }
    out
}

fn injury_chars(f: &Option<InjuryStatusFilter>) -> (out: Vec<char>)
    ensures
        out@ == injury_part(*f),
{
    match f {
        Some(s) => {
            let label = s.to_string();
            let mut out = chars_of("inj_");
            append_chars(&mut out, &lowercase_chars(&chars_of(label.as_str())));
            out
        },
        None => chars_of("all_inj"),
    }
}

fn roster_chars(f: &Option<RosterStatusFilter>) -> (out: Vec<char>)
    ensures
        out@ == roster_part(*f),
{
    match f {
        Some(s) => {
            let label = s.to_string();
            let mut out = chars_of("ros_");
            append_chars(&mut out, &lowercase_chars(&chars_of(label.as_str())));
            out
        },
        None => chars_of("all_ros"),
    }
}

fn team_chars(f: &Option<FantasyTeamFilter>) -> (out: Vec<char>)
    ensures
        out@ == team_part(*f),
{
    match f {
        Some(FantasyTeamFilter::Id(id)) => {
            let mut out = chars_of("team_id_");
            append_chars(&mut out, &u64_to_decimal(*id as u64));
            out
        },
        Some(FantasyTeamFilter::Name(name)) => {
            let lowered = lowercase_chars(&chars_of(name.as_str()));
            let mut out = chars_of("team_name_");
            append_chars(&mut out, &spaces_to_underscores_chars(&lowered));
            out
        },
        None => chars_of("all_teams"),
    }
}

fn kind_chars(projected: bool) -> (out: Vec<char>)
    ensures
        out@ == kind_part(projected),
{
    if projected { chars_of("proj") } else { chars_of("actual") }
}

/// Cache key for player data queries against the local database.
#[derive(Debug, Clone, PartialEq, Eq, Hash)]
pub struct PlayerDataCacheKey {
    pub season: Season,
    pub week: Week,
    pub player_names: Option<Vec<String>>,
    pub positions: Option<Vec<Position>>,
    pub projected: bool,
    pub injury_status: Option<InjuryStatusFilter>,
    pub roster_status: Option<RosterStatusFilter>,
    pub fantasy_team_filter: Option<FantasyTeamFilter>,
}

/// `player_data_s<season>_w<week>_<names>_<positions>_<injury>_<roster>_<team>_<kind>`.
pub open spec fn player_data_file_key(k: PlayerDataCacheKey) -> Seq<char> {
    "player_data_s"@ + decimal(k.season.0 as nat) + "_w"@ + decimal(k.week.0 as nat) + "_"@
        + names_part(names_view(k.player_names)) + "_"@ + positions_part(positions_view(k.positions))
        + "_"@ + injury_part(k.injury_status) + "_"@ + roster_part(k.roster_status) + "_"@
        + team_part(k.fantasy_team_filter) + "_"@ + kind_part(k.projected)
}

impl CacheKey for PlayerDataCacheKey {
    open spec fn file_key(&self) -> Seq<char> {
        player_data_file_key(*self)
    }

    fn to_file_key(&self) -> (out: String) {
        let mut out = chars_of("player_data_s");
        append_chars(&mut out, &u64_to_decimal(self.season.as_u16() as u64));
        append_chars(&mut out, &chars_of("_w"));
        append_chars(&mut out, &u64_to_decimal(self.week.as_u16() as u64));
        append_chars(&mut out, &chars_of("_"));
        append_chars(&mut out, &names_chars(&self.player_names));
        append_chars(&mut out, &chars_of("_"));
        append_chars(&mut out, &positions_chars(&self.positions));
        append_chars(&mut out, &chars_of("_"));
        append_chars(&mut out, &injury_chars(&self.injury_status));
        append_chars(&mut out, &chars_of("_"));
        append_chars(&mut out, &roster_chars(&self.roster_status));
        append_chars(&mut out, &chars_of("_"));
        append_chars(&mut out, &team_chars(&self.fantasy_team_filter));
        append_chars(&mut out, &chars_of("_"));
        append_chars(&mut out, &kind_chars(self.projected));
        string_of(&out)
    }
}

/// Cache key for one player's stats in one week.
#[derive(Debug, Clone, Copy, PartialEq, Eq, Hash)]
pub struct WeeklyStatsCacheKey {
    pub player_id: PlayerId,
    pub season: Season,
    pub week: Week,
}

/// `weekly_stats_p<player>_s<season>_w<week>`.
pub open spec fn weekly_stats_file_key(k: WeeklyStatsCacheKey) -> Seq<char> {
    "weekly_stats_p"@ + signed_decimal(k.player_id.0 as int) + "_s"@ + decimal(k.season.0 as nat)
        + "_w"@ + decimal(k.week.0 as nat)
}

impl CacheKey for WeeklyStatsCacheKey {
    open spec fn file_key(&self) -> Seq<char> {
        weekly_stats_file_key(*self)
    }

    fn to_file_key(&self) -> (out: String) {
        let mut out = chars_of("weekly_stats_p");
        append_chars(&mut out, &i64_to_decimal(self.player_id.as_i64()));
        append_chars(&mut out, &chars_of("_s"));
        append_chars(&mut out, &u64_to_decimal(self.season.as_u16() as u64));
        append_chars(&mut out, &chars_of("_w"));
        append_chars(&mut out, &u64_to_decimal(self.week.as_u16() as u64));
        string_of(&out)
    }
}

/// Cache key for a league's settings.
#[derive(Debug, Clone, Copy, PartialEq, Eq, Hash)]
pub struct LeagueSettingsCacheKey {
    pub league_id: LeagueId,
    pub season: Season,
}

/// `league_settings_l<league>_s<season>`.
pub open spec fn league_settings_file_key(k: LeagueSettingsCacheKey) -> Seq<char> {
    "league_settings_l"@ + decimal(k.league_id.0 as nat) + "_s"@ + decimal(k.season.0 as nat)
}

impl CacheKey for LeagueSettingsCacheKey {
    open spec fn file_key(&self) -> Seq<char> {
        league_settings_file_key(*self)
    }

    fn to_file_key(&self) -> (out: String) {
        let mut out = chars_of("league_settings_l");
        append_chars(&mut out, &u64_to_decimal(self.league_id.as_u32() as u64));
        append_chars(&mut out, &chars_of("_s"));
        append_chars(&mut out, &u64_to_decimal(self.season.as_u16() as u64));
        string_of(&out)
    }
}

/// Cache key for a player data request sent to ESPN.
#[derive(Debug, Clone, PartialEq, Eq, Hash)]
pub struct HttpPlayerDataCacheKey {
    pub league_id: LeagueId,
    pub season: Season,
    pub week: Week,
    pub player_names: Option<Vec<String>>,
    pub positions: Option<Vec<Position>>,
    pub projected: bool,
}

/// `http_player_data_l<league>_s<season>_w<week>_<names>_<positions>_<kind>`.
pub open spec fn http_player_data_file_key(k: HttpPlayerDataCacheKey) -> Seq<char> {
    "http_player_data_l"@ + decimal(k.league_id.0 as nat) + "_s"@ + decimal(k.season.0 as nat)
        + "_w"@ + decimal(k.week.0 as nat) + "_"@ + names_part(names_view(k.player_names)) + "_"@
        + positions_part(positions_view(k.positions)) + "_"@ + kind_part(k.projected)
}

impl CacheKey for HttpPlayerDataCacheKey {
    open spec fn file_key(&self) -> Seq<char> {
        http_player_data_file_key(*self)
    }

    fn to_file_key(&self) -> (out: String) {
        let mut out = chars_of("http_player_data_l");
        append_chars(&mut out, &u64_to_decimal(self.league_id.as_u32() as u64));
        append_chars(&mut out, &chars_of("_s"));
        append_chars(&mut out, &u64_to_decimal(self.season.as_u16() as u64));
        append_chars(&mut out, &chars_of("_w"));
        append_chars(&mut out, &u64_to_decimal(self.week.as_u16() as u64));
        append_chars(&mut out, &chars_of("_"));
        append_chars(&mut out, &names_chars(&self.player_names));
        append_chars(&mut out, &chars_of("_"));
        append_chars(&mut out, &positions_chars(&self.positions));
        append_chars(&mut out, &chars_of("_"));
        append_chars(&mut out, &kind_chars(self.projected));
        string_of(&out)
    }
}

/// Cache key for a league's rosters, for one week or the current one.
#[derive(Debug, Clone, Copy, PartialEq, Eq, Hash)]
pub struct RosterDataCacheKey {
    pub league_id: LeagueId,
    pub season: Season,
    pub week: Option<Week>,
}

/// `roster_data_l<league>_s<season>_w<week>`, or `..._current` without a week.
pub open spec fn roster_data_file_key(k: RosterDataCacheKey) -> Seq<char> {
    "roster_data_l"@ + decimal(k.league_id.0 as nat) + "_s"@ + decimal(k.season.0 as nat) + "_"@
        + match k.week {
            Some(w) => "w"@ + decimal(w.0 as nat),
            None => "current"@,
        }
}

impl CacheKey for RosterDataCacheKey {
    open spec fn file_key(&self) -> Seq<char> {
        roster_data_file_key(*self)
    }

    fn to_file_key(&self) -> (out: String) {
        let mut out = chars_of("roster_data_l");
        append_chars(&mut out, &u64_to_decimal(self.league_id.as_u32() as u64));
        append_chars(&mut out, &chars_of("_s"));
        append_chars(&mut out, &u64_to_decimal(self.season.as_u16() as u64));
        append_chars(&mut out, &chars_of("_"));
        match self.week {
            Some(w) => {
                append_chars(&mut out, &chars_of("w"));
                append_chars(&mut out, &u64_to_decimal(w.as_u16() as u64));
            },
            None => append_chars(&mut out, &chars_of("current")),
        }
        string_of(&out)
    }
}

proof fn lemma_kind_last(projected: bool)
    ensures
        kind_part(projected).len() > 0,
        kind_part(projected).last() == (if projected { 'j' } else { 'l' }),
{
    reveal_strlit("proj");
    reveal_strlit("actual");
}

/// Projected and recorded figures never share a cache entry: two player data keys that
/// differ in `projected` render to different file names.
pub proof fn lemma_projected_and_actual_keys_differ(a: PlayerDataCacheKey, b: PlayerDataCacheKey)
    requires
        a.projected != b.projected,
    ensures
        player_data_file_key(a) != player_data_file_key(b),
{
    lemma_kind_last(a.projected);
    lemma_kind_last(b.projected);
    let ka = player_data_file_key(a);
    let kb = player_data_file_key(b);
    assert(ka.last() == kind_part(a.projected).last());
    assert(kb.last() == kind_part(b.projected).last());
}

/// The same holds of the keys for player data requests sent to ESPN.
pub proof fn lemma_projected_and_actual_request_keys_differ(a: HttpPlayerDataCacheKey, b: HttpPlayerDataCacheKey)
    requires
        a.projected != b.projected,
    ensures
        http_player_data_file_key(a) != http_player_data_file_key(b),
{
    lemma_kind_last(a.projected);
    lemma_kind_last(b.projected);
    let ka = http_player_data_file_key(a);
    let kb = http_player_data_file_key(b);
    assert(ka.last() == kind_part(a.projected).last());
    assert(kb.last() == kind_part(b.projected).last());
}

} // verus!

verus! {

/// The settings file of a season's league, in the cache directory:
/// `league-settings_<season>_<league>.json`.
pub open spec fn league_settings_file_text(season: u16, league_id: u32) -> Seq<char> {
    "league-settings_"@ + decimal(season as nat) + "_"@ + decimal(league_id as nat) + ".json"@
}

/// Name the file a season's league settings are kept in.
pub fn league_settings_file_name(season: u16, league_id: u32) -> (out: String)
    ensures
        out@ == league_settings_file_text(season, league_id),
{
    let mut out = chars_of("league-settings_");
    append_chars(&mut out, &u64_to_decimal(season as u64));
    append_chars(&mut out, &chars_of("_"));
    append_chars(&mut out, &u64_to_decimal(league_id as u64));
    append_chars(&mut out, &chars_of(".json"));
    string_of(&out)
}

/// Different seasons or leagues never share a settings file.
pub proof fn lemma_league_settings_files_distinct(season: u16, league_id: u32, season2: u16, league_id2: u32)
    requires
        season != season2 || league_id != league_id2,
    ensures
        league_settings_file_text(season, league_id) != league_settings_file_text(season2, league_id2),
{
    reveal_strlit("_");
    reveal_strlit(".json");
    let p = "league-settings_"@;
    let u = "_"@;
    let j = ".json"@;
    let (s1, l1) = (decimal(season as nat), decimal(league_id as nat));
    let (s2, l2) = (decimal(season2 as nat), decimal(league_id2 as nat));
    if league_settings_file_text(season, league_id) == league_settings_file_text(season2, league_id2) {
        let r1 = s1 + (u + (l1 + j));
        let r2 = s2 + (u + (l2 + j));
        assert(league_settings_file_text(season, league_id) =~= p + r1);
        assert(league_settings_file_text(season2, league_id2) =~= p + r2);
        assert(r1 =~= (p + r1).skip(p.len() as int));
        assert(r2 =~= (p + r2).skip(p.len() as int));
        crate::text::lemma_decimal_numeral(season as nat);
        crate::text::lemma_decimal_numeral(season2 as nat);
        crate::text::lemma_decimal_numeral(league_id as nat);
        crate::text::lemma_decimal_numeral(league_id2 as nat);
        crate::text::lemma_numeral_split(s1, u + (l1 + j), s2, u + (l2 + j));
        crate::text::lemma_decimal_injective(season as nat, season2 as nat);
        assert(l1 + j =~= (u + (l1 + j)).skip(1));
        assert(l2 + j =~= (u + (l2 + j)).skip(1));
        crate::text::lemma_numeral_split(l1, j, l2, j);
        crate::text::lemma_decimal_injective(league_id as nat, league_id2 as nat);
    }
}

/// Distinct leagues or seasons never share a settings cache entry.
pub proof fn lemma_league_settings_keys_distinct(a: LeagueSettingsCacheKey, b: LeagueSettingsCacheKey)
    requires
        a != b,
    ensures
        league_settings_file_key(a) != league_settings_file_key(b),
{
    reveal_strlit("_s");
    let p = "league_settings_l"@;
    let s = "_s"@;
    let (la, sa) = (decimal(a.league_id.0 as nat), decimal(a.season.0 as nat));
    let (lb, sb) = (decimal(b.league_id.0 as nat), decimal(b.season.0 as nat));
    if league_settings_file_key(a) == league_settings_file_key(b) {
        let ra = la + (s + sa);
        let rb = lb + (s + sb);
        assert(league_settings_file_key(a) =~= p + ra);
        assert(league_settings_file_key(b) =~= p + rb);
        assert(ra =~= (p + ra).skip(p.len() as int));
        assert(rb =~= (p + rb).skip(p.len() as int));
        crate::text::lemma_decimal_numeral(a.league_id.0 as nat);
        crate::text::lemma_decimal_numeral(b.league_id.0 as nat);
        crate::text::lemma_numeral_split(la, s + sa, lb, s + sb);
        crate::text::lemma_decimal_injective(a.league_id.0 as nat, b.league_id.0 as nat);
        assert(sa =~= (s + sa).skip(2));
        assert(sb =~= (s + sb).skip(2));
        crate::text::lemma_decimal_injective(a.season.0 as nat, b.season.0 as nat);
        assert(a.league_id == b.league_id);
        assert(a.season == b.season);
    }
}

/// The part of a roster key after the season.
pub open spec fn roster_week_part(week: Option<Week>) -> Seq<char> {
    match week {
        Some(w) => "w"@ + decimal(w.0 as nat),
        None => "current"@,
    }
}

proof fn lemma_roster_week_part_injective(a: Option<Week>, b: Option<Week>)
    ensures
        roster_week_part(a) == roster_week_part(b) ==> a == b,
{
    reveal_strlit("w");
    reveal_strlit("current");
    let (ta, tb) = (roster_week_part(a), roster_week_part(b));
    if ta == tb {
        match (a, b) {
            (Some(wa), Some(wb)) => {
                assert(decimal(wa.0 as nat) =~= ta.skip(1));
                assert(decimal(wb.0 as nat) =~= tb.skip(1));
                crate::text::lemma_decimal_injective(wa.0 as nat, wb.0 as nat);
                assert(wa == wb);
            },
            (Some(_), None) => {
                assert(ta[0] == 'w');
                assert(tb[0] == 'c');
            },
            (None, Some(_)) => {
                assert(ta[0] == 'c');
                assert(tb[0] == 'w');
            },
            (None, None) => {},
        }
    }
}

/// A season rendering followed by the week part splits back into both.
proof fn lemma_season_week_split(sa: nat, ta: Option<Week>, sb: nat, tb: Option<Week>)
    requires
        decimal(sa) + ("_"@ + roster_week_part(ta)) == decimal(sb) + ("_"@ + roster_week_part(tb)),
    ensures
        sa == sb,
        ta == tb,
{
    reveal_strlit("_");
    let u = "_"@;
    crate::text::lemma_decimal_numeral(sa);
    crate::text::lemma_decimal_numeral(sb);
    crate::text::lemma_numeral_split(decimal(sa), u + roster_week_part(ta), decimal(sb), u + roster_week_part(tb));
    crate::text::lemma_decimal_injective(sa, sb);
    assert(roster_week_part(ta) =~= (u + roster_week_part(ta)).skip(1));
    assert(roster_week_part(tb) =~= (u + roster_week_part(tb)).skip(1));
    lemma_roster_week_part_injective(ta, tb);
}

/// Distinct leagues, seasons or weeks (the current week included) never share a roster
/// cache entry.
#[verifier::rlimit(30)]
pub proof fn lemma_roster_keys_distinct(a: RosterDataCacheKey, b: RosterDataCacheKey)
    requires
        a != b,
    ensures
        roster_data_file_key(a) != roster_data_file_key(b),
{
    reveal_strlit("_s");
    let p = "roster_data_l"@;
    let s = "_s"@;
    let u = "_"@;
    let (la, lb) = (decimal(a.league_id.0 as nat), decimal(b.league_id.0 as nat));
    let ra_tail = decimal(a.season.0 as nat) + (u + roster_week_part(a.week));
    let rb_tail = decimal(b.season.0 as nat) + (u + roster_week_part(b.week));
    if roster_data_file_key(a) == roster_data_file_key(b) {
        let ra = la + (s + ra_tail);
        let rb = lb + (s + rb_tail);
        assert(roster_data_file_key(a) == p + la + s + decimal(a.season.0 as nat) + u + roster_week_part(a.week));
        assert(roster_data_file_key(b) == p + lb + s + decimal(b.season.0 as nat) + u + roster_week_part(b.week));
        assert(p + la + s + decimal(a.season.0 as nat) + u + roster_week_part(a.week) =~= p + ra);
        assert(p + lb + s + decimal(b.season.0 as nat) + u + roster_week_part(b.week) =~= p + rb);
        assert(ra =~= (p + ra).skip(p.len() as int));
        assert(rb =~= (p + rb).skip(p.len() as int));
        crate::text::lemma_decimal_numeral(a.league_id.0 as nat);
        crate::text::lemma_decimal_numeral(b.league_id.0 as nat);
        crate::text::lemma_numeral_split(la, s + ra_tail, lb, s + rb_tail);
        crate::text::lemma_decimal_injective(a.league_id.0 as nat, b.league_id.0 as nat);
        assert(ra_tail =~= (s + ra_tail).skip(2));
        assert(rb_tail =~= (s + rb_tail).skip(2));
        lemma_season_week_split(a.season.0 as nat, a.week, b.season.0 as nat, b.week);
        assert(a.league_id == b.league_id);
        assert(a.season == b.season);
    }
}

/// Distinct players, seasons or weeks never share a weekly stats cache entry.
pub proof fn lemma_weekly_stats_keys_distinct(a: WeeklyStatsCacheKey, b: WeeklyStatsCacheKey)
    requires
        a != b,
    ensures
        weekly_stats_file_key(a) != weekly_stats_file_key(b),
{
    reveal_strlit("_s");
    reveal_strlit("_w");
    let p = "weekly_stats_p"@;
    let s = "_s"@;
    let w = "_w"@;
    let (pa, sa, wa) = (signed_decimal(a.player_id.0 as int), decimal(a.season.0 as nat), decimal(a.week.0 as nat));
    let (pb, sb, wb) = (signed_decimal(b.player_id.0 as int), decimal(b.season.0 as nat), decimal(b.week.0 as nat));
    if weekly_stats_file_key(a) == weekly_stats_file_key(b) {
        let ra = pa + (s + (sa + (w + wa)));
        let rb = pb + (s + (sb + (w + wb)));
        assert(weekly_stats_file_key(a) =~= p + ra);
        assert(weekly_stats_file_key(b) =~= p + rb);
        assert(ra =~= (p + ra).skip(p.len() as int));
        assert(rb =~= (p + rb).skip(p.len() as int));
        crate::text::lemma_signed_decimal_numeral(a.player_id.0 as int);
        crate::text::lemma_signed_decimal_numeral(b.player_id.0 as int);
        crate::text::lemma_numeral_split(pa, s + (sa + (w + wa)), pb, s + (sb + (w + wb)));
        crate::text::lemma_signed_decimal_injective(a.player_id.0 as int, b.player_id.0 as int);
        assert(sa + (w + wa) =~= (s + (sa + (w + wa))).skip(2));
        assert(sb + (w + wb) =~= (s + (sb + (w + wb))).skip(2));
        crate::text::lemma_decimal_numeral(a.season.0 as nat);
        crate::text::lemma_decimal_numeral(b.season.0 as nat);
        crate::text::lemma_numeral_split(sa, w + wa, sb, w + wb);
        crate::text::lemma_decimal_injective(a.season.0 as nat, b.season.0 as nat);
        assert(wa =~= (w + wa).skip(2));
        assert(wb =~= (w + wb).skip(2));
        crate::text::lemma_decimal_injective(a.week.0 as nat, b.week.0 as nat);
        assert(a.player_id == b.player_id);
        assert(a.season == b.season);
        assert(a.week == b.week);
    }
}

} // verus!
