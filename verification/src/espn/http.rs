//! The decisions around requests to ESPN's fantasy API: where a request goes, what it asks
//! for, how long its answer may be cached, how requests are paced, and when a failed
//! request is tried again.
//!
//! Sending the requests is left to the caller; everything here is a plain function of its
//! arguments.

use crate::cli::types::filters::{InjuryStatusFilter, RosterStatusFilter};
use crate::cli::types::ids::LeagueId;
use crate::cli::types::position::{slot_of, Position};
use crate::cli::types::time::{civil_of, epoch_shift, in_month, season_of, Season, Week};
use crate::core_util::cache::HttpPlayerDataCacheKey;
use crate::core_util::filters::{build_players_filter, filter_for, PlayersFilter, SortDraftRanks, Val};
use crate::error::EspnError;
use crate::text::{
    append_chars, chars_of, decimal, parse_unsigned, parse_unsigned_chars, string_of, trim,
    trim_chars, u64_to_decimal,
};
use vstd::prelude::*;

verus! {

/// Base path for ESPN Fantasy Football v3 API.
pub const FFL_BASE_URL: &'static str = "https://lm-api-reads.fantasy.espn.com/apis/v3/games/ffl";

/// How many times a request that ESPN throttles or that fails transiently is attempted.
pub const MAX_ATTEMPTS: u32 = 4;

/// Base delay, in milliseconds, of the exponential backoff between attempts.
pub const RETRY_BASE_DELAY_MS: u64 = 750;

/// Longest wait, in seconds, that a `Retry-After` header can impose.
pub const RETRY_AFTER_CAP_SECS: u64 = 60;

/// How long, in seconds, a cached draft pool stays usable before it is fetched again.
pub const DRAFT_POOL_MAX_AGE: u64 = 21_600;

/// How long, in seconds, cached data for the season in progress stays usable.
///
/// Kept short because a live week moves: projections are revised through the week, rosters
/// churn on waivers, and actual points change play by play. Finished seasons are exempt
/// entirely (see [`season_cache_max_age`]).
pub const LIVE_SEASON_MAX_AGE: u64 = 1_800;

/// Minimum gap, in milliseconds, between consecutive requests to ESPN.
pub const MIN_REQUEST_INTERVAL_MS: u64 = 250;

/// Parameters for player data retrieval.
#[derive(Debug)]
pub struct PlayerDataRequest {
    pub league_id: LeagueId,
    pub season: Season,
    pub week: Week,
    pub debug: bool,
    pub refresh: bool,
    pub player_names: Option<Vec<String>>,
    pub positions: Option<Vec<Position>>,
    pub injury_status_filter: Option<InjuryStatusFilter>,
    pub roster_status_filter: Option<RosterStatusFilter>,
    /// Lineup slots to request when the caller gave no explicit position filter, so that
    /// ESPN does not send every player it tracks (individual defenders, punters, coaches)
    /// only for them to be discarded on arrival.
    pub fallback_slot_ids: Option<Vec<u8>>,
}

impl PlayerDataRequest {
    /// A request with the required fields and every option off.
    pub fn new(league_id: LeagueId, season: Season, week: Week) -> (out: Self)
        ensures
            out.league_id == league_id,
            out.season == season,
            out.week == week,
            !out.debug,
            !out.refresh,
            out.player_names is None,
            out.positions is None,
            out.injury_status_filter is None,
            out.roster_status_filter is None,
            out.fallback_slot_ids is None,
    {
        PlayerDataRequest {
            league_id,
            season,
            week,
            debug: false,
            refresh: false,
            player_names: None,
            positions: None,
            injury_status_filter: None,
            roster_status_filter: None,
            fallback_slot_ids: None,
        }
    }
}

/// Disk-cache lifetime, in seconds, of data for `season` while `current` is in progress:
/// none for a finished season, whose numbers are final, and [`LIVE_SEASON_MAX_AGE`] for the
/// season in progress or one not yet played.
pub open spec fn max_age_at(season: Season, current: Season) -> Option<u64> {
    if season.0 < current.0 { None } else { Some(LIVE_SEASON_MAX_AGE) }
}

/// Disk-cache lifetime, in seconds, of data for `season` while `current` is in progress.
pub fn cache_max_age_at(season: Season, current: Season) -> (out: Option<u64>)
    ensures
        out == max_age_at(season, current),
{
    if season.0 < current.0 { None } else { Some(LIVE_SEASON_MAX_AGE) }
}

/// Whether `s` is the season in progress at some moment.
pub open spec fn season_at_some_time(s: Season) -> bool {
    exists|secs: u64, y: int, mp: int| #[trigger] in_month(
        (secs / 86_400) as int + epoch_shift(),
        y,
        mp,
    ) && s.0 == season_of(civil_of(y, mp).0, civil_of(y, mp).1)
}

/// Disk-cache lifetime, in seconds, of data for `season`, judged against the season in
/// progress by the system clock.
pub fn season_cache_max_age(season: Season) -> (out: Option<u64>)
    ensures
        exists|now: Season| season_at_some_time(now) && out == max_age_at(season, now),
{
    let now = Season::current();
    assert(season_at_some_time(now));
    cache_max_age_at(season, now)
}

/// How long to wait before the next request, in milliseconds, when the previous one was
/// sent `elapsed_ms` ago (`None`: no request yet).
pub open spec fn pacing_wait(elapsed_ms: Option<u64>) -> nat {
    match elapsed_ms {
        Some(e) => if e < MIN_REQUEST_INTERVAL_MS { (MIN_REQUEST_INTERVAL_MS - e) as nat } else { 0 },
        None => 0,
    }
}

/// How long to wait before the next request so that requests are at least
/// [`MIN_REQUEST_INTERVAL_MS`] apart.
pub fn pacing_wait_ms(elapsed_ms: Option<u64>) -> (out: u64)
    ensures
        out == pacing_wait(elapsed_ms),
{
    match elapsed_ms {
        Some(e) => if e < MIN_REQUEST_INTERVAL_MS { MIN_REQUEST_INTERVAL_MS - e } else { 0 },
        None => 0,
    }
}

/// Requests are spaced at least [`MIN_REQUEST_INTERVAL_MS`] apart: the time since the
/// previous request plus the wait before the next one is never shorter than that.
pub proof fn lemma_requests_are_spaced(elapsed_ms: u64)
    ensures
        elapsed_ms + pacing_wait(Some(elapsed_ms)) >= MIN_REQUEST_INTERVAL_MS,
{
}

/// The backoff before retrying after failed attempt `attempt` (counted from 1):
/// [`RETRY_BASE_DELAY_MS`] doubled for each attempt after the first.
pub open spec fn backoff(attempt: nat) -> nat
    decreases attempt,
{
    if attempt <= 1 { RETRY_BASE_DELAY_MS as nat } else { 2 * backoff((attempt - 1) as nat) }
}

/// Without a `Retry-After` header, each retry of a throttled or failing request waits
/// twice as long as the one before.
pub proof fn lemma_backoff_doubles(attempt: nat, status: u16, debug: bool)
    requires
        1 <= attempt,
        attempt + 1 < MAX_ATTEMPTS,
        retryable(status),
    ensures
        retry_step(attempt + 1, status, None, debug) matches RetryStep::Retry { delay_ms: later, .. }
            && retry_step(attempt, status, None, debug) matches RetryStep::Retry { delay_ms: earlier, .. }
            && later == 2 * earlier,
{
    assert(backoff(attempt + 1) == 2 * backoff(attempt));
    assert(backoff(attempt) <= 750 * 4) by {
        assert(backoff(1) == 750);
        assert(backoff(2) == 1500);
        assert(backoff(3) == 3000);
    }
}

/// The backoff, in milliseconds, after failed attempt `attempt`.
pub fn backoff_ms(attempt: u32) -> (out: u64)
    requires
        1 <= attempt <= MAX_ATTEMPTS,
    ensures
        out == backoff(attempt as nat),
{
    let mut delay: u64 = RETRY_BASE_DELAY_MS;
    let mut k: u32 = 1;
    while k < attempt
        invariant
            1 <= k <= attempt <= MAX_ATTEMPTS,
            delay == backoff(k as nat),
            k == 1 ==> delay == 750,
            k == 2 ==> delay == 1_500,
            k == 3 ==> delay == 3_000,
            k == 4 ==> delay == 6_000,
        decreases attempt - k,
    {
        delay = delay * 2;
        k = k + 1;
    }
    delay
}

/// The wait a `Retry-After` header asks for, in whole seconds and capped at
/// [`RETRY_AFTER_CAP_SECS`]; `None` when the header is not a number.
pub open spec fn retry_after(raw: Seq<char>) -> Option<nat> {
    match parse_unsigned(trim(raw), u64::MAX as nat) {
        Some(v) => Some(if v < RETRY_AFTER_CAP_SECS { v } else { RETRY_AFTER_CAP_SECS as nat }),
        None => None,
    }
}

/// Parse a `Retry-After` header, which ESPN sends as whole seconds.
pub fn retry_after_secs(raw: &str) -> (out: Option<u64>)
    ensures
        match retry_after(raw@) {
            Some(v) => out == Some(v as u64),
            None => out is None,
        },
{
    let trimmed = trim_chars(&chars_of(raw));
    match parse_unsigned_chars(&trimmed, u64::MAX) {
        Some(v) => Some(if v < RETRY_AFTER_CAP_SECS { v } else { RETRY_AFTER_CAP_SECS }),
        None => None,
    }
}

/// What to do once an attempt has come back.
#[derive(Debug, Clone, Copy, PartialEq, Eq, Structural)]
pub enum RetryStep {
    /// Hand the response on: it succeeded, failed in a way a retry cannot fix, or was the
    /// last attempt.
    Finish,
    /// Wait `delay_ms` milliseconds and try again; `announce` says whether to tell the user.
    Retry { delay_ms: u64, announce: bool },
}

/// Whether an HTTP status is worth retrying: throttling (429) or a server error (5xx).
pub open spec fn retryable(status: u16) -> bool {
    status == 429 || (500 <= status && status < 600)
}

/// The step after attempt `attempt` came back with `status` and, perhaps, a `Retry-After`
/// header: retry a throttled or failed request with the header's wait, or the exponential
/// backoff without one, until the last attempt; announce the wait when debugging or
/// throttled.
pub open spec fn retry_step(attempt: nat, status: u16, header: Option<Seq<char>>, debug: bool) -> RetryStep {
    if !retryable(status) || attempt >= MAX_ATTEMPTS {
        RetryStep::Finish
    } else {
        let wait = match header {
            Some(h) => match retry_after(h) {
                Some(s) => s * 1000,
                None => backoff(attempt),
            },
            None => backoff(attempt),
        };
        RetryStep::Retry { delay_ms: wait as u64, announce: debug || status == 429 }
    }
}

/// The view of an optional header.
pub open spec fn header_view(h: Option<&str>) -> Option<Seq<char>> {
    match h {
        Some(s) => Some(s@),
        None => None,
    }
}

/// Decide what follows attempt `attempt` (counted from 1) of a request that came back with
/// `status` and the `Retry-After` header `retry_after_header`.
pub fn next_step(attempt: u32, status: u16, retry_after_header: Option<&str>, debug: bool) -> (out: RetryStep)
    requires
        1 <= attempt <= MAX_ATTEMPTS,
    ensures
        out == retry_step(attempt as nat, status, header_view(retry_after_header), debug),
{
    let throttled = status == 429;
    let retryable_status = throttled || (500 <= status && status < 600);
    if !retryable_status || attempt >= MAX_ATTEMPTS {
        return RetryStep::Finish;
    }
    let wait = match retry_after_header {
        Some(h) => match retry_after_secs(h) {
            Some(s) => s * 1000,
            None => backoff_ms(attempt),
        },
        None => backoff_ms(attempt),
    };
    RetryStep::Retry { delay_ms: wait, announce: debug || throttled }
}

/// Whether `HeaderValue::from_str` accepts a character: a tab, a visible ASCII character or
/// a space, or any non-ASCII character (all of whose UTF-8 bytes are at least 128).
pub open spec fn header_char_ok(c: char) -> bool {
    c == '\t' || ((c as u32) >= 32 && (c as u32) != 127)
}

/// Whether every character of `s` is accepted in a header value.
pub open spec fn header_text_ok(s: Seq<char>) -> bool {
    forall|i: int| 0 <= i < s.len() ==> header_char_ok(#[trigger] s[i])
}

/// `HeaderValue::from_str` (the `http` crate's, re-exported by reqwest): it accepts the
/// string exactly when every byte of it is at least 32 and not 127, or a tab, which for a
/// string is [`header_text_ok`]; its error displays as "failed to parse header value".
#[verifier::external_body]
fn check_header_value(s: &str) -> (out: Result<(), String>)
    ensures
        out is Ok <==> header_text_ok(s@),
        out matches Err(m) ==> m@ == "failed to parse header value"@,
{
    match reqwest::header::HeaderValue::from_str(s) {
        Ok(_) => Ok(()),
        Err(e) => Err(e.to_string()),
    }
}

/// The cookie ESPN authenticates private leagues with.
pub open spec fn cookie_text(swid: Seq<char>, s2: Seq<char>) -> Seq<char> {
    "SWID="@ + swid + "; espn_s2="@ + s2
}

/// The cookie header for the `ESPN_SWID` and `ESPN_S2` values: none unless both are set,
/// and an error when the cookie cannot stand in a header.
pub fn espn_cookie(swid: Option<&str>, s2: Option<&str>) -> (out: Result<Option<String>, EspnError>)
    ensures
        match (swid, s2) {
            (Some(a), Some(b)) => if header_text_ok(cookie_text(a@, b@)) {
                out matches Ok(Some(c)) && c@ == cookie_text(a@, b@)
            } else {
                out matches Err(EspnError::InvalidHeader { message }) && message@ == "failed to parse header value"@
            },
            _ => out matches Ok(None),
        },
{
    match (swid, s2) {
        (Some(a), Some(b)) => {
            let mut c = chars_of("SWID=");
            append_chars(&mut c, &chars_of(a));
            append_chars(&mut c, &chars_of("; espn_s2="));
            append_chars(&mut c, &chars_of(b));
            let cookie = string_of(&c);
            match check_header_value(cookie.as_str()) {
                Ok(()) => Ok(Some(cookie)),
                Err(message) => Err(EspnError::InvalidHeader { message }),
            }
        },
        _ => Ok(None),
    }
}

/// `<base>/seasons/<season>/segments/0/leagues/<league>`.
pub open spec fn league_url_text(season: Season, league_id: LeagueId) -> Seq<char> {
    FFL_BASE_URL@ + "/seasons/"@ + decimal(season.0 as nat) + "/segments/0/leagues/"@
        + decimal(league_id.0 as nat)
}

/// The URL of a league's endpoint.
pub fn league_url(season: Season, league_id: LeagueId) -> (out: String)
    ensures
        out@ == league_url_text(season, league_id),
{
    let mut c = chars_of(FFL_BASE_URL);
    append_chars(&mut c, &chars_of("/seasons/"));
    append_chars(&mut c, &u64_to_decimal(season.as_u16() as u64));
    append_chars(&mut c, &chars_of("/segments/0/leagues/"));
    append_chars(&mut c, &u64_to_decimal(league_id.as_u32() as u64));
    string_of(&c)
}

/// `<base>/seasons/<season>/players`.
pub open spec fn players_url_text(season: Season) -> Seq<char> {
    FFL_BASE_URL@ + "/seasons/"@ + decimal(season.0 as nat) + "/players"@
}

/// The URL of the players endpoint for a season.
pub fn players_url(season: Season) -> (out: String)
    ensures
        out@ == players_url_text(season),
{
    let mut c = chars_of(FFL_BASE_URL);
    append_chars(&mut c, &chars_of("/seasons/"));
    append_chars(&mut c, &u64_to_decimal(season.as_u16() as u64));
    append_chars(&mut c, &chars_of("/players"));
    string_of(&c)
}

/// The views of a list of query parameters.
pub open spec fn param_views(ps: Seq<(String, String)>) -> Seq<(Seq<char>, Seq<char>)> {
    ps.map_values(|p: (String, String)| (p.0@, p.1@))
}

fn param(key: &str, value: &str) -> (out: (String, String))
    ensures
        out.0@ == key@,
        out.1@ == value@,
{
    (string_of(&chars_of(key)), string_of(&chars_of(value)))
}

/// Query of a weekly player data request: the league, both player views and the week.
pub open spec fn player_data_params(league_id: LeagueId, week: Week) -> Seq<(Seq<char>, Seq<char>)> {
    seq![
        ("forLeagueId"@, decimal(league_id.0 as nat)),
        ("view"@, "kona_player_info"@),
        ("view"@, "players_wl"@),
        ("scoringPeriodId"@, decimal(week.0 as nat)),
    ]
}

/// The query parameters of a weekly player data request.
pub fn player_data_query(league_id: LeagueId, week: Week) -> (out: Vec<(String, String)>)
    ensures
        param_views(out@) == player_data_params(league_id, week),
{
    let league = string_of(&u64_to_decimal(league_id.as_u32() as u64));
    let period = string_of(&u64_to_decimal(week.as_u16() as u64));
    let out = vec![
        (string_of(&chars_of("forLeagueId")), league),
        param("view", "kona_player_info"),
        param("view", "players_wl"),
        (string_of(&chars_of("scoringPeriodId")), period),
    ];
    assert(param_views(out@) =~= player_data_params(league_id, week));
    out
}

/// Query of a draft pool request: the league, the player view and scoring period 0, under
/// which season totals live.
pub open spec fn draft_pool_params(league_id: LeagueId) -> Seq<(Seq<char>, Seq<char>)> {
    seq![
        ("forLeagueId"@, decimal(league_id.0 as nat)),
        ("view"@, "kona_player_info"@),
        ("scoringPeriodId"@, "0"@),
    ]
}

/// The query parameters of a draft pool request.
pub fn draft_pool_query(league_id: LeagueId) -> (out: Vec<(String, String)>)
    ensures
        param_views(out@) == draft_pool_params(league_id),
{
    let league = string_of(&u64_to_decimal(league_id.as_u32() as u64));
    let out = vec![
        (string_of(&chars_of("forLeagueId")), league),
        param("view", "kona_player_info"),
        param("scoringPeriodId", "0"),
    ];
    assert(param_views(out@) =~= draft_pool_params(league_id));
    out
}

/// Query of a roster request: the roster and team views, and the week when one is given.
pub open spec fn roster_params(week: Option<Week>) -> Seq<(Seq<char>, Seq<char>)> {
    seq![("view"@, "mRoster"@), ("view"@, "mTeam"@)] + match week {
        Some(w) => seq![("scoringPeriodId"@, decimal(w.0 as nat))],
        None => seq![],
    }
}

/// The query parameters of a roster request.
pub fn roster_query(week: Option<Week>) -> (out: Vec<(String, String)>)
    ensures
        param_views(out@) == roster_params(week),
{
    let mut out = vec![param("view", "mRoster"), param("view", "mTeam")];
    if let Some(w) = week {
        out.push((string_of(&chars_of("scoringPeriodId")), string_of(&u64_to_decimal(w.as_u16() as u64))));
    }
    assert(param_views(out@) =~= roster_params(week));
    out
}

/// Query of a league view request: one `view` parameter per view, in order.
pub open spec fn league_view_params(views: Seq<&str>) -> Seq<(Seq<char>, Seq<char>)> {
    views.map_values(|v: &str| ("view"@, v@))
}

/// The query parameters of a request for a league's views.
pub fn league_view_query(views: &[&str]) -> (out: Vec<(String, String)>)
    ensures
        param_views(out@) == league_view_params(views@),
{
    let mut out: Vec<(String, String)> = Vec::new();
    let mut i: usize = 0;
    while i < views.len()
        invariant
            i <= views@.len(),
            param_views(out@) == league_view_params(views@.take(i as int)),
        decreases views@.len() - i,
    {
        let ghost before = param_views(out@);
        out.push(param("view", views[i]));
        proof {
            assert(param_views(out@) =~= before.push(("view"@, views@[i as int]@)));
            assert(league_view_params(views@.take(i + 1)) =~= league_view_params(views@.take(i as int)).push(
                ("view"@, views@[i as int]@),
            ));
        }
        i = i + 1;
    }
    proof {
        assert(views@.take(i as int) =~= views@);
    }
    out
}

/// The lineup slots a list of positions asks for: one slot per position, in order.
pub open spec fn slots_of(ps: Seq<Position>) -> Seq<u8> {
    ps.map_values(|p: Position| slot_of(p))
}

/// The slots a player data request filters on: those of its positions, or, without
/// positions, its fallback slots.
pub open spec fn request_slots(r: PlayerDataRequest) -> Option<Seq<u8>> {
    match r.positions {
        Some(ps) => Some(slots_of(ps@)),
        None => match r.fallback_slot_ids {
            Some(s) => Some(s@),
            None => None,
        },
    }
}

fn position_slots(ps: &Vec<Position>) -> (out: Vec<u8>)
    ensures
        out@ == slots_of(ps@),
{
    let mut out: Vec<u8> = Vec::new();
    let mut i: usize = 0;
    while i < ps.len()
        invariant
            i <= ps@.len(),
            out@ == slots_of(ps@.take(i as int)),
        decreases ps@.len() - i,
    {
        let ids = ps[i].lineup_slot_ids();
        let mut j: usize = 0;
        let ghost before = out@;
        while j < ids.len()
            invariant
                j <= ids@.len(),
                ids@ == seq![slot_of(ps@[i as int])],
                out@ == before + ids@.take(j as int),
            decreases ids@.len() - j,
        {
            out.push(ids[j]);
            j = j + 1;
            assert(ids@.take(j as int) =~= ids@.take(j - 1).push(ids@[j - 1]));
        }
        proof {
            assert(ids@.take(j as int) =~= ids@);
            assert(slots_of(ps@.take(i + 1)) =~= slots_of(ps@.take(i as int)).push(slot_of(ps@[i as int])));
        }
        i = i + 1;
    }
    proof {
        assert(ps@.take(i as int) =~= ps@);
    }
    out
}

/// The filter a player data request sends: its names, the slots of its positions (or its
/// fallback slots), and its injury filter; the roster filter is applied after the fetch.
pub fn player_data_filter(request: &PlayerDataRequest) -> (out: PlayersFilter)
    ensures
        filter_for(
            match request.player_names { Some(n) => Some(n@), None => None },
            request_slots(*request),
            None,
            request.injury_status_filter,
            out,
        ),
{
    let slots: Option<Vec<u8>> = match &request.positions {
        Some(ps) => Some(position_slots(ps)),
        None => request.fallback_slot_ids.clone(),
    };
    build_players_filter(
        request.player_names.clone(),
        slots,
        None,
        request.injury_status_filter.as_ref(),
        request.roster_status_filter.as_ref(),
    )
}

/// The filter of a draft pool request: active players only, at most `limit` of them, best
/// ranked first under `rank_type`, with no name, slot or injury filter (replacement levels
/// only mean something across the whole pool).
pub fn draft_pool_filter(limit: u32, rank_type: &str) -> (out: PlayersFilter)
    ensures
        out.filter_active matches Some(v) && v.value,
        out.filter_name is None,
        out.filter_slot_ids is None,
        out.filter_injured is None,
        out.limit == Some(limit),
        out.sort_draft_ranks matches Some(s) && s.sort_priority == 100 && s.sort_asc && s.value@ == rank_type@,
{
    let mut filter = PlayersFilter::default();
    filter.limit = Some(limit);
    filter.sort_draft_ranks = Some(SortDraftRanks::best_first(rank_type));
    filter.filter_active = Some(Val { value: true });
    filter
}

/// The cache key a player data request is stored under (always as recorded figures).
pub fn player_data_cache_key(request: &PlayerDataRequest) -> (out: HttpPlayerDataCacheKey)
    ensures
        out.league_id == request.league_id,
        out.season == request.season,
        out.week == request.week,
        match (out.player_names, request.player_names) {
            (Some(a), Some(b)) => a@ == b@,
            (None, None) => true,
            _ => false,
        },
        match (out.positions, request.positions) {
            (Some(a), Some(b)) => a@ == b@,
            (None, None) => true,
            _ => false,
        },
        !out.projected,
{
    let player_names = match &request.player_names {
        Some(ns) => Some(ns.clone()),
        None => None,
    };
    let positions = match &request.positions {
        Some(ps) => Some(ps.clone()),
        None => None,
    };
    HttpPlayerDataCacheKey {
        league_id: request.league_id,
        season: request.season,
        week: request.week,
        player_names,
        positions,
        projected: false,
    }
}

/// Where roster data came from.
#[derive(Debug, Clone, Copy, PartialEq, Eq, Structural)]
pub enum CacheStatus {
    /// Served from the cache.
    Hit,
    /// Not cached (or too old), so fetched.
    Miss,
    /// Fetched because a refresh was asked for.
    Refreshed,
}

/// Whether a request may be answered from the cache: not when debugging (which wants to
/// see the request go out) nor when a refresh is asked for.
pub fn cache_usable(debug: bool, refresh: bool) -> (out: bool)
    ensures
        out == (!debug && !refresh),
{
    !debug && !refresh
}

/// The status of data that had to be fetched: refreshed on request, a miss otherwise.
pub fn fetch_status(refresh: bool) -> (out: CacheStatus)
    ensures
        out == (if refresh { CacheStatus::Refreshed } else { CacheStatus::Miss }),
{
    if refresh { CacheStatus::Refreshed } else { CacheStatus::Miss }
}

} // verus!
