use espn_ffl::cli::types::filters::{InjuryStatusFilter, RosterStatusFilter};
use espn_ffl::cli::types::ids::LeagueId;
use espn_ffl::cli::types::position::Position;
use espn_ffl::cli::types::time::{Season, Week};
use espn_ffl::espn::http::{
    backoff_ms, cache_max_age_at, draft_pool_filter, draft_pool_query, espn_cookie, fetch_status,
    league_url, league_view_query, next_step, pacing_wait_ms, player_data_cache_key,
    player_data_filter, player_data_query, players_url, retry_after_secs, roster_query,
    season_cache_max_age, CacheStatus, PlayerDataRequest, RetryStep, FFL_BASE_URL,
    LIVE_SEASON_MAX_AGE,
};
use espn_ffl::EspnError;
use std::time::Duration;

#[test]
fn test_ffl_base_url_constant() {
    assert_eq!(
        FFL_BASE_URL,
        "https://lm-api-reads.fantasy.espn.com/apis/v3/games/ffl"
    );
}

#[test]
fn test_finished_seasons_never_expire() {
    let past = Season::new(Season::current().as_u16() - 1);
    assert_eq!(
        season_cache_max_age(past),
        None,
        "a completed season's numbers are final"
    );
}

#[test]
fn test_live_season_expires() {
    assert_eq!(
        season_cache_max_age(Season::current()),
        Some(LIVE_SEASON_MAX_AGE)
    );
    let future = Season::new(Season::current().as_u16() + 1);
    assert_eq!(season_cache_max_age(future), Some(LIVE_SEASON_MAX_AGE));
}

#[test]
fn test_live_season_ttl_is_short_enough_to_track_a_game() {
    assert!(
        Duration::from_secs(LIVE_SEASON_MAX_AGE) <= Duration::from_secs(60 * 60),
        "a live week must not go stale for an hour"
    );
}

#[test]
fn cache_age_depends_only_on_the_season_in_progress() {
    assert_eq!(cache_max_age_at(Season::new(2023), Season::new(2025)), None);
    assert_eq!(cache_max_age_at(Season::new(2025), Season::new(2025)), Some(1800));
    assert_eq!(cache_max_age_at(Season::new(2026), Season::new(2025)), Some(1800));
}

#[test]
fn requests_are_paced_a_quarter_second_apart() {
    assert_eq!(pacing_wait_ms(None), 0);
    assert_eq!(pacing_wait_ms(Some(100)), 150);
    assert_eq!(pacing_wait_ms(Some(250)), 0);
    assert_eq!(pacing_wait_ms(Some(10_000)), 0);
}

#[test]
fn backoff_doubles_from_750ms() {
    assert_eq!(backoff_ms(1), 750);
    assert_eq!(backoff_ms(2), 1500);
    assert_eq!(backoff_ms(3), 3000);
    assert_eq!(backoff_ms(4), 6000);
}

#[test]
fn retry_after_is_trimmed_parsed_and_capped() {
    assert_eq!(retry_after_secs(" 5 "), Some(5));
    assert_eq!(retry_after_secs("3600"), Some(60));
    assert_eq!(retry_after_secs("soon"), None);
    assert_eq!(retry_after_secs(""), None);
}

#[test]
fn throttling_and_server_errors_are_retried_until_the_last_attempt() {
    assert_eq!(next_step(1, 200, None, false), RetryStep::Finish);
    assert_eq!(next_step(1, 404, None, true), RetryStep::Finish);
    assert_eq!(
        next_step(1, 429, None, false),
        RetryStep::Retry { delay_ms: 750, announce: true }
    );
    assert_eq!(
        next_step(2, 503, None, false),
        RetryStep::Retry { delay_ms: 1500, announce: false }
    );
    assert_eq!(
        next_step(3, 500, Some("7"), true),
        RetryStep::Retry { delay_ms: 7000, announce: true }
    );
    assert_eq!(
        next_step(1, 429, Some("later"), false),
        RetryStep::Retry { delay_ms: 750, announce: true }
    );
    assert_eq!(next_step(4, 429, None, false), RetryStep::Finish);
}

#[test]
fn the_cookie_needs_both_values_and_header_safe_text() {
    assert_eq!(espn_cookie(None, Some("b")), Ok(None));
    assert_eq!(espn_cookie(Some("a"), None), Ok(None));
    assert_eq!(
        espn_cookie(Some("{S}"), Some("xyz")),
        Ok(Some("SWID={S}; espn_s2=xyz".to_string()))
    );
    assert_eq!(
        espn_cookie(Some("bad\nvalue"), Some("x")),
        Err(EspnError::InvalidHeader { message: "failed to parse header value".to_string() })
    );
}

#[test]
fn urls_and_queries() {
    assert_eq!(
        league_url(Season::new(2023), LeagueId::new(12345)),
        "https://lm-api-reads.fantasy.espn.com/apis/v3/games/ffl/seasons/2023/segments/0/leagues/12345"
    );
    assert_eq!(
        players_url(Season::new(2023)),
        "https://lm-api-reads.fantasy.espn.com/apis/v3/games/ffl/seasons/2023/players"
    );
    let q = player_data_query(LeagueId::new(7), Week::new(3));
    let pairs: Vec<(&str, &str)> = q.iter().map(|(k, v)| (k.as_str(), v.as_str())).collect();
    assert_eq!(
        pairs,
        vec![
            ("forLeagueId", "7"),
            ("view", "kona_player_info"),
            ("view", "players_wl"),
            ("scoringPeriodId", "3")
        ]
    );
    let q = draft_pool_query(LeagueId::new(7));
    assert_eq!(q[2], ("scoringPeriodId".to_string(), "0".to_string()));
    assert_eq!(roster_query(None).len(), 2);
    assert_eq!(
        roster_query(Some(Week::new(5)))[2],
        ("scoringPeriodId".to_string(), "5".to_string())
    );
    let views = league_view_query(&["mDraftDetail", "mTeam"]);
    assert_eq!(views[1], ("view".to_string(), "mTeam".to_string()));
}

#[test]
fn player_data_filter_uses_positions_before_the_fallback() {
    let mut request = PlayerDataRequest::new(LeagueId::new(1), Season::new(2025), Week::new(1));
    request.fallback_slot_ids = Some(vec![0, 2, 4]);
    let f = player_data_filter(&request);
    assert_eq!(f.filter_slot_ids.unwrap().value, vec![0, 2, 4]);

    request.positions = Some(vec![Position::WR, Position::K]);
    request.injury_status_filter = Some(InjuryStatusFilter::Injured);
    request.roster_status_filter = Some(RosterStatusFilter::FA);
    let f = player_data_filter(&request);
    assert_eq!(f.filter_slot_ids.unwrap().value, vec![4, 17]);
    assert_eq!(f.filter_injured.unwrap().value, true);

    let key = player_data_cache_key(&request);
    assert_eq!(key.positions, Some(vec![Position::WR, Position::K]));
    assert!(!key.projected);
}

#[test]
fn draft_pool_filter_is_bounded_and_sorted() {
    let f = draft_pool_filter(300, "PPR");
    assert_eq!(f.limit, Some(300));
    assert_eq!(f.filter_active.unwrap().value, true);
    let sort = f.sort_draft_ranks.unwrap();
    assert_eq!((sort.sort_priority, sort.sort_asc, sort.value.as_str()), (100, true, "PPR"));
}

#[test]
fn fetch_status_reflects_refresh() {
    assert_eq!(fetch_status(true), CacheStatus::Refreshed);
    assert_eq!(fetch_status(false), CacheStatus::Miss);
}
