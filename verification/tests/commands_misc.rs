use espn_ffl::cli::types::time::{Season, Week};
use espn_ffl::cli::types::ids::{LeagueId, PlayerId};
use espn_ffl::cli::types::filters::{FantasyTeamFilter, InjuryStatusFilter, RosterStatusFilter};
use espn_ffl::cli::types::position::Position;
use espn_ffl::cli_types::Position as LegacyPosition;
use espn_ffl::commands::common::{position_id_to_string, scoring_slot_id};
use espn_ffl::core_util::cache::{
    CacheKey, HttpPlayerDataCacheKey, LeagueSettingsCacheKey, PlayerDataCacheKey,
    RosterDataCacheKey, WeeklyStatsCacheKey,
};
use espn_ffl::{EspnError, Result, LEAGUE_ID_ENV_VAR};

#[test]
fn test_scoring_slot_id_translates_position_to_slot() {
    assert_eq!(scoring_slot_id(16), 16);
    assert_eq!(scoring_slot_id(1), 0);
    assert_eq!(scoring_slot_id(3), 4);
    assert_eq!(scoring_slot_id(4), 6);
    assert_eq!(scoring_slot_id(5), 17);
    assert_eq!(scoring_slot_id(-1), 0);
    assert_eq!(scoring_slot_id(999), 0);
}

#[test]
fn test_position_id_to_string() {
    assert_eq!(position_id_to_string(-1), "UNKNOWN");
    assert_eq!(position_id_to_string(1), "QB");
    assert_eq!(position_id_to_string(2), "RB");
    assert_eq!(position_id_to_string(16), "D/ST");
    assert_eq!(position_id_to_string(999), "UNKNOWN");
}

#[test]
fn test_constants() {
    assert_eq!(LEAGUE_ID_ENV_VAR, "ESPN_FFL_LEAGUE_ID");
}

#[test]
fn test_position_conversion_in_player_data() {
    assert_eq!(LegacyPosition::try_from(0).unwrap(), LegacyPosition::QB);
    assert_eq!(LegacyPosition::try_from(2).unwrap(), LegacyPosition::RB);
    assert_eq!(LegacyPosition::try_from(4).unwrap(), LegacyPosition::WR);
    assert_eq!(LegacyPosition::try_from(6).unwrap(), LegacyPosition::TE);
    assert_eq!(LegacyPosition::try_from(17).unwrap(), LegacyPosition::K);
    assert_eq!(LegacyPosition::try_from(16).unwrap(), LegacyPosition::D);

    assert!(LegacyPosition::try_from(99).is_err());
}

#[test]
fn test_position_to_string() {
    assert_eq!(LegacyPosition::QB.to_string(), "QB");
    assert_eq!(LegacyPosition::RB.to_string(), "RB");
    assert_eq!(LegacyPosition::WR.to_string(), "WR");
    assert_eq!(LegacyPosition::TE.to_string(), "TE");
    assert_eq!(LegacyPosition::K.to_string(), "K");
    assert_eq!(LegacyPosition::D.to_string(), "D/ST");
}

#[test]
fn tests_test_result_type_alias() {
    fn test_function() -> Result<String> {
        Ok("success".to_string())
    }

    let result = test_function();
    assert!(result.is_ok());
    assert_eq!(result.unwrap(), "success");
}

#[test]
fn test_cache_key_generation() {
    let key = PlayerDataCacheKey {
        season: Season::new(2025),
        week: Week::new(1),
        player_names: Some(vec!["Josh Allen".to_string()]),
        positions: None,
        projected: false,
        injury_status: None,
        roster_status: None,
        fantasy_team_filter: None,
    };

    let file_key = key.to_file_key();
    assert!(file_key.contains("player_data"));
    assert!(file_key.contains("s2025"));
    assert!(file_key.contains("w1"));
    assert!(file_key.contains("Josh Allen"));
    assert!(file_key.contains("actual"));
}

#[test]
fn player_data_key_names_every_parameter() {
    let key = PlayerDataCacheKey {
        season: Season::new(2024),
        week: Week::new(7),
        player_names: Some(vec!["A".to_string(), "B C".to_string()]),
        positions: Some(vec![Position::QB, Position::DEF]),
        projected: true,
        injury_status: Some(InjuryStatusFilter::DayToDay),
        roster_status: Some(RosterStatusFilter::FA),
        fantasy_team_filter: Some(FantasyTeamFilter::Name("Big Team".to_string())),
    };
    assert_eq!(
        key.to_file_key(),
        "player_data_s2024_w7_names_A_B C_pos_QB_D/ST_inj_day to day_ros_fa_team_name_big_team_proj"
    );
    let plain = PlayerDataCacheKey {
        season: Season::new(2024),
        week: Week::new(7),
        player_names: None,
        positions: None,
        projected: false,
        injury_status: None,
        roster_status: None,
        fantasy_team_filter: Some(FantasyTeamFilter::Id(12)),
    };
    assert_eq!(
        plain.to_file_key(),
        "player_data_s2024_w7_all_names_all_pos_all_inj_all_ros_team_id_12_actual"
    );
}

#[test]
fn other_cache_keys() {
    let weekly = WeeklyStatsCacheKey {
        player_id: PlayerId::new(-16001),
        season: Season::new(2023),
        week: Week::new(3),
    };
    assert_eq!(weekly.to_file_key(), "weekly_stats_p-16001_s2023_w3");
    let settings = LeagueSettingsCacheKey {
        league_id: LeagueId::new(12345),
        season: Season::new(2023),
    };
    assert_eq!(settings.to_file_key(), "league_settings_l12345_s2023");
    let http = HttpPlayerDataCacheKey {
        league_id: LeagueId::new(9),
        season: Season::new(2025),
        week: Week::new(2),
        player_names: None,
        positions: Some(vec![Position::FLEX]),
        projected: false,
    };
    assert_eq!(http.to_file_key(), "http_player_data_l9_s2025_w2_all_names_pos_FLEX_actual");
    let roster = RosterDataCacheKey {
        league_id: LeagueId::new(9),
        season: Season::new(2025),
        week: None,
    };
    assert_eq!(roster.to_file_key(), "roster_data_l9_s2025_current");
    let roster_week = RosterDataCacheKey {
        week: Some(Week::new(4)),
        ..roster
    };
    assert_eq!(roster_week.to_file_key(), "roster_data_l9_s2025_w4");
}

#[test]
fn error_values_compare_by_content() {
    let e = EspnError::MissingLeagueId { env_var: LEAGUE_ID_ENV_VAR.to_string() };
    assert_eq!(e.clone(), e);
    assert_ne!(e, EspnError::NoData);
}
