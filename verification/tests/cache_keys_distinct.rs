use espn_ffl::cli::types::ids::{LeagueId, PlayerId};
use espn_ffl::cli::types::time::{Season, Week};
use espn_ffl::core_util::cache::{
    league_settings_file_name, CacheKey, LeagueSettingsCacheKey, RosterDataCacheKey, WeeklyStatsCacheKey,
};

#[test]
fn league_settings_file_is_named_by_season_and_league() {
    assert_eq!(league_settings_file_name(2023, 12345), "league-settings_2023_12345.json");
}

#[test]
fn league_settings_files_differ_for_different_values() {
    let a = league_settings_file_name(2022, 54321);
    let b = league_settings_file_name(2023, 12345);
    assert_ne!(a, b);
    assert!(a.contains("2022_54321"));
    assert!(b.contains("2023_12345"));
    // Digits cannot slide across the separator.
    assert_ne!(league_settings_file_name(202, 312345), league_settings_file_name(2023, 12345));
}

#[test]
fn settings_keys_differ_by_league_and_season() {
    let k = |l: u32, s: u16| LeagueSettingsCacheKey { league_id: LeagueId::new(l), season: Season::new(s) }.to_file_key();
    assert_eq!(k(12345, 2024), "league_settings_l12345_s2024");
    assert_ne!(k(1, 22024), k(12, 2024));
    assert_ne!(k(12345, 2024), k(12345, 2025));
}

#[test]
fn roster_keys_tell_weeks_from_the_current_roster() {
    let k = |w: Option<u16>| {
        RosterDataCacheKey { league_id: LeagueId::new(7), season: Season::new(2024), week: w.map(Week::new) }.to_file_key()
    };
    assert_eq!(k(None), "roster_data_l7_s2024_current");
    assert_eq!(k(Some(3)), "roster_data_l7_s2024_w3");
    assert_ne!(k(Some(3)), k(Some(13)));
    assert_ne!(k(None), k(Some(1)));
}

#[test]
fn weekly_stats_keys_keep_the_sign_of_the_player_id() {
    let k = |p: i64| WeeklyStatsCacheKey { player_id: PlayerId::new(p), season: Season::new(2024), week: Week::new(1) }.to_file_key();
    assert_eq!(k(-16001), "weekly_stats_p-16001_s2024_w1");
    assert_ne!(k(-16001), k(16001));
}
