use espn_ffl::cli::types::filters::{FantasyTeamFilter, InjuryStatusFilter, RosterStatusFilter};
use espn_ffl::cli::types::ids::{LeagueId, PlayerId};
use espn_ffl::cli::types::Position as CombinedPosition;
use espn_ffl::commands::league_data::resolve_league_id;
use espn_ffl::commands::player_filters::{
    apply_status_filters, filter_and_convert_players, filter_player, matches_fantasy_team_filter, matches_injury_filter,
    matches_roster_filter, PlayerRecord, PlayerStatus,
};
use espn_ffl::espn::types::InjuryStatus;
use espn_ffl::{EspnError, LEAGUE_ID_ENV_VAR};

fn create_test_player(
    id: i64,
    injured: Option<bool>,
    injury_status: Option<InjuryStatus>,
    is_rostered: Option<bool>,
) -> PlayerStatus {
    PlayerStatus {
        id: PlayerId::new(id),
        injured,
        injury_status,
        is_rostered,
        team_id: None,
        team_name: None,
    }
}

#[test]
fn test_matches_injury_filter_active() {
    let active_player = create_test_player(1, Some(false), Some(InjuryStatus::Active), None);
    let injured_player = create_test_player(2, Some(true), Some(InjuryStatus::Out), None);

    assert!(matches_injury_filter(&active_player, &InjuryStatusFilter::Active));
    assert!(!matches_injury_filter(&injured_player, &InjuryStatusFilter::Active));
}

#[test]
fn test_matches_injury_filter_injured() {
    let active_player = create_test_player(1, Some(false), Some(InjuryStatus::Active), None);
    let injured_player = create_test_player(2, Some(true), Some(InjuryStatus::Out), None);

    assert!(!matches_injury_filter(&active_player, &InjuryStatusFilter::Injured));
    assert!(matches_injury_filter(&injured_player, &InjuryStatusFilter::Injured));
}

#[test]
fn test_matches_injury_filter_specific_status() {
    let questionable_player =
        create_test_player(1, Some(true), Some(InjuryStatus::Questionable), None);
    let out_player = create_test_player(2, Some(true), Some(InjuryStatus::Out), None);

    assert!(matches_injury_filter(&questionable_player, &InjuryStatusFilter::Questionable));
    assert!(!matches_injury_filter(&questionable_player, &InjuryStatusFilter::Out));
    assert!(matches_injury_filter(&out_player, &InjuryStatusFilter::Out));
}

#[test]
fn test_matches_roster_filter() {
    let rostered_player = create_test_player(1, None, None, Some(true));
    let fa_player = create_test_player(2, None, None, Some(false));
    let unknown = create_test_player(3, None, None, None);

    assert!(matches_roster_filter(&rostered_player, &RosterStatusFilter::Rostered));
    assert!(!matches_roster_filter(&rostered_player, &RosterStatusFilter::FA));
    assert!(!matches_roster_filter(&fa_player, &RosterStatusFilter::Rostered));
    assert!(matches_roster_filter(&fa_player, &RosterStatusFilter::FA));
    assert!(!matches_roster_filter(&unknown, &RosterStatusFilter::FA));
    assert!(!matches_roster_filter(&unknown, &RosterStatusFilter::Rostered));
}

#[test]
fn test_apply_status_filters() {
    let mut players = vec![
        create_test_player(1, Some(false), Some(InjuryStatus::Active), Some(true)),
        create_test_player(2, Some(false), Some(InjuryStatus::Active), Some(false)),
        create_test_player(3, Some(true), Some(InjuryStatus::Out), Some(true)),
        create_test_player(4, Some(true), Some(InjuryStatus::Out), Some(false)),
    ];

    apply_status_filters(
        &mut players,
        Some(&InjuryStatusFilter::Active),
        Some(&RosterStatusFilter::FA),
        None,
    );

    assert_eq!(players.len(), 1);
    assert_eq!(players[0].id, PlayerId::new(2));
}

fn on_team(id: i64, team_id: u32, team_name: &str) -> PlayerStatus {
    PlayerStatus {
        id: PlayerId::new(id),
        injured: Some(false),
        injury_status: None,
        is_rostered: Some(true),
        team_id: Some(team_id),
        team_name: Some(team_name.to_string()),
    }
}

#[test]
fn test_matches_fantasy_team_filter_by_id() {
    let player_on_team_1 = on_team(123, 1, "Kenny Rogers' Toasters");
    let player_on_team_2 = on_team(124, 2, "Other Team");

    let team_1_filter = FantasyTeamFilter::Id(1);
    let team_2_filter = FantasyTeamFilter::Id(2);
    let team_3_filter = FantasyTeamFilter::Id(3);

    assert!(matches_fantasy_team_filter(&player_on_team_1, &team_1_filter));
    assert!(!matches_fantasy_team_filter(&player_on_team_1, &team_2_filter));
    assert!(!matches_fantasy_team_filter(&player_on_team_1, &team_3_filter));

    assert!(!matches_fantasy_team_filter(&player_on_team_2, &team_1_filter));
    assert!(matches_fantasy_team_filter(&player_on_team_2, &team_2_filter));
    assert!(!matches_fantasy_team_filter(&player_on_team_2, &team_3_filter));
}

#[test]
fn test_matches_fantasy_team_filter_by_name() {
    let player_kenny_team = on_team(123, 1, "Kenny Rogers' Toasters");
    let player_other_team = on_team(124, 2, "Different Team Name");

    let kenny_filter = FantasyTeamFilter::Name("kenny".to_string());
    let toasters_filter = FantasyTeamFilter::Name("toasters".to_string());
    let rogers_filter = FantasyTeamFilter::Name("Rogers".to_string());
    let different_filter = FantasyTeamFilter::Name("different".to_string());
    let nomatch_filter = FantasyTeamFilter::Name("nomatch".to_string());

    assert!(matches_fantasy_team_filter(&player_kenny_team, &kenny_filter));
    assert!(matches_fantasy_team_filter(&player_kenny_team, &toasters_filter));
    assert!(matches_fantasy_team_filter(&player_kenny_team, &rogers_filter));
    assert!(!matches_fantasy_team_filter(&player_kenny_team, &different_filter));
    assert!(!matches_fantasy_team_filter(&player_kenny_team, &nomatch_filter));

    assert!(!matches_fantasy_team_filter(&player_other_team, &kenny_filter));
    assert!(!matches_fantasy_team_filter(&player_other_team, &toasters_filter));
    assert!(!matches_fantasy_team_filter(&player_other_team, &rogers_filter));
    assert!(matches_fantasy_team_filter(&player_other_team, &different_filter));
    assert!(!matches_fantasy_team_filter(&player_other_team, &nomatch_filter));
}

fn record(id: i64, name: &str, position_id: i8) -> PlayerRecord {
    PlayerRecord {
        id,
        full_name: Some(name.to_string()),
        default_position_id: position_id,
    }
}

#[test]
fn individual_defenders_and_stray_negative_ids_are_dropped() {
    assert!(filter_player(record(5, "Linebacker", 11), &None, &None).is_none());
    assert!(filter_player(record(-7, "Odd", 2), &None, &None).is_none());
    let dst = filter_player(record(-16001, "Bears D/ST", 16), &None, &None).unwrap();
    assert_eq!(dst.player_id, PlayerId::new(16001));
    assert_eq!(dst.original_player.id, -16001);
}

#[test]
fn whole_response_keeps_order_and_converts_defense_ids() {
    let players = vec![
        record(10, "Josh Allen", 1),
        record(11, "Linebacker", 11),
        record(-16001, "Bears D/ST", 16),
        record(-3, "Stray", 2),
        record(12, "Travis Kelce", 4),
        record(i64::MIN, "Broken", 2),
    ];
    let kept = filter_and_convert_players(players, None, None);
    let ids: Vec<i64> = kept.iter().map(|f| f.player_id.as_i64()).collect();
    assert_eq!(ids, vec![10, 16001, 12]);
    assert_eq!(kept[1].original_player.id, -16001);

    let flex = Some(vec![CombinedPosition::FLEX]);
    let kept = filter_and_convert_players(
        vec![record(1, "QB", 1), record(2, "RB", 2), record(3, "TE", 4)],
        None,
        flex,
    );
    let ids: Vec<i64> = kept.iter().map(|f| f.player_id.as_i64()).collect();
    assert_eq!(ids, vec![2, 3]);
}

#[test]
fn several_names_are_matched_locally_ignoring_case() {
    let names = Some(vec!["allen".to_string(), "KELCE".to_string()]);
    assert!(filter_player(record(1, "Josh Allen", 1), &names, &None).is_some());
    assert!(filter_player(record(2, "Travis Kelce", 4), &names, &None).is_some());
    assert!(filter_player(record(3, "Patrick Mahomes", 1), &names, &None).is_none());
    let one = Some(vec!["nobody".to_string()]);
    assert!(filter_player(record(3, "Patrick Mahomes", 1), &one, &None).is_some());
}

#[test]
fn flex_accepts_running_backs_receivers_and_tight_ends() {
    let flex = Some(vec![CombinedPosition::FLEX]);
    assert!(filter_player(record(1, "RB", 2), &None, &flex).is_some());
    assert!(filter_player(record(2, "TE", 4), &None, &flex).is_some());
    assert!(filter_player(record(3, "QB", 1), &None, &flex).is_none());
    let qb = Some(vec![CombinedPosition::QB]);
    assert!(filter_player(record(3, "QB", 1), &None, &qb).is_some());
    assert!(filter_player(record(4, "Nobody", 99), &None, &qb).is_none());
}

#[test]
fn test_resolve_league_id_from_option() {
    let league_id = Some(LeagueId::new(12345));
    let result = resolve_league_id(league_id, None);
    assert!(result.is_ok());
    assert_eq!(result.unwrap().as_u32(), 12345);
}

#[test]
fn test_resolve_league_id_from_env() {
    let result = resolve_league_id(None, Some("54321"));
    assert!(result.is_ok());
    assert_eq!(result.unwrap().as_u32(), 54321);
}

#[test]
fn test_resolve_league_id_missing() {
    let result = resolve_league_id(None, None);
    assert!(result.is_err());
    match result.unwrap_err() {
        EspnError::MissingLeagueId { env_var } => {
            assert_eq!(env_var, LEAGUE_ID_ENV_VAR);
        }
        _ => panic!("Expected MissingLeagueId error"),
    }
}

#[test]
fn test_resolve_league_id_invalid_env() {
    let result = resolve_league_id(None, Some("not_a_number"));
    assert!(result.is_err());
    assert!(resolve_league_id(None, Some("0")).is_err());
}

#[test]
fn test_resolve_league_id_option_overrides_env() {
    let league_id = Some(LeagueId::new(12345));
    let result = resolve_league_id(league_id, Some("99999"));
    assert!(result.is_ok());
    assert_eq!(result.unwrap().as_u32(), 12345);
}

#[test]
fn test_resolve_league_id_zero_value() {
    let league_id = Some(LeagueId::new(0));
    let result = resolve_league_id(league_id, None);
    assert!(result.is_ok());
    assert_eq!(result.unwrap().as_u32(), 0);
}
