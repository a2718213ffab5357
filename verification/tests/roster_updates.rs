use espn_ffl::cli::types::ids::PlayerId;
use espn_ffl::commands::player_filters::{
    update_player_points_with_roster, update_player_points_with_roster_data, PlayerStatus,
};
use espn_ffl::espn::types::{LeagueData, RosterEntry, Team, TeamRoster};

fn status(id: i64) -> PlayerStatus {
    PlayerStatus {
        id: PlayerId::new(id),
        injured: Some(false),
        injury_status: None,
        is_rostered: None,
        team_id: None,
        team_name: None,
    }
}

fn team(id: u32, name: &str, players: &[i64]) -> Team {
    Team {
        id,
        name: Some(name.to_string()),
        abbrev: Some(name[..2].to_string()),
        roster: Some(TeamRoster {
            entries: players
                .iter()
                .map(|p| RosterEntry { player_id: *p, lineup_slot_id: 0, injury_status: None })
                .collect(),
        }),
        owners: None,
    }
}

#[test]
fn test_roster_update_marks_rostered_and_free_agents() {
    let league = LeagueData {
        teams: vec![team(1, "Alpha", &[10, 11]), team(2, "Bravo", &[20])],
    };
    let mut players = vec![status(10), status(20), status(30)];
    update_player_points_with_roster(&league, &mut players);
    assert_eq!(players.len(), 3);
    assert_eq!(players[0].is_rostered, Some(true));
    assert_eq!(players[0].team_id, Some(1));
    assert_eq!(players[0].team_name.as_deref(), Some("Alpha"));
    assert_eq!(players[1].is_rostered, Some(true));
    assert_eq!(players[1].team_id, Some(2));
    assert_eq!(players[1].team_name.as_deref(), Some("Bravo"));
    assert_eq!(players[2].is_rostered, Some(false));
    assert_eq!(players[2].team_id, None);
    assert_eq!(players[2].injured, Some(false));
}

#[test]
fn test_roster_update_matches_exact_id_only() {
    // A negative id (a team defense) does not match its positive counterpart.
    let league = LeagueData { teams: vec![team(3, "Charlie", &[16])] };
    let mut players = vec![status(-16)];
    update_player_points_with_roster(&league, &mut players);
    assert_eq!(players[0].is_rostered, Some(false));
}

#[test]
fn test_roster_update_last_team_wins() {
    let league = LeagueData {
        teams: vec![team(1, "Alpha", &[7]), team(2, "Bravo", &[7])],
    };
    let mut players = vec![status(7)];
    update_player_points_with_roster(&league, &mut players);
    assert_eq!(players[0].team_id, Some(2));
}

#[test]
fn test_roster_data_missing_clears_status() {
    let mut players = vec![status(1), status(2)];
    players[0].is_rostered = Some(true);
    update_player_points_with_roster_data(&mut players, None);
    assert!(players.iter().all(|p| p.is_rostered.is_none()));
    assert_eq!(players.len(), 2);
}

#[test]
fn test_roster_data_present_applies_rosters() {
    let league = LeagueData { teams: vec![team(4, "Delta", &[5])] };
    let mut players = vec![status(5), status(6)];
    update_player_points_with_roster_data(&mut players, Some(&league));
    assert_eq!(players[0].team_id, Some(4));
    assert_eq!(players[1].is_rostered, Some(false));
}
