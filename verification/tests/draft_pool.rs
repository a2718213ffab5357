use espn_ffl::cli::types::ids::{LeagueId, PlayerId};
use espn_ffl::cli::types::position::Position;
use espn_ffl::cli::types::time::Season;
use espn_ffl::commands::draft_board::{DraftBoardParams, FilePicks, ScoredPlayer};
use espn_ffl::commands::draft_pool::{player_positions, pool_position, watch_frame, watch_interval, ScoredPool};
use espn_ffl::espn::draft::{DraftDetail, DraftPick, DraftResponse};
use espn_ffl::espn::types::{DraftSettings, LeagueSettings, RosterSettings, Team};
use espn_ffl::espn::vor::ReplacementLevels;

fn settings() -> LeagueSettings {
    let mut lineup_slot_counts: Vec<(String, u32)> = Vec::new();
    for s in 0..=24u8 {
        let count = match s {
            0 => 1,
            2 => 2,
            20 => 5,
            _ => 0,
        };
        lineup_slot_counts.push((s.to_string(), count));
    }
    LeagueSettings {
        roster_settings: RosterSettings { lineup_slot_counts, position_limits: Vec::new() },
        draft_settings: DraftSettings {
            draft_type: None,
            date: None,
            pick_order: None,
            auction_budget: None,
            time_per_selection: None,
            keeper_count: None,
        },
        size: Some(2),
        name: Some("Test".to_string()),
    }
}

fn pool() -> ScoredPool {
    let p = |id: i64, name: &str, position: Position, points: i64| ScoredPlayer {
        player_id: id,
        full_name: Some(name.to_string()),
        position,
        points: points * 100_000,
        bye_week: None,
        average_draft_position: Some(id * 10),
        auction_value: None,
    };
    let scored = vec![
        p(1, "Top RB", Position::RB, 3000),
        p(2, "Mid RB", Position::RB, 2500),
        p(3, "Big QB", Position::QB, 3800),
    ];
    let position_by_player = player_positions(&scored);
    ScoredPool {
        league_id: LeagueId::new(1),
        settings: settings(),
        team_count: 2,
        scored,
        levels: ReplacementLevels {
            starter_counts: vec![(Position::QB, 2), (Position::RB, 4)],
            replacement_points: vec![(Position::QB, 350_000_000), (Position::RB, 150_040_000)],
        },
        position_by_player,
    }
}

fn draft(made: &[(u32, i64)]) -> DraftResponse {
    let picks = (1..=4u32)
        .map(|n| {
            let team = if n % 2 == 1 { 7 } else { 9 };
            let player = made.get((n - 1) as usize).map(|(_, id)| *id).unwrap_or(-1);
            DraftPick {
                player_id: player,
                team_id: Some(team),
                overall_pick_number: n,
                round_id: (n + 1) / 2,
                round_pick_number: n,
                lineup_slot_id: None,
                bid_amount: None,
                keeper: false,
                member_id: None,
            }
        })
        .collect();
    let team = |id: u32, name: &str| Team {
        id,
        name: Some(name.to_string()),
        abbrev: None,
        roster: None,
        owners: None,
    };
    DraftResponse {
        draft_detail: DraftDetail { drafted: false, in_progress: true, picks },
        teams: vec![team(7, "Mine"), team(9, "Theirs")],
    }
}

#[test]
fn pool_positions_follow_the_leagues_lineup() {
    let rosterable = [Position::QB, Position::RB];
    assert_eq!(pool_position(1, &rosterable), Some(Position::QB));
    assert_eq!(pool_position(5, &rosterable), None);
    assert_eq!(pool_position(-1, &rosterable), None);
    assert_eq!(pool_position(14, &rosterable), None);
}

#[test]
fn a_static_board_ranks_the_whole_pool() {
    let params = DraftBoardParams::new(Season::new(2026));
    let board = pool().render(&params, None, None, None);
    assert_eq!(board.league_name.as_deref(), Some("Test"));
    assert_eq!(board.season, 2026);
    assert_eq!(board.entries.len(), 3);
    assert_eq!(board.entries[0].name, "Top RB");
    assert!(board.live.is_none() && board.recommendations.is_empty());
    assert_eq!(board.starting_lineup, vec![("QB".to_string(), 1), ("RB".to_string(), 2)]);
    assert_eq!(board.replacement_points, vec![("QB".to_string(), 3500), ("RB".to_string(), 1500)]);
}

#[test]
fn a_live_board_marks_taken_players_and_recommends_for_the_team() {
    let mut params = DraftBoardParams::new(Season::new(2026));
    params.team_id = Some(7);
    params.positions = Some(vec![Position::RB]);
    let d = draft(&[(7, 1)]);
    let board = pool().render(&params, Some(&d), None, None);
    assert_eq!(board.entries.len(), 2, "the position filter narrows the rows");
    assert!(board.entries.iter().find(|e| e.name == "Top RB").unwrap().drafted);
    let live = board.live.as_ref().unwrap();
    assert_eq!(live.my_team.as_deref(), Some("Mine"));
    assert_eq!(board.recommendations[0].name, "Mid RB");

    let mut file = FilePicks::new();
    file.picks.push((PlayerId::new(2), false));
    file.unmatched.push("Nobody (no match)".to_string());
    let board = pool().render(&params, Some(&draft(&[])), Some(&file), None);
    assert!(board.entries.iter().find(|e| e.name == "Mid RB").unwrap().drafted);
    assert_eq!(board.unmatched_picks, vec!["Nobody (no match)".to_string()]);
}

#[test]
fn watch_mode_stops_once_the_draft_is_done() {
    assert_eq!(watch_interval(0), 1);
    assert_eq!(watch_interval(30), 30);
    let params = DraftBoardParams::new(Season::new(2026));
    let board = pool().render(&params, None, None, None);
    let (screen, done) = watch_frame(&board, 5, 30);
    assert!(!done);
    assert!(screen.ends_with("\nRefreshing every 30s · Ctrl-C to stop\n"));
}
