use espn_ffl::cli::types::ids::LeagueId;
use espn_ffl::cli::types::position::Position;
use espn_ffl::cli::types::time::{Season, Week};
use espn_ffl::commands::common::{narrowing_sql, position_id_to_string, scoring_slot_id};
use espn_ffl::commands::player_filters::{filter_player, PlayerRecord};
use espn_ffl::espn::compute::{select_week_blocks, StatBlockHeader};
use espn_ffl::espn::live_draft::draft_cookie;
use espn_ffl::models::stat_source::StatSource;
use espn_ffl::EspnError;

#[test]
fn only_flex_bench_ir_and_own_slots_are_filled() {
    assert!(!Position::RB.fills_slot(3));
    assert!(!Position::WR.fills_slot(5));
    assert!(!Position::QB.fills_slot(7));
    assert!(Position::RB.fills_slot(23));
    assert!(!Position::QB.fills_slot(23));
    assert!(Position::K.fills_slot(20));
    assert!(Position::K.fills_slot(21));
    assert!(Position::RB.fills_slot(2));
    assert!(!Position::RB.lineup_slot_ids().contains(&3));
}

#[test]
fn ids_outside_the_position_table_fall_back() {
    assert_eq!(scoring_slot_id(258), 0);
    assert_eq!(position_id_to_string(258), "UNKNOWN");
    assert_eq!(position_id_to_string(999), "UNKNOWN");
    assert_eq!(scoring_slot_id(2), 2);
    assert_eq!(position_id_to_string(16), "D/ST");
}

#[test]
fn parse_errors_carry_the_standard_message() {
    match LeagueId::from_str("abc") {
        Err(EspnError::InvalidLeagueId { message }) => {
            assert_eq!(message, "abc".parse::<u32>().unwrap_err().to_string());
            assert_eq!(message, "invalid digit found in string");
        }
        other => panic!("unexpected {:?}", other),
    }
    match Season::from_str("70000") {
        Err(EspnError::InvalidLeagueId { message }) => {
            assert_eq!(message, "70000".parse::<u16>().unwrap_err().to_string());
        }
        other => panic!("unexpected {:?}", other),
    }
    match Week::from_str("") {
        Err(EspnError::InvalidLeagueId { message }) => {
            assert_eq!(message, "".parse::<u16>().unwrap_err().to_string());
        }
        other => panic!("unexpected {:?}", other),
    }
    assert_eq!(LeagueId::from_str("+42").unwrap().as_u32(), 42);
}

#[test]
fn only_a_minimal_defense_id_is_out_of_bounds() {
    let record = PlayerRecord { id: i64::MIN, full_name: Some("Odd".to_string()), default_position_id: 2 };
    assert!(filter_player(record, &None, &None).is_none());
}

fn block(season: u64, period: u64, source: u64) -> StatBlockHeader {
    StatBlockHeader {
        season_id: Some(season),
        scoring_period_id: Some(period),
        stat_source_id: Some(source),
        stat_split_type_id: Some(1),
        has_stats: true,
        has_nonempty_stats: true,
    }
}

#[test]
fn week_blocks_are_selected_and_sorted_by_week() {
    let blocks = vec![
        block(2024, 3, 0),
        block(2024, 1, 0),
        block(2024, 2, 1),
        block(2023, 1, 0),
        block(2024, 1, 0),
        block(2024, 5, 0),
    ];
    let picked = select_week_blocks(&blocks, 2024, StatSource::Actual, &[1, 2, 3]);
    assert_eq!(picked, vec![(1, 1), (1, 4), (3, 0)]);
    let projected = select_week_blocks(&blocks, 2024, StatSource::Projected, &[2]);
    assert_eq!(projected, vec![(2, 2)]);
}

#[test]
fn draft_cookie_normalises_both_values() {
    assert_eq!(
        draft_cookie(" ABC-123: ", " s2value:: ").unwrap(),
        "SWID={ABC-123}; espn_s2=s2value"
    );
    assert!(draft_cookie("{A}", "bad\nvalue").is_err());
}

#[test]
fn stored_player_queries_are_narrowed_by_names_and_positions() {
    let names = vec!["Allen".to_string(), "Kelce".to_string()];
    let positions = vec![Position::QB, Position::DEF];
    let (sql, values) = narrowing_sql(Some(&names), Some(&positions));
    assert_eq!(sql, " AND (p.name LIKE ? OR p.name LIKE ?) AND p.position IN (?, ?)");
    assert_eq!(values, vec!["%Allen%", "%Kelce%", "QB", "D/ST"]);
    let (sql, values) = narrowing_sql(None, Some(&Vec::new()));
    assert_eq!(sql, "");
    assert!(values.is_empty());
}
