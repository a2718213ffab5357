use espn_ffl::cli::types::position::{Position, SLOT_BENCH, SLOT_IR};
use espn_ffl::cli::types::time::{civil_year_month_from_unix, Season, SEASON_ROLLOVER_MONTH};

#[test]
fn test_lineup_slot_ids_are_position_exact() {
    assert_eq!(Position::QB.lineup_slot_ids(), vec![0]);
    assert_eq!(Position::RB.lineup_slot_ids(), vec![2]);
    assert_eq!(Position::WR.lineup_slot_ids(), vec![4]);
    assert_eq!(Position::TE.lineup_slot_ids(), vec![6]);
    assert_eq!(Position::DEF.lineup_slot_ids(), vec![16]);
    assert_eq!(Position::K.lineup_slot_ids(), vec![17]);
    assert_eq!(Position::FLEX.lineup_slot_ids(), vec![23]);
}

#[test]
fn test_default_position_id_round_trip() {
    for pos in [
        Position::QB,
        Position::RB,
        Position::WR,
        Position::TE,
        Position::K,
        Position::P,
        Position::DT,
        Position::DE,
        Position::LB,
        Position::DB,
        Position::S,
        Position::DEF,
    ] {
        let id = pos.default_position_id().expect("real position has an id");
        assert_eq!(
            Position::from_default_position_id(id).unwrap(),
            pos,
            "round trip failed for {}",
            pos.to_string()
        );
    }
}

#[test]
fn test_slot_only_positions_have_no_default_position_id() {
    assert_eq!(Position::FLEX.default_position_id(), None);
    assert_eq!(Position::BE.default_position_id(), None);
    assert_eq!(Position::IR.default_position_id(), None);
}

#[test]
fn test_from_default_position_id_rejects_non_players() {
    assert!(Position::from_default_position_id(14).is_err());
    assert!(Position::from_default_position_id(15).is_err());
    assert!(Position::from_default_position_id(99).is_err());
    assert!(Position::from_default_position_id(0).is_err());
}

#[test]
fn test_position_and_slot_spaces_differ() {
    assert_eq!(Position::WR.lineup_slot_ids(), vec![4]);
    assert_eq!(Position::from_default_position_id(4).unwrap(), Position::TE);
    assert_eq!(Position::K.lineup_slot_ids(), vec![17]);
    assert!(Position::from_default_position_id(17).is_err());
}

#[test]
fn test_fills_slot() {
    assert!(Position::RB.fills_slot(23));
    assert!(Position::WR.fills_slot(23));
    assert!(Position::TE.fills_slot(23));
    assert!(!Position::QB.fills_slot(23));
    assert!(!Position::K.fills_slot(23));

    assert!(Position::QB.fills_slot(0));
    assert!(!Position::RB.fills_slot(0));

    assert!(Position::K.fills_slot(SLOT_BENCH));
    assert!(Position::DEF.fills_slot(SLOT_IR));
}

#[test]
fn test_position_string_conversion() {
    assert_eq!(Position::QB.to_string(), "QB");
    assert_eq!(Position::DEF.to_string(), "D/ST");
    assert_eq!(Position::FLEX.to_string(), "FLEX");
    assert_eq!(Position::from_str("dst").unwrap(), Position::DEF);
    assert_eq!(Position::from_str("flex").unwrap(), Position::FLEX);
    assert!(Position::from_str("nonsense").is_err());
}

#[test]
fn test_civil_year_month_from_unix() {
    assert_eq!(civil_year_month_from_unix(0), (1970, 1));
    assert_eq!(civil_year_month_from_unix(1_756_339_200), (2025, 8));
    assert_eq!(civil_year_month_from_unix(1_788_309_000), (2026, 9));
    assert_eq!(civil_year_month_from_unix(1_767_225_600), (2026, 1));
    assert_eq!(civil_year_month_from_unix(1_709_164_800), (2024, 2));
}

#[test]
fn test_season_rolls_over_in_march() {
    let january_2026 = 1_767_225_600;
    let (year, month) = civil_year_month_from_unix(january_2026);
    assert_eq!((year, month), (2026, 1));
    assert!(month < SEASON_ROLLOVER_MONTH);

    let (year, month) = civil_year_month_from_unix(1_788_309_000);
    assert_eq!((year, month), (2026, 9));
    assert!(month >= SEASON_ROLLOVER_MONTH);
}

#[test]
fn test_season_current_is_plausible() {
    let season = Season::current().as_u16();
    assert!(
        (2020..=2100).contains(&season),
        "derived season {} is implausible",
        season
    );
    assert_eq!(Season::default(), Season::current());
}

#[test]
fn season_at_unix_time_follows_the_rollover() {
    assert_eq!(Season::at_unix_time(1_767_225_600).as_u16(), 2025);
    assert_eq!(Season::at_unix_time(1_788_309_000).as_u16(), 2026);
    assert_eq!(Season::at_unix_time(0).as_u16(), 1969);
}

#[test]
fn position_labels_parse_back() {
    for pos in [Position::QB, Position::RB, Position::WR, Position::TE, Position::K, Position::DEF, Position::FLEX] {
        assert_eq!(Position::from_str(&pos.to_string()).unwrap(), pos);
    }
}
