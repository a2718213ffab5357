use espn_ffl::cli::types::{LeagueId, PlayerId, Position, Season, Week};
use espn_ffl::Result;

#[test]
fn types_test_league_id_new() {
    let id = LeagueId::new(12345);
    assert_eq!(id.as_u32(), 12345);
}

#[test]
fn types_test_league_id_display() {
    let id = LeagueId::new(12345);
    assert_eq!(id.to_string(), "12345");
}

#[test]
fn types_test_league_id_from_str_valid() {
    let id: LeagueId = LeagueId::from_str("12345").unwrap();
    assert_eq!(id.as_u32(), 12345);
}

#[test]
fn types_test_league_id_from_str_invalid() {
    let result: Result<LeagueId> = LeagueId::from_str("invalid");
    assert!(result.is_err());
}

#[test]
fn types_test_league_id_from_str_negative() {
    let result: Result<LeagueId> = LeagueId::from_str("-1");
    assert!(result.is_err());
}

#[test]
fn types_test_league_id_from_str_zero() {
    let id: LeagueId = LeagueId::from_str("0").unwrap();
    assert_eq!(id.as_u32(), 0);
}

#[test]
fn types_test_player_id_new() {
    let id = PlayerId::new(67890);
    assert_eq!(id.as_u64(), 67890);
}

#[test]
fn types_test_player_id_zero() {
    let id = PlayerId::new(0);
    assert_eq!(id.as_u64(), 0);
}

#[test]
fn types_test_player_id_max_value() {
    let id = PlayerId::new(u64::MAX);
    assert_eq!(id.as_u64(), u64::MAX);
}

#[test]
fn types_test_season_new() {
    let season = Season::new(2023);
    assert_eq!(season.as_u16(), 2023);
}

#[test]
fn types_test_season_default() {
    let season = Season::default();
    assert_eq!(season.as_u16(), 2025);
}

#[test]
fn types_test_season_display() {
    let season = Season::new(2023);
    assert_eq!(season.to_string(), "2023");
}

#[test]
fn types_test_season_from_str_valid() {
    let season: Season = Season::from_str("2023").unwrap();
    assert_eq!(season.as_u16(), 2023);
}

#[test]
fn types_test_season_from_str_invalid() {
    let result: Result<Season> = Season::from_str("invalid");
    assert!(result.is_err());
}

#[test]
fn types_test_season_from_str_future() {
    let season: Season = Season::from_str("2030").unwrap();
    assert_eq!(season.as_u16(), 2030);
}

#[test]
fn types_test_week_new() {
    let week = Week::new(5);
    assert_eq!(week.as_u16(), 5);
}

#[test]
fn types_test_week_default() {
    let week = Week::default();
    assert_eq!(week.as_u16(), 1);
}

#[test]
fn types_test_week_display() {
    let week = Week::new(5);
    assert_eq!(week.to_string(), "5");
}

#[test]
fn types_test_week_from_str_valid() {
    let week: Week = Week::from_str("5").unwrap();
    assert_eq!(week.as_u16(), 5);
}

#[test]
fn types_test_week_from_str_invalid() {
    let result: Result<Week> = Week::from_str("invalid");
    assert!(result.is_err());
}

#[test]
fn types_test_week_zero() {
    let week = Week::new(0);
    assert_eq!(week.as_u16(), 0);
}

#[test]
fn types_test_week_large_number() {
    let week = Week::new(1000);
    assert_eq!(week.as_u16(), 1000);
}

#[test]
fn types_test_position_display() {
    assert_eq!(Position::QB.to_string(), "QB");
    assert_eq!(Position::RB.to_string(), "RB");
    assert_eq!(Position::WR.to_string(), "WR");
    assert_eq!(Position::TE.to_string(), "TE");
    assert_eq!(Position::K.to_string(), "K");
    assert_eq!(Position::DEF.to_string(), "D/ST");
}

#[test]
fn types_test_position_from_str_standard() {
    assert_eq!(Position::from_str("QB").unwrap(), Position::QB);
    assert_eq!(Position::from_str("RB").unwrap(), Position::RB);
    assert_eq!(Position::from_str("WR").unwrap(), Position::WR);
    assert_eq!(Position::from_str("TE").unwrap(), Position::TE);
    assert_eq!(Position::from_str("K").unwrap(), Position::K);
}

#[test]
fn types_test_position_from_str_defense_aliases() {
    assert_eq!(Position::from_str("DEF").unwrap(), Position::DEF);
    assert_eq!(Position::from_str("DST").unwrap(), Position::DEF);
    assert_eq!(Position::from_str("D/ST").unwrap(), Position::DEF);
}

#[test]
fn types_test_position_from_str_case_insensitive() {
    assert_eq!(Position::from_str("qb").unwrap(), Position::QB);
    assert_eq!(Position::from_str("Rb").unwrap(), Position::RB);
    assert_eq!(Position::from_str("WR").unwrap(), Position::WR);
}

#[test]
fn types_test_position_from_str_invalid() {
    let result: Result<Position> = Position::from_str("INVALID");
    assert!(result.is_err());
}

#[test]
fn types_test_position_to_u8() {
    assert_eq!(Position::QB.to_u8(), 0);
    assert_eq!(Position::RB.to_u8(), 2);
    assert_eq!(Position::WR.to_u8(), 3);
    assert_eq!(Position::TE.to_u8(), 4);
    assert_eq!(Position::K.to_u8(), 5);
    assert_eq!(Position::DEF.to_u8(), 16);
}

#[test]
fn types_test_position_try_from_u8_valid() {
    assert_eq!(Position::try_from(0).unwrap(), Position::QB);
    assert_eq!(Position::try_from(2).unwrap(), Position::RB);
    assert_eq!(Position::try_from(3).unwrap(), Position::WR);
    assert_eq!(Position::try_from(4).unwrap(), Position::TE);
    assert_eq!(Position::try_from(5).unwrap(), Position::K);
    assert_eq!(Position::try_from(6).unwrap(), Position::TE);
    assert_eq!(Position::try_from(17).unwrap(), Position::K);
    assert_eq!(Position::try_from(16).unwrap(), Position::DEF);
}

#[test]
fn types_test_position_try_from_u8_invalid() {
    let result = Position::try_from(99);
    assert!(result.is_err());
}

#[test]
fn types_test_position_roundtrip_conversion() {
    let positions = vec![
        Position::QB,
        Position::RB,
        Position::WR,
        Position::TE,
        Position::K,
        Position::DEF,
    ];

    for pos in positions {
        let u8_val = pos.to_u8();
        let converted_back = Position::try_from(u8_val).unwrap();
        assert_eq!(pos, converted_back);
    }
}
