use espn_ffl::cli::types::ids::PlayerId;
use espn_ffl::cli::types::position::Position;
use espn_ffl::commands::player_filters::{estimate_position_ok, roster_tag, status_tag, PlayerStatus};
use espn_ffl::espn::types::InjuryStatus;
use espn_ffl::EspnError;

fn status(injured: Option<bool>, injury: Option<InjuryStatus>, rostered: Option<bool>, team: Option<&str>) -> PlayerStatus {
    PlayerStatus {
        id: PlayerId::new(1),
        injured,
        injury_status: injury,
        is_rostered: rostered,
        team_id: None,
        team_name: team.map(|t| t.to_string()),
    }
}

#[test]
fn status_tag_prefers_the_designation() {
    assert_eq!(status_tag(&status(Some(true), Some(InjuryStatus::Questionable), None, None)), "[Questionable]");
    assert_eq!(status_tag(&status(Some(true), Some(InjuryStatus::InjuryReserve), None, None)), "[IR]");
    assert_eq!(status_tag(&status(Some(true), None, None, None)), "[Injured]");
    assert_eq!(status_tag(&status(Some(false), None, None, None)), "[Active]");
    assert_eq!(status_tag(&status(None, None, None, None)), "[Active]");
}

#[test]
fn roster_tag_names_the_team_or_the_state() {
    assert_eq!(roster_tag(&status(None, None, Some(true), Some("Sharks"))), " (Sharks)");
    assert_eq!(roster_tag(&status(None, None, Some(true), None)), "(Rostered)");
    assert_eq!(roster_tag(&status(None, None, Some(false), Some("Sharks"))), "(FA)");
    assert_eq!(roster_tag(&status(None, None, None, None)), "");
}

#[test]
fn estimates_keep_rosterable_positions_passing_the_filter() {
    let rosterable = [Position::QB, Position::RB, Position::WR, Position::TE];
    assert!(estimate_position_ok("RB", &rosterable, None));
    assert!(!estimate_position_ok("K", &rosterable, None));
    assert!(estimate_position_ok("Unknown", &rosterable, None));
    assert!(!estimate_position_ok("Unknown", &rosterable, Some(&[Position::RB])));
    assert!(estimate_position_ok("wr", &rosterable, Some(&[Position::FLEX])));
    assert!(!estimate_position_ok("QB", &rosterable, Some(&[Position::FLEX])));
    assert!(estimate_position_ok("QB", &rosterable, Some(&[Position::RB, Position::QB])));
    assert!(estimate_position_ok("QB", &rosterable, Some(&[Position::BE])));
}

#[test]
fn unknown_position_names_are_reported_upper_cased() {
    match Position::from_str("bé") {
        Err(EspnError::InvalidPosition { position }) => assert_eq!(position, "BÉ"),
        other => panic!("expected an invalid position, got {:?}", other),
    }
    match Position::from_str("xx") {
        Err(EspnError::InvalidPosition { position }) => assert_eq!(position, "XX"),
        other => panic!("expected an invalid position, got {:?}", other),
    }
}
