use espn_ffl::cli::types::ids::LeagueId;
use espn_ffl::cli::types::time::{Season, Week};
use espn_ffl::EspnError;

const SAMPLES: [&str; 22] = [
    "", "+", "-", "-1", "0", "+0", "12a", "a12", "4294967295", "4294967296", "99999999999x", "x99999999999",
    "1 ", " 1", "++1", "65535", "65536", "655350000x", "\u{663}", "00000000000000000001", "+4294967295", "1_000",
];

fn message_of(e: EspnError) -> String {
    match e {
        EspnError::InvalidLeagueId { message } => message,
        other => panic!("unexpected {:?}", other),
    }
}

#[test]
fn league_ids_parse_as_u32_does() {
    for s in SAMPLES {
        match (LeagueId::from_str(s), s.parse::<u32>()) {
            (Ok(id), Ok(v)) => assert_eq!(id.as_u32(), v, "{:?}", s),
            (Err(e), Err(std_err)) => assert_eq!(message_of(e), std_err.to_string(), "{:?}", s),
            (mine, theirs) => panic!("{:?}: {:?} vs {:?}", s, mine, theirs),
        }
    }
}

#[test]
fn seasons_and_weeks_parse_as_u16_does() {
    for s in SAMPLES {
        match (Season::from_str(s), s.parse::<u16>()) {
            (Ok(season), Ok(v)) => assert_eq!(season.as_u16(), v, "{:?}", s),
            (Err(e), Err(std_err)) => assert_eq!(message_of(e), std_err.to_string(), "{:?}", s),
            (mine, theirs) => panic!("{:?}: {:?} vs {:?}", s, mine, theirs),
        }
        match (Week::from_str(s), s.parse::<u16>()) {
            (Ok(week), Ok(v)) => assert_eq!(week.as_u16(), v, "{:?}", s),
            (Err(e), Err(std_err)) => assert_eq!(message_of(e), std_err.to_string(), "{:?}", s),
            (mine, theirs) => panic!("{:?}: {:?} vs {:?}", s, mine, theirs),
        }
    }
}

#[test]
fn each_parse_fault_has_its_message() {
    assert_eq!(message_of(LeagueId::from_str("").unwrap_err()), "cannot parse integer from empty string");
    assert_eq!(message_of(LeagueId::from_str("4294967296").unwrap_err()), "number too large to fit in target type");
    assert_eq!(message_of(LeagueId::from_str("99999999999x").unwrap_err()), "number too large to fit in target type");
    assert_eq!(message_of(LeagueId::from_str("12x99999999999").unwrap_err()), "invalid digit found in string");
    assert_eq!(message_of(LeagueId::from_str("+").unwrap_err()), "invalid digit found in string");
    assert_eq!(message_of(Week::from_str("65536").unwrap_err()), "number too large to fit in target type");
}
