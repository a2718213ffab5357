use espn_ffl::espn::draft::{DraftDetail, DraftResponse};
use espn_ffl::espn::types::Team;

fn team(id: u32, name: Option<&str>, abbrev: Option<&str>, owners: &[&str]) -> Team {
    Team {
        id,
        name: name.map(|n| n.to_string()),
        abbrev: abbrev.map(|a| a.to_string()),
        roster: None,
        owners: Some(owners.iter().map(|o| o.to_string()).collect()),
    }
}

fn response() -> DraftResponse {
    DraftResponse {
        draft_detail: DraftDetail { drafted: false, in_progress: true, picks: Vec::new() },
        teams: vec![
            team(1, Some("Gridiron Gurus"), Some("GG"), &["{AAAA-1111}"]),
            team(2, Some("The Replacements"), Some("REP"), &["{BBBB-2222}", "{CCCC-3333}"]),
            team(3, None, Some("ZZZ"), &[]),
        ],
    }
}

#[test]
fn team_lookup_by_id() {
    let r = response();
    assert_eq!(r.team(2).map(|t| t.id), Some(2));
    assert!(r.team(9).is_none());
}

#[test]
fn team_lookup_by_name_ignores_case_and_checks_abbreviations() {
    let r = response();
    assert_eq!(r.team_by_name("gurus").map(|t| t.id), Some(1));
    assert_eq!(r.team_by_name("REPLACE").map(|t| t.id), Some(2));
    assert_eq!(r.team_by_name("zz").map(|t| t.id), Some(3));
    assert!(r.team_by_name("nobody").is_none());
}

#[test]
fn team_lookup_by_owner_normalises_the_swid() {
    let r = response();
    assert_eq!(r.team_for_owner("{cccc-3333}").map(|t| t.id), Some(2));
    assert_eq!(r.team_for_owner("AAAA-1111:").map(|t| t.id), Some(1));
    assert!(r.team_for_owner("{DDDD-4444}").is_none());
}

#[test]
fn team_display_name_falls_back_to_abbreviation_then_id() {
    let r = response();
    assert_eq!(r.teams[0].display_name(), "Gridiron Gurus");
    assert_eq!(r.teams[2].display_name(), "ZZZ");
    let bare = team(7, None, None, &[]);
    assert_eq!(bare.display_name(), "Team 7");
}
