use espn_ffl::cli::types::ids::PlayerId;
use espn_ffl::espn::live_draft::{
    parse_event, recover_prior_picks, swid_for_draft, DraftEvent, PriorPick, LEFT_REASON_DISPLACED,
};

fn draft_team(league: u32, team: u32, owners: u32, slots: &[u32]) -> Vec<u8> {
    let mut out = Vec::new();
    let int = |v: u32, out: &mut Vec<u8>| out.extend_from_slice(&v.to_be_bytes());
    int(1, &mut out);
    int(2, &mut out);
    int(league, &mut out);
    int(team, &mut out);
    int(0, &mut out);
    int(0, &mut out);
    int(100, &mut out);
    int(owners, &mut out);
    for _ in 0..owners {
        int(1, &mut out);
        int(1, &mut out);
        int(league, &mut out);
        int(team, &mut out);
        int(7, &mut out);
        out.extend_from_slice(&[0, 1, 0]);
    }
    int(slots.len() as u32, &mut out);
    for (i, player) in slots.iter().enumerate() {
        int(1, &mut out);
        int(1, &mut out);
        int(league, &mut out);
        int(team, &mut out);
        int(i as u32, &mut out);
        int(*player, &mut out);
        out.push(0);
    }
    out
}

#[test]
fn recovers_picks_and_skips_empty_slots() {
    const LEAGUE: u32 = 4242;
    let mut blob = vec![0u8; 8];
    blob.extend(draft_team(LEAGUE, 3, 1, &[900, u32::MAX, 901]));
    blob.extend(draft_team(LEAGUE, 4, 1, &[u32::MAX, 902]));

    let picks = recover_prior_picks(&blob, LEAGUE);
    assert_eq!(
        picks,
        vec![
            PriorPick {
                team_id: 3,
                slot_id: 0,
                player_id: PlayerId::new(900)
            },
            PriorPick {
                team_id: 3,
                slot_id: 2,
                player_id: PlayerId::new(901)
            },
            PriorPick {
                team_id: 4,
                slot_id: 1,
                player_id: PlayerId::new(902)
            },
        ],
        "empty slots (-1) are not picks"
    );
}

#[test]
fn a_team_with_nothing_drafted_yields_nothing() {
    const LEAGUE: u32 = 7;
    let blob = draft_team(LEAGUE, 1, 1, &[u32::MAX; 16]);
    assert!(recover_prior_picks(&blob, LEAGUE).is_empty());
}

#[test]
fn multiple_owners_are_walked_before_the_roster() {
    const LEAGUE: u32 = 11;
    let blob = draft_team(LEAGUE, 2, 3, &[555]);
    assert_eq!(
        recover_prior_picks(&blob, LEAGUE),
        vec![PriorPick {
            team_id: 2,
            slot_id: 0,
            player_id: PlayerId::new(555)
        }]
    );
}

#[test]
fn another_leagues_records_are_ignored() {
    let blob = draft_team(999, 1, 1, &[900]);
    assert!(recover_prior_picks(&blob, 4242).is_empty());
}

#[test]
fn a_false_anchor_is_discarded_rather_than_yielding_junk() {
    const LEAGUE: u32 = 4242;
    let mut blob = Vec::new();
    blob.extend_from_slice(&1u32.to_be_bytes());
    blob.extend_from_slice(&2u32.to_be_bytes());
    blob.extend_from_slice(&LEAGUE.to_be_bytes());
    blob.extend_from_slice(&[0xAB; 64]);
    assert!(recover_prior_picks(&blob, LEAGUE).is_empty());

    blob.extend(draft_team(LEAGUE, 5, 1, &[777]));
    assert_eq!(recover_prior_picks(&blob, LEAGUE).len(), 1);
}

#[test]
fn a_truncated_roster_drops_the_whole_team() {
    const LEAGUE: u32 = 4242;
    let mut blob = draft_team(LEAGUE, 3, 1, &[900, 901]);
    blob.truncate(blob.len() - 10);
    assert!(
        recover_prior_picks(&blob, LEAGUE).is_empty(),
        "a partial team is worse than none: the offsets were wrong throughout"
    );
}

#[test]
fn init_payload_is_exposed_for_recovery() {
    match parse_event("INIT AAAAAQ==") {
        Some(DraftEvent::Init { blob }) => assert_eq!(blob, "AAAAAQ=="),
        other => panic!("expected Init, got {:?}", other),
    }
}

#[test]
fn swid_keeps_braces_and_drops_the_trailing_separator() {
    let want = "{ABC-123}";
    assert_eq!(swid_for_draft("{ABC-123}"), want);
    assert_eq!(swid_for_draft("{ABC-123}:"), want);
    assert_eq!(swid_for_draft("  {ABC-123}: "), want);
    assert_eq!(swid_for_draft("ABC-123"), want);
}

#[test]
fn parses_a_pick() {
    assert_eq!(
        parse_event("SELECTED 8 4429795 2"),
        Some(DraftEvent::Selected {
            team_id: 8,
            player_id: PlayerId::new(4429795),
            slot_id: 2,
        })
    );
}

#[test]
fn parses_the_clock_and_who_is_up() {
    assert_eq!(
        parse_event("SELECTING 3 90"),
        Some(DraftEvent::Selecting {
            team_id: 3,
            seconds: 90
        })
    );
    assert_eq!(
        parse_event("CLOCK 2 6549 8 4429160 47"),
        Some(DraftEvent::Clock {
            phase: 2,
            time: 6549,
            team_id: 8,
            player_id: 4429160,
            amount: 47
        })
    );
}

#[test]
fn parses_eviction() {
    assert_eq!(
        parse_event("LEFT 1 {00000000-1111-2222-3333-444444444444} 2"),
        Some(DraftEvent::Left {
            team_id: 1,
            reason: LEFT_REASON_DISPLACED
        })
    );
}

#[test]
fn parses_auction_messages() {
    assert_eq!(
        parse_event("SOLD 4 3139477 6 42"),
        Some(DraftEvent::Sold {
            team_id: 4,
            player_id: PlayerId::new(3139477),
            slot_id: 6,
            bid: 42
        })
    );
}

#[test]
fn decodes_in_band_errors() {
    assert_eq!(
        parse_event("ERROR 1 Invalid+arguments+for+command."),
        Some(DraftEvent::Error {
            message: "1 Invalid arguments for command.".to_string()
        })
    );
}

#[test]
fn unmodelled_verbs_are_preserved_rather_than_dropped() {
    match parse_event("NOMINATION 7 30") {
        Some(DraftEvent::Other { verb, raw }) => {
            assert_eq!(verb, "NOMINATION");
            assert_eq!(raw, "NOMINATION 7 30");
        }
        other => panic!("expected Other, got {:?}", other),
    }
    assert_eq!(parse_event(""), None);
}

#[test]
fn undone_joined_and_missing_fields() {
    assert_eq!(parse_event("UNDONE 17"), Some(DraftEvent::Undone { pick_number: 17 }));
    assert_eq!(parse_event("JOINED 5"), Some(DraftEvent::Joined { team_id: 5 }));
    assert_eq!(parse_event("SELECTED 8"), None);
    assert_eq!(parse_event("SELECTED x 1 2"), None);
    assert_eq!(parse_event("   "), None);
}
