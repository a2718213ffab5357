use espn_ffl::cli::types::ids::PlayerId;
use espn_ffl::espn::draft::{normalize_swid, DraftDetail, DraftPick, UNDRAFTED_PLAYER_ID};

fn pick(overall: u32, round: u32, team: u32, player: i64) -> DraftPick {
    DraftPick {
        player_id: player,
        team_id: Some(team),
        overall_pick_number: overall,
        round_id: round,
        round_pick_number: overall,
        lineup_slot_id: None,
        bid_amount: None,
        keeper: false,
        member_id: None,
    }
}

fn detail() -> DraftDetail {
    DraftDetail {
        drafted: false,
        in_progress: true,
        picks: vec![
            pick(1, 1, 5, 3000),
            pick(2, 1, 6, 3001),
            pick(3, 1, 7, UNDRAFTED_PLAYER_ID),
            pick(4, 1, 8, UNDRAFTED_PLAYER_ID),
        ],
    }
}

#[test]
fn taken_players_excludes_open_slots() {
    let taken = detail().taken_players();
    assert_eq!(taken.len(), 2);
    assert!(taken.contains(&PlayerId::new(3000)));
    assert!(!taken.contains(&PlayerId::new(-1)));
}

#[test]
fn on_the_clock_is_the_lowest_unmade_pick() {
    let d = detail();
    assert_eq!(d.on_the_clock().unwrap().overall_pick_number, 3);
}

#[test]
fn on_the_clock_is_none_when_draft_is_complete() {
    let mut d = detail();
    for p in &mut d.picks {
        p.player_id = 999;
    }
    assert!(d.on_the_clock().is_none());
}

#[test]
fn picks_for_team_filters_and_orders() {
    let mut d = detail();
    d.picks.push(pick(5, 2, 5, 3005));
    let team_five = d.picks_for_team(5);
    assert_eq!(team_five.len(), 2);
    assert_eq!(team_five[0].overall_pick_number, 1);
    assert_eq!(team_five[1].overall_pick_number, 5);
}

#[test]
fn normalize_swid_handles_braces_and_trailing_separator() {
    let canonical = normalize_swid("{00000000-1111-2222-3333-444444444444}");
    assert_eq!(
        normalize_swid("{00000000-1111-2222-3333-444444444444}:"),
        canonical
    );
    assert_eq!(
        normalize_swid("00000000-1111-2222-3333-444444444444"),
        canonical
    );
    assert_eq!(
        normalize_swid("{00000000-1111-2222-3333-AAAAAAAAAAAA}"),
        normalize_swid("00000000-1111-2222-3333-aaaaaaaaaaaa")
    );
}

#[test]
fn completed_picks_come_in_pick_order_and_rounds_are_counted() {
    let mut d = detail();
    d.picks.push(pick(6, 2, 6, 3010));
    d.picks.insert(0, pick(5, 2, 5, 3009));
    let done: Vec<u32> = d.completed_picks().iter().map(|p| p.overall_pick_number).collect();
    assert_eq!(done, vec![1, 2, 5, 6]);
    assert_eq!(d.total_rounds(), 2);
    assert_eq!(d.next_pick_for_team(7).unwrap().overall_pick_number, 3);
    assert!(d.next_pick_for_team(5).is_none());
}

#[test]
fn a_drafted_player_is_reported_only_for_made_picks() {
    assert_eq!(pick(1, 1, 1, 42).drafted_player(), Some(PlayerId::new(42)));
    assert!(pick(1, 1, 1, UNDRAFTED_PLAYER_ID).drafted_player().is_none());
    assert!(pick(1, 1, 1, 42).is_made());
}
