use espn_ffl::cli::types::ids::PlayerId;
use espn_ffl::cli::types::position::Position;
use espn_ffl::commands::draft_board::{
    my_turn_by_schedule, repaint_frame, slot_aware_match, slot_flexibility, slot_label, FilePicks,
};
use espn_ffl::espn::draft::{DraftDetail, DraftPick, DraftResponse};

#[test]
fn slot_aware_match_treats_flex_as_rb_wr_te() {
    assert!(slot_aware_match(Position::FLEX, Position::RB));
    assert!(slot_aware_match(Position::FLEX, Position::WR));
    assert!(slot_aware_match(Position::FLEX, Position::TE));
    assert!(!slot_aware_match(Position::FLEX, Position::QB));
    assert!(slot_aware_match(Position::QB, Position::QB));
    assert!(!slot_aware_match(Position::QB, Position::RB));
}

#[test]
fn slot_flexibility_orders_dedicated_slots_ahead_of_flex() {
    assert_eq!(slot_flexibility(0), 1);
    assert_eq!(slot_flexibility(2), 1);
    assert_eq!(slot_flexibility(3), 2);
    assert_eq!(slot_flexibility(23), 3);
    assert_eq!(slot_flexibility(7), 4);
}

fn unmade(overall: u32, team: Option<u32>) -> DraftPick {
    DraftPick {
        player_id: -1,
        team_id: team,
        overall_pick_number: overall,
        round_id: 1,
        round_pick_number: overall,
        lineup_slot_id: None,
        bid_amount: None,
        keeper: false,
        member_id: None,
    }
}

#[test]
fn the_schedule_says_whose_turn_it_is() {
    let pick = |overall: u32, team: Option<u32>| unmade(overall, team);
    let draft = DraftResponse {
        draft_detail: DraftDetail {
            drafted: false,
            in_progress: true,
            picks: vec![pick(1, Some(4)), pick(2, Some(9)), pick(3, Some(4))],
        },
        teams: vec![],
    };

    let mut picks = FilePicks::new();
    assert!(my_turn_by_schedule(&draft, &picks, 4));
    assert!(!my_turn_by_schedule(&draft, &picks, 9));

    picks.picks.push((PlayerId::new(1), false));
    assert!(my_turn_by_schedule(&draft, &picks, 9));
    assert!(!my_turn_by_schedule(&draft, &picks, 4));
}

#[test]
fn an_auction_has_no_schedule_to_read() {
    let draft = DraftResponse {
        draft_detail: DraftDetail {
            drafted: false,
            in_progress: true,
            picks: vec![unmade(1, None)],
        },
        teams: vec![],
    };
    assert!(!my_turn_by_schedule(&draft, &FilePicks::new(), 4));
}

#[test]
fn repaint_overwrites_rather_than_blanking_the_screen() {
    let painted = repaint_frame("alpha\nbeta");
    assert!(
        !painted.contains("\x1b[2J"),
        "must not clear the whole screen"
    );
    assert!(painted.starts_with("\x1b[H"), "must home the cursor first");
    assert!(painted.ends_with("\x1b[J"), "leftover rows dropped last");
    assert_eq!(
        painted.matches("\x1b[K").count(),
        2,
        "every line wiped as rewritten"
    );
    assert_eq!(painted, "\x1b[Halpha\x1b[K\nbeta\x1b[K\n\x1b[J");
}

#[test]
fn slot_label_covers_the_common_slots() {
    assert_eq!(slot_label(0), "QB");
    assert_eq!(slot_label(4), "WR");
    assert_eq!(slot_label(23), "FLEX");
    assert_eq!(slot_label(16), "D/ST");
    assert_eq!(slot_label(99), "SLOT99");
}
