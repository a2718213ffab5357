//! The board's ranking, needs, recommendations and live-event handling. Projections and
//! replacement levels go in as millionths of a point; values, ADPs and margins are in
//! tenths: 3000 stands for 300.0.

use espn_ffl::cli::types::ids::PlayerId;
use espn_ffl::cli::types::position::Position;
use espn_ffl::commands::draft_board::{
    apply_live_event, apply_position_filter, board_text, build_entries, build_recommendations,
    classify_outlook, infer_bye_week, remaining_needs, slot_label, DraftBoard, FilePicks,
    LiveDraftState, Outlook, ScoredPlayer,
};
use espn_ffl::espn::live_draft::{DraftEvent, LEFT_REASON_DISPLACED};
use espn_ffl::espn::types::{DraftSettings, LeagueSettings, RosterSettings};
use espn_ffl::espn::vor::ReplacementLevels;

const MILLIONTHS_PER_TENTH: i64 = 100_000;

fn player(id: i64, name: &str, position: Position, tenths: i64, adp: Option<i64>, bye: Option<u16>) -> ScoredPlayer {
    ScoredPlayer {
        player_id: id,
        full_name: Some(name.to_string()),
        position,
        points: tenths * MILLIONTHS_PER_TENTH,
        bye_week: bye,
        average_draft_position: adp,
        auction_value: None,
    }
}

fn scored_pool() -> Vec<ScoredPlayer> {
    vec![
        player(1, "Top RB", Position::RB, 3000, Some(15), Some(6)),
        player(2, "Mid RB", Position::RB, 2500, Some(200), Some(7)),
        player(3, "Low RB", Position::RB, 2000, Some(400), None),
        player(4, "Big QB", Position::QB, 3800, Some(300), Some(9)),
    ]
}

fn levels_for_test() -> ReplacementLevels {
    ReplacementLevels {
        starter_counts: Vec::new(),
        replacement_points: vec![
            (Position::QB, 3500 * MILLIONTHS_PER_TENTH),
            (Position::RB, 1500 * MILLIONTHS_PER_TENTH),
        ],
    }
}

fn settings_with_slots(slots: &[(u8, u32)]) -> LeagueSettings {
    let mut lineup_slot_counts: Vec<(String, u32)> = Vec::new();
    for s in 0..=24u8 {
        let count = slots.iter().find(|(slot, _)| *slot == s).map(|(_, c)| *c).unwrap_or(0);
        lineup_slot_counts.push((s.to_string(), count));
    }
    lineup_slot_counts.retain(|(k, _)| k != "20");
    lineup_slot_counts.push(("20".to_string(), 5));
    LeagueSettings {
        roster_settings: RosterSettings {
            lineup_slot_counts,
            position_limits: Vec::new(),
        },
        draft_settings: DraftSettings {
            draft_type: None,
            date: None,
            pick_order: None,
            auction_budget: None,
            time_per_selection: None,
            keeper_count: None,
        },
        size: None,
        name: None,
    }
}

#[test]
fn infer_bye_week_finds_the_missing_week() {
    assert_eq!(infer_bye_week(&[1, 2, 4, 5]), Some(3));
}

#[test]
fn infer_bye_week_is_none_without_projections() {
    assert_eq!(infer_bye_week(&[]), None);
    assert_eq!(infer_bye_week(&[1, 2, 3]), None);
}

#[test]
fn entries_rank_by_value_not_raw_points() {
    let entries = build_entries(&scored_pool(), &levels_for_test(), &[], None);

    assert_eq!(entries[0].name, "Top RB");
    assert_eq!(entries[0].value_rank, 1);
    assert_eq!(entries[0].value_over_replacement, 1500);

    let qb = entries.iter().find(|e| e.name == "Big QB").unwrap();
    assert_eq!(qb.value_over_replacement, 300);
    assert_eq!(qb.value_rank, 4, "highest projection should still rank last");
}

#[test]
fn adp_delta_flags_players_going_later_than_their_value() {
    let entries = build_entries(&scored_pool(), &levels_for_test(), &[], None);

    let low = entries.iter().find(|e| e.name == "Low RB").unwrap();
    assert_eq!(low.value_rank, 3);
    assert_eq!(low.adp_delta, Some(370), "positive delta means a bargain");

    let top = entries.iter().find(|e| e.name == "Top RB").unwrap();
    assert_eq!(top.adp_delta, Some(5));
}

#[test]
fn drafted_players_are_marked_and_attributed() {
    let taken = [PlayerId::new(1)];
    let entries = build_entries(&scored_pool(), &levels_for_test(), &taken, None);

    let top = entries.iter().find(|e| e.name == "Top RB").unwrap();
    assert!(top.drafted);

    let mid = entries.iter().find(|e| e.name == "Mid RB").unwrap();
    assert!(!mid.drafted);
}

#[test]
fn position_filter_preserves_overall_value_ranks() {
    let mut entries = build_entries(&scored_pool(), &levels_for_test(), &[], None);
    apply_position_filter(&mut entries, Some(&[Position::QB]));

    assert_eq!(entries.len(), 1);
    assert_eq!(entries[0].name, "Big QB");
    assert_eq!(entries[0].value_rank, 4);
}

#[test]
fn position_filter_is_a_no_op_when_absent_or_empty() {
    let full = build_entries(&scored_pool(), &levels_for_test(), &[], None);

    let mut none_filter = full.clone();
    apply_position_filter(&mut none_filter, None);
    assert_eq!(none_filter.len(), full.len());

    let mut empty_filter = full.clone();
    apply_position_filter(&mut empty_filter, Some(&[]));
    assert_eq!(empty_filter.len(), full.len());
}

#[test]
fn remaining_needs_subtracts_slots_already_filled() {
    let settings = settings_with_slots(&[(0, 1), (2, 2)]);

    assert_eq!(remaining_needs(&settings, &[Position::RB]), vec![0, 2]);
    assert_eq!(remaining_needs(&settings, &[]), vec![0, 2, 2]);
    assert_eq!(
        remaining_needs(&settings, &[Position::K, Position::K]),
        vec![0, 2, 2]
    );
}

#[test]
fn remaining_needs_fills_dedicated_slots_before_flex() {
    let settings = settings_with_slots(&[(0, 1), (2, 1), (4, 1), (23, 1)]);

    assert_eq!(
        remaining_needs(&settings, &[Position::RB]),
        vec![0, 4, 23],
        "RB should claim the dedicated RB slot"
    );
    assert_eq!(
        remaining_needs(&settings, &[Position::RB, Position::RB]),
        vec![0, 4]
    );
    assert_eq!(
        remaining_needs(&settings, &[Position::QB, Position::QB]),
        vec![2, 4, 23],
        "a backup QB cannot fill the flex"
    );
}

fn live_state(need_slots: Vec<u8>, next_pick: Option<u32>) -> LiveDraftState {
    LiveDraftState {
        drafted: false,
        in_progress: true,
        picks_made: 10,
        total_picks: 100,
        current_round: Some(1),
        current_overall_pick: Some(11),
        on_the_clock: Some("Someone".to_string()),
        my_team: Some("Me".to_string()),
        my_team_id: Some(1),
        my_roster: Vec::new(),
        my_needs: need_slots.iter().copied().map(slot_label).collect(),
        my_need_slots: need_slots,
        next_pick_overall: next_pick,
        next_pick_round: Some(2),
    }
}

#[test]
fn recommendations_only_cover_positions_the_team_still_needs() {
    let entries = build_entries(&scored_pool(), &levels_for_test(), &[], None);
    let recs = build_recommendations(&entries, &live_state(vec![0], Some(25)), 12, 3);

    assert_eq!(recs.len(), 1);
    assert_eq!(recs[0].name, "Big QB");
    assert_eq!(recs[0].fills_need, "QB");
    assert_eq!(recs[0].value_rank, 4);
}

#[test]
fn recommendations_keep_the_boards_value_order_and_respect_the_limit() {
    let entries = build_entries(&scored_pool(), &levels_for_test(), &[], None);
    let recs = build_recommendations(&entries, &live_state(vec![2, 2, 0], Some(25)), 12, 3);

    let names: Vec<&str> = recs.iter().map(|r| r.name.as_str()).collect();
    assert_eq!(names, vec!["Top RB", "Mid RB", "Low RB"]);
}

#[test]
fn recommendations_skip_players_already_drafted() {
    let taken = [PlayerId::new(1)];
    let entries = build_entries(&scored_pool(), &levels_for_test(), &taken, None);
    let recs = build_recommendations(&entries, &live_state(vec![2], Some(25)), 12, 3);

    assert!(
        !recs.iter().any(|r| r.name == "Top RB"),
        "a drafted player must not be recommended"
    );
    assert_eq!(recs[0].name, "Mid RB");
}

#[test]
fn recommendations_fall_back_to_best_available_once_starters_are_full() {
    let entries = build_entries(&scored_pool(), &levels_for_test(), &[], None);
    let recs = build_recommendations(&entries, &live_state(Vec::new(), Some(25)), 12, 3);

    assert_eq!(recs.len(), 3);
    assert_eq!(recs[0].name, "Top RB");
    assert!(recs.iter().all(|r| r.fills_need == "BE"));
}

#[test]
fn recommendations_are_empty_without_an_identified_team() {
    let entries = build_entries(&scored_pool(), &levels_for_test(), &[], None);

    let mut anonymous = live_state(vec![2], Some(25));
    anonymous.my_team = None;
    assert!(build_recommendations(&entries, &anonymous, 12, 3).is_empty());

    let mut done = live_state(vec![2], None);
    done.drafted = true;
    assert!(build_recommendations(&entries, &done, 12, 3).is_empty());
}

#[test]
fn survival_margin_measures_adp_against_the_teams_next_pick() {
    let entries = build_entries(&scored_pool(), &levels_for_test(), &[], None);
    let recs = build_recommendations(&entries, &live_state(vec![2, 2, 2], Some(25)), 12, 3);

    let top = recs.iter().find(|r| r.name == "Top RB").unwrap();
    assert_eq!(top.survival_margin, Some(-235));
    assert_eq!(top.outlook, Outlook::TakeNow);

    let low = recs.iter().find(|r| r.name == "Low RB").unwrap();
    assert_eq!(low.survival_margin, Some(150));
    assert_eq!(low.outlook, Outlook::CanWait);
}

#[test]
fn outlook_is_unknown_without_a_next_pick_or_an_adp() {
    let entries = build_entries(&scored_pool(), &levels_for_test(), &[], None);
    let recs = build_recommendations(&entries, &live_state(vec![2], None), 12, 3);

    assert_eq!(recs[0].survival_margin, None);
    assert_eq!(recs[0].outlook, Outlook::Unknown);
}

#[test]
fn outlook_bands_scale_with_league_size() {
    assert_eq!(classify_outlook(Some(-31), 12), Outlook::TakeNow);
    assert_eq!(classify_outlook(Some(-30), 12), Outlook::CoinFlip);
    assert_eq!(classify_outlook(Some(0), 12), Outlook::CoinFlip);
    assert_eq!(classify_outlook(Some(60), 12), Outlook::CoinFlip);
    assert_eq!(classify_outlook(Some(61), 12), Outlook::CanWait);

    assert_eq!(classify_outlook(Some(40), 12), Outlook::CoinFlip);
    assert_eq!(classify_outlook(Some(40), 6), Outlook::CanWait);
    assert_eq!(classify_outlook(None, 12), Outlook::Unknown);
}

#[test]
fn outlook_is_stricter_before_the_pick_than_after_it() {
    assert_eq!(classify_outlook(Some(-40), 12), Outlook::TakeNow);
    assert_eq!(classify_outlook(Some(40), 12), Outlook::CoinFlip);
}

#[test]
fn live_picks_are_recorded_and_attributed_to_the_right_team() {
    let pool = scored_pool();
    let mut picks = FilePicks::new();

    let note = apply_live_event(
        DraftEvent::Selected {
            team_id: 9,
            player_id: PlayerId::new(1),
            slot_id: 2,
        },
        &mut picks,
        9,
        &pool,
    );
    assert!(note.unwrap().contains("YOURS"), "own pick should be flagged");
    assert_eq!(picks.mine().len(), 1);

    apply_live_event(
        DraftEvent::Selected {
            team_id: 4,
            player_id: PlayerId::new(2),
            slot_id: 2,
        },
        &mut picks,
        9,
        &pool,
    );
    assert_eq!(picks.len(), 2);
    assert_eq!(picks.mine().len(), 1, "another team's pick is not mine");
}

#[test]
fn auction_sales_count_as_picks() {
    let pool = scored_pool();
    let mut picks = FilePicks::new();
    apply_live_event(
        DraftEvent::Sold {
            team_id: 3,
            player_id: PlayerId::new(1),
            slot_id: 2,
            bid: 41,
        },
        &mut picks,
        3,
        &pool,
    );
    assert_eq!(picks.len(), 1);
}

#[test]
fn a_repeated_pick_event_is_ignored() {
    let pool = scored_pool();
    let mut picks = FilePicks::new();
    let event = || DraftEvent::Selected {
        team_id: 9,
        player_id: PlayerId::new(1),
        slot_id: 2,
    };
    apply_live_event(event(), &mut picks, 9, &pool);
    assert!(apply_live_event(event(), &mut picks, 9, &pool).is_none());
    assert_eq!(picks.len(), 1);
}

#[test]
fn undone_puts_the_player_back_on_the_board() {
    let pool = scored_pool();
    let mut picks = FilePicks::new();
    apply_live_event(
        DraftEvent::Selected {
            team_id: 9,
            player_id: PlayerId::new(1),
            slot_id: 2,
        },
        &mut picks,
        9,
        &pool,
    );
    let note = apply_live_event(DraftEvent::Undone { pick_number: 1 }, &mut picks, 9, &pool);
    assert!(note.unwrap().contains("back on the board"));
    assert_eq!(picks.len(), 0);
}

#[test]
fn being_displaced_is_reported_only_for_our_own_team() {
    let pool = scored_pool();
    let mut picks = FilePicks::new();

    let note = apply_live_event(
        DraftEvent::Left {
            team_id: 9,
            reason: LEFT_REASON_DISPLACED,
        },
        &mut picks,
        9,
        &pool,
    );
    assert!(note.unwrap().contains("took over your draft session"));

    assert!(apply_live_event(
        DraftEvent::Left {
            team_id: 4,
            reason: LEFT_REASON_DISPLACED
        },
        &mut picks,
        9,
        &pool
    )
    .is_none());
}

#[test]
fn being_on_the_clock_is_called_out() {
    let pool = scored_pool();
    let mut picks = FilePicks::new();
    let mine = apply_live_event(
        DraftEvent::Selecting {
            team_id: 9,
            seconds: 60_000,
        },
        &mut picks,
        9,
        &pool,
    );
    let mine = mine.unwrap();
    assert!(mine.contains("YOU ARE ON THE CLOCK"));
    assert!(mine.contains("60s"), "got {mine}");
}

#[test]
fn another_teams_turn_does_not_disturb_the_board() {
    let pool = scored_pool();
    let mut picks = FilePicks::new();
    assert!(apply_live_event(
        DraftEvent::Selecting {
            team_id: 4,
            seconds: 60_000
        },
        &mut picks,
        9,
        &pool
    )
    .is_none());
}

#[test]
fn board_text_renders_without_printing() {
    let board = DraftBoard {
        league_name: Some("Test".to_string()),
        season: 2026,
        team_count: 12,
        starting_lineup: vec![("QB".to_string(), 1)],
        starters_by_position: Vec::new(),
        replacement_points: Vec::new(),
        entries: build_entries(&scored_pool(), &levels_for_test(), &[], None),
        live: None,
        recommendations: Vec::new(),
        unmatched_picks: Vec::new(),
    };
    let text = board_text(&board, 2);
    assert!(text.contains("Test · 2026 · 12 teams"));
    assert!(text.contains("Top RB"), "the board rows are present");
    assert!(!text.contains("Low RB"), "row limit is honoured");
}

#[test]
fn value_over_replacement_is_rounded_once_from_the_exact_difference() {
    let scored = vec![ScoredPlayer {
        player_id: 9,
        full_name: Some("Close Call".to_string()),
        position: Position::RB,
        points: 100_040_000,
        bye_week: None,
        average_draft_position: None,
        auction_value: None,
    }];
    let levels = ReplacementLevels { starter_counts: Vec::new(), replacement_points: vec![(Position::RB, 50_060_000)] };
    let entries = build_entries(&scored, &levels, &[], None);
    assert_eq!(entries[0].value_over_replacement, 500, "49.98 rounds to 50.0");
    assert_eq!(entries[0].projected_points, 1000, "100.04 rounds to 100.0");
}

#[test]
fn values_that_round_alike_keep_pool_order() {
    let mk = |id: i64, points: i64| ScoredPlayer {
        player_id: id,
        full_name: Some(format!("P{}", id)),
        position: Position::WR,
        points,
        bye_week: None,
        average_draft_position: None,
        auction_value: None,
    };
    let scored = vec![mk(1, 10_010_000), mk(2, 10_040_000), mk(3, 20_000_000)];
    let levels = ReplacementLevels { starter_counts: Vec::new(), replacement_points: vec![(Position::WR, 0)] };
    let entries = build_entries(&scored, &levels, &[], None);
    let ids: Vec<i64> = entries.iter().map(|e| e.player_id.0).collect();
    assert_eq!(ids, vec![3, 1, 2]);
    assert_eq!(entries[1].value_over_replacement, entries[2].value_over_replacement);
    assert_eq!(entries[2].value_rank, 3);
}
