use espn_ffl::cli::types::position::Position;
use espn_ffl::espn::types::{DraftSettings, InjuryStatus, LeagueSettings, RosterSettings};
use espn_ffl::espn::vor::{compute_replacement_levels, position_for_slot, Projected};

const ALL: [InjuryStatus; 8] = [
    InjuryStatus::Active,
    InjuryStatus::InjuryReserve,
    InjuryStatus::Out,
    InjuryStatus::Doubtful,
    InjuryStatus::Questionable,
    InjuryStatus::Probable,
    InjuryStatus::DayToDay,
    InjuryStatus::Unknown,
];

#[test]
fn round_trips_through_its_stored_form() {
    for status in ALL {
        let stored = status.as_str();
        assert_eq!(
            InjuryStatus::from_str(&stored),
            status,
            "{} did not round trip",
            stored
        );
    }
}

#[test]
fn accepts_espn_wire_spellings() {
    assert_eq!(
        InjuryStatus::from_str("INJURY_RESERVE"),
        InjuryStatus::InjuryReserve
    );
    assert_eq!(InjuryStatus::from_str("DAY_TO_DAY"), InjuryStatus::DayToDay);
}

#[test]
fn unrecognised_values_become_unknown() {
    assert_eq!(InjuryStatus::from_str("SOMETHING_NEW"), InjuryStatus::Unknown);
}

const FLEX_SLOT: u8 = 23;

fn settings_with_slots(slots: &[(u8, u32)]) -> LeagueSettings {
    let mut lineup_slot_counts: Vec<(String, u32)> = Vec::new();
    for s in 0..=24u8 {
        let count = slots.iter().find(|(slot, _)| *slot == s).map(|(_, c)| *c).unwrap_or(0);
        lineup_slot_counts.push((s.to_string(), count));
    }
    LeagueSettings {
        roster_settings: RosterSettings {
            lineup_slot_counts,
            position_limits: Vec::new(),
        },
        draft_settings: DraftSettings {
            draft_type: None,
            date: None,
            pick_order: None,
            auction_budget: None,
            time_per_selection: None,
            keeper_count: None,
        },
        size: None,
        name: None,
    }
}

/// Points are in tenths: 3000 stands for 300.0.
fn pool(entries: &[(Position, i64)]) -> Vec<Projected> {
    entries
        .iter()
        .map(|(position, points)| Projected {
            position: *position,
            points: *points,
        })
        .collect()
}

fn starters(levels: &espn_ffl::espn::vor::ReplacementLevels, p: Position) -> Option<usize> {
    levels.starter_counts.iter().find(|(q, _)| *q == p).map(|(_, n)| *n)
}

#[test]
fn position_for_slot_rejects_ambiguous_slots() {
    assert_eq!(position_for_slot(0), Some(Position::QB));
    assert_eq!(position_for_slot(6), Some(Position::TE));
    assert_eq!(position_for_slot(17), Some(Position::K));
    assert_eq!(position_for_slot(FLEX_SLOT), None);
}

#[test]
fn replacement_level_is_the_player_after_the_last_starter() {
    let settings = settings_with_slots(&[(0, 1)]);
    let players = pool(&[
        (Position::QB, 3000),
        (Position::QB, 2800),
        (Position::QB, 2500),
        (Position::QB, 2000),
    ]);

    let levels = compute_replacement_levels(&settings, &players, 2);

    assert_eq!(starters(&levels, Position::QB), Some(2));
    assert_eq!(levels.replacement_for(Position::QB), 2500);
    assert_eq!(levels.value_over_replacement(Position::QB, 3000), 500);
}

#[test]
fn scarce_positions_produce_higher_value_than_raw_points() {
    let settings = settings_with_slots(&[(0, 1), (6, 1)]);
    let players = pool(&[
        (Position::QB, 3000),
        (Position::QB, 2950),
        (Position::QB, 2900),
        (Position::TE, 2400),
        (Position::TE, 1600),
        (Position::TE, 1500),
    ]);

    let levels = compute_replacement_levels(&settings, &players, 2);

    let qb_value = levels.value_over_replacement(Position::QB, 3000);
    let te_value = levels.value_over_replacement(Position::TE, 2400);
    assert!(te_value > qb_value);
}

#[test]
fn flex_slots_deepen_the_position_that_fills_them() {
    let settings = settings_with_slots(&[(2, 1), (4, 1), (FLEX_SLOT, 1)]);
    let players = pool(&[
        (Position::WR, 3000),
        (Position::WR, 2900),
        (Position::WR, 2800),
        (Position::RB, 2000),
        (Position::RB, 1900),
        (Position::RB, 1800),
    ]);

    let levels = compute_replacement_levels(&settings, &players, 1);

    assert_eq!(starters(&levels, Position::WR), Some(2), "WR takes the flex");
    assert_eq!(starters(&levels, Position::RB), Some(1));
    assert_eq!(levels.replacement_for(Position::WR), 2800);
    assert_eq!(levels.replacement_for(Position::RB), 1900);
}

#[test]
fn zero_count_slots_are_ignored() {
    let settings = settings_with_slots(&[(0, 1)]);
    let players = pool(&[(Position::QB, 3000), (Position::QB, 2500)]);

    let levels = compute_replacement_levels(&settings, &players, 1);

    assert_eq!(levels.starter_counts.len(), 1);
    assert!(starters(&levels, Position::QB).is_some());
}

#[test]
fn shallow_pool_falls_back_to_worst_available() {
    let settings = settings_with_slots(&[(0, 1)]);
    let players = pool(&[(Position::QB, 3000), (Position::QB, 2500)]);

    let levels = compute_replacement_levels(&settings, &players, 2);

    assert_eq!(levels.replacement_for(Position::QB), 2500);
}
