use espn_ffl::cli::types::filters::{InjuryStatusFilter, RosterStatusFilter};
use espn_ffl::core_util::filters::{build_players_filter, PlayersFilter, SortDraftRanks, Val};

#[test]
fn test_val_creation() {
    let val = Val { value: 42 };
    assert_eq!(val.value, 42);
}

#[test]
fn test_players_filter_default() {
    let filter = PlayersFilter::default();
    assert!(filter.filter_active.is_none());
    assert!(filter.filter_name.is_none());
    assert!(filter.filter_slot_ids.is_none());
    assert!(filter.filter_injured.is_none());
}

#[test]
fn filters_test_build_players_filter_with_name() {
    let filter = build_players_filter(Some(vec!["Brady".to_string()]), None, None, None, None);
    assert!(filter.filter_name.is_some());
    assert_eq!(filter.filter_name.unwrap().value, "Brady");
}

#[test]
fn filters_test_build_players_filter_with_slots() {
    let filter = build_players_filter(None, Some(vec![0, 2, 4]), None, None, None);
    assert!(filter.filter_slot_ids.is_some());
    assert_eq!(filter.filter_slot_ids.unwrap().value, vec![0, 2, 4]);
}

#[test]
fn filters_test_build_players_filter_with_active() {
    let filter = build_players_filter(None, None, Some(true), None, None);
    assert!(filter.filter_active.is_some());
    assert_eq!(filter.filter_active.unwrap().value, true);
}

#[test]
fn test_into_header_value() {
    let filter = build_players_filter(Some(vec!["test".to_string()]), None, None, None, None);
    assert_eq!(filter.to_json(), r#"{"filterName":{"value":"test"}}"#);
}

#[test]
fn test_players_filter_serialization() {
    let filter = build_players_filter(
        Some(vec!["Test".to_string()]),
        Some(vec![0, 2]),
        Some(true),
        None,
        None,
    );

    let json = filter.to_json();
    assert!(json.contains("\"filterName\":{\"value\":\"Test\"}"));
    assert!(json.contains("\"filterSlotIds\":{\"value\":[0,2]}"));
    assert!(json.contains("\"filterActive\":{\"value\":true}"));
}

#[test]
fn test_build_players_filter_multiple_names() {
    let filter = build_players_filter(
        Some(vec!["Brady".to_string(), "Rodgers".to_string()]),
        None,
        None,
        None,
        None,
    );
    assert!(
        filter.filter_name.is_none(),
        "Multiple names should not set server-side filter"
    );
}

#[test]
fn test_build_players_filter_injury_active() {
    let filter = build_players_filter(None, None, None, Some(&InjuryStatusFilter::Active), None);

    assert!(filter.filter_active.is_some());
    assert_eq!(filter.filter_active.unwrap().value, true);
    assert!(filter.filter_injured.is_none());
}

#[test]
fn test_build_players_filter_injury_injured() {
    let filter = build_players_filter(None, None, None, Some(&InjuryStatusFilter::Injured), None);

    assert!(filter.filter_injured.is_some());
    assert_eq!(filter.filter_injured.unwrap().value, true);
    assert!(filter.filter_active.is_none());
}

#[test]
fn test_build_players_filter_injury_specific_statuses() {
    let specific_statuses = [
        InjuryStatusFilter::Out,
        InjuryStatusFilter::Doubtful,
        InjuryStatusFilter::Questionable,
        InjuryStatusFilter::Probable,
        InjuryStatusFilter::DayToDay,
        InjuryStatusFilter::IR,
    ];

    for status in specific_statuses {
        let filter = build_players_filter(None, None, None, Some(&status), None);
        assert!(
            filter.filter_active.is_none(),
            "Specific status {:?} should not set filter_active",
            status
        );
        assert!(
            filter.filter_injured.is_none(),
            "Specific status {:?} should not set filter_injured",
            status
        );
    }
}

#[test]
fn test_build_players_filter_roster_status_ignored() {
    let filter = build_players_filter(None, None, None, None, Some(&RosterStatusFilter::Rostered));

    assert!(filter.filter_active.is_none());
    assert!(filter.filter_injured.is_none());
    assert!(filter.filter_name.is_none());
    assert!(filter.filter_slot_ids.is_none());
}

#[test]
fn test_build_players_filter_comprehensive() {
    let filter = build_players_filter(
        Some(vec!["Test Player".to_string()]),
        Some(vec![0, 2, 4]),
        Some(false),
        Some(&InjuryStatusFilter::Active),
        Some(&RosterStatusFilter::FA),
    );

    assert!(filter.filter_name.is_some());
    assert_eq!(filter.filter_name.unwrap().value, "Test Player");

    assert!(filter.filter_slot_ids.is_some());
    assert_eq!(filter.filter_slot_ids.unwrap().value, vec![0, 2, 4]);

    assert!(filter.filter_active.is_some());
    assert_eq!(filter.filter_active.unwrap().value, true);

    assert!(filter.filter_injured.is_none());
}

#[test]
fn test_val_with_different_types() {
    let bool_val = Val { value: true };
    let string_val = Val {
        value: "test".to_string(),
    };
    let vec_val = Val {
        value: vec![1, 2, 3],
    };
    let int_val = Val { value: 42 };

    assert_eq!(bool_val.value, true);
    assert_eq!(string_val.value, "test");
    assert_eq!(vec_val.value, vec![1, 2, 3]);
    assert_eq!(int_val.value, 42);
}

#[test]
fn test_players_filter_field_skipping() {
    let mut filter = PlayersFilter::default();
    filter.filter_active = Some(Val { value: true });

    let json = filter.to_json();

    assert!(json.contains("\"filterActive\":{\"value\":true}"));
    assert!(!json.contains("\"filterName\""));
    assert!(!json.contains("\"filterSlotIds\""));
    assert!(!json.contains("\"filterInjured\""));
}

#[test]
fn test_into_header_value_complex_structure() {
    let mut filter = PlayersFilter::default();
    filter.filter_name = Some(Val {
        value: "Complex Player Name".to_string(),
    });
    filter.filter_slot_ids = Some(Val {
        value: vec![0, 1, 2, 3, 4, 5],
    });
    filter.filter_active = Some(Val { value: true });
    filter.filter_injured = Some(Val { value: false });

    let header_str = filter.to_json();

    let parsed: serde_json::Value = serde_json::from_str(&header_str).unwrap();
    assert!(parsed.is_object());

    assert!(header_str.contains("\"filterName\""));
    assert!(header_str.contains("\"filterSlotIds\""));
    assert!(header_str.contains("\"filterActive\""));
    assert!(header_str.contains("\"filterInjured\""));
}

#[test]
fn test_into_header_value_empty_filter() {
    let filter = PlayersFilter::default();
    assert_eq!(filter.to_json(), "{}");
}

#[test]
fn test_build_players_filter_edge_cases() {
    let filter = build_players_filter(Some(vec![]), Some(vec![]), None, None, None);

    assert!(filter.filter_name.is_none());

    assert!(filter.filter_slot_ids.is_some());
    assert_eq!(filter.filter_slot_ids.unwrap().value, Vec::<u8>::new());
}

#[test]
fn test_build_players_filter_conflicting_parameters() {
    let filter = build_players_filter(
        None,
        None,
        Some(false),
        Some(&InjuryStatusFilter::Active),
        None,
    );

    assert!(filter.filter_active.is_some());
    assert_eq!(filter.filter_active.unwrap().value, true);
}

#[test]
fn test_players_filter_field_independence() {
    let mut filter = PlayersFilter::default();

    filter.filter_active = Some(Val { value: true });
    assert!(filter.filter_name.is_none());
    assert!(filter.filter_slot_ids.is_none());
    assert!(filter.filter_injured.is_none());

    filter.filter_name = Some(Val {
        value: "Test".to_string(),
    });
    assert!(filter.filter_active.is_some());
    assert!(filter.filter_slot_ids.is_none());
    assert!(filter.filter_injured.is_none());

    filter.filter_slot_ids = Some(Val { value: vec![0] });
    assert!(filter.filter_active.is_some());
    assert!(filter.filter_name.is_some());
    assert!(filter.filter_injured.is_none());

    filter.filter_injured = Some(Val { value: false });
    assert!(filter.filter_active.is_some());
    assert!(filter.filter_name.is_some());
    assert!(filter.filter_slot_ids.is_some());
}

#[test]
fn test_slot_ids_various_positions() {
    let qb_rb_wr_slots = vec![0, 2, 3];
    let all_skill_slots = vec![0, 2, 3, 4];
    let defense_kicker_slots = vec![5, 16];

    let filter1 = build_players_filter(None, Some(qb_rb_wr_slots.clone()), None, None, None);
    assert_eq!(filter1.filter_slot_ids.unwrap().value, qb_rb_wr_slots);

    let filter2 = build_players_filter(None, Some(all_skill_slots.clone()), None, None, None);
    assert_eq!(filter2.filter_slot_ids.unwrap().value, all_skill_slots);

    let filter3 = build_players_filter(None, Some(defense_kicker_slots.clone()), None, None, None);
    assert_eq!(filter3.filter_slot_ids.unwrap().value, defense_kicker_slots);
}

#[test]
fn test_name_filter_special_characters() {
    let special_names = vec![
        "D'Angelo Russell".to_string(),
        "T.J. Watt".to_string(),
        "Geno Smith".to_string(),
    ];

    let filter = build_players_filter(Some(vec![special_names[0].clone()]), None, None, None, None);
    assert!(filter.filter_name.is_some());
    assert_eq!(filter.filter_name.unwrap().value, "D'Angelo Russell");

    let filter = build_players_filter(Some(special_names), None, None, None, None);
    assert!(filter.filter_name.is_none());
}

#[test]
fn filter_json_orders_members_and_escapes_names() {
    let mut filter = build_players_filter(
        Some(vec!["Ja'Marr \"Chase\"".to_string()]),
        Some(vec![0, 23]),
        Some(true),
        Some(&InjuryStatusFilter::Injured),
        None,
    );
    filter.limit = Some(50);
    filter.sort_draft_ranks = Some(SortDraftRanks::best_first("PPR"));
    assert_eq!(
        filter.to_json(),
        "{\"filterActive\":{\"value\":true},\"filterName\":{\"value\":\"Ja'Marr \\\"Chase\\\"\"},\
\"filterSlotIds\":{\"value\":[0,23]},\"filterInjured\":{\"value\":true},\"limit\":50,\
\"sortDraftRanks\":{\"sortPriority\":100,\"sortAsc\":true,\"value\":\"PPR\"}}"
    );
    let parsed: serde_json::Value = serde_json::from_str(&filter.to_json()).unwrap();
    assert_eq!(parsed["filterName"]["value"], "Ja'Marr \"Chase\"");
}
