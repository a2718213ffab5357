use espn_ffl::espn::compute::{projected_weeks, select_season_stats, select_weekly_stats, StatBlockHeader};

fn block(season: u64, period: u64, source: u64, split: u64, nonempty: bool) -> StatBlockHeader {
    StatBlockHeader {
        season_id: Some(season),
        scoring_period_id: Some(period),
        stat_source_id: Some(source),
        stat_split_type_id: Some(split),
        has_stats: true,
        has_nonempty_stats: nonempty,
    }
}

#[test]
fn test_select_weekly_stats_found() {
    let blocks = vec![block(2023, 1, 0, 1, true), block(2023, 2, 0, 1, true)];
    assert_eq!(select_weekly_stats(&blocks, 2023, 1, 0), Some(0));
    assert_eq!(select_weekly_stats(&blocks, 2023, 2, 0), Some(1));
}

#[test]
fn test_select_weekly_stats_projected() {
    let blocks = vec![block(2023, 1, 1, 1, true)];
    assert_eq!(select_weekly_stats(&blocks, 2023, 1, 1), Some(0));
    assert_eq!(select_weekly_stats(&blocks, 2023, 1, 0), None);
}

#[test]
fn test_select_weekly_stats_not_found() {
    let blocks = vec![block(2023, 2, 0, 1, false)];
    assert_eq!(select_weekly_stats(&blocks, 2023, 1, 0), None);
}

#[test]
fn test_select_weekly_stats_no_stats_array() {
    assert_eq!(select_weekly_stats(&[], 2023, 1, 0), None);
}

#[test]
fn test_select_weekly_stats_wrong_split_type() {
    let blocks = vec![block(2023, 1, 0, 0, false)];
    assert_eq!(select_weekly_stats(&blocks, 2023, 1, 0), None);
}

#[test]
fn a_block_missing_a_stamp_or_its_stats_is_skipped() {
    let mut missing = block(2023, 1, 0, 1, true);
    missing.season_id = None;
    let mut statless = block(2023, 1, 0, 1, false);
    statless.has_stats = false;
    let blocks = vec![missing, statless, block(2023, 1, 0, 1, true)];
    assert_eq!(select_weekly_stats(&blocks, 2023, 1, 0), Some(2));
}

#[test]
fn stamps_are_truncated_as_they_are_read() {
    let blocks = vec![block(2023 + 65536, 1, 256, 257, true)];
    assert_eq!(select_weekly_stats(&blocks, 2023, 1, 0), Some(0));
}

#[test]
fn season_totals_live_in_period_zero_split_zero() {
    let blocks = vec![block(2026, 1, 1, 1, true), block(2026, 0, 1, 0, true)];
    assert_eq!(select_season_stats(&blocks, 2026, 1), Some(1));
    assert_eq!(select_season_stats(&blocks, 2025, 1), None);
}

#[test]
fn projected_weeks_are_sorted_distinct_and_skip_empty_blocks() {
    let blocks = vec![
        block(2026, 5, 1, 1, true),
        block(2026, 2, 1, 1, true),
        block(2026, 3, 1, 1, false),
        block(2026, 2, 1, 1, true),
        block(2026, 1, 0, 1, true),
        block(2025, 4, 1, 1, true),
        block(2026, 0, 1, 0, true),
    ];
    assert_eq!(projected_weeks(&blocks, 2026), vec![2, 5]);
}
