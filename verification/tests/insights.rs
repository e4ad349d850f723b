use chrono::Datelike;
use thoth::insights::{
    compute_streaks, compute_streaks_at, enhanced_total, ordered_histogram, range_days,
    time_of_day_counts, DailyActivity, InsightsRange, PromptCount, StorageBreakdown,
};

fn day(d: &str, count: i64) -> DailyActivity {
    DailyActivity { day: d.to_string(), count, words: 0 }
}

fn day_number(y: i32, m: u32, d: u32) -> i32 {
    chrono::NaiveDate::from_ymd_opt(y, m, d).unwrap().num_days_from_ce()
}

#[test]
fn streaks_consecutive_days() {
    let activity = vec![
        day("2024-01-01", 1),
        day("2024-01-02", 2),
        day("2024-01-03", 1),
        day("2024-01-05", 1),
    ];
    let (_, longest) = compute_streaks(&activity);
    assert_eq!(longest, 3, "longest run is 3 days (Jan 1-3)");
}

#[test]
fn streaks_single_day() {
    let activity = vec![day("2024-06-01", 1)];
    let (_, longest) = compute_streaks(&activity);
    assert_eq!(longest, 1);
}

#[test]
fn streaks_empty_returns_zero() {
    assert_eq!(compute_streaks(&[]), (0, 0));
}

#[test]
fn the_current_streak_counts_back_from_today() {
    let activity = vec![
        day("2024-01-03", 1),
        day("2024-01-04", 1),
        day("2024-01-05", 3),
        day("2024-01-01", 1),
    ];
    assert_eq!(compute_streaks_at(&activity, day_number(2024, 1, 5)), (3, 3));
    assert_eq!(compute_streaks_at(&activity, day_number(2024, 1, 6)), (0, 3));
    assert_eq!(compute_streaks_at(&activity, day_number(2024, 1, 1)), (1, 3));
}

#[test]
fn empty_and_unparsable_days_do_not_count() {
    let activity = vec![
        day("2024-01-01", 0),
        day("not a date", 5),
        day("2024-01-02", 1),
        day("2024-01-02", 1),
    ];
    assert_eq!(compute_streaks_at(&activity, day_number(2024, 1, 2)), (1, 1));
}

#[test]
fn streaks_cross_month_and_year_ends() {
    let activity = vec![day("2023-12-31", 1), day("2024-01-01", 1), day("2024-02-29", 1), day("2024-03-01", 1)];
    assert_eq!(compute_streaks_at(&activity, day_number(2024, 3, 1)), (2, 2));
}

#[test]
fn the_length_histogram_has_every_bucket_in_order() {
    let rows = vec![("120s+".to_string(), 1), ("0-5s".to_string(), 1), ("5-10s".to_string(), 1)];
    let hist = ordered_histogram(&rows);
    let labels: Vec<&str> = hist.iter().map(|b| b.bucket_label.as_str()).collect();
    assert_eq!(labels, vec!["0-5s", "5-10s", "10-20s", "20-40s", "40-60s", "60-120s", "120s+"]);
    let counts: Vec<i64> = hist.iter().map(|b| b.count).collect();
    assert_eq!(counts, vec![1, 1, 0, 0, 0, 0, 1]);
}

#[test]
fn time_of_day_always_has_twenty_four_hours() {
    let counts = time_of_day_counts(&vec![(9, 1), (14, 1), (30, 7), (-1, 2)]);
    assert_eq!(counts.len(), 24);
    assert_eq!(counts.iter().sum::<u32>(), 2);
    assert_eq!(counts[9], 1);
    assert_eq!(counts[14], 1);
    assert_eq!(time_of_day_counts(&vec![]), vec![0u32; 24]);
}

#[test]
fn ranges_reach_back_a_fixed_number_of_days() {
    assert_eq!(range_days(InsightsRange::AllTime), None);
    assert_eq!(range_days(InsightsRange::Year), Some(365));
    assert_eq!(range_days(InsightsRange::Month), Some(30));
    assert_eq!(range_days(InsightsRange::Week), Some(7));
}

#[test]
fn enhanced_total_sums_prompt_counts() {
    let prompts = vec![
        PromptCount { prompt: "Fix Grammar".to_string(), count: 3 },
        PromptCount { prompt: "unknown".to_string(), count: 2 },
    ];
    assert_eq!(enhanced_total(&prompts), 5);
    assert_eq!(enhanced_total(&vec![]), 0);
}

#[test]
fn storage_total_is_the_sum_of_its_parts() {
    let s = StorageBreakdown::new(1_000, 250_000, 4_096, Some("2024-01-01T00:00:00Z".to_string()));
    assert_eq!(s.recordings_bytes, 1_000);
    assert_eq!(s.models_bytes, 250_000);
    assert_eq!(s.db_bytes, 4_096);
    assert_eq!(s.total_bytes, 255_096);
    assert_eq!(s.oldest_recording_at.as_deref(), Some("2024-01-01T00:00:00Z"));
    let empty = StorageBreakdown::new(0, 0, 0, None);
    assert_eq!(empty.total_bytes, 0);
    assert!(empty.oldest_recording_at.is_none());
}
