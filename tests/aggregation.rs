use activity_api::activity::Activity;
use activity_api::advanced::{compute_advanced_aggregation, max_effort_per_minute, week_index};
use activity_api::basic::{aggregate_activities, ActivitiesAggregation};
use activity_api::calendar::Timestamp;
use activity_api::grouping::aggretate_activities;
use activity_api::ranking::largest_three;
use activity_api::scoring::{
    calculate_score_summary, calculate_scores, classify_score, default_scoring_config, metric_score, Metric,
    ScoringConfig, ScoringRule,
};
use activity_api::streak::{longest_streak, streak_ending_at};
use activity_api::variance::integer_sqrt;

fn at(year: i32, month: u32, day: u32, hour: u32) -> Timestamp {
    Timestamp::new(year, month, day, hour, 0, 0).unwrap()
}

fn act(date: Timestamp, kind: &str, distance: u32, pace: u16) -> Activity {
    Activity {
        id: "a".to_string(),
        date,
        name: "Test".to_string(),
        activity_type: kind.to_string(),
        distance,
        duration: "00:30:00".to_string(),
        average_pace: pace,
        average_speed: 1000,
        calories: 100,
        climb: 50,
    }
}

fn running_and_cycling() -> Vec<Activity> {
    vec![
        act(at(2024, 1, 5, 8), "Running", 5000, 500),
        act(at(2024, 1, 10, 8), "Running", 10000, 550),
        act(at(2024, 2, 15, 8), "Running", 7000, 600),
        act(at(2024, 1, 20, 8), "Cycling", 20000, 300),
    ]
}

#[test]
fn test_aggregates_per_type_and_month() {
    let (agg, time_agg) = aggretate_activities(&running_and_cycling(), &at(2024, 3, 1, 0));
    assert_eq!(agg.len(), 2);
    assert_eq!(agg[0].0, "Running");
    assert_eq!(agg[1].0, "Cycling");
    assert_eq!(agg[0].1.basic.total_activities, 3);
    assert_eq!(agg[0].1.basic.total_distance, 22000);

    assert_eq!(time_agg[0].0, "Running");
    let run_months = &time_agg[0].1;
    assert_eq!(run_months.len(), 2);
    assert_eq!(run_months[0].0, "2024-01");
    assert_eq!(run_months[0].1.total_activities, 2);
    assert_eq!(run_months[1].0, "2024-02");
    assert_eq!(run_months[1].1.total_activities, 1);

    let cyc_months = &time_agg[1].1;
    assert_eq!(cyc_months.len(), 1);
    assert_eq!(cyc_months[0].0, "2024-01");
    assert_eq!(cyc_months[0].1.total_distance, 20000);
}

#[test]
fn test_empty_input() {
    let (agg, time_agg) = aggretate_activities(&vec![], &at(2024, 3, 1, 0));
    assert!(agg.is_empty());
    assert!(time_agg.is_empty());
}

#[test]
fn test_time_aggregation_sums_match_totals() {
    let mut activities = running_and_cycling();
    activities.push(act(at(2024, 3, 1, 8), "Running", 3000, 400));
    activities.push(act(at(2024, 2, 25, 8), "Cycling", 10000, 350));
    let (total, time_agg) = aggretate_activities(&activities, &at(2024, 3, 1, 0));
    assert_eq!(total.len(), time_agg.len());
    for (k, (kind, dto)) in total.iter().enumerate() {
        assert_eq!(&time_agg[k].0, kind);
        let distance: u64 = time_agg[k].1.iter().map(|m| m.1.total_distance).sum();
        let count: u32 = time_agg[k].1.iter().map(|m| m.1.total_activities).sum();
        assert_eq!(distance, dto.basic.total_distance);
        assert_eq!(count, dto.basic.total_activities);
    }
}

#[test]
fn test_basic_weighted_pace() {
    let activities = running_and_cycling();
    let basic = aggregate_activities(&activities[0..3]);
    assert_eq!(basic.total_activities, 3);
    assert_eq!(basic.total_distance, 22000);
    assert_eq!(basic.average_pace, 532);
    assert_eq!(basic.average_distance, 7333);
    assert_eq!(basic.best_distance, 10000);
    assert_eq!(basic.best_pace, 500);
}

#[test]
fn test_best_pace_clamped_to_average() {
    // With no distance the mean pace is 0, and the best pace is held to it.
    let activities = vec![act(at(2024, 1, 1, 8), "Running", 0, 500)];
    let basic = aggregate_activities(&activities);
    assert_eq!(basic.average_pace, 0);
    assert_eq!(basic.best_pace, 0);
}

#[test]
fn test_basic_empty() {
    let basic = aggregate_activities(&[]);
    assert_eq!(basic.total_activities, 0);
    assert_eq!(basic.total_distance, 0);
    assert_eq!(basic.average_pace, 0);
    assert_eq!(basic.average_distance, 0);
    assert_eq!(basic.best_distance, 0);
    assert_eq!(basic.best_pace, 0);
}

#[test]
fn test_single_activity_group() {
    let activities = vec![act(at(2024, 1, 3, 8), "Running", 5000, 530)];
    let adv = compute_advanced_aggregation(&activities, &at(2024, 1, 3, 12));
    assert_eq!(adv.longest_streak_days, 0);
    assert_eq!(adv.longest_streak_weeks, 0);
    assert_eq!(adv.current_weekly_streak, 1);
    assert_eq!(adv.pace_std_dev, 0);
    assert_eq!(adv.top_3_fastest_weekdays.len(), 1);
    assert_eq!(adv.top_3_fastest_weekdays[0], ("Wed".to_string(), 530));
    let basic = aggregate_activities(&activities);
    assert!(basic.best_pace <= basic.average_pace);
}

#[test]
fn test_seven_consecutive_days() {
    let activities: Vec<Activity> = (1..=7).map(|d| act(at(2024, 1, d, 8), "Running", 5000, 500)).collect();
    let adv = compute_advanced_aggregation(&activities, &at(2024, 1, 7, 20));
    assert_eq!(adv.longest_streak_days, 7);
    assert_eq!(adv.longest_streak_weeks, 0);
    assert_eq!(adv.current_weekly_streak, 1);
    assert_eq!(adv.weekend_ratio, 2857);
    assert_eq!(adv.max_daily_calories, 100);
}

#[test]
fn test_daily_calories_and_effort() {
    let activities = vec![act(at(2024, 1, 3, 8), "Running", 5000, 500)];
    let adv = compute_advanced_aggregation(&activities, &at(2024, 1, 3, 12));
    assert_eq!(adv.max_daily_calories, 100);
    assert_eq!(adv.max_effort_cal_per_min, 333);
}

#[test]
fn test_daily_calories_sum_within_a_day() {
    let activities = vec![
        act(at(2024, 1, 3, 8), "Running", 5000, 500),
        act(at(2024, 1, 3, 18), "Running", 5000, 500),
        act(at(2024, 1, 4, 8), "Running", 5000, 500),
    ];
    let adv = compute_advanced_aggregation(&activities, &at(2024, 1, 4, 12));
    assert_eq!(adv.max_daily_calories, 200);
    assert_eq!(adv.longest_streak_days, 2);
}

#[test]
fn test_effort_skips_unreadable_durations() {
    let mut a = act(at(2024, 1, 3, 8), "Running", 5000, 500);
    a.duration = "not a time".to_string();
    let mut b = act(at(2024, 1, 4, 8), "Running", 5000, 500);
    b.duration = "00:00:00".to_string();
    let adv = compute_advanced_aggregation(&[a.clone(), b.clone()], &at(2024, 1, 4, 12));
    assert_eq!(adv.max_effort_cal_per_min, 0);
    let mut c = act(at(2024, 1, 5, 8), "Running", 5000, 500);
    c.duration = "01:00:00".to_string();
    c.calories = 600;
    let adv = compute_advanced_aggregation(&[a, b, c], &at(2024, 1, 5, 12));
    assert_eq!(adv.max_effort_cal_per_min, 1000);
}

#[test]
fn test_max_effort_from_given_durations() {
    let activities = vec![
        act(at(2024, 1, 3, 8), "Running", 5000, 500),
        act(at(2024, 1, 4, 8), "Running", 5000, 500),
    ];
    assert_eq!(max_effort_per_minute(&activities, &vec![Some(1800), None]), 333);
    assert_eq!(max_effort_per_minute(&activities, &vec![Some(0), Some(600)]), 1000);
    assert_eq!(max_effort_per_minute(&activities, &vec![None, None]), 0);
}

#[test]
fn test_average_pace_scoring_rule() {
    let basic = ActivitiesAggregation {
        total_activities: 1,
        total_distance: 1000,
        average_pace: 600,
        average_distance: 1000,
        best_distance: 1000,
        best_pace: 600,
    };
    let score = metric_score(&Metric::AveragePace, &ScoringRule { base: 100, multiplier: 25000 }, &basic, &None);
    assert_eq!(score, 100);
    assert_eq!(classify_score(score), "Bronze");
}

#[test]
fn test_total_score_classification_boundaries() {
    assert_eq!(classify_score(99), "Unranked");
    assert_eq!(classify_score(100), "Bronze");
    assert_eq!(classify_score(299), "Bronze");
    assert_eq!(classify_score(300), "Silver");
    assert_eq!(classify_score(500), "Gold");
    assert_eq!(classify_score(700), "Platinum");
    assert_eq!(classify_score(999), "Platinum");
    assert_eq!(classify_score(1000), "Titanium");
    assert_eq!(classify_score(0), "Unranked");
}

#[test]
fn test_top_speeds_at_most_three_descending() {
    let mut activities = Vec::new();
    for (i, speed) in [1000u32, 3000, 2000, 5000, 4000].iter().enumerate() {
        let mut a = act(at(2024, 1, 1 + i as u32, 8), "Running", 5000, 500);
        a.average_speed = *speed;
        activities.push(a);
    }
    let adv = compute_advanced_aggregation(&activities, &at(2024, 1, 10, 8));
    assert_eq!(adv.top_speeds, vec![5000, 4000, 3000]);
    assert_eq!(largest_three(&vec![7, 7, 1, 9]), vec![9, 7, 7]);
    assert_eq!(largest_three(&vec![2]), vec![2]);
    assert!(largest_three(&vec![]).is_empty());
}

#[test]
fn test_scores_clamped() {
    let basic = ActivitiesAggregation {
        total_activities: 400,
        total_distance: 22000,
        average_pace: 900,
        average_distance: 1000,
        best_distance: 1000,
        best_pace: 300,
    };
    assert_eq!(metric_score(&Metric::AveragePace, &ScoringRule { base: 100, multiplier: 25000 }, &basic, &None), 0);
    assert_eq!(metric_score(&Metric::BestPace, &ScoringRule { base: 100, multiplier: 30000 }, &basic, &None), 1000);
    assert_eq!(metric_score(&Metric::TotalDistance, &ScoringRule { base: 0, multiplier: 50 }, &basic, &None), 11);
    assert_eq!(metric_score(&Metric::TotalActivities, &ScoringRule { base: 0, multiplier: 500 }, &basic, &None), 1000);
    assert_eq!(metric_score(&Metric::MaxClimb, &ScoringRule { base: 0, multiplier: 100 }, &basic, &None), 0);
    assert_eq!(
        metric_score(&Metric::Other("mystery".to_string()), &ScoringRule { base: 500, multiplier: 100 }, &basic, &None),
        0
    );
}

#[test]
fn test_score_summary_totals() {
    let activities = running_and_cycling();
    let running = &activities[0..3];
    let basic = aggregate_activities(running);
    let adv = compute_advanced_aggregation(running, &at(2024, 3, 1, 0));
    let config = default_scoring_config();
    let scores = calculate_scores(&basic, &Some(adv.clone()), &config);
    assert_eq!(scores.len(), 13);
    assert_eq!(scores[0].0, "average_pace");
    // 100 + (6.00 - 5.32) * 250 = 270
    assert_eq!(scores[0].1, 270);
    assert_eq!(scores[2].0, "total_distance");
    assert_eq!(scores[2].1, 11);
    let summary = calculate_score_summary(&basic, &Some(adv), &config);
    let total: i32 = summary.breakdown.iter().map(|d| d.1.score).sum();
    assert_eq!(summary.total_score, total);
    assert_eq!(summary.level, classify_score(total));
    assert_eq!(summary.breakdown[0].1.level, "Bronze");
}

#[test]
fn test_custom_config_without_advanced() {
    let basic = aggregate_activities(&running_and_cycling()[0..3]);
    let config = ScoringConfig {
        rules: vec![
            (Metric::LongestStreakDays, ScoringRule { base: 0, multiplier: 10000 }),
            (Metric::TotalActivities, ScoringRule { base: 0, multiplier: 500 }),
        ],
    };
    let summary = calculate_score_summary(&basic, &None, &config);
    assert_eq!(summary.breakdown[0].0, "longest_streak_days");
    assert_eq!(summary.breakdown[0].1.score, 0);
    assert_eq!(summary.breakdown[1].1.score, 15);
    assert_eq!(summary.total_score, 15);
    assert_eq!(summary.level, "Unranked");
}

#[test]
fn test_week_streaks() {
    let activities = vec![
        act(at(2024, 1, 1, 8), "Running", 5000, 500),
        act(at(2024, 1, 8, 8), "Running", 5000, 500),
        act(at(2024, 1, 17, 8), "Running", 5000, 500),
    ];
    let adv = compute_advanced_aggregation(&activities, &at(2024, 1, 17, 20));
    assert_eq!(adv.longest_streak_days, 0);
    assert_eq!(adv.longest_streak_weeks, 3);
    assert_eq!(adv.current_weekly_streak, 3);
    let adv = compute_advanced_aggregation(&activities, &at(2024, 1, 24, 20));
    assert_eq!(adv.current_weekly_streak, 0);
}

#[test]
fn test_week_streak_across_long_iso_year() {
    // 2020 has 53 ISO weeks: its week 53 is followed by week 1 of 2021.
    let activities = vec![
        act(at(2020, 12, 28, 8), "Running", 5000, 500),
        act(at(2021, 1, 4, 8), "Running", 5000, 500),
    ];
    let adv = compute_advanced_aggregation(&activities, &at(2021, 1, 5, 8));
    assert_eq!(adv.longest_streak_weeks, 2);
    assert_eq!(adv.current_weekly_streak, 2);
}

#[test]
fn test_highlights() {
    let mut a = act(at(2024, 1, 1, 8), "Running", 5000, 500);
    a.calories = 300;
    a.climb = 120;
    let mut b = act(at(2024, 1, 8, 18), "Running", 5000, 700);
    b.calories = 250;
    let c = act(at(2024, 1, 9, 18), "Running", 5000, 650);
    let adv = compute_advanced_aggregation(&[a, b, c], &at(2024, 1, 9, 20));
    assert_eq!(adv.most_frequent_weekday, Some("Mon".to_string()));
    assert_eq!(adv.most_skipped_weekday, Some("Tue".to_string()));
    assert_eq!(adv.speed_demon_hour, Some("08:00".to_string()));
    assert_eq!(adv.sweatiest_week, Some("2024-W2".to_string()));
    assert_eq!(adv.most_consistent_week, Some("2024-W1".to_string()));
    assert_eq!(adv.max_climb, 120);
    assert_eq!(adv.slowest_pace, 700);
    assert_eq!(adv.weekend_ratio, 0);
    assert_eq!(adv.max_daily_calories, 300);
    assert_eq!(adv.top_3_fastest_weekdays.len(), 2);
    assert_eq!(adv.top_3_fastest_weekdays[0], ("Mon".to_string(), 600));
    assert_eq!(adv.top_3_fastest_weekdays[1], ("Tue".to_string(), 650));
}

#[test]
fn test_weekday_frequency() {
    let activities = vec![
        act(at(2024, 1, 1, 8), "Running", 5000, 500),
        act(at(2024, 1, 8, 8), "Running", 5000, 500),
        act(at(2024, 1, 3, 8), "Running", 5000, 500),
    ];
    let adv = compute_advanced_aggregation(&activities, &at(2024, 1, 9, 20));
    assert_eq!(adv.most_frequent_weekday, Some("Mon".to_string()));
    assert_eq!(adv.most_skipped_weekday, Some("Wed".to_string()));
}

#[test]
fn test_pace_standard_deviation() {
    let activities = vec![
        act(at(2024, 1, 1, 8), "Running", 5000, 500),
        act(at(2024, 1, 2, 8), "Running", 5000, 700),
    ];
    let adv = compute_advanced_aggregation(&activities, &at(2024, 1, 2, 20));
    assert_eq!(adv.pace_std_dev, 100);
}

#[test]
fn test_empty_advanced() {
    let adv = compute_advanced_aggregation(&[], &at(2024, 1, 2, 20));
    assert_eq!(adv.longest_streak_days, 0);
    assert_eq!(adv.current_weekly_streak, 0);
    assert!(adv.top_3_fastest_weekdays.is_empty());
    assert!(adv.top_speeds.is_empty());
    assert_eq!(adv.most_consistent_week, None);
    assert_eq!(adv.most_frequent_weekday, None);
    assert_eq!(adv.most_skipped_weekday, None);
    assert_eq!(adv.speed_demon_hour, None);
    assert_eq!(adv.sweatiest_week, None);
    assert_eq!(adv.weekend_ratio, 0);
    assert_eq!(adv.pace_std_dev, 0);
    assert_eq!(adv.max_daily_calories, 0);
    assert_eq!(adv.max_effort_cal_per_min, 0);
}

#[test]
fn test_timestamp_calendar_facts() {
    let t = at(2024, 1, 1, 8);
    assert_eq!(t.weekday, 0);
    assert_eq!((t.iso_year, t.iso_week), (2024, 1));
    assert_eq!(t.day_number, 738886);
    let t = at(2021, 1, 3, 8);
    assert_eq!(t.weekday, 6);
    assert_eq!((t.iso_year, t.iso_week), (2020, 53));
    assert!(Timestamp::new(2024, 2, 30, 0, 0, 0).is_none());
    assert!(Timestamp::new(2024, 2, 29, 0, 0, 0).is_some());
    assert!(Timestamp::new(2023, 2, 29, 0, 0, 0).is_none());
    assert!(Timestamp::new(2024, 1, 1, 24, 0, 0).is_none());
    assert!(Timestamp::new(2024, 13, 1, 0, 0, 0).is_none());
    assert_eq!(week_index(&at(2024, 1, 7, 0)) + 1, week_index(&at(2024, 1, 8, 0)));
}

#[test]
fn test_streak_helpers() {
    assert_eq!(longest_streak(&vec![5, 3, 4, 10, 11, 4]), 3);
    assert_eq!(longest_streak(&vec![1, 3, 5]), 0);
    assert_eq!(longest_streak(&vec![]), 0);
    assert_eq!(streak_ending_at(&vec![1, 2, 3, 5], 3), 3);
    assert_eq!(streak_ending_at(&vec![1, 2, 3, 5], 4), 0);
    assert_eq!(streak_ending_at(&vec![1, 2, 3, 5], 5), 1);
}

#[test]
fn test_integer_sqrt() {
    assert_eq!(integer_sqrt(0), 0);
    assert_eq!(integer_sqrt(10000), 100);
    assert_eq!(integer_sqrt(99), 9);
    assert_eq!(integer_sqrt(u128::MAX), u64::MAX);
}
