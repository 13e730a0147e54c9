use activity_api::activity::Activity;
use activity_api::advanced::weekday_label;
use activity_api::buckets::{index_of_max, index_of_min, keyed_entries, tally, Grouping, Measure};
use activity_api::calendar::{decimal_text, hour_label, signed_decimal_text, week_label, Timestamp};
use activity_api::grouping::{group_by_month, group_by_type, monthly_aggregations};
use activity_api::ranking::{first_three_by_second, sort_by_second, sort_desc};
use activity_api::scoring::{default_scoring_config, Metric};
use activity_api::streak::sorted_distinct;

fn sample(year: i32, month: u32, day: u32, kind: &str, distance: u32) -> Activity {
    Activity {
        id: format!("{}-{}-{}", year, month, day),
        date: Timestamp::new(year, month, day, 7, 30, 0).unwrap(),
        name: "Morning".to_string(),
        activity_type: kind.to_string(),
        distance,
        duration: "00:45:00".to_string(),
        average_pace: 545,
        average_speed: 1100,
        calories: 400,
        climb: 10,
    }
}

#[test]
fn test_tally_sums_per_key() {
    let t = tally(&vec![(3, 10), (1, 5), (3, 7), (2, 1), (1, 1)]);
    assert_eq!(t.keys, vec![3, 1, 2]);
    assert_eq!(t.totals, vec![17, 6, 1]);
    assert_eq!(t.counts, vec![2, 2, 1]);
    assert_eq!(t.firsts, vec![0, 1, 3]);
    assert!(tally(&vec![]).keys.is_empty());
}

#[test]
fn test_keyed_entries_by_grouping() {
    let activities = vec![sample(2024, 1, 1, "Running", 1000), sample(2024, 1, 6, "Running", 1000)];
    let by_weekday = keyed_entries(&activities, Grouping::Weekday, Measure::Pace);
    assert_eq!(by_weekday, vec![(0, 545), (5, 545)]);
    let by_week = keyed_entries(&activities, Grouping::Week, Measure::Calories);
    assert_eq!(by_week, vec![(2024 * 64 + 1, 400), (2024 * 64 + 1, 400)]);
    let by_hour = keyed_entries(&activities, Grouping::Hour, Measure::Calories);
    assert_eq!(by_hour, vec![(7, 400), (7, 400)]);
}

#[test]
fn test_extreme_positions() {
    assert_eq!(index_of_max(&vec![3, 9, 2, 9]), 1);
    assert_eq!(index_of_min(&vec![3, 9, 2, 2]), 2);
}

#[test]
fn test_grouping_by_type_and_month() {
    let activities = vec![
        sample(2024, 1, 5, "Running", 5000),
        sample(2024, 1, 20, "Cycling", 20000),
        sample(2024, 2, 15, "Running", 7000),
        sample(2024, 1, 10, "Running", 10000),
    ];
    let (types, groups) = group_by_type(&activities);
    assert_eq!(types, vec!["Running".to_string(), "Cycling".to_string()]);
    assert_eq!(groups[0].len(), 3);
    assert_eq!(groups[1].len(), 1);
    let (months, buckets) = group_by_month(&groups[0]);
    assert_eq!(months, vec![(2024, 1), (2024, 2)]);
    assert_eq!(buckets[0].iter().map(|a| a.distance).collect::<Vec<_>>(), vec![5000, 10000]);
    let monthly = monthly_aggregations(&groups[0]);
    assert_eq!(monthly[0].0, "2024-01");
    assert_eq!(monthly[0].1.total_distance, 15000);
    assert_eq!(monthly[1].0, "2024-02");
    assert_eq!(monthly[1].1.total_distance, 7000);
}

#[test]
fn test_sorting_helpers() {
    assert_eq!(sorted_distinct(&vec![5, -2, 5, 3, -2]), vec![-2, 3, 5]);
    assert_eq!(sort_desc(&vec![2, 8, 2, 5]), vec![8, 5, 2, 2]);
    assert_eq!(sort_by_second(&vec![(0, 600), (1, 450), (2, 500)]), vec![(1, 450), (2, 500), (0, 600)]);
    assert_eq!(
        first_three_by_second(&vec![(0, 600), (1, 450), (2, 500), (3, 400)]),
        vec![(3, 400), (1, 450), (2, 500)]
    );
}

#[test]
fn test_names() {
    assert_eq!(weekday_label(0), "Mon");
    assert_eq!(weekday_label(3), "Thu");
    assert_eq!(weekday_label(6), "Sun");
    assert_eq!(Metric::MaxEffortCalPerMin.name(), "max_effort_cal_per_min");
    assert_eq!(Metric::Other("custom".to_string()).name(), "custom");
    let config = default_scoring_config();
    assert_eq!(config.rules.len(), 13);
    assert_eq!(config.rules[11].0.name(), "max_daily_calories");
    assert_eq!(config.rules[11].1.multiplier, 25);
}

#[test]
fn test_label_texts() {
    assert_eq!(decimal_text(0), "0");
    assert_eq!(decimal_text(1234567890), "1234567890");
    assert_eq!(signed_decimal_text(-42), "-42");
    assert_eq!(signed_decimal_text(7), "7");
    assert_eq!(week_label(2020, 53), "2020-W53");
    assert_eq!(week_label(-3, 1), "-3-W1");
    assert_eq!(hour_label(7), "07:00");
    assert_eq!(hour_label(23), "23:00");
}

#[test]
fn test_negative_scores_unranked() {
    assert_eq!(activity_api::scoring::classify_score(-5), "Unranked");
}
