//! Scoring rules, per-metric scores and rank labels.

use crate::advanced::AdvancedAggregation;
use crate::basic::ActivitiesAggregation;
use crate::stats::{lemma_take_next, sum};
use vstd::prelude::*;
use vstd::string::StringExecFns;

verus! {

/// The rank label of an integer score; a score below 100, negative ones included, is
/// unranked.
pub open spec fn rank_label(score: int) -> Seq<char> {
    if score <= 99 {
        "Unranked"@
    } else if 100 <= score && score <= 299 {
        "Bronze"@
    } else if 300 <= score && score <= 499 {
        "Silver"@
    } else if 500 <= score && score <= 699 {
        "Gold"@
    } else if 700 <= score && score <= 999 {
        "Platinum"@
    } else {
        "Titanium"@
    }
}

/// Classifies a score into its rank label.
pub fn classify_score(total: i32) -> (r: String)
    ensures
        r@ == rank_label(total as int),
{
    if total <= 99 {
        String::from_str("Unranked")
    } else if 100 <= total && total <= 299 {
        String::from_str("Bronze")
    } else if 300 <= total && total <= 499 {
        String::from_str("Silver")
    } else if 500 <= total && total <= 699 {
        String::from_str("Gold")
    } else if 700 <= total && total <= 999 {
        String::from_str("Platinum")
    } else {
        String::from_str("Titanium")
    }
}

/// Points for a metric: `base + value * multiplier`, with `multiplier` in hundredths.
#[derive(Clone, Copy, Debug, PartialEq, Eq)]
pub struct ScoringRule {
    pub base: i32,
    /// Hundredths: 250 stands for 2.5.
    pub multiplier: i32,
}

/// The metrics that a rule can score.
#[derive(Clone, Debug)]
pub enum Metric {
    AveragePace,
    BestPace,
    TotalDistance,
    AverageDistance,
    BestDistance,
    MaxClimb,
    LongestStreakDays,
    LongestStreakWeeks,
    CurrentWeeklyStreak,
    MaxEffortCalPerMin,
    PaceStdDev,
    MaxDailyCalories,
    TotalActivities,
    /// A metric without a formula; it always scores 0.
    Other(String),
}

impl Metric {
    pub open spec fn name_spec(&self) -> Seq<char> {
        match self {
            Metric::AveragePace => "average_pace"@,
            Metric::BestPace => "best_pace"@,
            Metric::TotalDistance => "total_distance"@,
            Metric::AverageDistance => "average_distance"@,
            Metric::BestDistance => "best_distance"@,
            Metric::MaxClimb => "max_climb"@,
            Metric::LongestStreakDays => "longest_streak_days"@,
            Metric::LongestStreakWeeks => "longest_streak_weeks"@,
            Metric::CurrentWeeklyStreak => "current_weekly_streak"@,
            Metric::MaxEffortCalPerMin => "max_effort_cal_per_min"@,
            Metric::PaceStdDev => "pace_std_dev"@,
            Metric::MaxDailyCalories => "max_daily_calories"@,
            Metric::TotalActivities => "total_activities"@,
            Metric::Other(n) => n@,
        }
    }

    /// The key of this metric in a score breakdown.
    pub fn name(&self) -> (r: String)
        ensures
            r@ == self.name_spec(),
    {
        match self {
            Metric::AveragePace => String::from_str("average_pace"),
            Metric::BestPace => String::from_str("best_pace"),
            Metric::TotalDistance => String::from_str("total_distance"),
            Metric::AverageDistance => String::from_str("average_distance"),
            Metric::BestDistance => String::from_str("best_distance"),
            Metric::MaxClimb => String::from_str("max_climb"),
            Metric::LongestStreakDays => String::from_str("longest_streak_days"),
            Metric::LongestStreakWeeks => String::from_str("longest_streak_weeks"),
            Metric::CurrentWeeklyStreak => String::from_str("current_weekly_streak"),
            Metric::MaxEffortCalPerMin => String::from_str("max_effort_cal_per_min"),
            Metric::PaceStdDev => String::from_str("pace_std_dev"),
            Metric::MaxDailyCalories => String::from_str("max_daily_calories"),
            Metric::TotalActivities => String::from_str("total_activities"),
            Metric::Other(n) => n.clone(),
        }
    }
}

/// The names of the metrics that have a formula.
pub open spec fn is_known_name(n: Seq<char>) -> bool {
    ||| n == "average_pace"@
    ||| n == "best_pace"@
    ||| n == "total_distance"@
    ||| n == "average_distance"@
    ||| n == "best_distance"@
    ||| n == "max_climb"@
    ||| n == "longest_streak_days"@
    ||| n == "longest_streak_weeks"@
    ||| n == "current_weekly_streak"@
    ||| n == "max_effort_cal_per_min"@
    ||| n == "pace_std_dev"@
    ||| n == "max_daily_calories"@
    ||| n == "total_activities"@
}

/// Two metrics are the same metric.
pub open spec fn same_metric(a: Metric, b: Metric) -> bool {
    match (a, b) {
        (Metric::Other(n), Metric::Other(m)) => n@ == m@,
        (Metric::Other(_), _) => false,
        (_, Metric::Other(_)) => false,
        _ => a == b,
    }
}

/// The scoring rule of each metric.
#[derive(Clone, Debug)]
pub struct ScoringConfig {
    pub rules: Vec<(Metric, ScoringRule)>,
}

impl ScoringConfig {
    /// Each metric has at most one rule, and a metric without a formula does not borrow
    /// the name of one that has a formula.
    pub open spec fn wf(&self) -> bool {
        &&& forall|a: int, b: int|
            0 <= a < b < self.rules@.len() ==> !same_metric(self.rules@[a].0, self.rules@[b].0)
        &&& forall|i: int|
            0 <= i < self.rules@.len() ==> match #[trigger] self.rules@[i].0 {
                Metric::Other(n) => !is_known_name(n@),
                _ => true,
            }
    }
}

/// The rule table that aggregation scores with; multipliers in hundredths.
pub open spec fn default_rules() -> Seq<(Metric, ScoringRule)> {
    seq![
        (Metric::AveragePace, ScoringRule { base: 100, multiplier: 25000 }),
        (Metric::BestPace, ScoringRule { base: 100, multiplier: 30000 }),
        (Metric::TotalDistance, ScoringRule { base: 0, multiplier: 50 }),
        (Metric::AverageDistance, ScoringRule { base: 0, multiplier: 5000 }),
        (Metric::BestDistance, ScoringRule { base: 100, multiplier: 2500 }),
        (Metric::MaxClimb, ScoringRule { base: 0, multiplier: 100 }),
        (Metric::LongestStreakDays, ScoringRule { base: 0, multiplier: 10000 }),
        (Metric::LongestStreakWeeks, ScoringRule { base: 0, multiplier: 5000 }),
        (Metric::CurrentWeeklyStreak, ScoringRule { base: 0, multiplier: 5000 }),
        (Metric::MaxEffortCalPerMin, ScoringRule { base: 0, multiplier: 2000 }),
        (Metric::PaceStdDev, ScoringRule { base: 0, multiplier: 20000 }),
        (Metric::MaxDailyCalories, ScoringRule { base: 0, multiplier: 25 }),
        (Metric::TotalActivities, ScoringRule { base: 0, multiplier: 500 }),
    ]
}

/// The rule table that aggregation scores with.
pub fn default_scoring_config() -> (r: ScoringConfig)
    ensures
        r.rules@ == default_rules(),
        r.wf(),
{
    let mut rules: Vec<(Metric, ScoringRule)> = Vec::new();
    rules.push((Metric::AveragePace, ScoringRule { base: 100, multiplier: 25000 }));
    rules.push((Metric::BestPace, ScoringRule { base: 100, multiplier: 30000 }));
    rules.push((Metric::TotalDistance, ScoringRule { base: 0, multiplier: 50 }));
    rules.push((Metric::AverageDistance, ScoringRule { base: 0, multiplier: 5000 }));
    rules.push((Metric::BestDistance, ScoringRule { base: 100, multiplier: 2500 }));
    rules.push((Metric::MaxClimb, ScoringRule { base: 0, multiplier: 100 }));
    rules.push((Metric::LongestStreakDays, ScoringRule { base: 0, multiplier: 10000 }));
    rules.push((Metric::LongestStreakWeeks, ScoringRule { base: 0, multiplier: 5000 }));
    rules.push((Metric::CurrentWeeklyStreak, ScoringRule { base: 0, multiplier: 5000 }));
    rules.push((Metric::MaxEffortCalPerMin, ScoringRule { base: 0, multiplier: 2000 }));
    rules.push((Metric::PaceStdDev, ScoringRule { base: 0, multiplier: 20000 }));
    // 4000 kcal in a day earn the full 1000 points.
    rules.push((Metric::MaxDailyCalories, ScoringRule { base: 0, multiplier: 25 }));
    // Each activity earns 5 points.
    rules.push((Metric::TotalActivities, ScoringRule { base: 0, multiplier: 500 }));
    assert(rules@ =~= default_rules());
    let r = ScoringConfig { rules };
    assert(r.wf());
    r
}

/// A raw score as the fraction `numerator / denominator`.
pub open spec fn fraction(base: int, value: int, scale: int, multiplier: int) -> (int, int) {
    (base * 100 * scale + value * multiplier, 100 * scale)
}

/// The raw score of a metric as a fraction, for a value held in units of `1 / scale`;
/// metrics of the advanced aggregation and unknown metrics have raw score 0 without it.
pub open spec fn raw_score(
    m: Metric,
    rule: ScoringRule,
    basic: ActivitiesAggregation,
    advanced: Option<AdvancedAggregation>,
) -> (int, int) {
    let b = rule.base as int;
    let k = rule.multiplier as int;
    match m {
        Metric::AveragePace => fraction(b, 600 - basic.average_pace, 100, k),
        Metric::BestPace => fraction(b, 600 - basic.best_pace, 100, k),
        Metric::TotalDistance => fraction(b, basic.total_distance as int, 1000, k),
        Metric::AverageDistance => fraction(b, basic.average_distance as int, 1000, k),
        Metric::BestDistance => fraction(b, basic.best_distance as int, 1000, k),
        Metric::TotalActivities => fraction(b, basic.total_activities as int, 1, k),
        Metric::Other(_) => (0, 1),
        _ => match advanced {
            None => (0, 1),
            Some(a) => match m {
                Metric::MaxClimb => fraction(b, a.max_climb as int, 1, k),
                Metric::LongestStreakDays => fraction(b, a.longest_streak_days as int, 1, k),
                Metric::LongestStreakWeeks => fraction(b, a.longest_streak_weeks as int, 1, k),
                Metric::CurrentWeeklyStreak => fraction(b, a.current_weekly_streak as int, 1, k),
                Metric::MaxEffortCalPerMin => fraction(b, a.max_effort_cal_per_min as int, 100, k),
                Metric::PaceStdDev => fraction(
                    b,
                    if a.pace_std_dev < 300 { 300 - a.pace_std_dev } else { 0 },
                    100,
                    k,
                ),
                _ => fraction(b, a.max_daily_calories as int, 1, k),
            },
        },
    }
}

/// A raw score clamped to `[0, 1000]` and rounded down.
pub open spec fn clamped_score(f: (int, int)) -> int {
    if f.0 <= 0 {
        0
    } else if f.0 / f.1 >= 1000 {
        1000
    } else {
        f.0 / f.1
    }
}

fn scaled(base: i32, value: i128, scale: i128, multiplier: i32) -> (r: (i128, i128))
    requires
        -0x1_0000_0000_0000_0000 <= value <= 0x1_0000_0000_0000_0000,
        1 <= scale <= 1000,
    ensures
        r.0 == fraction(base as int, value as int, scale as int, multiplier as int).0,
        r.1 == fraction(base as int, value as int, scale as int, multiplier as int).1,
{
    assert(-0x1_0000_0000_0000_0000 * 0x8000_0000 <= value * multiplier <= 0x1_0000_0000_0000_0000 * 0x8000_0000) by (nonlinear_arith)
        requires
            -0x1_0000_0000_0000_0000 <= value <= 0x1_0000_0000_0000_0000,
            -0x8000_0000 <= multiplier <= 0x7FFF_FFFF,
    ;
    assert(-0x8000_0000 * 100000 <= base * 100 * scale <= 0x8000_0000 * 100000) by (nonlinear_arith)
        requires
            -0x8000_0000 <= base <= 0x7FFF_FFFF,
            1 <= scale <= 1000,
    ;
    (base as i128 * 100 * scale + value * multiplier as i128, 100 * scale)
}

/// Score of one metric under its rule, from 0 to 1000.
pub fn metric_score(
    m: &Metric,
    rule: &ScoringRule,
    basic: &ActivitiesAggregation,
    advanced: &Option<AdvancedAggregation>,
) -> (r: i32)
    ensures
        r == clamped_score(raw_score(*m, *rule, *basic, *advanced)),
        0 <= r <= 1000,
{
    let b = rule.base;
    let k = rule.multiplier;
    let f: (i128, i128) = match m {
        Metric::AveragePace => scaled(b, 600 - basic.average_pace as i128, 100, k),
        Metric::BestPace => scaled(b, 600 - basic.best_pace as i128, 100, k),
        Metric::TotalDistance => scaled(b, basic.total_distance as i128, 1000, k),
        Metric::AverageDistance => scaled(b, basic.average_distance as i128, 1000, k),
        Metric::BestDistance => scaled(b, basic.best_distance as i128, 1000, k),
        Metric::TotalActivities => scaled(b, basic.total_activities as i128, 1, k),
        Metric::Other(_) => (0, 1),
        _ => match advanced {
            None => (0, 1),
            Some(a) => match m {
                Metric::MaxClimb => scaled(b, a.max_climb as i128, 1, k),
                Metric::LongestStreakDays => scaled(b, a.longest_streak_days as i128, 1, k),
                Metric::LongestStreakWeeks => scaled(b, a.longest_streak_weeks as i128, 1, k),
                Metric::CurrentWeeklyStreak => scaled(b, a.current_weekly_streak as i128, 1, k),
                Metric::MaxEffortCalPerMin => scaled(b, a.max_effort_cal_per_min as i128, 100, k),
                Metric::PaceStdDev => scaled(
                    b,
                    if a.pace_std_dev < 300 { 300 - a.pace_std_dev as i128 } else { 0 },
                    100,
                    k,
                ),
                _ => scaled(b, a.max_daily_calories as i128, 1, k),
            },
        },
    };
    if f.0 <= 0 {
        0
    } else if f.0 / f.1 >= 1000 {
        1000
    } else {
        (f.0 / f.1) as i32
    }
}

/// Score of each rule of `rules`, in order.
pub open spec fn rule_scores(
    rules: Seq<(Metric, ScoringRule)>,
    basic: ActivitiesAggregation,
    advanced: Option<AdvancedAggregation>,
) -> Seq<int> {
    Seq::new(rules.len(), |i: int| clamped_score(raw_score(rules[i].0, rules[i].1, basic, advanced)))
}

/// Scores each metric of the configuration, in the configuration's order.
pub fn calculate_scores(
    basic: &ActivitiesAggregation,
    advanced: &Option<AdvancedAggregation>,
    config: &ScoringConfig,
) -> (r: Vec<(String, i32)>)
    requires
        config.wf(),
    ensures
        r@.len() == config.rules@.len(),
        forall|i: int|
            0 <= i < r@.len() ==> (#[trigger] r@[i]).0@ == config.rules@[i].0.name_spec() && r@[i].1
                == rule_scores(config.rules@, *basic, *advanced)[i],
{
    let mut r: Vec<(String, i32)> = Vec::new();
    let mut i: usize = 0;
    while i < config.rules.len()
        invariant
            0 <= i <= config.rules@.len(),
            r@.len() == i,
            forall|q: int|
                0 <= q < i ==> (#[trigger] r@[q]).0@ == config.rules@[q].0.name_spec() && r@[q].1
                    == rule_scores(config.rules@, *basic, *advanced)[q],
        decreases config.rules@.len() - i,
    {
        let (m, rule) = (&config.rules[i].0, &config.rules[i].1);
        let score = metric_score(m, rule, basic, advanced);
        r.push((m.name(), score));
        i = i + 1;
    }
    r
}

/// A metric's score with its rank label.
#[derive(Clone, Debug)]
pub struct ScoreDetail {
    pub score: i32,
    pub level: String,
}

/// Per-metric scores, their sum and its rank label.
#[derive(Clone, Debug)]
pub struct ScoreSummary {
    pub total_score: i32,
    pub level: String,
    pub breakdown: Vec<(String, ScoreDetail)>,
}

impl ScoreSummary {
    /// This summary scores `basic` and `advanced` under `rules`.
    pub open spec fn rates(
        &self,
        rules: Seq<(Metric, ScoringRule)>,
        basic: ActivitiesAggregation,
        advanced: Option<AdvancedAggregation>,
    ) -> bool {
        &&& self.total_score == sum(rule_scores(rules, basic, advanced))
        &&& self.level@ == rank_label(self.total_score as int)
        &&& self.breakdown@.len() == rules.len()
        &&& forall|i: int|
            0 <= i < self.breakdown@.len() ==> {
                let d = #[trigger] self.breakdown@[i];
                &&& d.0@ == rules[i].0.name_spec()
                &&& d.1.score == rule_scores(rules, basic, advanced)[i]
                &&& d.1.level@ == rank_label(d.1.score as int)
            }
    }
}

/// Scores the aggregations under `config`: each metric is classified alone, and their sum,
/// which is not clamped, is classified with the same thresholds.
pub fn calculate_score_summary(
    basic: &ActivitiesAggregation,
    advanced: &Option<AdvancedAggregation>,
    config: &ScoringConfig,
) -> (r: ScoreSummary)
    requires
        config.wf(),
        config.rules@.len() <= 2_000_000,
    ensures
        r.rates(config.rules@, *basic, *advanced),
{
    let ghost scores = rule_scores(config.rules@, *basic, *advanced);
    let raw = calculate_scores(basic, advanced, config);
    let mut breakdown: Vec<(String, ScoreDetail)> = Vec::new();
    let mut total: i32 = 0;
    let mut i: usize = 0;
    while i < raw.len()
        invariant
            raw@.len() == config.rules@.len(),
            raw@.len() <= 2_000_000,
            scores == rule_scores(config.rules@, *basic, *advanced),
            forall|q: int|
                0 <= q < raw@.len() ==> (#[trigger] raw@[q]).0@ == config.rules@[q].0.name_spec()
                    && raw@[q].1 == scores[q],
            0 <= i <= raw@.len(),
            breakdown@.len() == i,
            total == sum(scores.take(i as int)),
            0 <= total <= 1000 * i,
            forall|q: int|
                0 <= q < i ==> {
                    let d = #[trigger] breakdown@[q];
                    &&& d.0@ == config.rules@[q].0.name_spec()
                    &&& d.1.score == scores[q]
                    &&& d.1.level@ == rank_label(d.1.score as int)
                },
        decreases raw@.len() - i,
    {
        let score = raw[i].1;
        proof {
            lemma_take_next(scores, i as int);
        }
        let capped = if score < 1000 { score } else { 1000 };
        total = total + capped;
        let level = classify_score(score);
        breakdown.push((raw[i].0.clone(), ScoreDetail { score, level }));
        i = i + 1;
    }
    assert(scores.take(scores.len() as int) =~= scores);
    let level = classify_score(total);
    ScoreSummary { total_score: total, level, breakdown }
}

} // verus!
