//! Streaks, buckets and highlights of a group of activities.

use crate::activity::{calories, climbs, paces, Activity};
use crate::basic::ActivitiesAggregation;
use crate::buckets::{
    entry_view, group_key, grouped, has_key, index_of_max, index_of_min, keyed_count, keyed_entries,
    keyed_mean, keyed_total, lemma_keyed_count_bounds, lemma_keyed_total_bounds, lemma_tally_finds,
    lemma_tally_key_present, tally, tally_means, Grouping, Measure, Tally,
};
use crate::calendar::{
    clock_seconds_of, day_number_of, hour_label, hour_label_text, parse_clock_seconds, week_label, week_label_text,
    Timestamp,
};
use crate::ranking::{
    first_three_by_second, is_first_by_second, is_top_desc, largest_three, min_len, sorted_desc,
};
use crate::stats::{lemma_sum_bounds, lemma_take_next, max_of, sum};
use crate::streak::{
    int_set, is_longest_streak, is_streak_ending_at, longest_streak, run_present, streak_ending_at,
};
use crate::variance::{group_variance, group_variances, integer_sqrt, scaled_deviations};
use vstd::prelude::*;
use vstd::seq_lib::to_multiset_len;
use vstd::string::StringExecFns;

verus! {

/// Shift that keeps week numbers non-negative; a multiple of 7.
pub const WEEK_SHIFT: i64 = 15032385536;

/// Calendar day of each activity.
pub open spec fn day_numbers(s: Seq<Activity>) -> Seq<i64> {
    s.map_values(|a: Activity| a.date.day_number as i64)
}

/// Number of the Monday-to-Sunday week that holds a timestamp; consecutive weeks get
/// consecutive numbers.
pub open spec fn week_number(t: Timestamp) -> int {
    (t.day_number as int - t.weekday as int + WEEK_SHIFT) / 7
}

pub open spec fn week_numbers(s: Seq<Activity>) -> Seq<i64> {
    s.map_values(|a: Activity| week_number(a.date) as i64)
}

/// Name of a day of the week, 0 for Monday.
pub open spec fn weekday_name(w: int) -> Seq<char> {
    if w == 0 {
        "Mon"@
    } else if w == 1 {
        "Tue"@
    } else if w == 2 {
        "Wed"@
    } else if w == 3 {
        "Thu"@
    } else if w == 4 {
        "Fri"@
    } else if w == 5 {
        "Sat"@
    } else {
        "Sun"@
    }
}

/// Name of a day of the week, 0 for Monday.
pub fn weekday_label(w: u32) -> (r: String)
    ensures
        r@ == weekday_name(w as int),
{
    if w == 0 {
        String::from_str("Mon")
    } else if w == 1 {
        String::from_str("Tue")
    } else if w == 2 {
        String::from_str("Wed")
    } else if w == 3 {
        String::from_str("Thu")
    } else if w == 4 {
        String::from_str("Fri")
    } else if w == 5 {
        String::from_str("Sat")
    } else {
        String::from_str("Sun")
    }
}

/// 1 for an activity on Saturday or Sunday, else 0.
pub open spec fn weekend_flags(s: Seq<Activity>) -> Seq<int> {
    s.map_values(|a: Activity| if a.date.weekday == 5 || a.date.weekday == 6 { 1int } else { 0 })
}

/// Basis points (hundredths of a percent) of activities on a weekend day; 0 for none.
pub open spec fn weekend_ratio_of(s: Seq<Activity>) -> int {
    if s.len() == 0 {
        0
    } else {
        sum(weekend_flags(s)) * 10000 / s.len() as int
    }
}

/// Calories per minute, in hundredths, of `calories` burnt in `seconds`; 0 where the
/// duration was unreadable or zero.
pub open spec fn effort(calories: int, seconds: Option<u32>) -> int {
    match seconds {
        Some(t) => if t > 0 { calories * 6000 / t as int } else { 0 },
        None => 0,
    }
}

pub open spec fn efforts(s: Seq<Activity>, seconds: Seq<Option<u32>>) -> Seq<int> {
    Seq::new(s.len(), |i: int| effort(s[i].calories as int, seconds[i]))
}

/// Clock time of each activity's duration text.
pub open spec fn duration_seconds(s: Seq<Activity>) -> Seq<Option<u32>> {
    s.map_values(|a: Activity| clock_seconds_of(a.duration@))
}

pub open spec fn all_wf(s: Seq<Activity>) -> bool {
    forall|i: int| 0 <= i < s.len() ==> (#[trigger] s[i]).date.wf()
}

/// The largest effort among `activities`, where `seconds[i]` is the duration of
/// `activities[i]` in seconds, if it could be read.
pub fn max_effort_per_minute(activities: &[Activity], seconds: &Vec<Option<u32>>) -> (r: u64)
    requires
        seconds@.len() == activities@.len(),
    ensures
        r == max_of(efforts(activities@, seconds@)),
{
    let ghost e = efforts(activities@, seconds@);
    let mut best: u64 = 0;
    let mut i: usize = 0;
    while i < activities.len()
        invariant
            0 <= i <= activities@.len(),
            seconds@.len() == activities@.len(),
            e == efforts(activities@, seconds@),
            best == max_of(e.take(i as int)),
        decreases activities@.len() - i,
    {
        proof {
            lemma_take_next(e, i as int);
        }
        let value: u64 = match seconds[i] {
            Some(t) => if t > 0 {
                (activities[i].calories as u64) * 6000 / (t as u64)
            } else {
                0
            },
            None => 0,
        };
        if value > best {
            best = value;
        }
        i = i + 1;
    }
    assert(e.take(e.len() as int) =~= e);
    best
}

pub open spec fn speed_values(s: Seq<Activity>) -> Seq<u32> {
    s.map_values(|a: Activity| a.average_speed)
}

fn collect_days(activities: &[Activity]) -> (r: Vec<i64>)
    ensures
        r@ == day_numbers(activities@),
{
    let mut r: Vec<i64> = Vec::new();
    let mut i: usize = 0;
    while i < activities.len()
        invariant
            0 <= i <= activities@.len(),
            r@ =~= day_numbers(activities@).take(i as int),
        decreases activities@.len() - i,
    {
        r.push(activities[i].date.day_number as i64);
        i = i + 1;
    }
    assert(r@ =~= day_numbers(activities@));
    r
}

fn collect_weeks(activities: &[Activity]) -> (r: Vec<i64>)
    ensures
        r@ == week_numbers(activities@),
{
    let mut r: Vec<i64> = Vec::new();
    let mut i: usize = 0;
    while i < activities.len()
        invariant
            0 <= i <= activities@.len(),
            r@ =~= week_numbers(activities@).take(i as int),
        decreases activities@.len() - i,
    {
        r.push(week_index(&activities[i].date));
        i = i + 1;
    }
    assert(r@ =~= week_numbers(activities@));
    r
}

/// Number of the Monday-to-Sunday week that holds `t`.
pub fn week_index(t: &Timestamp) -> (r: i64)
    ensures
        r == week_number(*t),
{
    let x: i64 = t.day_number as i64 - t.weekday as i64 + WEEK_SHIFT;
    x / 7
}

fn collect_speeds(activities: &[Activity]) -> (r: Vec<u32>)
    ensures
        r@ == speed_values(activities@),
{
    let mut r: Vec<u32> = Vec::new();
    let mut i: usize = 0;
    while i < activities.len()
        invariant
            0 <= i <= activities@.len(),
            r@ =~= speed_values(activities@).take(i as int),
        decreases activities@.len() - i,
    {
        r.push(activities[i].average_speed);
        i = i + 1;
    }
    assert(r@ =~= speed_values(activities@));
    r
}

fn collect_durations(activities: &[Activity]) -> (r: Vec<Option<u32>>)
    ensures
        r@ == duration_seconds(activities@),
{
    let mut r: Vec<Option<u32>> = Vec::new();
    let mut i: usize = 0;
    while i < activities.len()
        invariant
            0 <= i <= activities@.len(),
            r@ =~= duration_seconds(activities@).take(i as int),
        decreases activities@.len() - i,
    {
        r.push(parse_clock_seconds(activities[i].duration.as_str()));
        i = i + 1;
    }
    assert(r@ =~= duration_seconds(activities@));
    r
}

/// Largest climb, slowest pace and number of weekend activities.
fn extremes(activities: &[Activity]) -> (r: (u32, u16, u32))
    requires
        activities@.len() <= u32::MAX,
    ensures
        r.0 == max_of(climbs(activities@)),
        r.1 == max_of(paces(activities@)),
        r.2 == sum(weekend_flags(activities@)),
{
    let ghost s = activities@;
    let mut climb: u32 = 0;
    let mut pace: u16 = 0;
    let mut weekend: u32 = 0;
    let mut i: usize = 0;
    while i < activities.len()
        invariant
            0 <= i <= s.len(),
            s == activities@,
            s.len() <= u32::MAX,
            climb == max_of(climbs(s).take(i as int)),
            pace == max_of(paces(s).take(i as int)),
            weekend == sum(weekend_flags(s).take(i as int)),
            weekend <= i,
        decreases s.len() - i,
    {
        proof {
            lemma_take_next(climbs(s), i as int);
            lemma_take_next(paces(s), i as int);
            lemma_take_next(weekend_flags(s), i as int);
        }
        let a = &activities[i];
        if a.climb > climb {
            climb = a.climb;
        }
        if a.average_pace > pace {
            pace = a.average_pace;
        }
        if a.date.weekday == 5 || a.date.weekday == 6 {
            weekend = weekend + 1;
        }
        i = i + 1;
    }
    assert(climbs(s).take(s.len() as int) =~= climbs(s));
    assert(paces(s).take(s.len() as int) =~= paces(s));
    assert(weekend_flags(s).take(s.len() as int) =~= weekend_flags(s));
    (climb, pace, weekend)
}

pub open spec fn weekday_groups(s: Seq<Activity>) -> Seq<(int, int)> {
    grouped(s, Grouping::Weekday, Measure::Pace)
}

pub open spec fn hour_groups(s: Seq<Activity>) -> Seq<(int, int)> {
    grouped(s, Grouping::Hour, Measure::Pace)
}

/// `c` lists each key of `v` once, with the mean of its values.
pub open spec fn lists_means(c: Seq<(u32, u16)>, v: Seq<(int, int)>) -> bool {
    &&& forall|a: int, b: int| 0 <= a < b < c.len() ==> c[a].0 != c[b].0
    &&& forall|i: int|
        0 <= i < c.len() ==> has_key(v, (#[trigger] c[i]).0 as int) && c[i].1 == keyed_mean(
            v,
            c[i].0 as int,
        )
    &&& forall|k: int| has_key(v, k) ==> exists|i: int| 0 <= i < c.len() && (#[trigger] c[i]).0 == k
}

/// `r` names the (up to) three weekdays with the lowest mean pace, fastest first.
pub open spec fn ranks_fastest_weekdays(s: Seq<Activity>, r: Seq<(String, u16)>) -> bool {
    exists|c: Seq<(u32, u16)>, top: Seq<(u32, u16)>|
        #[trigger] lists_means(c, weekday_groups(s)) && #[trigger] is_first_by_second(c, 3, top) && r.len()
            == top.len() && forall|i: int|
            0 <= i < r.len() ==> (#[trigger] r[i]).0@ == weekday_name(top[i].0 as int) && r[i].1
                == top[i].1
}

/// `k` is a key with the most values in `v`.
pub open spec fn is_most_frequent(v: Seq<(int, int)>, k: int) -> bool {
    &&& has_key(v, k)
    &&& forall|k2: int| has_key(v, k2) ==> keyed_count(v, k2) <= keyed_count(v, k)
}

/// `k` is a key with the fewest values in `v`.
pub open spec fn is_least_frequent(v: Seq<(int, int)>, k: int) -> bool {
    &&& has_key(v, k)
    &&& forall|k2: int| has_key(v, k2) ==> keyed_count(v, k) <= keyed_count(v, k2)
}

/// `k` is a key with the lowest mean in `v`.
pub open spec fn has_lowest_mean(v: Seq<(int, int)>, k: int) -> bool {
    &&& has_key(v, k)
    &&& forall|k2: int| has_key(v, k2) ==> keyed_mean(v, k) <= keyed_mean(v, k2)
}

/// The mean of each tallied key of `entries`, as weekday and pace.
#[verifier::spinoff_prover]
fn weekday_means(t: &Tally, entries: &Vec<(i64, u128)>, Ghost(s): Ghost<Seq<Activity>>) -> (r: Vec<(u32, u16)>)
    requires
        t.sums_up(entries@),
        entry_view(entries@) == weekday_groups(s),
        all_wf(s),
    ensures
        lists_means(r@, weekday_groups(s)),
{
    let ghost v = weekday_groups(s);
    let means = tally_means(t, Ghost(entries@));
    let mut r: Vec<(u32, u16)> = Vec::new();
    let mut j: usize = 0;
    while j < t.keys.len()
        invariant
            t.sums_up(entries@),
            entry_view(entries@) == v,
            v == weekday_groups(s),
            all_wf(s),
            means@.len() == t.keys@.len(),
            forall|q: int| 0 <= q < means@.len() ==> #[trigger] means@[q] == keyed_mean(v, t.keys@[q] as int),
            0 <= j <= t.keys@.len(),
            r@.len() == j,
            forall|q: int| 0 <= q < j ==> (#[trigger] r@[q]).0 == t.keys@[q] && r@[q].1 == means@[q],
        decreases t.keys@.len() - j,
    {
        let k = t.keys[j];
        proof {
            let f = t.firsts@[j as int] as int;
            assert(entries@[f].0 == k);
            assert(entry_view(entries@).len() == entries@.len());
            assert(v.len() == s.len());
            assert(0 <= f < s.len());
            assert(entry_view(entries@)[f].0 == k);
            assert(v[f].0 == s[f].date.weekday);
            assert(s[f].date.wf());
            lemma_keyed_count_bounds(v, k as int);
            lemma_tally_key_present(t, entries@, j as int);
            assert forall|q: int| 0 <= q < v.len() implies 0 <= #[trigger] v[q].1 <= 0xFFFF by {
                assert(v[q].1 == s[q].average_pace);
            }
            lemma_keyed_total_bounds(v, k as int, 0xFFFF);
            let n = keyed_count(v, k as int);
            let tot = keyed_total(v, k as int);
            assert(tot / n <= 0xFFFF) by {
                vstd::arithmetic::div_mod::lemma_div_is_ordered(tot, n * 0xFFFF, n);
                vstd::arithmetic::div_mod::lemma_div_by_multiple(0xFFFF, n);
                assert(n * 0xFFFF == 0xFFFF * n);
            }
        }
        r.push((k as u32, means[j] as u16));
        j = j + 1;
    }
    proof {
        assert forall|i: int| 0 <= i < r@.len() implies has_key(v, (#[trigger] r@[i]).0 as int) && r@[i].1 == keyed_mean(v, r@[i].0 as int) by {
            lemma_tally_key_present(t, entries@, i);
        }
        assert forall|k: int| has_key(v, k) implies exists|i: int| 0 <= i < r@.len() && (#[trigger] r@[i]).0 == k by {
            lemma_tally_finds(t, entries@, k);
            let jj = choose|jj: int| 0 <= jj < t.keys@.len() && t.keys@[jj] == k;
            assert(r@[jj].0 == k);
        }
    }
    r
}

fn fastest_weekdays(t: &Tally, entries: &Vec<(i64, u128)>, Ghost(s): Ghost<Seq<Activity>>) -> (r: Vec<(String, u16)>)
    requires
        t.sums_up(entries@),
        entry_view(entries@) == weekday_groups(s),
        all_wf(s),
    ensures
        ranks_fastest_weekdays(s, r@),
{
    let c = weekday_means(t, entries, Ghost(s));
    let top = first_three_by_second(&c);
    let mut r: Vec<(String, u16)> = Vec::new();
    let mut i: usize = 0;
    while i < top.len()
        invariant
            0 <= i <= top@.len(),
            r@.len() == i,
            forall|q: int| 0 <= q < i ==> (#[trigger] r@[q]).0@ == weekday_name(top@[q].0 as int) && r@[q].1 == top@[q].1,
        decreases top@.len() - i,
    {
        let (w, p) = top[i];
        r.push((weekday_label(w), p));
        i = i + 1;
    }
    assert(lists_means(c@, weekday_groups(s)) && is_first_by_second(c@, 3, top@));
    r
}

/// Position in `t` of a key with the most entries.
fn most_frequent_key(t: &Tally, Ghost(e): Ghost<Seq<(i64, u128)>>) -> (r: usize)
    requires
        t.sums_up(e),
        t.keys@.len() > 0,
    ensures
        r < t.keys@.len(),
        is_most_frequent(entry_view(e), t.keys@[r as int] as int),
{
    let r = index_of_max(&t.counts);
    proof {
        lemma_tally_key_present(t, e, r as int);
        assert forall|k2: int| has_key(entry_view(e), k2) implies keyed_count(entry_view(e), k2) <= keyed_count(entry_view(e), t.keys@[r as int] as int) by {
            lemma_tally_finds(t, e, k2);
            let jj = choose|jj: int| 0 <= jj < t.keys@.len() && t.keys@[jj] == k2;
            assert(t.counts@[jj] <= t.counts@[r as int]);
        }
    }
    r
}

/// Position in `t` of a key with the fewest entries.
fn least_frequent_key(t: &Tally, Ghost(e): Ghost<Seq<(i64, u128)>>) -> (r: usize)
    requires
        t.sums_up(e),
        t.keys@.len() > 0,
    ensures
        r < t.keys@.len(),
        is_least_frequent(entry_view(e), t.keys@[r as int] as int),
{
    let r = index_of_min(&t.counts);
    proof {
        lemma_tally_key_present(t, e, r as int);
        assert forall|k2: int| has_key(entry_view(e), k2) implies keyed_count(entry_view(e), t.keys@[r as int] as int) <= keyed_count(entry_view(e), k2) by {
            lemma_tally_finds(t, e, k2);
            let jj = choose|jj: int| 0 <= jj < t.keys@.len() && t.keys@[jj] == k2;
            assert(t.counts@[r as int] <= t.counts@[jj]);
        }
    }
    r
}

/// Position in `t` of a key with the lowest mean.
fn lowest_mean_key(t: &Tally, Ghost(e): Ghost<Seq<(i64, u128)>>) -> (r: usize)
    requires
        t.sums_up(e),
        t.keys@.len() > 0,
    ensures
        r < t.keys@.len(),
        has_lowest_mean(entry_view(e), t.keys@[r as int] as int),
{
    let means = tally_means(t, Ghost(e));
    let r = index_of_min(&means);
    proof {
        lemma_tally_key_present(t, e, r as int);
        assert forall|k2: int| has_key(entry_view(e), k2) implies keyed_mean(entry_view(e), t.keys@[r as int] as int) <= keyed_mean(entry_view(e), k2) by {
            lemma_tally_finds(t, e, k2);
            let jj = choose|jj: int| 0 <= jj < t.keys@.len() && t.keys@[jj] == k2;
            assert(means@[r as int] <= means@[jj]);
        }
    }
    r
}

/// Position in `t` of a key with the largest total.
fn largest_total_key(t: &Tally, Ghost(e): Ghost<Seq<(i64, u128)>>) -> (r: usize)
    requires
        t.sums_up(e),
        t.keys@.len() > 0,
    ensures
        r < t.keys@.len(),
        forall|i: int| 0 <= i < e.len() ==> keyed_total(entry_view(e), #[trigger] e[i].0 as int) <= t.totals@[r as int],
        t.totals@[r as int] == keyed_total(entry_view(e), t.keys@[r as int] as int),
{
    let r = index_of_max(&t.totals);
    proof {
        assert forall|i: int| 0 <= i < e.len() implies keyed_total(entry_view(e), #[trigger] e[i].0 as int) <= t.totals@[r as int] by {
            assert(t.keys@.contains(e[i].0));
            let jj = choose|jj: int| 0 <= jj < t.keys@.len() && t.keys@[jj] == e[i].0;
            assert(t.totals@[jj] <= t.totals@[r as int]);
        }
    }
    r
}

pub open spec fn day_groups(s: Seq<Activity>) -> Seq<(int, int)> {
    grouped(s, Grouping::Day, Measure::Calories)
}

pub open spec fn week_calorie_groups(s: Seq<Activity>) -> Seq<(int, int)> {
    grouped(s, Grouping::Week, Measure::Calories)
}

pub open spec fn week_pace_groups(s: Seq<Activity>) -> Seq<(int, int)> {
    grouped(s, Grouping::Week, Measure::Pace)
}

/// Population variance of all paces, in squared hundredths, rounded down.
pub open spec fn pace_variance(s: Seq<Activity>) -> int {
    group_variance(grouped(s, Grouping::All, Measure::Pace), 0)
}

/// Label of the ISO week of an activity.
pub open spec fn week_label_of(a: Activity) -> Seq<char> {
    week_label_text(a.date.iso_year as int, a.date.iso_week as int)
}

/// Calories of the busiest day, 0 when there is none.
fn max_daily(activities: &[Activity]) -> (r: u64)
    requires
        activities@.len() <= u32::MAX,
    ensures
        forall|i: int|
            0 <= i < activities@.len() ==> keyed_total(
                day_groups(activities@),
                group_key(#[trigger] activities@[i], Grouping::Day),
            ) <= r,
        activities@.len() == 0 ==> r == 0,
        activities@.len() > 0 ==> exists|i: int|
            0 <= i < activities@.len() && r == keyed_total(
                day_groups(activities@),
                group_key(#[trigger] activities@[i], Grouping::Day),
            ),
{
    let ghost s = activities@;
    let entries = keyed_entries(activities, Grouping::Day, Measure::Calories);
    let t = tally(&entries);
    if t.keys.len() == 0 {
        return 0;
    }
    let j = largest_total_key(&t, Ghost(entries@));
    proof {
        let v = entry_view(entries@);
        let k = t.keys@[j as int] as int;
        lemma_keyed_count_bounds(v, k);
        assert forall|q: int| 0 <= q < v.len() implies 0 <= #[trigger] v[q].1 <= 0xFFFF_FFFF by {
            assert(v[q].1 == entries@[q].1);
        }
        lemma_keyed_total_bounds(v, k, 0xFFFF_FFFF);
        assert(keyed_count(v, k) * 0xFFFF_FFFF <= 0xFFFF_FFFF * 0xFFFF_FFFF) by (nonlinear_arith)
            requires
                keyed_count(v, k) <= 0xFFFF_FFFF,
        ;
        assert forall|i: int| 0 <= i < s.len() implies keyed_total(day_groups(s), group_key(#[trigger] s[i], Grouping::Day)) <= t.totals@[j as int] by {
            assert(v[i].0 == entries@[i].0);
            assert(keyed_total(v, entries@[i].0 as int) <= t.totals@[j as int]);
        }
        let f = t.firsts@[j as int] as int;
        assert(v[f].0 == entries@[f].0);
        assert(s[f] == activities@[f]);
    }
    t.totals[j] as u64
}

/// Label of a week with the most calories; `None` for no activity.
fn sweatiest_week_of(activities: &[Activity]) -> (r: Option<String>)
    requires
        activities@.len() <= u32::MAX,
    ensures
        r is None <==> activities@.len() == 0,
        r matches Some(l) ==> exists|i: int|
            0 <= i < activities@.len() && l@ == week_label_of(activities@[i]) && forall|j: int|
                0 <= j < activities@.len() ==> keyed_total(
                    week_calorie_groups(activities@),
                    group_key(#[trigger] activities@[j], Grouping::Week),
                ) <= keyed_total(week_calorie_groups(activities@), group_key(activities@[i], Grouping::Week)),
{
    let ghost s = activities@;
    let entries = keyed_entries(activities, Grouping::Week, Measure::Calories);
    let t = tally(&entries);
    if t.keys.len() == 0 {
        assert(s.len() == 0) by {
            if s.len() > 0 {
                assert(t.keys@.contains(entries@[0].0));
            }
        }
        return None;
    }
    let j = largest_total_key(&t, Ghost(entries@));
    let f = t.firsts[j];
    let a = &activities[f];
    let label = week_label(a.date.iso_year, a.date.iso_week);
    proof {
        let v = entry_view(entries@);
        assert(v[f as int].0 == entries@[f as int].0);
        assert forall|i: int| 0 <= i < s.len() implies keyed_total(week_calorie_groups(s), group_key(#[trigger] s[i], Grouping::Week)) <= keyed_total(week_calorie_groups(s), group_key(s[f as int], Grouping::Week)) by {
            assert(v[i].0 == entries@[i].0);
            assert(keyed_total(v, entries@[i].0 as int) <= t.totals@[j as int]);
        }
    }
    Some(label)
}

/// Label of a week whose paces vary least; `None` for no activity.
fn most_consistent_week_of(activities: &[Activity]) -> (r: Option<String>)
    requires
        activities@.len() <= u32::MAX,
    ensures
        r is None <==> activities@.len() == 0,
        r matches Some(l) ==> exists|i: int|
            0 <= i < activities@.len() && l@ == week_label_of(activities@[i]) && forall|j: int|
                0 <= j < activities@.len() ==> group_variance(
                    week_pace_groups(activities@),
                    group_key(activities@[i], Grouping::Week),
                ) <= group_variance(week_pace_groups(activities@), group_key(#[trigger] activities@[j], Grouping::Week)),
{
    let ghost s = activities@;
    let entries = keyed_entries(activities, Grouping::Week, Measure::Pace);
    let t = tally(&entries);
    let (t2, vars) = group_variances(&entries, &t);
    if t2.keys.len() == 0 {
        assert(s.len() == 0) by {
            if s.len() > 0 {
                assert(t2.keys@.contains(entries@[0].0));
            }
        }
        return None;
    }
    let j = index_of_min(&vars);
    let f = t2.firsts[j];
    let a = &activities[f];
    let label = week_label(a.date.iso_year, a.date.iso_week);
    proof {
        let v = entry_view(entries@);
        assert(v[f as int].0 == entries@[f as int].0);
        assert forall|i: int| 0 <= i < s.len() implies group_variance(week_pace_groups(s), group_key(s[f as int], Grouping::Week)) <= group_variance(week_pace_groups(s), group_key(#[trigger] s[i], Grouping::Week)) by {
            assert(v[i].0 == entries@[i].0);
            assert(t2.keys@.contains(entries@[i].0));
            let jj = choose|jj: int| 0 <= jj < t2.keys@.len() && t2.keys@[jj] == entries@[i].0;
            assert(vars@[j as int] <= vars@[jj]);
        }
    }
    Some(label)
}

/// Standard deviation of the paces, in hundredths, rounded down.
fn pace_spread(activities: &[Activity]) -> (r: u64)
    requires
        activities@.len() <= u32::MAX,
    ensures
        r * r <= pace_variance(activities@) < (r + 1) * (r + 1),
{
    let entries = keyed_entries(activities, Grouping::All, Measure::Pace);
    let t = tally(&entries);
    let (t2, vars) = group_variances(&entries, &t);
    if vars.len() == 0 {
        assert(pace_variance(activities@) == 0) by {
            if activities@.len() > 0 {
                assert(t2.keys@.contains(entries@[0].0));
            }
            assert(activities@.len() == 0);
            assert(grouped(activities@, Grouping::All, Measure::Pace).len() == 0);
        }
        return 0;
    }
    proof {
        let f = t2.firsts@[0] as int;
        assert(entry_view(entries@)[f].0 == entries@[f].0);
        assert(t2.keys@[0] == 0);
    }
    integer_sqrt(vars[0])
}

/// Streaks, buckets and highlights of a group of activities.
#[derive(Clone, Debug)]
pub struct AdvancedAggregation {
    /// Longest run of consecutive calendar days with an activity (0 without two such days).
    pub longest_streak_days: u32,
    /// Longest run of consecutive Monday-to-Sunday weeks with an activity (0 without two).
    /// Weeks follow the calendar, so week 53 of a long ISO year runs on into week 1.
    pub longest_streak_weeks: u32,
    /// Consecutive weeks with an activity, ending with the current week.
    pub current_weekly_streak: u32,
    /// Up to three weekday names with their mean pace, lowest pace first.
    pub top_3_fastest_weekdays: Vec<(String, u16)>,
    /// `{year}-W{week}` of an ISO week whose paces vary least.
    pub most_consistent_week: Option<String>,
    /// kcal of the busiest calendar day.
    pub max_daily_calories: u64,
    /// Up to three highest speeds, highest first.
    pub top_speeds: Vec<u32>,
    /// Metres.
    pub max_climb: u32,
    pub most_frequent_weekday: Option<String>,
    /// Hundredths of the `minutes.seconds` encoding.
    pub slowest_pace: u16,
    /// `HH:00` of an hour of the day with the lowest mean pace.
    pub speed_demon_hour: Option<String>,
    /// `{year}-W{week}` of an ISO week with the most calories.
    pub sweatiest_week: Option<String>,
    pub most_skipped_weekday: Option<String>,
    /// Basis points of activities on Saturday or Sunday.
    pub weekend_ratio: u32,
    /// Population standard deviation of the paces, in hundredths.
    pub pace_std_dev: u64,
    /// Hundredths of kcal per minute.
    pub max_effort_cal_per_min: u64,
}

impl AdvancedAggregation {
    /// This aggregation describes the group `s`, with `today` as the current date.
    pub open spec fn describes(&self, s: Seq<Activity>, today: Timestamp) -> bool {
        &&& is_longest_streak(int_set(day_numbers(s)), self.longest_streak_days as int)
        &&& is_longest_streak(int_set(week_numbers(s)), self.longest_streak_weeks as int)
        &&& is_streak_ending_at(int_set(week_numbers(s)), week_number(today), self.current_weekly_streak as int)
        &&& ranks_fastest_weekdays(s, self.top_3_fastest_weekdays@)
        &&& (self.most_consistent_week is None <==> s.len() == 0)
        &&& (self.most_consistent_week matches Some(l) ==> exists|i: int|
            0 <= i < s.len() && l@ == week_label_of(s[i]) && forall|j: int|
                0 <= j < s.len() ==> group_variance(week_pace_groups(s), group_key(s[i], Grouping::Week))
                    <= group_variance(week_pace_groups(s), group_key(#[trigger] s[j], Grouping::Week)))
        &&& forall|i: int|
            0 <= i < s.len() ==> keyed_total(day_groups(s), group_key(#[trigger] s[i], Grouping::Day))
                <= self.max_daily_calories
        &&& s.len() == 0 ==> self.max_daily_calories == 0
        &&& s.len() > 0 ==> exists|i: int|
            0 <= i < s.len() && self.max_daily_calories == keyed_total(
                day_groups(s),
                group_key(#[trigger] s[i], Grouping::Day),
            )
        &&& self.top_speeds@.len() == min_len(3, s.len() as int)
        &&& sorted_desc(self.top_speeds@)
        &&& is_top_desc(speed_values(s), 3, self.top_speeds@)
        &&& self.max_climb == max_of(climbs(s))
        &&& (self.most_frequent_weekday is None <==> s.len() == 0)
        &&& (self.most_frequent_weekday matches Some(n) ==> exists|w: int|
            is_most_frequent(weekday_groups(s), w) && n@ == weekday_name(w))
        &&& self.slowest_pace == max_of(paces(s))
        &&& (self.speed_demon_hour is None <==> s.len() == 0)
        &&& (self.speed_demon_hour matches Some(l) ==> exists|h: int|
            has_lowest_mean(hour_groups(s), h) && l@ == hour_label_text(h))
        &&& (self.sweatiest_week is None <==> s.len() == 0)
        &&& (self.sweatiest_week matches Some(l) ==> exists|i: int|
            0 <= i < s.len() && l@ == week_label_of(s[i]) && forall|j: int|
                0 <= j < s.len() ==> keyed_total(week_calorie_groups(s), group_key(#[trigger] s[j], Grouping::Week))
                    <= keyed_total(week_calorie_groups(s), group_key(s[i], Grouping::Week)))
        &&& (self.most_skipped_weekday is None <==> s.len() == 0)
        &&& (self.most_skipped_weekday matches Some(n) ==> exists|w: int|
            is_least_frequent(weekday_groups(s), w) && n@ == weekday_name(w))
        &&& self.weekend_ratio == weekend_ratio_of(s)
        &&& self.pace_std_dev * self.pace_std_dev <= pace_variance(s) < (self.pace_std_dev + 1) * (
        self.pace_std_dev + 1)
        &&& self.max_effort_cal_per_min == max_of(efforts(s, duration_seconds(s)))
    }
}

/// Computes the streaks, buckets and highlights of a group of activities; `today` is the
/// date that the current weekly streak ends at.
#[verifier::spinoff_prover]
pub fn compute_advanced_aggregation(activities: &[Activity], today: &Timestamp) -> (r: AdvancedAggregation)
    requires
        activities@.len() <= u32::MAX,
        all_wf(activities@),
        today.wf(),
    ensures
        r.describes(activities@, *today),
{
    let ghost s = activities@;
    let days = collect_days(activities);
    let longest_streak_days = longest_streak(&days);
    let weeks = collect_weeks(activities);
    let longest_streak_weeks = longest_streak(&weeks);
    let current_weekly_streak = streak_ending_at(&weeks, week_index(today));

    let weekday_entries = keyed_entries(activities, Grouping::Weekday, Measure::Pace);
    let weekday_tally = tally(&weekday_entries);
    let top_3_fastest_weekdays = fastest_weekdays(&weekday_tally, &weekday_entries, Ghost(s));
    let (most_frequent_weekday, most_skipped_weekday) = if weekday_tally.keys.len() == 0 {
        (None, None)
    } else {
        let most = most_frequent_key(&weekday_tally, Ghost(weekday_entries@));
        let least = least_frequent_key(&weekday_tally, Ghost(weekday_entries@));
        proof {
            let f = weekday_tally.firsts@[most as int] as int;
            assert(entry_view(weekday_entries@)[f].0 == weekday_entries@[f].0);
            assert(s[f].date.wf());
            let g = weekday_tally.firsts@[least as int] as int;
            assert(entry_view(weekday_entries@)[g].0 == weekday_entries@[g].0);
            assert(s[g].date.wf());
        }
        (
            Some(weekday_label(weekday_tally.keys[most] as u32)),
            Some(weekday_label(weekday_tally.keys[least] as u32)),
        )
    };

    let hour_entries = keyed_entries(activities, Grouping::Hour, Measure::Pace);
    let hour_tally = tally(&hour_entries);
    let speed_demon_hour = if hour_tally.keys.len() == 0 {
        None
    } else {
        let h = lowest_mean_key(&hour_tally, Ghost(hour_entries@));
        proof {
            let f = hour_tally.firsts@[h as int] as int;
            assert(entry_view(hour_entries@)[f].0 == hour_entries@[f].0);
            assert(s[f].date.wf());
        }
        Some(hour_label(hour_tally.keys[h] as u32))
    };
    proof {
        if s.len() > 0 {
            assert(weekday_tally.keys@.contains(weekday_entries@[0].0));
            assert(hour_tally.keys@.contains(hour_entries@[0].0));
        }
    }

    let speeds = collect_speeds(activities);
    let top_speeds = largest_three(&speeds);
    let (max_climb, slowest_pace, weekend) = extremes(activities);
    let n = activities.len() as u64;
    let weekend_ratio: u32 = if n == 0 {
        0
    } else {
        proof {
            lemma_sum_bounds(weekend_flags(s), 1);
        }
        assert((weekend as int * 10000) / (n as int) <= 10000) by {
            vstd::arithmetic::div_mod::lemma_div_is_ordered(weekend as int * 10000, n as int * 10000, n as int);
            vstd::arithmetic::div_mod::lemma_div_by_multiple(10000, n as int);
            assert(n as int * 10000 == 10000 * n as int);
        }
        (weekend as u64 * 10000 / n) as u32
    };
    let durations = collect_durations(activities);
    let max_effort_cal_per_min = max_effort_per_minute(activities, &durations);
    AdvancedAggregation {
        longest_streak_days,
        longest_streak_weeks,
        current_weekly_streak,
        top_3_fastest_weekdays,
        most_consistent_week: most_consistent_week_of(activities),
        max_daily_calories: max_daily(activities),
        top_speeds,
        max_climb,
        most_frequent_weekday,
        slowest_pace,
        speed_demon_hour,
        sweatiest_week: sweatiest_week_of(activities),
        most_skipped_weekday,
        weekend_ratio,
        pace_std_dev: pace_spread(activities),
        max_effort_cal_per_min,
    }
}

/// A set of units with a single member has no streak.
proof fn lemma_single_unit_no_streak(v: Seq<i64>, r: int)
    requires
        v.len() == 1,
        is_longest_streak(int_set(v), r),
    ensures
        r == 0,
{
    if r >= 2 {
        let start = choose|start: int| run_present(int_set(v), start, r);
        assert(int_set(v).contains(start + 0));
        assert(int_set(v).contains(start + 1));
        let i = choose|i: int| 0 <= i < v.len() && v[i] == start + 0;
        let j = choose|j: int| 0 <= j < v.len() && v[j] == start + 1;
    }
}

/// A group of one activity has no day streak and no week streak, no spread of pace, one
/// ranked weekday, and a best pace no better than its mean pace.
#[verifier::spinoff_prover]
pub proof fn lemma_single_activity_group(
    s: Seq<Activity>,
    today: Timestamp,
    basic: ActivitiesAggregation,
    advanced: AdvancedAggregation,
)
    requires
        s.len() == 1,
        basic.summarizes(s),
        advanced.describes(s, today),
    ensures
        advanced.longest_streak_days == 0,
        advanced.longest_streak_weeks == 0,
        advanced.pace_std_dev == 0,
        advanced.top_3_fastest_weekdays@.len() == 1,
        basic.best_pace <= basic.average_pace,
{
    lemma_single_unit_no_streak(day_numbers(s), advanced.longest_streak_days as int);
    lemma_single_unit_no_streak(week_numbers(s), advanced.longest_streak_weeks as int);

    let v = grouped(s, Grouping::All, Measure::Pace);
    assert(v.drop_last() =~= Seq::<(int, int)>::empty());
    assert(v[0] == (0int, s[0].average_pace as int));
    assert(v.last() == v[0]);
    assert(keyed_count(v.drop_last(), 0) == 0);
    assert(keyed_total(v.drop_last(), 0) == 0);
    assert(keyed_count(v, 0) == 1);
    assert(keyed_total(v, 0) == s[0].average_pace);
    let d = scaled_deviations(v);
    let dd = keyed_count(v, v[0].0) * v[0].1 - keyed_total(v, v[0].0);
    assert(dd == 0);
    assert(d[0].1 == dd * dd);
    assert(dd * dd == 0) by (nonlinear_arith)
        requires
            dd == 0,
    ;
    assert(d[0].1 == 0);
    assert(d.drop_last() =~= Seq::<(int, int)>::empty());
    assert(keyed_total(d.drop_last(), 0) == 0);
    assert(d.last() == d[0]);
    assert(keyed_total(d, 0) == 0);
    assert(group_variance(v, 0) == keyed_total(d, 0) / (1int * 1 * 1));
    assert(pace_variance(s) == 0);
    let r = advanced.pace_std_dev as int;
    assert(r == 0) by (nonlinear_arith)
        requires
            r >= 0,
            r * r <= 0,
    ;

    let w = weekday_groups(s);
    let (c, top) = choose|c: Seq<(u32, u16)>, top: Seq<(u32, u16)>|
        #[trigger] lists_means(c, w) && #[trigger] is_first_by_second(c, 3, top) && advanced.top_3_fastest_weekdays@.len()
            == top.len() && forall|i: int|
            0 <= i < advanced.top_3_fastest_weekdays@.len() ==> (#[trigger] advanced.top_3_fastest_weekdays@[i]).0@
                == weekday_name(top[i].0 as int) && advanced.top_3_fastest_weekdays@[i].1 == top[i].1;
    assert(has_key(w, w[0].0));
    let i0 = choose|i: int| 0 <= i < c.len() && (#[trigger] c[i]).0 == w[0].0;
    if c.len() > 1 {
        let other = if i0 == 0 { 1int } else { 0int };
        assert(has_key(w, c[other].0 as int));
        let q = choose|q: int| 0 <= q < w.len() && #[trigger] w[q].0 == c[other].0 as int;
        assert(c[other].0 == c[i0].0);
    }
    assert(c.len() == 1);
    let t = choose|t: Seq<(u32, u16)>|
        #[trigger] t.to_multiset() == c.to_multiset() && crate::ranking::sorted_by_second(t) && top == t.take(
            crate::ranking::min_len(3, c.len() as int),
        );
    to_multiset_len(t);
    to_multiset_len(c);
}

/// Some activity of `s` falls on calendar day `d`.
pub open spec fn has_day(s: Seq<Activity>, d: int) -> bool {
    exists|i: int| 0 <= i < s.len() && (#[trigger] s[i]).date.day_number == d
}

/// Activities that fall on seven consecutive calendar days, at least one on each, make a
/// day streak of 7.
pub proof fn lemma_seven_consecutive_days(
    s: Seq<Activity>,
    today: Timestamp,
    advanced: AdvancedAggregation,
    first: int,
)
    requires
        advanced.describes(s, today),
        forall|i: int| 0 <= i < s.len() ==> first <= (#[trigger] s[i]).date.day_number < first + 7,
        forall|d: int| first <= d < first + 7 ==> #[trigger] has_day(s, d),
    ensures
        advanced.longest_streak_days == 7,
{
    let set = int_set(day_numbers(s));
    assert forall|x: int| #[trigger] set.contains(x) implies first <= x < first + 7 by {
        let i = choose|i: int| 0 <= i < day_numbers(s).len() && day_numbers(s)[i] == x;
        assert(first <= s[i].date.day_number < first + 7);
    }
    assert(run_present(set, first, 7)) by {
        assert forall|j: int| 0 <= j < 7 implies #[trigger] set.contains(first + j) by {
            assert(has_day(s, first + j));
            let i = choose|i: int| 0 <= i < s.len() && (#[trigger] s[i]).date.day_number == first + j;
            assert(day_numbers(s)[i] == first + j);
        }
    }
    let r = advanced.longest_streak_days as int;
    assert(r >= 7);
    let start = choose|start: int| run_present(set, start, r);
    assert(set.contains(start + 0));
    assert(set.contains(start + (r - 1)));
}

/// Values all recorded under one key sum to that key's total.
proof fn lemma_one_key_total(v: Seq<(int, int)>, k: int)
    requires
        forall|i: int| 0 <= i < v.len() ==> (#[trigger] v[i]).0 == k,
    ensures
        keyed_total(v, k) == sum(v.map_values(|e: (int, int)| e.1)),
    decreases v.len(),
{
    if v.len() > 0 {
        lemma_one_key_total(v.drop_last(), k);
        assert(v.map_values(|e: (int, int)| e.1).drop_last() =~= v.drop_last().map_values(|e: (int, int)| e.1));
    }
}

/// When every activity of a group falls on one calendar day, the busiest day's calories
/// are the group's total calories.
pub proof fn lemma_single_day_calories(s: Seq<Activity>, today: Timestamp, advanced: AdvancedAggregation, day: int)
    requires
        advanced.describes(s, today),
        forall|i: int| 0 <= i < s.len() ==> (#[trigger] s[i]).date.day_number == day,
    ensures
        advanced.max_daily_calories == sum(calories(s)),
{
    let v = day_groups(s);
    lemma_one_key_total(v, day);
    assert(v.map_values(|e: (int, int)| e.1) =~= calories(s));
    if s.len() > 0 {
        let i = choose|i: int|
            0 <= i < s.len() && advanced.max_daily_calories == keyed_total(
                day_groups(s),
                group_key(#[trigger] s[i], Grouping::Day),
            );
    } else {
        assert(calories(s) =~= Seq::<int>::empty());
    }
}

/// The top speeds are the `min(3, n)` highest speeds of the `n` activities, highest first.
pub proof fn lemma_top_speeds(s: Seq<Activity>, today: Timestamp, advanced: AdvancedAggregation)
    requires
        advanced.describes(s, today),
    ensures
        advanced.top_speeds@.len() <= 3,
        advanced.top_speeds@.len() == min_len(3, s.len() as int),
        forall|i: int, j: int|
            0 <= i < j < advanced.top_speeds@.len() ==> advanced.top_speeds@[i] >= advanced.top_speeds@[j],
        is_top_desc(speed_values(s), 3, advanced.top_speeds@),
{
}

/// When every activity of a group falls on one calendar date, the busiest day's calories
/// are the group's total calories.
pub proof fn lemma_same_date_calories(
    s: Seq<Activity>,
    today: Timestamp,
    advanced: AdvancedAggregation,
    year: i32,
    month: u32,
    day: u32,
)
    requires
        advanced.describes(s, today),
        all_wf(s),
        forall|i: int|
            0 <= i < s.len() ==> (#[trigger] s[i]).date.year == year && s[i].date.month == month
                && s[i].date.day == day,
    ensures
        advanced.max_daily_calories == sum(calories(s)),
{
    assert forall|i: int| 0 <= i < s.len() implies (#[trigger] s[i]).date.day_number == day_number_of(year as int, month as int, day as int) by {
        assert(s[i].date.wf());
    }
    lemma_single_day_calories(s, today, advanced, day_number_of(year as int, month as int, day as int) as int);
}

/// A date seven days after another lies in the next Monday-to-Sunday week.
pub proof fn lemma_next_week(t: Timestamp, u: Timestamp)
    requires
        t.wf(),
        u.wf(),
        u.day_number == t.day_number + 7,
    ensures
        week_number(u) == week_number(t) + 1,
{
    let n = t.day_number as int;
    assert((n + 7 + 6) % 7 == (n + 6) % 7) by {
        vstd::arithmetic::div_mod::lemma_mod_add_multiples_vanish(n + 6, 7);
    }
    assert(u.weekday == t.weekday);
    let x = t.day_number as int - t.weekday as int + WEEK_SHIFT;
    assert((x + 7) / 7 == x / 7 + 1) by {
        vstd::arithmetic::div_mod::lemma_div_plus_one(x, 7);
    }
}

} // verus!
