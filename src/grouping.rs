//! Grouping of activities by type and by calendar month, and the assembled result.

use crate::activity::{distances, Activity};
use crate::advanced::{all_wf, compute_advanced_aggregation, AdvancedAggregation};
use crate::basic::{aggregate_activities, ActivitiesAggregation};
use crate::calendar::{month_key, month_key_of, Timestamp};
use crate::scoring::{calculate_score_summary, default_rules, default_scoring_config, ScoreSummary};
use crate::stats::{lemma_sum_update, lemma_take_next, sum};
use vstd::prelude::*;

verus! {

/// The activities of `s` whose type is `t`, in order.
pub open spec fn of_type(s: Seq<Activity>, t: Seq<char>) -> Seq<Activity>
    decreases s.len(),
{
    if s.len() == 0 {
        s
    } else {
        let p = of_type(s.drop_last(), t);
        if s.last().activity_type@ == t { p.push(s.last()) } else { p }
    }
}

/// The activities of `s` in month `month` of `year`, in order.
pub open spec fn of_month(s: Seq<Activity>, year: int, month: int) -> Seq<Activity>
    decreases s.len(),
{
    if s.len() == 0 {
        s
    } else {
        let p = of_month(s.drop_last(), year, month);
        if s.last().date.year == year && s.last().date.month == month { p.push(s.last()) } else { p }
    }
}

/// Distance covered in each group.
pub open spec fn group_distances(g: Seq<Vec<Activity>>) -> Seq<int> {
    g.map_values(|v: Vec<Activity>| sum(distances(v@)))
}

/// Number of activities in each group.
pub open spec fn group_sizes(g: Seq<Vec<Activity>>) -> Seq<int> {
    g.map_values(|v: Vec<Activity>| v@.len() as int)
}

/// Splits activities by calendar month, months in order of first appearance.
#[verifier::spinoff_prover]
pub fn group_by_month(activities: &[Activity]) -> (r: (Vec<(i32, u32)>, Vec<Vec<Activity>>))
    ensures
        r.0@.len() == r.1@.len(),
        forall|a: int, b: int| 0 <= a < b < r.0@.len() ==> r.0@[a] != r.0@[b],
        forall|k: int|
            0 <= k < r.0@.len() ==> (#[trigger] r.1@[k])@ == of_month(activities@, r.0@[k].0 as int, r.0@[k].1 as int)
                && r.1@[k]@.len() > 0,
        forall|i: int|
            0 <= i < activities@.len() ==> r.0@.contains(((#[trigger] activities@[i]).date.year, activities@[i].date.month)),
        sum(group_distances(r.1@)) == sum(distances(activities@)),
        sum(group_sizes(r.1@)) == activities@.len(),
{
    let ghost s = activities@;
    let mut keys: Vec<(i32, u32)> = Vec::new();
    let mut groups: Vec<Vec<Activity>> = Vec::new();
    let mut i: usize = 0;
    while i < activities.len()
        invariant
            s == activities@,
            0 <= i <= s.len(),
            keys@.len() == groups@.len(),
            forall|a: int, b: int| 0 <= a < b < keys@.len() ==> keys@[a] != keys@[b],
            forall|k: int|
                0 <= k < keys@.len() ==> (#[trigger] groups@[k])@ == of_month(s.take(i as int), keys@[k].0 as int, keys@[k].1 as int)
                    && groups@[k]@.len() > 0,
            forall|q: int| 0 <= q < i ==> keys@.contains(((#[trigger] s[q]).date.year, s[q].date.month)),
            sum(group_distances(groups@)) == sum(distances(s.take(i as int))),
            sum(group_sizes(groups@)) == i,
        decreases s.len() - i,
    {
        let a = activities[i].duplicate();
        let key = (a.date.year, a.date.month);
        proof {
            lemma_take_next(s, i as int);
            lemma_take_next(distances(s), i as int);
            assert(distances(s.take(i + 1)) =~= distances(s).take(i + 1));
            assert(distances(s.take(i as int)) =~= distances(s).take(i as int));
            assert(sum(distances(s.take(i + 1))) == sum(distances(s.take(i as int))) + s[i as int].distance);
        }
        let mut j: usize = 0;
        while j < keys.len() && !(keys[j].0 == key.0 && keys[j].1 == key.1)
            invariant
                0 <= j <= keys@.len(),
                forall|q: int| 0 <= q < j ==> keys@[q] != key,
            decreases keys@.len() - j,
        {
            j = j + 1;
        }
        let ghost old_groups = groups@;
        let ghost old_keys = keys@;
        if j < keys.len() {
            let mut g = groups.remove(j);
            let ghost before = g@;
            g.push(a);
            groups.insert(j, g);
            proof {
                assert(groups@ =~= old_groups.update(j as int, g));
                assert(g@ == before.push(s[i as int]));
                assert(distances(g@) =~= distances(before).push(s[i as int].distance as int));
                assert(distances(g@).drop_last() =~= distances(before));
                assert(before == old_groups[j as int]@);
                assert(sum(distances(g@)) == sum(distances(before)) + s[i as int].distance);
                lemma_sum_update(group_distances(old_groups), j as int, sum(distances(g@)));
                assert(group_distances(groups@) =~= group_distances(old_groups).update(j as int, sum(distances(g@))));
                lemma_sum_update(group_sizes(old_groups), j as int, g@.len() as int);
                assert(group_sizes(groups@) =~= group_sizes(old_groups).update(j as int, g@.len() as int));
            }
        } else {
            let mut g: Vec<Activity> = Vec::new();
            g.push(a);
            assert(g@ =~= seq![s[i as int]]);
            keys.push(key);
            groups.push(g);
            proof {
                assert(groups@ =~= old_groups.push(g));
                assert(group_distances(groups@).drop_last() =~= group_distances(old_groups));
                assert(group_sizes(groups@).drop_last() =~= group_sizes(old_groups));
                assert(distances(g@) =~= seq![s[i as int].distance as int]);
                assert(distances(g@).drop_last() =~= Seq::<int>::empty());
                assert(sum(Seq::<int>::empty()) == 0);
                assert(sum(distances(g@)) == s[i as int].distance);
                assert(of_month(s.take(i as int), key.0 as int, key.1 as int) =~= Seq::<Activity>::empty()) by {
                    lemma_month_absent(s.take(i as int), key.0 as int, key.1 as int);
                    if of_month(s.take(i as int), key.0 as int, key.1 as int).len() > 0 {
                        let q = choose|q: int| 0 <= q < i && (#[trigger] s.take(i as int)[q]).date.year == key.0 && s.take(i as int)[q].date.month == key.1;
                        assert(s[q] == s.take(i as int)[q]);
                        assert(old_keys.contains((s[q].date.year, s[q].date.month)));
                    }
                }
            }
        }
        proof {
            assert forall|k: int| 0 <= k < keys@.len() implies (#[trigger] groups@[k])@ == of_month(s.take(i + 1), keys@[k].0 as int, keys@[k].1 as int)
                && groups@[k]@.len() > 0 by {
                if k != j {
                    assert(groups@[k] == old_groups[k]);
                    assert(keys@[k] == old_keys[k]);
                }
            }
            assert forall|q: int| 0 <= q < i + 1 implies keys@.contains(((#[trigger] s[q]).date.year, s[q].date.month)) by {
                if q < i {
                    assert(old_keys.contains((s[q].date.year, s[q].date.month)));
                    let k = choose|k: int| 0 <= k < old_keys.len() && old_keys[k] == (s[q].date.year, s[q].date.month);
                    assert(keys@[k] == old_keys[k]);
                } else {
                    assert(keys@[j as int] == key);
                }
            }
        }
        i = i + 1;
    }
    assert(s.take(s.len() as int) =~= s);
    (keys, groups)
}

/// An empty month group has no activity of that month.
proof fn lemma_month_absent(s: Seq<Activity>, year: int, month: int)
    ensures
        of_month(s, year, month).len() > 0 ==> exists|q: int|
            0 <= q < s.len() && (#[trigger] s[q]).date.year == year && s[q].date.month == month,
    decreases s.len(),
{
    if s.len() > 0 {
        lemma_month_absent(s.drop_last(), year, month);
        if of_month(s.drop_last(), year, month).len() > 0 {
            let q = choose|q: int| 0 <= q < s.drop_last().len() && (#[trigger] s.drop_last()[q]).date.year == year && s.drop_last()[q].date.month == month;
            assert(s[q] == s.drop_last()[q]);
        }
    }
}

/// One of `names` is `t`.
pub open spec fn names_type(names: Seq<String>, t: Seq<char>) -> bool {
    exists|k: int| 0 <= k < names.len() && names[k]@ == t
}

/// Splits activities by type, types in order of first appearance.
#[verifier::spinoff_prover]
pub fn group_by_type(activities: &[Activity]) -> (r: (Vec<String>, Vec<Vec<Activity>>))
    ensures
        r.0@.len() == r.1@.len(),
        forall|a: int, b: int| 0 <= a < b < r.0@.len() ==> r.0@[a]@ != r.0@[b]@,
        forall|k: int|
            0 <= k < r.0@.len() ==> (#[trigger] r.1@[k])@ == of_type(activities@, r.0@[k]@) && r.1@[k]@.len() > 0,
        forall|i: int| 0 <= i < activities@.len() ==> names_type(r.0@, (#[trigger] activities@[i]).activity_type@),
{
    let ghost s = activities@;
    let mut keys: Vec<String> = Vec::new();
    let mut groups: Vec<Vec<Activity>> = Vec::new();
    let mut i: usize = 0;
    while i < activities.len()
        invariant
            s == activities@,
            0 <= i <= s.len(),
            keys@.len() == groups@.len(),
            forall|a: int, b: int| 0 <= a < b < keys@.len() ==> keys@[a]@ != keys@[b]@,
            forall|k: int|
                0 <= k < keys@.len() ==> (#[trigger] groups@[k])@ == of_type(s.take(i as int), keys@[k]@)
                    && groups@[k]@.len() > 0,
            forall|q: int|
                0 <= q < i ==> exists|k: int| 0 <= k < keys@.len() && keys@[k]@ == (#[trigger] s[q]).activity_type@,
        decreases s.len() - i,
    {
        let a = activities[i].duplicate();
        proof {
            lemma_take_next(s, i as int);
        }
        let mut j: usize = 0;
        while j < keys.len() && keys[j] != a.activity_type
            invariant
                0 <= j <= keys@.len(),
                forall|q: int| 0 <= q < j ==> keys@[q]@ != a.activity_type@,
            decreases keys@.len() - j,
        {
            j = j + 1;
        }
        let ghost old_groups = groups@;
        let ghost old_keys = keys@;
        if j < keys.len() {
            let mut g = groups.remove(j);
            g.push(a);
            groups.insert(j, g);
            assert(groups@ =~= old_groups.update(j as int, g));
        } else {
            let mut g: Vec<Activity> = Vec::new();
            let name = a.activity_type.clone();
            g.push(a);
            assert(g@ =~= seq![s[i as int]]);
            keys.push(name);
            groups.push(g);
            proof {
                lemma_type_absent(s.take(i as int), a.activity_type@);
                if of_type(s.take(i as int), a.activity_type@).len() > 0 {
                    let q = choose|q: int| 0 <= q < i && (#[trigger] s.take(i as int)[q]).activity_type@ == a.activity_type@;
                    assert(s[q] == s.take(i as int)[q]);
                    let k = choose|k: int| 0 <= k < old_keys.len() && old_keys[k]@ == (#[trigger] s[q]).activity_type@;
                }
                assert(of_type(s.take(i as int), a.activity_type@) =~= Seq::<Activity>::empty());
            }
        }
        proof {
            assert forall|k: int| 0 <= k < keys@.len() implies (#[trigger] groups@[k])@ == of_type(s.take(i + 1), keys@[k]@)
                && groups@[k]@.len() > 0 by {
                if k != j {
                    assert(groups@[k] == old_groups[k]);
                    assert(keys@[k] == old_keys[k]);
                }
            }
            assert forall|q: int| 0 <= q < i + 1 implies exists|k: int| 0 <= k < keys@.len() && keys@[k]@ == (#[trigger] s[q]).activity_type@ by {
                if q < i {
                    let k = choose|k: int| 0 <= k < old_keys.len() && old_keys[k]@ == (#[trigger] s[q]).activity_type@;
                    assert(keys@[k] == old_keys[k]);
                } else {
                    assert(keys@[j as int]@ == a.activity_type@);
                }
            }
        }
        i = i + 1;
    }
    assert(s.take(s.len() as int) =~= s);
    assert forall|q: int| 0 <= q < s.len() implies names_type(keys@, (#[trigger] activities@[q]).activity_type@) by {
        assert(s[q] == activities@[q]);
        let k = choose|k: int| 0 <= k < keys@.len() && keys@[k]@ == (#[trigger] s[q]).activity_type@;
        assert(keys@[k]@ == activities@[q].activity_type@);
    }
    let r = (keys, groups);
    assert(r.0@ == keys@);
    r
}

/// An empty type group has no activity of that type.
proof fn lemma_type_absent(s: Seq<Activity>, t: Seq<char>)
    ensures
        of_type(s, t).len() > 0 ==> exists|q: int| 0 <= q < s.len() && (#[trigger] s[q]).activity_type@ == t,
    decreases s.len(),
{
    if s.len() > 0 {
        lemma_type_absent(s.drop_last(), t);
        if of_type(s.drop_last(), t).len() > 0 {
            let q = choose|q: int| 0 <= q < s.drop_last().len() && (#[trigger] s.drop_last()[q]).activity_type@ == t;
            assert(s[q] == s.drop_last()[q]);
        }
    }
}

/// The members of a month group are well formed activities of that month.
proof fn lemma_month_members(s: Seq<Activity>, year: int, month: int)
    requires
        all_wf(s),
    ensures
        all_wf(of_month(s, year, month)),
        of_month(s, year, month).len() <= s.len(),
        forall|q: int|
            0 <= q < of_month(s, year, month).len() ==> (#[trigger] of_month(s, year, month)[q]).date.year == year
                && of_month(s, year, month)[q].date.month == month,
    decreases s.len(),
{
    if s.len() > 0 {
        assert(all_wf(s.drop_last())) by {
            assert forall|i: int| 0 <= i < s.drop_last().len() implies (#[trigger] s.drop_last()[i]).date.wf() by {
                assert(s.drop_last()[i] == s[i]);
            }
        }
        lemma_month_members(s.drop_last(), year, month);
        assert(s[s.len() - 1].date.wf());
    }
}

/// The members of a type group are well formed.
proof fn lemma_type_members(s: Seq<Activity>, t: Seq<char>)
    requires
        all_wf(s),
    ensures
        all_wf(of_type(s, t)),
        of_type(s, t).len() <= s.len(),
    decreases s.len(),
{
    if s.len() > 0 {
        assert(all_wf(s.drop_last())) by {
            assert forall|i: int| 0 <= i < s.drop_last().len() implies (#[trigger] s.drop_last()[i]).date.wf() by {
                assert(s.drop_last()[i] == s[i]);
            }
        }
        lemma_type_members(s.drop_last(), t);
        assert(s[s.len() - 1].date.wf());
    }
}

/// `e` is the `YYYY-MM` entry of month `month` of `year` of the group `g`.
pub open spec fn is_month_entry(e: (String, ActivitiesAggregation), g: Seq<Activity>, year: i32, month: u32) -> bool {
    &&& e.0@ == month_key_of(year as int, month as int)
    &&& e.1.summarizes(of_month(g, year as int, month as int))
    &&& of_month(g, year as int, month as int).len() > 0
}

pub open spec fn month_distances(v: Seq<(String, ActivitiesAggregation)>) -> Seq<int> {
    v.map_values(|e: (String, ActivitiesAggregation)| e.1.total_distance as int)
}

pub open spec fn month_counts(v: Seq<(String, ActivitiesAggregation)>) -> Seq<int> {
    v.map_values(|e: (String, ActivitiesAggregation)| e.1.total_activities as int)
}

/// `v` holds an entry for each of `months`, which are distinct and are the months of `g`.
pub open spec fn months_listed(v: Seq<(String, ActivitiesAggregation)>, g: Seq<Activity>, months: Seq<(i32, u32)>) -> bool {
    &&& months.len() == v.len()
    &&& forall|a: int, b: int| 0 <= a < b < months.len() ==> months[a] != months[b]
    &&& forall|j: int| 0 <= j < v.len() ==> #[trigger] is_month_entry(v[j], g, months[j].0, months[j].1)
    &&& forall|i: int| 0 <= i < g.len() ==> months.contains(((#[trigger] g[i]).date.year, g[i].date.month))
}

/// `v` lists the months of `g` once each, with their summaries.
pub open spec fn lists_months(v: Seq<(String, ActivitiesAggregation)>, g: Seq<Activity>) -> bool {
    exists|months: Seq<(i32, u32)>| #[trigger] months_listed(v, g, months)
}

/// The basic aggregation of each calendar month of a group.
#[verifier::spinoff_prover]
pub fn monthly_aggregations(group: &[Activity]) -> (r: Vec<(String, ActivitiesAggregation)>)
    requires
        group@.len() <= u32::MAX,
        all_wf(group@),
    ensures
        lists_months(r@, group@),
        sum(month_distances(r@)) == sum(distances(group@)),
        sum(month_counts(r@)) == group@.len(),
{
    let ghost g = group@;
    let (keys, buckets) = group_by_month(group);
    let mut r: Vec<(String, ActivitiesAggregation)> = Vec::new();
    let mut j: usize = 0;
    while j < keys.len()
        invariant
            g == group@,
            g.len() <= u32::MAX,
            all_wf(g),
            keys@.len() == buckets@.len(),
            forall|a: int, b: int| 0 <= a < b < keys@.len() ==> keys@[a] != keys@[b],
            forall|k: int|
                0 <= k < keys@.len() ==> (#[trigger] buckets@[k])@ == of_month(g, keys@[k].0 as int, keys@[k].1 as int)
                    && buckets@[k]@.len() > 0,
            0 <= j <= keys@.len(),
            r@.len() == j,
            forall|q: int| 0 <= q < j ==> #[trigger] is_month_entry(r@[q], g, keys@[q].0, keys@[q].1),
            sum(month_distances(r@)) == sum(group_distances(buckets@).take(j as int)),
            sum(month_counts(r@)) == sum(group_sizes(buckets@).take(j as int)),
        decreases keys@.len() - j,
    {
        let (y, m) = keys[j];
        proof {
            assert(buckets@[j as int]@.len() > 0);
            lemma_month_members(g, y as int, m as int);
            let first = of_month(g, y as int, m as int)[0];
            assert(first.date.wf());
            lemma_take_next(group_distances(buckets@), j as int);
            lemma_take_next(group_sizes(buckets@), j as int);
        }
        let agg = aggregate_activities(buckets[j].as_slice());
        let key = month_key(y, m);
        let ghost old_r = r@;
        r.push((key, agg));
        proof {
            assert(month_distances(r@).drop_last() =~= month_distances(old_r));
            assert(month_counts(r@).drop_last() =~= month_counts(old_r));
            assert(is_month_entry(r@[j as int], g, y, m));
            assert forall|q: int| 0 <= q < j + 1 implies #[trigger] is_month_entry(r@[q], g, keys@[q].0, keys@[q].1) by {
                if q < j {
                    assert(r@[q] == old_r[q]);
                }
            }
        }
        j = j + 1;
    }
    proof {
        assert(group_distances(buckets@).take(keys@.len() as int) =~= group_distances(buckets@));
        assert(group_sizes(buckets@).take(keys@.len() as int) =~= group_sizes(buckets@));
        assert(months_listed(r@, g, keys@));
    }
    r
}

/// Summaries and scores of one activity type.
#[derive(Clone, Debug)]
pub struct AggregationDTO {
    pub basic: ActivitiesAggregation,
    pub advanced: Option<AdvancedAggregation>,
    pub scores: ScoreSummary,
}

impl AggregationDTO {
    /// This is the summary of the group `g` of one type, with `today` as the current date.
    pub open spec fn describes(&self, g: Seq<Activity>, today: Timestamp) -> bool {
        &&& self.basic.summarizes(g)
        &&& self.advanced matches Some(a) && a.describes(g, today)
        &&& self.scores.rates(default_rules(), self.basic, self.advanced)
    }
}

/// `r` holds one entry per activity type of `s`, each with the summary of its activities
/// and the basic aggregation of each of their months, whose totals add up to the type's.
pub open spec fn aggregates(
    s: Seq<Activity>,
    today: Timestamp,
    types: Seq<(String, AggregationDTO)>,
    months: Seq<(String, Vec<(String, ActivitiesAggregation)>)>,
) -> bool {
    &&& types.len() == months.len()
    &&& forall|a: int, b: int| 0 <= a < b < types.len() ==> types[a].0@ != types[b].0@
    &&& forall|i: int|
        0 <= i < s.len() ==> exists|k: int|
            0 <= k < types.len() && types[k].0@ == (#[trigger] s[i]).activity_type@
    &&& forall|k: int|
        0 <= k < types.len() ==> {
            let g = of_type(s, (#[trigger] types[k]).0@);
            &&& g.len() > 0
            &&& types[k].1.describes(g, today)
            &&& months[k].0@ == types[k].0@
            &&& lists_months(months[k].1@, g)
            &&& sum(month_distances(months[k].1@)) == types[k].1.basic.total_distance
            &&& sum(month_counts(months[k].1@)) == types[k].1.basic.total_activities
        }
}

/// Groups activities by type and, within a type, by calendar month; summarises and scores
/// each type and summarises each month. `today` is the date that weekly streaks end at.
#[verifier::spinoff_prover]
pub fn aggretate_activities(activities: &Vec<Activity>, today: &Timestamp) -> (r: (
    Vec<(String, AggregationDTO)>,
    Vec<(String, Vec<(String, ActivitiesAggregation)>)>,
))
    requires
        activities@.len() <= u32::MAX,
        all_wf(activities@),
        today.wf(),
    ensures
        aggregates(activities@, *today, r.0@, r.1@),
        activities@.len() == 0 <==> r.0@.len() == 0,
{
    let ghost s = activities@;
    let (names, groups) = group_by_type(activities.as_slice());
    let config = default_scoring_config();
    let mut types: Vec<(String, AggregationDTO)> = Vec::new();
    let mut months: Vec<(String, Vec<(String, ActivitiesAggregation)>)> = Vec::new();
    let mut k: usize = 0;
    while k < names.len()
        invariant
            s == activities@,
            s.len() <= u32::MAX,
            all_wf(s),
            today.wf(),
            config.rules@ == default_rules(),
            names@.len() == groups@.len(),
            forall|a: int, b: int| 0 <= a < b < names@.len() ==> names@[a]@ != names@[b]@,
            forall|q: int|
                0 <= q < names@.len() ==> (#[trigger] groups@[q])@ == of_type(s, names@[q]@) && groups@[q]@.len() > 0,
            0 <= k <= names@.len(),
            types@.len() == k,
            months@.len() == k,
            forall|q: int| 0 <= q < k ==> (#[trigger] types@[q]).0@ == names@[q]@,
            forall|q: int|
                0 <= q < k ==> {
                    let g = of_type(s, (#[trigger] types@[q]).0@);
                    &&& g.len() > 0
                    &&& types@[q].1.describes(g, *today)
                    &&& months@[q].0@ == types@[q].0@
                    &&& lists_months(months@[q].1@, g)
                    &&& sum(month_distances(months@[q].1@)) == types@[q].1.basic.total_distance
                    &&& sum(month_counts(months@[q].1@)) == types@[q].1.basic.total_activities
                },
        decreases names@.len() - k,
    {
        let group = groups[k].as_slice();
        proof {
            assert(groups@[k as int]@ == of_type(s, names@[k as int]@));
            lemma_type_members(s, names@[k as int]@);
        }
        let basic = aggregate_activities(group);
        let advanced = compute_advanced_aggregation(group, today);
        let advanced = Some(advanced);
        let scores = calculate_score_summary(&basic, &advanced, &config);
        let by_month = monthly_aggregations(group);
        let ghost old_types = types@;
        let ghost old_months = months@;
        types.push((names[k].clone(), AggregationDTO { basic, advanced, scores }));
        months.push((names[k].clone(), by_month));
        proof {
            assert forall|q: int| 0 <= q < k + 1 implies (#[trigger] types@[q]).0@ == names@[q]@ by {
                if q < k {
                    assert(types@[q] == old_types[q]);
                }
            }
            assert forall|q: int|
                0 <= q < k + 1 implies {
                    let g = of_type(s, (#[trigger] types@[q]).0@);
                    &&& g.len() > 0
                    &&& types@[q].1.describes(g, *today)
                    &&& months@[q].0@ == types@[q].0@
                    &&& lists_months(months@[q].1@, g)
                    &&& sum(month_distances(months@[q].1@)) == types@[q].1.basic.total_distance
                    &&& sum(month_counts(months@[q].1@)) == types@[q].1.basic.total_activities
                } by {
                if q < k {
                    assert(types@[q] == old_types[q]);
                    assert(months@[q] == old_months[q]);
                }
            }
        }
        k = k + 1;
    }
    proof {
        assert forall|a: int, b: int| 0 <= a < b < types@.len() implies types@[a].0@ != types@[b].0@ by {
            assert(types@[a].0@ == names@[a]@);
            assert(types@[b].0@ == names@[b]@);
        }
        assert forall|i: int| 0 <= i < s.len() implies exists|q: int|
            0 <= q < types@.len() && types@[q].0@ == (#[trigger] s[i]).activity_type@ by {
            assert(names_type(names@, s[i].activity_type@));
            let q = choose|q: int| 0 <= q < names@.len() && names@[q]@ == s[i].activity_type@;
            assert(types@[q].0@ == names@[q]@);
        }
        if s.len() > 0 {
            assert(names_type(names@, s[0].activity_type@));
        }
        if types@.len() > 0 {
            lemma_type_members(s, names@[0]@);
            assert(types@[0].0@ == names@[0]@);
        }
    }
    (types, months)
}

/// For every type, the monthly distances and counts add up to the type's totals, and the
/// count is the number of activities of that type.
pub proof fn lemma_monthly_totals(
    s: Seq<Activity>,
    today: Timestamp,
    types: Seq<(String, AggregationDTO)>,
    months: Seq<(String, Vec<(String, ActivitiesAggregation)>)>,
    k: int,
)
    requires
        aggregates(s, today, types, months),
        0 <= k < types.len(),
    ensures
        months[k].0@ == types[k].0@,
        sum(month_distances(months[k].1@)) == types[k].1.basic.total_distance,
        sum(month_counts(months[k].1@)) == types[k].1.basic.total_activities,
        types[k].1.basic.total_activities == of_type(s, types[k].0@).len(),
{
    let t = types[k];
}

} // verus!
