//! Per-key totals and counts of keyed values.

use crate::activity::Activity;
use crate::stats::lemma_take_next;
use vstd::prelude::*;

verus! {

/// Sum of the values recorded under key `k`.
pub open spec fn keyed_total<K>(s: Seq<(K, int)>, k: K) -> int
    decreases s.len(),
{
    if s.len() == 0 {
        0
    } else {
        keyed_total(s.drop_last(), k) + if s.last().0 == k { s.last().1 } else { 0 }
    }
}

/// Number of entries recorded under key `k`.
pub open spec fn keyed_count<K>(s: Seq<(K, int)>, k: K) -> int
    decreases s.len(),
{
    if s.len() == 0 {
        0
    } else {
        keyed_count(s.drop_last(), k) + if s.last().0 == k { 1int } else { 0 }
    }
}

/// Mean of the values recorded under `k`, rounded down; 0 when none are.
pub open spec fn keyed_mean<K>(s: Seq<(K, int)>, k: K) -> int {
    if keyed_count(s, k) == 0 {
        0
    } else {
        keyed_total(s, k) / keyed_count(s, k)
    }
}

pub open spec fn has_key<K>(s: Seq<(K, int)>, k: K) -> bool {
    exists|i: int| 0 <= i < s.len() && #[trigger] s[i].0 == k
}

pub proof fn lemma_keyed_next<K>(s: Seq<(K, int)>, i: int, k: K)
    requires
        0 <= i < s.len(),
    ensures
        keyed_total(s.take(i + 1), k) == keyed_total(s.take(i), k) + if s[i].0 == k { s[i].1 } else { 0 },
        keyed_count(s.take(i + 1), k) == keyed_count(s.take(i), k) + if s[i].0 == k { 1int } else { 0 },
{
    lemma_take_next(s, i);
}

pub proof fn lemma_keyed_count_bounds<K>(s: Seq<(K, int)>, k: K)
    ensures
        0 <= keyed_count(s, k) <= s.len(),
        keyed_count(s, k) > 0 <==> has_key(s, k),
    decreases s.len(),
{
    if s.len() > 0 {
        let t = s.drop_last();
        lemma_keyed_count_bounds(t, k);
        if has_key(t, k) {
            let i = choose|i: int| 0 <= i < t.len() && #[trigger] t[i].0 == k;
            assert(s[i].0 == k);
        }
        if has_key(s, k) && s.last().0 != k {
            let i = choose|i: int| 0 <= i < s.len() && #[trigger] s[i].0 == k;
            assert(t[i].0 == k);
        }
    }
}

pub proof fn lemma_keyed_total_bounds<K>(s: Seq<(K, int)>, k: K, bound: int)
    requires
        forall|i: int| 0 <= i < s.len() ==> 0 <= #[trigger] s[i].1 <= bound,
    ensures
        0 <= keyed_total(s, k) <= keyed_count(s, k) * bound,
    decreases s.len(),
{
    if s.len() > 0 {
        let t = s.drop_last();
        assert forall|i: int| 0 <= i < t.len() implies 0 <= #[trigger] t[i].1 <= bound by {
            assert(t[i] == s[i]);
        }
        lemma_keyed_total_bounds(t, k, bound);
        assert(keyed_count(t, k) * bound + bound == (keyed_count(t, k) + 1) * bound)
            by (nonlinear_arith);
    }
}

/// What activities are grouped by.
#[derive(Clone, Copy, Debug, PartialEq, Eq)]
pub enum Grouping {
    /// Day of the week, 0 for Monday.
    Weekday,
    /// Hour of the day.
    Hour,
    /// Calendar day.
    Day,
    /// ISO week, coded as `iso_year * 64 + iso_week`.
    Week,
    /// One group that holds every activity, keyed 0.
    All,
}

/// What is summed within a group.
#[derive(Clone, Copy, Debug, PartialEq, Eq)]
pub enum Measure {
    Pace,
    Calories,
}

pub open spec fn group_key(a: Activity, g: Grouping) -> int {
    match g {
        Grouping::Weekday => a.date.weekday as int,
        Grouping::Hour => a.date.hour as int,
        Grouping::Day => a.date.day_number as int,
        Grouping::Week => a.date.iso_year as int * 64 + a.date.iso_week as int,
        Grouping::All => 0,
    }
}

pub open spec fn measure(a: Activity, m: Measure) -> int {
    match m {
        Measure::Pace => a.average_pace as int,
        Measure::Calories => a.calories as int,
    }
}

/// Group key and measured value of each activity.
pub open spec fn grouped(s: Seq<Activity>, g: Grouping, m: Measure) -> Seq<(int, int)> {
    s.map_values(|a: Activity| (group_key(a, g), measure(a, m)))
}

pub open spec fn entry_view(e: Seq<(i64, u128)>) -> Seq<(int, int)> {
    e.map_values(|x: (i64, u128)| (x.0 as int, x.1 as int))
}

/// Per-key totals of a sequence of keyed values.
pub struct Tally {
    /// Distinct keys, in order of first appearance.
    pub keys: Vec<i64>,
    pub totals: Vec<u128>,
    pub counts: Vec<u128>,
    /// Position of the first entry of each key.
    pub firsts: Vec<usize>,
}

impl Tally {
    /// Keys and counts of this tally are those of `e`, and each key's first entry is recorded.
    pub open spec fn sums_up_keys(&self, e: Seq<(i64, u128)>) -> bool {
        &&& self.keys@.len() == self.firsts@.len()
        &&& forall|a: int, b: int|
            0 <= a < b < self.keys@.len() ==> self.keys@[a] != self.keys@[b]
        &&& forall|j: int|
            0 <= j < self.keys@.len() ==> #[trigger] self.firsts@[j] < e.len() && e[self.firsts@[j] as int].0
                == self.keys@[j]
        &&& forall|i: int| 0 <= i < e.len() ==> self.keys@.contains(#[trigger] e[i].0)
    }

    /// This tally sums up `e`.
    pub open spec fn sums_up(&self, e: Seq<(i64, u128)>) -> bool {
        &&& self.keys@.len() == self.totals@.len()
        &&& self.keys@.len() == self.counts@.len()
        &&& self.keys@.len() == self.firsts@.len()
        &&& forall|a: int, b: int|
            0 <= a < b < self.keys@.len() ==> self.keys@[a] != self.keys@[b]
        &&& forall|j: int|
            0 <= j < self.keys@.len() ==> #[trigger] self.firsts@[j] < e.len() && e[self.firsts@[j] as int].0
                == self.keys@[j]
        &&& forall|j: int|
            0 <= j < self.keys@.len() ==> #[trigger] self.totals@[j] == keyed_total(
                entry_view(e),
                self.keys@[j] as int,
            )
        &&& forall|j: int|
            0 <= j < self.keys@.len() ==> #[trigger] self.counts@[j] == keyed_count(
                entry_view(e),
                self.keys@[j] as int,
            ) && self.counts@[j] >= 1
        &&& forall|i: int| 0 <= i < e.len() ==> self.keys@.contains(#[trigger] e[i].0)
    }
}

/// Sums the values of `entries` per key.
#[verifier::spinoff_prover]
pub fn tally(entries: &Vec<(i64, u128)>) -> (r: Tally)
    requires
        entries@.len() <= u32::MAX,
        forall|i: int| 0 <= i < entries@.len() ==> #[trigger] entries@[i].1 <= 0x1_0000_0000_0000_0000_0000_0000u128,
    ensures
        r.sums_up(entries@),
{
    let ghost v = entry_view(entries@);
    let mut r = Tally { keys: Vec::new(), totals: Vec::new(), counts: Vec::new(), firsts: Vec::new() };
    let mut i: usize = 0;
    while i < entries.len()
        invariant
            0 <= i <= entries@.len(),
            entries@.len() <= u32::MAX,
            v == entry_view(entries@),
            forall|i: int| 0 <= i < entries@.len() ==> #[trigger] entries@[i].1 <= 0x1_0000_0000_0000_0000_0000_0000u128,
            r.sums_up(entries@.take(i as int)),
            forall|j: int| 0 <= j < r.keys@.len() ==> r.counts@[j] <= i,
            forall|j: int| 0 <= j < r.keys@.len() ==> r.totals@[j] <= r.counts@[j] * 0x1_0000_0000_0000_0000_0000_0000u128,
        decreases entries@.len() - i,
    {
        let (k, x) = entries[i];
        let ghost e0 = entries@.take(i as int);
        let ghost e1 = entries@.take(i + 1);
        assert(e1 =~= e0.push(entries@[i as int]));
        assert(entry_view(e1) =~= entry_view(entries@).take(i + 1));
        assert(entry_view(e0) =~= entry_view(entries@).take(i as int));
        proof {
            assert forall|kk: int| true implies keyed_total(entry_view(e1), kk) == keyed_total(entry_view(e0), kk) + if kk == k { x as int } else { 0 }
                && keyed_count(entry_view(e1), kk) == keyed_count(entry_view(e0), kk) + if kk == k { 1int } else { 0 } by {
                lemma_keyed_next(entry_view(entries@), i as int, kk);
            }
        }
        let mut j: usize = 0;
        while j < r.keys.len() && r.keys[j] != k
            invariant
                0 <= j <= r.keys@.len(),
                forall|q: int| 0 <= q < j ==> r.keys@[q] != k,
            decreases r.keys@.len() - j,
        {
            j = j + 1;
        }
        let ghost old_r = r;
        if j < r.keys.len() {
            assert(r.counts@[j as int] <= i);
            assert(r.totals@[j as int] + x <= (r.counts@[j as int] + 1) * 0x1_0000_0000_0000_0000_0000_0000u128) by (nonlinear_arith)
                requires
                    r.totals@[j as int] <= r.counts@[j as int] * 0x1_0000_0000_0000_0000_0000_0000u128,
                    x <= 0x1_0000_0000_0000_0000_0000_0000u128,
            ;
            assert((r.counts@[j as int] + 1) * 0x1_0000_0000_0000_0000_0000_0000u128 <= 0x1_0000_0000 * 0x1_0000_0000_0000_0000_0000_0000u128) by (nonlinear_arith)
                requires
                    r.counts@[j as int] + 1 <= 0x1_0000_0000,
            ;
            let t = r.totals[j] + x;
            r.totals.set(j, t);
            let c = r.counts[j] + 1;
            r.counts.set(j, c);
        } else {
            r.keys.push(k);
            r.totals.push(x);
            r.counts.push(1);
            r.firsts.push(i);
            assert(keyed_count(entry_view(e0), k as int) == 0) by {
                lemma_keyed_count_bounds(entry_view(e0), k as int);
                if has_key(entry_view(e0), k as int) {
                    let q = choose|q: int| 0 <= q < entry_view(e0).len() && #[trigger] entry_view(e0)[q].0 == k;
                    assert(e0[q].0 == k);
                    assert(old_r.keys@.contains(e0[q].0));
                    let jj = choose|jj: int| 0 <= jj < old_r.keys@.len() && old_r.keys@[jj] == e0[q].0;
                }
            }
            assert(keyed_total(entry_view(e0), k as int) == 0) by {
                lemma_keyed_total_zero(entry_view(e0), k as int);
            }
        }
        assert forall|q: int| 0 <= q < e1.len() implies r.keys@.contains(#[trigger] e1[q].0) by {
            if q < i {
                assert(e1[q] == e0[q]);
                assert(old_r.keys@.contains(e0[q].0));
                let jj = choose|jj: int| 0 <= jj < old_r.keys@.len() && old_r.keys@[jj] == e0[q].0;
                assert(r.keys@[jj] == e1[q].0);
            } else {
                assert(r.keys@[j as int] == e1[q].0);
            }
        }
        assert forall|jj: int| 0 <= jj < r.keys@.len() implies r.firsts@[jj] < e1.len() && e1[r.firsts@[jj] as int].0 == r.keys@[jj] by {
            if jj < old_r.keys@.len() {
                assert(old_r.sums_up(e0));
                assert(old_r.firsts@[jj] < e0.len());
                assert(r.firsts@[jj] == old_r.firsts@[jj]);
                assert(e1[old_r.firsts@[jj] as int] == e0[old_r.firsts@[jj] as int]);
            } else {
                assert(r.firsts@[jj] == i);
            }
        }
        i = i + 1;
    }
    assert(entries@.take(entries@.len() as int) =~= entries@);
    r
}

pub proof fn lemma_keyed_total_zero<K>(s: Seq<(K, int)>, k: K)
    requires
        keyed_count(s, k) == 0,
    ensures
        keyed_total(s, k) == 0,
    decreases s.len(),
{
    if s.len() > 0 {
        lemma_keyed_count_bounds(s.drop_last(), k);
        lemma_keyed_total_zero(s.drop_last(), k);
    }
}

/// Each activity's group key and measured value, in order.
pub fn keyed_entries(activities: &[Activity], g: Grouping, m: Measure) -> (r: Vec<(i64, u128)>)
    ensures
        entry_view(r@) == grouped(activities@, g, m),
        forall|i: int| 0 <= i < r@.len() ==> #[trigger] r@[i].1 <= 0xFFFF_FFFF,
        m == Measure::Pace ==> forall|i: int| 0 <= i < r@.len() ==> #[trigger] r@[i].1 <= 0xFFFF,
        r@.len() == activities@.len(),
{
    let mut r: Vec<(i64, u128)> = Vec::new();
    let mut i: usize = 0;
    while i < activities.len()
        invariant
            0 <= i <= activities@.len(),
            entry_view(r@) =~= grouped(activities@, g, m).take(i as int),
            forall|j: int| 0 <= j < r@.len() ==> #[trigger] r@[j].1 <= 0xFFFF_FFFF,
            m == Measure::Pace ==> forall|j: int| 0 <= j < r@.len() ==> #[trigger] r@[j].1 <= 0xFFFF,
            r@.len() == i,
        decreases activities@.len() - i,
    {
        let a = &activities[i];
        let key: i64 = match g {
            Grouping::Weekday => a.date.weekday as i64,
            Grouping::Hour => a.date.hour as i64,
            Grouping::Day => a.date.day_number as i64,
            Grouping::Week => a.date.iso_year as i64 * 64 + a.date.iso_week as i64,
            Grouping::All => 0,
        };
        let value: u128 = match m {
            Measure::Pace => a.average_pace as u128,
            Measure::Calories => a.calories as u128,
        };
        r.push((key, value));
        i = i + 1;
    }
    assert(entry_view(r@) =~= grouped(activities@, g, m));
    r
}

pub proof fn lemma_tally_finds(t: &Tally, e: Seq<(i64, u128)>, k: int)
    requires
        t.sums_up(e),
        has_key(entry_view(e), k),
    ensures
        exists|j: int| 0 <= j < t.keys@.len() && t.keys@[j] == k,
{
    let i = choose|i: int| 0 <= i < entry_view(e).len() && #[trigger] entry_view(e)[i].0 == k;
    assert(t.keys@.contains(e[i].0));
}

pub proof fn lemma_tally_key_present(t: &Tally, e: Seq<(i64, u128)>, j: int)
    requires
        t.sums_up(e),
        0 <= j < t.keys@.len(),
    ensures
        has_key(entry_view(e), t.keys@[j] as int),
{
    let i = t.firsts@[j] as int;
    assert(entry_view(e)[i].0 == t.keys@[j]);
}

/// Position of a largest value (the first one).
pub fn index_of_max(v: &Vec<u128>) -> (r: usize)
    requires
        v@.len() > 0,
    ensures
        r < v@.len(),
        forall|j: int| 0 <= j < v@.len() ==> v@[j] <= v@[r as int],
{
    let mut best: usize = 0;
    let mut i: usize = 1;
    while i < v.len()
        invariant
            1 <= i <= v@.len(),
            best < i,
            forall|j: int| 0 <= j < i ==> v@[j] <= v@[best as int],
        decreases v@.len() - i,
    {
        if v[i] > v[best] {
            best = i;
        }
        i = i + 1;
    }
    best
}

/// Position of a smallest value (the first one).
pub fn index_of_min(v: &Vec<u128>) -> (r: usize)
    requires
        v@.len() > 0,
    ensures
        r < v@.len(),
        forall|j: int| 0 <= j < v@.len() ==> v@[r as int] <= v@[j],
{
    let mut best: usize = 0;
    let mut i: usize = 1;
    while i < v.len()
        invariant
            1 <= i <= v@.len(),
            best < i,
            forall|j: int| 0 <= j < i ==> v@[best as int] <= v@[j],
        decreases v@.len() - i,
    {
        if v[i] < v[best] {
            best = i;
        }
        i = i + 1;
    }
    best
}

/// Mean value of each key of a tally, rounded down.
pub(crate) fn tally_means(t: &Tally, Ghost(e): Ghost<Seq<(i64, u128)>>) -> (r: Vec<u128>)
    requires
        t.sums_up(e),
    ensures
        r@.len() == t.keys@.len(),
        forall|j: int| 0 <= j < r@.len() ==> #[trigger] r@[j] == keyed_mean(entry_view(e), t.keys@[j] as int),
{
    let mut r: Vec<u128> = Vec::new();
    let mut j: usize = 0;
    while j < t.keys.len()
        invariant
            t.sums_up(e),
            0 <= j <= t.keys@.len(),
            r@.len() == j,
            forall|q: int| 0 <= q < j ==> #[trigger] r@[q] == keyed_mean(entry_view(e), t.keys@[q] as int),
        decreases t.keys@.len() - j,
    {
        assert(t.counts@[j as int] >= 1);
        r.push(t.totals[j] / t.counts[j]);
        j = j + 1;
    }
    r
}

} // verus!
