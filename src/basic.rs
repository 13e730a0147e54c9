//! Totals, means and extremes of a group of activities.

use crate::activity::{distances, pace_weights, paces, Activity};
use crate::stats::{lemma_take_next, max_of, min_of, sum};
use vstd::prelude::*;

verus! {

/// Totals, means and extremes of a group of activities.
#[derive(Clone, Copy, Debug, PartialEq, Eq)]
pub struct ActivitiesAggregation {
    pub total_activities: u32,
    /// Metres.
    pub total_distance: u64,
    /// Hundredths of the `minutes.seconds` encoding.
    pub average_pace: u32,
    /// Metres.
    pub average_distance: u64,
    /// Metres.
    pub best_distance: u32,
    /// Hundredths of the `minutes.seconds` encoding.
    pub best_pace: u32,
}

/// Distance-weighted mean pace, converted back to the `minutes.seconds` encoding:
/// the mean in hundredths of a second per km is split into whole minutes and the
/// seconds that remain. 0 when no distance was covered.
pub open spec fn weighted_average_pace(s: Seq<Activity>) -> int {
    let d = sum(distances(s));
    if d == 0 {
        0
    } else {
        let centis = sum(pace_weights(s)) * 60 / d;
        (centis / 6000) * 100 + (centis % 6000) / 100
    }
}

pub open spec fn average_distance_of(s: Seq<Activity>) -> int {
    if s.len() == 0 {
        0
    } else {
        sum(distances(s)) / s.len() as int
    }
}

/// The smallest pace seen, but never below the weighted mean pace; 0 for no activity.
pub open spec fn best_pace_of(s: Seq<Activity>) -> int {
    if s.len() == 0 {
        0
    } else {
        let m = min_of(paces(s));
        let avg = weighted_average_pace(s);
        if m < avg { m } else { avg }
    }
}

impl ActivitiesAggregation {
    /// This aggregation is the summary of the group `s`.
    pub open spec fn summarizes(&self, s: Seq<Activity>) -> bool {
        &&& self.total_activities == s.len()
        &&& self.total_distance == sum(distances(s))
        &&& self.average_pace == weighted_average_pace(s)
        &&& self.average_distance == average_distance_of(s)
        &&& self.best_distance == max_of(distances(s))
        &&& self.best_pace == best_pace_of(s)
    }
}

pub proof fn lemma_weighted_bound(s: Seq<Activity>)
    ensures
        0 <= sum(pace_weights(s)) <= 65535 * sum(distances(s)),
        0 <= sum(distances(s)),
    decreases s.len(),
{
    if s.len() > 0 {
        let t = s.drop_last();
        lemma_weighted_bound(t);
        assert(pace_weights(s).drop_last() =~= pace_weights(t));
        assert(distances(s).drop_last() =~= distances(t));
        let a = s.last();
        assert(0 <= a.average_pace as int * a.distance as int <= 65535 * a.distance as int)
            by (nonlinear_arith)
            requires
                0 <= a.average_pace <= 65535,
                0 <= a.distance,
        ;
    }
}

/// Reduces a group of activities to its totals, means and extremes.
#[verifier::spinoff_prover]
pub fn aggregate_activities(activities: &[Activity]) -> (r: ActivitiesAggregation)
    requires
        activities@.len() <= u32::MAX,
    ensures
        r.summarizes(activities@),
        r.best_pace <= r.average_pace,
{
    let ghost s = activities@;
    let n = activities.len();
    let mut total_distance: u64 = 0;
    let mut weighted: u128 = 0;
    let mut best_distance: u32 = 0;
    let mut min_pace: u16 = u16::MAX;
    let mut i: usize = 0;
    while i < n
        invariant
            n == s.len(),
            s == activities@,
            n <= u32::MAX,
            0 <= i <= n,
            total_distance == sum(distances(s).take(i as int)),
            weighted == sum(pace_weights(s).take(i as int)),
            best_distance == max_of(distances(s).take(i as int)),
            i > 0 ==> min_pace == min_of(paces(s).take(i as int)),
            total_distance <= i * 0xFFFF_FFFFu64,
            weighted <= i * (65535u128 * 0xFFFF_FFFFu128),
        decreases n - i,
    {
        let a = &activities[i];
        proof {
            lemma_take_next(distances(s), i as int);
            lemma_take_next(pace_weights(s), i as int);
            lemma_take_next(paces(s), i as int);
            assert(a.average_pace as int * a.distance as int <= 65535 * 0xFFFF_FFFF)
                by (nonlinear_arith)
                requires
                    a.average_pace <= 65535,
                    a.distance <= 0xFFFF_FFFF,
            ;
            if i == 0 {
                assert(paces(s).take(1) =~= seq![paces(s)[0]]);
            }
        }
        total_distance = total_distance + a.distance as u64;
        weighted = weighted + (a.average_pace as u128) * (a.distance as u128);
        if a.distance > best_distance {
            best_distance = a.distance;
        }
        if i == 0 || a.average_pace < min_pace {
            min_pace = a.average_pace;
        }
        i = i + 1;
    }
    proof {
        assert(distances(s).take(n as int) =~= distances(s));
        assert(pace_weights(s).take(n as int) =~= pace_weights(s));
        assert(paces(s).take(n as int) =~= paces(s));
        lemma_weighted_bound(s);
    }
    let average_pace: u32 = if total_distance > 0 {
        let centis128 = weighted * 60 / (total_distance as u128);
        proof {
            let w = weighted as int;
            let d = total_distance as int;
            assert(w * 60 <= (65535 * 60) * d) by (nonlinear_arith)
                requires
                    0 <= w <= 65535 * d,
                    d > 0,
            ;
            vstd::arithmetic::div_mod::lemma_div_is_ordered(w * 60, (65535 * 60) * d, d);
            vstd::arithmetic::div_mod::lemma_div_by_multiple(65535 * 60 as int, d);
            assert(w * 60 / d <= 65535 * 60);
        }
        let centis = centis128 as u32;
        (centis / 6000) * 100 + (centis % 6000) / 100
    } else {
        0
    };
    let average_distance: u64 = if n > 0 {
        total_distance / (n as u64)
    } else {
        0
    };
    let best_pace: u32 = if n == 0 {
        0
    } else if (min_pace as u32) < average_pace {
        min_pace as u32
    } else {
        average_pace
    };
    ActivitiesAggregation {
        total_activities: n as u32,
        total_distance,
        average_pace,
        average_distance,
        best_distance,
        best_pace,
    }
}

} // verus!
