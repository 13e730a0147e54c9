//! Population variance per group, and integer square roots.

use crate::buckets::{
    entry_view, keyed_count, keyed_total, lemma_keyed_count_bounds, lemma_keyed_total_bounds, tally, Tally,
};
use vstd::prelude::*;

verus! {

/// Squared deviation of each value from the mean of its group, scaled by the group's size:
/// `(n * x - total)^2` for a value `x` in a group of `n` values summing to `total`.
pub open spec fn scaled_deviations(v: Seq<(int, int)>) -> Seq<(int, int)> {
    Seq::new(
        v.len(),
        |i: int|
            {
                let k = v[i].0;
                let d = keyed_count(v, k) * v[i].1 - keyed_total(v, k);
                (k, d * d)
            },
    )
}

/// Population variance of the values under key `k`, rounded down; 0 when there are none.
pub open spec fn group_variance(v: Seq<(int, int)>, k: int) -> int {
    let n = keyed_count(v, k);
    if n == 0 {
        0
    } else {
        keyed_total(scaled_deviations(v), k) / (n * n * n)
    }
}

/// Two keyed sequences with the same keys in the same places count alike.
proof fn lemma_same_keys_count(a: Seq<(int, int)>, b: Seq<(int, int)>, k: int)
    requires
        a.len() == b.len(),
        forall|i: int| 0 <= i < a.len() ==> #[trigger] a[i].0 == b[i].0,
    ensures
        keyed_count(a, k) == keyed_count(b, k),
    decreases a.len(),
{
    if a.len() > 0 {
        lemma_same_keys_count(a.drop_last(), b.drop_last(), k);
    }
}

/// The variance of each group of a tally of `entries`, with the tally of the scaled deviations
/// it was computed from.
#[verifier::spinoff_prover]
pub(crate) fn group_variances(entries: &Vec<(i64, u128)>, t: &Tally) -> (r: (Tally, Vec<u128>))
    requires
        t.sums_up(entries@),
        entries@.len() <= u32::MAX,
        forall|i: int| 0 <= i < entries@.len() ==> #[trigger] entries@[i].1 <= 0xFFFF,
    ensures
        r.0.sums_up_keys(entries@),
        r.1@.len() == r.0.keys@.len(),
        forall|j: int| 0 <= j < r.1@.len() ==> #[trigger] r.1@[j] == group_variance(entry_view(entries@), r.0.keys@[j] as int),
{
    let ghost v = entry_view(entries@);
    let mut devs: Vec<(i64, u128)> = Vec::new();
    let mut i: usize = 0;
    while i < entries.len()
        invariant
            t.sums_up(entries@),
            v == entry_view(entries@),
            entries@.len() <= u32::MAX,
            forall|i: int| 0 <= i < entries@.len() ==> #[trigger] entries@[i].1 <= 0xFFFF,
            0 <= i <= entries@.len(),
            devs@.len() == i,
            forall|q: int| 0 <= q < i ==> #[trigger] entry_view(devs@)[q] == scaled_deviations(v)[q],
            forall|q: int| 0 <= q < i ==> #[trigger] devs@[q].1 <= 0x1_0000_0000_0000_0000_0000_0000u128,
            forall|q: int| 0 <= q < i ==> #[trigger] devs@[q].0 == entries@[q].0,
        decreases entries@.len() - i,
    {
        let (k, x) = entries[i];
        assert(t.keys@.contains(entries@[i as int].0));
        let mut j: usize = 0;
        while j < t.keys.len() && t.keys[j] != k
            invariant
                0 <= j <= t.keys@.len(),
                forall|q: int| 0 <= q < j ==> t.keys@[q] != k,
            decreases t.keys@.len() - j,
        {
            j = j + 1;
        }
        assert(j < t.keys@.len());
        let n = t.counts[j];
        let total = t.totals[j];
        proof {
            lemma_keyed_count_bounds(v, k as int);
            assert forall|q: int| 0 <= q < v.len() implies 0 <= #[trigger] v[q].1 <= 0xFFFF by {
                assert(v[q].1 == entries@[q].1);
            }
            lemma_keyed_total_bounds(v, k as int, 0xFFFF);
            assert(n <= 0xFFFF_FFFF);
            assert(n * x <= 0xFFFF_FFFF * 0xFFFF) by (nonlinear_arith)
                requires
                    n <= 0xFFFF_FFFF,
                    x <= 0xFFFF,
            ;
            assert(total <= 0xFFFF_FFFF * 0xFFFF) by (nonlinear_arith)
                requires
                    total <= n * 0xFFFF,
                    n <= 0xFFFF_FFFF,
            ;
        }
        let scaled = n * x;
        let d: u128 = if scaled >= total { scaled - total } else { total - scaled };
        assert(d * d <= 0x1_0000_0000_0000_0000_0000_0000u128) by (nonlinear_arith)
            requires
                d <= 0xFFFF_FFFF * 0xFFFF,
        ;
        let sq = d * d;
        proof {
            let dd = n * x - total;
            assert(sq == dd * dd) by (nonlinear_arith)
                requires
                    sq == d * d,
                    d == dd || d == -dd,
            ;
        }
        let ghost old_devs = devs@;
        devs.push((k, sq));
        proof {
            assert(n == keyed_count(v, k as int));
            assert(total == keyed_total(v, k as int));
            assert(v[i as int] == (k as int, x as int));
            assert forall|q: int| 0 <= q < i + 1 implies #[trigger] entry_view(devs@)[q] == scaled_deviations(v)[q] by {
                if q < i {
                    assert(devs@[q] == old_devs[q]);
                    assert(entry_view(old_devs)[q] == scaled_deviations(v)[q]);
                }
            }
        }
        i = i + 1;
    }
    proof {
        assert forall|q: int| 0 <= q < entry_view(devs@).len() implies #[trigger] entry_view(devs@)[q].0 == v[q].0 by {
            assert(entry_view(devs@)[q] == scaled_deviations(v)[q]);
        }
        assert(entry_view(devs@) =~= scaled_deviations(v));
    }
    let t2 = tally(&devs);
    let mut vars: Vec<u128> = Vec::new();
    let mut j: usize = 0;
    while j < t2.keys.len()
        invariant
            t2.sums_up(devs@),
            entry_view(devs@) == scaled_deviations(v),
            v == entry_view(entries@),
            devs@.len() == entries@.len(),
            entries@.len() <= u32::MAX,
            forall|q: int| 0 <= q < devs@.len() ==> #[trigger] devs@[q].0 == entries@[q].0,
            0 <= j <= t2.keys@.len(),
            vars@.len() == j,
            forall|q: int| 0 <= q < j ==> #[trigger] vars@[q] == group_variance(v, t2.keys@[q] as int),
        decreases t2.keys@.len() - j,
    {
        let k = t2.keys[j];
        proof {
            assert forall|q: int| 0 <= q < v.len() implies #[trigger] v[q].0 == entry_view(devs@)[q].0 by {
                assert(devs@[q].0 == entries@[q].0);
            }
            lemma_same_keys_count(v, entry_view(devs@), k as int);
            lemma_keyed_count_bounds(entry_view(devs@), k as int);
        }
        let n = t2.counts[j];
        assert(1 <= n <= 0xFFFF_FFFF);
        assert(n * n * n <= 0xFFFF_FFFF * 0xFFFF_FFFF * 0xFFFF_FFFF) by (nonlinear_arith)
            requires
                1 <= n <= 0xFFFF_FFFF,
        ;
        assert(n * n * n >= 1) by (nonlinear_arith)
            requires
                1 <= n,
        ;
        assert(n * n <= 0xFFFF_FFFF * 0xFFFF_FFFF) by (nonlinear_arith)
            requires
                1 <= n <= 0xFFFF_FFFF,
        ;
        let cube = n * n * n;
        vars.push(t2.totals[j] / cube);
        j = j + 1;
    }
    assert forall|jj: int| 0 <= jj < t2.keys@.len() implies #[trigger] t2.firsts@[jj] < entries@.len()
        && entries@[t2.firsts@[jj] as int].0 == t2.keys@[jj] by {
        assert(devs@[t2.firsts@[jj] as int].0 == entries@[t2.firsts@[jj] as int].0);
    }
    assert forall|q: int| 0 <= q < entries@.len() implies t2.keys@.contains(#[trigger] entries@[q].0) by {
        assert(t2.keys@.contains(devs@[q].0));
    }
    (t2, vars)
}

/// Largest `r` with `r * r <= v`.
pub fn integer_sqrt(v: u128) -> (r: u64)
    ensures
        r * r <= v < (r + 1) * (r + 1),
{
    let mut lo: u128 = 0;
    let mut hi: u128 = 0x1_0000_0000_0000_0000;
    assert(v < hi * hi) by (nonlinear_arith)
        requires
            hi == 0x1_0000_0000_0000_0000u128,
            v <= u128::MAX,
    ;
    while lo + 1 < hi
        invariant
            lo < hi <= 0x1_0000_0000_0000_0000,
            lo * lo <= v,
            v < hi * hi,
        decreases hi - lo,
    {
        let mid = lo + (hi - lo) / 2;
        assert(mid * mid <= 0xFFFF_FFFF_FFFF_FFFF * 0xFFFF_FFFF_FFFF_FFFF) by (nonlinear_arith)
            requires
                mid < 0x1_0000_0000_0000_0000,
        ;
        if mid * mid <= v {
            lo = mid;
        } else {
            hi = mid;
        }
    }
    lo as u64
}

} // verus!
