//! Runs of consecutive units (days or weeks).

use vstd::prelude::*;

verus! {

/// The `len` units `start`, `start + 1`, ... are all present.
pub open spec fn run_present(units: Set<int>, start: int, len: int) -> bool {
    forall|j: int| 0 <= j < len ==> #[trigger] units.contains(start + j)
}

/// `r` is the longest streak of consecutive units: the length of the longest run of
/// consecutive present units when some two are adjacent, and 0 otherwise (a lone unit
/// makes no streak).
pub open spec fn is_longest_streak(units: Set<int>, r: int) -> bool {
    &&& r == 0 || r >= 2
    &&& r >= 2 ==> exists|start: int| run_present(units, start, r)
    &&& forall|start: int, len: int| len >= 2 && run_present(units, start, len) ==> len <= r
}

/// `r` units ending at `last` are present, and the one before them is not.
pub open spec fn is_streak_ending_at(units: Set<int>, last: int, r: int) -> bool {
    &&& r >= 0
    &&& run_present(units, last - r + 1, r)
    &&& !units.contains(last - r)
}

pub open spec fn strictly_increasing(s: Seq<i64>) -> bool {
    forall|i: int, j: int| 0 <= i < j < s.len() ==> s[i] < s[j]
}

pub open spec fn int_set(s: Seq<i64>) -> Set<int> {
    Set::new(|x: int| exists|i: int| 0 <= i < s.len() && s[i] == x)
}

/// The distinct values of `values`, in increasing order.
#[verifier::spinoff_prover]
pub fn sorted_distinct(values: &Vec<i64>) -> (r: Vec<i64>)
    ensures
        strictly_increasing(r@),
        int_set(r@) == int_set(values@),
        r@.len() <= values@.len(),
{
    let mut out: Vec<i64> = Vec::new();
    let mut i: usize = 0;
    while i < values.len()
        invariant
            0 <= i <= values.len(),
            strictly_increasing(out@),
            out@.len() <= i,
            forall|x: int| #[trigger] int_set(out@).contains(x) <==> int_set(values@.take(i as int)).contains(x),
        decreases values.len() - i,
    {
        let x = values[i];
        let mut pos: usize = 0;
        while pos < out.len() && out[pos] < x
            invariant
                0 <= pos <= out.len(),
                forall|j: int| 0 <= j < pos ==> out@[j] < x,
            decreases out.len() - pos,
        {
            pos = pos + 1;
        }
        let ghost old_out = out@;
        if pos < out.len() && out[pos] == x {
        } else {
            out.insert(pos, x);
            assert forall|a: int, b: int| 0 <= a < b < out@.len() implies out@[a] < out@[b] by {
                if b < pos {
                    assert(out@[a] == old_out[a] && out@[b] == old_out[b]);
                } else if b == pos {
                    assert(out@[a] == old_out[a]);
                } else if a < pos {
                    assert(out@[a] == old_out[a] && out@[b] == old_out[b - 1]);
                    assert(old_out[b - 1] >= x);
                } else if a == pos {
                    assert(out@[b] == old_out[b - 1]);
                    if b - 1 > pos {
                        assert(old_out[pos as int] < old_out[b - 1]);
                    }
                    assert(old_out[b - 1] != x);
                } else {
                    assert(out@[a] == old_out[a - 1] && out@[b] == old_out[b - 1]);
                }
            }
        }
        let ghost t0 = values@.take(i as int);
        let ghost t1 = values@.take(i + 1);
        assert forall|y: int| #[trigger] int_set(out@).contains(y) <==> int_set(t1).contains(y) by {
            assert(t1[i as int] == x);
            if int_set(t0).contains(y) {
                let k = choose|k: int| 0 <= k < i && t0[k] == y;
                assert(t1[k] == y);
            }
            if int_set(t1).contains(y) && y != x {
                let k = choose|k: int| 0 <= k < i + 1 && t1[k] == y;
                assert(t0[k] == y);
            }
            if int_set(old_out).contains(y) {
                let k = choose|k: int| 0 <= k < old_out.len() && old_out[k] == y;
                if k < pos {
                    assert(out@[k] == y);
                } else if out@.len() > old_out.len() {
                    assert(out@[k + 1] == y);
                } else {
                    assert(out@[k] == y);
                }
            }
            if int_set(out@).contains(y) && y != x {
                let k = choose|k: int| 0 <= k < out@.len() && out@[k] == y;
                if out@.len() == old_out.len() {
                    assert(old_out[k] == y);
                } else if k < pos {
                    assert(old_out[k] == y);
                } else {
                    assert(k != pos);
                    assert(old_out[k - 1] == y);
                }
            }
            if y == x {
                if out@.len() == old_out.len() {
                    assert(out@[pos as int] == x);
                } else {
                    assert(out@[pos as int] == x);
                }
            }
        }
        i = i + 1;
    }
    assert(values@.take(values@.len() as int) =~= values@);
    assert(int_set(out@) =~= int_set(values@));
    out
}

/// Positions `p .. p + len` of `d` hold consecutive values.
pub open spec fn index_run(d: Seq<i64>, p: int, len: int) -> bool {
    &&& 0 <= p
    &&& p + len <= d.len()
    &&& forall|j: int| 0 <= j < len ==> #[trigger] d[p + j] == d[p] + j
}

/// In an increasing sequence, a run of consecutive present values occupies consecutive positions.
proof fn lemma_run_positions(d: Seq<i64>, start: int, len: int)
    requires
        strictly_increasing(d),
        len >= 1,
        run_present(int_set(d), start, len),
    ensures
        exists|p: int| 0 <= p < d.len() && d[p] == start && #[trigger] index_run(d, p, len),
    decreases len,
{
    if len == 1 {
        assert(int_set(d).contains(start + 0));
        let p = choose|p: int| 0 <= p < d.len() && d[p] == start;
        assert(index_run(d, p, 1));
    } else {
        assert(run_present(int_set(d), start, len - 1));
        lemma_run_positions(d, start, len - 1);
        let p = choose|p: int| 0 <= p < d.len() && d[p] == start && #[trigger] index_run(d, p, len - 1);
        assert(int_set(d).contains(start + (len - 1)));
        let q = choose|q: int| 0 <= q < d.len() && d[q] == start + (len - 1);
        assert(d[p + (len - 2)] == start + len - 2);
        if q <= p + len - 2 {
            if q < p + len - 2 {
                assert(d[q] < d[p + (len - 2)]);
            }
        }
        if q > p + len - 1 {
            assert(d[p + len - 1] < d[q]);
            assert(d[p + (len - 2)] < d[p + len - 1]);
        }
        assert(q == p + len - 1);
        assert forall|j: int| 0 <= j < len implies #[trigger] d[p + j] == d[p] + j by {
            if j < len - 1 {
                assert(d[p + j] == d[p] + j);
            }
        }
        assert(index_run(d, p, len));
    }
}

proof fn lemma_index_run_present(d: Seq<i64>, p: int, len: int)
    requires
        index_run(d, p, len),
    ensures
        run_present(int_set(d), d[p] as int, len),
{
    assert forall|j: int| 0 <= j < len implies #[trigger] int_set(d).contains(d[p] + j) by {
        assert(d[p + j] == d[p] + j);
    }
}

/// Longest streak over a strictly increasing sequence of units.
#[verifier::spinoff_prover]
fn longest_run(d: &Vec<i64>) -> (r: usize)
    requires
        strictly_increasing(d@),
    ensures
        is_longest_streak(int_set(d@), r as int),
        r <= d@.len(),
{
    let m = d.len();
    if m == 0 {
        assert forall|start: int, len: int| len >= 2 && run_present(int_set(d@), start, len) implies len <= 0 by {
            assert(int_set(d@).contains(start + 0));
        }
        return 0;
    }
    let mut best: usize = 0;
    let mut cur: usize = 1;
    let mut i: usize = 1;
    assert(index_run(d@, 0, 1));
    while i < m
        invariant
            m == d@.len(),
            strictly_increasing(d@),
            1 <= i <= m,
            1 <= cur <= i,
            best <= i,
            index_run(d@, i - cur, cur as int),
            cur < i ==> d@[i - 1 - cur] != d@[i - 1] - cur,
            best == 0 || (best >= 2 && exists|p: int| #[trigger] index_run(d@, p, best as int)),
            forall|p: int, len: int| len >= 2 && p + len <= i && #[trigger] index_run(d@, p, len) ==> len <= best,
        decreases m - i,
    {
        let ghost old_cur = cur;
        let ghost old_best = best;
        if d[i - 1] < i64::MAX && d[i] == d[i - 1] + 1 {
            cur = cur + 1;
            let ghost p = i - old_cur;
            assert(i + 1 - cur == p);
            assert(d@[p + (old_cur - 1)] == d@[p] + (old_cur - 1));
            assert(p + (old_cur - 1) == i - 1);
            assert(d@[i as int] == d@[p] + old_cur);
            assert forall|j: int| 0 <= j < cur implies #[trigger] d@[p + j] == d@[p] + j by {
                if j < old_cur {
                    assert(d@[p + j] == d@[p] + j);
                } else {
                    assert(p + j == i);
                }
            }
            assert(index_run(d@, p, cur as int));
            if cur > best {
                best = cur;
            }
        } else {
            cur = 1;
            assert(index_run(d@, i as int, 1));
        }
        assert(cur < i + 1 ==> d@[i - cur] != d@[i as int] - cur) by {
            if cur < i + 1 && cur > 1 {
                assert(d@[(i - old_cur) + 0] == d@[i - old_cur]);
                assert(d@[(i + 1 - cur) + 0] == d@[i + 1 - cur]);
                assert(d@[(i - old_cur) + (old_cur - 1)] == d@[i - old_cur] + (old_cur - 1));
            }
            if cur == 1 && i >= 1 {
                assert(d@[i - 1] < d@[i as int]);
            }
        }
        assert forall|p: int, len: int| len >= 2 && p + len <= i + 1 && #[trigger] index_run(d@, p, len) implies len <= best by {
            if p + len == i + 1 {
                if len > cur {
                    assert(d@[p + (len - 1)] == d@[p] + (len - 1));
                    assert(d@[p + (len - 1 - cur)] == d@[p] + (len - 1 - cur));
                    assert(i - cur == p + (len - 1 - cur));
                    if cur > 1 {
                        assert(d@[(i + 1 - cur) + (cur - 1)] == d@[i + 1 - cur] + (cur - 1));
                    }
                    assert(d@[p + (len - 2)] == d@[p] + (len - 2));
                    assert(false);
                }
            }
        }
        i = i + 1;
    }
    assert forall|start: int, len: int| len >= 2 && run_present(int_set(d@), start, len) implies len <= best by {
        lemma_run_positions(d@, start, len);
        let p = choose|p: int| 0 <= p < d@.len() && d@[p] == start && #[trigger] index_run(d@, p, len);
    }
    proof {
        if best >= 2 {
            let p = choose|p: int| #[trigger] index_run(d@, p, best as int);
            lemma_index_run_present(d@, p, best as int);
        }
    }
    best
}

/// Length of the longest streak of consecutive units among `units` (days or weeks):
/// 0 when no two units are consecutive.
pub fn longest_streak(units: &Vec<i64>) -> (r: u32)
    requires
        units@.len() <= u32::MAX,
    ensures
        is_longest_streak(int_set(units@), r as int),
{
    let d = sorted_distinct(units);
    let r = longest_run(&d);
    r as u32
}

/// Number of consecutive units present among `units` that end at `last` (0 when `last`
/// itself is absent).
#[verifier::spinoff_prover]
pub fn streak_ending_at(units: &Vec<i64>, last: i64) -> (r: u32)
    requires
        units@.len() <= u32::MAX,
    ensures
        is_streak_ending_at(int_set(units@), last as int, r as int),
{
    let d = sorted_distinct(units);
    let m = d.len();
    let mut idx: usize = 0;
    while idx < m && d[idx] < last
        invariant
            0 <= idx <= m,
            m == d@.len(),
            forall|j: int| 0 <= j < idx ==> d@[j] < last,
        decreases m - idx,
    {
        idx = idx + 1;
    }
    if idx == m || d[idx] != last {
        assert(!int_set(d@).contains(last as int)) by {
            if int_set(d@).contains(last as int) {
                let k = choose|k: int| 0 <= k < d@.len() && d@[k] == last;
                if k > idx {
                    assert(d@[idx as int] < d@[k]);
                }
            }
        }
        return 0;
    }
    let mut count: usize = 1;
    while count <= idx && d[idx - count] < i64::MAX && d[idx - count] + 1 == d[idx - count + 1]
        invariant
            m == d@.len(),
            idx < m,
            d@[idx as int] == last,
            strictly_increasing(d@),
            1 <= count <= idx + 1,
            forall|j: int| 0 <= j < count ==> #[trigger] d@[idx - j] == last - j,
        decreases idx + 1 - count,
    {
        assert(d@[idx - (count - 1)] == last - (count - 1));
        count = count + 1;
    }
    proof {
        let set = int_set(d@);
        let c = count as int;
        assert forall|j: int| 0 <= j < c implies #[trigger] set.contains(last - c + 1 + j) by {
            assert(d@[idx - (c - 1 - j)] == last - (c - 1 - j));
        }
        if set.contains(last - c) {
            let k = choose|k: int| 0 <= k < d@.len() && d@[k] == last - c;
            if k > idx - c + 1 {
                if k <= idx {
                    assert(d@[idx - (idx - k)] == last - (idx - k));
                } else {
                    assert(d@[idx as int] < d@[k]);
                }
            } else if k == idx - c + 1 {
                assert(d@[idx - (c - 1)] == last - (c - 1));
            } else if k == idx - c {
                assert(d@[idx - (c - 1)] == last - (c - 1));
            } else {
                assert(d@[k] < d@[idx - c]);
                assert(d@[idx - c] < d@[idx - (c - 1)]);
                assert(d@[idx - (c - 1)] == last - (c - 1));
            }
        }
    }
    count as u32
}

} // verus!
