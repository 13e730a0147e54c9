//! Sorting and the first few of a ranking.

use vstd::prelude::*;
use vstd::seq_lib::{to_multiset_build, to_multiset_insert, to_multiset_len};

verus! {

pub open spec fn sorted_desc(s: Seq<u32>) -> bool {
    forall|i: int, j: int| 0 <= i < j < s.len() ==> s[i] >= s[j]
}

/// Ascending by the second component.
pub open spec fn sorted_by_second(s: Seq<(u32, u16)>) -> bool {
    forall|i: int, j: int| 0 <= i < j < s.len() ==> s[i].1 <= s[j].1
}

pub open spec fn min_len(a: int, b: int) -> int {
    if a < b { a } else { b }
}

/// `r` holds the `k` largest of `values` (all of them when there are fewer), largest first.
pub open spec fn is_top_desc(values: Seq<u32>, k: int, r: Seq<u32>) -> bool {
    exists|t: Seq<u32>|
        #[trigger] t.to_multiset() == values.to_multiset() && sorted_desc(t) && r == t.take(
            min_len(k, values.len() as int),
        )
}

/// `r` holds the first `k` entries of `values` once put in ascending order of the second
/// component.
pub open spec fn is_first_by_second(values: Seq<(u32, u16)>, k: int, r: Seq<(u32, u16)>) -> bool {
    exists|t: Seq<(u32, u16)>|
        #[trigger] t.to_multiset() == values.to_multiset() && sorted_by_second(t) && r == t.take(
            min_len(k, values.len() as int),
        )
}

/// `values` in descending order.
#[verifier::spinoff_prover]
pub fn sort_desc(values: &Vec<u32>) -> (r: Vec<u32>)
    ensures
        r@.to_multiset() == values@.to_multiset(),
        sorted_desc(r@),
{
    broadcast use to_multiset_build, to_multiset_insert;

    let mut out: Vec<u32> = Vec::new();
    let mut i: usize = 0;
    assert(values@.take(0) =~= out@);
    while i < values.len()
        invariant
            0 <= i <= values.len(),
            out@.to_multiset() == values@.take(i as int).to_multiset(),
            sorted_desc(out@),
        decreases values.len() - i,
    {
        let x = values[i];
        let mut pos: usize = 0;
        while pos < out.len() && out[pos] >= x
            invariant
                0 <= pos <= out.len(),
                forall|j: int| 0 <= j < pos ==> out@[j] >= x,
            decreases out.len() - pos,
        {
            pos = pos + 1;
        }
        let ghost old_out = out@;
        out.insert(pos, x);
        assert(out@ == old_out.insert(pos as int, x));
        assert(values@.take(i + 1) =~= values@.take(i as int).push(x));
        proof {
            to_multiset_insert(old_out, pos as int, x);
            to_multiset_build(values@.take(i as int), x);
        }
        assert forall|a: int, b: int| 0 <= a < b < out@.len() implies out@[a] >= out@[b] by {
            if b < pos {
                assert(out@[a] == old_out[a] && out@[b] == old_out[b]);
            } else if b == pos {
                assert(out@[a] == old_out[a]);
            } else if a < pos {
                assert(out@[a] == old_out[a] && out@[b] == old_out[b - 1]);
            } else if a == pos {
                assert(out@[b] == old_out[b - 1]);
                assert(old_out[pos as int] < x);
                if b - 1 > pos {
                    assert(old_out[pos as int] >= old_out[b - 1]);
                }
            } else {
                assert(out@[a] == old_out[a - 1] && out@[b] == old_out[b - 1]);
            }
        }
        i = i + 1;
    }
    assert(values@.take(values@.len() as int) =~= values@);
    out
}

/// The three largest of `values`, largest first.
pub fn largest_three(values: &Vec<u32>) -> (r: Vec<u32>)
    ensures
        r@.len() <= 3,
        r@.len() == min_len(3, values@.len() as int),
        sorted_desc(r@),
        is_top_desc(values@, 3, r@),
{
    let mut sorted = sort_desc(values);
    let ghost t = sorted@;
    sorted.truncate(3);
    proof {
        to_multiset_len(t);
        to_multiset_len(values@);
        if t.len() >= 3 {
            assert(sorted@ =~= t.take(3));
        } else {
            assert(sorted@ =~= t.take(t.len() as int));
        }
    }
    sorted
}

/// `values` in ascending order of the second component.
#[verifier::spinoff_prover]
pub fn sort_by_second(values: &Vec<(u32, u16)>) -> (r: Vec<(u32, u16)>)
    ensures
        r@.to_multiset() == values@.to_multiset(),
        sorted_by_second(r@),
{
    broadcast use to_multiset_build, to_multiset_insert;

    let mut out: Vec<(u32, u16)> = Vec::new();
    let mut i: usize = 0;
    assert(values@.take(0) =~= out@);
    while i < values.len()
        invariant
            0 <= i <= values.len(),
            out@.to_multiset() == values@.take(i as int).to_multiset(),
            sorted_by_second(out@),
        decreases values.len() - i,
    {
        let x = values[i];
        let mut pos: usize = 0;
        while pos < out.len() && out[pos].1 <= x.1
            invariant
                0 <= pos <= out.len(),
                forall|j: int| 0 <= j < pos ==> out@[j].1 <= x.1,
            decreases out.len() - pos,
        {
            pos = pos + 1;
        }
        let ghost old_out = out@;
        out.insert(pos, x);
        assert(out@ == old_out.insert(pos as int, x));
        assert(values@.take(i + 1) =~= values@.take(i as int).push(x));
        proof {
            to_multiset_insert(old_out, pos as int, x);
            to_multiset_build(values@.take(i as int), x);
        }
        assert forall|a: int, b: int| 0 <= a < b < out@.len() implies out@[a].1 <= out@[b].1 by {
            if b < pos {
                assert(out@[a] == old_out[a] && out@[b] == old_out[b]);
            } else if b == pos {
                assert(out@[a] == old_out[a]);
            } else if a < pos {
                assert(out@[a] == old_out[a] && out@[b] == old_out[b - 1]);
            } else if a == pos {
                assert(out@[b] == old_out[b - 1]);
                assert(old_out[pos as int].1 > x.1);
                if b - 1 > pos {
                    assert(old_out[pos as int].1 <= old_out[b - 1].1);
                }
            } else {
                assert(out@[a] == old_out[a - 1] && out@[b] == old_out[b - 1]);
            }
        }
        i = i + 1;
    }
    assert(values@.take(values@.len() as int) =~= values@);
    out
}

/// The first three entries of `values` in ascending order of the second component.
pub fn first_three_by_second(values: &Vec<(u32, u16)>) -> (r: Vec<(u32, u16)>)
    ensures
        r@.len() == min_len(3, values@.len() as int),
        sorted_by_second(r@),
        is_first_by_second(values@, 3, r@),
{
    let mut sorted = sort_by_second(values);
    let ghost t = sorted@;
    sorted.truncate(3);
    proof {
        to_multiset_len(t);
        to_multiset_len(values@);
    }
    assert(t.len() == values@.len());
    proof {
        if t.len() >= 3 {
            assert(sorted@ =~= t.take(3));
        } else {
            assert(sorted@ =~= t.take(t.len() as int));
        }
    }
    sorted
}

} // verus!
