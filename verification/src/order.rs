//! The order of a set of samples: every position of the input, arranged by
//! rising value, with equal values in the order in which they were given.

use vstd::prelude::*;
use crate::double::Double;
use crate::weights::{
    lemma_masked_total_agrees, lemma_masked_total_gains, lemma_masked_total_of_none, masked_total,
    total_weight,
};

verus! {

/// Whether position `i` comes before position `j`: its value ranks lower, or
/// the two rank level and `i` was given first.
pub open spec fn precedes(values: Seq<Double>, i: int, j: int) -> bool {
    let a = values[i].order_key();
    let b = values[j].order_key();
    a < b || (a == b && i < j)
}

/// The weight that lies before position `j`: the sum of the weights of all
/// positions that precede it.
pub open spec fn weight_before(values: Seq<Double>, weights: Seq<u64>, j: int) -> nat {
    masked_total(weights, |i: int| precedes(values, i, j), values.len() as int)
}

/// Whether `i` stands among the first `k` entries of `order`.
pub open spec fn placed_before(order: Seq<usize>, k: int, i: int) -> bool {
    exists|m: int| 0 <= m < k && #[trigger] order[m] == i
}

/// Whether `order` lists every position from `lo` up to `hi` once, each
/// before all that it precedes.
pub open spec fn is_sorted_range(values: Seq<Double>, order: Seq<usize>, lo: int, hi: int) -> bool {
    &&& order.len() == hi - lo
    &&& forall|m: int| 0 <= m < order.len() ==> lo <= #[trigger] order[m] < hi
    &&& forall|a: int, b: int|
        0 <= a < b < order.len() ==> precedes(
            values,
            #[trigger] order[a] as int,
            #[trigger] order[b] as int,
        )
    &&& forall|i: int| lo <= i < hi ==> placed_before(order, order.len() as int, i)
}

/// Whether `order` lists every position of `values` once, each before all
/// that it precedes.
pub open spec fn is_sorted_order(values: Seq<Double>, order: Seq<usize>) -> bool {
    is_sorted_range(values, order, 0, values.len() as int)
}

/// The sum of the weights of the first `k` positions that `order` lists.
pub open spec fn prefix_weight(weights: Seq<u64>, order: Seq<usize>, k: int) -> nat
    decreases k,
{
    if k <= 0 {
        0
    } else {
        prefix_weight(weights, order, k - 1) + weights[order[k - 1] as int] as nat
    }
}

/// Arranges the positions of `values` by rising value, equal values in the
/// order given.
pub fn sorted_order(values: &[Double]) -> (order: Vec<usize>)
    ensures
        is_sorted_order(values@, order@),
{
    sort_range(values, 0, values.len())
}

/// Arranges the positions from `lo` up to `hi`: each half by itself, then the
/// two merged.
fn sort_range(values: &[Double], lo: usize, hi: usize) -> (order: Vec<usize>)
    requires
        lo <= hi <= values.len(),
    ensures
        is_sorted_range(values@, order@, lo as int, hi as int),
    decreases hi - lo,
{
    if hi - lo <= 1 {
        let mut order: Vec<usize> = Vec::new();
        if hi - lo == 1 {
            order.push(lo);
            assert(order@[0] == lo);
        }
        order
    } else {
        let mid = lo + (hi - lo) / 2;
        let left = sort_range(values, lo, mid);
        let right = sort_range(values, mid, hi);
        merge_orders(values, &left, &right, lo, mid, hi)
    }
}

/// Merges the orders of two ranges that lie side by side. Where two values
/// rank level, the one from the left range goes first: it was given first.
fn merge_orders(
    values: &[Double],
    left: &Vec<usize>,
    right: &Vec<usize>,
    lo: usize,
    mid: usize,
    hi: usize,
) -> (merged: Vec<usize>)
    requires
        lo <= mid <= hi <= values.len(),
        is_sorted_range(values@, left@, lo as int, mid as int),
        is_sorted_range(values@, right@, mid as int, hi as int),
    ensures
        is_sorted_range(values@, merged@, lo as int, hi as int),
{
    let mut merged: Vec<usize> = Vec::new();
    let mut a: usize = 0;
    let mut b: usize = 0;
    while a < left.len() || b < right.len()
        invariant
            lo <= mid <= hi <= values.len(),
            is_sorted_range(values@, left@, lo as int, mid as int),
            is_sorted_range(values@, right@, mid as int, hi as int),
            a <= left.len(),
            b <= right.len(),
            merged.len() == a + b,
            forall|p: int| 0 <= p < merged.len() ==> lo <= #[trigger] merged[p] < hi,
            forall|p: int, q: int|
                0 <= p < q < merged.len() ==> precedes(
                    values@,
                    #[trigger] merged[p] as int,
                    #[trigger] merged[q] as int,
                ),
            forall|p: int, m: int|
                0 <= p < merged.len() && a <= m < left.len() ==> precedes(
                    values@,
                    #[trigger] merged[p] as int,
                    #[trigger] left[m] as int,
                ),
            forall|p: int, m: int|
                0 <= p < merged.len() && b <= m < right.len() ==> precedes(
                    values@,
                    #[trigger] merged[p] as int,
                    #[trigger] right[m] as int,
                ),
            forall|m: int| 0 <= m < a ==> exists|p: int| 0 <= p < merged.len() && merged[p] == #[trigger] left[m],
            forall|m: int| 0 <= m < b ==> exists|p: int| 0 <= p < merged.len() && merged[p] == #[trigger] right[m],
        decreases left.len() - a + (right.len() - b),
    {
        let from_left = if b == right.len() {
            true
        } else if a == left.len() {
            false
        } else {
            values[left[a]].key() <= values[right[b]].key()
        };
        let ghost before = merged@;
        if from_left {
            let next = left[a];
            proof {
                assert forall|m: int| b <= m < right.len() implies precedes(
                    values@,
                    next as int,
                    #[trigger] right[m] as int,
                ) by {
                    assert(precedes(values@, next as int, right[b as int] as int));
                    if m > b {
                        assert(precedes(values@, right[b as int] as int, right[m] as int));
                    }
                }
            }
            merged.push(next);
            a = a + 1;
        } else {
            let next = right[b];
            proof {
                assert forall|m: int| a <= m < left.len() implies precedes(
                    values@,
                    next as int,
                    #[trigger] left[m] as int,
                ) by {
                    assert(precedes(values@, next as int, left[a as int] as int));
                    if m > a {
                        assert(precedes(values@, left[a as int] as int, left[m] as int));
                    }
                }
            }
            merged.push(next);
            b = b + 1;
        }
        proof {
            let last = merged.len() - 1;
            assert forall|m: int| 0 <= m < a implies exists|p: int|
                0 <= p < merged.len() && merged[p] == #[trigger] left[m] by {
                if from_left && m == a - 1 {
                    assert(merged[last] == left[m]);
                } else {
                    let p = choose|p: int| 0 <= p < before.len() && before[p] == left[m];
                    assert(merged[p] == left[m]);
                }
            }
            assert forall|m: int| 0 <= m < b implies exists|p: int|
                0 <= p < merged.len() && merged[p] == #[trigger] right[m] by {
                if !from_left && m == b - 1 {
                    assert(merged[last] == right[m]);
                } else {
                    let p = choose|p: int| 0 <= p < before.len() && before[p] == right[m];
                    assert(merged[p] == right[m]);
                }
            }
        }
    }
    proof {
        let n = merged.len() as int;
        assert forall|i: int| lo <= i < hi implies placed_before(merged@, n, i) by {
            if i < mid {
                assert(placed_before(left@, left.len() as int, i));
                let m = choose|m: int| 0 <= m < left.len() && #[trigger] left[m] == i;
                let p = choose|p: int| 0 <= p < merged.len() && merged[p] == left[m];
                assert(merged[p] == i);
            } else {
                assert(placed_before(right@, right.len() as int, i));
                let m = choose|m: int| 0 <= m < right.len() && #[trigger] right[m] == i;
                let p = choose|p: int| 0 <= p < merged.len() && merged[p] == right[m];
                assert(merged[p] == i);
            }
        }
    }
    merged
}

/// Putting the next position behind the entries that rank no higher, and
/// before those that rank higher, keeps the order sorted.
proof fn lemma_insert_keeps_sorted(values: Seq<Double>, before: Seq<usize>, i: int, pos: int)
    requires
        is_sorted_range(values, before, 0, i),
        0 <= pos <= i < usize::MAX,
        pos > 0 ==> values[before[pos - 1] as int].order_key() <= values[i].order_key(),
        forall|b: int|
            pos <= b < i ==> values[#[trigger] before[b] as int].order_key()
                > values[i].order_key(),
    ensures
        is_sorted_range(values, before.insert(pos, i as usize), 0, i + 1),
{
    let order = before.insert(pos, i as usize);
    let next = i + 1;
    assert forall|a: int, b: int| 0 <= a < b < next implies precedes(
        values,
        #[trigger] order[a] as int,
        #[trigger] order[b] as int,
    ) by {
        if b < pos {
            assert(order[a] == before[a] && order[b] == before[b]);
        } else if b == pos {
            assert(order[a] == before[a]);
            if a < pos - 1 {
                assert(precedes(values, before[a] as int, before[pos - 1] as int));
            }
        } else if a < pos {
            assert(order[a] == before[a] && order[b] == before[b - 1]);
        } else if a == pos {
            assert(order[b] == before[b - 1]);
        } else {
            assert(order[a] == before[a - 1] && order[b] == before[b - 1]);
        }
    }
    assert forall|x: int| 0 <= x < next implies #[trigger] placed_before(order, next, x) by {
        if x == i {
            assert(order[pos] == x);
        } else {
            assert(placed_before(before, i, x));
            let m = choose|m: int| 0 <= m < i && #[trigger] before[m] == x;
            if m < pos {
                assert(order[m] == x);
            } else {
                assert(order[m + 1] == x);
            }
        }
    }
    assert forall|m: int| 0 <= m < next implies #[trigger] order[m] < next by {
        if m < pos {
            assert(order[m] == before[m]);
        } else if m > pos {
            assert(order[m] == before[m - 1]);
        }
    }
}

/// Where the next position goes among the first `k` entries of a sorted
/// order: behind the last of them that ranks no higher.
proof fn lemma_place_exists(values: Seq<Double>, order: Seq<usize>, i: int, k: int) -> (pos: int)
    requires
        0 <= k <= order.len(),
    ensures
        0 <= pos <= k,
        pos > 0 ==> values[order[pos - 1] as int].order_key() <= values[i].order_key(),
        forall|b: int|
            pos <= b < k ==> values[#[trigger] order[b] as int].order_key()
                > values[i].order_key(),
    decreases k,
{
    if k > 0 && values[order[k - 1] as int].order_key() > values[i].order_key() {
        lemma_place_exists(values, order, i, k - 1)
    } else {
        k
    }
}

/// The positions below `n` have a sorted order.
proof fn lemma_sorted_up_to_exists(values: Seq<Double>, n: int) -> (order: Seq<usize>)
    requires
        0 <= n <= usize::MAX,
    ensures
        is_sorted_range(values, order, 0, n),
    decreases n,
{
    if n == 0 {
        Seq::empty()
    } else {
        let before = lemma_sorted_up_to_exists(values, n - 1);
        let pos = lemma_place_exists(values, before, n - 1, n - 1);
        lemma_insert_keeps_sorted(values, before, n - 1, pos);
        before.insert(pos, (n - 1) as usize)
    }
}

/// Every set of values that a machine can hold has a sorted order.
pub proof fn lemma_sorted_order_exists(values: Seq<Double>) -> (order: Seq<usize>)
    requires
        values.len() <= usize::MAX,
    ensures
        is_sorted_order(values, order),
{
    lemma_sorted_up_to_exists(values, values.len() as int)
}

/// The first `k` weights in order are the weights of the positions placed
/// among the first `k`.
proof fn lemma_prefix_weight_masked(weights: Seq<u64>, order: Seq<usize>, k: int)
    requires
        0 <= k <= order.len(),
        forall|m: int| 0 <= m < order.len() ==> #[trigger] order[m] < weights.len(),
        forall|a: int, b: int|
            0 <= a < b < order.len() ==> #[trigger] order[a] != #[trigger] order[b],
    ensures
        prefix_weight(weights, order, k) == masked_total(
            weights,
            |i: int| placed_before(order, k, i),
            weights.len() as int,
        ),
    decreases k,
{
    let n = weights.len() as int;
    let q = |i: int| placed_before(order, k, i);
    if k > 0 {
        lemma_prefix_weight_masked(weights, order, k - 1);
        let p = |i: int| placed_before(order, k - 1, i);
        let extra = order[k - 1] as int;
        assert(!p(extra)) by {
            if placed_before(order, k - 1, extra) {
                let m = choose|m: int| 0 <= m < k - 1 && #[trigger] order[m] == extra;
                assert(order[m] != order[k - 1]);
            }
        }
        assert forall|i: int| 0 <= i < n implies #[trigger] q(i) == (#[trigger] p(i) || i
            == extra) by {
            if placed_before(order, k - 1, i) {
                let m = choose|m: int| 0 <= m < k - 1 && #[trigger] order[m] == i;
                assert(0 <= m < k && order[m] == i);
            }
            if i == extra {
                assert(order[k - 1] == i);
            }
            if placed_before(order, k, i) {
                let m = choose|m: int| 0 <= m < k && #[trigger] order[m] == i;
                if m < k - 1 {
                    assert(placed_before(order, k - 1, i));
                }
            }
        }
        lemma_masked_total_gains(weights, p, q, extra, n);
    } else {
        lemma_masked_total_of_none(weights, q, n);
    }
}

/// In a sorted order, the weights listed before an entry are the weight that
/// lies before its position.
pub proof fn lemma_prefix_is_weight_before(
    values: Seq<Double>,
    weights: Seq<u64>,
    order: Seq<usize>,
    k: int,
)
    requires
        is_sorted_order(values, order),
        weights.len() == values.len(),
        0 <= k < order.len(),
    ensures
        prefix_weight(weights, order, k) == weight_before(values, weights, order[k] as int),
{
    let n = values.len() as int;
    let j = order[k] as int;
    lemma_sorted_order_is_one_to_one(values, order);
    lemma_prefix_weight_masked(weights, order, k);
    let p = |i: int| placed_before(order, k, i);
    let q = |i: int| precedes(values, i, j);
    assert forall|i: int| 0 <= i < n implies #[trigger] p(i) == #[trigger] q(i) by {
        if placed_before(order, k, i) {
            let m = choose|m: int| 0 <= m < k && #[trigger] order[m] == i;
            assert(precedes(values, order[m] as int, order[k] as int));
        }
        if precedes(values, i, j) {
            assert(placed_before(order, n, i));
            let m = choose|m: int| 0 <= m < n && #[trigger] order[m] == i;
            if m > k {
                assert(precedes(values, order[k] as int, order[m] as int));
            }
            assert(m < k);
        }
    }
    lemma_masked_total_agrees(weights, p, q, n);
}

/// In a sorted order, all the weights listed add up to the total weight.
pub proof fn lemma_prefix_is_total(values: Seq<Double>, weights: Seq<u64>, order: Seq<usize>)
    requires
        is_sorted_order(values, order),
        weights.len() == values.len(),
    ensures
        prefix_weight(weights, order, order.len() as int) == total_weight(weights),
{
    let n = values.len() as int;
    lemma_sorted_order_is_one_to_one(values, order);
    lemma_prefix_weight_masked(weights, order, n);
    let p = |i: int| placed_before(order, n, i);
    let q = |i: int| true;
    assert forall|i: int| 0 <= i < n implies #[trigger] p(i) == #[trigger] q(i) by {
        assert(placed_before(order, n, i));
    }
    lemma_masked_total_agrees(weights, p, q, n);
}

/// A sorted order lists no position twice.
pub proof fn lemma_sorted_order_is_one_to_one(values: Seq<Double>, order: Seq<usize>)
    requires
        is_sorted_order(values, order),
    ensures
        forall|a: int, b: int|
            0 <= a < b < order.len() ==> #[trigger] order[a] != #[trigger] order[b],
{
    assert forall|a: int, b: int| 0 <= a < b < order.len() implies #[trigger] order[a]
        != #[trigger] order[b] by {
        assert(precedes(values, order[a] as int, order[b] as int));
    }
}

/// The weights listed before any entry fit in 128 bits with room to spare.
pub proof fn lemma_prefix_weight_bound(weights: Seq<u64>, order: Seq<usize>, k: int)
    requires
        0 <= k,
    ensures
        prefix_weight(weights, order, k) <= k * u64::MAX,
    decreases k,
{
    if k > 0 {
        lemma_prefix_weight_bound(weights, order, k - 1);
    }
}

} // verus!
