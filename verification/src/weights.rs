//! Sums of weights over chosen positions.

use vstd::prelude::*;

verus! {

/// The sum of `weights[i]` over the positions `i` below `n` that `mask` picks.
pub open spec fn masked_total(weights: Seq<u64>, mask: spec_fn(int) -> bool, n: int) -> nat
    decreases n,
{
    if n <= 0 {
        0
    } else {
        let rest = masked_total(weights, mask, n - 1);
        if mask(n - 1) {
            rest + weights[n - 1] as nat
        } else {
            rest
        }
    }
}

/// The sum of all weights.
pub open spec fn total_weight(weights: Seq<u64>) -> nat {
    masked_total(weights, |i: int| true, weights.len() as int)
}

/// Masks that pick the same positions give the same sum.
pub proof fn lemma_masked_total_agrees(
    weights: Seq<u64>,
    p: spec_fn(int) -> bool,
    q: spec_fn(int) -> bool,
    n: int,
)
    requires
        forall|i: int| 0 <= i < n ==> #[trigger] p(i) == #[trigger] q(i),
    ensures
        masked_total(weights, p, n) == masked_total(weights, q, n),
    decreases n,
{
    if n > 0 {
        lemma_masked_total_agrees(weights, p, q, n - 1);
    }
}

/// A mask that picks more gives no smaller a sum.
pub proof fn lemma_masked_total_grows(
    weights: Seq<u64>,
    p: spec_fn(int) -> bool,
    q: spec_fn(int) -> bool,
    n: int,
)
    requires
        forall|i: int| 0 <= i < n ==> (#[trigger] p(i) ==> #[trigger] q(i)),
    ensures
        masked_total(weights, p, n) <= masked_total(weights, q, n),
    decreases n,
{
    if n > 0 {
        lemma_masked_total_grows(weights, p, q, n - 1);
    }
}

/// A mask that picks nothing sums to zero.
pub proof fn lemma_masked_total_of_none(weights: Seq<u64>, p: spec_fn(int) -> bool, n: int)
    requires
        forall|i: int| 0 <= i < n ==> !#[trigger] p(i),
    ensures
        masked_total(weights, p, n) == 0,
    decreases n,
{
    if n > 0 {
        lemma_masked_total_of_none(weights, p, n - 1);
    }
}

/// Picking one more position adds that position's weight.
pub proof fn lemma_masked_total_gains(
    weights: Seq<u64>,
    p: spec_fn(int) -> bool,
    q: spec_fn(int) -> bool,
    extra: int,
    n: int,
)
    requires
        0 <= extra < n,
        !p(extra),
        forall|i: int| 0 <= i < n ==> #[trigger] q(i) == (#[trigger] p(i) || i == extra),
    ensures
        masked_total(weights, q, n) == masked_total(weights, p, n) + weights[extra],
    decreases n,
{
    if n - 1 == extra {
        lemma_masked_total_agrees(weights, p, q, n - 1);
    } else {
        lemma_masked_total_gains(weights, p, q, extra, n - 1);
    }
}

/// Adds up all weights.
pub fn sum_weights(weights: &[u64]) -> (total: u128)
    ensures
        total == total_weight(weights@),
{
    let n = weights.len();
    let mut total: u128 = 0;
    let mut i: usize = 0;
    while i < n
        invariant
            n == weights.len(),
            i <= n,
            total == masked_total(weights@, |k: int| true, i as int),
            total <= i * u64::MAX,
        decreases n - i,
    {
        assert(i * u64::MAX + u64::MAX <= usize::MAX * u64::MAX + u64::MAX) by (nonlinear_arith)
            requires
                i <= usize::MAX,
        ;
        total = total + weights[i] as u128;
        i = i + 1;
        assert(total <= i * u64::MAX) by (nonlinear_arith)
            requires
                total <= (i - 1) * u64::MAX + u64::MAX,
        ;
    }
    total
}

} // verus!
