//! The weighted summary of a set of samples.
//!
//! A sample is a value with a weight: the number of times the value was
//! seen. The summary holds what can be said of the samples without
//! arithmetic on the values themselves: the least and the greatest value, the
//! total weight, and the values that the nearest-rank rule selects at chosen
//! levels. Each value in a summary is one of the values given, bit for bit.

use vstd::prelude::*;
use crate::double::Double;
use crate::order::{
    is_sorted_order, lemma_prefix_is_total, lemma_prefix_is_weight_before,
    lemma_prefix_weight_bound, lemma_sorted_order_exists, placed_before, precedes, prefix_weight,
    sorted_order, weight_before,
};
use crate::rank::{lemma_nearest_rank_rises, nearest_rank, rank_for};
use crate::weights::{
    lemma_masked_total_gains, lemma_masked_total_grows, sum_weights, total_weight,
};

verus! {

/// The two kinds of sample statistic.
#[derive(Clone, Copy, Debug, PartialEq, Eq, Structural)]
pub enum StatisticKind {
    Histogram,
    Distribution,
}

/// Why a set of samples has no summary.
#[derive(Clone, Copy, Debug, PartialEq, Eq, Structural)]
pub enum SummaryError {
    /// There are not as many weights as values.
    MismatchedLengths,
    /// There are no samples.
    EmptyInput,
    /// The weights add up to zero.
    NonPositiveWeight,
}

/// The summary of a set of weighted samples.
#[derive(Clone, Debug, PartialEq, Eq)]
pub struct Summary {
    /// The least value, whatever its weight.
    pub min: Double,
    /// The greatest value, whatever its weight.
    pub max: Double,
    /// The value at the level of 50 hundredths.
    pub median: Double,
    /// The total weight.
    pub count: u128,
    /// Each level asked for, in hundredths, with the value at that level.
    pub quantiles: Vec<(u32, Double)>,
}

/// The levels, in hundredths, that belong to a kind of statistic.
pub open spec fn selected_levels(statistic: StatisticKind) -> Seq<u32> {
    match statistic {
        StatisticKind::Histogram => seq![95u32],
        StatisticKind::Distribution => seq![50u32, 75u32, 90u32, 95u32, 99u32],
    }
}

/// Whether the samples have a summary: as many weights as values, at least
/// one sample, and some weight.
pub open spec fn valid_samples(values: Seq<Double>, weights: Seq<u64>) -> bool {
    &&& values.len() == weights.len()
    &&& values.len() > 0
    &&& total_weight(weights) > 0
}

/// Whether position `j` comes before every other position.
pub open spec fn is_first_position(values: Seq<Double>, j: int) -> bool {
    &&& 0 <= j < values.len()
    &&& forall|i: int| 0 <= i < values.len() && i != j ==> #[trigger] precedes(values, j, i)
}

/// Whether every other position comes before position `j`.
pub open spec fn is_last_position(values: Seq<Double>, j: int) -> bool {
    &&& 0 <= j < values.len()
    &&& forall|i: int| 0 <= i < values.len() && i != j ==> #[trigger] precedes(values, i, j)
}

/// The least of the values: among those that rank lowest, the one given first.
pub open spec fn minimum(values: Seq<Double>) -> Double {
    values[choose|j: int| is_first_position(values, j)]
}

/// The greatest of the values: among those that rank highest, the one given
/// last.
pub open spec fn maximum(values: Seq<Double>) -> Double {
    values[choose|j: int| is_last_position(values, j)]
}

/// Whether the observation of rank `rank` is one of those at position `j`:
/// when every value is written out as often as its weight says, in rising
/// order, the observations at `j` are those of rank `weight_before + 1` to
/// `weight_before + weight`.
pub open spec fn is_position_of_rank(
    values: Seq<Double>,
    weights: Seq<u64>,
    rank: nat,
    j: int,
) -> bool {
    &&& 0 <= j < values.len()
    &&& weight_before(values, weights, j) < rank <= weight_before(values, weights, j) + weights[j]
}

/// The value of the observation of rank `rank`.
pub open spec fn value_of_rank(values: Seq<Double>, weights: Seq<u64>, rank: nat) -> Double {
    values[choose|j: int| is_position_of_rank(values, weights, rank, j)]
}

/// The value at the level `percent` hundredths, by the nearest-rank rule.
pub open spec fn quantile(values: Seq<Double>, weights: Seq<u64>, percent: nat) -> Double {
    value_of_rank(values, weights, nearest_rank(percent, total_weight(weights)))
}

/// The levels with their values.
pub open spec fn quantiles_at(values: Seq<Double>, weights: Seq<u64>, levels: Seq<u32>) -> Seq<
    (u32, Double),
> {
    Seq::new(levels.len(), |k: int| (levels[k], quantile(values, weights, levels[k] as nat)))
}

/// What a `Summary` holds.
pub struct SummaryView {
    pub min: Double,
    pub max: Double,
    pub median: Double,
    pub count: nat,
    pub quantiles: Seq<(u32, Double)>,
}

impl View for Summary {
    type V = SummaryView;

    open spec fn view(&self) -> SummaryView {
        SummaryView {
            min: self.min,
            max: self.max,
            median: self.median,
            count: self.count as nat,
            quantiles: self.quantiles@,
        }
    }
}

/// The summary of the given samples at the given levels.
pub open spec fn summary_of(values: Seq<Double>, weights: Seq<u64>, levels: Seq<u32>) -> SummaryView {
    SummaryView {
        min: minimum(values),
        max: maximum(values),
        median: quantile(values, weights, 50),
        count: total_weight(weights),
        quantiles: quantiles_at(values, weights, levels),
    }
}

impl Summary {
    /// The summary at the levels that belong to `statistic`, or `None` where
    /// the samples have none.
    pub fn new(values: &[Double], weights: &[u64], statistic: StatisticKind) -> (summary: Option<
        Summary,
    >)
        ensures
            summary is Some <==> valid_samples(values@, weights@),
            summary matches Some(s) ==> s@ == summary_of(
                values@,
                weights@,
                selected_levels(statistic),
            ),
    {
        let levels = select_levels(statistic);
        match summarize(values, weights, &levels) {
            Ok(summary) => Some(summary),
            Err(_) => None,
        }
    }
}

/// The quantile levels, in hundredths, that belong to a kind of statistic.
pub fn select_levels(statistic: StatisticKind) -> (levels: Vec<u32>)
    ensures
        levels@ == selected_levels(statistic),
{
    let mut levels: Vec<u32> = Vec::new();
    match statistic {
        StatisticKind::Histogram => {
            levels.push(95);
        },
        StatisticKind::Distribution => {
            levels.push(50);
            levels.push(75);
            levels.push(90);
            levels.push(95);
            levels.push(99);
        },
    }
    levels
}

/// Summarizes weighted samples at the given levels, each in hundredths.
pub fn summarize(values: &[Double], weights: &[u64], levels: &[u32]) -> (result: Result<
    Summary,
    SummaryError,
>)
    ensures
        match result {
            Ok(summary) => valid_samples(values@, weights@) && summary@ == summary_of(
                values@,
                weights@,
                levels@,
            ),
            Err(SummaryError::MismatchedLengths) => values.len() != weights.len(),
            Err(SummaryError::EmptyInput) => values.len() == weights.len() && values.len() == 0,
            Err(SummaryError::NonPositiveWeight) => values.len() == weights.len() && values.len()
                > 0 && total_weight(weights@) == 0,
        },
{
    if values.len() != weights.len() {
        return Err(SummaryError::MismatchedLengths);
    }
    if values.len() == 0 {
        return Err(SummaryError::EmptyInput);
    }
    let total = sum_weights(weights);
    if total == 0 {
        return Err(SummaryError::NonPositiveWeight);
    }
    let order = sorted_order(values);
    let first = order[0];
    let last = order[order.len() - 1];
    proof {
        lemma_ends_of_sorted_order(values@, order@);
        lemma_first_position_is_one(values@, first as int, choose|j: int|
            is_first_position(values@, j));
        lemma_last_position_is_one(values@, last as int, choose|j: int|
            is_last_position(values@, j));
    }
    let median = value_at_level(values, weights, &order, total, 50);
    let mut quantiles: Vec<(u32, Double)> = Vec::new();
    let mut k: usize = 0;
    while k < levels.len()
        invariant
            k <= levels.len(),
            valid_samples(values@, weights@),
            is_sorted_order(values@, order@),
            total == total_weight(weights@),
            quantiles@ == quantiles_at(values@, weights@, levels@.take(k as int)),
        decreases levels.len() - k,
    {
        let level = levels[k];
        let value = value_at_level(values, weights, &order, total, level);
        quantiles.push((level, value));
        k = k + 1;
        assert(quantiles@ =~= quantiles_at(values@, weights@, levels@.take(k as int)));
    }
    assert(levels@.take(k as int) =~= levels@);
    Ok(Summary { min: values[first], max: values[last], median, count: total, quantiles })
}

/// The value at one level, read off a sorted order.
fn value_at_level(
    values: &[Double],
    weights: &[u64],
    order: &Vec<usize>,
    total: u128,
    percent: u32,
) -> (value: Double)
    requires
        valid_samples(values@, weights@),
        is_sorted_order(values@, order@),
        total == total_weight(weights@),
    ensures
        value == quantile(values@, weights@, percent as nat),
{
    let rank = rank_for(percent, total);
    let j = position_of_rank(values, weights, order, rank);
    proof {
        let chosen = choose|j: int| is_position_of_rank(values@, weights@, rank as nat, j);
        lemma_position_of_rank_is_one(values@, weights@, rank as nat, j as int, chosen);
    }
    values[j]
}

/// Walks the sorted order, adding up weights, to the first position at which
/// the sum reaches `rank`.
fn position_of_rank(values: &[Double], weights: &[u64], order: &Vec<usize>, rank: u128) -> (j:
    usize)
    requires
        valid_samples(values@, weights@),
        is_sorted_order(values@, order@),
        1 <= rank <= total_weight(weights@),
    ensures
        is_position_of_rank(values@, weights@, rank as nat, j as int),
{
    let n = order.len();
    let mut k: usize = 0;
    let mut passed: u128 = 0;
    while k + 1 < n
        invariant
            n == order.len(),
            k < n,
            valid_samples(values@, weights@),
            is_sorted_order(values@, order@),
            passed == prefix_weight(weights@, order@, k as int),
            passed < rank <= total_weight(weights@),
        decreases n - k,
    {
        let j = order[k];
        proof {
            lemma_prefix_weight_bound(weights@, order@, k as int);
            assert(k * u64::MAX + u64::MAX <= u128::MAX) by (nonlinear_arith)
                requires
                    k <= usize::MAX,
            ;
        }
        let reached = passed + weights[j] as u128;
        if reached >= rank {
            proof {
                lemma_prefix_is_weight_before(values@, weights@, order@, k as int);
            }
            return j;
        }
        passed = reached;
        k = k + 1;
    }
    proof {
        lemma_prefix_is_weight_before(values@, weights@, order@, k as int);
        lemma_prefix_is_total(values@, weights@, order@);
    }
    order[k]
}

/// The first entry of a sorted order comes before every other position, and
/// every other position comes before the last entry.
proof fn lemma_ends_of_sorted_order(values: Seq<Double>, order: Seq<usize>)
    requires
        is_sorted_order(values, order),
        values.len() > 0,
    ensures
        is_first_position(values, order[0] as int),
        is_last_position(values, order[order.len() - 1] as int),
{
    let n = values.len() as int;
    assert forall|i: int| 0 <= i < n && i != order[0] implies #[trigger] precedes(
        values,
        order[0] as int,
        i,
    ) by {
        assert(placed_before(order, n, i));
        let m = choose|m: int| 0 <= m < n && #[trigger] order[m] == i;
        assert(precedes(values, order[0] as int, order[m] as int));
    }
    assert forall|i: int| 0 <= i < n && i != order[n - 1] implies #[trigger] precedes(
        values,
        i,
        order[n - 1] as int,
    ) by {
        assert(placed_before(order, n, i));
        let m = choose|m: int| 0 <= m < n && #[trigger] order[m] == i;
        assert(precedes(values, order[m] as int, order[n - 1] as int));
    }
}

/// Only one position comes before every other.
pub proof fn lemma_first_position_is_one(values: Seq<Double>, a: int, b: int)
    requires
        is_first_position(values, a),
    ensures
        is_first_position(values, b) ==> a == b,
{
    if is_first_position(values, b) && a != b {
        assert(precedes(values, a, b));
        assert(precedes(values, b, a));
    }
}

/// Only one position has every other come before it.
pub proof fn lemma_last_position_is_one(values: Seq<Double>, a: int, b: int)
    requires
        is_last_position(values, a),
    ensures
        is_last_position(values, b) ==> a == b,
{
    if is_last_position(values, b) && a != b {
        assert(precedes(values, a, b));
        assert(precedes(values, b, a));
    }
}

/// The weight before a position takes in the position before it and all that
/// lies before that one.
pub proof fn lemma_weight_before_steps(values: Seq<Double>, weights: Seq<u64>, a: int, b: int)
    requires
        values.len() == weights.len(),
        0 <= a < values.len(),
        0 <= b < values.len(),
        precedes(values, a, b),
    ensures
        weight_before(values, weights, a) + weights[a] <= weight_before(values, weights, b),
{
    let n = values.len() as int;
    let before_a = |i: int| precedes(values, i, a);
    let up_to_a = |i: int| precedes(values, i, a) || i == a;
    let before_b = |i: int| precedes(values, i, b);
    assert forall|i: int| 0 <= i < n implies #[trigger] up_to_a(i) == (#[trigger] before_a(i) || i
        == a) by {}
    lemma_masked_total_gains(weights, before_a, up_to_a, a, n);
    assert forall|i: int| 0 <= i < n && #[trigger] up_to_a(i) implies #[trigger] before_b(i) by {}
    lemma_masked_total_grows(weights, up_to_a, before_b, n);
}

/// Of a single sample with some weight every statistic is the sample's value,
/// and the count is its weight.
pub proof fn lemma_summary_of_one_sample(value: Double, weight: u64, levels: Seq<u32>)
    requires
        weight > 0,
    ensures
        valid_samples(seq![value], seq![weight]),
        summary_of(seq![value], seq![weight], levels).min == value,
        summary_of(seq![value], seq![weight], levels).max == value,
        summary_of(seq![value], seq![weight], levels).median == value,
        summary_of(seq![value], seq![weight], levels).count == weight,
        forall|k: int|
            0 <= k < levels.len() ==> #[trigger] summary_of(
                seq![value],
                seq![weight],
                levels,
            ).quantiles[k] == (levels[k], value),
{
    let values = seq![value];
    let weights = seq![weight];
    reveal_with_fuel(crate::weights::masked_total, 2);
    assert(total_weight(weights) == weight);
    assert(weight_before(values, weights, 0) == 0);
    assert(is_first_position(values, 0));
    assert(is_last_position(values, 0));
    assert forall|percent: nat| #[trigger] quantile(values, weights, percent) == value by {
        let rank = nearest_rank(percent, weight as nat);
        assert(is_position_of_rank(values, weights, rank, 0));
    }
}

/// An observation of a given rank lies at one position only.
pub proof fn lemma_position_of_rank_is_one(
    values: Seq<Double>,
    weights: Seq<u64>,
    rank: nat,
    a: int,
    b: int,
)
    requires
        values.len() == weights.len(),
        is_position_of_rank(values, weights, rank, a),
    ensures
        is_position_of_rank(values, weights, rank, b) ==> a == b,
{
    if is_position_of_rank(values, weights, rank, b) && a != b {
        if precedes(values, a, b) {
            lemma_weight_before_steps(values, weights, a, b);
        } else {
            assert(precedes(values, b, a));
            lemma_weight_before_steps(values, weights, b, a);
        }
    }
}

/// Walks a sorted order from its entry `k` on to the position of a rank.
proof fn lemma_walk_reaches_rank(
    values: Seq<Double>,
    weights: Seq<u64>,
    order: Seq<usize>,
    rank: nat,
    k: int,
) -> (j: int)
    requires
        valid_samples(values, weights),
        is_sorted_order(values, order),
        0 <= k < order.len(),
        prefix_weight(weights, order, k) < rank <= total_weight(weights),
    ensures
        is_position_of_rank(values, weights, rank, j),
    decreases order.len() - k,
{
    lemma_prefix_is_weight_before(values, weights, order, k);
    if prefix_weight(weights, order, k + 1) >= rank {
        order[k] as int
    } else {
        if k + 1 == order.len() {
            lemma_prefix_is_total(values, weights, order);
        }
        lemma_walk_reaches_rank(values, weights, order, rank, k + 1)
    }
}

/// Among samples that have a summary, every rank from one to the total
/// weight lies at a position.
pub proof fn lemma_position_of_rank_exists(values: Seq<Double>, weights: Seq<u64>, rank: nat) -> (j:
    int)
    requires
        valid_samples(values, weights),
        values.len() <= usize::MAX,
        1 <= rank <= total_weight(weights),
    ensures
        is_position_of_rank(values, weights, rank, j),
{
    let order = lemma_sorted_order_exists(values);
    lemma_walk_reaches_rank(values, weights, order, rank, 0)
}

/// The least and the greatest value are values given: the least stands at
/// the position that comes before every other, the greatest at the position
/// that every other comes before.
pub proof fn lemma_ends_are_given(values: Seq<Double>) -> (ends: (int, int))
    requires
        0 < values.len() <= usize::MAX,
    ensures
        is_first_position(values, ends.0),
        is_last_position(values, ends.1),
        minimum(values) == values[ends.0],
        maximum(values) == values[ends.1],
{
    let order = lemma_sorted_order_exists(values);
    let first = order[0] as int;
    let last = order[order.len() - 1] as int;
    lemma_ends_of_sorted_order(values, order);
    lemma_first_position_is_one(values, first, choose|j: int| is_first_position(values, j));
    lemma_last_position_is_one(values, last, choose|j: int| is_last_position(values, j));
    (first, last)
}

/// The value at a level is a value given: the one at the position of the
/// rank that the level selects.
pub proof fn lemma_quantile_is_given(values: Seq<Double>, weights: Seq<u64>, percent: nat) -> (j:
    int)
    requires
        valid_samples(values, weights),
        values.len() <= usize::MAX,
    ensures
        is_position_of_rank(
            values,
            weights,
            nearest_rank(percent, total_weight(weights)),
            j,
        ),
        quantile(values, weights, percent) == values[j],
{
    let rank = nearest_rank(percent, total_weight(weights));
    let j = lemma_position_of_rank_exists(values, weights, rank);
    lemma_position_of_rank_is_one(
        values,
        weights,
        rank,
        j,
        choose|j: int| is_position_of_rank(values, weights, rank, j),
    );
    j
}

/// No value at a level ranks below the least value or above the greatest.
pub proof fn lemma_quantile_lies_within_ends(
    values: Seq<Double>,
    weights: Seq<u64>,
    percent: nat,
)
    requires
        valid_samples(values, weights),
        values.len() <= usize::MAX,
    ensures
        minimum(values).order_key() <= quantile(values, weights, percent).order_key()
            <= maximum(values).order_key(),
{
    let ends = lemma_ends_are_given(values);
    let j = lemma_quantile_is_given(values, weights, percent);
    if j != ends.0 {
        assert(precedes(values, ends.0, j));
    }
    if j != ends.1 {
        assert(precedes(values, j, ends.1));
    }
}

/// A higher level never gives a value that ranks lower.
pub proof fn lemma_quantile_rises(
    values: Seq<Double>,
    weights: Seq<u64>,
    lower: nat,
    higher: nat,
)
    requires
        valid_samples(values, weights),
        values.len() <= usize::MAX,
        lower <= higher,
    ensures
        quantile(values, weights, lower).order_key() <= quantile(
            values,
            weights,
            higher,
        ).order_key(),
{
    let a = lemma_quantile_is_given(values, weights, lower);
    let b = lemma_quantile_is_given(values, weights, higher);
    lemma_nearest_rank_rises(lower, higher, total_weight(weights));
    if a != b && precedes(values, b, a) {
        lemma_weight_before_steps(values, weights, b, a);
    }
}

} // verus!
