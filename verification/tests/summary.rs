use datadog_metrics::double::Double;
use datadog_metrics::order::sorted_order;
use datadog_metrics::rank::rank_for;
use datadog_metrics::summary::{select_levels, summarize, StatisticKind, Summary, SummaryError};
use datadog_metrics::weights::sum_weights;

/// A summary with its numbers as doubles, and with the two statistics that
/// take arithmetic on doubles worked out here.
#[derive(Debug, PartialEq)]
struct Stats {
    min: f64,
    max: f64,
    median: f64,
    avg: f64,
    sum: f64,
    count: f64,
    quantiles: Vec<(f64, f64)>,
}

fn double(value: f64) -> Double {
    Double::from_bits(value.to_bits())
}

fn doubles(values: &[f64]) -> Vec<Double> {
    values.iter().map(|value| double(*value)).collect()
}

fn number(value: Double) -> f64 {
    f64::from_bits(value.to_bits())
}

fn weighted_sum(values: &[f64], counts: &[u64]) -> f64 {
    values.iter().zip(counts.iter()).map(|(value, count)| value * (*count as f64)).sum()
}

fn stats(values: &[f64], counts: &[u64], statistic: StatisticKind) -> Option<Stats> {
    let summary = Summary::new(&doubles(values), counts, statistic)?;
    let sum = weighted_sum(values, counts);
    let count = summary.count as f64;
    Some(Stats {
        min: number(summary.min),
        max: number(summary.max),
        median: number(summary.median),
        avg: sum / count,
        sum,
        count,
        quantiles: summary
            .quantiles
            .iter()
            .map(|(percent, value)| (f64::from(*percent) / 100.0, number(*value)))
            .collect(),
    })
}

#[test]
fn test_dense_stats() {
    let values = (0..20).into_iter().map(f64::from).collect::<Vec<_>>();
    let counts = vec![1; 20];

    assert_eq!(
        stats(&values, &counts, StatisticKind::Histogram),
        Some(Stats {
            min: 0.0,
            max: 19.0,
            median: 9.0,
            avg: 9.5,
            sum: 190.0,
            count: 20.0,
            quantiles: vec![(0.95, 18.0)],
        })
    );
}

#[test]
fn test_sparse_stats() {
    let values = (1..5).into_iter().map(f64::from).collect::<Vec<_>>();
    let counts = (1..5).into_iter().collect::<Vec<_>>();

    assert_eq!(
        stats(&values, &counts, StatisticKind::Histogram),
        Some(Stats {
            min: 1.0,
            max: 4.0,
            median: 3.0,
            avg: 3.0,
            sum: 30.0,
            count: 10.0,
            quantiles: vec![(0.95, 4.0)],
        })
    );
}

#[test]
fn test_single_value_stats() {
    let values = vec![10.0];
    let counts = vec![1];

    assert_eq!(
        stats(&values, &counts, StatisticKind::Histogram),
        Some(Stats {
            min: 10.0,
            max: 10.0,
            median: 10.0,
            avg: 10.0,
            sum: 10.0,
            count: 1.0,
            quantiles: vec![(0.95, 10.0)],
        })
    );
}

#[test]
fn test_nan_stats() {
    let values = doubles(&[1.0, std::f64::NAN]);
    let counts = vec![1, 1];
    assert!(Summary::new(&values, &counts, StatisticKind::Histogram).is_some());
}

#[test]
fn test_unequal_stats() {
    let values = doubles(&[1.0]);
    let counts = vec![1, 2, 3];
    assert!(Summary::new(&values, &counts, StatisticKind::Histogram).is_none());
}

#[test]
fn test_empty_stats() {
    let values = doubles(&[]);
    let counts = vec![];
    assert!(Summary::new(&values, &counts, StatisticKind::Histogram).is_none());
}

#[test]
fn test_zero_counts_stats() {
    let values = doubles(&[1.0, 2.0]);
    let counts = vec![0, 0];
    assert!(Summary::new(&values, &counts, StatisticKind::Histogram).is_none());
}

#[test]
fn summarize_names_each_failure() {
    let levels = [95];
    assert_eq!(
        summarize(&doubles(&[1.0]), &[1, 2, 3], &levels).unwrap_err(),
        SummaryError::MismatchedLengths
    );
    assert_eq!(
        summarize(&doubles(&[]), &[1], &levels).unwrap_err(),
        SummaryError::MismatchedLengths
    );
    assert_eq!(summarize(&doubles(&[]), &[], &levels).unwrap_err(), SummaryError::EmptyInput);
    assert_eq!(
        summarize(&doubles(&[1.0, 2.0]), &[0, 0], &levels).unwrap_err(),
        SummaryError::NonPositiveWeight
    );
    assert!(summarize(&doubles(&[1.0, 2.0]), &[0, 1], &levels).is_ok());
}

#[test]
fn distribution_levels_of_weighted_samples() {
    let values = [1.0, 2.0, 3.0];
    let counts = [3, 3, 2];
    assert_eq!(
        stats(&values, &counts, StatisticKind::Distribution),
        Some(Stats {
            min: 1.0,
            max: 3.0,
            median: 2.0,
            avg: 1.875,
            sum: 15.0,
            count: 8.0,
            quantiles: vec![(0.5, 2.0), (0.75, 2.0), (0.9, 3.0), (0.95, 3.0), (0.99, 3.0)],
        })
    );
}

#[test]
fn a_summary_holds_values_given_bit_for_bit() {
    let values = doubles(&[2.5, -1.0, 2.5]);
    assert_eq!(
        summarize(&values, &[1, 1, 1], &[10, 90]),
        Ok(Summary {
            min: double(-1.0),
            max: double(2.5),
            median: double(2.5),
            count: 3,
            quantiles: vec![(10, double(-1.0)), (90, double(2.5))],
        })
    );
    assert_eq!(
        Summary::new(&values, &[1, 1, 1], StatisticKind::Histogram),
        Some(Summary {
            min: double(-1.0),
            max: double(2.5),
            median: double(2.5),
            count: 3,
            quantiles: vec![(95, double(2.5))],
        })
    );
}

#[test]
fn selected_levels_are_fixed() {
    assert_eq!(select_levels(StatisticKind::Histogram), vec![95]);
    assert_eq!(select_levels(StatisticKind::Distribution), vec![50, 75, 90, 95, 99]);
}

#[test]
fn nearest_rank_rounds_up_and_stays_in_range() {
    assert_eq!(rank_for(95, 20), 19);
    assert_eq!(rank_for(50, 20), 10);
    assert_eq!(rank_for(50, 10), 5);
    assert_eq!(rank_for(95, 10), 10);
    assert_eq!(rank_for(75, 8), 6);
    assert_eq!(rank_for(90, 8), 8);
    assert_eq!(rank_for(99, 8), 8);
    assert_eq!(rank_for(50, 1), 1);
    assert_eq!(rank_for(1, 1000), 10);
    assert_eq!(rank_for(1, 1001), 11);
    assert_eq!(rank_for(0, 7), 1);
    assert_eq!(rank_for(100, 7), 7);
    assert_eq!(rank_for(250, 7), 7);
    assert_eq!(rank_for(99, u128::MAX), u128::MAX / 100 * 99 + 55);
    assert_eq!(rank_for(100, u128::MAX), u128::MAX);
}

#[test]
fn levels_outside_one_to_ninety_nine() {
    let values = doubles(&[5.0, 1.0, 3.0]);
    let summary = summarize(&values, &[1, 1, 1], &[0, 1, 100, 1000]).unwrap();
    let picked: Vec<(u32, f64)> =
        summary.quantiles.iter().map(|(percent, value)| (*percent, number(*value))).collect();
    assert_eq!(picked, vec![(0, 1.0), (1, 1.0), (100, 5.0), (1000, 5.0)]);
}

#[test]
fn values_without_weight_count_for_the_ends_only() {
    let values = doubles(&[-7.5, 2.0, 4.0, 100.0]);
    let summary = summarize(&values, &[0, 5, 5, 0], &[1, 50, 51, 100]).unwrap();
    assert_eq!(number(summary.min), -7.5);
    assert_eq!(number(summary.max), 100.0);
    assert_eq!(number(summary.median), 2.0);
    assert_eq!(summary.count, 10);
    let picked: Vec<f64> = summary.quantiles.iter().map(|(_, value)| number(*value)).collect();
    assert_eq!(picked, vec![2.0, 2.0, 4.0, 4.0]);
}

#[test]
fn unsorted_and_negative_values() {
    let values = [3.5, -2.0, 0.25, -1e300, 7.0, f64::INFINITY, f64::NEG_INFINITY];
    let counts = [1, 1, 1, 1, 1, 1, 1];
    let summary = summarize(&doubles(&values), &counts, &[15, 29, 43, 58, 72, 86, 100]).unwrap();
    assert_eq!(number(summary.min), f64::NEG_INFINITY);
    assert_eq!(number(summary.max), f64::INFINITY);
    assert_eq!(number(summary.median), 0.25);
    let picked: Vec<f64> = summary.quantiles.iter().map(|(_, value)| number(*value)).collect();
    assert_eq!(picked, vec![-1e300, -2.0, 0.25, 3.5, 7.0, f64::INFINITY, f64::INFINITY]);
}

#[test]
fn equal_values_stay_in_the_order_given() {
    let zeros = doubles(&[0.0, -0.0]);
    let summary = summarize(&zeros, &[1, 1], &[50, 100]).unwrap();
    assert_eq!(summary.min.to_bits(), 0.0f64.to_bits());
    assert_eq!(summary.max.to_bits(), (-0.0f64).to_bits());
    assert_eq!(summary.quantiles[0].1.to_bits(), 0.0f64.to_bits());
    assert_eq!(summary.quantiles[1].1.to_bits(), (-0.0f64).to_bits());
    assert_eq!(sorted_order(&zeros), vec![0, 1]);
    let zeros = doubles(&[-0.0, 0.0]);
    let summary = summarize(&zeros, &[1, 1], &[50, 100]).unwrap();
    assert_eq!(summary.quantiles[0].1.to_bits(), (-0.0f64).to_bits());
    assert_eq!(summary.quantiles[1].1.to_bits(), 0.0f64.to_bits());
}

#[test]
fn a_nan_ranks_above_every_number() {
    let values = doubles(&[f64::NAN, f64::INFINITY, 1.0, -f64::NAN]);
    assert_eq!(sorted_order(&values), vec![2, 1, 0, 3]);
    let summary = summarize(&values, &[1, 1, 1, 1], &[25, 50, 75]).unwrap();
    assert_eq!(number(summary.min), 1.0);
    assert!(number(summary.max).is_nan());
    assert_eq!(number(summary.quantiles[0].1), 1.0);
    assert_eq!(number(summary.quantiles[1].1), f64::INFINITY);
    assert!(number(summary.quantiles[2].1).is_nan());
}

#[test]
fn the_key_orders_numbers_as_doubles_compare() {
    let grid = [
        f64::NEG_INFINITY,
        f64::MIN,
        -1e300,
        -2.5,
        -1.0,
        -f64::MIN_POSITIVE,
        -5e-324,
        -0.0,
        0.0,
        5e-324,
        f64::MIN_POSITIVE,
        0.1,
        1.0,
        1.5,
        1e300,
        f64::MAX,
        f64::INFINITY,
    ];
    for a in grid.iter() {
        for b in grid.iter() {
            assert_eq!(double(*a).key() < double(*b).key(), a < b);
            assert_eq!(double(*a).key() == double(*b).key(), a == b);
        }
        assert!(double(*a).key() < double(f64::NAN).key());
    }
    assert_eq!(double(f64::NAN).key(), double(-f64::NAN).key());
    assert_eq!(double(0.0).key(), 0);
    assert_eq!(double(-1.0).key(), -(1.0f64.to_bits() as i64));
}

#[test]
fn sorted_order_lists_positions_by_rising_value() {
    let values = doubles(&[3.0, 1.0, 2.0, 1.0, 3.0, 0.5]);
    assert_eq!(sorted_order(&values), vec![5, 1, 3, 2, 0, 4]);
    assert_eq!(sorted_order(&doubles(&[])), Vec::<usize>::new());
}

#[test]
fn weights_add_up_beyond_sixty_four_bits() {
    assert_eq!(sum_weights(&[]), 0);
    assert_eq!(sum_weights(&[u64::MAX, u64::MAX, 2]), 2 * (u64::MAX as u128) + 2);
    let summary = summarize(&doubles(&[1.0, 2.0]), &[u64::MAX, u64::MAX], &[50, 51]).unwrap();
    assert_eq!(summary.count, 2 * (u64::MAX as u128));
    assert_eq!(number(summary.quantiles[0].1), 1.0);
    assert_eq!(number(summary.quantiles[1].1), 2.0);
}
