//! From metrics to series records.
//!
//! Which records a metric gives depends on its kind and on what it
//! measures:
//!
//! | kind        | value   | records                                    |
//! |-------------|---------|--------------------------------------------|
//! | incremental | counter | one count, with the interval               |
//! | incremental | samples | the statistics of the samples, see below   |
//! | incremental | set     | one gauge: how many members differ         |
//! | absolute    | gauge   | one gauge                                  |
//! | any other   |         | none                                       |
//!
//! Samples that have no summary give no records.

use vstd::prelude::*;
use crate::metric::{
    distinct_count, metric_views, optional_tag_texts, Metric, MetricKind, MetricValue, MetricView,
    Timestamp, ValueView,
};
use crate::outside::clock_seconds;
use crate::series::{
    optional_texts, record, series_views, single_point, DatadogMetric, DatadogMetricType,
    DatadogRequest, PointValue, SeriesView,
};
use crate::summary::{
    selected_levels, summary_of, valid_samples, StatisticKind, Summary, SummaryView,
};
use crate::tags::{encode_namespace, encoded_tags, namespaced, sorted_tag_lines};
use crate::text::{decimal, decimal_text, join, texts};

verus! {

/// The second a metric counts as taken at: its own where it has one, else
/// the reading of the clock.
pub open spec fn resolved_timestamp(timestamp: Option<Timestamp>, now: i64) -> i64 {
    match timestamp {
        Some(taken) => taken.seconds,
        None => now,
    }
}

/// The tags of a record: the metric's tags encoded, and none where the
/// metric has no tags or an empty list of them.
pub open spec fn wire_tags(tags: Option<Seq<(Seq<char>, Seq<char>)>>) -> Option<Seq<Seq<char>>> {
    match tags {
        Some(tags) => if tags.len() > 0 {
            Some(encoded_tags(tags))
        } else {
            None
        },
        None => None,
    }
}

/// The name of the record for one quantile of a histogram.
pub open spec fn percentile_name(fullname: Seq<char>, percent: u32) -> Seq<char> {
    fullname + "."@ + decimal_text(percent as nat) + "percentile"@
}

/// The name of the record for one quantile of a distribution.
pub open spec fn quantile_name(fullname: Seq<char>, percent: u32) -> Seq<char> {
    "p"@ + decimal_text(percent as nat) + ":"@ + fullname
}

/// The records of a histogram: minimum, mean, count as a rate, median and
/// maximum, then one for each quantile; all with the interval.
pub open spec fn histogram_records(
    fullname: Seq<char>,
    source: usize,
    interval: i64,
    timestamp: i64,
    tags: Option<Seq<Seq<char>>>,
    summary: SummaryView,
) -> Seq<SeriesView> {
    let count = summary.count as u128;
    let gauge = DatadogMetricType::Gauge;
    let every = Some(interval);
    seq![
        record(fullname + ".min"@, gauge, every, timestamp, PointValue::Given(summary.min), tags),
        record(
            fullname + ".avg"@,
            gauge,
            every,
            timestamp,
            PointValue::WeightedMean { source, count },
            tags,
        ),
        record(
            fullname + ".count"@,
            DatadogMetricType::Rate,
            every,
            timestamp,
            PointValue::Whole(count),
            tags,
        ),
        record(
            fullname + ".median"@,
            gauge,
            every,
            timestamp,
            PointValue::Given(summary.median),
            tags,
        ),
        record(fullname + ".max"@, gauge, every, timestamp, PointValue::Given(summary.max), tags),
    ] + Seq::new(
        summary.quantiles.len(),
        |k: int|
            record(
                percentile_name(fullname, summary.quantiles[k].0),
                gauge,
                every,
                timestamp,
                PointValue::Given(summary.quantiles[k].1),
                tags,
            ),
    )
}

/// The records of a distribution: minimum, mean, count, maximum and sum, then
/// one for each quantile; all with the interval.
pub open spec fn distribution_records(
    fullname: Seq<char>,
    source: usize,
    interval: i64,
    timestamp: i64,
    tags: Option<Seq<Seq<char>>>,
    summary: SummaryView,
) -> Seq<SeriesView> {
    let count = summary.count as u128;
    let gauge = DatadogMetricType::Gauge;
    let every = Some(interval);
    seq![
        record("min:"@ + fullname, gauge, every, timestamp, PointValue::Given(summary.min), tags),
        record(
            "avg:"@ + fullname,
            gauge,
            every,
            timestamp,
            PointValue::WeightedMean { source, count },
            tags,
        ),
        record(
            "count:"@ + fullname,
            DatadogMetricType::Count,
            every,
            timestamp,
            PointValue::Whole(count),
            tags,
        ),
        record("max:"@ + fullname, gauge, every, timestamp, PointValue::Given(summary.max), tags),
        record(
            "sum:"@ + fullname,
            DatadogMetricType::Count,
            every,
            timestamp,
            PointValue::WeightedSum { source },
            tags,
        ),
    ] + Seq::new(
        summary.quantiles.len(),
        |k: int|
            record(
                quantile_name(fullname, summary.quantiles[k].0),
                gauge,
                every,
                timestamp,
                PointValue::Given(summary.quantiles[k].1),
                tags,
            ),
    )
}

/// The records of a summary, by the kind of statistic.
pub open spec fn sample_records(
    fullname: Seq<char>,
    source: usize,
    interval: i64,
    timestamp: i64,
    tags: Option<Seq<Seq<char>>>,
    statistic: StatisticKind,
    summary: SummaryView,
) -> Seq<SeriesView> {
    match statistic {
        StatisticKind::Histogram => histogram_records(
            fullname,
            source,
            interval,
            timestamp,
            tags,
            summary,
        ),
        StatisticKind::Distribution => distribution_records(
            fullname,
            source,
            interval,
            timestamp,
            tags,
            summary,
        ),
    }
}

/// The records of one metric. `source` is the metric's place in its batch,
/// `timestamp` the second it counts as taken at.
pub open spec fn translated(
    metric: MetricView,
    source: usize,
    interval: i64,
    namespace: Seq<char>,
    timestamp: i64,
) -> Seq<SeriesView> {
    let fullname = namespaced(namespace, metric.name);
    let tags = wire_tags(metric.tags);
    match metric.kind {
        MetricKind::Incremental => match metric.value {
            ValueView::Counter { value } => seq![
                record(
                    fullname,
                    DatadogMetricType::Count,
                    Some(interval),
                    timestamp,
                    PointValue::Given(value),
                    tags,
                ),
            ],
            ValueView::Samples { values, weights, statistic } => if valid_samples(
                values,
                weights,
            ) {
                sample_records(
                    fullname,
                    source,
                    interval,
                    timestamp,
                    tags,
                    statistic,
                    summary_of(values, weights, selected_levels(statistic)),
                )
            } else {
                Seq::empty()
            },
            ValueView::Members { values } => seq![
                record(
                    fullname,
                    DatadogMetricType::Gauge,
                    None,
                    timestamp,
                    PointValue::Whole(values.to_set().len() as u128),
                    tags,
                ),
            ],
            ValueView::Gauge { value } => Seq::empty(),
        },
        MetricKind::Absolute => match metric.value {
            ValueView::Gauge { value } => seq![
                record(
                    fullname,
                    DatadogMetricType::Gauge,
                    None,
                    timestamp,
                    PointValue::Given(value),
                    tags,
                ),
            ],
            _ => Seq::empty(),
        },
    }
}

/// The records of a batch, in the order of its metrics, where `clock[i]` is
/// what the clock read when metric `i` was encoded.
pub open spec fn encoded(
    events: Seq<MetricView>,
    interval: i64,
    namespace: Seq<char>,
    clock: Seq<i64>,
) -> Seq<SeriesView>
    decreases events.len(),
{
    if events.len() == 0 {
        Seq::empty()
    } else {
        let last = events.len() - 1;
        encoded(events.drop_last(), interval, namespace, clock.drop_last()) + translated(
            events[last],
            last as usize,
            interval,
            namespace,
            resolved_timestamp(events[last].timestamp, clock[last]),
        )
    }
}

/// A gauge that is a change, and a counter, a set or samples that are a
/// standing reading, give no records.
pub proof fn lemma_unsupported_metrics_give_nothing(
    metric: MetricView,
    source: usize,
    interval: i64,
    namespace: Seq<char>,
    timestamp: i64,
)
    requires
        match metric.kind {
            MetricKind::Incremental => metric.value is Gauge,
            MetricKind::Absolute => !(metric.value is Gauge),
        },
    ensures
        translated(metric, source, interval, namespace, timestamp).len() == 0,
{
}

/// How many records a metric gives: one for a counter or a set that is a
/// change, and for a gauge that is a standing reading; for samples that are a
/// change, five and one more for each level of their kind of statistic, which
/// makes six for a histogram and ten for a distribution, or none where the
/// samples have no summary.
pub proof fn lemma_supported_metrics_give_records(
    metric: MetricView,
    source: usize,
    interval: i64,
    namespace: Seq<char>,
    timestamp: i64,
)
    ensures
        metric.kind is Incremental && metric.value is Counter ==> translated(
            metric,
            source,
            interval,
            namespace,
            timestamp,
        ).len() == 1,
        metric.kind is Incremental && metric.value is Members ==> translated(
            metric,
            source,
            interval,
            namespace,
            timestamp,
        ).len() == 1,
        metric.kind is Absolute && metric.value is Gauge ==> translated(
            metric,
            source,
            interval,
            namespace,
            timestamp,
        ).len() == 1,
        metric.kind is Incremental ==> (metric.value matches ValueView::Samples {
            values,
            weights,
            statistic,
        } ==> translated(metric, source, interval, namespace, timestamp).len() == if !valid_samples(
            values,
            weights,
        ) {
            0nat
        } else if statistic is Histogram {
            6nat
        } else {
            10nat
        }),
{
}

/// The second at which a metric counts as taken, given what the clock reads.
pub fn resolve_timestamp(timestamp: Option<Timestamp>, now: i64) -> (seconds: i64)
    ensures
        seconds == resolved_timestamp(timestamp, now),
{
    match timestamp {
        Some(taken) => taken.seconds,
        None => now,
    }
}

/// The second at which a metric counts as taken: its own where it has one,
/// else what the clock reads now.
pub fn encode_timestamp(timestamp: Option<Timestamp>) -> (seconds: i64)
    ensures
        timestamp matches Some(taken) ==> seconds == taken.seconds,
{
    match timestamp {
        Some(taken) => taken.seconds,
        None => clock_seconds(),
    }
}

/// The tags of a record.
pub fn encode_optional_tags(tags: &Option<Vec<(String, String)>>) -> (lines: Option<Vec<String>>)
    ensures
        optional_texts(lines) == wire_tags(optional_tag_texts(*tags)),
{
    match tags {
        Some(tags) => {
            if tags.len() > 0 {
                Some(sorted_tag_lines(tags))
            } else {
                None
            }
        },
        None => None,
    }
}

/// The records of a summary.
pub fn encode_summary(
    fullname: &str,
    source: usize,
    interval: i64,
    timestamp: i64,
    tags: &Option<Vec<String>>,
    statistic: StatisticKind,
    summary: &Summary,
) -> (records: Vec<DatadogMetric>)
    ensures
        series_views(records@) == sample_records(
            fullname@,
            source,
            interval,
            timestamp,
            optional_texts(*tags),
            statistic,
            summary@,
        ),
{
    let ghost wire = optional_texts(*tags);
    let ghost expected = sample_records(
        fullname@,
        source,
        interval,
        timestamp,
        wire,
        statistic,
        summary@,
    );
    let count = summary.count;
    let every = Some(interval);
    let mut records: Vec<DatadogMetric> = Vec::new();
    match statistic {
        StatisticKind::Histogram => {
            records.push(
                single_point(
                    join(fullname, ".min", ""),
                    DatadogMetricType::Gauge,
                    every,
                    timestamp,
                    PointValue::Given(summary.min),
                    tags,
                ),
            );
            records.push(
                single_point(
                    join(fullname, ".avg", ""),
                    DatadogMetricType::Gauge,
                    every,
                    timestamp,
                    PointValue::WeightedMean { source, count },
                    tags,
                ),
            );
            records.push(
                single_point(
                    join(fullname, ".count", ""),
                    DatadogMetricType::Rate,
                    every,
                    timestamp,
                    PointValue::Whole(count),
                    tags,
                ),
            );
            records.push(
                single_point(
                    join(fullname, ".median", ""),
                    DatadogMetricType::Gauge,
                    every,
                    timestamp,
                    PointValue::Given(summary.median),
                    tags,
                ),
            );
            records.push(
                single_point(
                    join(fullname, ".max", ""),
                    DatadogMetricType::Gauge,
                    every,
                    timestamp,
                    PointValue::Given(summary.max),
                    tags,
                ),
            );
        },
        StatisticKind::Distribution => {
            records.push(
                single_point(
                    join("min:", fullname, ""),
                    DatadogMetricType::Gauge,
                    every,
                    timestamp,
                    PointValue::Given(summary.min),
                    tags,
                ),
            );
            records.push(
                single_point(
                    join("avg:", fullname, ""),
                    DatadogMetricType::Gauge,
                    every,
                    timestamp,
                    PointValue::WeightedMean { source, count },
                    tags,
                ),
            );
            records.push(
                single_point(
                    join("count:", fullname, ""),
                    DatadogMetricType::Count,
                    every,
                    timestamp,
                    PointValue::Whole(count),
                    tags,
                ),
            );
            records.push(
                single_point(
                    join("max:", fullname, ""),
                    DatadogMetricType::Gauge,
                    every,
                    timestamp,
                    PointValue::Given(summary.max),
                    tags,
                ),
            );
            records.push(
                single_point(
                    join("sum:", fullname, ""),
                    DatadogMetricType::Count,
                    every,
                    timestamp,
                    PointValue::WeightedSum { source },
                    tags,
                ),
            );
        },
    }
    proof {
        reveal_strlit("");
        assert(""@ =~= Seq::<char>::empty());
        assert(series_views(records@) =~= expected.take(5));
    }
    let mut k: usize = 0;
    while k < summary.quantiles.len()
        invariant
            k <= summary.quantiles.len(),
            records.len() == 5 + k,
            expected.len() == 5 + summary.quantiles.len(),
            expected == sample_records(
                fullname@,
                source,
                interval,
                timestamp,
                wire,
                statistic,
                summary@,
            ),
            wire == optional_texts(*tags),
            every == Some(interval),
            series_views(records@) == expected.take(5 + k),
        decreases summary.quantiles.len() - k,
    {
        let percent = summary.quantiles[k].0;
        let value = summary.quantiles[k].1;
        let digits = decimal(percent);
        let name = match statistic {
            StatisticKind::Histogram => {
                let mut name = join(fullname, ".", digits.as_str());
                name.append("percentile");
                name
            },
            StatisticKind::Distribution => {
                let mut name = join("p", digits.as_str(), ":");
                name.append(fullname);
                name
            },
        };
        let ghost before = records@;
        let made = single_point(
            name,
            DatadogMetricType::Gauge,
            every,
            timestamp,
            PointValue::Given(value),
            tags,
        );
        records.push(made);
        proof {
            assert(records@ == before.push(made));
            assert(made@ == expected[5 + k]);
            assert(series_views(records@) =~= series_views(before).push(made@));
            assert(expected.take(5 + k + 1) =~= expected.take(5 + k).push(expected[5 + k]));
        }
        k = k + 1;
    }
    assert(expected.take(5 + k) =~= expected);
    records
}

/// The records of one metric. `source` is the metric's place in its batch,
/// `timestamp` the second it counts as taken at.
pub fn translate(
    metric: &Metric,
    source: usize,
    interval: i64,
    namespace: &str,
    timestamp: i64,
) -> (records: Vec<DatadogMetric>)
    ensures
        series_views(records@) == translated(metric@, source, interval, namespace@, timestamp),
{
    let fullname = encode_namespace(namespace, metric.name.as_str());
    let tags = encode_optional_tags(&metric.tags);
    let mut records: Vec<DatadogMetric> = Vec::new();
    match metric.kind {
        MetricKind::Incremental => match &metric.value {
            MetricValue::Counter { value } => {
                let made = single_point(
                    fullname,
                    DatadogMetricType::Count,
                    Some(interval),
                    timestamp,
                    PointValue::Given(*value),
                    &tags,
                );
                records.push(made);
                assert(series_views(records@) =~= seq![made@]);
            },
            MetricValue::Samples { values, sample_rates, statistic } => {
                match Summary::new(values.as_slice(), sample_rates.as_slice(), *statistic) {
                    Some(summary) => {
                        records = encode_summary(
                            fullname.as_str(),
                            source,
                            interval,
                            timestamp,
                            &tags,
                            *statistic,
                            &summary,
                        );
                    },
                    None => {
                        assert(series_views(records@) =~= Seq::<SeriesView>::empty());
                    },
                }
            },
            MetricValue::Members { values } => {
                let members = distinct_count(values);
                let made = single_point(
                    fullname,
                    DatadogMetricType::Gauge,
                    None,
                    timestamp,
                    PointValue::Whole(members as u128),
                    &tags,
                );
                records.push(made);
                assert(series_views(records@) =~= seq![made@]);
            },
            MetricValue::Gauge { value } => {
                assert(series_views(records@) =~= Seq::<SeriesView>::empty());
            },
        },
        MetricKind::Absolute => match &metric.value {
            MetricValue::Gauge { value } => {
                let made = single_point(
                    fullname,
                    DatadogMetricType::Gauge,
                    None,
                    timestamp,
                    PointValue::Given(*value),
                    &tags,
                );
                records.push(made);
                assert(series_views(records@) =~= seq![made@]);
            },
            _ => {
                assert(series_views(records@) =~= Seq::<SeriesView>::empty());
            },
        },
    }
    records
}

/// Encodes a batch: the records of each metric in turn. A metric without a
/// timestamp gets the reading of the clock at the moment it is encoded, so
/// the result holds for some sequence of readings, one for each metric.
pub fn encode_events(events: Vec<Metric>, interval: i64, namespace: &str) -> (request:
    DatadogRequest)
    ensures
        exists|clock: Seq<i64>|
            clock.len() == events.len() && #[trigger] encoded(
                metric_views(events@),
                interval,
                namespace@,
                clock,
            ) == request@,
{
    let ghost all = metric_views(events@);
    let ghost mut clock: Seq<i64> = Seq::empty();
    let mut series: Vec<DatadogMetric> = Vec::new();
    let mut i: usize = 0;
    assert(all.take(0) =~= Seq::<MetricView>::empty());
    assert(series_views(series@) =~= Seq::<SeriesView>::empty());
    while i < events.len()
        invariant
            i <= events.len(),
            all == metric_views(events@),
            clock.len() == i,
            series_views(series@) == encoded(all.take(i as int), interval, namespace@, clock),
        decreases events.len() - i,
    {
        let metric = &events[i];
        let timestamp = encode_timestamp(metric.timestamp);
        let mut records = translate(metric, i, interval, namespace, timestamp);
        let ghost before = series@;
        let ghost added = records@;
        series.append(&mut records);
        proof {
            let earlier = all.take(i as int);
            let now = all.take(i + 1);
            assert(now.drop_last() =~= earlier);
            assert(now[i as int] == metric@);
            let readings = clock.push(timestamp);
            assert(readings.drop_last() =~= clock);
            assert(resolved_timestamp(metric@.timestamp, timestamp) == timestamp);
            assert(series@ == before + added);
            assert(series_views(series@) =~= series_views(before) + series_views(added));
            clock = readings;
        }
        i = i + 1;
    }
    assert(all.take(i as int) =~= all);
    DatadogRequest { series }
}

} // verus!
