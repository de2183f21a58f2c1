use chrono::{DateTime, TimeZone, Utc};
use datadog_metrics::double::Double;
use datadog_metrics::metric::{distinct_count, Metric, MetricKind, MetricValue, Timestamp};
use datadog_metrics::series::{
    DatadogMetric, DatadogMetricType, DatadogPoint, DatadogRequest, PointValue,
};
use datadog_metrics::summary::StatisticKind;
use datadog_metrics::tags::{encode_namespace, encode_tags};
use datadog_metrics::text::{decimal, text_no_later};
use datadog_metrics::translate::{
    encode_events, encode_optional_tags, encode_timestamp, resolve_timestamp, translate,
};
use serde::ser::{Serialize, SerializeStruct, Serializer};

/// The request as it goes on the wire, each number worked out.
struct Wire<'a> {
    request: &'a DatadogRequest,
    events: &'a [Metric],
}

struct WireSeries<'a> {
    series: &'a DatadogMetric,
    events: &'a [Metric],
}

struct WireList<'a> {
    series: &'a [DatadogMetric],
    events: &'a [Metric],
}

impl<'a> Serialize for Wire<'a> {
    fn serialize<S: Serializer>(&self, serializer: S) -> Result<S::Ok, S::Error> {
        let mut out = serializer.serialize_struct("DatadogRequest", 1)?;
        out.serialize_field(
            "series",
            &WireList { series: &self.request.series, events: self.events },
        )?;
        out.end()
    }
}

impl<'a> Serialize for WireList<'a> {
    fn serialize<S: Serializer>(&self, serializer: S) -> Result<S::Ok, S::Error> {
        serializer.collect_seq(
            self.series.iter().map(|series| WireSeries { series, events: self.events }),
        )
    }
}

impl<'a> Serialize for WireSeries<'a> {
    fn serialize<S: Serializer>(&self, serializer: S) -> Result<S::Ok, S::Error> {
        let kind = match self.series.kind {
            DatadogMetricType::Gauge => "gauge",
            DatadogMetricType::Count => "count",
            DatadogMetricType::Rate => "rate",
        };
        let points: Vec<(i64, f64)> = self
            .series
            .points
            .iter()
            .map(|point| (point.0, number(&point.1, self.events)))
            .collect();
        let mut out = serializer.serialize_struct("DatadogMetric", 5)?;
        out.serialize_field("metric", &self.series.metric)?;
        out.serialize_field("type", kind)?;
        out.serialize_field("interval", &self.series.interval)?;
        out.serialize_field("points", &points)?;
        out.serialize_field("tags", &self.series.tags)?;
        out.end()
    }
}

fn weighted_sum(metric: &Metric) -> f64 {
    match &metric.value {
        MetricValue::Samples { values, sample_rates, .. } => values
            .iter()
            .zip(sample_rates.iter())
            .map(|(value, rate)| f64::from_bits(value.to_bits()) * (*rate as f64))
            .sum(),
        _ => panic!("a sum is owed for samples only"),
    }
}

fn number(value: &PointValue, events: &[Metric]) -> f64 {
    match value {
        PointValue::Given(given) => f64::from_bits(given.to_bits()),
        PointValue::Whole(whole) => *whole as f64,
        PointValue::WeightedSum { source } => weighted_sum(&events[*source]),
        PointValue::WeightedMean { source, count } => {
            weighted_sum(&events[*source]) / (*count as f64)
        }
    }
}

fn to_json(request: &DatadogRequest, events: &[Metric]) -> String {
    serde_json::to_string(&Wire { request, events }).unwrap()
}

fn double(value: f64) -> Double {
    Double::from_bits(value.to_bits())
}

fn doubles(values: &[f64]) -> Vec<Double> {
    values.iter().map(|value| double(*value)).collect()
}

fn timestamp(time: DateTime<Utc>) -> Timestamp {
    Timestamp { seconds: time.timestamp(), nanos: time.timestamp_subsec_nanos() }
}

#[allow(deprecated)]
fn ts() -> Timestamp {
    timestamp(Utc.ymd(2018, 11, 14).and_hms_nano(8, 9, 10, 11))
}

fn tags() -> Vec<(String, String)> {
    vec![
        ("normal_tag".to_owned(), "value".to_owned()),
        ("true_tag".to_owned(), "true".to_owned()),
        ("empty_tag".to_owned(), "".to_owned()),
    ]
}

fn strings(values: &[&str]) -> Vec<String> {
    values.iter().map(|value| value.to_string()).collect()
}

#[test]
fn test_encode_tags() {
    assert_eq!(encode_tags(tags()), vec!["empty_tag:", "normal_tag:value", "true_tag:true"]);
}

#[test]
fn test_encode_timestamp() {
    assert_eq!(encode_timestamp(None), Utc::now().timestamp());
    assert_eq!(encode_timestamp(Some(ts())), 1542182950);
}

#[test]
fn encode_counter() {
    let now = Utc::now().timestamp();
    let interval = 60;
    let events = vec![
        Metric {
            name: "total".into(),
            timestamp: None,
            tags: None,
            kind: MetricKind::Incremental,
            value: MetricValue::Counter { value: double(1.5) },
        },
        Metric {
            name: "check".into(),
            timestamp: Some(ts()),
            tags: Some(tags()),
            kind: MetricKind::Incremental,
            value: MetricValue::Counter { value: double(1.0) },
        },
        Metric {
            name: "unsupported".into(),
            timestamp: Some(ts()),
            tags: Some(tags()),
            kind: MetricKind::Absolute,
            value: MetricValue::Counter { value: double(1.0) },
        },
    ];
    let input = encode_events(events.clone(), interval, "ns");
    let json = to_json(&input, &events);

    assert_eq!(
        json,
        format!("{{\"series\":[{{\"metric\":\"ns.total\",\"type\":\"count\",\"interval\":60,\"points\":[[{},1.5]],\"tags\":null}},{{\"metric\":\"ns.check\",\"type\":\"count\",\"interval\":60,\"points\":[[1542182950,1.0]],\"tags\":[\"empty_tag:\",\"normal_tag:value\",\"true_tag:true\"]}}]}}", now)
    );
}

#[test]
fn encode_gauge() {
    let events = vec![
        Metric {
            name: "unsupported".into(),
            timestamp: Some(ts()),
            tags: None,
            kind: MetricKind::Incremental,
            value: MetricValue::Gauge { value: double(0.1) },
        },
        Metric {
            name: "volume".into(),
            timestamp: Some(ts()),
            tags: None,
            kind: MetricKind::Absolute,
            value: MetricValue::Gauge { value: double(-1.1) },
        },
    ];
    let input = encode_events(events.clone(), 60, "");
    let json = to_json(&input, &events);

    assert_eq!(
        json,
        r#"{"series":[{"metric":"volume","type":"gauge","interval":null,"points":[[1542182950,-1.1]],"tags":null}]}"#
    );
}

#[test]
fn encode_set() {
    let events = vec![Metric {
        name: "users".into(),
        timestamp: Some(ts()),
        tags: None,
        kind: MetricKind::Incremental,
        value: MetricValue::Members { values: vec!["alice".into(), "bob".into()].into_iter().collect() },
    }];
    let input = encode_events(events.clone(), 60, "");
    let json = to_json(&input, &events);

    assert_eq!(
        json,
        r#"{"series":[{"metric":"users","type":"gauge","interval":null,"points":[[1542182950,2.0]],"tags":null}]}"#
    );
}

#[test]
fn encode_histogram() {
    let events = vec![Metric {
        name: "requests".into(),
        timestamp: Some(ts()),
        tags: None,
        kind: MetricKind::Incremental,
        value: MetricValue::Samples {
            values: doubles(&[1.0, 2.0, 3.0]),
            sample_rates: vec![3, 3, 2],
            statistic: StatisticKind::Histogram,
        },
    }];
    let input = encode_events(events.clone(), 60, "");
    let json = to_json(&input, &events);

    assert_eq!(
        json,
        r#"{"series":[{"metric":"requests.min","type":"gauge","interval":60,"points":[[1542182950,1.0]],"tags":null},{"metric":"requests.avg","type":"gauge","interval":60,"points":[[1542182950,1.875]],"tags":null},{"metric":"requests.count","type":"rate","interval":60,"points":[[1542182950,8.0]],"tags":null},{"metric":"requests.median","type":"gauge","interval":60,"points":[[1542182950,2.0]],"tags":null},{"metric":"requests.max","type":"gauge","interval":60,"points":[[1542182950,3.0]],"tags":null},{"metric":"requests.95percentile","type":"gauge","interval":60,"points":[[1542182950,3.0]],"tags":null}]}"#
    );
}

#[test]
fn encode_distribution() {
    let events = vec![Metric {
        name: "requests".into(),
        timestamp: Some(ts()),
        tags: None,
        kind: MetricKind::Incremental,
        value: MetricValue::Samples {
            values: doubles(&[1.0, 2.0, 3.0]),
            sample_rates: vec![3, 3, 2],
            statistic: StatisticKind::Distribution,
        },
    }];
    let input = encode_events(events.clone(), 60, "");
    let json = to_json(&input, &events);

    assert_eq!(
        json,
        r#"{"series":[{"metric":"min:requests","type":"gauge","interval":60,"points":[[1542182950,1.0]],"tags":null},{"metric":"avg:requests","type":"gauge","interval":60,"points":[[1542182950,1.875]],"tags":null},{"metric":"count:requests","type":"count","interval":60,"points":[[1542182950,8.0]],"tags":null},{"metric":"max:requests","type":"gauge","interval":60,"points":[[1542182950,3.0]],"tags":null},{"metric":"sum:requests","type":"count","interval":60,"points":[[1542182950,15.0]],"tags":null},{"metric":"p50:requests","type":"gauge","interval":60,"points":[[1542182950,2.0]],"tags":null},{"metric":"p75:requests","type":"gauge","interval":60,"points":[[1542182950,2.0]],"tags":null},{"metric":"p90:requests","type":"gauge","interval":60,"points":[[1542182950,3.0]],"tags":null},{"metric":"p95:requests","type":"gauge","interval":60,"points":[[1542182950,3.0]],"tags":null},{"metric":"p99:requests","type":"gauge","interval":60,"points":[[1542182950,3.0]],"tags":null}]}"#
    );
}

#[test]
fn namespace_goes_before_the_name_with_a_dot() {
    assert_eq!(encode_namespace("", "x"), "x");
    assert_eq!(encode_namespace("ns", "x"), "ns.x");
    assert_eq!(encode_namespace("a.b", ""), "a.b.");
    assert_eq!(encode_namespace("", ""), "");
}

#[test]
fn tags_come_out_sorted_whatever_the_order_given() {
    let given = vec![
        ("b".to_owned(), "2".to_owned()),
        ("a".to_owned(), "z".to_owned()),
        ("a".to_owned(), "1".to_owned()),
        ("ab".to_owned(), "".to_owned()),
        ("\u{e9}".to_owned(), "x".to_owned()),
        ("Z".to_owned(), "x".to_owned()),
        ("a".to_owned(), "".to_owned()),
    ];
    let expected = vec!["Z:x", "a:", "a:1", "a:z", "ab:", "b:2", "\u{e9}:x"];
    assert_eq!(encode_tags(given.clone()), expected);
    let mut turned = given.clone();
    turned.reverse();
    assert_eq!(encode_tags(turned), expected);
    let mut shifted = given.clone();
    shifted.rotate_left(3);
    assert_eq!(encode_tags(shifted), expected);
    assert_eq!(encode_tags(vec![]), Vec::<String>::new());
}

#[test]
fn lines_that_read_alike_are_both_kept() {
    let given = vec![("a:".to_owned(), "b".to_owned()), ("a".to_owned(), ":b".to_owned())];
    assert_eq!(encode_tags(given), vec!["a::b", "a::b"]);
}

#[test]
fn texts_compare_as_strings_do() {
    let texts = ["", "a", "ab", "b", "B", "a:", "a:1", "\u{e9}", "\u{10000}", "\u{ffff}", "z"];
    for a in texts.iter() {
        for b in texts.iter() {
            assert_eq!(text_no_later(a, b), a <= b);
        }
    }
}

#[test]
fn no_tags_and_an_empty_list_both_leave_the_field_out() {
    assert_eq!(encode_optional_tags(&None), None);
    assert_eq!(encode_optional_tags(&Some(vec![])), None);
    assert_eq!(
        encode_optional_tags(&Some(tags())),
        Some(strings(&["empty_tag:", "normal_tag:value", "true_tag:true"]))
    );
    let metric = Metric {
        name: "volume".into(),
        timestamp: None,
        tags: Some(vec![]),
        kind: MetricKind::Absolute,
        value: MetricValue::Gauge { value: double(2.0) },
    };
    let records = translate(&metric, 0, 60, "", 5);
    assert_eq!(records.len(), 1);
    assert_eq!(records[0].tags, None);
}

#[test]
fn a_timestamp_wins_over_the_clock() {
    assert_eq!(resolve_timestamp(None, 17), 17);
    assert_eq!(resolve_timestamp(Some(Timestamp { seconds: -3, nanos: 999 }), 17), -3);
    assert_eq!(encode_timestamp(Some(Timestamp { seconds: i64::MIN, nanos: 0 })), i64::MIN);
    let before = Utc::now().timestamp();
    let read = encode_timestamp(None);
    let after = Utc::now().timestamp();
    assert!(before <= read && read <= after);
}

#[test]
fn an_incremental_counter_is_a_count_with_the_interval() {
    let metric = Metric {
        name: "total".into(),
        timestamp: None,
        tags: None,
        kind: MetricKind::Incremental,
        value: MetricValue::Counter { value: double(1.5) },
    };
    let records = translate(&metric, 0, 60, "ns", 1234);
    assert_eq!(records.len(), 1);
    assert_eq!(records[0].metric, "ns.total");
    assert_eq!(records[0].kind, DatadogMetricType::Count);
    assert_eq!(records[0].interval, Some(60));
    assert_eq!(records[0].points, vec![DatadogPoint(1234, PointValue::Given(double(1.5)))]);
    assert_eq!(records[0].tags, None);
}

#[test]
fn kinds_and_values_that_do_not_go_together_give_nothing() {
    let values = vec![
        MetricValue::Counter { value: double(1.0) },
        MetricValue::Members { values: strings(&["alice"]) },
        MetricValue::Samples {
            values: doubles(&[1.0]),
            sample_rates: vec![1],
            statistic: StatisticKind::Histogram,
        },
    ];
    for value in values {
        let metric = Metric {
            name: "unsupported".into(),
            timestamp: Some(ts()),
            tags: Some(tags()),
            kind: MetricKind::Absolute,
            value,
        };
        assert!(translate(&metric, 0, 60, "", 0).is_empty());
    }
    let metric = Metric {
        name: "unsupported".into(),
        timestamp: Some(ts()),
        tags: None,
        kind: MetricKind::Incremental,
        value: MetricValue::Gauge { value: double(0.1) },
    };
    assert!(translate(&metric, 0, 60, "", 0).is_empty());
}

#[test]
fn samples_without_a_summary_give_nothing_and_the_rest_goes_on() {
    let samples = |values: &[f64], rates: Vec<u64>| Metric {
        name: "requests".into(),
        timestamp: Some(ts()),
        tags: None,
        kind: MetricKind::Incremental,
        value: MetricValue::Samples {
            values: doubles(values),
            sample_rates: rates,
            statistic: StatisticKind::Histogram,
        },
    };
    let events = vec![
        samples(&[1.0], vec![1, 2, 3]),
        samples(&[], vec![]),
        samples(&[1.0, 2.0], vec![0, 0]),
        samples(&[4.0], vec![2]),
    ];
    let request = encode_events(events, 10, "");
    let names: Vec<&str> = request.series.iter().map(|record| record.metric.as_str()).collect();
    assert_eq!(
        names,
        vec![
            "requests.min",
            "requests.avg",
            "requests.count",
            "requests.median",
            "requests.max",
            "requests.95percentile"
        ]
    );
    assert_eq!(
        request.series[1].points,
        vec![DatadogPoint(1542182950, PointValue::WeightedMean { source: 3, count: 2 })]
    );
    assert_eq!(
        request.series[2].points,
        vec![DatadogPoint(1542182950, PointValue::Whole(2))]
    );
    assert_eq!(request.series[2].kind, DatadogMetricType::Rate);
}

#[test]
fn a_sum_names_the_metric_it_is_owed_for() {
    let gauge = Metric {
        name: "volume".into(),
        timestamp: Some(ts()),
        tags: None,
        kind: MetricKind::Absolute,
        value: MetricValue::Gauge { value: double(2.0) },
    };
    let samples = Metric {
        name: "requests".into(),
        timestamp: Some(ts()),
        tags: Some(tags()),
        kind: MetricKind::Incremental,
        value: MetricValue::Samples {
            values: doubles(&[1.0, 2.0, 3.0]),
            sample_rates: vec![3, 3, 2],
            statistic: StatisticKind::Distribution,
        },
    };
    let request = encode_events(vec![gauge, samples], 60, "ns");
    assert_eq!(request.series.len(), 11);
    assert_eq!(request.series[5].metric, "sum:ns.requests");
    assert_eq!(request.series[5].kind, DatadogMetricType::Count);
    assert_eq!(request.series[5].interval, Some(60));
    assert_eq!(
        request.series[5].points,
        vec![DatadogPoint(1542182950, PointValue::WeightedSum { source: 1 })]
    );
    assert_eq!(
        request.series[5].tags,
        Some(strings(&["empty_tag:", "normal_tag:value", "true_tag:true"]))
    );
    assert_eq!(request.series[3].metric, "count:ns.requests");
    assert_eq!(request.series[3].kind, DatadogMetricType::Count);
    assert_eq!(request.series[10].metric, "p99:ns.requests");
}

#[test]
fn members_are_counted_once_each() {
    assert_eq!(distinct_count(&strings(&[])), 0);
    assert_eq!(distinct_count(&strings(&["alice", "bob"])), 2);
    assert_eq!(distinct_count(&strings(&["bob", "alice", "bob", "bob", "", "alice"])), 3);
    let metric = Metric {
        name: "users".into(),
        timestamp: None,
        tags: None,
        kind: MetricKind::Incremental,
        value: MetricValue::Members { values: strings(&["alice", "bob", "alice"]) },
    };
    let records = translate(&metric, 0, 60, "", 7);
    assert_eq!(records.len(), 1);
    assert_eq!(records[0].kind, DatadogMetricType::Gauge);
    assert_eq!(records[0].interval, None);
    assert_eq!(records[0].points, vec![DatadogPoint(7, PointValue::Whole(2))]);
}

#[test]
fn a_key_given_twice_is_not_a_mapping() {
    let with_tags = |tags: Option<Vec<(String, String)>>| Metric {
        name: "total".into(),
        timestamp: None,
        tags,
        kind: MetricKind::Incremental,
        value: MetricValue::Counter { value: double(1.0) },
    };
    assert!(with_tags(None).is_well_formed());
    assert!(with_tags(Some(vec![])).is_well_formed());
    assert!(with_tags(Some(tags())).is_well_formed());
    let mut twice = tags();
    twice.push(("normal_tag".to_owned(), "other".to_owned()));
    assert!(!with_tags(Some(twice.clone())).is_well_formed());
    assert_eq!(
        translate(&with_tags(Some(twice)), 0, 60, "", 0)[0].tags,
        Some(strings(&["empty_tag:", "normal_tag:other", "normal_tag:value", "true_tag:true"]))
    );
    let same_values = vec![("a".to_owned(), "x".to_owned()), ("b".to_owned(), "x".to_owned())];
    assert!(with_tags(Some(same_values)).is_well_formed());
}

#[test]
fn whole_numbers_are_written_in_decimal() {
    assert_eq!(decimal(0), "0");
    assert_eq!(decimal(7), "7");
    assert_eq!(decimal(10), "10");
    assert_eq!(decimal(95), "95");
    assert_eq!(decimal(1203), "1203");
    assert_eq!(decimal(u32::MAX), "4294967295");
}
