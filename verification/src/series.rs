//! Series records as they go out.

use vstd::prelude::*;
use crate::double::Double;
use crate::text::texts;

verus! {

/// The type tag of a series.
#[derive(Clone, Copy, Debug, PartialEq, Eq, Structural)]
pub enum DatadogMetricType {
    Gauge,
    Count,
    Rate,
}

/// The number a point carries. This library does no arithmetic on doubles:
/// where a number is owed that takes such arithmetic, the point names it and
/// leaves the working out to whoever writes the wire format.
#[derive(Clone, Copy, Debug, PartialEq, Eq, Structural)]
pub enum PointValue {
    /// A value of the metric, handed through bit for bit.
    Given(Double),
    /// A whole number.
    Whole(u128),
    /// The sum of value times weight over the samples of the metric that
    /// stands at `source` in its batch.
    WeightedSum { source: usize },
    /// That sum divided by `count`, the total weight of those samples.
    WeightedMean { source: usize, count: u128 },
}

/// One point: seconds since the Unix epoch, and a number.
#[derive(Clone, Copy, Debug, PartialEq, Eq, Structural)]
pub struct DatadogPoint(pub i64, pub PointValue);

/// One series record.
#[derive(Clone, Debug, PartialEq, Eq)]
pub struct DatadogMetric {
    /// The name, under its namespace.
    pub metric: String,
    /// The type tag, `type` on the wire.
    pub kind: DatadogMetricType,
    /// Seconds since the flush before, on series that are counted per interval.
    pub interval: Option<i64>,
    pub points: Vec<DatadogPoint>,
    pub tags: Option<Vec<String>>,
}

/// The records of one batch.
#[derive(Clone, Debug, PartialEq, Eq)]
pub struct DatadogRequest {
    pub series: Vec<DatadogMetric>,
}

/// The views of the lines, where there are any.
pub open spec fn optional_texts(lines: Option<Vec<String>>) -> Option<Seq<Seq<char>>> {
    match lines {
        Some(lines) => Some(texts(lines@)),
        None => None,
    }
}

/// What a `DatadogMetric` holds.
pub struct SeriesView {
    pub metric: Seq<char>,
    pub kind: DatadogMetricType,
    pub interval: Option<i64>,
    pub points: Seq<DatadogPoint>,
    pub tags: Option<Seq<Seq<char>>>,
}

impl View for DatadogMetric {
    type V = SeriesView;

    open spec fn view(&self) -> SeriesView {
        SeriesView {
            metric: self.metric@,
            kind: self.kind,
            interval: self.interval,
            points: self.points@,
            tags: optional_texts(self.tags),
        }
    }
}

/// The views of a sequence of records.
pub open spec fn series_views(series: Seq<DatadogMetric>) -> Seq<SeriesView> {
    series.map_values(|record: DatadogMetric| record@)
}

impl View for DatadogRequest {
    type V = Seq<SeriesView>;

    open spec fn view(&self) -> Seq<SeriesView> {
        series_views(self.series@)
    }
}

/// A record with one point.
pub open spec fn record(
    metric: Seq<char>,
    kind: DatadogMetricType,
    interval: Option<i64>,
    timestamp: i64,
    value: PointValue,
    tags: Option<Seq<Seq<char>>>,
) -> SeriesView {
    SeriesView { metric, kind, interval, points: seq![DatadogPoint(timestamp, value)], tags }
}

/// Copies a list of strings.
pub fn copy_lines(lines: &Vec<String>) -> (copy: Vec<String>)
    ensures
        texts(copy@) == texts(lines@),
{
    let mut copy: Vec<String> = Vec::new();
    let mut i: usize = 0;
    while i < lines.len()
        invariant
            i <= lines.len(),
            texts(copy@) == texts(lines@).take(i as int),
        decreases lines.len() - i,
    {
        let ghost copied = copy@;
        let line = lines[i].clone();
        copy.push(line);
        i = i + 1;
        assert(copy@ == copied.push(line));
        assert(texts(copy@) =~= texts(copied).push(line@));
        assert(texts(copy@) =~= texts(lines@).take(i as int));
    }
    assert(texts(lines@).take(i as int) =~= texts(lines@));
    copy
}

/// Makes a record with one point.
pub fn single_point(
    metric: String,
    kind: DatadogMetricType,
    interval: Option<i64>,
    timestamp: i64,
    value: PointValue,
    tags: &Option<Vec<String>>,
) -> (made: DatadogMetric)
    ensures
        made@ == record(metric@, kind, interval, timestamp, value, optional_texts(*tags)),
{
    let mut points: Vec<DatadogPoint> = Vec::new();
    points.push(DatadogPoint(timestamp, value));
    let tags = match tags {
        Some(lines) => Some(copy_lines(lines)),
        None => None,
    };
    assert(points@ =~= seq![DatadogPoint(timestamp, value)]);
    DatadogMetric { metric, kind, interval, points, tags }
}

} // verus!
