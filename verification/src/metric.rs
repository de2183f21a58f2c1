//! Metrics as they come in.

use vstd::prelude::*;
use crate::double::Double;
use crate::summary::StatisticKind;
use crate::tags::tag_texts;
use crate::text::texts;

verus! {

/// A point in time: seconds since the Unix epoch, and the nanoseconds past
/// that second.
#[derive(Clone, Copy, Debug, PartialEq, Eq, Structural)]
pub struct Timestamp {
    pub seconds: i64,
    pub nanos: u32,
}

/// Whether a metric's value is a change since the last report or a standing
/// reading.
#[derive(Clone, Copy, Debug, PartialEq, Eq, Structural)]
pub enum MetricKind {
    Incremental,
    Absolute,
}

/// What a metric measures.
#[allow(inconsistent_fields)]
#[derive(Clone, Debug, PartialEq, Eq)]
pub enum MetricValue {
    Counter { value: Double },
    Gauge { value: Double },
    /// The members of a set; only how many differ matters.
    Members { values: Vec<String> },
    /// `values[i]` was seen `sample_rates[i]` times.
    Samples { values: Vec<Double>, sample_rates: Vec<u64>, statistic: StatisticKind },
}

/// One metric.
#[derive(Clone, Debug, PartialEq, Eq)]
pub struct Metric {
    pub name: String,
    /// When it was taken; where absent, it counts as taken when it is encoded.
    pub timestamp: Option<Timestamp>,
    /// Keys with their values; a mapping, so no key comes twice.
    pub tags: Option<Vec<(String, String)>>,
    pub kind: MetricKind,
    pub value: MetricValue,
}

/// The views of keys and values, where there are tags.
pub open spec fn optional_tag_texts(tags: Option<Vec<(String, String)>>) -> Option<
    Seq<(Seq<char>, Seq<char>)>,
> {
    match tags {
        Some(tags) => Some(tag_texts(tags@)),
        None => None,
    }
}

/// What a `MetricValue` holds.
#[allow(inconsistent_fields)]
pub enum ValueView {
    Counter { value: Double },
    Gauge { value: Double },
    Members { values: Seq<Seq<char>> },
    Samples { values: Seq<Double>, weights: Seq<u64>, statistic: StatisticKind },
}

/// What a `Metric` holds.
pub struct MetricView {
    pub name: Seq<char>,
    pub timestamp: Option<Timestamp>,
    pub tags: Option<Seq<(Seq<char>, Seq<char>)>>,
    pub kind: MetricKind,
    pub value: ValueView,
}

impl View for MetricValue {
    type V = ValueView;

    open spec fn view(&self) -> ValueView {
        match *self {
            MetricValue::Counter { value } => ValueView::Counter { value },
            MetricValue::Gauge { value } => ValueView::Gauge { value },
            MetricValue::Members { values } => ValueView::Members { values: texts(values@) },
            MetricValue::Samples { values, sample_rates, statistic } => ValueView::Samples {
                values: values@,
                weights: sample_rates@,
                statistic,
            },
        }
    }
}

impl View for Metric {
    type V = MetricView;

    open spec fn view(&self) -> MetricView {
        MetricView {
            name: self.name@,
            timestamp: self.timestamp,
            tags: optional_tag_texts(self.tags),
            kind: self.kind,
            value: self.value@,
        }
    }
}

/// Whether no key is given twice.
pub open spec fn keys_are_unique(tags: Seq<(Seq<char>, Seq<char>)>) -> bool {
    forall|i: int, j: int| 0 <= i < j < tags.len() ==> tags[i].0 != tags[j].0
}

impl Metric {
    /// Whether the tags are a mapping: no key is given twice. Nothing here
    /// asks for it: a key that is given twice gets a line for each value.
    pub open spec fn well_formed(&self) -> bool {
        self.tags matches Some(tags) ==> keys_are_unique(tag_texts(tags@))
    }

    /// Tells whether the metric is well formed.
    pub fn is_well_formed(&self) -> (well_formed: bool)
        ensures
            well_formed == self.well_formed(),
    {
        match &self.tags {
            Some(tags) => {
                let ghost keys = tag_texts(tags@);
                let mut j: usize = 0;
                while j < tags.len()
                    invariant
                        j <= tags.len(),
                        self.tags == Some(*tags),
                        keys == tag_texts(tags@),
                        forall|a: int, b: int| 0 <= a < b < j ==> keys[a].0 != keys[b].0,
                    decreases tags.len() - j,
                {
                    let mut i: usize = 0;
                    while i < j
                        invariant
                            i <= j < tags.len(),
                            self.tags == Some(*tags),
                            keys == tag_texts(tags@),
                            forall|a: int| 0 <= a < i ==> keys[a].0 != keys[j as int].0,
                        decreases j - i,
                    {
                        if tags[i].0 == tags[j].0 {
                            assert(keys[i as int].0 == keys[j as int].0);
                            return false;
                        }
                        i = i + 1;
                    }
                    j = j + 1;
                }
                true
            },
            None => true,
        }
    }
}

/// The views of a sequence of metrics.
pub open spec fn metric_views(metrics: Seq<Metric>) -> Seq<MetricView> {
    metrics.map_values(|metric: Metric| metric@)
}

/// Counts the members of a set given as a list: each string once, however
/// often it is listed.
pub fn distinct_count(values: &Vec<String>) -> (count: usize)
    ensures
        count == texts(values@).to_set().len(),
{
    broadcast use {vstd::set::group_set_axioms, vstd::seq_lib::seq_to_set_is_finite};

    let ghost all = texts(values@);
    let mut count: usize = 0;
    let mut i: usize = 0;
    assert(all.take(0).to_set() =~= Set::<Seq<char>>::empty());
    while i < values.len()
        invariant
            i <= values.len(),
            all == texts(values@),
            count <= i,
            count == all.take(i as int).to_set().len(),
        decreases values.len() - i,
    {
        let mut seen = false;
        let mut j: usize = 0;
        while j < i
            invariant
                j <= i,
                i < values.len(),
                all == texts(values@),
                seen == (exists|k: int| 0 <= k < j && all[k] == all[i as int]),
            decreases i - j,
        {
            if values[j] == values[i] {
                seen = true;
                assert(all[j as int] == all[i as int]);
            }
            j = j + 1;
        }
        proof {
            let earlier = all.take(i as int);
            let member = all[i as int];
            assert(all.take(i + 1) =~= earlier.push(member));
            earlier.lemma_push_to_set_commute(member);
            if seen {
                let k = choose|k: int| 0 <= k < i && all[k] == member;
                assert(earlier[k] == member);
                assert(earlier.to_set().contains(member));
            } else {
                if earlier.to_set().contains(member) {
                    let k = choose|k: int| 0 <= k < earlier.len() && earlier[k] == member;
                    assert(all[k] == all[i as int]);
                }
            }
        }
        if !seen {
            count = count + 1;
        }
        i = i + 1;
    }
    assert(all.take(i as int) =~= all);
    count
}

} // verus!
