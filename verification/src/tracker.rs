//! The time of the last flush.
//!
//! Each flush puts its own time in the tracker and takes out the time of the
//! flush before it; the difference is the interval that goes with the
//! records of that flush. Taking and putting are one step: `exchange` needs
//! the tracker for itself, so no two flushes can be inside it at once, and
//! whoever shares a tracker between threads has to hold it behind a lock.

use vstd::prelude::*;

verus! {

/// Holds the second at which the last flush was made.
#[derive(Debug, PartialEq, Eq)]
pub struct IntervalTracker {
    last_sent_timestamp: i64,
}

impl View for IntervalTracker {
    type V = i64;

    closed spec fn view(&self) -> i64 {
        self.last_sent_timestamp
    }
}

/// One exchange on a tracker that holds `held`: what it holds afterwards, and
/// what the exchange hands back.
pub open spec fn exchanged(held: i64, now: i64) -> (i64, i64) {
    (now, held)
}

/// Whether the seconds from `previous` to `now` fit the type of an interval.
pub open spec fn interval_fits(previous: i64, now: i64) -> bool {
    i64::MIN <= now - previous <= i64::MAX
}

impl IntervalTracker {
    /// A tracker that holds `now`.
    pub fn new(now: i64) -> (tracker: IntervalTracker)
        ensures
            tracker@ == now,
    {
        IntervalTracker { last_sent_timestamp: now }
    }

    /// Reads what the tracker holds.
    pub fn last_sent(&self) -> (held: i64)
        ensures
            held == self@,
    {
        self.last_sent_timestamp
    }

    /// Puts `now` in the tracker and hands back what it held.
    pub fn exchange(&mut self, now: i64) -> (previous: i64)
        ensures
            (final(self)@, previous) == exchanged(old(self)@, now),
    {
        let mut held = now;
        core::mem::swap(&mut self.last_sent_timestamp, &mut held);
        held
    }
}

/// Tells whether the seconds from `previous` to `now` fit the type of an
/// interval.
pub fn fits(previous: i64, now: i64) -> (fit: bool)
    ensures
        fit == interval_fits(previous, now),
{
    if previous >= 0 {
        now >= i64::MIN + previous
    } else {
        now <= i64::MAX + previous
    }
}

/// The seconds from `previous` to `now`.
pub fn elapsed(previous: i64, now: i64) -> (interval: i64)
    requires
        interval_fits(previous, now),
    ensures
        interval == now - previous,
{
    now - previous
}

/// What a tracker holds after the exchanges that put in `times`, one after
/// the other, when it held `initial` before the first.
pub open spec fn held_after(initial: i64, times: Seq<i64>) -> i64
    decreases times.len(),
{
    if times.len() == 0 {
        initial
    } else {
        exchanged(held_after(initial, times.drop_last()), times.last()).0
    }
}

/// What those exchanges hand back, one after the other.
pub open spec fn handed_back(initial: i64, times: Seq<i64>) -> Seq<i64>
    decreases times.len(),
{
    if times.len() == 0 {
        Seq::empty()
    } else {
        handed_back(initial, times.drop_last()).push(
            exchanged(held_after(initial, times.drop_last()), times.last()).1,
        )
    }
}

/// The sum of the intervals of those exchanges.
pub open spec fn intervals_total(initial: i64, times: Seq<i64>) -> int
    decreases times.len(),
{
    if times.len() == 0 {
        0
    } else {
        intervals_total(initial, times.drop_last()) + (times.last() - held_after(
            initial,
            times.drop_last(),
        ))
    }
}

/// In a run of exchanges each time that is put in is handed back once, to
/// the exchange that comes next: the first exchange gets the initial time,
/// each later one the time of the exchange before it, and the time of the
/// last stays in the tracker. So what is handed back, followed by what stays,
/// is the initial time followed by the times put in.
pub proof fn lemma_each_time_is_handed_back_once(initial: i64, times: Seq<i64>)
    ensures
        handed_back(initial, times).len() == times.len(),
        forall|k: int|
            0 <= k < times.len() ==> #[trigger] handed_back(initial, times)[k] == if k == 0 {
                initial
            } else {
                times[k - 1]
            },
        held_after(initial, times) == if times.len() == 0 {
            initial
        } else {
            times.last()
        },
        handed_back(initial, times).push(held_after(initial, times)) == seq![initial] + times,
    decreases times.len(),
{
    if times.len() > 0 {
        lemma_each_time_is_handed_back_once(initial, times.drop_last());
    }
    assert(handed_back(initial, times).push(held_after(initial, times)) =~= seq![initial] + times);
}

/// Where no time occurs twice among the initial time and the times put in,
/// no two exchanges are handed the same time.
pub proof fn lemma_no_time_is_handed_back_twice(initial: i64, times: Seq<i64>, a: int, b: int)
    requires
        0 <= a < b < times.len(),
        forall|k: int| 0 <= k < times.len() ==> #[trigger] times[k] != initial,
        forall|j: int, k: int| 0 <= j < k < times.len() ==> times[j] != times[k],
    ensures
        handed_back(initial, times)[a] != handed_back(initial, times)[b],
{
    lemma_each_time_is_handed_back_once(initial, times);
}

/// The intervals of a run of exchanges add up to the time from the initial
/// time to the last: no second is counted twice and none is left out.
pub proof fn lemma_intervals_add_up(initial: i64, times: Seq<i64>)
    ensures
        intervals_total(initial, times) == held_after(initial, times) - initial,
    decreases times.len(),
{
    if times.len() > 0 {
        lemma_intervals_add_up(initial, times.drop_last());
    }
}

} // verus!
