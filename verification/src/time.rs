//! Times and durations, counted in milliseconds.
use vstd::prelude::*;

verus! {

/// A duration (or a point on a run's clock) in milliseconds.
#[derive(Clone, Copy, PartialEq, Eq, Structural, Debug)]
pub struct Time {
    pub stamp: u64,
}

/// The sum of the stamps of a sequence of times.
pub open spec fn sum_times(s: Seq<Time>) -> nat
    decreases s.len(),
{
    if s.len() == 0 {
        0
    } else {
        sum_times(s.drop_last()) + s.last().stamp as nat
    }
}

impl Time {
    /// The zero duration.
    pub fn new() -> (t: Time)
        ensures
            t.stamp == 0,
    {
        Time { stamp: 0 }
    }

    /// A time of `stamp` milliseconds.
    pub fn from_stamp(stamp: u64) -> (t: Time)
        ensures
            t.stamp == stamp,
    {
        Time { stamp }
    }

    /// The number of milliseconds.
    pub fn get_stamp(&self) -> (s: u64)
        ensures
            s == self.stamp,
    {
        self.stamp
    }

    /// The sum of two durations.
    pub fn add(self, other: Time) -> (t: Time)
        requires
            self.stamp + other.stamp <= u64::MAX,
        ensures
            t.stamp == self.stamp + other.stamp,
    {
        Time { stamp: self.stamp + other.stamp }
    }

    /// The difference of two durations, the larger first.
    pub fn sub(self, other: Time) -> (t: Time)
        requires
            other.stamp <= self.stamp,
        ensures
            t.stamp == self.stamp - other.stamp,
    {
        Time { stamp: self.stamp - other.stamp }
    }

    /// The larger of two times.
    pub fn max(self, other: Time) -> (t: Time)
        ensures
            t.stamp == if self.stamp >= other.stamp { self.stamp } else { other.stamp },
    {
        if self.stamp >= other.stamp { self } else { other }
    }

    /// The smaller of two times.
    pub fn min(self, other: Time) -> (t: Time)
        ensures
            t.stamp == if self.stamp <= other.stamp { self.stamp } else { other.stamp },
    {
        if self.stamp <= other.stamp { self } else { other }
    }
}

/// A sum of times is at least each of them.
pub proof fn lemma_sum_times_ge(s: Seq<Time>, i: int)
    requires
        0 <= i < s.len(),
    ensures
        s[i].stamp <= sum_times(s),
    decreases s.len(),
{
    if i < s.len() - 1 {
        lemma_sum_times_ge(s.drop_last(), i);
    }
}

/// The sum over a prefix one longer adds the next time.
pub proof fn lemma_sum_times_take(s: Seq<Time>, i: int)
    requires
        0 <= i < s.len(),
    ensures
        sum_times(s.take(i + 1)) == sum_times(s.take(i)) + s[i].stamp,
{
    assert(s.take(i + 1).drop_last() =~= s.take(i));
}

/// The sum over a prefix is at most the sum over the whole.
pub proof fn lemma_sum_times_prefix(s: Seq<Time>, i: int)
    requires
        0 <= i <= s.len(),
    ensures
        sum_times(s.take(i)) <= sum_times(s),
    decreases s.len() - i,
{
    if i < s.len() {
        lemma_sum_times_prefix(s, i + 1);
        lemma_sum_times_take(s, i);
    } else {
        assert(s.take(i) =~= s);
    }
}

} // verus!
