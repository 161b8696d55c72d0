//! Time intervals: a beginning and an end.

use crate::time::{time_in_range, Time, MIN_TIME_DISCRETIZATION_MINUTES};
use core::cmp::Ordering;
use vstd::prelude::*;

verus! {

/// Time interval: a beginning and an end.
///
/// For simplicity reasons, this structure is not modifiable.
/// A well-formed interval lasts at least `MIN_TIME_DISCRETIZATION_MINUTES`.
/// Intervals are ordered by their beginnings.
#[derive(Debug, Clone, Copy, PartialEq, Eq, Hash, Structural)]
pub struct TimeInterval {
    beginning: Time,
    end: Time,
}

impl View for TimeInterval {
    type V = (int, int);

    /// The beginning and the end, in minutes.
    closed spec fn view(&self) -> (int, int) {
        (self.beginning@, self.end@)
    }
}

/// True if the two intervals (given in minutes) overlap.
pub open spec fn spec_overlaps(a: (int, int), b: (int, int)) -> bool {
    a.0 < b.1 && a.1 > b.0
}

/// True if the first interval (given in minutes) contains the second one.
pub open spec fn spec_contains_interval(a: (int, int), b: (int, int)) -> bool {
    a.0 <= b.0 && a.1 >= b.1
}

/// An interval (given in minutes) is long enough and its ends are valid times.
pub open spec fn spec_interval_wf(a: (int, int)) -> bool {
    a.1 - a.0 >= MIN_TIME_DISCRETIZATION_MINUTES && time_in_range(a.0) && time_in_range(a.1)
}

/// The duration of an interval given in minutes.
pub open spec fn spec_duration(a: (int, int)) -> int {
    a.1 - a.0
}

impl TimeInterval {
    /// Well-formedness: the interval is long enough and its ends are valid times.
    pub open spec fn wf(self) -> bool {
        spec_interval_wf(self@)
    }

    /// Two intervals are equal exactly when their views are.
    pub proof fn lemma_view_eq(a: TimeInterval, b: TimeInterval)
        ensures
            (a@ == b@) <==> a == b,
    {
        Time::lemma_view_eq(a.beginning, b.beginning);
        Time::lemma_view_eq(a.end, b.end);
    }

    /// Creates a new TimeInterval.
    ///
    /// The interval must last at least `MIN_TIME_DISCRETIZATION_MINUTES`
    /// (which also means that the beginning comes before the end).
    pub fn new(beginning: Time, end: Time) -> (t: TimeInterval)
        requires
            end@ - beginning@ >= MIN_TIME_DISCRETIZATION_MINUTES,
            beginning.wf(),
            end.wf(),
        ensures
            t@ == (beginning@, end@),
            t.wf(),
            t.beginning() == beginning,
            t.end() == end,
    {
        TimeInterval { beginning, end }
    }

    /// Simple getter for the beginning.
    #[verifier::when_used_as_spec(spec_beginning)]
    pub fn beginning(&self) -> (t: Time)
        ensures
            t@ == self@.0,
            t == self.beginning(),
    {
        self.beginning
    }

    /// The beginning, in specifications.
    pub closed spec fn spec_beginning(&self) -> Time {
        self.beginning
    }

    /// Simple getter for the end.
    #[verifier::when_used_as_spec(spec_end)]
    pub fn end(&self) -> (t: Time)
        ensures
            t@ == self@.1,
            t == self.end(),
    {
        self.end
    }

    /// The end, in specifications.
    pub closed spec fn spec_end(&self) -> Time {
        self.end
    }

    /// Calculates and returns the duration.
    pub fn duration(&self) -> (t: Time)
        requires
            self.wf(),
        ensures
            t@ == spec_duration(self@),
    {
        self.end.sub(self.beginning)
    }

    /// Returns true if the time intervals overlap with each other.
    pub fn overlaps_with(&self, other: &TimeInterval) -> (b: bool)
        ensures
            b == spec_overlaps(self@, other@),
    {
        self.beginning.is_before(&other.end) && self.end.is_after(&other.beginning)
    }

    /// Returns true if the time interval contains the given time.
    pub fn contains(&self, time: Time) -> (b: bool)
        ensures
            b == (self@.0 <= time@ && time@ < self@.1),
    {
        !time.is_before(&self.beginning) && self.end.is_after(&time)
    }

    /// Returns true if the time interval contains the other time interval.
    pub fn contains_interval(&self, interval: TimeInterval) -> (b: bool)
        ensures
            b == spec_contains_interval(self@, interval@),
            b <==> self@.0 <= interval@.0 && interval@.1 <= self@.1,
    {
        !interval.beginning.is_before(&self.beginning) && !self.end.is_before(&interval.end)
    }

    /// True if both intervals are the same.
    pub fn same_as(&self, other: &TimeInterval) -> (b: bool)
        ensures
            b == (self@ == other@),
            b == (*self == *other),
    {
        self.beginning.same_as(&other.beginning) && self.end.same_as(&other.end)
    }
}

impl PartialOrd for TimeInterval {
    /// Compares the beginnings of the intervals.
    fn partial_cmp(&self, other: &Self) -> (r: Option<Ordering>) {
        if self.beginning.is_before(&other.beginning) {
            Some(Ordering::Less)
        } else if other.beginning.is_before(&self.beginning) {
            Some(Ordering::Greater)
        } else {
            Some(Ordering::Equal)
        }
    }
}

impl vstd::std_specs::cmp::PartialOrdSpecImpl for TimeInterval {
    open spec fn obeys_partial_cmp_spec() -> bool {
        true
    }

    open spec fn partial_cmp_spec(&self, other: &Self) -> Option<Ordering> {
        if self@.0 < other@.0 {
            Some(Ordering::Less)
        } else if other@.0 < self@.0 {
            Some(Ordering::Greater)
        } else {
            Some(Ordering::Equal)
        }
    }
}

/// An interval contains exactly the intervals which begin no earlier and end no later than it:
/// itself among them, and every interval which begins at its beginning and ends before its end.
pub proof fn lemma_contains_interval(a: TimeInterval, b: TimeInterval)
    ensures
        spec_contains_interval(a@, b@) <==> a@.0 <= b@.0 && b@.1 <= a@.1,
        spec_contains_interval(a@, a@),
        a@.0 == b@.0 && b@.1 <= a@.1 ==> spec_contains_interval(a@, b@),
{
}

} // verus!
