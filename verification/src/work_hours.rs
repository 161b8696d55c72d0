//! The global work hours.

use crate::errors::FelixError;
use crate::time_interval::{spec_duration, TimeInterval};
use crate::work_intervals::{intervals_view, overlaps_any, sum_durations, WorkIntervals};
use vstd::prelude::*;

verus! {

/// Contains work hours represented as time intervals.
/// Stays sorted by ascending order and prevents work intervals from overlapping.
#[derive(Debug, PartialEq, Eq)]
pub struct WorkHours {
    global_work_intervals: WorkIntervals,
}

impl Clone for WorkHours {
    fn clone(&self) -> (r: Self)
        ensures
            r@ == self@,
            r.wf() == self.wf(),
    {
        WorkHours { global_work_intervals: self.global_work_intervals.clone() }
    }
}

impl View for WorkHours {
    type V = Seq<(int, int)>;

    closed spec fn view(&self) -> Seq<(int, int)> {
        self.global_work_intervals@
    }
}

impl WorkHours {
    /// Well-formedness: the intervals are sorted and do not overlap.
    pub closed spec fn wf(&self) -> bool {
        self.global_work_intervals.wf()
    }

    /// The well-formed work hours are ordered.
    pub proof fn lemma_wf(&self)
        requires
            self.wf(),
        ensures
            crate::work_intervals::intervals_ordered(self@),
    {
    }

    /// Creates new work hours.
    pub fn new() -> (w: WorkHours)
        ensures
            w@ == Seq::<(int, int)>::empty(),
            w.wf(),
    {
        WorkHours { global_work_intervals: WorkIntervals::new() }
    }

    /// Returns immutable reference to the work hours.
    pub fn work_intervals(&self) -> (r: &Vec<TimeInterval>)
        ensures
            intervals_view(r@) == self@,
    {
        self.global_work_intervals.work_intervals()
    }

    /// The underlying collection of intervals.
    pub fn intervals(&self) -> (r: &WorkIntervals)
        ensures
            r@ == self@,
            self.wf() ==> r.wf(),
    {
        &self.global_work_intervals
    }

    /// Adds the given time interval to the work hours.
    ///
    /// Returns Err if the interval overlaps with the current work intervals.
    pub fn add_work_interval(&mut self, interval: TimeInterval) -> (r: Result<(), FelixError>)
        requires
            old(self).wf(),
            interval.wf(),
        ensures
            final(self).wf(),
            r is Ok <==> !overlaps_any(old(self)@, interval@),
            r is Ok ==> final(self)@.to_set() == old(self)@.to_set().insert(interval@)
                && final(self)@.len() == old(self)@.len() + 1
                && sum_durations(final(self)@) == sum_durations(old(self)@) + spec_duration(interval@),
            r matches Err(e) ==> e is IntervalOverlaps && final(self)@ == old(self)@,
    {
        self.global_work_intervals.add_work_interval(interval)
    }

    /// Removes the given interval.
    ///
    /// Returns Err if the interval was not found.
    pub fn remove_work_interval(&mut self, interval: TimeInterval) -> (r: Result<(), FelixError>)
        requires
            old(self).wf(),
        ensures
            final(self).wf(),
            r is Ok <==> old(self)@.contains(interval@),
            r is Ok ==> final(self)@.to_set() == old(self)@.to_set().remove(interval@)
                && final(self)@.len() + 1 == old(self)@.len()
                && sum_durations(final(self)@) + spec_duration(interval@) == sum_durations(old(self)@),
            r matches Err(e) ==> e matches FelixError::DoesNotExist(d) && *d
                == crate::errors::does_not_exist::DoesNotExist::Interval(interval)
                && final(self)@ == old(self)@,
    {
        self.global_work_intervals.remove_work_interval(interval)
    }

    /// Changes the given interval.
    ///
    /// Returns Err if the interval was not found or if the new interval overlaps with
    /// the work hours.
    pub fn update_work_interval(
        &mut self,
        old_interval: TimeInterval,
        new_interval: TimeInterval,
    ) -> (r: Result<(), FelixError>)
        requires
            old(self).wf(),
            new_interval.wf(),
        ensures
            final(self).wf(),
            r is Ok <==> old(self)@.contains(old_interval@) && !overlaps_any(
                old(self)@.remove(old(self)@.index_of(old_interval@)),
                new_interval@,
            ),
            r is Ok ==> final(self)@.to_set() == old(self)@.to_set().remove(old_interval@).insert(
                new_interval@,
            ) && final(self)@.len() == old(self)@.len() && sum_durations(final(self)@)
                + spec_duration(old_interval@) == sum_durations(old(self)@) + spec_duration(
                new_interval@,
            ),
            r is Err ==> final(self)@ == old(self)@,
            r matches Err(e) ==> if old(self)@.contains(old_interval@) {
                e is IntervalOverlaps
            } else {
                e matches FelixError::DoesNotExist(d) && *d
                    == crate::errors::does_not_exist::DoesNotExist::Interval(old_interval)
            },
    {
        self.global_work_intervals.update_work_interval(old_interval, new_interval)
    }
}

} // verus!
