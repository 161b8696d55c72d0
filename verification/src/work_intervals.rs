//! Sorted collections of work intervals which never overlap.

use crate::errors::does_not_exist::DoesNotExist;
use crate::errors::FelixError;
use crate::time::Time;
use crate::time_interval::{spec_duration, spec_interval_wf, spec_overlaps, TimeInterval};
use vstd::prelude::*;

verus! {

/// The intervals are well formed, sorted by ascending order and do not overlap.
pub open spec fn intervals_ordered(s: Seq<(int, int)>) -> bool {
    &&& forall|i: int| 0 <= i < s.len() ==> spec_interval_wf(#[trigger] s[i])
    &&& forall|i: int, j: int| 0 <= i < j < s.len() ==> (#[trigger] s[i]).1 <= (#[trigger] s[j]).0
}

/// Some interval of the sequence overlaps with the given one.
pub open spec fn overlaps_any(s: Seq<(int, int)>, x: (int, int)) -> bool {
    exists|i: int| 0 <= i < s.len() && spec_overlaps(#[trigger] s[i], x)
}

/// The sum of the durations of the intervals, in minutes.
pub open spec fn sum_durations(s: Seq<(int, int)>) -> int
    decreases s.len(),
{
    if s.len() == 0 {
        0
    } else {
        sum_durations(s.drop_last()) + spec_duration(s.last())
    }
}

/// The view of a vector of intervals: their beginnings and ends in minutes.
pub open spec fn intervals_view(v: Seq<TimeInterval>) -> Seq<(int, int)> {
    v.map_values(|t: TimeInterval| t@)
}

/// The total duration of ordered intervals lies between 0 and the span from the first
/// beginning to the last end.
pub proof fn lemma_sum_durations_bounds(s: Seq<(int, int)>)
    requires
        intervals_ordered(s),
    ensures
        0 <= sum_durations(s),
        s.len() > 0 ==> sum_durations(s) <= s.last().1 - s[0].0,
        s.len() == 0 ==> sum_durations(s) == 0,
    decreases s.len(),
{
    if s.len() > 0 {
        let t = s.drop_last();
        assert(intervals_ordered(t)) by {
            assert forall|i: int| 0 <= i < t.len() implies spec_interval_wf(#[trigger] t[i]) by {
                assert(t[i] == s[i]);
            }
            assert forall|i: int, j: int| 0 <= i < j < t.len() implies (#[trigger] t[i]).1 <= (
            #[trigger] t[j]).0 by {
                assert(t[i] == s[i] && t[j] == s[j]);
            }
        }
        lemma_sum_durations_bounds(t);
        assert(spec_interval_wf(s[s.len() - 1]));
        if t.len() > 0 {
            assert(t.last() == s[s.len() - 2]);
            assert(s[s.len() - 2].1 <= s[s.len() - 1].0);
            assert(t[0] == s[0]);
        }
    }
}

/// The sum of durations does not depend on the order of the intervals: it only depends on
/// the multiset of intervals.
pub proof fn lemma_sum_durations_remove(s: Seq<(int, int)>, p: int)
    requires
        0 <= p < s.len(),
    ensures
        sum_durations(s) == sum_durations(s.remove(p)) + spec_duration(s[p]),
    decreases s.len(),
{
    if p == s.len() - 1 {
        assert(s.remove(p) =~= s.drop_last());
    } else {
        let t = s.drop_last();
        lemma_sum_durations_remove(t, p);
        assert(s.remove(p).drop_last() =~= t.remove(p));
        assert(s.remove(p).last() == s.last());
    }
}

/// Inserting an interval adds its duration to the sum.
pub proof fn lemma_sum_durations_insert(s: Seq<(int, int)>, p: int, x: (int, int))
    requires
        0 <= p <= s.len(),
    ensures
        sum_durations(s.insert(p, x)) == sum_durations(s) + spec_duration(x),
{
    lemma_sum_durations_remove(s.insert(p, x), p);
    assert(s.insert(p, x).remove(p) =~= s);
}

/// Sorted collection of work intervals which do not overlap.
#[derive(Debug, PartialEq, Eq, Hash)]
pub struct WorkIntervals {
    intervals: Vec<TimeInterval>,
}

impl Clone for WorkIntervals {
    fn clone(&self) -> (r: Self)
        ensures
            r@ == self@,
    {
        let mut v: Vec<TimeInterval> = Vec::new();
        let mut i: usize = 0;
        while i < self.intervals.len()
            invariant
                i <= self.intervals@.len(),
                v@ == self.intervals@.take(i as int),
            decreases self.intervals@.len() - i,
        {
            v.push(self.intervals[i]);
            i = i + 1;
            assert(v@ =~= self.intervals@.take(i as int));
        }
        assert(self.intervals@.take(i as int) =~= self.intervals@);
        WorkIntervals { intervals: v }
    }
}

impl View for WorkIntervals {
    type V = Seq<(int, int)>;

    closed spec fn view(&self) -> Seq<(int, int)> {
        intervals_view(self.intervals@)
    }
}

impl WorkIntervals {
    /// Well-formedness: the intervals are sorted and do not overlap.
    pub open spec fn wf(&self) -> bool {
        intervals_ordered(self@)
    }

    /// Creates an empty collection.
    pub fn new() -> (w: WorkIntervals)
        ensures
            w@ == Seq::<(int, int)>::empty(),
            w.wf(),
    {
        let w = WorkIntervals { intervals: Vec::new() };
        assert(w@ =~= Seq::<(int, int)>::empty());
        w
    }

    /// Immutable access to the intervals, sorted by ascending order.
    pub fn work_intervals(&self) -> (r: &Vec<TimeInterval>)
        ensures
            intervals_view(r@) == self@,
    {
        &self.intervals
    }

    /// Consumes the collection and returns its intervals.
    pub fn intervals_vec(self) -> (r: Vec<TimeInterval>)
        ensures
            intervals_view(r@) == self@,
    {
        self.intervals
    }

    /// The number of intervals.
    pub fn len(&self) -> (n: usize)
        ensures
            n == self@.len(),
    {
        self.intervals.len()
    }

    /// True if there is no interval.
    pub fn is_empty(&self) -> (b: bool)
        ensures
            b == (self@.len() == 0),
    {
        self.intervals.len() == 0
    }

    /// Returns the position of the given interval, if it is present.
    pub fn position_of(&self, interval: &TimeInterval) -> (r: Option<usize>)
        ensures
            match r {
                Some(i) => i < self@.len() && self@[i as int] == interval@,
                None => !self@.contains(interval@),
            },
    {
        let mut i: usize = 0;
        while i < self.intervals.len()
            invariant
                i <= self@.len(),
                self@.len() == self.intervals@.len(),
                forall|k: int| 0 <= k < i ==> self@[k] != interval@,
            decreases self@.len() - i,
        {
            if self.intervals[i].same_as(interval) {
                return Some(i);
            }
            i = i + 1;
        }
        None
    }

    /// True if the given interval is one of the work intervals.
    pub fn contains(&self, interval: &TimeInterval) -> (b: bool)
        ensures
            b == self@.contains(interval@),
    {
        self.position_of(interval).is_some()
    }

    /// The sum of the durations of the intervals.
    pub fn total_duration(&self) -> (t: Time)
        requires
            self.wf(),
        ensures
            t@ == sum_durations(self@),
            0 <= t@ <= 15359,
    {
        let mut total: Time = Time::zero();
        let mut i: usize = 0;
        proof {
            lemma_sum_durations_bounds(self@);
        }
        while i < self.intervals.len()
            invariant
                self.wf(),
                i <= self@.len(),
                self@.len() == self.intervals@.len(),
                total@ == sum_durations(self@.take(i as int)),
            decreases self@.len() - i,
        {
            proof {
                assert(self@.take(i + 1).drop_last() =~= self@.take(i as int));
                assert(intervals_ordered(self@.take(i + 1))) by {
                    let t = self@.take(i + 1);
                    assert forall|a: int| 0 <= a < t.len() implies spec_interval_wf(#[trigger] t[a]) by {
                        assert(t[a] == self@[a]);
                    }
                    assert forall|a: int, b: int| 0 <= a < b < t.len() implies (#[trigger] t[a]).1
                        <= (#[trigger] t[b]).0 by {
                        assert(t[a] == self@[a] && t[b] == self@[b]);
                    }
                }
                lemma_sum_durations_bounds(self@.take(i + 1));
                assert(self@[i as int] == self.intervals@[i as int]@);
                assert(spec_interval_wf(self@[i as int]));
                assert(self@.take(i + 1)[0] == self@[0]);
                assert(self@.take(i + 1).last() == self@[i as int]);
            }
            let d = self.intervals[i].duration();
            total = total.add(d);
            i = i + 1;
        }
        assert(self@.take(self@.len() as int) =~= self@);
        proof {
            if self@.len() > 0 {
                assert(spec_interval_wf(self@[0]));
                assert(spec_interval_wf(self@.last()));
            }
        }
        total
    }

    /// Adds the given time interval, keeping the intervals sorted.
    ///
    /// Returns Err if the interval overlaps with one of the work intervals.
    pub fn add_work_interval(&mut self, interval: TimeInterval) -> (r: Result<(), FelixError>)
        requires
            old(self).wf(),
            interval.wf(),
        ensures
            final(self).wf(),
            r is Ok <==> !overlaps_any(old(self)@, interval@),
            r is Ok ==> final(self)@.to_set() == old(self)@.to_set().insert(interval@)
                && final(self)@.len() == old(self)@.len() + 1
                && sum_durations(final(self)@) == sum_durations(old(self)@) + spec_duration(interval@),
            r matches Err(e) ==> e is IntervalOverlaps && final(self)@ == old(self)@,
    {
        let ghost s = self@;
        let mut i: usize = 0;
        while i < self.intervals.len()
            invariant
                s == self@,
                intervals_ordered(s),
                i <= s.len(),
                s.len() == self.intervals@.len(),
                forall|k: int| 0 <= k < i ==> !spec_overlaps(#[trigger] s[k], interval@),
            decreases s.len() - i,
        {
            if self.intervals[i].overlaps_with(&interval) {
                assert(spec_overlaps(s[i as int], interval@));
                return Err(FelixError::IntervalOverlaps);
            }
            i = i + 1;
        }
        let mut p: usize = 0;
        while p < self.intervals.len() && !self.intervals[p].end().is_after(&interval.beginning())
            invariant
                s == self@,
                intervals_ordered(s),
                p <= s.len(),
                s.len() == self.intervals@.len(),
                forall|k: int| 0 <= k < p ==> (#[trigger] s[k]).1 <= interval@.0,
            decreases s.len() - p,
        {
            p = p + 1;
        }
        self.intervals.insert(p, interval);
        proof {
            assert(self@ =~= s.insert(p as int, interval@));
            let t = self@;
            assert forall|a: int, b: int| 0 <= a < b < t.len() implies (#[trigger] t[a]).1 <= (
            #[trigger] t[b]).0 by {
                if p < s.len() {
                    assert(!spec_overlaps(s[p as int], interval@));
                    assert(s[p as int].1 > interval@.0);
                    assert(s[p as int].0 >= interval@.1);
                }
                if b < p {
                } else if b == p {
                } else if a < p {
                    assert(s[b - 1].0 >= interval@.1);
                } else if a == p {
                    if b - 1 > p {
                        assert(s[p as int].1 <= s[b - 1].0);
                    }
                    assert(spec_interval_wf(s[p as int]));
                } else {
                }
            }
            assert(t.to_set() =~= s.to_set().insert(interval@)) by {
                assert forall|x: (int, int)| s.to_set().insert(interval@).contains(x) implies t.to_set().contains(x) by {
                    if s.contains(x) {
                        let k = choose|k: int| 0 <= k < s.len() && s[k] == x;
                        if k < p {
                            assert(t[k] == x);
                        } else {
                            assert(t[k + 1] == x);
                        }
                    }
                    if x == interval@ {
                        assert(t[p as int] == x);
                    }
                }
            }
            lemma_sum_durations_insert(s, p as int, interval@);
        }
        Ok(())
    }

    /// Removes the given interval.
    ///
    /// Returns Err if the interval is not found.
    pub fn remove_work_interval(&mut self, interval: TimeInterval) -> (r: Result<(), FelixError>)
        requires
            old(self).wf(),
        ensures
            final(self).wf(),
            r is Ok <==> old(self)@.contains(interval@),
            r is Ok ==> final(self)@.to_set() == old(self)@.to_set().remove(interval@)
                && final(self)@.len() + 1 == old(self)@.len()
                && sum_durations(final(self)@) + spec_duration(interval@) == sum_durations(old(self)@),
            r matches Err(e) ==> e matches FelixError::DoesNotExist(d) && *d
                == DoesNotExist::Interval(interval) && final(self)@ == old(self)@,
    {
        match self.position_of(&interval) {
            None => Err(FelixError::DoesNotExist(DoesNotExist::interval_does_not_exist(interval))),
            Some(p) => {
                let ghost s = self@;
                self.intervals.remove(p);
                proof {
                    assert(self@ =~= s.remove(p as int));
                    Self::lemma_remove_keeps_order(s, p as int);
                    lemma_sum_durations_remove(s, p as int);
                }
                Ok(())
            },
        }
    }

    /// Removing an interval keeps the others ordered and removes it from the set.
    proof fn lemma_remove_keeps_order(s: Seq<(int, int)>, p: int)
        requires
            intervals_ordered(s),
            0 <= p < s.len(),
        ensures
            intervals_ordered(s.remove(p)),
            s.remove(p).to_set() == s.to_set().remove(s[p]),
    {
        let t = s.remove(p);
        assert forall|a: int, b: int| 0 <= a < b < t.len() implies (#[trigger] t[a]).1 <= (
        #[trigger] t[b]).0 by {
            if b < p {
            } else if a < p {
                assert(t[b] == s[b + 1]);
            } else {
                assert(t[a] == s[a + 1]);
                assert(t[b] == s[b + 1]);
            }
        }
        assert forall|a: int| 0 <= a < t.len() implies spec_interval_wf(#[trigger] t[a]) by {
            if a < p {
            } else {
                assert(t[a] == s[a + 1]);
            }
        }
        assert(t.to_set() =~= s.to_set().remove(s[p])) by {
            assert forall|x: (int, int)| #[trigger] t.to_set().contains(x) <==> s.to_set().remove(s[p]).contains(x) by {
                if t.contains(x) {
                    let k = choose|k: int| 0 <= k < t.len() && t[k] == x;
                    if k < p {
                        assert(s[k] == x);
                        assert(s[k].1 <= s[p].0);
                        assert(spec_interval_wf(s[k]));
                    } else {
                        assert(s[k + 1] == x);
                        assert(s[p].1 <= s[k + 1].0);
                        assert(spec_interval_wf(s[p]));
                    }
                }
                if s.contains(x) && x != s[p] {
                    let k = choose|k: int| 0 <= k < s.len() && s[k] == x;
                    if k < p {
                        assert(t[k] == x);
                    } else {
                        assert(t[k - 1] == x);
                    }
                }
            }
        }
    }

    /// Replaces the old interval by the new one.
    ///
    /// Returns Err if the old interval is not found or if the new one overlaps with the other
    /// work intervals. The work intervals are then left unchanged.
    pub fn update_work_interval(
        &mut self,
        old_interval: TimeInterval,
        new_interval: TimeInterval,
    ) -> (r: Result<(), FelixError>)
        requires
            old(self).wf(),
            new_interval.wf(),
        ensures
            final(self).wf(),
            r is Ok <==> old(self)@.contains(old_interval@) && !overlaps_any(
                old(self)@.remove(old(self)@.index_of(old_interval@)),
                new_interval@,
            ),
            r is Ok ==> final(self)@.to_set() == old(self)@.to_set().remove(old_interval@).insert(
                new_interval@,
            ) && final(self)@.len() == old(self)@.len() && sum_durations(final(self)@)
                + spec_duration(old_interval@) == sum_durations(old(self)@) + spec_duration(
                new_interval@,
            ),
            r is Err ==> final(self)@ == old(self)@,
            r matches Err(e) ==> if old(self)@.contains(old_interval@) {
                e is IntervalOverlaps
            } else {
                e matches FelixError::DoesNotExist(d) && *d == DoesNotExist::Interval(old_interval)
            },
    {
        let ghost s = self@;
        match self.position_of(&old_interval) {
            None => Err(
                FelixError::DoesNotExist(DoesNotExist::interval_does_not_exist(old_interval)),
            ),
            Some(p) => {
                proof {
                    Self::lemma_index_of_ordered(s, p as int);
                }
                let removed = self.intervals.remove(p);
                proof {
                    assert(self@ =~= s.remove(p as int));
                    Self::lemma_remove_keeps_order(s, p as int);
                    lemma_sum_durations_remove(s, p as int);
                }
                let ghost t = self@;
                match self.add_work_interval(new_interval) {
                    Ok(()) => {
                        proof {
                            assert(self@.to_set() =~= s.to_set().remove(old_interval@).insert(
                                new_interval@,
                            ));
                        }
                        Ok(())
                    },
                    Err(e) => {
                        proof {
                            assert(removed@ == s[p as int]);
                        }
                        self.intervals.insert(p, removed);
                        proof {
                            assert(self@ =~= t.insert(p as int, removed@));
                            assert(self@ =~= s);
                        }
                        Err(e)
                    },
                }
            },
        }
    }

    /// In ordered intervals, an interval is found at a unique position.
    proof fn lemma_index_of_ordered(s: Seq<(int, int)>, p: int)
        requires
            intervals_ordered(s),
            0 <= p < s.len(),
        ensures
            s.index_of(s[p]) == p,
    {
        assert(s.contains(s[p]));
        let q = s.index_of(s[p]);
        assert(s[q] == s[p]);
        if q < p {
            assert(s[q].1 <= s[p].0);
            assert(spec_interval_wf(s[p]));
        } else if q > p {
            assert(s[p].1 <= s[q].0);
            assert(spec_interval_wf(s[p]));
        }
    }
}

} // verus!

verus! {

/// Work intervals are kept sorted: the order in which intervals are added does not matter,
/// two ordered sequences of intervals holding the same intervals are equal.
pub proof fn lemma_ordered_intervals_unique(s1: Seq<(int, int)>, s2: Seq<(int, int)>)
    requires
        intervals_ordered(s1),
        intervals_ordered(s2),
        s1.to_set() == s2.to_set(),
    ensures
        s1 == s2,
    decreases s1.len(),
{
    if s1.len() == 0 {
        if s2.len() > 0 {
            assert(s2.to_set().contains(s2[0]));
        }
        assert(s1 =~= s2);
    } else {
        assert(s1.to_set().contains(s1[0]));
        assert(s2.to_set().contains(s1[0]));
        let j = choose|j: int| 0 <= j < s2.len() && s2[j] == s1[0];
        assert(s2.to_set().contains(s2[0]));
        let i = choose|i: int| 0 <= i < s1.len() && s1[i] == s2[0];
        // The first interval of each sequence is the first one of the other.
        if j > 0 {
            assert(s2[0].1 <= s2[j].0);
            if i > 0 {
                assert(s1[0].1 <= s1[i].0);
            }
            assert(false);
        }
        let t1 = s1.drop_first();
        let t2 = s2.drop_first();
        assert forall|x: (int, int)| #[trigger] t1.to_set().contains(x) <==> t2.to_set().contains(x) by {
            if t1.to_set().contains(x) {
                let a = choose|a: int| 0 <= a < t1.len() && t1[a] == x;
                assert(s1[a + 1] == x);
                assert(s1.to_set().contains(x));
                let b = choose|b: int| 0 <= b < s2.len() && s2[b] == x;
                if b == 0 {
                    assert(s1[0].1 <= s1[a + 1].0);
                    assert(spec_interval_wf(s1[0]));
                }
                assert(t2[b - 1] == x);
            }
            if t2.to_set().contains(x) {
                let a = choose|a: int| 0 <= a < t2.len() && t2[a] == x;
                assert(s2[a + 1] == x);
                assert(s2.to_set().contains(x));
                let b = choose|b: int| 0 <= b < s1.len() && s1[b] == x;
                if b == 0 {
                    assert(s2[0].1 <= s2[a + 1].0);
                    assert(spec_interval_wf(s2[0]));
                }
                assert(t1[b - 1] == x);
            }
        }
        assert(t1.to_set() =~= t2.to_set());
        lemma_ordered_intervals_unique(t1, t2);
        assert(s1[0] == s2[0]);
        assert(s1 =~= seq![s1[0]] + t1);
        assert(s2 =~= seq![s2[0]] + t2);
    }
}

} // verus!

verus! {

/// Adding a work interval, then removing it, gives back the same work intervals: `added` holds
/// what `add_work_interval` makes of `before`, `removed` what `remove_work_interval` makes of
/// `added`.
pub proof fn lemma_add_then_remove_interval(
    before: Seq<(int, int)>,
    added: Seq<(int, int)>,
    removed: Seq<(int, int)>,
    x: (int, int),
)
    requires
        intervals_ordered(before),
        intervals_ordered(added),
        intervals_ordered(removed),
        spec_interval_wf(x),
        !overlaps_any(before, x),
        added.to_set() == before.to_set().insert(x),
        removed.to_set() == added.to_set().remove(x),
    ensures
        removed == before,
{
    assert(!before.to_set().contains(x)) by {
        if before.to_set().contains(x) {
            let i = choose|i: int| 0 <= i < before.len() && before[i] == x;
            assert(spec_overlaps(before[i], x));
        }
    }
    assert(removed.to_set() =~= before.to_set());
    lemma_ordered_intervals_unique(removed, before);
}

} // verus!
