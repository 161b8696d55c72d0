//! Computation-related data of an activity: duration, insertion, conflicts and insertion
//! costs.

use crate::activity_metadata::ActivityId;
use crate::time::{time_in_range, Time, MIN_TIME_DISCRETIZATION_MINUTES};
use crate::time_interval::{spec_interval_wf, TimeInterval};
use vstd::prelude::*;

verus! {

/// Simple struct holding an insertion time and its cost.
#[derive(Debug, PartialEq, Eq, Clone, Copy, Structural)]
pub struct InsertionCost {
    pub beginning: Time,
    pub cost: usize,
}

/// The insertion costs are sorted by strictly ascending beginning: one cost per beginning.
pub open spec fn costs_sorted(s: Seq<InsertionCost>) -> bool {
    forall|i: int, j: int| 0 <= i < j < s.len() ==> (#[trigger] s[i]).beginning@ < (
    #[trigger] s[j]).beginning@
}

/// One of the insertion costs has the given beginning.
pub open spec fn costs_contain_beginning(c: Seq<InsertionCost>, t: int) -> bool {
    exists|i: int| 0 <= i < c.len() && (#[trigger] c[i]).beginning@ == t
}

/// The abstract value of the computation data of an activity.
pub struct ComputationDataView {
    pub duration: int,
    pub insertion_interval: Option<(int, int)>,
    pub insertion_costs: Option<Seq<InsertionCost>>,
    pub incompatible_activity_ids: Seq<ActivityId>,
}

/// A valid duration for an activity: long enough, and a valid time.
pub open spec fn duration_wf(d: int) -> bool {
    MIN_TIME_DISCRETIZATION_MINUTES <= d && time_in_range(d)
}

/// Holds computation-related data : duration, insertion interval if inserted,
/// incompatible activities, possible insertion times.
/// Two computation data are equal when their durations, insertions and incompatible
/// activities are: the insertion costs, computed apart, are not compared.
#[derive(Debug)]
pub struct ActivityComputationData {
    duration: Time,
    insertion_interval: Option<TimeInterval>,
    /// None means not computed yet (invalidated). Some means up to date.
    insertion_costs: Option<Vec<InsertionCost>>,
    incompatible_activity_ids: Vec<ActivityId>,
}

impl View for ActivityComputationData {
    type V = ComputationDataView;

    closed spec fn view(&self) -> ComputationDataView {
        ComputationDataView {
            duration: self.duration@,
            insertion_interval: match self.insertion_interval {
                Some(i) => Some(i@),
                None => None,
            },
            insertion_costs: match self.insertion_costs {
                Some(v) => Some(v@),
                None => None,
            },
            incompatible_activity_ids: self.incompatible_activity_ids@,
        }
    }
}

/// The durations, insertions and incompatible activities are the same.
pub open spec fn same_computation_data(a: ComputationDataView, b: ComputationDataView) -> bool {
    a.duration == b.duration && a.insertion_interval == b.insertion_interval
        && a.incompatible_activity_ids == b.incompatible_activity_ids
}

fn same_ids(a: &Vec<ActivityId>, b: &Vec<ActivityId>) -> (r: bool)
    ensures
        r == (a@ == b@),
{
    if a.len() != b.len() {
        return false;
    }
    let mut i: usize = 0;
    while i < a.len()
        invariant
            a@.len() == b@.len(),
            i <= a@.len(),
            forall|k: int| 0 <= k < i ==> a@[k] == b@[k],
        decreases a@.len() - i,
    {
        if a[i] != b[i] {
            return false;
        }
        i = i + 1;
    }
    assert(a@ =~= b@);
    true
}

impl PartialEq for ActivityComputationData {
    fn eq(&self, other: &Self) -> (r: bool) {
        let same_interval = match (self.insertion_interval, other.insertion_interval) {
            (Some(a), Some(b)) => a.same_as(&b),
            (None, None) => true,
            _ => false,
        };
        proof {
            if let (Some(a), Some(b)) = (self.insertion_interval, other.insertion_interval) {
                TimeInterval::lemma_view_eq(a, b);
            }
        }
        self.duration.same_as(&other.duration) && same_interval && same_ids(
            &self.incompatible_activity_ids,
            &other.incompatible_activity_ids,
        )
    }
}

impl vstd::std_specs::cmp::PartialEqSpecImpl for ActivityComputationData {
    open spec fn obeys_eq_spec() -> bool {
        true
    }

    open spec fn eq_spec(&self, other: &Self) -> bool {
        same_computation_data(self@, other@)
    }
}

impl Eq for ActivityComputationData {

}

fn clone_costs(v: &Vec<InsertionCost>) -> (r: Vec<InsertionCost>)
    ensures
        r@ == v@,
{
    let mut r: Vec<InsertionCost> = Vec::new();
    let mut i: usize = 0;
    while i < v.len()
        invariant
            i <= v@.len(),
            r@ == v@.take(i as int),
        decreases v@.len() - i,
    {
        r.push(v[i]);
        i = i + 1;
        assert(r@ =~= v@.take(i as int));
    }
    assert(v@.take(i as int) =~= v@);
    r
}

fn clone_ids(v: &Vec<ActivityId>) -> (r: Vec<ActivityId>)
    ensures
        r@ == v@,
{
    let mut r: Vec<ActivityId> = Vec::new();
    let mut i: usize = 0;
    while i < v.len()
        invariant
            i <= v@.len(),
            r@ == v@.take(i as int),
        decreases v@.len() - i,
    {
        r.push(v[i]);
        i = i + 1;
        assert(r@ =~= v@.take(i as int));
    }
    assert(v@.take(i as int) =~= v@);
    r
}

impl Clone for ActivityComputationData {
    fn clone(&self) -> (r: Self)
        ensures
            r@ == self@,
            r.wf() == self.wf(),
    {
        let costs = match &self.insertion_costs {
            Some(v) => Some(clone_costs(v)),
            None => None,
        };
        ActivityComputationData {
            duration: self.duration,
            insertion_interval: self.insertion_interval,
            insertion_costs: costs,
            incompatible_activity_ids: clone_ids(&self.incompatible_activity_ids),
        }
    }
}

impl ActivityComputationData {
    /// Well-formedness: the duration is valid, the insertion interval is well formed and the
    /// insertion costs are sorted by beginning.
    pub open spec fn wf(&self) -> bool {
        &&& duration_wf(self@.duration)
        &&& self@.insertion_interval matches Some(i) ==> spec_interval_wf(i)
        &&& self@.insertion_costs matches Some(c) ==> costs_sorted(c)
    }

    /// Creates new computation data: the smallest duration, not inserted, no conflict and
    /// insertion costs not computed yet.
    pub fn new() -> (d: ActivityComputationData)
        ensures
            d@ == (ComputationDataView {
                duration: MIN_TIME_DISCRETIZATION_MINUTES as int,
                insertion_interval: None,
                insertion_costs: None,
                incompatible_activity_ids: Seq::empty(),
            }),
            d.wf(),
    {
        let d = ActivityComputationData {
            duration: Time::min_time_discretization(),
            insertion_interval: None,
            insertion_costs: None,
            incompatible_activity_ids: Vec::new(),
        };
        assert(d@.incompatible_activity_ids =~= Seq::<ActivityId>::empty());
        d
    }

    /// Simple getter for the duration.
    pub fn duration(&self) -> (r: Time)
        ensures
            r@ == self@.duration,
    {
        self.duration
    }

    /// Simple getter for the insertion interval.
    pub fn insertion_interval(&self) -> (r: Option<TimeInterval>)
        ensures
            match r {
                Some(i) => self@.insertion_interval == Some(i@),
                None => self@.insertion_interval is None,
            },
            self.wf() ==> (r matches Some(i) ==> i.wf()),
    {
        self.insertion_interval
    }

    /// Simple getter for the insertion costs.
    pub fn insertion_costs(&self) -> (r: Option<Vec<InsertionCost>>)
        ensures
            match r {
                Some(v) => self@.insertion_costs == Some(v@),
                None => self@.insertion_costs is None,
            },
    {
        match &self.insertion_costs {
            Some(v) => Some(clone_costs(v)),
            None => None,
        }
    }

    /// True if the insertion costs are computed.
    pub fn insertion_costs_computed(&self) -> (b: bool)
        ensures
            b == self@.insertion_costs is Some,
    {
        self.insertion_costs.is_some()
    }

    /// True if the given time is the beginning of one of the computed insertion costs.
    pub fn can_begin_at(&self, time: Time) -> (b: bool)
        ensures
            b == (self@.insertion_costs matches Some(c) && costs_contain_beginning(c, time@)),
    {
        match &self.insertion_costs {
            None => false,
            Some(v) => {
                let mut i: usize = 0;
                while i < v.len()
                    invariant
                        i <= v@.len(),
                        self@.insertion_costs == Some(v@),
                        forall|k: int| 0 <= k < i ==> (#[trigger] v@[k]).beginning@ != time@,
                    decreases v@.len() - i,
                {
                    if v[i].beginning.same_as(&time) {
                        assert(v@[i as int].beginning@ == time@);
                        assert(costs_contain_beginning(v@, time@));
                        return true;
                    }
                    i = i + 1;
                }
                false
            },
        }
    }

    /// Simple getter for incompatible activities.
    pub fn incompatible_activity_ids(&self) -> (r: Vec<ActivityId>)
        ensures
            r@ == self@.incompatible_activity_ids,
    {
        clone_ids(&self.incompatible_activity_ids)
    }

    /// Simple setter for the duration.
    ///
    /// If the duration is shorter than the current one, shortens the current insertion
    /// interval. If the duration is greater, the insertion interval is left as it is: it is
    /// the responsibility of higher level collections to deal with it.
    pub fn set_duration(&mut self, duration: Time)
        requires
            duration@ < old(self)@.duration ==> (old(self)@.insertion_interval matches Some(i)
                ==> spec_interval_wf(i) && MIN_TIME_DISCRETIZATION_MINUTES <= duration@
                && time_in_range(i.0 + duration@)),
        ensures
            old(self).wf() && duration_wf(duration@) ==> final(self).wf(),
            final(self)@ == (ComputationDataView {
                duration: duration@,
                insertion_interval: if duration@ < old(self)@.duration {
                    match old(self)@.insertion_interval {
                        Some(i) => Some((i.0, i.0 + duration@)),
                        None => None,
                    }
                } else {
                    old(self)@.insertion_interval
                },
                ..old(self)@
            }),
    {
        if duration.is_before(&self.duration) {
            if let Some(insertion_interval) = self.insertion_interval {
                let b = insertion_interval.beginning();
                let end = b.add(duration);
                self.insertion_interval = Some(TimeInterval::new(b, end));
            }
        }
        self.duration = duration;
    }

    /// Simple setter for incompatible activity ids.
    ///
    /// Does not perform any checks, the activities collection does it.
    pub fn set_incompatible_activity_ids(&mut self, incompatible_ids: Vec<ActivityId>)
        ensures
            final(self)@ == (ComputationDataView {
                incompatible_activity_ids: incompatible_ids@,
                ..old(self)@
            }),
            final(self).wf() == old(self).wf(),
    {
        self.incompatible_activity_ids = incompatible_ids;
    }

    /// Sets the insertion costs (None invalidates them).
    pub fn set_insertion_costs(&mut self, insertion_costs: Option<Vec<InsertionCost>>)
        requires
            insertion_costs matches Some(v) ==> costs_sorted(v@),
        ensures
            final(self)@ == (ComputationDataView {
                insertion_costs: match insertion_costs {
                    Some(v) => Some(v@),
                    None => None,
                },
                ..old(self)@
            }),
            old(self).wf() ==> final(self).wf(),
    {
        self.insertion_costs = insertion_costs;
    }

    /// Inserts the activity at given time.
    /// If None is given, the activity is removed from the schedule.
    ///
    /// Does not perform any checks, data should be sanitized above.
    pub fn insert(&mut self, insertion_time: Option<Time>)
        requires
            old(self).wf(),
            insertion_time matches Some(t) ==> time_in_range(t@) && time_in_range(
                t@ + old(self)@.duration,
            ),
        ensures
            final(self).wf(),
            final(self)@ == (ComputationDataView {
                insertion_interval: match insertion_time {
                    Some(t) => Some((t@, t@ + old(self)@.duration)),
                    None => None,
                },
                ..old(self)@
            }),
    {
        if let Some(insertion_time) = insertion_time {
            let end = insertion_time.add(self.duration);
            self.insertion_interval = Some(TimeInterval::new(insertion_time, end));
        } else {
            self.insertion_interval = None;
        }
    }
}

} // verus!
