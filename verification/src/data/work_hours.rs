//! Operations of the data on the global work hours.

use super::free_time::free_time;
use super::{is_coherent, spans_its_duration, Data, DataView};
use crate::activities::{invalidate_costs_of, ActivitiesView, ActivityView};
use crate::errors::not_enough_time::NotEnoughTime;
use crate::errors::FelixError;
use crate::named::{lemma_name_map_index, lemma_sorted_lt, name_index, name_map, names_sorted, HasName};
use crate::strings::{lemma_lex_lt_asymmetric, lemma_lex_lt_irreflexive, lex_lt};
use crate::time::Time;
use crate::time_interval::{spec_duration, TimeInterval};
use crate::work_intervals::{overlaps_any, sum_durations};
use vstd::prelude::*;

verus! {

/// No activity is inserted in the schedule.
pub open spec fn no_activity_inserted(s: Seq<ActivityView>) -> bool {
    forall|i: int| 0 <= i < s.len() ==> (#[trigger] s[i]).computation.insertion_interval is None
}

/// The entity exists and has less free time than required.
pub open spec fn lacks_time(v: DataView, name: Seq<char>, required: int) -> bool {
    v.entities.contains_key(name) && free_time(v, name) < required
}

/// Some entity has less free time than required.
pub open spec fn some_entity_lacks_time(v: DataView, required: int) -> bool {
    exists|name: Seq<char>| #[trigger] lacks_time(v, name, required)
}

/// `name` is the first entity (by name) which has less free time than required.
pub open spec fn is_first_lacking_time(v: DataView, name: Seq<char>, required: int) -> bool {
    &&& lacks_time(v, name, required)
    &&& forall|other: Seq<char>| #[trigger] lacks_time(v, other, required) ==> !lex_lt(other, name)
}

/// The names of the entities which follow the global work hours (they have no custom ones).
pub open spec fn entities_on_global_hours(v: DataView) -> Set<Seq<char>> {
    Set::new(
        |n: Seq<char>| v.entities.contains_key(n) && v.entities[n].custom_work_hours.len() == 0,
    )
}

/// The data, where the activities of the given entities have their insertion costs invalidated.
pub open spec fn invalidate_data_costs(v: DataView, entities: Set<Seq<char>>) -> DataView {
    DataView {
        activities: ActivitiesView {
            activities: invalidate_costs_of(v.activities.activities, entities),
            ..v.activities
        },
        ..v
    }
}

/// How much shorter the new interval is than the old one, in minutes.
pub open spec fn shortening(old_interval: (int, int), new_interval: (int, int)) -> int {
    spec_duration(old_interval) - spec_duration(new_interval)
}

/// The data with the given global work hours.
pub open spec fn with_work_hours(v: DataView, work_hours: Seq<(int, int)>) -> DataView {
    DataView { work_hours, ..v }
}

/// Invalidating insertion costs keeps the data coherent and leaves the time of entities
/// unchanged.
pub proof fn lemma_invalidate_coherent(v: DataView, entities: Set<Seq<char>>)
    requires
        is_coherent(v),
    ensures
        is_coherent(invalidate_data_costs(v, entities)),
        forall|n: Seq<char>| #[trigger] free_time(invalidate_data_costs(v, entities), n) == free_time(v, n),
{
    let w = invalidate_data_costs(v, entities);
    let s = v.activities.activities;
    let t = w.activities.activities;
    assert forall|i: int| 0 <= i < t.len() implies (#[trigger] t[i]).metadata == s[i].metadata
        && t[i].computation.duration == s[i].computation.duration
        && t[i].computation.insertion_interval == s[i].computation.insertion_interval by {}
    assert forall|i: int| 0 <= i < t.len() implies spans_its_duration(#[trigger] t[i]) by {
        assert(spans_its_duration(s[i]));
    }
    assert forall|n: Seq<char>| #[trigger] free_time(w, n) == free_time(v, n) by {
        lemma_time_taken_same(s, t, n);
    }
}

/// The time taken by activities depends only on their entities and durations.
proof fn lemma_time_taken_same(s: Seq<ActivityView>, t: Seq<ActivityView>, n: Seq<char>)
    requires
        s.len() == t.len(),
        forall|i: int|
            0 <= i < t.len() ==> (#[trigger] t[i]).metadata == s[i].metadata
                && t[i].computation.duration == s[i].computation.duration,
    ensures
        super::free_time::time_taken(s, n) == super::free_time::time_taken(t, n),
    decreases s.len(),
{
    if s.len() > 0 {
        lemma_time_taken_same(s.drop_last(), t.drop_last(), n);
        assert(t.last() == t[t.len() - 1]);
    }
}

impl Data {
    /// Returns Err if an activity is inserted: work hours cannot change then.
    pub(crate) fn check_no_activity_inserted(&self) -> (r: Result<(), FelixError>)
        requires
            self.wf(),
        ensures
            r is Ok <==> no_activity_inserted(self@.activities.activities),
            r matches Err(e) ==> e is ChangeWorkHoursWhileActivityInserted,
    {
        let acts = self.activities.get_not_sorted();
        let mut i: usize = 0;
        while i < acts.len()
            invariant
                i <= acts@.len(),
                crate::activities::activity_views(acts@) == self@.activities.activities,
                forall|k: int| 0 <= k < i ==> (#[trigger] self@.activities.activities[k]).computation.insertion_interval is None,
            decreases acts@.len() - i,
        {
            if acts[i].is_inserted() {
                assert(self@.activities.activities[i as int] == acts@[i as int]@);
                return Err(FelixError::ChangeWorkHoursWhileActivityInserted);
            }
            assert(self@.activities.activities[i as int] == acts@[i as int]@);
            i = i + 1;
        }
        Ok(())
    }

    /// Returns the first entity (by name) which has less free time than required, if any.
    pub(crate) fn entity_with_free_time_less_than(&self, required: Time) -> (r: Option<String>)
        requires
            self.wf(),
        ensures
            r is None <==> !some_entity_lacks_time(self@, required@),
            r matches Some(n) ==> is_first_lacking_time(self@, n@, required@),
    {
        proof {
            self.lemma_wf();
        }
        let entities = self.entities_sorted();
        let mut i: usize = 0;
        while i < entities.len()
            invariant
                self.wf(),
                i <= entities@.len(),
                names_sorted(entities@),
                name_map(entities@) == self@.entities,
                forall|k: int| 0 <= k < i ==> !lacks_time(self@, (#[trigger] entities@[k]).spec_name(), required@),
            decreases entities@.len() - i,
        {
            let name = entities[i].name();
            proof {
                lemma_name_map_index(entities@, i as int);
                self.lemma_wf();
            }
            let free = self.free_time_of_existing(&name);
            if free.is_before(&required) {
                proof {
                    assert(lacks_time(self@, name@, required@));
                    assert forall|other: Seq<char>| #[trigger] lacks_time(self@, other, required@) implies !lex_lt(other, name@) by {
                        let k = name_index(entities@, other);
                        assert(crate::named::has_name(entities@, other));
                        if lex_lt(other, name@) {
                            if k > i {
                                lemma_sorted_lt(entities@, i as int, k);
                                lemma_lex_lt_asymmetric(other, name@);
                            } else if k == i {
                                lemma_lex_lt_irreflexive(name@);
                            }
                        }
                    }
                }
                return Some(name);
            }
            i = i + 1;
        }
        proof {
            assert forall|other: Seq<char>| !#[trigger] lacks_time(self@, other, required@) by {
                if self@.entities.contains_key(other) {
                    assert(crate::named::has_name(entities@, other));
                    let k = name_index(entities@, other);
                    assert(entities@[k].spec_name() == other);
                }
            }
        }
        None
    }

    /// Returns the names of the entities which follow the global work hours.
    pub(crate) fn entities_on_global_work_hours(&self) -> (r: Vec<String>)
        requires
            self.wf(),
        ensures
            r@.map_values(|e: String| e@).to_set() == entities_on_global_hours(self@),
    {
        proof {
            self.lemma_wf();
        }
        let entities = self.entities_sorted();
        let mut r: Vec<String> = Vec::new();
        let mut i: usize = 0;
        let ghost target = entities_on_global_hours(self@);
        while i < entities.len()
            invariant
                self.wf(),
                i <= entities@.len(),
                names_sorted(entities@),
                name_map(entities@) == self@.entities,
                target == entities_on_global_hours(self@),
                forall|k: int| 0 <= k < r@.len() ==> target.contains(#[trigger] r@[k]@),
                forall|k: int|
                    0 <= k < i && target.contains(#[trigger] entities@[k].spec_name()) ==> exists|l: int|
                        0 <= l < r@.len() && r@[l]@ == entities@[k].spec_name(),
            decreases entities@.len() - i,
        {
            proof {
                lemma_name_map_index(entities@, i as int);
            }
            let custom = entities[i].custom_work_hours();
            let ghost old_r = r@;
            if custom.len() == 0 {
                r.push(entities[i].name());
            }
            proof {
                let n = entities@[i as int].spec_name();
                assert(self@.entities[n] == entities@[i as int]@);
                assert forall|k: int|
                    0 <= k < i + 1 && target.contains(#[trigger] entities@[k].spec_name()) implies exists|l: int|
                        0 <= l < r@.len() && r@[l]@ == entities@[k].spec_name() by {
                    if k < i {
                        let l = choose|l: int| 0 <= l < old_r.len() && old_r[l]@ == entities@[k].spec_name();
                        assert(r@[l] == old_r[l]);
                    } else {
                        assert(r@[r@.len() - 1]@ == n);
                    }
                }
            }
            i = i + 1;
        }
        proof {
            let names = r@.map_values(|e: String| e@);
            assert forall|n: Seq<char>| #[trigger] names.to_set().contains(n) <==> target.contains(n) by {
                if names.to_set().contains(n) {
                    let l = choose|l: int| 0 <= l < names.len() && names[l] == n;
                    assert(target.contains(r@[l]@));
                }
                if target.contains(n) {
                    assert(crate::named::has_name(entities@, n));
                    let k = name_index(entities@, n);
                    assert(entities@[k].spec_name() == n);
                    let l = choose|l: int| 0 <= l < r@.len() && r@[l]@ == entities@[k].spec_name();
                    assert(names[l] == n);
                }
            }
            assert(names.to_set() =~= target);
        }
        r
    }

    /// Invalidates the insertion costs of the activities of the entities which follow the
    /// global work hours, as these changed.
    pub(crate) fn notify_work_hours_changed(&mut self)
        requires
            old(self).wf(),
        ensures
            final(self).wf(),
            final(self)@ == invalidate_data_costs(old(self)@, entities_on_global_hours(old(self)@)),
    {
        let entities = self.entities_on_global_work_hours();
        self.activities.invalidate_insertion_costs_of(&entities);
        proof {
            lemma_invalidate_coherent(old(self)@, entities_on_global_hours(old(self)@));
            assert(self@.activities =~= invalidate_data_costs(old(self)@, entities_on_global_hours(old(self)@)).activities);
        }
    }

    /// Adds the given interval to the global work hours.
    ///
    /// Returns Err if an activity is inserted or if the interval overlaps with the work hours.
    pub fn add_work_interval(&mut self, interval: TimeInterval) -> (r: Result<(), FelixError>)
        requires
            old(self).wf(),
            interval.wf(),
        ensures
            final(self).wf(),
            r is Ok <==> no_activity_inserted(old(self)@.activities.activities) && !overlaps_any(
                old(self)@.work_hours,
                interval@,
            ),
            !no_activity_inserted(old(self)@.activities.activities) ==> (r matches Err(e)
                && e is ChangeWorkHoursWhileActivityInserted),
            no_activity_inserted(old(self)@.activities.activities) && overlaps_any(
                old(self)@.work_hours,
                interval@,
            ) ==> (r matches Err(e) && e is IntervalOverlaps),
            r is Err ==> final(self)@ == old(self)@,
            r is Ok ==> final(self)@.work_hours.to_set() == old(self)@.work_hours.to_set().insert(
                interval@,
            ),
            r is Ok ==> final(self)@.work_hours.len() == old(self)@.work_hours.len() + 1,
            r is Ok ==> final(self)@ == with_work_hours(
                invalidate_data_costs(old(self)@, entities_on_global_hours(old(self)@)),
                final(self)@.work_hours,
            ),
    {
        self.check_no_activity_inserted()?;
        self.work_hours.add_work_interval(interval)?;
        let ghost mid = self@;
        proof {
            super::lemma_coherent_same(old(self)@, mid);
        }
        self.notify_work_hours_changed();
        proof {
            assert(mid.entities == old(self)@.entities);
            assert(entities_on_global_hours(mid) =~= entities_on_global_hours(old(self)@));
        }
        Ok(())
    }

    /// Returns Err if an entity has less free time than required: it is the first such entity
    /// (by name) which the error names.
    pub(crate) fn check_entities_have_free_time(&self, required: Time) -> (r: Result<
        (),
        FelixError,
    >)
        requires
            self.wf(),
        ensures
            r is Ok <==> !some_entity_lacks_time(self@, required@),
            r matches Err(e) ==> exists|n: Seq<char>|
                is_first_lacking_time(self@, n, required@) && (e matches FelixError::NotEnoughTime(
                    t,
                ) && t.is_work_hours_shortened_for(n)),
    {
        match self.entity_with_free_time_less_than(required) {
            Some(name) => {
                let ghost n = name@;
                let e = FelixError::NotEnoughTime(NotEnoughTime::work_hours_shortened_for(name));
                assert(is_first_lacking_time(self@, n, required@));
                Err(e)
            },
            None => Ok(()),
        }
    }

    /// Removes the given interval from the global work hours.
    ///
    /// Returns Err if an activity is inserted, if an entity would not have enough time left or
    /// if the interval is not in the work hours.
    pub fn remove_work_interval(&mut self, interval: TimeInterval) -> (r: Result<(), FelixError>)
        requires
            old(self).wf(),
            interval.wf(),
        ensures
            final(self).wf(),
            r is Ok <==> no_activity_inserted(old(self)@.activities.activities)
                && !some_entity_lacks_time(old(self)@, spec_duration(interval@))
                && old(self)@.work_hours.contains(interval@),
            !no_activity_inserted(old(self)@.activities.activities) ==> (r matches Err(e)
                && e is ChangeWorkHoursWhileActivityInserted),
            no_activity_inserted(old(self)@.activities.activities) && some_entity_lacks_time(
                old(self)@,
                spec_duration(interval@),
            ) ==> (r matches Err(e) && exists|n: Seq<char>|
                is_first_lacking_time(old(self)@, n, spec_duration(interval@)) && (
                e matches FelixError::NotEnoughTime(t) && t.is_work_hours_shortened_for(n))),
            no_activity_inserted(old(self)@.activities.activities) && !some_entity_lacks_time(
                old(self)@,
                spec_duration(interval@),
            ) && !old(self)@.work_hours.contains(interval@) ==> (r matches Err(
                FelixError::DoesNotExist(d),
            ) && *d == crate::errors::does_not_exist::DoesNotExist::Interval(interval)),
            r is Err ==> final(self)@ == old(self)@,
            r is Ok ==> final(self)@.work_hours.to_set() == old(self)@.work_hours.to_set().remove(
                interval@,
            ),
            r is Ok ==> final(self)@.work_hours.len() + 1 == old(self)@.work_hours.len(),
            r is Ok ==> final(self)@ == with_work_hours(
                invalidate_data_costs(old(self)@, entities_on_global_hours(old(self)@)),
                final(self)@.work_hours,
            ),
    {
        self.check_no_activity_inserted()?;
        self.check_entities_have_free_time(interval.duration())?;
        self.work_hours.remove_work_interval(interval)?;
        let ghost mid = self@;
        proof {
            super::lemma_coherent_same(old(self)@, mid);
        }
        self.notify_work_hours_changed();
        proof {
            assert(entities_on_global_hours(mid) =~= entities_on_global_hours(old(self)@));
        }
        Ok(())
    }

    /// Replaces the given interval of the global work hours by the new one.
    ///
    /// Returns Err if an activity is inserted, if an entity would not have enough time left,
    /// if the old interval is not in the work hours or if the new one overlaps with the others.
    pub fn update_work_interval(
        &mut self,
        old_interval: TimeInterval,
        new_interval: TimeInterval,
    ) -> (r: Result<(), FelixError>)
        requires
            old(self).wf(),
            old_interval.wf(),
            new_interval.wf(),
        ensures
            final(self).wf(),
            r is Ok <==> no_activity_inserted(old(self)@.activities.activities) && (spec_duration(
                new_interval@,
            ) < spec_duration(old_interval@) ==> !some_entity_lacks_time(
                old(self)@,
                spec_duration(old_interval@) - spec_duration(new_interval@),
            )) && old(self)@.work_hours.contains(old_interval@) && !overlaps_any(
                old(self)@.work_hours.remove(old(self)@.work_hours.index_of(old_interval@)),
                new_interval@,
            ),
            !no_activity_inserted(old(self)@.activities.activities) ==> (r matches Err(e)
                && e is ChangeWorkHoursWhileActivityInserted),
            no_activity_inserted(old(self)@.activities.activities) && spec_duration(new_interval@)
                < spec_duration(old_interval@) && some_entity_lacks_time(
                old(self)@,
                spec_duration(old_interval@) - spec_duration(new_interval@),
            ) ==> (r matches Err(e) && exists|n: Seq<char>|
                is_first_lacking_time(
                    old(self)@,
                    n,
                    shortening(old_interval@, new_interval@),
                ) && (e matches FelixError::NotEnoughTime(t) && t.is_work_hours_shortened_for(n))),
            no_activity_inserted(old(self)@.activities.activities) && !(spec_duration(new_interval@)
                < spec_duration(old_interval@) && some_entity_lacks_time(
                old(self)@,
                spec_duration(old_interval@) - spec_duration(new_interval@),
            )) && r is Err ==> (r matches Err(e) && if old(self)@.work_hours.contains(
                old_interval@,
            ) {
                e is IntervalOverlaps
            } else {
                e matches FelixError::DoesNotExist(d) && *d
                    == crate::errors::does_not_exist::DoesNotExist::Interval(old_interval)
            }),
            r is Err ==> final(self)@ == old(self)@,
            r is Ok ==> final(self)@.work_hours.to_set() == old(self)@.work_hours.to_set().remove(
                old_interval@,
            ).insert(new_interval@),
            r is Ok ==> final(self)@.work_hours.len() == old(self)@.work_hours.len(),
            r is Ok ==> final(self)@ == with_work_hours(
                invalidate_data_costs(old(self)@, entities_on_global_hours(old(self)@)),
                final(self)@.work_hours,
            ),
    {
        self.check_no_activity_inserted()?;
        let old_duration = old_interval.duration();
        let new_duration = new_interval.duration();
        if new_duration.is_before(&old_duration) {
            let required = old_duration.sub(new_duration);
            proof {
                assert(required@ == shortening(old_interval@, new_interval@));
            }
            self.check_entities_have_free_time(required)?;
        }
        self.work_hours.update_work_interval(old_interval, new_interval)?;
        let ghost mid = self@;
        proof {
            super::lemma_coherent_same(old(self)@, mid);
        }
        self.notify_work_hours_changed();
        proof {
            assert(entities_on_global_hours(mid) =~= entities_on_global_hours(old(self)@));
        }
        Ok(())
    }
}

} // verus!
