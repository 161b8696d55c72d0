//! The time that entities have for activities.

use super::{Data, DataView};
use crate::activities::ActivityView;
use crate::computation_data::duration_wf;
use crate::errors::FelixError;
use crate::strings::{clean_string, has_word, spec_clean_string};
use crate::time::{Time, MAX_TOTAL_MINUTES};
use crate::time_interval::TimeInterval;
use crate::work_intervals::{intervals_ordered, intervals_view, lemma_sum_durations_bounds, sum_durations};
use vstd::prelude::*;

verus! {

/// The total duration of the activities in which the entity takes part, in minutes.
pub open spec fn time_taken(acts: Seq<ActivityView>, entity: Seq<char>) -> int
    decreases acts.len(),
{
    if acts.len() == 0 {
        0
    } else {
        time_taken(acts.drop_last(), entity) + if acts.last().metadata.entities.contains(entity) {
            acts.last().computation.duration
        } else {
            0
        }
    }
}

/// The work hours of the entity: its custom work hours if it has any, else the global ones.
pub open spec fn work_hours_of_entity(v: DataView, entity: Seq<char>) -> Seq<(int, int)> {
    if v.entities[entity].custom_work_hours.len() == 0 {
        v.work_hours
    } else {
        v.entities[entity].custom_work_hours
    }
}

/// The time the entity has left once its activities are counted, in minutes (never below 0).
pub open spec fn free_time(v: DataView, entity: Seq<char>) -> int {
    let total = sum_durations(work_hours_of_entity(v, entity));
    let taken = time_taken(v.activities.activities, entity);
    if total < taken {
        0
    } else {
        total - taken
    }
}

/// The time taken by activities is not negative when every duration is valid.
pub proof fn lemma_time_taken_nonnegative(acts: Seq<ActivityView>, entity: Seq<char>)
    requires
        forall|i: int| 0 <= i < acts.len() ==> duration_wf((#[trigger] acts[i]).computation.duration),
    ensures
        0 <= time_taken(acts, entity) <= acts.len() * MAX_TOTAL_MINUTES,
    decreases acts.len(),
{
    if acts.len() > 0 {
        lemma_time_taken_nonnegative(acts.drop_last(), entity);
        assert(duration_wf(acts[acts.len() - 1].computation.duration));
    }
}

/// The time taken by the activities of an entity adds up: that of two lists of activities put
/// end to end is the sum of the time taken by each, no list takes any, and one activity takes
/// its duration when the entity takes part in it and nothing otherwise.
pub proof fn lemma_time_taken_adds_up(s1: Seq<ActivityView>, s2: Seq<ActivityView>, entity: Seq<char>)
    ensures
        time_taken(s1 + s2, entity) == time_taken(s1, entity) + time_taken(s2, entity),
        time_taken(Seq::empty(), entity) == 0,
        s2.len() == 1 ==> time_taken(s2, entity) == if s2[0].metadata.entities.contains(entity) {
            s2[0].computation.duration
        } else {
            0
        },
    decreases s2.len(),
{
    if s2.len() == 0 {
        assert(s1 + s2 =~= s1);
    } else {
        lemma_time_taken_adds_up(s1, s2.drop_last(), entity);
        assert((s1 + s2).drop_last() =~= s1 + s2.drop_last());
        assert((s1 + s2).last() == s2.last());
        if s2.len() == 1 {
            assert(s2.drop_last() =~= Seq::<ActivityView>::empty());
        }
    }
}

impl Data {
    /// The work hours of an existing entity.
    pub(crate) fn work_hours_of_existing(&self, entity_name: &String) -> (r: Vec<TimeInterval>)
        requires
            self.wf(),
            self@.entities.contains_key(entity_name@),
        ensures
            intervals_view(r@) == work_hours_of_entity(self@, entity_name@),
            intervals_ordered(intervals_view(r@)),
    {
        proof {
            self.lemma_wf();
        }
        let entity = self.entities.get_by_name(entity_name.as_str()).unwrap();
        let custom = entity.custom_work_hours();
        proof {
            entity.lemma_wf();
        }
        if custom.len() == 0 {
            self.work_hours()
        } else {
            custom
        }
    }

    /// The total duration of the work hours of an existing entity.
    pub(crate) fn total_available_time_of_existing(&self, entity_name: &String) -> (t: Time)
        requires
            self.wf(),
            self@.entities.contains_key(entity_name@),
        ensures
            t@ == sum_durations(work_hours_of_entity(self@, entity_name@)),
            0 <= t@ <= 15359,
    {
        proof {
            self.lemma_wf();
        }
        let entity = self.entities.get_by_name(entity_name.as_str()).unwrap();
        let custom = entity.custom_work_intervals();
        proof {
            entity.lemma_wf();
        }
        if custom.len() == 0 {
            self.work_hours.intervals().total_duration()
        } else {
            custom.total_duration()
        }
    }

    /// The total duration of the activities in which the entity takes part, in minutes.
    pub(crate) fn time_taken_by_activities(&self, entity_name: &String) -> (t: i128)
        requires
            self.wf(),
        ensures
            t == time_taken(self@.activities.activities, entity_name@),
            0 <= t,
    {
        proof {
            self.activities.lemma_wf();
        }
        let acts = self.activities.get_not_sorted();
        let ghost s = self@.activities.activities;
        let mut total: i128 = 0;
        let mut i: usize = 0;
        proof {
            lemma_time_taken_nonnegative(s, entity_name@);
            assert(s.take(0) =~= Seq::<ActivityView>::empty());
        }
        while i < acts.len()
            invariant
                i <= acts@.len(),
                s == crate::activities::activity_views(acts@),
                forall|k: int| 0 <= k < s.len() ==> duration_wf((#[trigger] s[k]).computation.duration),
                total == time_taken(s.take(i as int), entity_name@),
                0 <= total <= i * MAX_TOTAL_MINUTES,
            decreases acts@.len() - i,
        {
            proof {
                assert(s.take(i + 1).drop_last() =~= s.take(i as int));
                assert(s[i as int] == acts@[i as int]@);
                assert(duration_wf(s[i as int].computation.duration));
            }
            if acts[i].contains_entity(entity_name) {
                total = total + acts[i].duration().total_minutes() as i128;
            }
            i = i + 1;
        }
        assert(s.take(i as int) =~= s);
        total
    }

    /// The time left to the entity once its activities are counted.
    pub(crate) fn free_time_of_existing(&self, entity_name: &String) -> (t: Time)
        requires
            self.wf(),
            self@.entities.contains_key(entity_name@),
        ensures
            t@ == free_time(self@, entity_name@),
            0 <= t@ <= 15359,
    {
        let total = self.total_available_time_of_existing(entity_name);
        let taken = self.time_taken_by_activities(entity_name);
        let total_minutes = total.total_minutes() as i128;
        if total_minutes < taken {
            Time::zero()
        } else {
            let left = total_minutes - taken;
            Time::from_total_minutes(left as i16)
        }
    }

    /// Returns the time that the entity has left for new activities: the duration of its work
    /// hours minus the durations of its activities (never below 0).
    ///
    /// Returns Err if the formatted name is empty or the entity does not exist.
    pub fn free_time_of(&self, entity_name: &str) -> (r: Result<Time, FelixError>)
        requires
            self.wf(),
        ensures
            r is Ok <==> has_word(entity_name@) && self@.entities.contains_key(
                spec_clean_string(entity_name@),
            ),
            r matches Ok(t) ==> t@ == free_time(self@, spec_clean_string(entity_name@)),
            !has_word(entity_name@) ==> (r matches Err(e) && e is EmptyName),
            has_word(entity_name@) && !self@.entities.contains_key(spec_clean_string(entity_name@))
                ==> (r matches Err(FelixError::DoesNotExist(d)) && d.is_entity_named(
                spec_clean_string(entity_name@),
            )),
    {
        let entity = self.entity(entity_name)?;
        let name = entity.name();
        proof {
            self.lemma_wf();
        }
        Ok(self.free_time_of_existing(&name))
    }

    /// Returns the work hours of the entity: its custom work hours if it has any, else the
    /// global work hours.
    ///
    /// Returns Err if the formatted name is empty or the entity does not exist.
    pub fn work_hours_of(&self, entity_name: &str) -> (r: Result<Vec<TimeInterval>, FelixError>)
        requires
            self.wf(),
        ensures
            r is Ok <==> has_word(entity_name@) && self@.entities.contains_key(
                spec_clean_string(entity_name@),
            ),
            r matches Ok(v) ==> intervals_view(v@) == work_hours_of_entity(
                self@,
                spec_clean_string(entity_name@),
            ),
            !has_word(entity_name@) ==> (r matches Err(e) && e is EmptyName),
            has_word(entity_name@) && !self@.entities.contains_key(spec_clean_string(entity_name@))
                ==> (r matches Err(FelixError::DoesNotExist(d)) && d.is_entity_named(
                spec_clean_string(entity_name@),
            )),
    {
        let entity = self.entity(entity_name)?;
        let name = entity.name();
        proof {
            self.lemma_wf();
        }
        Ok(self.work_hours_of_existing(&name))
    }

    /// Returns the custom work hours of the entity.
    ///
    /// Returns Err if the formatted name is empty or the entity does not exist.
    pub fn custom_work_hours_of(&self, entity_name: &str) -> (r: Result<
        Vec<TimeInterval>,
        FelixError,
    >)
        requires
            self.wf(),
        ensures
            r is Ok <==> has_word(entity_name@) && self@.entities.contains_key(
                spec_clean_string(entity_name@),
            ),
            r matches Ok(v) ==> intervals_view(v@) == self@.entities[spec_clean_string(
                entity_name@,
            )].custom_work_hours,
            !has_word(entity_name@) ==> (r matches Err(e) && e is EmptyName),
            has_word(entity_name@) && !self@.entities.contains_key(spec_clean_string(entity_name@))
                ==> (r matches Err(FelixError::DoesNotExist(d)) && d.is_entity_named(
                spec_clean_string(entity_name@),
            )),
    {
        let entity = self.entity(entity_name)?;
        Ok(entity.custom_work_hours())
    }
}

} // verus!
