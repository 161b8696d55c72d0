//! Operations of the data on activities.

use super::work_hours::{invalidate_data_costs, lemma_invalidate_coherent};
use super::{costs_fit, is_coherent, spans_its_duration, Data, DataView};
use crate::activities::{
    activity_views, activity_with_id, has_activity, ids_of, is_activity_not_found,
    forget_removed, inserted_beginning, is_closest_beginning, is_sorted_by_name, new_activity_view, record_removed, refresh_conflicts, set_computation_of,
    set_metadata_of, Activity, ActivitiesView, ActivityView,
};
use crate::activity_metadata::{ActivityId, ActivityMetadataView, Rgba};
use crate::computation_data::{costs_contain_beginning, costs_sorted, ComputationDataView, InsertionCost};
use crate::errors::invalid_insertion::{InvalidInsertion, InvalidOrNotComputedView};
use crate::errors::add_entity_to_inserted_activity_invalid_spot::{
    AddEntityToInsertedActivityInvalidSpot, WhySpotIsInvalidView,
};
use crate::errors::add_entity_to_inserted_activity_spot_taken::AddEntityToInsertedActivitySpotTaken;
use crate::errors::not_enough_time::NotEnoughTime;
use crate::errors::FelixError;
use crate::id_computation::smallest_unused;
use crate::named::{lemma_name_set_take_step, lemma_sorted_lt, names_sorted, lemma_empty_names, lemma_nonempty_names, lemma_string_names, name_set, HasName};
use crate::strings::{clean_string, has_word, spec_clean_string};
use crate::time::{time_in_range, Time, MIN_TIME_DISCRETIZATION_MINUTES};
use crate::strings::{lemma_lex_lt_asymmetric, lemma_lex_lt_irreflexive, lex_lt};
use crate::time_interval::{spec_contains_interval, spec_overlaps, TimeInterval};
use crate::work_intervals::intervals_view;
use crate::computation::{
    in_conflict,
    beginnings_fit, ids_in_order, in_order, inserted_beginnings, is_computation_order,
    static_data_of, with_beginnings, activities_into_computation_data,
    ActivityBeginningMinutes, ActivityComputationStaticData, WorkHoursAndActivityDurationsSorted,
};
use crate::sort::sorted_times;
use super::free_time::{free_time, work_hours_of_entity};
use vstd::prelude::*;

verus! {

/// The data with the given activities.
pub open spec fn with_activities(v: DataView, activities: Seq<ActivityView>) -> DataView {
    DataView { activities: ActivitiesView { activities, ..v.activities }, ..v }
}

/// The activity is inserted and overlaps with the interval which begins at `t` and lasts `d`.
pub open spec fn blocks_at(b: ActivityView, t: int, d: int) -> bool {
    b.computation.insertion_interval matches Some(iv) && spec_overlaps(iv, (t, t + d))
}

/// `k` is the position, in the incompatible ids of activity `a`, of the first activity which
/// is inserted and overlaps with the interval which begins at `t` and lasts as `a`.
pub open spec fn is_first_blocking(s: Seq<ActivityView>, a: ActivityView, t: int, k: int) -> bool {
    let ids = a.computation.incompatible_activity_ids;
    &&& 0 <= k < ids.len()
    &&& has_activity(s, ids[k])
    &&& blocks_at(activity_with_id(s, ids[k]), t, a.computation.duration)
    &&& forall|j: int|
        0 <= j < k && has_activity(s, #[trigger] ids[j]) ==> !blocks_at(
            activity_with_id(s, ids[j]),
            t,
            a.computation.duration,
        )
}

/// No activity incompatible with `a` is inserted where `a` would be, beginning at `t`.
pub open spec fn none_blocking(s: Seq<ActivityView>, a: ActivityView, t: int) -> bool {
    forall|j: int|
        0 <= j < a.computation.incompatible_activity_ids.len() && has_activity(
            s,
            #[trigger] a.computation.incompatible_activity_ids[j],
        ) ==> !blocks_at(
            activity_with_id(s, a.computation.incompatible_activity_ids[j]),
            t,
            a.computation.duration,
        )
}

/// The activity, inserted at the given beginning (or removed from the schedule).
pub open spec fn inserted_at(a: ActivityView, beginning: Option<int>) -> ComputationDataView {
    ComputationDataView {
        insertion_interval: match beginning {
            Some(t) => Some((t, t + a.computation.duration)),
            None => None,
        },
        ..a.computation
    }
}

/// The beginning of an insertion, in minutes.
pub open spec fn minutes_of(t: Option<Time>) -> Option<int> {
    match t {
        Some(t) => Some(t@),
        None => None,
    }
}

/// Why inserting the activity at `t` is refused, when `t` is not among its possible beginnings.
pub open spec fn refusal_reason(s: Seq<ActivityView>, a: ActivityView, t: int) -> InvalidOrNotComputedView {
    if none_blocking(s, a, t) {
        InvalidOrNotComputedView::CannotFitOrWouldBlockOtherActivities
    } else {
        InvalidOrNotComputedView::OverlappingWithOtherInsertedActivity(
            activity_with_id(
                s,
                a.computation.incompatible_activity_ids[choose|k: int| is_first_blocking(s, a, t, k)],
            ).metadata.name,
        )
    }
}

/// The entity does not take part in the activity yet and has less free time than the
/// activity lasts.
pub open spec fn lacks_time_for(v: DataView, a: ActivityView, entity: Seq<char>) -> bool {
    !a.metadata.entities.contains(entity) && free_time(v, entity) < a.computation.duration
}

/// The activity at position `j` is another activity of the entity, inserted where the
/// activity `a` is inserted.
pub open spec fn takes_spot(s: Seq<ActivityView>, a: ActivityView, entity: Seq<char>, j: int) -> bool {
    &&& 0 <= j < s.len()
    &&& s[j].metadata.id != a.metadata.id
    &&& s[j].metadata.entities.contains(entity)
    &&& a.computation.insertion_interval matches Some(iv)
    &&& s[j].computation.insertion_interval matches Some(jv)
    &&& spec_overlaps(jv, iv)
}

/// `j` is the position of the first activity of the entity inserted where `a` is inserted.
pub open spec fn is_first_taking_spot(s: Seq<ActivityView>, a: ActivityView, entity: Seq<char>, j: int) -> bool {
    takes_spot(s, a, entity, j) && forall|k: int| 0 <= k < j ==> !#[trigger] takes_spot(s, a, entity, k)
}

/// Another activity of the entity is inserted where `a` is inserted.
pub open spec fn spot_taken(s: Seq<ActivityView>, a: ActivityView, entity: Seq<char>) -> bool {
    exists|j: int| #[trigger] takes_spot(s, a, entity, j)
}

/// The activity is inserted outside of the work hours of the entity.
pub open spec fn outside_work_hours(v: DataView, a: ActivityView, entity: Seq<char>) -> bool {
    a.computation.insertion_interval matches Some(iv) && !exists|k: int|
        0 <= k < work_hours_of_entity(v, entity).len() && spec_contains_interval(
            #[trigger] work_hours_of_entity(v, entity)[k],
            iv,
        )
}

/// The data once the entity joins the activity with the given id: the incompatibilities are
/// computed again and the insertion costs of the activities of the entity are invalidated.
pub open spec fn data_with_entity_added(v: DataView, id: ActivityId, entity: Seq<char>) -> DataView {
    invalidate_data_costs(
        with_activities(
            v,
            refresh_conflicts(
                set_metadata_of(
                    v.activities.activities,
                    id,
                    ActivityMetadataView {
                        entities: activity_with_id(v.activities.activities, id).metadata.entities.insert(
                            entity,
                        ),
                        ..activity_with_id(v.activities.activities, id).metadata
                    },
                ),
            ),
        ),
        set![entity],
    )
}

/// The data once the entity leaves the activity with the given id: the incompatibilities are
/// computed again and the insertion costs of the activities of the entity are invalidated;
/// an activity left without participants is removed from the schedule, else the insertion
/// costs of the activities of its participants are invalidated.
pub open spec fn data_with_entity_removed(v: DataView, id: ActivityId, entity: Seq<char>) -> DataView {
    let a = activity_with_id(v.activities.activities, id);
    let entities = a.metadata.entities.remove(entity);
    let v1 = invalidate_data_costs(
        with_activities(
            v,
            refresh_conflicts(
                set_metadata_of(
                    v.activities.activities,
                    id,
                    ActivityMetadataView { entities, ..a.metadata },
                ),
            ),
        ),
        set![entity],
    );
    if entities.len() == 0 {
        with_activities(
            v1,
            set_computation_of(
                v1.activities.activities,
                id,
                inserted_at(activity_with_id(v1.activities.activities, id), None),
            ),
        )
    } else {
        invalidate_data_costs(v1, entities)
    }
}

/// The entity takes part in the activity and has less free time than required.
pub open spec fn participant_lacks_time(v: DataView, a: ActivityView, entity: Seq<char>, required: int) -> bool {
    a.metadata.entities.contains(entity) && free_time(v, entity) < required
}

/// `entity` is the first participant (by name) of the activity with less free time than
/// required.
pub open spec fn is_first_participant_lacking_time(
    v: DataView,
    a: ActivityView,
    entity: Seq<char>,
    required: int,
) -> bool {
    &&& participant_lacks_time(v, a, entity, required)
    &&& forall|other: Seq<char>|
        #[trigger] participant_lacks_time(v, a, other, required) ==> !lex_lt(other, entity)
}

/// Some participant of the activity has less free time than required.
pub open spec fn some_participant_lacks_time(v: DataView, a: ActivityView, required: int) -> bool {
    exists|entity: Seq<char>| #[trigger] participant_lacks_time(v, a, entity, required)
}

/// The computation data of the activity once its duration is set: a longer activity is
/// removed from the schedule, a shorter one is shortened; its insertion costs have to be
/// computed again.
pub open spec fn computation_with_duration(c: ComputationDataView, d: int) -> ComputationDataView {
    ComputationDataView {
        duration: d,
        insertion_interval: if d > c.duration {
            None
        } else if d < c.duration {
            match c.insertion_interval {
                Some(i) => Some((i.0, i.0 + d)),
                None => None,
            }
        } else {
            c.insertion_interval
        },
        insertion_costs: None,
        ..c
    }
}

/// The data once the duration of the activity with the given id is set: a longer activity
/// which was inserted is removed from the schedule, and remembered with its former beginning;
/// the insertion costs of the activity and of the activities of its participants are
/// invalidated.
pub open spec fn data_with_duration(v: DataView, id: ActivityId, d: int) -> DataView {
    let a = activity_with_id(v.activities.activities, id);
    invalidate_data_costs(
        DataView {
            activities: ActivitiesView {
                activities: set_computation_of(
                    v.activities.activities,
                    id,
                    computation_with_duration(a.computation, d),
                ),
                removed_because_duration_increased: if d > a.computation.duration
                    && a.computation.insertion_interval is Some {
                    record_removed(
                        v.activities.removed_because_duration_increased,
                        id,
                        inserted_beginning(a),
                    )
                } else {
                    v.activities.removed_because_duration_increased
                },
            },
            ..v
        },
        a.metadata.entities,
    )
}

/// A member of the group does not take part in the activity yet and has less free time than
/// the activity lasts.
pub open spec fn member_lacks_time(v: DataView, a: ActivityView, group: Seq<char>, entity: Seq<char>) -> bool {
    v.groups[group].entities.contains(entity) && lacks_time_for(v, a, entity)
}

/// `entity` is the first member (by name) of the group which lacks time for the activity.
pub open spec fn is_first_member_lacking_time(
    v: DataView,
    a: ActivityView,
    group: Seq<char>,
    entity: Seq<char>,
) -> bool {
    &&& member_lacks_time(v, a, group, entity)
    &&& forall|other: Seq<char>|
        #[trigger] member_lacks_time(v, a, group, other) ==> !lex_lt(other, entity)
}

/// Some member of the group lacks time for the activity.
pub open spec fn some_member_lacks_time(v: DataView, a: ActivityView, group: Seq<char>) -> bool {
    exists|entity: Seq<char>| #[trigger] member_lacks_time(v, a, group, entity)
}

/// The activities once the members of the group join the activity with the given id (and,
/// if `with_group`, the group itself).
pub open spec fn activities_with_group_members(
    v: DataView,
    id: ActivityId,
    group: Seq<char>,
    with_group: bool,
) -> Seq<ActivityView> {
    let a = activity_with_id(v.activities.activities, id);
    refresh_conflicts(
        set_metadata_of(
            v.activities.activities,
            id,
            ActivityMetadataView {
                entities: a.metadata.entities.union(v.groups[group].entities),
                groups: if with_group {
                    a.metadata.groups.insert(group)
                } else {
                    a.metadata.groups
                },
                ..a.metadata
            },
        ),
    )
}

/// The data once the group joins the activity with its members: the insertion costs of the
/// activities of the participants are invalidated.
pub open spec fn data_with_group_added(v: DataView, id: ActivityId, group: Seq<char>) -> DataView {
    invalidate_data_costs(
        with_activities(v, activities_with_group_members(v, id, group, true)),
        activity_with_id(v.activities.activities, id).metadata.entities.union(
            v.groups[group].entities,
        ),
    )
}

/// Another group of the activity holds the entity.
pub open spec fn in_other_group(v: DataView, a: ActivityView, group: Seq<char>, entity: Seq<char>) -> bool {
    exists|other: Seq<char>|
        a.metadata.groups.contains(other) && other != group && #[trigger] v.groups[other].entities.contains(
            entity,
        )
}

/// The members of the group which take part in the activity through no other of its groups.
pub open spec fn only_through_group(v: DataView, a: ActivityView, group: Seq<char>) -> Set<Seq<char>> {
    v.groups[group].entities.filter(|e: Seq<char>| !in_other_group(v, a, group, e))
}

/// The activities once the group leaves the activity with the given id (if `with_group`),
/// with the members which took part in it only through this group.
pub open spec fn activities_without_group_members(
    v: DataView,
    id: ActivityId,
    group: Seq<char>,
    with_group: bool,
) -> Seq<ActivityView> {
    let a = activity_with_id(v.activities.activities, id);
    refresh_conflicts(
        set_metadata_of(
            v.activities.activities,
            id,
            ActivityMetadataView {
                entities: a.metadata.entities.difference(only_through_group(v, a, group)),
                groups: if with_group {
                    a.metadata.groups.remove(group)
                } else {
                    a.metadata.groups
                },
                ..a.metadata
            },
        ),
    )
}

/// The data once the group leaves the activity, with the members which took part in it only
/// through this group: the insertion costs of the activities of the remaining participants
/// are invalidated.
pub open spec fn data_with_group_removed(v: DataView, id: ActivityId, group: Seq<char>) -> DataView {
    let a = activity_with_id(v.activities.activities, id);
    invalidate_data_costs(
        with_activities(v, activities_without_group_members(v, id, group, true)),
        a.metadata.entities.difference(only_through_group(v, a, group)),
    )
}

/// The data once the activity removed from the schedule is inserted back at the possible
/// beginning closest to its ideal beginning, if its possible beginnings are computed.
pub open spec fn reinsert_one(v: DataView, id: ActivityId, ideal: int) -> DataView {
    let s = v.activities.activities;
    let a = activity_with_id(s, id);
    if has_activity(s, id) && a.computation.insertion_costs is Some {
        let c = a.computation.insertion_costs->0;
        let removed = forget_removed(v.activities.removed_because_duration_increased, id);
        if c.len() > 0 {
            let b = choose|b: int| is_closest_beginning(c, ideal, b);
            DataView {
                activities: ActivitiesView {
                    activities: set_computation_of(s, id, inserted_at(a, Some(b))),
                    removed_because_duration_increased: removed,
                },
                ..v
            }
        } else {
            DataView {
                activities: ActivitiesView {
                    activities: s,
                    removed_because_duration_increased: removed,
                },
                ..v
            }
        }
    } else {
        v
    }
}

/// The data once the activities of the list are inserted back, one after the other.
pub open spec fn reinsert_all(v: DataView, l: Seq<(ActivityId, int)>) -> DataView
    decreases l.len(),
{
    if l.len() == 0 {
        v
    } else {
        reinsert_one(reinsert_all(v, l.drop_last()), l.last().0, l.last().1)
    }
}

/// There is only one closest beginning.
pub proof fn lemma_closest_unique(c: Seq<InsertionCost>, ideal: int, b1: int, b2: int)
    requires
        is_closest_beginning(c, ideal, b1),
        is_closest_beginning(c, ideal, b2),
    ensures
        b1 == b2,
{
    let i1 = choose|i: int| 0 <= i < c.len() && (#[trigger] c[i]).beginning@ == b1;
    let i2 = choose|i: int| 0 <= i < c.len() && (#[trigger] c[i]).beginning@ == b2;
    assert(c[i1].beginning@ == b1);
    assert(c[i2].beginning@ == b2);
}

/// The name is not empty once formatted and an entity has it.
pub open spec fn entity_valid(v: DataView, name: Seq<char>) -> bool {
    has_word(name) && v.entities.contains_key(spec_clean_string(name))
}

/// The durations of the activities of the entity, in order.
pub open spec fn durations_of(acts: Seq<ActivityView>, entity: Seq<char>) -> Seq<int> {
    acts.filter(|a: ActivityView| a.metadata.entities.contains(entity)).map_values(
        |a: ActivityView| a.computation.duration,
    )
}

impl Data {
    /// Invalidates the insertion costs of the activities of the given entities: they have to
    /// be computed again.
    pub(crate) fn queue_entities(&mut self, entities: &Vec<String>)
        requires
            old(self).wf(),
        ensures
            final(self).wf(),
            final(self)@ == invalidate_data_costs(old(self)@, name_set(entities@)),
    {
        self.activities.invalidate_insertion_costs_of(entities);
        proof {
            lemma_string_names(entities@);
            lemma_invalidate_coherent(old(self)@, name_set(entities@));
            assert(self@.activities =~= invalidate_data_costs(old(self)@, name_set(entities@)).activities);
        }
    }

    /// Returns the activities in which the given entity takes part, sorted by name.
    ///
    /// Returns Err if the formatted name is empty.
    pub fn activities_of(&self, entity_name: &str) -> (r: Result<Vec<Activity>, FelixError>)
        requires
            self.wf(),
        ensures
            r is Ok <==> has_word(entity_name@),
            r matches Err(e) ==> e is EmptyName,
            r matches Ok(v) ==> exists|all: Seq<ActivityView>|
                is_sorted_by_name(self@.activities.activities, all) && activity_views(v@)
                    == all.filter(
                    |a: ActivityView| a.metadata.entities.contains(spec_clean_string(entity_name@)),
                ),
    {
        let name = clean_string(entity_name)?;
        let sorted = self.activities_sorted();
        let ghost all = activity_views(sorted@);
        let ghost pred = |a: ActivityView| a.metadata.entities.contains(name@);
        let mut r: Vec<Activity> = Vec::new();
        let mut i: usize = 0;
        assert(all.take(0).filter(pred) =~= activity_views(r@));
        while i < sorted.len()
            invariant
                i <= sorted@.len(),
                all == activity_views(sorted@),
                pred == (|a: ActivityView| a.metadata.entities.contains(name@)),
                activity_views(r@) == all.take(i as int).filter(pred),
            decreases sorted@.len() - i,
        {
            proof {
                reveal_with_fuel(Seq::filter, 1);
                assert(all.take(i + 1).drop_last() =~= all.take(i as int));
                assert(all.take(i + 1).last() == sorted@[i as int]@);
            }
            if sorted[i].contains_entity(&name) {
                r.push(sorted[i].clone());
                assert(activity_views(r@) =~= all.take(i + 1).filter(pred));
            } else {
                assert(activity_views(r@) =~= all.take(i + 1).filter(pred));
            }
            i = i + 1;
        }
        assert(all.take(i as int) =~= all);
        Ok(r)
    }

    /// Returns the computed possible insertion times of an activity with their costs, or None
    /// if they are not computed yet.
    pub fn possible_insertion_times_of_activity_with_associated_cost(&self, id: ActivityId) -> (r:
        Option<Vec<InsertionCost>>)
        requires
            self.wf(),
            has_activity(self@.activities.activities, id),
        ensures
            match r {
                Some(v) => activity_with_id(self@.activities.activities, id).computation.insertion_costs
                    == Some(v@),
                None => activity_with_id(
                    self@.activities.activities,
                    id,
                ).computation.insertion_costs is None,
            },
    {
        let activity = self.activities.get_by_id(id);
        match activity {
            Ok(a) => a.insertion_costs(),
            Err(_) => None,
        }
    }

    /// Stores the computed possible insertion times of an activity with their costs (None
    /// when they have to be computed again).
    ///
    /// Returns Err if the activity is not found.
    pub fn set_insertion_costs_of(
        &mut self,
        id: ActivityId,
        insertion_costs: Option<Vec<InsertionCost>>,
    ) -> (r: Result<(), FelixError>)
        requires
            old(self).wf(),
            insertion_costs matches Some(v) ==> costs_sorted(v@),
            has_activity(old(self)@.activities.activities, id) ==> (insertion_costs matches Some(v)
                ==> forall|k: int|
                0 <= k < v@.len() ==> time_in_range((#[trigger] v@[k]).beginning@) && time_in_range(
                    v@[k].beginning@ + activity_with_id(
                        old(self)@.activities.activities,
                        id,
                    ).computation.duration,
                )),
        ensures
            final(self).wf(),
            r is Ok <==> has_activity(old(self)@.activities.activities, id),
            r matches Err(e) ==> is_activity_not_found(e, id) && final(self)@ == old(self)@,
            r is Ok ==> final(self)@ == with_activities(
                old(self)@,
                set_computation_of(
                    old(self)@.activities.activities,
                    id,
                    ComputationDataView {
                        insertion_costs: match insertion_costs {
                            Some(v) => Some(
                                v@.filter(
                                    |c: InsertionCost|
                                        !in_conflict(
                                            old(self)@.activities.activities,
                                            activity_with_id(
                                                old(self)@.activities.activities,
                                                id,
                                            ).computation.incompatible_activity_ids,
                                            activity_with_id(
                                                old(self)@.activities.activities,
                                                id,
                                            ).computation.duration,
                                            c.beginning@,
                                        ),
                                ),
                            ),
                            None => None,
                        },
                        ..activity_with_id(old(self)@.activities.activities, id).computation
                    },
                ),
            ),
    {
        let activity = self.activity(id)?;
        proof {
            self.lemma_wf();
            self.activities.lemma_wf();
            activity.lemma_wf();
            let s = self@.activities.activities;
            crate::computation::lemma_incompatible_ids_exist(s, activity@.metadata);
            assert(activity@ == s[crate::activities::index_of_activity(s, id)]);
        }
        let ids = activity.incompatible_activity_ids();
        let costs = match insertion_costs {
            None => None,
            Some(v) => Some(self.activities.costs_without_conflicts(v, activity.duration(), &ids)),
        };
        self.activities.set_insertion_costs(id, costs)?;
        proof {
            let v = old(self)@;
            let w = self@;
            let p = crate::activities::index_of_activity(v.activities.activities, id);
            let s = v.activities.activities;
            let t = w.activities.activities;
            assert forall|i: int| 0 <= i < t.len() implies super::activity_fits(v, #[trigger] t[i]) by {
                super::lemma_activity_fits(v, i);
                assert(t[i].metadata == s[i].metadata);
                if i == p && insertion_costs is Some {
                    let c = t[i].computation.insertion_costs->0;
                    let u = insertion_costs->0;
                    assert forall|k: int| 0 <= k < c.len() implies time_in_range((#[trigger] c[k]).beginning@)
                        && time_in_range(c[k].beginning@ + t[i].computation.duration) by {
                        assert(u@.contains(c[k]));
                        let j = choose|j: int| 0 <= j < u@.len() && u@[j] == c[k];
                    }
                }
            }
            super::lemma_coherent_activities(v, w);
        }
        Ok(())
    }

    /// Adds an activity with the formatted given name. Its id is the smallest unused one.
    /// Returns a copy of the created activity.
    ///
    /// Returns Err if the formatted name is empty.
    pub fn add_activity(&mut self, name: &str) -> (r: Result<Activity, FelixError>)
        requires
            old(self).wf(),
        ensures
            final(self).wf(),
            r is Ok <==> has_word(name@),
            r matches Err(e) ==> e is EmptyName && final(self)@ == old(self)@,
            r matches Ok(a) ==> a@ == new_activity_view(
                smallest_unused(ids_of(old(self)@.activities.activities)) as ActivityId,
                spec_clean_string(name@),
            ) && final(self)@ == with_activities(
                old(self)@,
                refresh_conflicts(
                    old(self)@.activities.activities.insert(
                        smallest_unused(ids_of(old(self)@.activities.activities)),
                        a@,
                    ),
                ),
            ),
    {
        let name = clean_string(name)?;
        let activity = self.activities.add(name);
        proof {
            let v = old(self)@;
            let w = self@;
            let id = smallest_unused(ids_of(v.activities.activities));
            let s = v.activities.activities;
            let t = w.activities.activities;
            let a = new_activity_view(id as ActivityId, name@);
            assert forall|i: int| 0 <= i < t.len() implies super::activity_fits(v, #[trigger] t[i]) by {
                if i != id {
                    let i0 = if i < id { i } else { i - 1 };
                    super::lemma_activity_fits(v, i0);
                    super::lemma_fits_like(v, s[i0], t[i]);
                } else {
                    assert(t[i].metadata == a.metadata);
                    assert(t[i].computation.insertion_interval == a.computation.insertion_interval);
                    assert(t[i].computation.insertion_costs == a.computation.insertion_costs);
                }
            }
            super::lemma_coherent_activities(v, w);
        }
        Ok(activity)
    }

    /// Removes the activity with the given id. The insertion costs of the activities of its
    /// participants are invalidated.
    ///
    /// Returns Err if the activity is not found.
    pub fn remove_activity(&mut self, id: ActivityId) -> (r: Result<(), FelixError>)
        requires
            old(self).wf(),
        ensures
            final(self).wf(),
            r is Ok <==> has_activity(old(self)@.activities.activities, id),
            r matches Err(e) ==> is_activity_not_found(e, id) && final(self)@ == old(self)@,
            r is Ok ==> final(self)@ == invalidate_data_costs(
                with_activities(
                    old(self)@,
                    refresh_conflicts(
                        old(self)@.activities.activities.update(
                            crate::activities::index_of_activity(old(self)@.activities.activities, id),
                            old(self)@.activities.activities.last(),
                        ).drop_last(),
                    ),
                ),
                activity_with_id(old(self)@.activities.activities, id).metadata.entities,
            ),
    {
        let activity = self.activity(id)?;
        let impacted_entities = activity.entities_sorted();
        self.activities.remove(id)?;
        proof {
            let v = old(self)@;
            let w = self@;
            let p = crate::activities::index_of_activity(v.activities.activities, id);
            let s = v.activities.activities;
            let t = w.activities.activities;
            let n = s.len() - 1;
            assert forall|i: int| 0 <= i < t.len() implies super::activity_fits(v, #[trigger] t[i]) by {
                let i0 = if i == p { n } else { i };
                super::lemma_activity_fits(v, i0);
                super::lemma_fits_like(v, s[i0], t[i]);
            }
            super::lemma_coherent_activities(v, w);
        }
        self.queue_entities(&impacted_entities);
        Ok(())
    }

    /// Sets the name of the activity with the formatted given name. Returns the formatted name.
    ///
    /// Returns Err if the formatted name is empty or the activity is not found.
    pub fn set_activity_name(&mut self, id: ActivityId, name: &str) -> (r: Result<
        String,
        FelixError,
    >)
        requires
            old(self).wf(),
        ensures
            final(self).wf(),
            r is Ok <==> has_word(name@) && has_activity(old(self)@.activities.activities, id),
            r matches Ok(n) ==> n@ == spec_clean_string(name@),
            r is Err ==> final(self)@ == old(self)@,
            !has_word(name@) ==> (r matches Err(e) && e is EmptyName),
            has_word(name@) && !has_activity(old(self)@.activities.activities, id) ==> (
            r matches Err(e) && is_activity_not_found(e, id)),
            r is Ok ==> final(self)@ == with_activities(
                old(self)@,
                refresh_conflicts(
                    set_metadata_of(
                        old(self)@.activities.activities,
                        id,
                        ActivityMetadataView {
                            name: spec_clean_string(name@),
                            ..activity_with_id(old(self)@.activities.activities, id).metadata
                        },
                    ),
                ),
            ),
    {
        let name = clean_string(name)?;
        self.activities.set_name(id, name.clone())?;
        proof {
            self.lemma_refreshed_metadata_coherent(old(self)@, id);
        }
        Ok(name)
    }

    /// Sets the color of the activity with the given id.
    ///
    /// Returns Err if the activity is not found.
    pub fn set_activity_color(&mut self, id: ActivityId, color: Rgba) -> (r: Result<
        (),
        FelixError,
    >)
        requires
            old(self).wf(),
        ensures
            final(self).wf(),
            r is Ok <==> has_activity(old(self)@.activities.activities, id),
            r matches Err(e) ==> is_activity_not_found(e, id) && final(self)@ == old(self)@,
            r is Ok ==> final(self)@ == with_activities(
                old(self)@,
                refresh_conflicts(
                    set_metadata_of(
                        old(self)@.activities.activities,
                        id,
                        ActivityMetadataView {
                            color,
                            ..activity_with_id(old(self)@.activities.activities, id).metadata
                        },
                    ),
                ),
            ),
    {
        self.activities.set_color(id, color)?;
        proof {
            self.lemma_refreshed_metadata_coherent(old(self)@, id);
        }
        Ok(())
    }

    /// After a change of the metadata of one activity which keeps its entities and groups,
    /// the data is still coherent.
    proof fn lemma_refreshed_metadata_coherent(&self, v: DataView, id: ActivityId)
        requires
            is_coherent(v),
            has_activity(v.activities.activities, id),
            self.work_hours.wf() && self.entities.wf() && self.groups.wf() && self.activities.wf(),
            self@.entities == v.entities,
            self@.groups == v.groups,
            exists|m: ActivityMetadataView|
                m.entities == activity_with_id(v.activities.activities, id).metadata.entities
                    && m.groups == activity_with_id(v.activities.activities, id).metadata.groups
                    && self@.activities.activities == refresh_conflicts(
                    set_metadata_of(v.activities.activities, id, m),
                ),
        ensures
            self.wf(),
    {
        let m = choose|m: ActivityMetadataView|
            m.entities == activity_with_id(v.activities.activities, id).metadata.entities
                && m.groups == activity_with_id(v.activities.activities, id).metadata.groups
                && self@.activities.activities == refresh_conflicts(
                set_metadata_of(v.activities.activities, id, m),
            );
        let s = v.activities.activities;
        let t = self@.activities.activities;
        let p = crate::activities::index_of_activity(s, id);
        super::lemma_activity_fits(v, p);
        lemma_coherent_new_metadata(v, id, m);
        super::lemma_coherent_same(with_activities(v, t), self@);
    }

    /// Returns the first activity incompatible with the given one which is inserted where the
    /// given one would be if it began at the given time, if there is one.
    pub fn incompatible_activity_inserted_at_time(&self, activity: &Activity, time: Time) -> (r:
        Option<Activity>)
        requires
            self.wf(),
            activity.wf(),
            time_in_range(time@),
            time_in_range(time@ + activity@.computation.duration),
        ensures
            r is None <==> none_blocking(self@.activities.activities, activity@, time@),
            r matches Some(b) ==> exists|k: int|
                is_first_blocking(self@.activities.activities, activity@, time@, k) && b@
                    == activity_with_id(
                    self@.activities.activities,
                    activity@.computation.incompatible_activity_ids[k],
                ),
    {
        let ghost s = self@.activities.activities;
        let ghost a = activity@;
        proof {
            activity.lemma_wf();
        }
        let duration = activity.duration();
        let end = time.add(duration);
        let hypothetical = TimeInterval::new(time, end);
        let ids = activity.incompatible_activity_ids();
        let mut k: usize = 0;
        while k < ids.len()
            invariant
                self.wf(),
                s == self@.activities.activities,
                a == activity@,
                ids@ == a.computation.incompatible_activity_ids,
                hypothetical@ == (time@, time@ + a.computation.duration),
                k <= ids@.len(),
                forall|j: int|
                    0 <= j < k && has_activity(s, #[trigger] ids@[j]) ==> !blocks_at(
                        activity_with_id(s, ids@[j]),
                        time@,
                        a.computation.duration,
                    ),
            decreases ids@.len() - k,
        {
            match self.activities.get_by_id(ids[k]) {
                Ok(other) => {
                    if let Some(interval) = other.insertion_interval() {
                        if interval.overlaps_with(&hypothetical) {
                            proof {
                                assert(is_first_blocking(s, a, time@, k as int));
                                assert(a.computation.incompatible_activity_ids[k as int] == ids@[k as int]);
                                assert(blocks_at(activity_with_id(s, a.computation.incompatible_activity_ids[k as int]), time@, a.computation.duration));
                                assert(!none_blocking(s, a, time@));
                                assert(other@ == activity_with_id(s, a.computation.incompatible_activity_ids[k as int]));
                            }
                            return Some(other);
                        }
                    }
                },
                Err(_) => {},
            }
            k = k + 1;
        }
        None
    }

    /// Tries to insert the activity with given id at the given beginning.
    /// If None is given, the activity is removed from the schedule.
    ///
    /// Returns Err if the activity is not found, if its possible beginnings are not computed
    /// yet or if the beginning is not one of them; the error then tells whether an
    /// incompatible activity is inserted there.
    pub fn insert_activity(&mut self, id: ActivityId, insertion_time: Option<Time>) -> (r: Result<
        (),
        FelixError,
    >)
        requires
            old(self).wf(),
            insertion_time matches Some(t) ==> time_in_range(t@) && (has_activity(
                old(self)@.activities.activities,
                id,
            ) ==> time_in_range(
                t@ + activity_with_id(old(self)@.activities.activities, id).computation.duration,
            )),
        ensures
            final(self).wf(),
            r is Ok <==> has_activity(old(self)@.activities.activities, id) && (insertion_time matches Some(
                t,
            ) ==> (activity_with_id(old(self)@.activities.activities, id).computation.insertion_costs matches Some(
                c,
            ) && costs_contain_beginning(c, t@))),
            r is Ok ==> final(self)@ == with_activities(
                old(self)@,
                set_computation_of(
                    old(self)@.activities.activities,
                    id,
                    inserted_at(
                        activity_with_id(old(self)@.activities.activities, id),
                        minutes_of(insertion_time),
                    ),
                ),
            ),
            r is Err ==> final(self)@ == old(self)@,
            !has_activity(old(self)@.activities.activities, id) ==> (r matches Err(e)
                && is_activity_not_found(e, id)),
            has_activity(old(self)@.activities.activities, id) && insertion_time is Some && activity_with_id(
                old(self)@.activities.activities,
                id,
            ).computation.insertion_costs is None ==> (r matches Err(FelixError::InvalidInsertion(x))
                && x.spec_who() == activity_with_id(old(self)@.activities.activities, id).metadata.name
                && x.spec_reason() == InvalidOrNotComputedView::NotComputed),
            has_activity(old(self)@.activities.activities, id) ==> (insertion_time matches Some(t)
                ==> (activity_with_id(old(self)@.activities.activities, id).computation.insertion_costs matches Some(
                c,
            ) ==> (!costs_contain_beginning(c, t@) ==> (r matches Err(FelixError::InvalidInsertion(x))
                && x.spec_who() == activity_with_id(old(self)@.activities.activities, id).metadata.name
                && x.spec_in_who() == t && x.spec_reason() == refusal_reason(
                old(self)@.activities.activities,
                activity_with_id(old(self)@.activities.activities, id),
                t@,
            ))))),
    {
        let activity = self.activity(id)?;
        if let Some(time) = insertion_time {
            if !activity.computation_data().insertion_costs_computed() {
                return Err(
                    FelixError::InvalidInsertion(
                        InvalidInsertion::insertions_not_computed_yet(activity.name()),
                    ),
                );
            }
            if !activity.can_begin_at(time) {
                return match self.incompatible_activity_inserted_at_time(&activity, time) {
                    Some(blocking) => {
                        proof {
                            let s = old(self)@.activities.activities;
                            let k = choose|k: int| is_first_blocking(s, activity@, time@, k) && blocking@ == activity_with_id(s, activity@.computation.incompatible_activity_ids[k]);
                            let k2 = choose|k: int| is_first_blocking(s, activity@, time@, k);
                            if k < k2 {
                                assert(!blocks_at(activity_with_id(s, activity@.computation.incompatible_activity_ids[k]), time@, activity@.computation.duration));
                            } else if k2 < k {
                                assert(!blocks_at(activity_with_id(s, activity@.computation.incompatible_activity_ids[k2]), time@, activity@.computation.duration));
                            }
                        }
                        Err(
                            FelixError::InvalidInsertion(
                                InvalidInsertion::would_overlap_with_activity(
                                    activity.name(),
                                    time,
                                    blocking.name(),
                                ),
                            ),
                        )
                    },
                    None => Err(
                        FelixError::InvalidInsertion(
                            InvalidInsertion::cannot_fit_or_would_block_other_activities(
                                activity.name(),
                                time,
                            ),
                        ),
                    ),
                };
            }
        }
        self.activities.insert_activity(id, insertion_time)?;
        proof {
            let v = old(self)@;
            let w = self@;
            let p = crate::activities::index_of_activity(v.activities.activities, id);
            let s = v.activities.activities;
            let t = w.activities.activities;
            assert(t == set_computation_of(s, id, inserted_at(s[p], minutes_of(insertion_time))));
            lemma_coherent_new_computation(v, id, inserted_at(s[p], minutes_of(insertion_time)));
            assert(w == with_activities(v, t));
        }
        Ok(())
    }

    /// Returns Err if the entity does not take part in the activity yet and has less free time
    /// than the activity lasts.
    fn check_has_enough_time_for_activity(&self, activity: &Activity, entity_name: &String) -> (r:
        Result<(), FelixError>)
        requires
            self.wf(),
            self@.entities.contains_key(entity_name@),
        ensures
            r is Ok <==> !lacks_time_for(self@, activity@, entity_name@),
            r matches Err(e) ==> (e matches FelixError::NotEnoughTime(t) && t.is_activity_added_for(
                entity_name@,
                activity@.metadata.name,
            )),
    {
        if activity.contains_entity(entity_name) {
            return Ok(());
        }
        let free = self.free_time_of_existing(entity_name);
        if free.is_before(&activity.duration()) {
            Err(
                FelixError::NotEnoughTime(
                    NotEnoughTime::activity_added_for(entity_name.clone(), activity.name()),
                ),
            )
        } else {
            Ok(())
        }
    }

    /// Returns Err if the activity is inserted and another activity of the entity is inserted
    /// at the same time: the error names the first one.
    fn check_no_activity_of_the_entity_is_overlapping(
        &self,
        activity: &Activity,
        entity_name: &String,
    ) -> (r: Result<(), FelixError>)
        requires
            self.wf(),
        ensures
            r is Ok <==> !spot_taken(self@.activities.activities, activity@, entity_name@),
            r matches Err(e) ==> exists|j: int|
                is_first_taking_spot(self@.activities.activities, activity@, entity_name@, j) && (
                e matches FelixError::AddEntityToInsertedActivitySpotTaken(x) && x.spec_who()
                    == entity_name@ && x.spec_in_what() == activity@.metadata.name
                    && x.spec_blocking_activity()
                    == self@.activities.activities[j].metadata.name),
    {
        let ghost s = self@.activities.activities;
        let interval = match activity.insertion_interval() {
            Some(i) => i,
            None => {
                return Ok(());
            },
        };
        let acts = self.activities.get_not_sorted();
        let mut j: usize = 0;
        while j < acts.len()
            invariant
                s == self@.activities.activities,
                s == activity_views(acts@),
                activity@.computation.insertion_interval == Some(interval@),
                j <= acts@.len(),
                forall|k: int| 0 <= k < j ==> !#[trigger] takes_spot(s, activity@, entity_name@, k),
            decreases acts@.len() - j,
        {
            let other = &acts[j];
            if other.id() != activity.id() && other.contains_entity(entity_name) {
                if let Some(other_interval) = other.insertion_interval() {
                    if other_interval.overlaps_with(&interval) {
                        proof {
                            assert(s[j as int] == other@);
                            assert(takes_spot(s, activity@, entity_name@, j as int));
                            assert(is_first_taking_spot(s, activity@, entity_name@, j as int));
                        }
                        return Err(
                            FelixError::AddEntityToInsertedActivitySpotTaken(
                                AddEntityToInsertedActivitySpotTaken::new(
                                    entity_name.clone(),
                                    activity.name(),
                                    other.name(),
                                ),
                            ),
                        );
                    }
                }
            }
            assert(s[j as int] == other@);
            j = j + 1;
        }
        Ok(())
    }

    /// Returns Err if the activity is inserted outside of the work hours of the entity.
    fn check_activity_inside_of_work_hours(&self, activity: &Activity, entity_name: &String) -> (r:
        Result<(), FelixError>)
        requires
            self.wf(),
            self@.entities.contains_key(entity_name@),
        ensures
            r is Ok <==> !outside_work_hours(self@, activity@, entity_name@),
            r matches Err(e) ==> (e matches FelixError::AddEntityToInsertedActivityInvalidSpot(x)
                && x.spec_who() == entity_name@ && x.spec_in_what() == activity@.metadata.name
                && x.spec_why() == WhySpotIsInvalidView::OutsideOfWorkHours),
    {
        let interval = match activity.insertion_interval() {
            Some(i) => i,
            None => {
                return Ok(());
            },
        };
        let work_hours = self.work_hours_of_existing(entity_name);
        let ghost wh = work_hours_of_entity(self@, entity_name@);
        let mut k: usize = 0;
        while k < work_hours.len()
            invariant
                k <= work_hours@.len(),
                intervals_view(work_hours@) == wh,
                wh == work_hours_of_entity(self@, entity_name@),
                activity@.computation.insertion_interval == Some(interval@),
                forall|l: int| 0 <= l < k ==> !spec_contains_interval(#[trigger] wh[l], interval@),
            decreases work_hours@.len() - k,
        {
            if work_hours[k].contains_interval(interval) {
                proof {
                    assert(wh[k as int] == work_hours@[k as int]@);
                    assert(spec_contains_interval(work_hours_of_entity(self@, entity_name@)[k as int], interval@));
                }
                return Ok(());
            }
            assert(wh[k as int] == work_hours@[k as int]@);
            k = k + 1;
        }
        Err(
            FelixError::AddEntityToInsertedActivityInvalidSpot(
                AddEntityToInsertedActivityInvalidSpot::outside_of_work_hours(
                    entity_name.clone(),
                    activity.name(),
                ),
            ),
        )
    }

    /// Adds the entity with the given name to the activity with the given id. The insertion
    /// costs of the activities of the entity are invalidated.
    ///
    /// Returns Err if the formatted name is empty, if the activity or the entity is not found,
    /// if the entity does not have enough time left, if the activity is inserted where another
    /// activity of the entity is, or outside of its work hours, or if the entity already takes
    /// part in the activity.
    pub fn add_entity_to_activity(&mut self, id: ActivityId, entity_name: &str) -> (r: Result<
        (),
        FelixError,
    >)
        requires
            old(self).wf(),
        ensures
            final(self).wf(),
            r is Ok <==> has_word(entity_name@) && has_activity(old(self)@.activities.activities, id)
                && old(self)@.entities.contains_key(spec_clean_string(entity_name@))
                && !lacks_time_for(
                old(self)@,
                activity_with_id(old(self)@.activities.activities, id),
                spec_clean_string(entity_name@),
            ) && !spot_taken(
                old(self)@.activities.activities,
                activity_with_id(old(self)@.activities.activities, id),
                spec_clean_string(entity_name@),
            ) && !outside_work_hours(
                old(self)@,
                activity_with_id(old(self)@.activities.activities, id),
                spec_clean_string(entity_name@),
            ) && !activity_with_id(old(self)@.activities.activities, id).metadata.entities.contains(
                spec_clean_string(entity_name@),
            ),
            r is Ok ==> final(self)@ == data_with_entity_added(
                old(self)@,
                id,
                spec_clean_string(entity_name@),
            ),
            r is Err ==> final(self)@ == old(self)@,
            !has_word(entity_name@) ==> (r matches Err(e) && e is EmptyName),
            has_word(entity_name@) && !has_activity(old(self)@.activities.activities, id) ==> (
            r matches Err(e) && is_activity_not_found(e, id)),
            has_word(entity_name@) && has_activity(old(self)@.activities.activities, id) && !old(
                self,
            )@.entities.contains_key(spec_clean_string(entity_name@)) ==> (r matches Err(
                FelixError::DoesNotExist(d),
            ) && d.is_entity_named(spec_clean_string(entity_name@))),
            has_word(entity_name@) && has_activity(old(self)@.activities.activities, id) && old(
                self,
            )@.entities.contains_key(spec_clean_string(entity_name@)) && lacks_time_for(
                old(self)@,
                activity_with_id(old(self)@.activities.activities, id),
                spec_clean_string(entity_name@),
            ) ==> (r matches Err(FelixError::NotEnoughTime(t)) && t.is_activity_added_for(
                spec_clean_string(entity_name@),
                activity_with_id(old(self)@.activities.activities, id).metadata.name,
            )),
            has_word(entity_name@) && has_activity(old(self)@.activities.activities, id) && old(
                self,
            )@.entities.contains_key(spec_clean_string(entity_name@)) && !lacks_time_for(
                old(self)@,
                activity_with_id(old(self)@.activities.activities, id),
                spec_clean_string(entity_name@),
            ) && spot_taken(
                old(self)@.activities.activities,
                activity_with_id(old(self)@.activities.activities, id),
                spec_clean_string(entity_name@),
            ) ==> (r matches Err(e) && exists|j: int|
                is_first_taking_spot(
                    old(self)@.activities.activities,
                    activity_with_id(old(self)@.activities.activities, id),
                    spec_clean_string(entity_name@),
                    j,
                ) && (e matches FelixError::AddEntityToInsertedActivitySpotTaken(x) && x.spec_who()
                    == spec_clean_string(entity_name@) && x.spec_in_what() == activity_with_id(
                    old(self)@.activities.activities,
                    id,
                ).metadata.name && x.spec_blocking_activity()
                    == old(self)@.activities.activities[j].metadata.name)),
            has_word(entity_name@) && has_activity(old(self)@.activities.activities, id) && old(
                self,
            )@.entities.contains_key(spec_clean_string(entity_name@)) && !lacks_time_for(
                old(self)@,
                activity_with_id(old(self)@.activities.activities, id),
                spec_clean_string(entity_name@),
            ) && !spot_taken(
                old(self)@.activities.activities,
                activity_with_id(old(self)@.activities.activities, id),
                spec_clean_string(entity_name@),
            ) && outside_work_hours(
                old(self)@,
                activity_with_id(old(self)@.activities.activities, id),
                spec_clean_string(entity_name@),
            ) ==> (r matches Err(FelixError::AddEntityToInsertedActivityInvalidSpot(x))
                && x.spec_who() == spec_clean_string(entity_name@) && x.spec_in_what()
                == activity_with_id(old(self)@.activities.activities, id).metadata.name
                && x.spec_why() == WhySpotIsInvalidView::OutsideOfWorkHours),
            has_word(entity_name@) && has_activity(old(self)@.activities.activities, id) && old(
                self,
            )@.entities.contains_key(spec_clean_string(entity_name@)) && !lacks_time_for(
                old(self)@,
                activity_with_id(old(self)@.activities.activities, id),
                spec_clean_string(entity_name@),
            ) && !spot_taken(
                old(self)@.activities.activities,
                activity_with_id(old(self)@.activities.activities, id),
                spec_clean_string(entity_name@),
            ) && !outside_work_hours(
                old(self)@,
                activity_with_id(old(self)@.activities.activities, id),
                spec_clean_string(entity_name@),
            ) && activity_with_id(old(self)@.activities.activities, id).metadata.entities.contains(
                spec_clean_string(entity_name@),
            ) ==> (r matches Err(FelixError::AlreadyIn(a)) && a.spec_who() == spec_clean_string(
                entity_name@,
            ) && a.spec_in_who() == activity_with_id(
                old(self)@.activities.activities,
                id,
            ).metadata.name),
    {
        let name = clean_string(entity_name)?;
        let activity = self.activity(id)?;
        let entity = self.entities.get_by_name(name.as_str())?;
        self.check_has_enough_time_for_activity(&activity, &name)?;
        self.check_no_activity_of_the_entity_is_overlapping(&activity, &name)?;
        self.check_activity_inside_of_work_hours(&activity, &name)?;
        self.activities.add_entity(id, name.clone())?;
        proof {
            let v = old(self)@;
            let w = self@;
            let s = v.activities.activities;
            let t = w.activities.activities;
            assert forall|i: int| 0 <= i < t.len() implies super::activity_fits(v, #[trigger] t[i]) by {
                super::lemma_activity_fits(v, i);
                super::lemma_fits_like(v, s[i], t[i]);
            }
            super::lemma_coherent_activities(v, w);
        }
        let ghost mid = self@;
        proof {
            let v = old(self)@;
            assert(mid.work_hours == v.work_hours);
            assert(mid.entities == v.entities);
            assert(mid.groups == v.groups);
            assert(mid.activities.removed_because_duration_increased == v.activities.removed_because_duration_increased);
            assert(mid.activities.activities == refresh_conflicts(
                    set_metadata_of(
                        v.activities.activities,
                        id,
                        ActivityMetadataView {
                            entities: activity_with_id(v.activities.activities, id).metadata.entities.insert(
                                name@,
                            ),
                            ..activity_with_id(v.activities.activities, id).metadata
                        },
                    ),
                ));
            assert(mid == with_activities(
                v,
                refresh_conflicts(
                    set_metadata_of(
                        v.activities.activities,
                        id,
                        ActivityMetadataView {
                            entities: activity_with_id(v.activities.activities, id).metadata.entities.insert(
                                name@,
                            ),
                            ..activity_with_id(v.activities.activities, id).metadata
                        },
                    ),
                ),
            ));
        }
        let mut names: Vec<String> = Vec::new();
        names.push(name);
        proof {
            assert(names@[0]@ == name@);
            assert forall|n: Seq<char>| #[trigger] name_set(names@).contains(n) <==> n == name@ by {
                if n == name@ {
                    assert(names@[0].spec_name() == n);
                }
            }
            assert(name_set(names@) =~= set![name@]);
        }
        self.queue_entities(&names);
        Ok(())
    }

    /// Removes the entity with the given name from the activity with the given id. The
    /// insertion costs of the activities of the entity are invalidated; an activity left
    /// without participants is removed from the schedule, else the insertion costs of the
    /// activities of its participants are invalidated.
    ///
    /// Returns Err if the formatted name is empty, if the entity or the activity is not found
    /// or if the entity does not take part in the activity.
    pub fn remove_entity_from_activity(&mut self, id: ActivityId, entity_name: &str) -> (r: Result<
        (),
        FelixError,
    >)
        requires
            old(self).wf(),
        ensures
            final(self).wf(),
            r is Ok <==> has_word(entity_name@) && old(self)@.entities.contains_key(
                spec_clean_string(entity_name@),
            ) && has_activity(old(self)@.activities.activities, id) && activity_with_id(
                old(self)@.activities.activities,
                id,
            ).metadata.entities.contains(spec_clean_string(entity_name@)),
            r is Ok ==> final(self)@ == data_with_entity_removed(
                old(self)@,
                id,
                spec_clean_string(entity_name@),
            ),
            r is Err ==> final(self)@ == old(self)@,
            !has_word(entity_name@) ==> (r matches Err(e) && e is EmptyName),
            has_word(entity_name@) && !old(self)@.entities.contains_key(
                spec_clean_string(entity_name@),
            ) ==> (r matches Err(FelixError::DoesNotExist(d)) && d.is_entity_named(
                spec_clean_string(entity_name@),
            )),
            has_word(entity_name@) && old(self)@.entities.contains_key(
                spec_clean_string(entity_name@),
            ) && !has_activity(old(self)@.activities.activities, id) ==> (r matches Err(e)
                && is_activity_not_found(e, id)),
            has_word(entity_name@) && old(self)@.entities.contains_key(
                spec_clean_string(entity_name@),
            ) && has_activity(old(self)@.activities.activities, id) && !activity_with_id(
                old(self)@.activities.activities,
                id,
            ).metadata.entities.contains(spec_clean_string(entity_name@)) ==> (r matches Err(
                FelixError::NotIn(a),
            ) && a.spec_who() == spec_clean_string(entity_name@) && a.spec_in_who()
                == activity_with_id(old(self)@.activities.activities, id).metadata.name),
    {
        let entity = self.entity(entity_name)?;
        let name = entity.name();
        proof {
            self.lemma_wf();
            assert(name@ == spec_clean_string(entity_name@));
        }
        self.remove_existing_entity_from_activity(id, &name)
    }

    /// Removes the existing entity with the given name from the activity with the given id.
    /// The insertion costs of the activities of the entity are invalidated; an activity left
    /// without participants is removed from the schedule, else the insertion costs of the
    /// activities of its participants are invalidated.
    ///
    /// Returns Err if the activity is not found or if the entity does not take part in it.
    pub(crate) fn remove_existing_entity_from_activity(&mut self, id: ActivityId, name: &String) -> (r:
        Result<(), FelixError>)
        requires
            old(self).wf(),
            old(self)@.entities.contains_key(name@),
        ensures
            final(self).wf(),
            r is Ok <==> has_activity(old(self)@.activities.activities, id) && activity_with_id(
                old(self)@.activities.activities,
                id,
            ).metadata.entities.contains(name@),
            r is Ok ==> final(self)@ == data_with_entity_removed(old(self)@, id, name@),
            r is Err ==> final(self)@ == old(self)@,
            !has_activity(old(self)@.activities.activities, id) ==> (r matches Err(e)
                && is_activity_not_found(e, id)),
            has_activity(old(self)@.activities.activities, id) && !activity_with_id(
                old(self)@.activities.activities,
                id,
            ).metadata.entities.contains(name@) ==> (r matches Err(FelixError::NotIn(a))
                && a.spec_who() == name@ && a.spec_in_who() == activity_with_id(
                old(self)@.activities.activities,
                id,
            ).metadata.name),
    {
        proof {
            self.lemma_wf();
        }
        self.activities.remove_entity(id, name.as_str())?;
        proof {
            let v = old(self)@;
            let w = self@;
            let s = v.activities.activities;
            let t = w.activities.activities;
            assert forall|i: int| 0 <= i < t.len() implies super::activity_fits(v, #[trigger] t[i]) by {
                super::lemma_activity_fits(v, i);
                super::lemma_fits_like(v, s[i], t[i]);
            }
            super::lemma_coherent_activities(v, w);
        }
        let mut names: Vec<String> = Vec::new();
        names.push(name.clone());
        proof {
            assert(names@[0]@ == name@);
            assert forall|n: Seq<char>| #[trigger] name_set(names@).contains(n) <==> n == name@ by {
                if n == name@ {
                    assert(names@[0].spec_name() == n);
                }
            }
            assert(name_set(names@) =~= set![name@]);
        }
        self.queue_entities(&names);
        proof {
            let p = crate::activities::index_of_activity(old(self)@.activities.activities, id);
            assert(self@.activities.activities[p].metadata.id == id);
            assert(has_activity(self@.activities.activities, id));
        }
        let activity = self.activity(id).unwrap();
        let participants = activity.entities_sorted();
        if participants.len() == 0 {
            proof {
                lemma_empty_names(participants@);
            }
            let _ = self.insert_activity(id, None);
        } else {
            proof {
                lemma_nonempty_names(participants@);
            }
            self.queue_entities(&participants);
        }
        Ok(())
    }

    /// Returns Err if a participant of the activity has less free time than required: the
    /// error names the first one (by name).
    fn check_participants_have_time(&self, activity: &Activity, required: Time) -> (r: Result<
        (),
        FelixError,
    >)
        requires
            self.wf(),
            activity.wf(),
            forall|e: Seq<char>| activity@.metadata.entities.contains(e) ==> self@.entities.contains_key(e),
        ensures
            r is Ok <==> !some_participant_lacks_time(self@, activity@, required@),
            r matches Err(e) ==> exists|n: Seq<char>|
                is_first_participant_lacking_time(self@, activity@, n, required@) && (
                e matches FelixError::NotEnoughTime(t) && t.is_activity_duration_increased_for(
                    n,
                    activity@.metadata.name,
                )),
    {
        let participants = activity.entities_sorted();
        let mut i: usize = 0;
        while i < participants.len()
            invariant
                self.wf(),
                i <= participants@.len(),
                names_sorted(participants@),
                name_set(participants@) == activity@.metadata.entities,
                forall|e: Seq<char>| activity@.metadata.entities.contains(e) ==> self@.entities.contains_key(e),
                forall|k: int|
                    0 <= k < i ==> !participant_lacks_time(
                        self@,
                        activity@,
                        (#[trigger] participants@[k]).spec_name(),
                        required@,
                    ),
            decreases participants@.len() - i,
        {
            let name = &participants[i];
            proof {
                assert(activity@.metadata.entities.contains(participants@[i as int].spec_name()));
            }
            let free = self.free_time_of_existing(name);
            if free.is_before(&required) {
                proof {
                    let n = name@;
                    assert(participant_lacks_time(self@, activity@, n, required@));
                    assert forall|other: Seq<char>| #[trigger] participant_lacks_time(self@, activity@, other, required@) implies !lex_lt(other, n) by {
                        assert(name_set(participants@).contains(other));
                        let k = choose|k: int| 0 <= k < participants@.len() && #[trigger] participants@[k].spec_name() == other;
                        if lex_lt(other, n) {
                            if k > i {
                                lemma_sorted_lt(participants@, i as int, k);
                                lemma_lex_lt_asymmetric(other, n);
                            } else if k == i {
                                lemma_lex_lt_irreflexive(n);
                            }
                        }
                    }
                    assert(is_first_participant_lacking_time(self@, activity@, n, required@));
                }
                return Err(
                    FelixError::NotEnoughTime(
                        NotEnoughTime::activity_duration_too_long_for(name.clone(), activity.name()),
                    ),
                );
            }
            i = i + 1;
        }
        proof {
            assert forall|other: Seq<char>| !#[trigger] participant_lacks_time(self@, activity@, other, required@) by {
                if activity@.metadata.entities.contains(other) {
                    assert(name_set(participants@).contains(other));
                    let k = choose|k: int| 0 <= k < participants@.len() && #[trigger] participants@[k].spec_name() == other;
                }
            }
        }
        Ok(())
    }

    /// Sets the duration of the activity with the given id.
    ///
    /// If the duration is longer, the participants must have enough free time, and an
    /// inserted activity is removed from the schedule (it is remembered with its former
    /// beginning, to be inserted back in the closest spot). The insertion costs of the activity
    /// and of the activities of its participants are invalidated.
    ///
    /// Returns Err if the activity is not found, if the duration is too short
    /// (< MIN_TIME_DISCRETIZATION) or if a participant does not have enough time left.
    pub fn set_activity_duration(&mut self, id: ActivityId, new_duration: Time) -> (r: Result<
        (),
        FelixError,
    >)
        requires
            old(self).wf(),
            new_duration.wf(),
        ensures
            final(self).wf(),
            r is Ok <==> has_activity(old(self)@.activities.activities, id)
                && MIN_TIME_DISCRETIZATION_MINUTES <= new_duration@ && (new_duration@
                > activity_with_id(old(self)@.activities.activities, id).computation.duration
                ==> !some_participant_lacks_time(
                old(self)@,
                activity_with_id(old(self)@.activities.activities, id),
                new_duration@ - activity_with_id(
                    old(self)@.activities.activities,
                    id,
                ).computation.duration,
            )),
            r is Ok ==> final(self)@ == data_with_duration(old(self)@, id, new_duration@),
            r is Err ==> final(self)@ == old(self)@,
            !has_activity(old(self)@.activities.activities, id) ==> (r matches Err(e)
                && is_activity_not_found(e, id)),
            has_activity(old(self)@.activities.activities, id) && new_duration@
                < MIN_TIME_DISCRETIZATION_MINUTES ==> (r matches Err(e) && e is DurationTooShort),
            has_activity(old(self)@.activities.activities, id) && new_duration@ > activity_with_id(
                old(self)@.activities.activities,
                id,
            ).computation.duration && some_participant_lacks_time(
                old(self)@,
                activity_with_id(old(self)@.activities.activities, id),
                new_duration@ - activity_with_id(
                    old(self)@.activities.activities,
                    id,
                ).computation.duration,
            ) ==> (r matches Err(e) && exists|n: Seq<char>|
                #[trigger] is_first_participant_lacking_time(
                    old(self)@,
                    activity_with_id(old(self)@.activities.activities, id),
                    n,
                    new_duration@ - activity_with_id(
                        old(self)@.activities.activities,
                        id,
                    ).computation.duration,
                ) && (e matches FelixError::NotEnoughTime(t) && t.is_activity_duration_increased_for(
                    n,
                    activity_with_id(old(self)@.activities.activities, id).metadata.name,
                ))),
    {
        proof {
            self.lemma_wf();
            self.activities.lemma_wf();
        }
        let activity = self.activity(id)?;
        let ghost v = old(self)@;
        let ghost s = v.activities.activities;
        let ghost p = crate::activities::index_of_activity(s, id);
        let old_duration = activity.duration();
        if old_duration.is_before(&new_duration) {
            proof {
                activity.lemma_wf();
                assert(s[p] == activity@);
                assert forall|e: Seq<char>| activity@.metadata.entities.contains(e) implies self@.entities.contains_key(e) by {
                    assert(s[p].metadata.entities.contains(e));
                }
            }
            let required = new_duration.sub(old_duration);
            self.check_participants_have_time(&activity, required)?;
            if activity.is_inserted() {
                let _ = self.activities.store_activity_was_inserted(id);
                let _ = self.activities.insert_activity(id, None);
            }
        }
        if new_duration.total_minutes() < MIN_TIME_DISCRETIZATION_MINUTES {
            return Err(FelixError::DurationTooShort);
        }
        proof {
            let t = self@.activities.activities;
            crate::activities::lemma_index_of_same_ids(s, t, id);
            assert(spans_its_duration(s[p]));
            assert(t[p].computation.duration == s[p].computation.duration);
            assert(new_duration@ < t[p].computation.duration ==> t[p] == s[p]);
        }
        let _ = self.activities.set_duration(id, new_duration);
        let _ = self.activities.set_insertion_costs(id, None);
        proof {
            let w = self@;
            let t = w.activities.activities;
            crate::activities::lemma_index_of_same_ids(s, t, id);
            assert(t =~= set_computation_of(s, id, computation_with_duration(s[p].computation, new_duration@)));
            lemma_coherent_new_computation(v, id, computation_with_duration(s[p].computation, new_duration@));
            super::lemma_coherent_same(with_activities(v, t), w);
        }
        let participants = activity.entities_sorted();
        proof {
            crate::named::lemma_string_names(participants@);
        }
        self.queue_entities(&participants);
        Ok(())
    }

    /// Adds the group with the formatted given name to the activity with the given id, with
    /// its members. The insertion costs of the activities of the participants are invalidated.
    ///
    /// Returns Err if the formatted name is empty, if the group or the activity is not found,
    /// if a member does not have enough time left or if the group already takes part in the
    /// activity (its members are added in that case).
    pub fn add_group_to_activity(&mut self, id: ActivityId, group_name: &str) -> (r: Result<
        (),
        FelixError,
    >)
        requires
            old(self).wf(),
        ensures
            final(self).wf(),
            r is Ok <==> has_word(group_name@) && old(self)@.groups.contains_key(
                spec_clean_string(group_name@),
            ) && has_activity(old(self)@.activities.activities, id) && !some_member_lacks_time(
                old(self)@,
                activity_with_id(old(self)@.activities.activities, id),
                spec_clean_string(group_name@),
            ) && !activity_with_id(old(self)@.activities.activities, id).metadata.groups.contains(
                spec_clean_string(group_name@),
            ),
            r is Ok ==> final(self)@ == data_with_group_added(
                old(self)@,
                id,
                spec_clean_string(group_name@),
            ),
            !has_word(group_name@) ==> (r matches Err(e) && e is EmptyName && final(self)@ == old(
                self,
            )@),
            has_word(group_name@) && !old(self)@.groups.contains_key(spec_clean_string(group_name@))
                ==> (r matches Err(FelixError::DoesNotExist(d)) && d.is_group_named(
                spec_clean_string(group_name@),
            ) && final(self)@ == old(self)@),
            has_word(group_name@) && old(self)@.groups.contains_key(spec_clean_string(group_name@))
                && !has_activity(old(self)@.activities.activities, id) ==> (r matches Err(e)
                && is_activity_not_found(e, id) && final(self)@ == old(self)@),
            has_word(group_name@) && old(self)@.groups.contains_key(spec_clean_string(group_name@))
                && has_activity(old(self)@.activities.activities, id) && some_member_lacks_time(
                old(self)@,
                activity_with_id(old(self)@.activities.activities, id),
                spec_clean_string(group_name@),
            ) ==> (final(self)@ == old(self)@ && (r matches Err(e) && exists|n: Seq<char>|
                is_first_member_lacking_time(
                    old(self)@,
                    activity_with_id(old(self)@.activities.activities, id),
                    spec_clean_string(group_name@),
                    n,
                ) && (e matches FelixError::NotEnoughTime(t) && t.is_activity_added_for(
                    n,
                    activity_with_id(old(self)@.activities.activities, id).metadata.name,
                )))),
            has_word(group_name@) && old(self)@.groups.contains_key(spec_clean_string(group_name@))
                && has_activity(old(self)@.activities.activities, id) && !some_member_lacks_time(
                old(self)@,
                activity_with_id(old(self)@.activities.activities, id),
                spec_clean_string(group_name@),
            ) && activity_with_id(old(self)@.activities.activities, id).metadata.groups.contains(
                spec_clean_string(group_name@),
            ) ==> (r matches Err(FelixError::AlreadyIn(x)) && x.spec_who() == spec_clean_string(
                group_name@,
            ) && final(self)@ == with_activities(
                old(self)@,
                activities_with_group_members(old(self)@, id, spec_clean_string(group_name@), false),
            )),
    {
        proof {
            self.lemma_wf();
        }
        let group = self.group(group_name)?;
        let g = group.name();
        let members = group.entities_sorted();
        let activity = self.activity(id)?;
        let ghost v = old(self)@;
        let ghost s = v.activities.activities;
        let ghost a = activity@;
        let ghost p = crate::activities::index_of_activity(s, id);
        proof {
            assert(g@ == spec_clean_string(group_name@));
            assert(name_set(members@) == v.groups[g@].entities);
        }
        // Check that the members have enough time.
        let mut i: usize = 0;
        while i < members.len()
            invariant
                self.wf(),
                self@ == v,
                v == old(self)@,
                a == activity@,
                s == v.activities.activities,
                a == activity_with_id(s, id),
                has_activity(s, id),
                has_word(group_name@),
                g@ == spec_clean_string(group_name@),
                i <= members@.len(),
                names_sorted(members@),
                name_set(members@) == v.groups[g@].entities,
                v.groups.contains_key(g@),
                is_coherent(v),
                forall|k: int|
                    0 <= k < i ==> !member_lacks_time(v, a, g@, (#[trigger] members@[k]).spec_name()),
            decreases members@.len() - i,
        {
            let name = &members[i];
            proof {
                assert(name_set(members@).contains(members@[i as int].spec_name()));
                assert(v.groups[g@].entities.contains(name@));
            }
            if !activity.contains_entity(name) {
                let free = self.free_time_of_existing(name);
                if free.is_before(&activity.duration()) {
                    proof {
                        let n = name@;
                        assert(member_lacks_time(v, a, g@, n));
                        assert forall|other: Seq<char>| #[trigger] member_lacks_time(v, a, g@, other) implies !lex_lt(other, n) by {
                            assert(name_set(members@).contains(other));
                            let k = choose|k: int| 0 <= k < members@.len() && #[trigger] members@[k].spec_name() == other;
                            if lex_lt(other, n) {
                                if k > i {
                                    lemma_sorted_lt(members@, i as int, k);
                                    lemma_lex_lt_asymmetric(other, n);
                                } else if k == i {
                                    lemma_lex_lt_irreflexive(n);
                                }
                            }
                        }
                        assert(is_first_member_lacking_time(v, a, g@, n));
                    }
                    return Err(
                        FelixError::NotEnoughTime(
                            NotEnoughTime::activity_added_for(name.clone(), activity.name()),
                        ),
                    );
                }
            }
            i = i + 1;
        }
        proof {
            assert forall|other: Seq<char>| !#[trigger] member_lacks_time(v, a, g@, other) by {
                if v.groups[g@].entities.contains(other) {
                    assert(name_set(members@).contains(other));
                    let k = choose|k: int| 0 <= k < members@.len() && #[trigger] members@[k].spec_name() == other;
                }
            }
            self.activities.lemma_wf();
            crate::activities::lemma_set_same_metadata(s, id);
            crate::activities::lemma_refresh_up_to_date(s);
            crate::named::lemma_name_set_take_ends(members@);
            assert(a.metadata.entities.union(name_set(members@.take(0))) =~= a.metadata.entities);
            assert(a == s[p]);
        }
        // Add the members.
        let mut j: usize = 0;
        while j < members.len()
            invariant
                self.activities.wf(),
                self.work_hours == old(self).work_hours,
                self.entities == old(self).entities,
                self.groups == old(self).groups,
                v == old(self)@,
                s == v.activities.activities,
                a == activity_with_id(s, id),
                has_activity(s, id),
                crate::activities::ids_unique(s),
                j <= members@.len(),
                self@.activities.removed_because_duration_increased == v.activities.removed_because_duration_increased,
                self@.activities.activities == refresh_conflicts(
                    set_metadata_of(
                        s,
                        id,
                        ActivityMetadataView {
                            entities: a.metadata.entities.union(name_set(members@.take(j as int))),
                            ..a.metadata
                        },
                    ),
                ),
            decreases members@.len() - j,
        {
            let ghost cur = self@.activities.activities;
            let ghost m_j = ActivityMetadataView {
                entities: a.metadata.entities.union(name_set(members@.take(j as int))),
                ..a.metadata
            };
            proof {
                crate::activities::lemma_index_of_same_ids(s, cur, id);
                lemma_name_set_take_step(members@, j as int);
            }
            let added = self.activities.add_entity(id, members[j].clone());
            proof {
                let e = members@[j as int]@;
                let m_next = ActivityMetadataView {
                    entities: a.metadata.entities.union(name_set(members@.take(j + 1))),
                    ..a.metadata
                };
                assert(members@[j as int].spec_name() == e);
                assert(m_next.entities =~= m_j.entities.insert(e));
                if added is Ok {
                    assert(activity_with_id(cur, id).metadata == m_j);
                    crate::activities::lemma_refresh_set_metadata_twice(s, id, m_j, m_next);
                } else {
                    assert(m_next.entities =~= m_j.entities);
                    assert(m_next == m_j);
                }
            }
            j = j + 1;
        }
        proof {
            crate::named::lemma_name_set_take_ends(members@);
            let t = self@.activities.activities;
            let w = self@;
            assert(t == activities_with_group_members(v, id, g@, false));
            assert forall|i: int| 0 <= i < t.len() implies super::activity_fits(v, #[trigger] t[i]) by {
                super::lemma_activity_fits(v, i);
                assert forall|e: Seq<char>| v.groups[g@].entities.contains(e) implies v.entities.contains_key(e) by {}
                super::lemma_fits_like(v, s[i], t[i]);
            }
            super::lemma_coherent_activities(v, w);
            let cur = self@.activities.activities;
            crate::activities::lemma_index_of_same_ids(s, cur, id);
        }
        // Add the group.
        let ghost before_group = self@.activities.activities;
        self.activities.add_group(id, g.clone())?;
        proof {
            let t = self@.activities.activities;
            let w = self@;
            let m_all = ActivityMetadataView {
                entities: a.metadata.entities.union(v.groups[g@].entities),
                ..a.metadata
            };
            let m_group = ActivityMetadataView { groups: a.metadata.groups.insert(g@), ..m_all };
            assert(activity_with_id(before_group, id).metadata == m_all);
            crate::activities::lemma_refresh_set_metadata_twice(s, id, m_all, m_group);
            assert(t == activities_with_group_members(v, id, g@, true));
            assert forall|i: int| 0 <= i < t.len() implies super::activity_fits(v, #[trigger] t[i]) by {
                super::lemma_activity_fits(v, i);
                assert forall|e: Seq<char>| v.groups[g@].entities.contains(e) implies v.entities.contains_key(e) by {}
                super::lemma_fits_like(v, s[i], t[i]);
            }
            super::lemma_coherent_activities(v, w);
            crate::activities::lemma_index_of_same_ids(s, t, id);
        }
        let updated = self.activity(id).unwrap();
        let participants = updated.entities_sorted();
        proof {
            crate::named::lemma_string_names(participants@);
        }
        self.queue_entities(&participants);
        Ok(())
    }

    /// Returns the members of the group which take part in the activity through no other
    /// group of the activity, sorted by name.
    ///
    /// Returns Err if the activity or the group does not exist.
    pub fn entities_participating_through_this_group_only(
        &self,
        id: ActivityId,
        group_name: &String,
    ) -> (r: Result<Vec<String>, FelixError>)
        requires
            self.wf(),
        ensures
            r is Ok <==> has_activity(self@.activities.activities, id) && self@.groups.contains_key(
                group_name@,
            ),
            r matches Ok(v) ==> name_set(v@) == only_through_group(
                self@,
                activity_with_id(self@.activities.activities, id),
                group_name@,
            ),
            !has_activity(self@.activities.activities, id) ==> (r matches Err(e)
                && is_activity_not_found(e, id)),
            has_activity(self@.activities.activities, id) && !self@.groups.contains_key(group_name@)
                ==> (r matches Err(FelixError::DoesNotExist(d)) && d.is_group_named(group_name@)),
    {
        proof {
            self.lemma_wf();
        }
        let activity = self.activity(id)?;
        let group = self.groups.get_by_name(group_name.as_str())?;
        let ghost v = self@;
        let ghost a = activity@;
        let ghost s = v.activities.activities;
        let ghost p = crate::activities::index_of_activity(s, id);
        let members = group.entities_sorted();
        let others = activity.groups_sorted();
        let mut r: Vec<String> = Vec::new();
        let mut i: usize = 0;
        while i < members.len()
            invariant
                self.wf(),
                v == self@,
                a == activity@,
                a == s[p],
                s == v.activities.activities,
                0 <= p < s.len(),
                is_coherent(v),
                v.groups.contains_key(group_name@),
                name_set(members@) == v.groups[group_name@].entities,
                name_set(others@) == a.metadata.groups,
                i <= members@.len(),
                forall|k: int| 0 <= k < r@.len() ==> only_through_group(v, a, group_name@).contains(#[trigger] r@[k]@),
                forall|k: int|
                    0 <= k < i && only_through_group(v, a, group_name@).contains(#[trigger] members@[k]@)
                        ==> exists|l: int| 0 <= l < r@.len() && r@[l]@ == members@[k]@,
            decreases members@.len() - i,
        {
            let e = &members[i];
            let mut found = false;
            let mut j: usize = 0;
            while j < others.len()
                invariant
                    self.wf(),
                    v == self@,
                    is_coherent(v),
                    a == s[p],
                    s == v.activities.activities,
                    0 <= p < s.len(),
                    name_set(others@) == a.metadata.groups,
                    j <= others@.len(),
                    found ==> in_other_group(v, a, group_name@, e@),
                    !found ==> forall|k: int|
                        0 <= k < j ==> (#[trigger] others@[k])@ == group_name@ || !v.groups[others@[k]@].entities.contains(e@),
                decreases others@.len() - j,
            {
                if !crate::strings::string_eq(&others[j], group_name) {
                    proof {
                        assert(name_set(others@).contains(others@[j as int].spec_name()));
                        assert(s[p].metadata.groups.contains(others@[j as int]@));
                    }
                    let other = self.groups.get_by_name(others[j].as_str()).unwrap();
                    if other.contains_entity(e) {
                        proof {
                            assert(v.groups[others@[j as int]@].entities.contains(e@));
                        }
                        found = true;
                    }
                }
                j = j + 1;
            }
            let ghost old_r = r@;
            proof {
                if !found {
                    assert forall|other: Seq<char>| a.metadata.groups.contains(other) && other != group_name@ implies !#[trigger] v.groups[other].entities.contains(e@) by {
                        assert(name_set(others@).contains(other));
                        let k = choose|k: int| 0 <= k < others@.len() && #[trigger] others@[k].spec_name() == other;
                    }
                }
            }
            if !found {
                r.push(e.clone());
            }
            proof {
                assert(name_set(members@).contains(members@[i as int].spec_name()));
                assert forall|k: int|
                    0 <= k < i + 1 && only_through_group(v, a, group_name@).contains(#[trigger] members@[k]@)
                        implies exists|l: int| 0 <= l < r@.len() && r@[l]@ == members@[k]@ by {
                    if k < i {
                        let l = choose|l: int| 0 <= l < old_r.len() && old_r[l]@ == members@[k]@;
                        assert(r@[l] == old_r[l]);
                    } else {
                        assert(r@[r@.len() - 1]@ == members@[k]@);
                    }
                }
            }
            i = i + 1;
        }
        proof {
            assert forall|n: Seq<char>| #[trigger] name_set(r@).contains(n) <==> only_through_group(v, a, group_name@).contains(n) by {
                if name_set(r@).contains(n) {
                    let l = choose|l: int| 0 <= l < r@.len() && #[trigger] r@[l].spec_name() == n;
                }
                if only_through_group(v, a, group_name@).contains(n) {
                    assert(name_set(members@).contains(n));
                    let k = choose|k: int| 0 <= k < members@.len() && #[trigger] members@[k].spec_name() == n;
                    let l = choose|l: int| 0 <= l < r@.len() && r@[l]@ == members@[k]@;
                    assert(r@[l].spec_name() == n);
                }
            }
            assert(name_set(r@) =~= only_through_group(v, a, group_name@));
        }
        Ok(r)
    }

    /// Removes the group with the formatted given name from the activity with the given id,
    /// with the members which take part in the activity only through this group. The
    /// insertion costs of the activities of the remaining participants are invalidated.
    ///
    /// Returns Err if the formatted name is empty, if the group or the activity is not found
    /// or if the group does not take part in the activity (the members which took part only
    /// through the group are removed in that case).
    pub fn remove_group_from_activity(&mut self, id: ActivityId, group_name: &str) -> (r: Result<
        (),
        FelixError,
    >)
        requires
            old(self).wf(),
        ensures
            final(self).wf(),
            r is Ok <==> has_word(group_name@) && old(self)@.groups.contains_key(
                spec_clean_string(group_name@),
            ) && has_activity(old(self)@.activities.activities, id) && activity_with_id(
                old(self)@.activities.activities,
                id,
            ).metadata.groups.contains(spec_clean_string(group_name@)),
            r is Ok ==> final(self)@ == data_with_group_removed(
                old(self)@,
                id,
                spec_clean_string(group_name@),
            ),
            !has_word(group_name@) ==> (r matches Err(e) && e is EmptyName && final(self)@ == old(
                self,
            )@),
            has_word(group_name@) && !old(self)@.groups.contains_key(spec_clean_string(group_name@))
                ==> (r matches Err(FelixError::DoesNotExist(d)) && d.is_group_named(
                spec_clean_string(group_name@),
            ) && final(self)@ == old(self)@),
            has_word(group_name@) && old(self)@.groups.contains_key(spec_clean_string(group_name@))
                && !has_activity(old(self)@.activities.activities, id) ==> (r matches Err(e)
                && is_activity_not_found(e, id) && final(self)@ == old(self)@),
            has_word(group_name@) && old(self)@.groups.contains_key(spec_clean_string(group_name@))
                && has_activity(old(self)@.activities.activities, id) && !activity_with_id(
                old(self)@.activities.activities,
                id,
            ).metadata.groups.contains(spec_clean_string(group_name@)) ==> (r matches Err(
                FelixError::NotIn(x),
            ) && x.spec_who() == spec_clean_string(group_name@) && final(self)@ == with_activities(
                old(self)@,
                activities_without_group_members(
                    old(self)@,
                    id,
                    spec_clean_string(group_name@),
                    false,
                ),
            )),
    {
        proof {
            self.lemma_wf();
        }
        let group = self.group(group_name)?;
        let g = group.name();
        self.remove_existing_group_from_activity(id, &g)
    }

    /// Removes the existing group with the given name from the activity with the given id,
    /// with the members which take part in the activity only through this group. The
    /// insertion costs of the activities of the remaining participants are invalidated.
    ///
    /// Returns Err if the activity is not found or if the group does not take part in the
    /// activity (the members which took part only through the group are removed in that case).
    pub(crate) fn remove_existing_group_from_activity(&mut self, id: ActivityId, g: &String) -> (r:
        Result<(), FelixError>)
        requires
            old(self).wf(),
            old(self)@.groups.contains_key(g@),
        ensures
            final(self).wf(),
            r is Ok <==> has_activity(old(self)@.activities.activities, id) && activity_with_id(
                old(self)@.activities.activities,
                id,
            ).metadata.groups.contains(g@),
            r is Ok ==> final(self)@ == data_with_group_removed(old(self)@, id, g@),
            !has_activity(old(self)@.activities.activities, id) ==> (r matches Err(e)
                && is_activity_not_found(e, id) && final(self)@ == old(self)@),
            has_activity(old(self)@.activities.activities, id) && !activity_with_id(
                old(self)@.activities.activities,
                id,
            ).metadata.groups.contains(g@) ==> (r matches Err(FelixError::NotIn(x)) && x.spec_who()
                == g@ && final(self)@ == with_activities(
                old(self)@,
                activities_without_group_members(old(self)@, id, g@, false),
            )),
    {
        proof {
            self.lemma_wf();
            self.activities.lemma_wf();
        }
        let to_remove = self.entities_participating_through_this_group_only(id, g)?;
        let ghost v = old(self)@;
        let ghost s = v.activities.activities;
        let ghost a = activity_with_id(s, id);
        let ghost p = crate::activities::index_of_activity(s, id);
        proof {
            crate::activities::lemma_set_same_metadata(s, id);
            crate::activities::lemma_refresh_up_to_date(s);
            crate::named::lemma_name_set_take_ends(to_remove@);
            assert(a.metadata.entities.difference(name_set(to_remove@.take(0))) =~= a.metadata.entities);
        }
        let mut j: usize = 0;
        while j < to_remove.len()
            invariant
                self.activities.wf(),
                self.work_hours == old(self).work_hours,
                self.entities == old(self).entities,
                self.groups == old(self).groups,
                v == old(self)@,
                s == v.activities.activities,
                a == activity_with_id(s, id),
                has_activity(s, id),
                crate::activities::ids_unique(s),
                j <= to_remove@.len(),
                self@.activities.removed_because_duration_increased == v.activities.removed_because_duration_increased,
                self@.activities.activities == refresh_conflicts(
                    set_metadata_of(
                        s,
                        id,
                        ActivityMetadataView {
                            entities: a.metadata.entities.difference(name_set(to_remove@.take(j as int))),
                            ..a.metadata
                        },
                    ),
                ),
            decreases to_remove@.len() - j,
        {
            let ghost cur = self@.activities.activities;
            let ghost m_j = ActivityMetadataView {
                entities: a.metadata.entities.difference(name_set(to_remove@.take(j as int))),
                ..a.metadata
            };
            proof {
                crate::activities::lemma_index_of_same_ids(s, cur, id);
                lemma_name_set_take_step(to_remove@, j as int);
            }
            let removed = self.activities.remove_entity(id, to_remove[j].as_str());
            proof {
                let e = to_remove@[j as int]@;
                let m_next = ActivityMetadataView {
                    entities: a.metadata.entities.difference(name_set(to_remove@.take(j + 1))),
                    ..a.metadata
                };
                assert(to_remove@[j as int].spec_name() == e);
                assert(m_next.entities =~= m_j.entities.remove(e));
                if removed is Ok {
                    assert(activity_with_id(cur, id).metadata == m_j);
                    crate::activities::lemma_refresh_set_metadata_twice(s, id, m_j, m_next);
                } else {
                    assert(m_next.entities =~= m_j.entities);
                    assert(m_next == m_j);
                }
            }
            j = j + 1;
        }
        proof {
            crate::named::lemma_name_set_take_ends(to_remove@);
            let t = self@.activities.activities;
            let w = self@;
            assert(t == activities_without_group_members(v, id, g@, false));
            assert forall|i: int| 0 <= i < t.len() implies super::activity_fits(v, #[trigger] t[i]) by {
                super::lemma_activity_fits(v, i);
                super::lemma_fits_like(v, s[i], t[i]);
            }
            super::lemma_coherent_activities(v, w);
            crate::activities::lemma_index_of_same_ids(s, t, id);
        }
        let ghost before_group = self@.activities.activities;
        self.activities.remove_group(id, g.as_str())?;
        proof {
            let t = self@.activities.activities;
            let w = self@;
            let m_all = ActivityMetadataView {
                entities: a.metadata.entities.difference(only_through_group(v, a, g@)),
                ..a.metadata
            };
            let m_group = ActivityMetadataView { groups: a.metadata.groups.remove(g@), ..m_all };
            assert(activity_with_id(before_group, id).metadata == m_all);
            crate::activities::lemma_refresh_set_metadata_twice(s, id, m_all, m_group);
            assert(t == activities_without_group_members(v, id, g@, true));
            assert forall|i: int| 0 <= i < t.len() implies super::activity_fits(v, #[trigger] t[i]) by {
                super::lemma_activity_fits(v, i);
                super::lemma_fits_like(v, s[i], t[i]);
            }
            super::lemma_coherent_activities(v, w);
            crate::activities::lemma_index_of_same_ids(s, t, id);
        }
        let updated = self.activity(id).unwrap();
        let participants = updated.entities_sorted();
        proof {
            crate::named::lemma_string_names(participants@);
        }
        self.queue_entities(&participants);
        Ok(())
    }

    /// Clears the list of activities which were removed from the schedule because their
    /// duration increased: they will not be inserted back automatically.
    pub fn clear_list_activities_removed_because_duration_increased(&mut self)
        requires
            old(self).wf(),
        ensures
            final(self).wf(),
            final(self)@ == (DataView {
                activities: ActivitiesView {
                    removed_because_duration_increased: Seq::empty(),
                    ..old(self)@.activities
                },
                ..old(self)@
            }),
    {
        self.activities.clear_activities_removed_because_duration_increased();
        proof {
            assert(self@.activities =~= ActivitiesView {
                removed_because_duration_increased: Seq::empty(),
                ..old(self)@.activities
            });
        }
    }

    /// True if activities were removed from the schedule because their duration increased.
    pub fn activities_were_uninserted_and_can_maybe_be_inserted_back(&self) -> (b: bool)
        ensures
            b == (self@.activities.removed_because_duration_increased.len() > 0),
    {
        self.activities.get_activities_removed_because_duration_increased().len() > 0
    }


    /// Inserts the activities which were removed from the schedule because their duration
    /// increased back into the schedule, each at the possible beginning closest to its former
    /// one (the earliest of two at the same distance). An activity whose possible beginnings
    /// are computed is no longer remembered, whether it could be inserted or not.
    pub fn insert_activities_removed_because_duration_increased_in_closest_spot(&mut self)
        requires
            old(self).wf(),
        ensures
            final(self).wf(),
            final(self)@ == reinsert_all(old(self)@, old(self)@.activities.removed_because_duration_increased),
    {
        let list = self.activities.get_activities_removed_because_duration_increased();
        let ghost l = old(self)@.activities.removed_because_duration_increased;
        assert(l.take(0) =~= Seq::<(ActivityId, int)>::empty());
        let mut j: usize = 0;
        while j < list.len()
            invariant
                self.wf(),
                j <= list@.len(),
                list@.map_values(|p: (ActivityId, Time)| (p.0, p.1@)) == l,
                self@ == reinsert_all(old(self)@, l.take(j as int)),
            decreases list@.len() - j,
        {
            let (id, old_beginning) = list[j];
            let ghost cur = self@;
            proof {
                assert(l[j as int] == (id, old_beginning@));
                assert(l.take(j + 1).drop_last() =~= l.take(j as int));
                assert(l.take(j + 1).last() == (id, old_beginning@));
                self.lemma_wf();
            }
            match self.activities.get_by_id(id) {
                Ok(a) => {
                    match a.insertion_costs() {
                        Some(c) => {
                            proof {
                                let p = crate::activities::index_of_activity(cur.activities.activities, id);
                                assert(costs_fit(cur.activities.activities[p]));
                            }
                            let inserted = self.activities.insert_activity_in_spot_closest_to(
                                id,
                                old_beginning,
                                c,
                            );
                            proof {
                                let v = cur;
                                let s = v.activities.activities;
                                let w = self@;
                                let t = w.activities.activities;
                                let p = crate::activities::index_of_activity(s, id);
                                if inserted {
                                    let b = choose|b: int| is_closest_beginning(c@, old_beginning@, b) && t == set_computation_of(s, id, ComputationDataView {
                                        insertion_interval: Some((b, b + activity_with_id(s, id).computation.duration)),
                                        ..activity_with_id(s, id).computation
                                    });
                                    let b2 = choose|b: int| is_closest_beginning(c@, old_beginning@, b);
                                    lemma_closest_unique(c@, old_beginning@, b, b2);
                                }
                                assert forall|i: int| 0 <= i < t.len() implies super::activity_fits(v, #[trigger] t[i]) by {
                                    super::lemma_activity_fits(v, i);
                                    assert(t[i].metadata == s[i].metadata);
                                }
                                super::lemma_coherent_activities(v, w);
                                assert(w == reinsert_one(v, id, old_beginning@));
                            }
                        },
                        None => {},
                    }
                },
                Err(_) => {},
            }
            j = j + 1;
        }
        assert(l.take(l.len() as int) =~= l);
    }


    /// The work hours of the existing entity and the durations of its activities, sorted.
    fn work_hours_and_activity_durations_from_existing(&self, name: &String) -> (r:
        WorkHoursAndActivityDurationsSorted)
        requires
            self.wf(),
            self@.entities.contains_key(name@),
        ensures
            intervals_view(r.work_hours@) == work_hours_of_entity(self@, name@),
            sorted_times(r.activity_durations@),
            exists|ds: Seq<Time>|
                ds.map_values(|t: Time| t@) == durations_of(self@.activities.activities, name@)
                    && r.activity_durations@.to_multiset() == #[trigger] ds.to_multiset(),
    {
        let work_hours = self.work_hours_of_existing(name);
        let acts = self.activities.get_not_sorted();
        let ghost s = self@.activities.activities;
        let ghost pred = |a: ActivityView| a.metadata.entities.contains(name@);
        let ghost dur = |a: ActivityView| a.computation.duration;
        let mut durations: Vec<Time> = Vec::new();
        let mut i: usize = 0;
        assert(s.take(0).filter(pred).map_values(dur) =~= durations@.map_values(|t: Time| t@));
        while i < acts.len()
            invariant
                i <= acts@.len(),
                s == self@.activities.activities,
                s == crate::activities::activity_views(acts@),
                pred == (|a: ActivityView| a.metadata.entities.contains(name@)),
                dur == (|a: ActivityView| a.computation.duration),
                durations@.map_values(|t: Time| t@) == s.take(i as int).filter(pred).map_values(dur),
            decreases acts@.len() - i,
        {
            proof {
                reveal_with_fuel(Seq::filter, 1);
                assert(s.take(i + 1).drop_last() =~= s.take(i as int));
                assert(s.take(i + 1).last() == acts@[i as int]@);
            }
            let ghost before = durations@;
            if acts[i].contains_entity(name) {
                let d = acts[i].duration();
                durations.push(d);
                proof {
                    assert(s.take(i + 1).filter(pred) == s.take(i as int).filter(pred).push(acts@[i as int]@));
                    assert(durations@.map_values(|t: Time| t@) =~= before.map_values(|t: Time| t@).push(d@));
                    assert(s.take(i + 1).filter(pred).map_values(dur) =~= s.take(i as int).filter(pred).map_values(dur).push(dur(acts@[i as int]@)));
                }
            } else {
                proof {
                    assert(s.take(i + 1).filter(pred) == s.take(i as int).filter(pred));
                }
            }
            i = i + 1;
        }
        assert(s.take(i as int) =~= s);
        let ghost ds = durations@;
        let r = WorkHoursAndActivityDurationsSorted::new(work_hours, durations);
        assert(ds.map_values(|t: Time| t@) == durations_of(self@.activities.activities, name@));
        r
    }

    /// Given entities, outputs their work hours and the durations of their activities.
    ///
    /// Returns Err if a formatted name is empty or an entity does not exist: the error is
    /// about the first such entity.
    pub fn work_hours_and_activity_durations_from_entities(&self, entities: &Vec<String>) -> (r:
        Result<Vec<WorkHoursAndActivityDurationsSorted>, FelixError>)
        requires
            self.wf(),
        ensures
            r is Ok <==> forall|k: int| 0 <= k < entities@.len() ==> entity_valid(self@, #[trigger] entities@[k]@),
            r matches Ok(v) ==> v@.len() == entities@.len() && forall|k: int|
                0 <= k < v@.len() ==> intervals_view((#[trigger] v@[k]).work_hours@)
                    == work_hours_of_entity(self@, spec_clean_string(entities@[k]@)) && sorted_times(
                    v@[k].activity_durations@,
                ) && exists|ds: Seq<Time>|
                    ds.map_values(|t: Time| t@) == durations_of(
                        self@.activities.activities,
                        spec_clean_string(entities@[k]@),
                    ) && v@[k].activity_durations@.to_multiset() == #[trigger] ds.to_multiset(),
            r matches Err(e) ==> exists|k: int|
                0 <= k < entities@.len() && !entity_valid(self@, #[trigger] entities@[k]@) && (forall|
                    j: int,
                | 0 <= j < k ==> entity_valid(self@, #[trigger] entities@[j]@)) && if !has_word(
                    entities@[k]@,
                ) {
                    e is EmptyName
                } else {
                    e matches FelixError::DoesNotExist(d) && d.is_entity_named(
                        spec_clean_string(entities@[k]@),
                    )
                },
    {
        let mut r: Vec<WorkHoursAndActivityDurationsSorted> = Vec::new();
        let mut i: usize = 0;
        while i < entities.len()
            invariant
                self.wf(),
                i <= entities@.len(),
                r@.len() == i,
                forall|j: int| 0 <= j < i ==> entity_valid(self@, #[trigger] entities@[j]@),
                forall|k: int|
                    0 <= k < i ==> intervals_view((#[trigger] r@[k]).work_hours@)
                        == work_hours_of_entity(self@, spec_clean_string(entities@[k]@)) && sorted_times(
                        r@[k].activity_durations@,
                    ) && exists|ds: Seq<Time>|
                        ds.map_values(|t: Time| t@) == durations_of(
                            self@.activities.activities,
                            spec_clean_string(entities@[k]@),
                        ) && r@[k].activity_durations@.to_multiset() == #[trigger] ds.to_multiset(),
            decreases entities@.len() - i,
        {
            let entity = match self.entity(entities[i].as_str()) {
                Ok(e) => e,
                Err(e) => {
                    proof {
                        assert(!entity_valid(self@, entities@[i as int]@));
                        assert(entities[i as int]@ == entities@[i as int]@);
                    }
                    return Err(e);
                },
            };
            let name = entity.name();
            proof {
                self.lemma_wf();
            }
            let w = self.work_hours_and_activity_durations_from_existing(&name);
            r.push(w);
            i = i + 1;
        }
        Ok(r)
    }

    /// Invalidates the insertion costs of every activity: they have to be computed again.
    pub fn queue_every_activity_for_beginning_computation(&mut self)
        requires
            old(self).wf(),
        ensures
            final(self).wf(),
            final(self)@ == invalidate_data_costs(old(self)@, old(self)@.entities.dom()),
    {
        proof {
            self.lemma_wf();
        }
        let entities = self.entities_sorted();
        let mut names: Vec<String> = Vec::new();
        let mut i: usize = 0;
        while i < entities.len()
            invariant
                i <= entities@.len(),
                names@.len() == i,
                forall|k: int| 0 <= k < i ==> (#[trigger] names@[k])@ == entities@[k].spec_name(),
            decreases entities@.len() - i,
        {
            names.push(entities[i].name());
            i = i + 1;
        }
        proof {
            crate::named::lemma_name_map_dom(entities@);
            assert forall|n: Seq<char>| #[trigger] name_set(names@).contains(n) <==> name_set(entities@).contains(n) by {
                if name_set(names@).contains(n) {
                    let k = choose|k: int| 0 <= k < names@.len() && #[trigger] names@[k].spec_name() == n;
                    assert(entities@[k].spec_name() == n);
                }
                if name_set(entities@).contains(n) {
                    let k = choose|k: int| 0 <= k < entities@.len() && #[trigger] entities@[k].spec_name() == n;
                    assert(names@[k].spec_name() == n);
                }
            }
            assert(name_set(names@) =~= old(self)@.entities.dom());
        }
        self.queue_entities(&names);
    }


    /// Returns what the insertion of every activity is computed from: the computation data of
    /// each activity in the order of computation, and the beginnings of the inserted ones.
    ///
    /// Returns Err if the possible beginnings of an activity are not computed yet: the error
    /// names the first such activity (by name).
    pub fn start_autoinsertion(&self) -> (r: Result<
        (Vec<ActivityComputationStaticData>, Vec<ActivityBeginningMinutes>),
        FelixError,
    >)
        requires
            self.wf(),
        ensures
            r is Ok <==> forall|i: int|
                0 <= i < self@.activities.activities.len() ==> (
                #[trigger] self@.activities.activities[i]).computation.insertion_costs is Some,
            r matches Err(e) ==> exists|all: Seq<ActivityView>, k: int|
                is_sorted_by_name(self@.activities.activities, all) && 0 <= k < all.len()
                    && all[k].computation.insertion_costs is None && (forall|j: int|
                    0 <= j < k ==> (#[trigger] all[j]).computation.insertion_costs is Some) && (
                e matches FelixError::InvalidInsertion(x) && x.spec_who() == all[k].metadata.name
                    && x.spec_reason() == InvalidOrNotComputedView::NotComputed),
            r matches Ok(d) ==> exists|order: Seq<int>|
                is_computation_order(self@.activities.activities, order) && d.0@.len()
                    == self@.activities.activities.len() && (forall|k: int|
                    0 <= k < d.0@.len() ==> (#[trigger] d.0@[k])@ == static_data_of(
                        self@.activities.activities[order[k]],
                        ids_in_order(self@.activities.activities, order),
                    )) && d.1@.map_values(|m: i16| m as int) == inserted_beginnings(
                    in_order(self@.activities.activities, order),
                ),
    {
        let sorted = self.activities_sorted();
        let ghost s = self@.activities.activities;
        let ghost all = activity_views(sorted@);
        let mut i: usize = 0;
        while i < sorted.len()
            invariant
                i <= sorted@.len(),
                all == activity_views(sorted@),
                s == self@.activities.activities,
                is_sorted_by_name(s, all),
                forall|j: int| 0 <= j < i ==> (#[trigger] all[j]).computation.insertion_costs is Some,
            decreases sorted@.len() - i,
        {
            if !sorted[i].computation_data().insertion_costs_computed() {
                proof {
                    assert(all[i as int] == sorted@[i as int]@);
                    let order = choose|order: Seq<int>|
                        crate::stable_order::is_stable_order(s.len() as int, crate::activities::name_before(s), order) && all.len() == s.len() && forall|k: int|
                            0 <= k < all.len() ==> #[trigger] all[k] == s[order[k]];
                    assert(all[i as int] == s[order[i as int]]);
                    assert(0 <= order[i as int] < s.len());
                }
                return Err(
                    FelixError::InvalidInsertion(
                        InvalidInsertion::insertions_not_computed_yet(sorted[i].name()),
                    ),
                );
            }
            assert(all[i as int] == sorted@[i as int]@);
            i = i + 1;
        }
        proof {
            let order = choose|order: Seq<int>|
                crate::stable_order::is_stable_order(s.len() as int, crate::activities::name_before(s), order) && all.len() == s.len() && forall|k: int|
                    0 <= k < all.len() ==> #[trigger] all[k] == s[order[k]];
            assert forall|q: int| 0 <= q < s.len() implies (#[trigger] s[q]).computation.insertion_costs is Some by {
                crate::stable_order::lemma_permutation_covers(order, s.len() as int, q);
                let k = choose|k: int| 0 <= k < order.len() && order[k] == q;
                assert(all[k] == s[q]);
            }
            self.activities.lemma_wf();
        }
        let acts = self.activities.get_not_sorted();
        proof {
            assert forall|i: int| 0 <= i < acts@.len() implies (#[trigger] acts@[i]).wf() && acts@[i]@.computation.insertion_costs is Some by {
                assert(s[i] == acts@[i]@);
            }
        }
        Ok(activities_into_computation_data(acts))
    }

    /// Applies the result of the insertion computation: the beginning at position `k` is that
    /// of the activity at position `k` in the order of computation.
    pub fn apply_autoinsertion_result(&mut self, insertion_data: Vec<ActivityBeginningMinutes>)
        requires
            old(self).wf(),
            insertion_data@.len() <= old(self)@.activities.activities.len(),
            beginnings_fit(
                old(self)@.activities.activities,
                insertion_data@.map_values(|m: i16| m as int),
            ),
        ensures
            final(self).wf(),
            exists|order: Seq<int>|
                is_computation_order(old(self)@.activities.activities, order) && final(self)@
                    == with_activities(
                    old(self)@,
                    with_beginnings(
                        old(self)@.activities.activities,
                        order,
                        insertion_data@.map_values(|m: i16| m as int),
                    ),
                ),
    {
        self.activities.overwrite_insertion_data(insertion_data);
        proof {
            let v = old(self)@;
            let w = self@;
            let s = v.activities.activities;
            let t = w.activities.activities;
            let data = insertion_data@.map_values(|m: i16| m as int);
            let order = choose|order: Seq<int>|
                is_computation_order(s, order) && t == with_beginnings(s, order, data);
            assert forall|i: int| 0 <= i < t.len() implies super::activity_fits(v, #[trigger] t[i]) by {
                super::lemma_activity_fits(v, i);
                assert(t[i].metadata == s[i].metadata);
            }
            super::lemma_coherent_activities(v, w);
        }
    }

}

} // verus!

verus! {

/// Two sequences of activities with the same ids, and the same metadata but at position `p`:
/// every other activity is found in both, with the same metadata.
pub proof fn lemma_others_unchanged(s: Seq<ActivityView>, t: Seq<ActivityView>, p: int, other: ActivityId)
    requires
        crate::activities::ids_unique(s),
        s.len() == t.len(),
        0 <= p < s.len(),
        forall|i: int| 0 <= i < s.len() ==> (#[trigger] t[i]).metadata.id == s[i].metadata.id,
        forall|i: int| 0 <= i < s.len() && i != p ==> (#[trigger] t[i]).metadata == s[i].metadata,
        has_activity(s, other),
        other != s[p].metadata.id,
    ensures
        has_activity(t, other),
        crate::activities::ids_unique(t),
        activity_with_id(t, other).metadata == activity_with_id(s, other).metadata,
        ids_of(t) == ids_of(s),
{
    crate::activities::lemma_index_of_same_ids(s, t, other);
    let q = crate::activities::index_of_activity(s, other);
    assert(s[q].metadata.id == other);
    assert(q != p);
    assert(ids_of(t) =~= ids_of(s));
}

/// Removing an entity from an activity changes the metadata of no other activity, and keeps
/// the ids, the entities and the groups.
pub proof fn lemma_entity_removed_shape(v: DataView, id: ActivityId, entity: Seq<char>)
    requires
        crate::activities::ids_unique(v.activities.activities),
        has_activity(v.activities.activities, id),
    ensures
        data_with_entity_removed(v, id, entity).activities.activities.len() == v.activities.activities.len(),
        forall|i: int|
            0 <= i < v.activities.activities.len() ==> (#[trigger] data_with_entity_removed(
                v,
                id,
                entity,
            ).activities.activities[i]).metadata.id == v.activities.activities[i].metadata.id,
        forall|i: int|
            0 <= i < v.activities.activities.len() && i != crate::activities::index_of_activity(
                v.activities.activities,
                id,
            ) ==> (#[trigger] data_with_entity_removed(v, id, entity).activities.activities[i]).metadata
                == v.activities.activities[i].metadata,
        data_with_entity_removed(v, id, entity).entities == v.entities,
        data_with_entity_removed(v, id, entity).groups == v.groups,
{
    let s = v.activities.activities;
    let p = crate::activities::index_of_activity(s, id);
    let a = activity_with_id(s, id);
    let t1 = refresh_conflicts(
        set_metadata_of(
            s,
            id,
            ActivityMetadataView { entities: a.metadata.entities.remove(entity), ..a.metadata },
        ),
    );
    crate::activities::lemma_index_of_same_ids(s, t1, id);
    let v1 = invalidate_data_costs(with_activities(v, t1), set![entity]);
    crate::activities::lemma_index_of_same_ids(s, v1.activities.activities, id);
}

/// Removing a group from an activity changes the metadata of no other activity, keeps the ids,
/// the entities and the groups, and the activity no longer holds the group.
pub proof fn lemma_group_removed_shape(v: DataView, id: ActivityId, group: Seq<char>)
    requires
        crate::activities::ids_unique(v.activities.activities),
        has_activity(v.activities.activities, id),
    ensures
        crate::data::groups::data_without_group_in_one(v, id, group).activities.activities.len()
            == v.activities.activities.len(),
        forall|i: int|
            0 <= i < v.activities.activities.len() ==> (
            #[trigger] crate::data::groups::data_without_group_in_one(
                v,
                id,
                group,
            ).activities.activities[i]).metadata.id == v.activities.activities[i].metadata.id,
        forall|i: int|
            0 <= i < v.activities.activities.len() && i != crate::activities::index_of_activity(
                v.activities.activities,
                id,
            ) ==> (#[trigger] crate::data::groups::data_without_group_in_one(
                v,
                id,
                group,
            ).activities.activities[i]).metadata == v.activities.activities[i].metadata,
        !crate::data::groups::data_without_group_in_one(v, id, group).activities.activities[crate::activities::index_of_activity(
            v.activities.activities,
            id,
        )].metadata.groups.contains(group),
        crate::data::groups::data_without_group_in_one(v, id, group).entities == v.entities,
        crate::data::groups::data_without_group_in_one(v, id, group).groups == v.groups,
{
    let s = v.activities.activities;
    let p = crate::activities::index_of_activity(s, id);
    let t1 = activities_without_group_members(v, id, group, true);
    let t2 = activities_without_group_members(v, id, group, false);
    assert(s[p].metadata.id == id);
}

} // verus!

verus! {

/// Inserting an activity which is not in the schedule, then taking it out of the schedule,
/// gives back the same data.
pub proof fn lemma_insert_then_uninsert(data: &Data, id: ActivityId, t: int)
    requires
        data.wf(),
        has_activity(data@.activities.activities, id),
        activity_with_id(data@.activities.activities, id).computation.insertion_interval is None,
    ensures
        ({
            let s = data@.activities.activities;
            let inserted = set_computation_of(s, id, inserted_at(activity_with_id(s, id), Some(t)));
            with_activities(
                with_activities(data@, inserted),
                set_computation_of(
                    inserted,
                    id,
                    inserted_at(activity_with_id(inserted, id), None),
                ),
            ) == data@
        }),
{
    data.lemma_wf();
    let s = data@.activities.activities;
    let p = crate::activities::index_of_activity(s, id);
    let a = s[p];
    let inserted = set_computation_of(s, id, inserted_at(a, Some(t)));
    assert(inserted[p].metadata.id == id);
    let q = crate::activities::index_of_activity(inserted, id);
    assert(inserted[q].metadata.id == id);
    if q != p {
        assert(s[q].metadata.id == inserted[q].metadata.id);
        assert(s[p].metadata.id != s[q].metadata.id);
    }
    assert(activity_with_id(inserted, id) == inserted[p]);
    let back = set_computation_of(inserted, id, inserted_at(inserted[p], None));
    assert(back =~= s) by {
        assert(back[p].computation =~= a.computation);
    }
}

} // verus!

verus! {

/// Giving one activity new metadata, whose entities and groups exist, keeps the data coherent
/// (the conflicts are computed again).
pub proof fn lemma_coherent_new_metadata(v: DataView, id: ActivityId, m: ActivityMetadataView)
    requires
        is_coherent(v),
        has_activity(v.activities.activities, id),
        forall|e: Seq<char>| #[trigger] m.entities.contains(e) ==> v.entities.contains_key(e),
        forall|g: Seq<char>| #[trigger] m.groups.contains(g) ==> v.groups.contains_key(g),
    ensures
        is_coherent(with_activities(v, refresh_conflicts(set_metadata_of(v.activities.activities, id, m)))),
{
    let s = v.activities.activities;
    let w = with_activities(v, refresh_conflicts(set_metadata_of(s, id, m)));
    let t = w.activities.activities;
    let p = crate::activities::index_of_activity(s, id);
    assert forall|i: int| 0 <= i < t.len() implies super::activity_fits(v, #[trigger] t[i]) by {
        super::lemma_activity_fits(v, i);
        if i != p {
            super::lemma_fits_like(v, s[i], t[i]);
        } else {
            assert(t[i].metadata == m);
            super::lemma_fits_like(v, s[i], t[i]);
        }
    }
    super::lemma_coherent_activities(v, w);
}

/// Giving one activity new computation data, with which it lasts its duration when inserted
/// and has insertion costs which fit in a day, keeps the data coherent.
pub proof fn lemma_coherent_new_computation(v: DataView, id: ActivityId, c: ComputationDataView)
    requires
        is_coherent(v),
        has_activity(v.activities.activities, id),
        spans_its_duration(
            ActivityView { metadata: activity_with_id(v.activities.activities, id).metadata, computation: c },
        ),
        costs_fit(
            ActivityView { metadata: activity_with_id(v.activities.activities, id).metadata, computation: c },
        ),
    ensures
        is_coherent(with_activities(v, set_computation_of(v.activities.activities, id, c))),
{
    let s = v.activities.activities;
    let w = with_activities(v, set_computation_of(s, id, c));
    let t = w.activities.activities;
    let p = crate::activities::index_of_activity(s, id);
    assert forall|i: int| 0 <= i < t.len() implies super::activity_fits(v, #[trigger] t[i]) by {
        super::lemma_activity_fits(v, i);
        if i == p {
            assert(t[i].metadata == s[i].metadata);
        }
    }
    super::lemma_coherent_activities(v, w);
}

/// The members of a group who take part in an activity only through it are exactly those
/// which are in no other group of the activity.
pub proof fn lemma_only_through_group(v: DataView, a: ActivityView, group: Seq<char>, e: Seq<char>)
    ensures
        only_through_group(v, a, group).contains(e) <==> v.groups[group].entities.contains(e)
            && forall|other: Seq<char>|
            a.metadata.groups.contains(other) && other != group ==> !(
            #[trigger] v.groups[other].entities.contains(e)),
{
}

/// When a group leaves an activity: the group is no longer one of its groups, nobody joins it,
/// every participant who is a member of another of its groups stays, every participant who is
/// not a member of the group stays, and the members of the group who are in none of its other
/// groups leave.
pub proof fn lemma_group_leaves_activity(v: DataView, id: ActivityId, group: Seq<char>)
    requires
        crate::activities::ids_unique(v.activities.activities),
        has_activity(v.activities.activities, id),
    ensures
        has_activity(data_with_group_removed(v, id, group).activities.activities, id),
        activity_with_id(data_with_group_removed(v, id, group).activities.activities, id).metadata.groups
            == activity_with_id(v.activities.activities, id).metadata.groups.remove(group),
        forall|e: Seq<char>|
            #[trigger] activity_with_id(
                data_with_group_removed(v, id, group).activities.activities,
                id,
            ).metadata.entities.contains(e) ==> activity_with_id(
                v.activities.activities,
                id,
            ).metadata.entities.contains(e),
        forall|e: Seq<char>, other: Seq<char>|
            activity_with_id(v.activities.activities, id).metadata.entities.contains(e)
                && activity_with_id(v.activities.activities, id).metadata.groups.contains(other)
                && other != group && #[trigger] v.groups[other].entities.contains(e)
                ==> activity_with_id(
                data_with_group_removed(v, id, group).activities.activities,
                id,
            ).metadata.entities.contains(e),
        forall|e: Seq<char>|
            activity_with_id(v.activities.activities, id).metadata.entities.contains(e)
                && !v.groups[group].entities.contains(e) ==> #[trigger] activity_with_id(
                data_with_group_removed(v, id, group).activities.activities,
                id,
            ).metadata.entities.contains(e),
        forall|e: Seq<char>|
            v.groups[group].entities.contains(e) && (forall|other: Seq<char>|
                activity_with_id(v.activities.activities, id).metadata.groups.contains(other)
                    && other != group ==> !(#[trigger] v.groups[other].entities.contains(e)))
                ==> !#[trigger] activity_with_id(
                data_with_group_removed(v, id, group).activities.activities,
                id,
            ).metadata.entities.contains(e),
{
    let s = v.activities.activities;
    let p = crate::activities::index_of_activity(s, id);
    let a = s[p];
    let t = data_with_group_removed(v, id, group).activities.activities;
    let u = activities_without_group_members(v, id, group, true);
    crate::activities::lemma_refresh_conflicts(set_metadata_of(s, id, ActivityMetadataView {
        entities: a.metadata.entities.difference(only_through_group(v, a, group)),
        groups: a.metadata.groups.remove(group),
        ..a.metadata
    }));
    assert(t.len() == s.len());
    assert forall|i: int| 0 <= i < s.len() implies (#[trigger] t[i]).metadata.id == s[i].metadata.id by {
        assert(t[i].metadata == u[i].metadata);
        if i != p {
            assert(u[i].metadata == s[i].metadata);
        }
    }
    crate::activities::lemma_index_of_same_ids(s, t, id);
    assert(t[p].metadata == u[p].metadata);
    let b = t[p];
    assert forall|e: Seq<char>, other: Seq<char>|
        a.metadata.entities.contains(e) && a.metadata.groups.contains(other) && other != group
            && #[trigger] v.groups[other].entities.contains(e) implies b.metadata.entities.contains(e) by {
        assert(in_other_group(v, a, group, e));
    }
    assert forall|e: Seq<char>|
        v.groups[group].entities.contains(e) && (forall|other: Seq<char>|
            a.metadata.groups.contains(other) && other != group ==> !(
            #[trigger] v.groups[other].entities.contains(e))) implies !b.metadata.entities.contains(e) by {
        assert(!in_other_group(v, a, group, e));
        assert(only_through_group(v, a, group).contains(e));
    }
}

} // verus!
