//! Operations of the data on groups.

use super::activities::{
    lemma_entity_removed_shape, lemma_group_removed_shape, lemma_others_unchanged,
    activities_without_group_members, data_with_entity_removed, data_with_group_removed,
    only_through_group,
    in_other_group, with_activities,
};
use super::entities::with_entity;
use super::free_time::free_time;
use super::{costs_fit, is_coherent, spans_its_duration, Data, DataView};
use crate::activities::{
    activity_with_id, add_entity_where_group, group_renamed, has_activity, ids_of, map_metadata,
    refresh_conflicts, ActivitiesView, ActivityView,
};
use crate::activity_metadata::{ActivityId, ActivityMetadataView};
use crate::errors::name_taken::{GroupOrEntity, NameTaken};
use crate::errors::not_enough_time::NotEnoughTime;
use crate::errors::FelixError;
use crate::group::{new_group_view, rename_in_set, GroupView};
use crate::named::HasName;
use crate::strings::{clean_string, has_word, spec_clean_string};
use vstd::prelude::*;

verus! {

/// The activities of the group in which the entity does not take part yet.
pub open spec fn joins_through_group(a: ActivityView, group: Seq<char>, entity: Seq<char>) -> bool {
    a.metadata.groups.contains(group) && !a.metadata.entities.contains(entity)
}

/// The total duration of the activities of the group in which the entity does not take part
/// yet, in minutes.
pub open spec fn time_needed_for_group(acts: Seq<ActivityView>, group: Seq<char>, entity: Seq<char>) -> int
    decreases acts.len(),
{
    if acts.len() == 0 {
        0
    } else {
        time_needed_for_group(acts.drop_last(), group, entity) + if joins_through_group(
            acts.last(),
            group,
            entity,
        ) {
            acts.last().computation.duration
        } else {
            0
        }
    }
}

/// `j` is the position of the first activity of the group in which the entity does not take
/// part yet.
pub open spec fn is_first_joined(acts: Seq<ActivityView>, group: Seq<char>, entity: Seq<char>, j: int) -> bool {
    &&& 0 <= j < acts.len()
    &&& joins_through_group(acts[j], group, entity)
    &&& forall|k: int| 0 <= k < j ==> !joins_through_group(#[trigger] acts[k], group, entity)
}

/// The data once the entity joins the group: it joins the activities of the group too.
pub open spec fn data_with_member_added(v: DataView, group: Seq<char>, entity: Seq<char>) -> DataView {
    DataView {
        groups: v.groups.insert(
            group,
            GroupView { entities: v.groups[group].entities.insert(entity), ..v.groups[group] },
        ),
        activities: ActivitiesView {
            activities: refresh_conflicts(
                map_metadata(
                    v.activities.activities,
                    |m: ActivityMetadataView| add_entity_where_group(m, group, entity),
                ),
            ),
            ..v.activities
        },
        ..v
    }
}

/// The entity takes part in the activity through the group and through no other group.
pub open spec fn only_through(v: DataView, a: ActivityView, group: Seq<char>, entity: Seq<char>) -> bool {
    a.metadata.groups.contains(group) && a.metadata.entities.contains(entity) && !in_other_group(
        v,
        a,
        group,
        entity,
    )
}

/// The ids of the activities in which the entity takes part only through the group.
pub open spec fn ids_only_through(v: DataView, group: Seq<char>, entity: Seq<char>) -> Seq<ActivityId> {
    ids_of(v.activities.activities.filter(|a: ActivityView| only_through(v, a, group, entity)))
}

/// The data once the entity leaves the activities with the given ids, one after the other.
pub open spec fn data_without_entity_in(v: DataView, ids: Seq<ActivityId>, entity: Seq<char>) -> DataView
    decreases ids.len(),
{
    if ids.len() == 0 {
        v
    } else {
        data_with_entity_removed(data_without_entity_in(v, ids.drop_last(), entity), ids.last(), entity)
    }
}

/// The data once the entity leaves the group, and the activities in which it took part only
/// through the group.
pub open spec fn data_with_member_removed(v: DataView, group: Seq<char>, entity: Seq<char>) -> DataView {
    let v1 = DataView {
        groups: v.groups.insert(
            group,
            GroupView { entities: v.groups[group].entities.remove(entity), ..v.groups[group] },
        ),
        ..v
    };
    data_without_entity_in(v1, ids_only_through(v1, group, entity), entity)
}

/// The data once the group leaves the activity with the given id (whether it took part in it
/// or not), with the members which took part in the activity only through this group.
pub open spec fn data_without_group_in_one(v: DataView, id: ActivityId, group: Seq<char>) -> DataView {
    if activity_with_id(v.activities.activities, id).metadata.groups.contains(group) {
        data_with_group_removed(v, id, group)
    } else {
        with_activities(v, activities_without_group_members(v, id, group, false))
    }
}

/// The data once the group leaves the activities with the given ids, one after the other.
pub open spec fn data_without_group_in(v: DataView, ids: Seq<ActivityId>, group: Seq<char>) -> DataView
    decreases ids.len(),
{
    if ids.len() == 0 {
        v
    } else {
        data_without_group_in_one(data_without_group_in(v, ids.drop_last(), group), ids.last(), group)
    }
}

/// The data once the group is removed: it leaves every activity first.
pub open spec fn data_without_group(v: DataView, group: Seq<char>) -> DataView {
    let v1 = data_without_group_in(v, ids_of(v.activities.activities), group);
    DataView { groups: v1.groups.remove(group), ..v1 }
}

/// The data once the group is renamed, in the activities too.
pub open spec fn data_with_group_renamed(v: DataView, old_name: Seq<char>, new_name: Seq<char>) -> DataView {
    DataView {
        groups: v.groups.remove(old_name).insert(
            new_name,
            GroupView { name: new_name, ..v.groups[old_name] },
        ),
        activities: ActivitiesView {
            activities: refresh_conflicts(
                map_metadata(
                    v.activities.activities,
                    |m: ActivityMetadataView| group_renamed(m, old_name, new_name),
                ),
            ),
            ..v.activities
        },
        ..v
    }
}

impl Data {
    /// Returns Err if an entity has the given name.
    pub(crate) fn check_name_taken_by_entity(&self, name: &String) -> (r: Result<(), FelixError>)
        requires
            self.wf(),
        ensures
            r is Ok <==> !self@.entities.contains_key(name@),
            r matches Err(e) ==> e matches FelixError::NameTaken(t) && t.spec_by()
                == GroupOrEntity::Entity && t.spec_name() == name@,
    {
        if self.entities.contains(name) {
            Err(FelixError::NameTaken(NameTaken::name_taken_by_entity(name.clone())))
        } else {
            Ok(())
        }
    }

    /// Adds a group with the formatted given name. Returns the formatted name.
    ///
    /// Returns Err if the formatted name is empty or taken by an entity or a group.
    pub fn add_group(&mut self, name: &str) -> (r: Result<String, FelixError>)
        requires
            old(self).wf(),
        ensures
            final(self).wf(),
            r is Ok <==> has_word(name@) && !old(self)@.entities.contains_key(
                spec_clean_string(name@),
            ) && !old(self)@.groups.contains_key(spec_clean_string(name@)),
            r matches Ok(n) ==> n@ == spec_clean_string(name@),
            r is Ok ==> final(self)@ == (DataView {
                groups: old(self)@.groups.insert(
                    spec_clean_string(name@),
                    new_group_view(spec_clean_string(name@)),
                ),
                ..old(self)@
            }),
            r is Err ==> final(self)@ == old(self)@,
            !has_word(name@) ==> (r matches Err(e) && e is EmptyName),
            has_word(name@) && old(self)@.entities.contains_key(spec_clean_string(name@)) ==> (
            r matches Err(FelixError::NameTaken(t)) && t.spec_by() == GroupOrEntity::Entity
                && t.spec_name() == spec_clean_string(name@)),
            has_word(name@) && !old(self)@.entities.contains_key(spec_clean_string(name@))
                && old(self)@.groups.contains_key(spec_clean_string(name@)) ==> (r matches Err(
                FelixError::NameTaken(t),
            ) && t.spec_by() == GroupOrEntity::Group && t.spec_name() == spec_clean_string(
                name@,
            )),
    {
        let name = clean_string(name)?;
        self.check_name_taken_by_entity(&name)?;
        self.groups.add(name.clone())?;
        Ok(name)
    }

    /// Renames the group, in the activities too. Returns the formatted new name.
    ///
    /// Returns Err if a formatted name is empty, if the new name is taken by an entity or a
    /// group or if the group does not exist.
    pub fn set_group_name(&mut self, old_name: &str, new_name: &str) -> (r: Result<
        String,
        FelixError,
    >)
        requires
            old(self).wf(),
        ensures
            final(self).wf(),
            r is Ok <==> has_word(new_name@) && !old(self)@.entities.contains_key(
                spec_clean_string(new_name@),
            ) && has_word(old_name@) && !old(self)@.groups.contains_key(
                spec_clean_string(new_name@),
            ) && old(self)@.groups.contains_key(spec_clean_string(old_name@)),
            r matches Ok(n) ==> n@ == spec_clean_string(new_name@),
            r is Ok ==> final(self)@ == data_with_group_renamed(
                old(self)@,
                spec_clean_string(old_name@),
                spec_clean_string(new_name@),
            ),
            r is Err ==> final(self)@ == old(self)@,
            !has_word(new_name@) ==> (r matches Err(e) && e is EmptyName),
            has_word(new_name@) && old(self)@.entities.contains_key(spec_clean_string(new_name@))
                ==> (r matches Err(FelixError::NameTaken(t)) && t.spec_by()
                == GroupOrEntity::Entity && t.spec_name() == spec_clean_string(new_name@)),
            has_word(new_name@) && !old(self)@.entities.contains_key(spec_clean_string(new_name@))
                && !has_word(old_name@) ==> (r matches Err(e) && e is EmptyName),
            has_word(new_name@) && !old(self)@.entities.contains_key(spec_clean_string(new_name@))
                && has_word(old_name@) && old(self)@.groups.contains_key(
                spec_clean_string(new_name@),
            ) ==> (r matches Err(FelixError::NameTaken(t)) && t.spec_by() == GroupOrEntity::Group
                && t.spec_name() == spec_clean_string(new_name@)),
            has_word(new_name@) && !old(self)@.entities.contains_key(spec_clean_string(new_name@))
                && has_word(old_name@) && !old(self)@.groups.contains_key(
                spec_clean_string(new_name@),
            ) && !old(self)@.groups.contains_key(spec_clean_string(old_name@)) ==> (r matches Err(
                FelixError::DoesNotExist(d),
            ) && d.is_group_named(spec_clean_string(old_name@))),
    {
        let new_name = clean_string(new_name)?;
        self.check_name_taken_by_entity(&new_name)?;
        let old_name = clean_string(old_name)?;
        self.groups.set_name_of(old_name.as_str(), new_name.clone())?;
        self.activities.rename_group_in_all(old_name.as_str(), new_name.clone());
        proof {
            let v = old(self)@;
            let w = data_with_group_renamed(v, old_name@, new_name@);
            assert(self@.groups =~= w.groups);
            assert(self@ == w);
            let s = v.activities.activities;
            let t = w.activities.activities;
            assert forall|g: Seq<char>, e: Seq<char>|
                w.groups.contains_key(g) && #[trigger] w.groups[g].entities.contains(e) implies w.entities.contains_key(e) by {
                if g == new_name@ {
                    assert(v.groups[old_name@].entities.contains(e));
                } else {
                    assert(v.groups[g].entities.contains(e));
                }
            }
            assert forall|i: int, e: Seq<char>|
                0 <= i < t.len() && #[trigger] t[i].metadata.entities.contains(e) implies w.entities.contains_key(e) by {
                assert(s[i].metadata.entities.contains(e));
            }
            assert forall|i: int, g: Seq<char>|
                0 <= i < t.len() && #[trigger] t[i].metadata.groups.contains(g) implies w.groups.contains_key(g) by {
                assert(!s[i].metadata.groups.contains(new_name@));
                if g != new_name@ {
                    assert(s[i].metadata.groups.contains(g));
                }
            }
            assert forall|i: int| 0 <= i < t.len() implies spans_its_duration(#[trigger] t[i])
                && costs_fit(t[i]) by {
                assert(spans_its_duration(s[i]) && costs_fit(s[i]));
            }
            assert(is_coherent(w));
        }
        Ok(new_name)
    }

    /// Returns Err if the entity does not have enough free time for the activities of the
    /// group in which it does not take part yet: the error names the first such activity.
    fn check_has_enough_time_for_group(&self, group_name: &String, entity_name: &String) -> (r:
        Result<(), FelixError>)
        requires
            self.wf(),
            self@.entities.contains_key(entity_name@),
        ensures
            r is Ok <==> time_needed_for_group(
                self@.activities.activities,
                group_name@,
                entity_name@,
            ) <= free_time(self@, entity_name@),
            r matches Err(e) ==> exists|j: int|
                is_first_joined(self@.activities.activities, group_name@, entity_name@, j) && (
                e matches FelixError::NotEnoughTime(t) && t.is_activity_added_for(
                    entity_name@,
                    self@.activities.activities[j].metadata.name,
                )),
    {
        proof {
            self.activities.lemma_wf();
        }
        let acts = self.activities.get_not_sorted();
        let ghost s = self@.activities.activities;
        let mut needed: i128 = 0;
        let mut first: Option<usize> = None;
        let mut i: usize = 0;
        assert(s.take(0) =~= Seq::<ActivityView>::empty());
        while i < acts.len()
            invariant
                i <= acts@.len(),
                s == self@.activities.activities,
                s == crate::activities::activity_views(acts@),
                forall|k: int| 0 <= k < s.len() ==> crate::computation_data::duration_wf((#[trigger] s[k]).computation.duration),
                needed == time_needed_for_group(s.take(i as int), group_name@, entity_name@),
                0 <= needed <= i * crate::time::MAX_TOTAL_MINUTES,
                first is None ==> forall|k: int| 0 <= k < i ==> !joins_through_group(#[trigger] s[k], group_name@, entity_name@),
                first is None ==> needed == 0,
                first matches Some(j) ==> is_first_joined(s, group_name@, entity_name@, j as int) && j < i,
            decreases acts@.len() - i,
        {
            proof {
                assert(s.take(i + 1).drop_last() =~= s.take(i as int));
                assert(s[i as int] == acts@[i as int]@);
                assert(crate::computation_data::duration_wf(s[i as int].computation.duration));
            }
            let a = &acts[i];
            if a.contains_group(group_name) && !a.contains_entity(entity_name) {
                needed = needed + a.duration().total_minutes() as i128;
                if first.is_none() {
                    first = Some(i);
                }
            }
            i = i + 1;
        }
        assert(s.take(i as int) =~= s);
        let free = self.free_time_of_existing(entity_name);
        if (free.total_minutes() as i128) < needed {
            match first {
                Some(j) => {
                    let name = acts[j].name();
                    proof {
                        assert(s[j as int] == acts@[j as int]@);
                    }
                    Err(
                        FelixError::NotEnoughTime(
                            NotEnoughTime::activity_added_for(entity_name.clone(), name),
                        ),
                    )
                },
                None => Ok(()),
            }
        } else {
            Ok(())
        }
    }

    /// Adds the entity to the group, and to the activities of the group.
    ///
    /// Returns Err if a formatted name is empty, if the entity or the group does not exist,
    /// if the entity does not have enough free time for the activities of the group or if it
    /// already is in the group.
    pub fn add_entity_to_group(&mut self, group_name: &str, entity_name: &str) -> (r: Result<
        (),
        FelixError,
    >)
        requires
            old(self).wf(),
        ensures
            final(self).wf(),
            r is Ok <==> has_word(entity_name@) && old(self)@.entities.contains_key(
                spec_clean_string(entity_name@),
            ) && has_word(group_name@) && time_needed_for_group(
                old(self)@.activities.activities,
                spec_clean_string(group_name@),
                spec_clean_string(entity_name@),
            ) <= free_time(old(self)@, spec_clean_string(entity_name@)) && old(
                self,
            )@.groups.contains_key(spec_clean_string(group_name@)) && !old(
                self,
            )@.groups[spec_clean_string(group_name@)].entities.contains(
                spec_clean_string(entity_name@),
            ),
            r is Ok ==> final(self)@ == data_with_member_added(
                old(self)@,
                spec_clean_string(group_name@),
                spec_clean_string(entity_name@),
            ),
            r is Err ==> final(self)@ == old(self)@,
            !has_word(entity_name@) ==> (r matches Err(e) && e is EmptyName),
            has_word(entity_name@) && !old(self)@.entities.contains_key(
                spec_clean_string(entity_name@),
            ) ==> (r matches Err(FelixError::DoesNotExist(d)) && d.is_entity_named(
                spec_clean_string(entity_name@),
            )),
            has_word(entity_name@) && old(self)@.entities.contains_key(
                spec_clean_string(entity_name@),
            ) && !has_word(group_name@) ==> (r matches Err(e) && e is EmptyName),
            has_word(entity_name@) && old(self)@.entities.contains_key(
                spec_clean_string(entity_name@),
            ) && has_word(group_name@) && free_time(old(self)@, spec_clean_string(entity_name@))
                < time_needed_for_group(
                old(self)@.activities.activities,
                spec_clean_string(group_name@),
                spec_clean_string(entity_name@),
            ) ==> (r matches Err(e) && exists|j: int|
                is_first_joined(
                    old(self)@.activities.activities,
                    spec_clean_string(group_name@),
                    spec_clean_string(entity_name@),
                    j,
                ) && (e matches FelixError::NotEnoughTime(t) && t.is_activity_added_for(
                    spec_clean_string(entity_name@),
                    old(self)@.activities.activities[j].metadata.name,
                ))),
            has_word(entity_name@) && old(self)@.entities.contains_key(
                spec_clean_string(entity_name@),
            ) && has_word(group_name@) && time_needed_for_group(
                old(self)@.activities.activities,
                spec_clean_string(group_name@),
                spec_clean_string(entity_name@),
            ) <= free_time(old(self)@, spec_clean_string(entity_name@)) && !old(
                self,
            )@.groups.contains_key(spec_clean_string(group_name@)) ==> (r matches Err(
                FelixError::DoesNotExist(d),
            ) && d.is_group_named(spec_clean_string(group_name@))),
            has_word(entity_name@) && old(self)@.entities.contains_key(
                spec_clean_string(entity_name@),
            ) && has_word(group_name@) && time_needed_for_group(
                old(self)@.activities.activities,
                spec_clean_string(group_name@),
                spec_clean_string(entity_name@),
            ) <= free_time(old(self)@, spec_clean_string(entity_name@)) && old(
                self,
            )@.groups.contains_key(spec_clean_string(group_name@)) && old(
                self,
            )@.groups[spec_clean_string(group_name@)].entities.contains(
                spec_clean_string(entity_name@),
            ) ==> (r matches Err(FelixError::AlreadyIn(a)) && a.spec_who() == spec_clean_string(
                entity_name@,
            ) && a.spec_in_who() == spec_clean_string(group_name@)),
    {
        proof {
            self.lemma_wf();
        }
        let entity = self.entity(entity_name)?;
        let e = entity.name();
        let g = clean_string(group_name)?;
        self.check_has_enough_time_for_group(&g, &e)?;
        self.groups.add_entity_to_group(g.as_str(), e.clone())?;
        self.activities.add_entity_to_activities_with_group(g.as_str(), e);
        proof {
            let v = old(self)@;
            let w = data_with_member_added(v, g@, e@);
            assert(self@.groups == w.groups);
            assert(self@ == w);
            let s = v.activities.activities;
            let t = w.activities.activities;
            assert forall|gg: Seq<char>, x: Seq<char>|
                w.groups.contains_key(gg) && #[trigger] w.groups[gg].entities.contains(x) implies w.entities.contains_key(x) by {
                if x != e@ {
                    assert(v.groups[gg].entities.contains(x));
                }
            }
            assert forall|i: int, x: Seq<char>|
                0 <= i < t.len() && #[trigger] t[i].metadata.entities.contains(x) implies w.entities.contains_key(x) by {
                if x != e@ {
                    assert(s[i].metadata.entities.contains(x));
                }
            }
            assert forall|i: int, gg: Seq<char>|
                0 <= i < t.len() && #[trigger] t[i].metadata.groups.contains(gg) implies w.groups.contains_key(gg) by {
                assert(s[i].metadata.groups.contains(gg));
            }
            assert forall|i: int| 0 <= i < t.len() implies spans_its_duration(#[trigger] t[i])
                && costs_fit(t[i]) by {
                assert(spans_its_duration(s[i]) && costs_fit(s[i]));
            }
            assert(is_coherent(w));
        }
        Ok(())
    }

    /// Returns the ids of the activities in which the entity takes part only through the group.
    fn ids_of_activities_in_which_entity_is_participating_only_through_this_group(
        &self,
        entity_name: &String,
        group_name: &String,
    ) -> (r: Vec<ActivityId>)
        requires
            self.wf(),
        ensures
            r@ == ids_only_through(self@, group_name@, entity_name@),
    {
        proof {
            self.lemma_wf();
        }
        let acts = self.activities.get_not_sorted();
        let ghost v = self@;
        let ghost s = v.activities.activities;
        let ghost pred = |a: ActivityView| only_through(v, a, group_name@, entity_name@);
        let mut r: Vec<ActivityId> = Vec::new();
        let mut i: usize = 0;
        assert(ids_of(s.take(0).filter(pred)) =~= r@);
        while i < acts.len()
            invariant
                self.wf(),
                v == self@,
                is_coherent(v),
                s == v.activities.activities,
                s == crate::activities::activity_views(acts@),
                pred == (|a: ActivityView| only_through(v, a, group_name@, entity_name@)),
                forall|k: int| 0 <= k < acts@.len() ==> (#[trigger] acts@[k]).wf(),
                i <= acts@.len(),
                r@ == ids_of(s.take(i as int).filter(pred)),
            decreases acts@.len() - i,
        {
            let a = &acts[i];
            let mut keep = false;
            if a.contains_group(group_name) && a.contains_entity(entity_name) {
                let groups = a.groups_sorted();
                let mut other_found = false;
                let mut j: usize = 0;
                proof {
                    assert(s[i as int] == a@);
                    assert(a.wf());
                }
                while j < groups.len()
                    invariant
                        self.wf(),
                        v == self@,
                        is_coherent(v),
                        s == v.activities.activities,
                        0 <= i < s.len(),
                        s[i as int] == a@,
                        crate::named::name_set(groups@) == a@.metadata.groups,
                        j <= groups@.len(),
                        other_found ==> in_other_group(v, a@, group_name@, entity_name@),
                        !other_found ==> forall|k: int|
                            0 <= k < j ==> (#[trigger] groups@[k])@ == group_name@ || !v.groups[groups@[k]@].entities.contains(entity_name@),
                    decreases groups@.len() - j,
                {
                    if !crate::strings::string_eq(&groups[j], group_name) {
                        proof {
                            assert(crate::named::name_set(groups@).contains(groups@[j as int].spec_name()));
                            assert(s[i as int].metadata.groups.contains(groups@[j as int]@));
                        }
                        let other = self.groups.get_by_name(groups[j].as_str()).unwrap();
                        if other.contains_entity(entity_name) {
                            proof {
                                assert(v.groups[groups@[j as int]@].entities.contains(entity_name@));
                            }
                            other_found = true;
                        }
                    }
                    j = j + 1;
                }
                proof {
                    if !other_found {
                        assert forall|other: Seq<char>| a@.metadata.groups.contains(other) && other != group_name@ implies !#[trigger] v.groups[other].entities.contains(entity_name@) by {
                            assert(crate::named::name_set(groups@).contains(other));
                            let k = choose|k: int| 0 <= k < groups@.len() && #[trigger] groups@[k].spec_name() == other;
                        }
                    }
                }
                keep = !other_found;
            }
            proof {
                reveal_with_fuel(Seq::filter, 1);
                assert(s.take(i + 1).drop_last() =~= s.take(i as int));
                assert(s.take(i + 1).last() == a@);
                assert(keep == pred(a@));
            }
            if keep {
                r.push(a.id());
                proof {
                    assert(s.take(i + 1).filter(pred) == s.take(i as int).filter(pred).push(a@));
                    assert(r@ =~= ids_of(s.take(i + 1).filter(pred)));
                }
            } else {
                proof {
                    assert(s.take(i + 1).filter(pred) == s.take(i as int).filter(pred));
                }
            }
            i = i + 1;
        }
        assert(s.take(i as int) =~= s);
        r
    }

    /// Removes the entity from the group, and from the activities in which it takes part only
    /// through this group.
    ///
    /// Returns Err if a formatted name is empty, if the entity or the group does not exist or
    /// if the entity is not in the group.
    pub fn remove_entity_from_group(&mut self, group_name: &str, entity_name: &str) -> (r: Result<
        (),
        FelixError,
    >)
        requires
            old(self).wf(),
        ensures
            final(self).wf(),
            r is Ok <==> has_word(entity_name@) && old(self)@.entities.contains_key(
                spec_clean_string(entity_name@),
            ) && has_word(group_name@) && old(self)@.groups.contains_key(
                spec_clean_string(group_name@),
            ) && old(self)@.groups[spec_clean_string(group_name@)].entities.contains(
                spec_clean_string(entity_name@),
            ),
            r is Ok ==> final(self)@ == data_with_member_removed(
                old(self)@,
                spec_clean_string(group_name@),
                spec_clean_string(entity_name@),
            ),
            r is Err ==> final(self)@ == old(self)@,
            !has_word(entity_name@) ==> (r matches Err(e) && e is EmptyName),
            has_word(entity_name@) && !old(self)@.entities.contains_key(
                spec_clean_string(entity_name@),
            ) ==> (r matches Err(FelixError::DoesNotExist(d)) && d.is_entity_named(
                spec_clean_string(entity_name@),
            )),
            has_word(entity_name@) && old(self)@.entities.contains_key(
                spec_clean_string(entity_name@),
            ) && !has_word(group_name@) ==> (r matches Err(e) && e is EmptyName),
            has_word(entity_name@) && old(self)@.entities.contains_key(
                spec_clean_string(entity_name@),
            ) && has_word(group_name@) && !old(self)@.groups.contains_key(
                spec_clean_string(group_name@),
            ) ==> (r matches Err(FelixError::DoesNotExist(d)) && d.is_group_named(
                spec_clean_string(group_name@),
            )),
            has_word(entity_name@) && old(self)@.entities.contains_key(
                spec_clean_string(entity_name@),
            ) && has_word(group_name@) && old(self)@.groups.contains_key(
                spec_clean_string(group_name@),
            ) && !old(self)@.groups[spec_clean_string(group_name@)].entities.contains(
                spec_clean_string(entity_name@),
            ) ==> (r matches Err(FelixError::NotIn(a)) && a.spec_who() == spec_clean_string(
                entity_name@,
            ) && a.spec_in_who() == spec_clean_string(group_name@)),
    {
        proof {
            self.lemma_wf();
        }
        let entity = self.entity(entity_name)?;
        let e = entity.name();
        let group = self.group(group_name)?;
        let g = group.name();
        self.groups.remove_entity_from_group(g.as_str(), e.as_str())?;
        let ghost v1 = self@;
        proof {
            let v = old(self)@;
            assert(v1 == DataView {
                groups: v.groups.insert(
                    g@,
                    GroupView { entities: v.groups[g@].entities.remove(e@), ..v.groups[g@] },
                ),
                ..v
            });
            assert forall|gg: Seq<char>, x: Seq<char>|
                v1.groups.contains_key(gg) && #[trigger] v1.groups[gg].entities.contains(x) implies v1.entities.contains_key(x) by {
                assert(v.groups[gg].entities.contains(x));
            }
            assert(is_coherent(v1));
        }
        let ids = self.ids_of_activities_in_which_entity_is_participating_only_through_this_group(
            &e,
            &g,
        );
        let ghost s1 = v1.activities.activities;
        let ghost kept = s1.filter(|a: ActivityView| only_through(v1, a, g@, e@));
        proof {
            broadcast use vstd::seq_lib::group_filter_ensures;
            self.lemma_wf();
            crate::activities::lemma_ids_unique_no_duplicates(s1);
            // The ids to handle are those of activities which hold the entity.
            assert forall|k: int| 0 <= k < ids@.len() implies has_activity(s1, #[trigger] ids@[k])
                && activity_with_id(s1, ids@[k]).metadata.entities.contains(e@) by {
                assert(ids@[k] == kept[k].metadata.id);
                assert(kept.contains(kept[k]));
                s1.lemma_filter_contains_rev(|a: ActivityView| only_through(v1, a, g@, e@), kept[k]);
                let q = choose|q: int| 0 <= q < s1.len() && s1[q] == kept[k];
                assert(s1[q].metadata.id == ids@[k]);
                crate::activities::lemma_index_of_same_ids(s1, s1, ids@[k]);
            }
            assert(ids@.no_duplicates()) by {
                assert forall|a: int, b: int| 0 <= a < ids@.len() && 0 <= b < ids@.len() && a != b implies ids@[a] != ids@[b] by {
                    let f = |x: ActivityView| only_through(v1, x, g@, e@);
                    lemma_filter_keeps_unique_ids(s1, f, a, b);
                }
            }
            assert(ids@.take(0) =~= Seq::<ActivityId>::empty());
        }
        let mut j: usize = 0;
        while j < ids.len()
            invariant
                self.wf(),
                j <= ids@.len(),
                ids@.no_duplicates(),
                self@ == data_without_entity_in(v1, ids@.take(j as int), e@),
                self@.entities.contains_key(e@),
                ids_of(self@.activities.activities) == ids_of(s1),
                forall|k: int|
                    j <= k < ids@.len() ==> has_activity(self@.activities.activities, #[trigger] ids@[k])
                        && activity_with_id(self@.activities.activities, ids@[k]).metadata.entities.contains(e@),
            decreases ids@.len() - j,
        {
            let ghost cur = self@;
            let id = ids[j];
            proof {
                self.lemma_wf();
                lemma_entity_removed_shape(cur, id, e@);
            }
            let _ = self.remove_existing_entity_from_activity(id, &e);
            proof {
                assert(ids@.take(j + 1).drop_last() =~= ids@.take(j as int));
                assert(ids@.take(j + 1).last() == id);
                let t = self@.activities.activities;
                let p = crate::activities::index_of_activity(cur.activities.activities, id);
                assert(ids_of(t) =~= ids_of(cur.activities.activities));
                assert forall|k: int|
                    j + 1 <= k < ids@.len() implies has_activity(t, #[trigger] ids@[k])
                        && activity_with_id(t, ids@[k]).metadata.entities.contains(e@) by {
                    assert(ids@[k] != ids@[j as int]);
                    assert(cur.activities.activities[p].metadata.id == id);
                    lemma_others_unchanged(cur.activities.activities, t, p, ids@[k]);
                }
            }
            j = j + 1;
        }
        proof {
            assert(ids@.take(ids@.len() as int) =~= ids@);
        }
        Ok(())
    }

    /// Removes the group with the formatted given name; it leaves every activity first, with
    /// the members which took part in an activity only through this group.
    ///
    /// Returns Err if the formatted name is empty or the group does not exist.
    pub fn remove_group(&mut self, name: &str) -> (r: Result<(), FelixError>)
        requires
            old(self).wf(),
        ensures
            final(self).wf(),
            r is Ok <==> has_word(name@) && old(self)@.groups.contains_key(spec_clean_string(name@)),
            r is Ok ==> final(self)@ == data_without_group(old(self)@, spec_clean_string(name@)),
            r is Err ==> final(self)@ == old(self)@,
            !has_word(name@) ==> (r matches Err(e) && e is EmptyName),
            has_word(name@) && !old(self)@.groups.contains_key(spec_clean_string(name@)) ==> (
            r matches Err(FelixError::DoesNotExist(d)) && d.is_group_named(
                spec_clean_string(name@),
            )),
    {
        proof {
            self.lemma_wf();
        }
        let name = clean_string(name)?;
        if !self.groups.contains(&name) {
            return self.groups.remove(name.as_str());
        }
        let ids = self.activities.ids();
        let ghost v = old(self)@;
        let ghost s = v.activities.activities;
        proof {
            crate::activities::lemma_ids_unique_no_duplicates(s);
            assert(ids@.take(0) =~= Seq::<ActivityId>::empty());
        }
        let mut j: usize = 0;
        while j < ids.len()
            invariant
                self.wf(),
                j <= ids@.len(),
                ids@ == ids_of(s),
                ids@.no_duplicates(),
                self@ == data_without_group_in(v, ids@.take(j as int), name@),
                self@.groups == v.groups,
                v.groups.contains_key(name@),
                ids_of(self@.activities.activities) == ids_of(s),
                forall|k: int|
                    0 <= k < j ==> !activity_with_id(self@.activities.activities, #[trigger] ids@[k]).metadata.groups.contains(name@),
            decreases ids@.len() - j,
        {
            let ghost cur = self@;
            let id = ids[j];
            proof {
                self.lemma_wf();
                let t = cur.activities.activities;
                assert(ids_of(t)[j as int] == id);
                assert(t[j as int].metadata.id == id);
                crate::activities::lemma_index_of_same_ids(t, t, id);
                lemma_group_removed_shape(cur, id, name@);
            }
            let _ = self.remove_existing_group_from_activity(id, &name);
            proof {
                assert(ids@.take(j + 1).drop_last() =~= ids@.take(j as int));
                assert(ids@.take(j + 1).last() == id);
                let t = self@.activities.activities;
                let c = cur.activities.activities;
                let p = crate::activities::index_of_activity(c, id);
                assert(ids_of(t) =~= ids_of(c));
                assert(c[p].metadata.id == id);
                assert forall|k: int|
                    0 <= k < j + 1 implies !activity_with_id(t, #[trigger] ids@[k]).metadata.groups.contains(name@) by {
                    if k < j {
                        assert(ids@[k] != ids@[j as int]);
                        assert(ids_of(c)[k] == ids@[k]);
                        assert(has_activity(c, ids@[k]));
                        lemma_others_unchanged(c, t, p, ids@[k]);
                    } else {
                        crate::activities::lemma_index_of_same_ids(c, t, id);
                    }
                }
            }
            j = j + 1;
        }
        let ghost before = self@;
        proof {
            assert(ids@.take(ids@.len() as int) =~= ids@);
            let t = before.activities.activities;
            self.lemma_wf();
            assert forall|i: int| 0 <= i < t.len() implies !(#[trigger] t[i]).metadata.groups.contains(name@) by {
                assert(ids_of(t)[i] == ids@[i]);
                assert(t[i].metadata.id == ids@[i]);
                crate::activities::lemma_index_of_same_ids(t, t, ids@[i]);
            }
        }
        let _ = self.groups.remove(name.as_str());
        proof {
            let w = self@;
            let t = w.activities.activities;
            assert(w.activities == before.activities && w.entities == before.entities);
            assert(is_coherent(before));
            assert forall|i: int| 0 <= i < t.len() implies spans_its_duration(#[trigger] t[i]) && costs_fit(t[i]) by {
                assert(spans_its_duration(before.activities.activities[i]));
                assert(costs_fit(before.activities.activities[i]));
            }
            assert forall|i: int, x: Seq<char>|
                0 <= i < t.len() && #[trigger] t[i].metadata.entities.contains(x) implies w.entities.contains_key(x) by {
                assert(before.activities.activities[i].metadata.entities.contains(x));
            }
            assert forall|i: int, gg: Seq<char>|
                0 <= i < t.len() && #[trigger] t[i].metadata.groups.contains(gg) implies w.groups.contains_key(gg) by {
                assert(before.groups.contains_key(gg));
            }
            assert forall|gg: Seq<char>, x: Seq<char>|
                w.groups.contains_key(gg) && #[trigger] w.groups[gg].entities.contains(x) implies w.entities.contains_key(x) by {
                assert(before.groups[gg].entities.contains(x));
            }
            assert(is_coherent(w));
        }
        Ok(())
    }
}

} // verus!

verus! {

/// Filtering activities with unique ids keeps the ids unique.
proof fn lemma_filter_keeps_unique_ids(s: Seq<ActivityView>, f: spec_fn(ActivityView) -> bool, a: int, b: int)
    requires
        crate::activities::ids_unique(s),
        0 <= a < s.filter(f).len(),
        0 <= b < s.filter(f).len(),
        a != b,
    ensures
        ids_of(s.filter(f))[a] != ids_of(s.filter(f))[b],
    decreases s.len(),
{
    reveal_with_fuel(Seq::filter, 1);
    broadcast use vstd::seq_lib::group_filter_ensures;
    let t = s.drop_last();
    assert(crate::activities::ids_unique(t)) by {
        assert forall|i: int, j: int| 0 <= i < t.len() && 0 <= j < t.len() && i != j implies (#[trigger] t[i]).metadata.id != (#[trigger] t[j]).metadata.id by {
            assert(s[i].metadata.id != s[j].metadata.id);
        }
    }
    let ft = t.filter(f);
    if f(s.last()) {
        let n = ft.len() as int;
        if a < n && b < n {
            lemma_filter_keeps_unique_ids(t, f, a, b);
        } else {
            let other = if a < n { a } else { b };
            assert(ft.contains(ft[other]));
            t.lemma_filter_contains_rev(f, ft[other]);
            let q = choose|q: int| 0 <= q < t.len() && t[q] == ft[other];
            assert(s[q].metadata.id != s[s.len() - 1].metadata.id);
        }
    } else {
        lemma_filter_keeps_unique_ids(t, f, a, b);
    }
}

} // verus!

verus! {

/// A group without members, in no activity, leaves the activities with the given ids without
/// changing anything.
proof fn lemma_unused_group_leaves_nothing(v: DataView, ids: Seq<ActivityId>, group: Seq<char>)
    requires
        v.groups[group].entities.is_empty(),
        forall|i: int|
            0 <= i < v.activities.activities.len()
                ==> !(#[trigger] v.activities.activities[i]).metadata.groups.contains(group),
        forall|k: int| 0 <= k < ids.len() ==> has_activity(v.activities.activities, #[trigger] ids[k]),
        crate::activities::conflicts_up_to_date(v.activities.activities),
    ensures
        data_without_group_in(v, ids, group) == v,
    decreases ids.len(),
{
    if ids.len() > 0 {
        lemma_unused_group_leaves_nothing(v, ids.drop_last(), group);
        let s = v.activities.activities;
        let id = ids.last();
        assert(has_activity(s, ids[ids.len() - 1]));
        let p = crate::activities::index_of_activity(s, id);
        let a = activity_with_id(s, id);
        assert(a == s[p]);
        assert(!a.metadata.groups.contains(group));
        assert(only_through_group(v, a, group) =~= Set::empty());
        let m = ActivityMetadataView {
            entities: a.metadata.entities.difference(only_through_group(v, a, group)),
            groups: a.metadata.groups,
            ..a.metadata
        };
        assert(m.entities =~= a.metadata.entities);
        assert(m == a.metadata);
        crate::activities::lemma_set_same_metadata(s, id);
        crate::activities::lemma_refresh_up_to_date(s);
        assert(activities_without_group_members(v, id, group, false) == s);
        assert(with_activities(v, s) == v);
    }
}

/// Adding a group which does not exist, then removing it, gives back the same data.
pub proof fn lemma_add_then_remove_group(data: &Data, name: Seq<char>)
    requires
        data.wf(),
        !data@.groups.contains_key(name),
    ensures
        data_without_group(
            DataView { groups: data@.groups.insert(name, new_group_view(name)), ..data@ },
            name,
        ) == data@,
{
    data.lemma_wf();
    let v = data@;
    let added = DataView { groups: v.groups.insert(name, new_group_view(name)), ..v };
    let s = v.activities.activities;
    let ids = ids_of(s);
    assert forall|i: int| 0 <= i < s.len() implies !(#[trigger] s[i]).metadata.groups.contains(name) by {
        if s[i].metadata.groups.contains(name) {
            assert(v.groups.contains_key(name));
        }
    }
    assert forall|k: int| 0 <= k < ids.len() implies has_activity(s, #[trigger] ids[k]) by {
        assert(s[k].metadata.id == ids[k]);
    }
    lemma_unused_group_leaves_nothing(added, ids, name);
    assert(added.groups.remove(name) =~= v.groups);
}

} // verus!

verus! {

/// Renaming a group to a free name, then giving it back its former name, gives back the same
/// data.
pub proof fn lemma_rename_group_back(data: &Data, old_name: Seq<char>, new_name: Seq<char>)
    requires
        data.wf(),
        data@.groups.contains_key(old_name),
        !data@.entities.contains_key(new_name),
        !data@.groups.contains_key(new_name),
    ensures
        data_with_group_renamed(
            data_with_group_renamed(data@, old_name, new_name),
            new_name,
            old_name,
        ) == data@,
{
    data.lemma_wf();
    let v = data@;
    let w = data_with_group_renamed(v, old_name, new_name);
    let u = data_with_group_renamed(w, new_name, old_name);
    assert(old_name != new_name);
    assert(u.groups =~= v.groups) by {
        assert forall|n: Seq<char>| #[trigger] u.groups.contains_key(n) implies u.groups[n]
            == v.groups[n] by {
            if n == old_name {
                assert(v.groups[old_name].name == old_name);
            }
        }
    }
    let s = v.activities.activities;
    let t = w.activities.activities;
    let r = u.activities.activities;
    let m = map_metadata(t, |m: ActivityMetadataView| group_renamed(m, new_name, old_name));
    assert forall|k: int| 0 <= k < s.len() implies #[trigger] m[k].metadata == s[k].metadata by {
        let gk = s[k].metadata.groups;
        if gk.contains(new_name) {
            assert(v.groups.contains_key(new_name));
        }
        assert(rename_in_set(rename_in_set(gk, old_name, new_name), new_name, old_name) =~= gk);
        assert(t[k].metadata == group_renamed(s[k].metadata, old_name, new_name));
    }
    assert(crate::activities::metadata_views(m) =~= crate::activities::metadata_views(s));
    assert(r =~= s) by {
        assert forall|i: int| 0 <= i < s.len() implies #[trigger] r[i] == s[i] by {
            assert(m[i].metadata == s[i].metadata);
            assert(r[i].computation =~= s[i].computation);
        }
    }
}

} // verus!
