//! Operations of the data on entities.

use super::free_time::{free_time, time_taken, work_hours_of_entity};
use super::work_hours::{
    entities_on_global_hours, invalidate_data_costs, lemma_invalidate_coherent,
    no_activity_inserted,
};
use super::{is_coherent, spans_its_duration, Data, DataView};
use crate::activities::{
    entity_renamed, map_metadata, metadata_views, refresh_conflicts, without_entity,
    ActivitiesView,
};
use crate::activity_metadata::ActivityMetadataView;
use crate::entity::{new_entity_view, EntityView};
use crate::errors::name_taken::{GroupOrEntity, NameTaken};
use crate::errors::not_enough_time::NotEnoughTime;
use crate::errors::FelixError;
use crate::group::{rename_in_set, GroupView};
use crate::strings::{clean_string, has_word, spec_clean_string};
use crate::time::Time;
use crate::time_interval::{spec_duration, TimeInterval};
use crate::work_intervals::{overlaps_any, sum_durations};
use vstd::prelude::*;

verus! {

/// The groups, without the given entity.
pub open spec fn groups_without_entity(
    groups: Map<Seq<char>, GroupView>,
    entity: Seq<char>,
) -> Map<Seq<char>, GroupView> {
    Map::new(
        |g: Seq<char>| groups.contains_key(g),
        |g: Seq<char>| GroupView { entities: groups[g].entities.remove(entity), ..groups[g] },
    )
}

/// The groups, with the given entity renamed.
pub open spec fn groups_with_entity_renamed(
    groups: Map<Seq<char>, GroupView>,
    old_name: Seq<char>,
    new_name: Seq<char>,
) -> Map<Seq<char>, GroupView> {
    Map::new(
        |g: Seq<char>| groups.contains_key(g),
        |g: Seq<char>|
            GroupView { entities: rename_in_set(groups[g].entities, old_name, new_name), ..groups[g] },
    )
}

/// The data after the removal of the given entity.
pub open spec fn data_without_entity(v: DataView, entity: Seq<char>) -> DataView {
    DataView {
        work_hours: v.work_hours,
        entities: v.entities.remove(entity),
        groups: groups_without_entity(v.groups, entity),
        activities: ActivitiesView {
            activities: refresh_conflicts(
                map_metadata(v.activities.activities, |m: ActivityMetadataView| without_entity(m, entity)),
            ),
            ..v.activities
        },
    }
}

/// The data after the given entity is renamed.
pub open spec fn data_with_entity_renamed(
    v: DataView,
    old_name: Seq<char>,
    new_name: Seq<char>,
) -> DataView {
    DataView {
        work_hours: v.work_hours,
        entities: v.entities.remove(old_name).insert(
            new_name,
            EntityView { name: new_name, ..v.entities[old_name] },
        ),
        groups: groups_with_entity_renamed(v.groups, old_name, new_name),
        activities: ActivitiesView {
            activities: refresh_conflicts(
                map_metadata(
                    v.activities.activities,
                    |m: ActivityMetadataView| entity_renamed(m, old_name, new_name),
                ),
            ),
            ..v.activities
        },
    }
}

/// The time the entity would have for its activities once the given custom interval is
/// removed: the global work hours if it is its last custom interval, else what is left of its
/// custom work hours.
pub open spec fn time_after_removal(v: DataView, name: Seq<char>, interval: (int, int)) -> int {
    if v.entities[name].custom_work_hours.len() == 1 {
        sum_durations(v.work_hours)
    } else {
        sum_durations(v.entities[name].custom_work_hours) - spec_duration(interval)
    }
}

/// The data, where the given entity has the given entity view.
pub open spec fn with_entity(v: DataView, name: Seq<char>, e: EntityView) -> DataView {
    DataView { entities: v.entities.insert(name, e), ..v }
}

/// The entities of `new` are those of `old`, except that the custom work hours of the given
/// entity are the given set of intervals.
pub open spec fn custom_hours_become(
    old: Map<Seq<char>, EntityView>,
    new: Map<Seq<char>, EntityView>,
    name: Seq<char>,
    hours: Set<(int, int)>,
) -> bool {
    &&& new.dom() == old.dom()
    &&& new.remove(name) == old.remove(name)
    &&& new[name].name == old[name].name
    &&& new[name].mail == old[name].mail
    &&& new[name].send_me_a_mail == old[name].send_me_a_mail
    &&& new[name].custom_work_hours.to_set() == hours
}

/// The data once the work hours changed: the insertion costs of the activities of the
/// entities which follow the global work hours are invalidated.
pub open spec fn after_work_hours_change(v: DataView) -> DataView {
    invalidate_data_costs(v, entities_on_global_hours(v))
}

impl Data {
    /// Returns Err if a group has the given name.
    pub(crate) fn check_name_taken_by_group(&self, name: &String) -> (r: Result<(), FelixError>)
        requires
            self.wf(),
        ensures
            r is Ok <==> !self@.groups.contains_key(name@),
            r matches Err(e) ==> e matches FelixError::NameTaken(t) && t.spec_by()
                == GroupOrEntity::Group && t.spec_name() == name@,
    {
        if self.groups.contains(name) {
            Err(FelixError::NameTaken(NameTaken::name_taken_by_group(name.clone())))
        } else {
            Ok(())
        }
    }

    /// Adds an entity with the formatted given name. Returns the formatted name.
    ///
    /// Returns Err if the formatted name is empty or taken by a group or an entity.
    pub fn add_entity(&mut self, name: &str) -> (r: Result<String, FelixError>)
        requires
            old(self).wf(),
        ensures
            final(self).wf(),
            r is Ok <==> has_word(name@) && !old(self)@.groups.contains_key(
                spec_clean_string(name@),
            ) && !old(self)@.entities.contains_key(spec_clean_string(name@)),
            r matches Ok(n) ==> n@ == spec_clean_string(name@),
            r is Ok ==> final(self)@ == (DataView {
                entities: old(self)@.entities.insert(
                    spec_clean_string(name@),
                    new_entity_view(spec_clean_string(name@)),
                ),
                ..old(self)@
            }),
            r is Err ==> final(self)@ == old(self)@,
            !has_word(name@) ==> (r matches Err(e) && e is EmptyName),
            has_word(name@) && old(self)@.groups.contains_key(spec_clean_string(name@)) ==> (
            r matches Err(FelixError::NameTaken(t)) && t.spec_by() == GroupOrEntity::Group
                && t.spec_name() == spec_clean_string(name@)),
            has_word(name@) && !old(self)@.groups.contains_key(spec_clean_string(name@))
                && old(self)@.entities.contains_key(spec_clean_string(name@)) ==> (r matches Err(
                FelixError::NameTaken(t),
            ) && t.spec_by() == GroupOrEntity::Entity && t.spec_name() == spec_clean_string(
                name@,
            )),
    {
        let name = clean_string(name)?;
        self.check_name_taken_by_group(&name)?;
        self.entities.add(name.clone())?;
        Ok(name)
    }

    /// Removes the entity with the formatted given name, from the groups and activities too.
    ///
    /// Returns Err if the formatted name is empty or the entity does not exist.
    pub fn remove_entity(&mut self, name: &str) -> (r: Result<(), FelixError>)
        requires
            old(self).wf(),
        ensures
            final(self).wf(),
            r is Ok <==> has_word(name@) && old(self)@.entities.contains_key(
                spec_clean_string(name@),
            ),
            r is Ok ==> final(self)@ == data_without_entity(old(self)@, spec_clean_string(name@)),
            r is Err ==> final(self)@ == old(self)@,
            !has_word(name@) ==> (r matches Err(e) && e is EmptyName),
            has_word(name@) && !old(self)@.entities.contains_key(spec_clean_string(name@)) ==> (
            r matches Err(FelixError::DoesNotExist(d)) && d.is_entity_named(
                spec_clean_string(name@),
            )),
    {
        let name = clean_string(name)?;
        self.entities.remove(name.as_str())?;
        self.activities.remove_entity_from_all(name.as_str());
        self.groups.remove_entity_from_all(name.as_str());
        proof {
            let v = old(self)@;
            let w = data_without_entity(v, name@);
            assert(self@.groups =~= w.groups);
            assert(self@ == w);
            assert forall|i: int| 0 <= i < w.activities.activities.len() implies spans_its_duration(
                #[trigger] w.activities.activities[i],
            ) by {
                assert(spans_its_duration(v.activities.activities[i]));
            }
        }
        Ok(())
    }

    /// Renames the entity, in the groups and activities too. Returns the formatted new name.
    ///
    /// Returns Err if a formatted name is empty, if the new name is taken by a group or an
    /// entity or if the entity does not exist.
    pub fn set_entity_name(&mut self, old_name: &str, new_name: &str) -> (r: Result<
        String,
        FelixError,
    >)
        requires
            old(self).wf(),
        ensures
            final(self).wf(),
            r is Ok <==> has_word(new_name@) && !old(self)@.groups.contains_key(
                spec_clean_string(new_name@),
            ) && has_word(old_name@) && !old(self)@.entities.contains_key(
                spec_clean_string(new_name@),
            ) && old(self)@.entities.contains_key(spec_clean_string(old_name@)),
            r matches Ok(n) ==> n@ == spec_clean_string(new_name@),
            r is Ok ==> final(self)@ == data_with_entity_renamed(
                old(self)@,
                spec_clean_string(old_name@),
                spec_clean_string(new_name@),
            ),
            r is Err ==> final(self)@ == old(self)@,
            !has_word(new_name@) ==> (r matches Err(e) && e is EmptyName),
            has_word(new_name@) && old(self)@.groups.contains_key(spec_clean_string(new_name@))
                ==> (r matches Err(FelixError::NameTaken(t)) && t.spec_by() == GroupOrEntity::Group
                && t.spec_name() == spec_clean_string(new_name@)),
            has_word(new_name@) && !old(self)@.groups.contains_key(spec_clean_string(new_name@))
                && !has_word(old_name@) ==> (r matches Err(e) && e is EmptyName),
            has_word(new_name@) && !old(self)@.groups.contains_key(spec_clean_string(new_name@))
                && has_word(old_name@) && old(self)@.entities.contains_key(
                spec_clean_string(new_name@),
            ) ==> (r matches Err(FelixError::NameTaken(t)) && t.spec_by() == GroupOrEntity::Entity
                && t.spec_name() == spec_clean_string(new_name@)),
            has_word(new_name@) && !old(self)@.groups.contains_key(spec_clean_string(new_name@))
                && has_word(old_name@) && !old(self)@.entities.contains_key(
                spec_clean_string(new_name@),
            ) && !old(self)@.entities.contains_key(spec_clean_string(old_name@)) ==> (
            r matches Err(FelixError::DoesNotExist(d)) && d.is_entity_named(
                spec_clean_string(old_name@),
            )),
    {
        let new_name = clean_string(new_name)?;
        self.check_name_taken_by_group(&new_name)?;
        let old_name = clean_string(old_name)?;
        self.entities.set_name_of(old_name.as_str(), new_name.clone())?;
        self.groups.rename_entity_in_all(old_name.as_str(), new_name.clone());
        self.activities.rename_entity_in_all(old_name.as_str(), new_name.clone());
        proof {
            let v = old(self)@;
            let w = data_with_entity_renamed(v, old_name@, new_name@);
            assert(self@.groups =~= w.groups);
            assert(self@ == w);
            assert forall|g: Seq<char>, e: Seq<char>|
                w.groups.contains_key(g) && #[trigger] w.groups[g].entities.contains(e) implies w.entities.contains_key(e) by {
                assert(!v.groups[g].entities.contains(new_name@));
                if e != new_name@ {
                    assert(v.groups[g].entities.contains(e));
                }
            }
            assert forall|i: int, e: Seq<char>|
                0 <= i < w.activities.activities.len()
                    && #[trigger] w.activities.activities[i].metadata.entities.contains(e) implies w.entities.contains_key(e) by {
                assert(!v.activities.activities[i].metadata.entities.contains(new_name@));
                if e != new_name@ {
                    assert(v.activities.activities[i].metadata.entities.contains(e));
                }
            }
            assert forall|i: int| 0 <= i < w.activities.activities.len() implies spans_its_duration(
                #[trigger] w.activities.activities[i],
            ) by {
                assert(spans_its_duration(v.activities.activities[i]));
            }
        }
        Ok(new_name)
    }

    /// Sets the mail of the entity.
    ///
    /// Returns Err if the formatted name is empty or the entity does not exist.
    pub fn set_entity_mail(&mut self, entity_name: &str, mail: String) -> (r: Result<
        (),
        FelixError,
    >)
        requires
            old(self).wf(),
        ensures
            final(self).wf(),
            r is Ok <==> has_word(entity_name@) && old(self)@.entities.contains_key(
                spec_clean_string(entity_name@),
            ),
            r is Ok ==> final(self)@ == with_entity(
                old(self)@,
                spec_clean_string(entity_name@),
                EntityView { mail: mail@, ..old(self)@.entities[spec_clean_string(entity_name@)] },
            ),
            r is Err ==> final(self)@ == old(self)@,
            !has_word(entity_name@) ==> (r matches Err(e) && e is EmptyName),
            has_word(entity_name@) && !old(self)@.entities.contains_key(spec_clean_string(entity_name@))
                ==> (r matches Err(FelixError::DoesNotExist(d)) && d.is_entity_named(
                spec_clean_string(entity_name@),
            )),
    {
        let name = clean_string(entity_name)?;
        self.entities.set_mail_of(name.as_str(), mail)?;
        Ok(())
    }

    /// Sets whether a mail should be sent to the entity.
    ///
    /// Returns Err if the formatted name is empty or the entity does not exist.
    pub fn set_send_mail_to(&mut self, entity_name: &str, send: bool) -> (r: Result<
        (),
        FelixError,
    >)
        requires
            old(self).wf(),
        ensures
            final(self).wf(),
            r is Ok <==> has_word(entity_name@) && old(self)@.entities.contains_key(
                spec_clean_string(entity_name@),
            ),
            r is Ok ==> final(self)@ == with_entity(
                old(self)@,
                spec_clean_string(entity_name@),
                EntityView {
                    send_me_a_mail: send,
                    ..old(self)@.entities[spec_clean_string(entity_name@)]
                },
            ),
            r is Err ==> final(self)@ == old(self)@,
            !has_word(entity_name@) ==> (r matches Err(e) && e is EmptyName),
            has_word(entity_name@) && !old(self)@.entities.contains_key(spec_clean_string(entity_name@))
                ==> (r matches Err(FelixError::DoesNotExist(d)) && d.is_entity_named(
                spec_clean_string(entity_name@),
            )),
    {
        let name = clean_string(entity_name)?;
        self.entities.set_send_mail_to(name.as_str(), send)?;
        Ok(())
    }

    /// Adds a custom work interval to the entity. The entity then follows its custom work
    /// hours instead of the global ones.
    ///
    /// Returns Err if the formatted name is empty, if an activity is inserted, if the entity
    /// does not exist, if its first custom interval is too short for its activities or if the
    /// interval overlaps with its custom work hours.
    pub fn add_custom_work_interval_for(&mut self, entity_name: &str, interval: TimeInterval) -> (r:
        Result<(), FelixError>)
        requires
            old(self).wf(),
            interval.wf(),
        ensures
            final(self).wf(),
            r is Ok <==> has_word(entity_name@) && no_activity_inserted(
                old(self)@.activities.activities,
            ) && old(self)@.entities.contains_key(spec_clean_string(entity_name@)) && (old(
                self,
            )@.entities[spec_clean_string(entity_name@)].custom_work_hours.len() == 0
                ==> time_taken(old(self)@.activities.activities, spec_clean_string(entity_name@))
                <= spec_duration(interval@)) && !overlaps_any(
                old(self)@.entities[spec_clean_string(entity_name@)].custom_work_hours,
                interval@,
            ),
            r is Err ==> final(self)@ == old(self)@,
            !has_word(entity_name@) ==> (r matches Err(e) && e is EmptyName),
            has_word(entity_name@) && !no_activity_inserted(old(self)@.activities.activities) ==> (
            r matches Err(e) && e is ChangeWorkHoursWhileActivityInserted),
            has_word(entity_name@) && no_activity_inserted(old(self)@.activities.activities)
                && !old(self)@.entities.contains_key(spec_clean_string(entity_name@)) ==> (
            r matches Err(FelixError::DoesNotExist(d)) && d.is_entity_named(
                spec_clean_string(entity_name@),
            )),
            has_word(entity_name@) && no_activity_inserted(old(self)@.activities.activities) && old(
                self,
            )@.entities.contains_key(spec_clean_string(entity_name@)) && old(
                self,
            )@.entities[spec_clean_string(entity_name@)].custom_work_hours.len() == 0
                && spec_duration(interval@) < time_taken(
                old(self)@.activities.activities,
                spec_clean_string(entity_name@),
            ) ==> (r matches Err(FelixError::NotEnoughTime(t)) && t.is_work_hours_shortened_for(
                spec_clean_string(entity_name@),
            )),
            has_word(entity_name@) && no_activity_inserted(old(self)@.activities.activities) && old(
                self,
            )@.entities.contains_key(spec_clean_string(entity_name@)) && overlaps_any(
                old(self)@.entities[spec_clean_string(entity_name@)].custom_work_hours,
                interval@,
            ) ==> (r matches Err(e) && e is IntervalOverlaps),
            r is Ok ==> custom_hours_become(
                old(self)@.entities,
                final(self)@.entities,
                spec_clean_string(entity_name@),
                old(self)@.entities[spec_clean_string(
                    entity_name@,
                )].custom_work_hours.to_set().insert(interval@),
            ),
            r is Ok ==> final(self)@ == after_work_hours_change(
                DataView { entities: final(self)@.entities, ..old(self)@ },
            ),
    {
        proof {
            self.lemma_wf();
        }
        let name = clean_string(entity_name)?;
        self.check_no_activity_inserted()?;
        let entity = self.entities.get_by_name(name.as_str())?;
        if entity.custom_work_intervals().len() == 0 {
            let taken = self.time_taken_by_activities(&name);
            if (interval.duration().total_minutes() as i128) < taken {
                return Err(
                    FelixError::NotEnoughTime(NotEnoughTime::work_hours_shortened_for(name)),
                );
            }
        }
        self.entities.add_custom_work_interval_for(name.as_str(), interval)?;
        let ghost mid = self@;
        proof {
            assert(mid == DataView { entities: mid.entities, ..old(self)@ });
            self.lemma_wf();
            assert forall|k: Seq<char>| #[trigger] mid.entities.contains_key(k) <==> old(self)@.entities.contains_key(k) by {}
            super::lemma_coherent_entities(old(self)@, mid);
        }
        self.notify_work_hours_changed();
        Ok(())
    }

    /// Removes a custom work interval of the entity. Without custom work intervals left, the
    /// entity follows the global work hours.
    ///
    /// Returns Err if the formatted name is empty, if the entity does not exist or does not
    /// have this custom interval, if an activity is inserted or if the entity would not have
    /// enough time for its activities.
    pub fn remove_custom_work_interval_for(&mut self, entity_name: &str, interval: TimeInterval) -> (r:
        Result<(), FelixError>)
        requires
            old(self).wf(),
            interval.wf(),
        ensures
            final(self).wf(),
            r is Ok <==> has_word(entity_name@) && old(self)@.entities.contains_key(
                spec_clean_string(entity_name@),
            ) && old(self)@.entities[spec_clean_string(entity_name@)].custom_work_hours.contains(
                interval@,
            ) && no_activity_inserted(old(self)@.activities.activities) && time_taken(
                old(self)@.activities.activities,
                spec_clean_string(entity_name@),
            ) <= time_after_removal(old(self)@, spec_clean_string(entity_name@), interval@),
            r is Err ==> final(self)@ == old(self)@,
            !has_word(entity_name@) ==> (r matches Err(e) && e is EmptyName),
            has_word(entity_name@) && !old(self)@.entities.contains_key(
                spec_clean_string(entity_name@),
            ) ==> (r matches Err(FelixError::DoesNotExist(d)) && d.is_entity_named(
                spec_clean_string(entity_name@),
            )),
            has_word(entity_name@) && old(self)@.entities.contains_key(
                spec_clean_string(entity_name@),
            ) && !old(self)@.entities[spec_clean_string(entity_name@)].custom_work_hours.contains(
                interval@,
            ) ==> (r matches Err(FelixError::DoesNotExist(d)) && *d
                == crate::errors::does_not_exist::DoesNotExist::Interval(interval)),
            has_word(entity_name@) && old(self)@.entities.contains_key(spec_clean_string(entity_name@))
                && old(self)@.entities[spec_clean_string(entity_name@)].custom_work_hours.contains(
                interval@,
            ) && !no_activity_inserted(old(self)@.activities.activities) ==> (r matches Err(e)
                && e is ChangeWorkHoursWhileActivityInserted),
            has_word(entity_name@) && old(self)@.entities.contains_key(spec_clean_string(entity_name@))
                && old(self)@.entities[spec_clean_string(entity_name@)].custom_work_hours.contains(
                interval@,
            ) && no_activity_inserted(old(self)@.activities.activities) && time_after_removal(
                old(self)@,
                spec_clean_string(entity_name@),
                interval@,
            ) < time_taken(old(self)@.activities.activities, spec_clean_string(entity_name@)) ==> (
            r matches Err(FelixError::NotEnoughTime(t)) && t.is_work_hours_shortened_for(
                spec_clean_string(entity_name@),
            )),
            r is Ok ==> custom_hours_become(
                old(self)@.entities,
                final(self)@.entities,
                spec_clean_string(entity_name@),
                old(self)@.entities[spec_clean_string(
                    entity_name@,
                )].custom_work_hours.to_set().remove(interval@),
            ),
            r is Ok ==> final(self)@ == after_work_hours_change(
                DataView { entities: final(self)@.entities, ..old(self)@ },
            ),
    {
        let name = clean_string(entity_name)?;
        let entity = self.entities.get_by_name(name.as_str())?;
        let custom = entity.custom_work_intervals();
        if !custom.contains(&interval) {
            return Err(
                FelixError::DoesNotExist(
                    crate::errors::does_not_exist::DoesNotExist::interval_does_not_exist(interval),
                ),
            );
        }
        self.check_no_activity_inserted()?;
        proof {
            self.lemma_wf();
            entity.lemma_wf();
        }
        let entity_time: i128 = if custom.len() == 1 {
            self.work_hours.intervals().total_duration().total_minutes() as i128
        } else {
            let before = custom.total_duration().total_minutes() as i128;
            before - interval.duration().total_minutes() as i128
        };
        let taken = self.time_taken_by_activities(&name);
        if entity_time < taken {
            return Err(FelixError::NotEnoughTime(NotEnoughTime::work_hours_shortened_for(name)));
        }
        self.entities.remove_custom_work_interval_for(name.as_str(), interval)?;
        let ghost mid = self@;
        proof {
            assert(mid == DataView { entities: mid.entities, ..old(self)@ });
            super::lemma_coherent_entities(old(self)@, mid);
        }
        self.notify_work_hours_changed();
        Ok(())
    }

    /// Replaces a custom work interval of the entity.
    ///
    /// Returns Err if the formatted name is empty, if an activity is inserted, if the entity
    /// does not exist or does not have the old interval, if it would not have enough time for
    /// its activities or if the new interval overlaps with its other custom intervals.
    pub fn update_custom_work_interval_for(
        &mut self,
        entity_name: &str,
        old_interval: TimeInterval,
        new_interval: TimeInterval,
    ) -> (r: Result<(), FelixError>)
        requires
            old(self).wf(),
            old_interval.wf(),
            new_interval.wf(),
        ensures
            final(self).wf(),
            r is Ok <==> has_word(entity_name@) && no_activity_inserted(
                old(self)@.activities.activities,
            ) && old(self)@.entities.contains_key(spec_clean_string(entity_name@)) && old(
                self,
            )@.entities[spec_clean_string(entity_name@)].custom_work_hours.contains(old_interval@)
                && (spec_duration(new_interval@) < spec_duration(old_interval@) ==> spec_duration(
                old_interval@,
            ) - spec_duration(new_interval@) <= free_time(
                old(self)@,
                spec_clean_string(entity_name@),
            )) && !overlaps_any(
                old(self)@.entities[spec_clean_string(entity_name@)].custom_work_hours.remove(
                    old(self)@.entities[spec_clean_string(
                        entity_name@,
                    )].custom_work_hours.index_of(old_interval@),
                ),
                new_interval@,
            ),
            r is Err ==> final(self)@ == old(self)@,
            !has_word(entity_name@) ==> (r matches Err(e) && e is EmptyName),
            has_word(entity_name@) && !no_activity_inserted(old(self)@.activities.activities) ==> (
            r matches Err(e) && e is ChangeWorkHoursWhileActivityInserted),
            has_word(entity_name@) && no_activity_inserted(old(self)@.activities.activities)
                && !old(self)@.entities.contains_key(spec_clean_string(entity_name@)) ==> (
            r matches Err(FelixError::DoesNotExist(d)) && d.is_entity_named(
                spec_clean_string(entity_name@),
            )),
            has_word(entity_name@) && no_activity_inserted(old(self)@.activities.activities) && old(
                self,
            )@.entities.contains_key(spec_clean_string(entity_name@)) && !old(
                self,
            )@.entities[spec_clean_string(entity_name@)].custom_work_hours.contains(old_interval@)
                ==> (r matches Err(FelixError::DoesNotExist(d)) && *d
                == crate::errors::does_not_exist::DoesNotExist::Interval(old_interval)),
            has_word(entity_name@) && no_activity_inserted(old(self)@.activities.activities) && old(
                self,
            )@.entities.contains_key(spec_clean_string(entity_name@)) && old(
                self,
            )@.entities[spec_clean_string(entity_name@)].custom_work_hours.contains(old_interval@)
                && spec_duration(new_interval@) < spec_duration(old_interval@) && free_time(
                old(self)@,
                spec_clean_string(entity_name@),
            ) < spec_duration(old_interval@) - spec_duration(new_interval@) ==> (r matches Err(
                FelixError::NotEnoughTime(t),
            ) && t.is_work_hours_shortened_for(spec_clean_string(entity_name@))),
            has_word(entity_name@) && no_activity_inserted(old(self)@.activities.activities) && old(
                self,
            )@.entities.contains_key(spec_clean_string(entity_name@)) && old(
                self,
            )@.entities[spec_clean_string(entity_name@)].custom_work_hours.contains(old_interval@)
                && !(spec_duration(new_interval@) < spec_duration(old_interval@) && free_time(
                old(self)@,
                spec_clean_string(entity_name@),
            ) < spec_duration(old_interval@) - spec_duration(new_interval@)) && overlaps_any(
                old(self)@.entities[spec_clean_string(entity_name@)].custom_work_hours.remove(
                    old(self)@.entities[spec_clean_string(
                        entity_name@,
                    )].custom_work_hours.index_of(old_interval@),
                ),
                new_interval@,
            ) ==> (r matches Err(e) && e is IntervalOverlaps),
            r is Ok ==> custom_hours_become(
                old(self)@.entities,
                final(self)@.entities,
                spec_clean_string(entity_name@),
                old(self)@.entities[spec_clean_string(
                    entity_name@,
                )].custom_work_hours.to_set().remove(old_interval@).insert(new_interval@),
            ),
            r is Ok ==> final(self)@ == after_work_hours_change(
                DataView { entities: final(self)@.entities, ..old(self)@ },
            ),
    {
        proof {
            self.lemma_wf();
        }
        let name = clean_string(entity_name)?;
        self.check_no_activity_inserted()?;
        let entity = self.entities.get_by_name(name.as_str())?;
        if !entity.custom_work_intervals().contains(&old_interval) {
            return Err(
                FelixError::DoesNotExist(
                    crate::errors::does_not_exist::DoesNotExist::interval_does_not_exist(
                        old_interval,
                    ),
                ),
            );
        }
        let old_duration = old_interval.duration();
        let new_duration = new_interval.duration();
        if new_duration.is_before(&old_duration) {
            proof {
                self.lemma_wf();
            }
            let free = self.free_time_of_existing(&name);
            let required = old_duration.sub(new_duration);
            if free.is_before(&required) {
                return Err(
                    FelixError::NotEnoughTime(NotEnoughTime::work_hours_shortened_for(name)),
                );
            }
        }
        self.entities.update_custom_work_interval_for(name.as_str(), old_interval, new_interval)?;
        let ghost mid = self@;
        proof {
            assert(mid == DataView { entities: mid.entities, ..old(self)@ });
            super::lemma_coherent_entities(old(self)@, mid);
        }
        self.notify_work_hours_changed();
        Ok(())
    }
}

} // verus!

verus! {

/// Adding an entity which does not exist, then removing it, gives back the same data.
pub proof fn lemma_add_then_remove_entity(data: &Data, name: Seq<char>)
    requires
        data.wf(),
        !data@.entities.contains_key(name),
    ensures
        data_without_entity(
            DataView { entities: data@.entities.insert(name, new_entity_view(name)), ..data@ },
            name,
        ) == data@,
{
    data.lemma_wf();
    let v = data@;
    let added = DataView { entities: v.entities.insert(name, new_entity_view(name)), ..v };
    let w = data_without_entity(added, name);
    assert(w.entities =~= v.entities);
    assert forall|g: Seq<char>| v.groups.contains_key(g) implies #[trigger] v.groups[g].entities.remove(name) =~= v.groups[g].entities by {
        assert(!v.groups[g].entities.contains(name));
    }
    assert(w.groups =~= v.groups) by {
        assert forall|g: Seq<char>| #[trigger] w.groups.contains_key(g) implies w.groups[g] == v.groups[g] by {
            assert(v.groups[g].entities.remove(name) =~= v.groups[g].entities);
        }
    }
    let s = v.activities.activities;
    let f = |m: ActivityMetadataView| without_entity(m, name);
    assert(map_metadata(s, f) =~= s) by {
        assert forall|i: int| 0 <= i < s.len() implies #[trigger] map_metadata(s, f)[i] == s[i] by {
            assert(!s[i].metadata.entities.contains(name));
            assert(s[i].metadata.entities.remove(name) =~= s[i].metadata.entities);
        }
    }
    crate::activities::lemma_refresh_up_to_date(s);
    assert(w.activities == v.activities);
}

} // verus!

verus! {

/// Renaming an entity to a free name, then giving it back its former name, gives back the same
/// data.
pub proof fn lemma_rename_entity_back(data: &Data, old_name: Seq<char>, new_name: Seq<char>)
    requires
        data.wf(),
        data@.entities.contains_key(old_name),
        !data@.entities.contains_key(new_name),
        !data@.groups.contains_key(new_name),
    ensures
        data_with_entity_renamed(
            data_with_entity_renamed(data@, old_name, new_name),
            new_name,
            old_name,
        ) == data@,
{
    data.lemma_wf();
    let v = data@;
    let w = data_with_entity_renamed(v, old_name, new_name);
    let u = data_with_entity_renamed(w, new_name, old_name);
    assert(old_name != new_name);
    assert(u.entities =~= v.entities) by {
        assert forall|n: Seq<char>| #[trigger] u.entities.contains_key(n) implies u.entities[n]
            == v.entities[n] by {
            if n == old_name {
                assert(v.entities[old_name].name == old_name);
            }
        }
    }
    assert(u.groups =~= v.groups) by {
        assert forall|g: Seq<char>| #[trigger] u.groups.contains_key(g) implies u.groups[g]
            == v.groups[g] by {
            let es = v.groups[g].entities;
            assert(!es.contains(new_name));
            assert(rename_in_set(rename_in_set(es, old_name, new_name), new_name, old_name) =~= es);
        }
    }
    let s = v.activities.activities;
    let t = w.activities.activities;
    let r = u.activities.activities;
    let m = map_metadata(t, |m: ActivityMetadataView| entity_renamed(m, new_name, old_name));
    assert forall|k: int| 0 <= k < s.len() implies #[trigger] m[k].metadata == s[k].metadata by {
        let ek = s[k].metadata.entities;
        assert(!ek.contains(new_name));
        assert(rename_in_set(rename_in_set(ek, old_name, new_name), new_name, old_name) =~= ek);
        assert(t[k].metadata == entity_renamed(s[k].metadata, old_name, new_name));
    }
    assert(metadata_views(m) =~= metadata_views(s));
    assert(r =~= s) by {
        assert forall|i: int| 0 <= i < s.len() implies #[trigger] r[i] == s[i] by {
            assert(m[i].metadata == s[i].metadata);
            assert(r[i].computation =~= s[i].computation);
        }
    }
}

} // verus!
