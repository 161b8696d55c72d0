//! The data of a schedule: work hours, entities, groups and activities, kept coherent.


pub mod activities;
pub mod entities;
pub mod free_time;
pub mod groups;
pub mod work_hours;

use crate::activities::{Activities, ActivitiesView, Activity, ActivityView, activity_views, is_sorted_by_name};
use crate::activity_metadata::ActivityId;
use crate::entity::{Entities, Entity, EntityView};
use crate::errors::FelixError;
use crate::group::{Group, GroupView, Groups};
use crate::named::{name_map, names_sorted};
use crate::strings::{clean_string, has_word, spec_clean_string};
use crate::time::time_in_range;
use crate::time_interval::TimeInterval;
use crate::work_hours::WorkHours;
use crate::work_intervals::intervals_view;
use vstd::prelude::*;

verus! {

/// The abstract value of the data.
pub struct DataView {
    pub work_hours: Seq<(int, int)>,
    pub entities: Map<Seq<char>, EntityView>,
    pub groups: Map<Seq<char>, GroupView>,
    pub activities: ActivitiesView,
}

/// An inserted activity spans exactly its duration.
pub open spec fn spans_its_duration(a: ActivityView) -> bool {
    a.computation.insertion_interval matches Some(iv) ==> iv.1 == iv.0 + a.computation.duration
}

/// The possible beginnings of an activity fit in a day with its duration.
pub open spec fn costs_fit(a: ActivityView) -> bool {
    a.computation.insertion_costs matches Some(c) ==> forall|k: int|
        0 <= k < c.len() ==> time_in_range((#[trigger] c[k]).beginning@) && time_in_range(
            c[k].beginning@ + a.computation.duration,
        )
}

/// The data is coherent:
/// - no entity has the name of a group;
/// - groups hold existing entities;
/// - activities hold existing entities and groups;
/// - an inserted activity spans exactly its duration;
/// - the possible beginnings of an activity fit in a day with its duration.
pub open spec fn is_coherent(v: DataView) -> bool {
    &&& forall|n: Seq<char>| !(#[trigger] v.entities.contains_key(n) && v.groups.contains_key(n))
    &&& forall|g: Seq<char>, e: Seq<char>|
        v.groups.contains_key(g) && #[trigger] v.groups[g].entities.contains(e)
            ==> v.entities.contains_key(e)
    &&& forall|i: int, e: Seq<char>|
        0 <= i < v.activities.activities.len()
            && #[trigger] v.activities.activities[i].metadata.entities.contains(e)
            ==> v.entities.contains_key(e)
    &&& forall|i: int, g: Seq<char>|
        0 <= i < v.activities.activities.len()
            && #[trigger] v.activities.activities[i].metadata.groups.contains(g)
            ==> v.groups.contains_key(g)
    &&& forall|i: int|
        0 <= i < v.activities.activities.len() ==> spans_its_duration(
            #[trigger] v.activities.activities[i],
        )
    &&& forall|i: int|
        0 <= i < v.activities.activities.len() ==> costs_fit(#[trigger] v.activities.activities[i])
}

/// Coherence depends on neither the global work hours nor the activities put aside.
pub proof fn lemma_coherent_same(v: DataView, w: DataView)
    requires
        is_coherent(v),
        v.entities == w.entities,
        v.groups == w.groups,
        v.activities.activities == w.activities.activities,
    ensures
        is_coherent(w),
{
}

/// Coherence does not depend on the details of the entities, only on their names.
pub proof fn lemma_coherent_entities(v: DataView, w: DataView)
    requires
        is_coherent(v),
        v.entities.dom() == w.entities.dom(),
        v.groups == w.groups,
        v.activities == w.activities,
    ensures
        is_coherent(w),
{
    assert forall|n: Seq<char>| #[trigger] w.entities.contains_key(n) <==> v.entities.contains_key(n) by {}
}

/// The activity fits in the data: its entities and groups exist, it lasts its duration when it
/// is inserted and its insertion costs fit in a day.
pub open spec fn activity_fits(v: DataView, a: ActivityView) -> bool {
    &&& forall|e: Seq<char>| #[trigger] a.metadata.entities.contains(e) ==> v.entities.contains_key(e)
    &&& forall|g: Seq<char>| #[trigger] a.metadata.groups.contains(g) ==> v.groups.contains_key(g)
    &&& spans_its_duration(a)
    &&& costs_fit(a)
}

/// Every activity of coherent data fits in it.
pub proof fn lemma_activity_fits(v: DataView, i: int)
    requires
        is_coherent(v),
        0 <= i < v.activities.activities.len(),
    ensures
        activity_fits(v, v.activities.activities[i]),
{
    let a = v.activities.activities[i];
    assert forall|e: Seq<char>| #[trigger] a.metadata.entities.contains(e) implies v.entities.contains_key(e) by {
        assert(v.activities.activities[i].metadata.entities.contains(e));
    }
    assert forall|g: Seq<char>| #[trigger] a.metadata.groups.contains(g) implies v.groups.contains_key(g) by {
        assert(v.activities.activities[i].metadata.groups.contains(g));
    }
}

/// An activity which takes entities and groups from a fitting activity (or from the data), and
/// keeps its duration, insertion and insertion costs, fits too.
pub proof fn lemma_fits_like(v: DataView, a: ActivityView, b: ActivityView)
    requires
        activity_fits(v, a),
        forall|e: Seq<char>|
            #[trigger] b.metadata.entities.contains(e) ==> a.metadata.entities.contains(e)
                || v.entities.contains_key(e),
        forall|g: Seq<char>|
            #[trigger] b.metadata.groups.contains(g) ==> a.metadata.groups.contains(g)
                || v.groups.contains_key(g),
        b.computation.duration == a.computation.duration,
        b.computation.insertion_interval == a.computation.insertion_interval,
        b.computation.insertion_costs == a.computation.insertion_costs,
    ensures
        activity_fits(v, b),
{
}

/// Changing only the activities keeps the data coherent when every new activity fits.
pub proof fn lemma_coherent_activities(v: DataView, w: DataView)
    requires
        is_coherent(v),
        w.entities == v.entities,
        w.groups == v.groups,
        forall|i: int|
            0 <= i < w.activities.activities.len() ==> activity_fits(v, #[trigger] w.activities.activities[i]),
    ensures
        is_coherent(w),
{
    let t = w.activities.activities;
    assert forall|i: int, e: Seq<char>|
        0 <= i < t.len() && #[trigger] t[i].metadata.entities.contains(e) implies w.entities.contains_key(e) by {
        assert(activity_fits(v, t[i]));
    }
    assert forall|i: int, g: Seq<char>|
        0 <= i < t.len() && #[trigger] t[i].metadata.groups.contains(g) implies w.groups.contains_key(g) by {
        assert(activity_fits(v, t[i]));
    }
    assert forall|i: int| 0 <= i < t.len() implies spans_its_duration(#[trigger] t[i]) && costs_fit(t[i]) by {
        assert(activity_fits(v, t[i]));
    }
}

/// Stores, calculates and maintains coherency between entities, work hours and activities.
#[derive(Debug, PartialEq, Eq)]
pub struct Data {
    work_hours: WorkHours,
    entities: Entities,
    groups: Groups,
    activities: Activities,
}

impl View for Data {
    type V = DataView;

    closed spec fn view(&self) -> DataView {
        DataView {
            work_hours: self.work_hours@,
            entities: self.entities@,
            groups: self.groups@,
            activities: self.activities@,
        }
    }
}

impl Default for Data {
    /// Empty data.
    fn default() -> (d: Self)
        ensures
            d.wf(),
            d@.work_hours == Seq::<(int, int)>::empty(),
            d@.entities == Map::<Seq<char>, EntityView>::empty(),
            d@.groups == Map::<Seq<char>, GroupView>::empty(),
            d@.activities.activities == Seq::<ActivityView>::empty(),
            d@.activities.removed_because_duration_increased == Seq::<(ActivityId, int)>::empty(),
    {
        Data::new()
    }
}

impl Clone for Data {
    /// A copy of the data; the list of activities removed because their duration increased is
    /// not copied.
    fn clone(&self) -> (r: Self)
        ensures
            self.wf() ==> r.wf() && r@ == (DataView {
                activities: ActivitiesView {
                    removed_because_duration_increased: Seq::empty(),
                    ..self@.activities
                },
                ..self@
            }),
    {
        let r = Data {
            work_hours: self.work_hours.clone(),
            entities: self.entities.clone(),
            groups: self.groups.clone(),
            activities: self.activities.clone(),
        };
        proof {
            if self.wf() {
                assert(r@.activities =~= ActivitiesView {
                    removed_because_duration_increased: Seq::empty(),
                    ..self@.activities
                });
                assert(is_coherent(r@));
            }
        }
        r
    }
}

impl Data {
    /// Well-formedness: every component is well formed and the data is coherent.
    pub closed spec fn wf(&self) -> bool {
        &&& self.work_hours.wf()
        &&& self.entities.wf()
        &&& self.groups.wf()
        &&& self.activities.wf()
        &&& is_coherent(self@)
    }

    /// The data which every operation keeps: the data is coherent, and its components hold
    /// what their own invariants say.
    pub proof fn lemma_wf(&self)
        requires
            self.wf(),
        ensures
            is_coherent(self@),
            crate::work_intervals::intervals_ordered(self@.work_hours),
            forall|n: Seq<char>| #[trigger] self@.entities.contains_key(n) ==> self@.entities[n].name == n,
            forall|n: Seq<char>| #[trigger] self@.groups.contains_key(n) ==> self@.groups[n].name == n,
            crate::activities::ids_unique(self@.activities.activities),
            crate::activities::conflicts_up_to_date(self@.activities.activities),
    {
        self.work_hours.lemma_wf();
        self.entities.lemma_wf();
        self.groups.lemma_wf();
        self.activities.lemma_wf();
    }

    /// Creates new, empty data.
    pub fn new() -> (d: Data)
        ensures
            d.wf(),
            d@.work_hours == Seq::<(int, int)>::empty(),
            d@.entities == Map::<Seq<char>, EntityView>::empty(),
            d@.groups == Map::<Seq<char>, GroupView>::empty(),
            d@.activities.activities == Seq::<ActivityView>::empty(),
            d@.activities.removed_because_duration_increased == Seq::<(ActivityId, int)>::empty(),
    {
        Data {
            work_hours: WorkHours::new(),
            entities: Entities::new(),
            groups: Groups::new(),
            activities: Activities::new(),
        }
    }

    /// Returns the global work hours, sorted.
    pub fn work_hours(&self) -> (r: Vec<TimeInterval>)
        ensures
            intervals_view(r@) == self@.work_hours,
    {
        self.work_hours.work_intervals().clone()
    }

    /// Returns the entities, sorted by name.
    pub fn entities_sorted(&self) -> (r: Vec<Entity>)
        requires
            self.wf(),
        ensures
            names_sorted(r@),
            name_map(r@) == self@.entities,
    {
        self.entities.sorted_by_name()
    }

    /// Returns a copy of the entity with the (formatted) given name.
    ///
    /// Returns Err if the formatted name is empty or if no entity has it.
    pub fn entity(&self, name: &str) -> (r: Result<Entity, FelixError>)
        requires
            self.wf(),
        ensures
            r is Ok <==> has_word(name@) && self@.entities.contains_key(spec_clean_string(name@)),
            r matches Ok(e) ==> e@ == self@.entities[spec_clean_string(name@)] && e.wf(),
            !has_word(name@) ==> (r matches Err(e) && e is EmptyName),
            has_word(name@) && !self@.entities.contains_key(spec_clean_string(name@)) ==> (
            r matches Err(FelixError::DoesNotExist(d)) && d.is_entity_named(
                spec_clean_string(name@),
            )),
    {
        let name = clean_string(name)?;
        self.entities.get_by_name(name.as_str())
    }

    /// Returns the groups, sorted by name.
    pub fn groups_sorted(&self) -> (r: Vec<Group>)
        requires
            self.wf(),
        ensures
            names_sorted(r@),
            name_map(r@) == self@.groups,
    {
        self.groups.sorted_by_name()
    }

    /// Returns a copy of the group with the (formatted) given name.
    ///
    /// Returns Err if the formatted name is empty or if no group has it.
    pub fn group(&self, name: &str) -> (r: Result<Group, FelixError>)
        requires
            self.wf(),
        ensures
            r is Ok <==> has_word(name@) && self@.groups.contains_key(spec_clean_string(name@)),
            r matches Ok(g) ==> g@ == self@.groups[spec_clean_string(name@)] && g.wf(),
            !has_word(name@) ==> (r matches Err(e) && e is EmptyName),
            has_word(name@) && !self@.groups.contains_key(spec_clean_string(name@)) ==> (
            r matches Err(FelixError::DoesNotExist(d)) && d.is_group_named(
                spec_clean_string(name@),
            )),
    {
        let name = clean_string(name)?;
        self.groups.get_by_name(name.as_str())
    }

    /// Returns the activities, sorted by name.
    pub fn activities_sorted(&self) -> (r: Vec<Activity>)
        requires
            self.wf(),
        ensures
            is_sorted_by_name(self@.activities.activities, activity_views(r@)),
            forall|k: int| 0 <= k < r@.len() ==> (#[trigger] r@[k]).wf(),
    {
        self.activities.get_sorted_by_name()
    }

    /// Returns the activities, in the order in which they are stored.
    pub fn activities_not_sorted(&self) -> (r: Vec<Activity>)
        requires
            self.wf(),
        ensures
            activity_views(r@) == self@.activities.activities,
            forall|k: int| 0 <= k < r@.len() ==> (#[trigger] r@[k]).wf(),
    {
        let v = self.activities.get_not_sorted();
        let mut r: Vec<Activity> = Vec::new();
        let mut i: usize = 0;
        while i < v.len()
            invariant
                i <= v@.len(),
                activity_views(v@) == self@.activities.activities,
                forall|k: int| 0 <= k < v@.len() ==> (#[trigger] v@[k]).wf(),
                r@.len() == i,
                forall|k: int| 0 <= k < i ==> (#[trigger] r@[k])@ == v@[k]@ && r@[k].wf(),
            decreases v@.len() - i,
        {
            r.push(v[i].clone());
            i = i + 1;
        }
        assert(activity_views(r@) =~= activity_views(v@));
        r
    }

    /// Returns a copy of the activity with the given id.
    ///
    /// Returns Err if the activity is not found.
    pub fn activity(&self, id: ActivityId) -> (r: Result<Activity, FelixError>)
        requires
            self.wf(),
        ensures
            r is Ok <==> crate::activities::has_activity(self@.activities.activities, id),
            r matches Ok(a) ==> a@ == crate::activities::activity_with_id(
                self@.activities.activities,
                id,
            ) && a.wf(),
            r matches Err(e) ==> crate::activities::is_activity_not_found(e, id),
    {
        self.activities.get_by_id(id)
    }
}

} // verus!
