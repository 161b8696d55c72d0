//! Activities and their collection.

use crate::activity_metadata::{
    spec_default_color, ActivityId, ActivityMetadata, ActivityMetadataView, Rgba,
};
use crate::computation_data::{
    ActivityComputationData, ComputationDataView, InsertionCost, costs_contain_beginning,
    costs_sorted, duration_wf,
};
use crate::errors::already_in::{ActivityOrGroup as AlreadyInContainer};
use crate::errors::already_in::EntityOrGroup as AlreadyInWhat;
use crate::errors::does_not_exist::DoesNotExist;
use crate::errors::not_in::{ActivityOrGroup as NotInContainer};
use crate::errors::not_in::EntityOrGroup as NotInWhat;
use crate::errors::FelixError;
use crate::group::rename_in_set;
use crate::id_computation::{
    generate_next_id, smallest_unused,
};
use crate::named::{has_name, name_set, names_sorted, HasName};
use crate::stable_order::{is_stable_order, is_strict_weak_order, lemma_stable_insert};
use crate::strings::{
    lemma_lex_lt_asymmetric, lemma_lex_lt_total, lemma_lex_lt_transitive, lex_lt, string_lt,
};
use crate::time::{time_in_range, Time, MIN_TIME_DISCRETIZATION_MINUTES};
use crate::time_interval::TimeInterval;
use vstd::prelude::*;

verus! {

/// The abstract value of an activity.
pub struct ActivityView {
    pub metadata: ActivityMetadataView,
    pub computation: ComputationDataView,
}

/// An activity: metadata (id, name, participants, color) and computation data (duration,
/// insertion, conflicts, possible insertions).
#[derive(Debug, PartialEq, Eq)]
pub struct Activity {
    metadata: ActivityMetadata,
    computation_data: ActivityComputationData,
}

impl View for Activity {
    type V = ActivityView;

    closed spec fn view(&self) -> ActivityView {
        ActivityView { metadata: self.metadata@, computation: self.computation_data@ }
    }
}

impl Clone for Activity {
    fn clone(&self) -> (r: Self)
        ensures
            r@ == self@,
            r.wf() == self.wf(),
    {
        Activity {
            metadata: self.metadata.clone(),
            computation_data: self.computation_data.clone(),
        }
    }
}

/// The view of an activity which was just created.
pub open spec fn new_activity_view(id: ActivityId, name: Seq<char>) -> ActivityView {
    ActivityView {
        metadata: ActivityMetadataView {
            id,
            name,
            entities: Set::empty(),
            groups: Set::empty(),
            color: spec_default_color(),
        },
        computation: ComputationDataView {
            duration: MIN_TIME_DISCRETIZATION_MINUTES as int,
            insertion_interval: None,
            insertion_costs: None,
            incompatible_activity_ids: Seq::empty(),
        },
    }
}

impl Activity {
    /// Well-formedness of the metadata and of the computation data.
    pub closed spec fn wf(&self) -> bool {
        self.metadata.wf() && self.computation_data.wf()
    }

    /// The computation data of a well-formed activity is well formed.
    pub proof fn lemma_wf(&self)
        requires
            self.wf(),
        ensures
            duration_wf(self@.computation.duration),
            self@.computation.insertion_interval matches Some(i)
                ==> crate::time_interval::spec_interval_wf(i),
            self@.computation.insertion_costs matches Some(c) ==> costs_sorted(c),
            self@.metadata.entities.finite(),
            self@.metadata.groups.finite(),
    {
        self.metadata.lemma_finite();
    }

    /// Creates a new activity with the given id and name.
    pub(crate) fn new(id: ActivityId, name: String) -> (a: Activity)
        ensures
            a@ == new_activity_view(id, name@),
            a.wf(),
    {
        Activity {
            metadata: ActivityMetadata::new(id, name),
            computation_data: ActivityComputationData::new(),
        }
    }

    /// Simple getter for the id.
    pub fn id(&self) -> (r: ActivityId)
        ensures
            r == self@.metadata.id,
    {
        self.metadata.id()
    }

    /// Simple getter for the name.
    pub fn name(&self) -> (r: String)
        ensures
            r@ == self@.metadata.name,
    {
        self.metadata.name().clone()
    }

    /// The entities taking part in the activity, sorted by name.
    pub fn entities_sorted(&self) -> (r: Vec<String>)
        requires
            self.wf(),
        ensures
            names_sorted(r@),
            name_set(r@) == self@.metadata.entities,
    {
        self.metadata.entities_sorted()
    }

    /// The groups taking part in the activity, sorted by name.
    pub fn groups_sorted(&self) -> (r: Vec<String>)
        requires
            self.wf(),
        ensures
            names_sorted(r@),
            name_set(r@) == self@.metadata.groups,
    {
        self.metadata.groups_sorted()
    }

    /// True if the entity takes part in the activity.
    pub fn contains_entity(&self, entity_name: &String) -> (b: bool)
        ensures
            b == self@.metadata.entities.contains(entity_name@),
    {
        self.metadata.contains_entity(entity_name)
    }

    /// True if the group takes part in the activity.
    pub fn contains_group(&self, group_name: &String) -> (b: bool)
        ensures
            b == self@.metadata.groups.contains(group_name@),
    {
        self.metadata.contains_group(group_name)
    }

    /// Simple getter for the color.
    pub fn color(&self) -> (r: Rgba)
        ensures
            r == self@.metadata.color,
    {
        self.metadata.color()
    }

    /// Simple getter for the duration.
    pub fn duration(&self) -> (r: Time)
        ensures
            r@ == self@.computation.duration,
    {
        self.computation_data.duration()
    }

    /// Simple getter for the insertion interval.
    pub fn insertion_interval(&self) -> (r: Option<TimeInterval>)
        ensures
            match r {
                Some(i) => self@.computation.insertion_interval == Some(i@),
                None => self@.computation.insertion_interval is None,
            },
            self.wf() ==> (r matches Some(i) ==> i.wf()),
    {
        self.computation_data.insertion_interval()
    }

    /// True if the activity is inserted in the schedule.
    pub fn is_inserted(&self) -> (b: bool)
        ensures
            b == self@.computation.insertion_interval is Some,
    {
        self.computation_data.insertion_interval().is_some()
    }

    /// Simple getter for the insertion costs (None if they are not computed yet).
    pub fn insertion_costs(&self) -> (r: Option<Vec<InsertionCost>>)
        ensures
            match r {
                Some(v) => self@.computation.insertion_costs == Some(v@),
                None => self@.computation.insertion_costs is None,
            },
    {
        self.computation_data.insertion_costs()
    }

    /// True if the given time is the beginning of one of the computed insertion costs.
    pub fn can_begin_at(&self, time: Time) -> (b: bool)
        ensures
            b == (self@.computation.insertion_costs matches Some(c) && costs_contain_beginning(
                c,
                time@,
            )),
    {
        self.computation_data.can_begin_at(time)
    }

    /// Simple getter for the ids of the incompatible activities.
    pub fn incompatible_activity_ids(&self) -> (r: Vec<ActivityId>)
        ensures
            r@ == self@.computation.incompatible_activity_ids,
    {
        self.computation_data.incompatible_activity_ids()
    }

    /// The metadata of the activity.
    pub fn metadata(&self) -> (r: &ActivityMetadata)
        ensures
            r@ == self@.metadata,
            self.wf() ==> r.wf(),
    {
        &self.metadata
    }

    /// The computation data of the activity.
    pub fn computation_data(&self) -> (r: &ActivityComputationData)
        ensures
            r@ == self@.computation,
            self.wf() ==> r.wf(),
    {
        &self.computation_data
    }
}

/// The two sets share at least one element.
pub open spec fn shares_element(a: Set<Seq<char>>, b: Set<Seq<char>>) -> bool {
    exists|e: Seq<char>| a.contains(e) && #[trigger] b.contains(e)
}

/// The activity `other` conflicts with the activity of metadata `m`: it is another activity
/// with at least one entity in common.
pub open spec fn conflicts_with(m: ActivityMetadataView, other: ActivityMetadataView) -> bool {
    other.id != m.id && shares_element(other.entities, m.entities)
}

/// The ids of the activities which conflict with the activity of metadata `m`, in order.
pub open spec fn incompatible_ids_of(
    m: ActivityMetadataView,
    all: Seq<ActivityMetadataView>,
) -> Seq<ActivityId> {
    all.filter(|o: ActivityMetadataView| conflicts_with(m, o)).map_values(
        |o: ActivityMetadataView| o.id,
    )
}

/// The metadata of the activities, in order.
pub open spec fn metadata_views(s: Seq<ActivityView>) -> Seq<ActivityMetadataView> {
    s.map_values(|a: ActivityView| a.metadata)
}

/// True if the two activities share an entity.
fn share_entity(a: &ActivityMetadata, b: &ActivityMetadata) -> (r: bool)
    ensures
        r == shares_element(a@.entities, b@.entities),
{
    let entities = a.entities_as_set();
    let mut i: usize = 0;
    while i < entities.len()
        invariant
            i <= entities@.len(),
            name_set(entities@) == a@.entities,
            forall|k: int| 0 <= k < i ==> !b@.entities.contains(#[trigger] entities@[k]@),
        decreases entities@.len() - i,
    {
        if b.contains_entity(&entities[i]) {
            assert(a@.entities.contains(entities@[i as int]@)) by {
                assert(entities@[i as int].spec_name() == entities@[i as int]@);
            }
            return true;
        }
        i = i + 1;
    }
    proof {
        assert forall|e: Seq<char>| a@.entities.contains(e) implies !#[trigger] b@.entities.contains(e) by {
            let k = choose|k: int| 0 <= k < entities@.len() && #[trigger] entities@[k].spec_name() == e;
        }
    }
    false
}

/// Returns the ids of the activities (among the given metadata) which are incompatible with
/// the activity of the given metadata: the other activities which have at least one entity in
/// common with it.
pub fn compute_incompatible_ids(
    metadata: &ActivityMetadata,
    metadata_vec: &Vec<ActivityMetadata>,
) -> (r: Vec<ActivityId>)
    ensures
        r@ == incompatible_ids_of(metadata@, metadata_vec@.map_values(|m: ActivityMetadata| m@)),
{
    let ghost all = metadata_vec@.map_values(|m: ActivityMetadata| m@);
    let ghost pred = |o: ActivityMetadataView| conflicts_with(metadata@, o);
    let ghost f = |o: ActivityMetadataView| o.id;
    let mut r: Vec<ActivityId> = Vec::new();
    let mut i: usize = 0;
    assert(all.take(0).filter(pred).map_values(f) =~= r@);
    while i < metadata_vec.len()
        invariant
            i <= metadata_vec@.len(),
            all == metadata_vec@.map_values(|m: ActivityMetadata| m@),
            pred == (|o: ActivityMetadataView| conflicts_with(metadata@, o)),
            f == (|o: ActivityMetadataView| o.id),
            r@ == all.take(i as int).filter(pred).map_values(f),
        decreases metadata_vec@.len() - i,
    {
        let other = &metadata_vec[i];
        proof {
            reveal_with_fuel(Seq::filter, 1);
            assert(all.take(i + 1).drop_last() =~= all.take(i as int));
            assert(all.take(i + 1).last() == other@);
        }
        if metadata.id() != other.id() && share_entity(other, metadata) {
            r.push(other.id());
            proof {
                reveal_with_fuel(Seq::filter, 1);
                assert(pred(other@));
                assert(all.take(i + 1).filter(pred) == all.take(i as int).filter(pred).push(
                    other@,
                ));
                assert(r@ =~= all.take(i + 1).filter(pred).map_values(f));
            }
        } else {
            proof {
                reveal_with_fuel(Seq::filter, 1);
                assert(!pred(other@));
                assert(all.take(i + 1).filter(pred) == all.take(i as int).filter(pred));
            }
        }
        i = i + 1;
    }
    assert(all.take(metadata_vec@.len() as int) =~= all);
    r
}

/// The beginning among the insertion costs which is the closest to the ideal beginning; of two
/// beginnings at the same distance, the earliest. None if there is no insertion cost.
fn closest_beginning(costs: &Vec<InsertionCost>, ideal: Time) -> (r: Option<Time>)
    ensures
        r is None <==> costs@.len() == 0,
        r matches Some(t) ==> is_closest_beginning(costs@, ideal@, t@),
{
    if costs.len() == 0 {
        return None;
    }
    let ideal_minutes: i32 = ideal.total_minutes() as i32;
    let mut best: Time = costs[0].beginning;
    let b0: i32 = best.total_minutes() as i32;
    let mut best_distance: i32 = if b0 > ideal_minutes { b0 - ideal_minutes } else { ideal_minutes - b0 };
    let mut i: usize = 1;
    while i < costs.len()
        invariant
            1 <= i <= costs@.len(),
            ideal_minutes == ideal@,
            i16::MIN <= ideal_minutes <= i16::MAX,
            best_distance == distance(best@, ideal@),
            exists|k: int| 0 <= k < i && (#[trigger] costs@[k]).beginning@ == best@,
            forall|k: int|
                0 <= k < i ==> distance(best@, ideal@) < distance((#[trigger] costs@[k]).beginning@, ideal@) || (
                distance(best@, ideal@) == distance(costs@[k].beginning@, ideal@) && best@ <= costs@[k].beginning@),
        decreases costs@.len() - i,
    {
        let b = costs[i].beginning;
        let bm: i32 = b.total_minutes() as i32;
        let d: i32 = if bm > ideal_minutes { bm - ideal_minutes } else { ideal_minutes - bm };
        if d < best_distance || (d == best_distance && bm < best.total_minutes() as i32) {
            best = b;
            best_distance = d;
        }
        i = i + 1;
    }
    Some(best)
}

} // verus!

verus! {

/// The ids of the activities, in order.
pub open spec fn ids_of(s: Seq<ActivityView>) -> Seq<ActivityId> {
    s.map_values(|a: ActivityView| a.metadata.id)
}

/// No two activities share an id.
pub open spec fn ids_unique(s: Seq<ActivityView>) -> bool {
    forall|i: int, j: int|
        0 <= i < s.len() && 0 <= j < s.len() && i != j ==> (#[trigger] s[i]).metadata.id != (
        #[trigger] s[j]).metadata.id
}

/// Some activity has the given id.
pub open spec fn has_activity(s: Seq<ActivityView>, id: ActivityId) -> bool {
    exists|i: int| 0 <= i < s.len() && (#[trigger] s[i]).metadata.id == id
}

/// The position of the activity with the given id.
pub open spec fn index_of_activity(s: Seq<ActivityView>, id: ActivityId) -> int {
    choose|i: int| 0 <= i < s.len() && (#[trigger] s[i]).metadata.id == id
}

/// The incompatible ids of every activity are up to date: they are the ids of the other
/// activities with which it shares an entity, in the order of the collection.
pub open spec fn conflicts_up_to_date(s: Seq<ActivityView>) -> bool {
    forall|i: int|
        0 <= i < s.len() ==> (#[trigger] s[i]).computation.incompatible_activity_ids
            == incompatible_ids_of(s[i].metadata, metadata_views(s))
}

/// The ids of the activities whose insertion was removed because their duration increased,
/// each with its former beginning (in minutes).
pub open spec fn removed_keys_unique(s: Seq<(ActivityId, int)>) -> bool {
    forall|i: int, j: int|
        0 <= i < s.len() && 0 <= j < s.len() && i != j ==> (#[trigger] s[i]).0 != (
        #[trigger] s[j]).0
}

/// The activity with the given metadata, its computation data unchanged.
pub open spec fn with_metadata(a: ActivityView, m: ActivityMetadataView) -> ActivityView {
    ActivityView { metadata: m, computation: a.computation }
}

/// The activities, with the incompatible ids of each recomputed from the metadata of all.
pub open spec fn refresh_conflicts(s: Seq<ActivityView>) -> Seq<ActivityView> {
    Seq::new(
        s.len(),
        |i: int|
            ActivityView {
                metadata: s[i].metadata,
                computation: ComputationDataView {
                    incompatible_activity_ids: incompatible_ids_of(s[i].metadata, metadata_views(s)),
                    ..s[i].computation
                },
            },
    )
}

/// Recomputing the conflicts keeps the metadata and makes the conflicts up to date.
pub proof fn lemma_refresh_conflicts(s: Seq<ActivityView>)
    ensures
        metadata_views(refresh_conflicts(s)) == metadata_views(s),
        conflicts_up_to_date(refresh_conflicts(s)),
        ids_unique(s) ==> ids_unique(refresh_conflicts(s)),
        refresh_conflicts(s).len() == s.len(),
{
    assert(metadata_views(refresh_conflicts(s)) =~= metadata_views(s));
}

/// The activity with the given id.
pub open spec fn activity_with_id(s: Seq<ActivityView>, id: ActivityId) -> ActivityView {
    s[index_of_activity(s, id)]
}

/// The activities, where the activity with the given id gets the given metadata.
pub open spec fn set_metadata_of(
    s: Seq<ActivityView>,
    id: ActivityId,
    m: ActivityMetadataView,
) -> Seq<ActivityView> {
    s.update(index_of_activity(s, id), with_metadata(activity_with_id(s, id), m))
}

/// The activities, where the activity with the given id gets the given computation data.
pub open spec fn set_computation_of(
    s: Seq<ActivityView>,
    id: ActivityId,
    c: ComputationDataView,
) -> Seq<ActivityView> {
    s.update(
        index_of_activity(s, id),
        ActivityView { metadata: activity_with_id(s, id).metadata, computation: c },
    )
}

/// The error telling that there is no activity with the given id.
pub open spec fn is_activity_not_found(e: FelixError, id: ActivityId) -> bool {
    e matches FelixError::DoesNotExist(d) && *d == DoesNotExist::Activity(id)
}

/// The activities, each with its metadata transformed by the given function.
pub open spec fn map_metadata(
    s: Seq<ActivityView>,
    f: spec_fn(ActivityMetadataView) -> ActivityMetadataView,
) -> Seq<ActivityView> {
    Seq::new(s.len(), |i: int| with_metadata(s[i], f(s[i].metadata)))
}

/// The metadata, with the entity added when the given group takes part in the activity.
pub open spec fn add_entity_where_group(
    m: ActivityMetadataView,
    group: Seq<char>,
    entity: Seq<char>,
) -> ActivityMetadataView {
    if m.groups.contains(group) {
        ActivityMetadataView { entities: m.entities.insert(entity), ..m }
    } else {
        m
    }
}

/// The metadata, without the given entity.
pub open spec fn without_entity(m: ActivityMetadataView, entity: Seq<char>) -> ActivityMetadataView {
    ActivityMetadataView { entities: m.entities.remove(entity), ..m }
}

/// The metadata, with the given entity renamed (unless the new name is already there).
pub open spec fn entity_renamed(
    m: ActivityMetadataView,
    old_name: Seq<char>,
    new_name: Seq<char>,
) -> ActivityMetadataView {
    ActivityMetadataView { entities: rename_in_set(m.entities, old_name, new_name), ..m }
}

/// The metadata, without the given group.
pub open spec fn without_group(m: ActivityMetadataView, group: Seq<char>) -> ActivityMetadataView {
    ActivityMetadataView { groups: m.groups.remove(group), ..m }
}

/// The metadata, with the given group renamed (unless the new name is already there).
pub open spec fn group_renamed(
    m: ActivityMetadataView,
    old_name: Seq<char>,
    new_name: Seq<char>,
) -> ActivityMetadataView {
    ActivityMetadataView { groups: rename_in_set(m.groups, old_name, new_name), ..m }
}

/// The distance between two times, in minutes.
pub open spec fn distance(a: int, b: int) -> int {
    if a > b {
        a - b
    } else {
        b - a
    }
}

/// `b` is the beginning among the insertion costs which is the closest to the ideal beginning;
/// of two beginnings at the same distance, the earliest.
pub open spec fn is_closest_beginning(c: Seq<InsertionCost>, ideal: int, b: int) -> bool {
    &&& costs_contain_beginning(c, b)
    &&& forall|i: int|
        0 <= i < c.len() ==> distance(b, ideal) < distance((#[trigger] c[i]).beginning@, ideal) || (
        distance(b, ideal) == distance(c[i].beginning@, ideal) && b <= c[i].beginning@)
}

/// The beginning of the insertion interval of an inserted activity.
pub open spec fn inserted_beginning(a: ActivityView) -> int {
    match a.computation.insertion_interval {
        Some(i) => i.0,
        None => 0,
    }
}

/// The position of the record of the given activity in the list of removed activities.
pub open spec fn removed_index(s: Seq<(ActivityId, int)>, id: ActivityId) -> int {
    choose|j: int| 0 <= j < s.len() && (#[trigger] s[j]).0 == id
}

/// The given activity is recorded in the list of removed activities.
pub open spec fn is_recorded_removed(s: Seq<(ActivityId, int)>, id: ActivityId) -> bool {
    exists|j: int| 0 <= j < s.len() && (#[trigger] s[j]).0 == id
}

/// The list of removed activities where the given activity is recorded with the given former
/// beginning (replacing its former record).
pub open spec fn record_removed(
    s: Seq<(ActivityId, int)>,
    id: ActivityId,
    beginning: int,
) -> Seq<(ActivityId, int)> {
    if is_recorded_removed(s, id) {
        s.update(removed_index(s, id), (id, beginning))
    } else {
        s.push((id, beginning))
    }
}

/// The list of removed activities without the record of the given activity.
pub open spec fn forget_removed(s: Seq<(ActivityId, int)>, id: ActivityId) -> Seq<(ActivityId, int)> {
    if is_recorded_removed(s, id) {
        s.remove(removed_index(s, id))
    } else {
        s
    }
}

/// No two activities share an id exactly when the sequence of their ids has no duplicates.
pub proof fn lemma_ids_unique_no_duplicates(s: Seq<ActivityView>)
    ensures
        ids_unique(s) <==> ids_of(s).no_duplicates(),
{
    if ids_unique(s) {
        assert forall|i: int, j: int|
            0 <= i < ids_of(s).len() && 0 <= j < ids_of(s).len() && i != j implies ids_of(s)[i]
            != ids_of(s)[j] by {
            assert(s[i].metadata.id != s[j].metadata.id);
        }
    }
    if ids_of(s).no_duplicates() {
        assert forall|i: int, j: int|
            0 <= i < s.len() && 0 <= j < s.len() && i != j implies (#[trigger] s[i]).metadata.id
            != (#[trigger] s[j]).metadata.id by {
            assert(ids_of(s)[i] != ids_of(s)[j]);
        }
    }
}

/// An activity without entities conflicts with no activity.
pub proof fn lemma_no_entity_no_conflict(m: ActivityMetadataView, all: Seq<ActivityMetadataView>)
    requires
        m.entities == Set::<Seq<char>>::empty(),
    ensures
        incompatible_ids_of(m, all) == Seq::<ActivityId>::empty(),
{
    broadcast use vstd::seq_lib::group_filter_ensures;

    let pred = |o: ActivityMetadataView| conflicts_with(m, o);
    let f = all.filter(pred);
    if f.len() > 0 {
        assert(pred(f[0]));
    }
    assert(incompatible_ids_of(m, all) =~= Seq::<ActivityId>::empty());
}

/// Activities are ordered by name.
pub open spec fn name_before(s: Seq<ActivityView>) -> spec_fn(int, int) -> bool {
    |x: int, y: int| lex_lt(s[x].metadata.name, s[y].metadata.name)
}

/// `r` holds the activities of `s` sorted by name; activities with the same name keep their
/// order.
pub open spec fn is_sorted_by_name(s: Seq<ActivityView>, r: Seq<ActivityView>) -> bool {
    exists|order: Seq<int>|
        is_stable_order(s.len() as int, name_before(s), order) && r.len() == s.len() && forall|k: int|
            0 <= k < r.len() ==> #[trigger] r[k] == s[order[k]]
}

/// The order by name is a strict weak order.
proof fn lemma_name_order(s: Seq<ActivityView>)
    ensures
        is_strict_weak_order(s.len() as int, name_before(s)),
{
    let before = name_before(s);
    assert forall|x: int, y: int|
        0 <= x < s.len() && 0 <= y < s.len() && #[trigger] before(x, y) implies !before(y, x) by {
        lemma_lex_lt_asymmetric(s[x].metadata.name, s[y].metadata.name);
    }
    assert forall|x: int, y: int, z: int|
        0 <= x < s.len() && 0 <= y < s.len() && 0 <= z < s.len() && #[trigger] before(x, y)
            && !before(z, y) implies #[trigger] before(x, z) by {
        if s[z].metadata.name != s[y].metadata.name {
            lemma_lex_lt_total(s[z].metadata.name, s[y].metadata.name);
            lemma_lex_lt_transitive(s[x].metadata.name, s[y].metadata.name, s[z].metadata.name);
        }
    }
}

/// The activities, where those in which one of the given entities takes part have their
/// insertion costs invalidated (to be computed again).
pub open spec fn invalidate_costs_of(
    s: Seq<ActivityView>,
    entities: Set<Seq<char>>,
) -> Seq<ActivityView> {
    Seq::new(
        s.len(),
        |i: int|
            if shares_element(s[i].metadata.entities, entities) {
                ActivityView {
                    metadata: s[i].metadata,
                    computation: ComputationDataView { insertion_costs: None, ..s[i].computation },
                }
            } else {
                s[i]
            },
    )
}

/// The abstract value of the collection of activities.
pub struct ActivitiesView {
    pub activities: Seq<ActivityView>,
    pub removed_because_duration_increased: Seq<(ActivityId, int)>,
}

/// The views of a sequence of activities.
pub open spec fn activity_views(s: Seq<Activity>) -> Seq<ActivityView> {
    s.map_values(|a: Activity| a@)
}

/// Manages the collection of activities.
/// Makes sure there are no id duplicates.
#[derive(Debug, PartialEq, Eq)]
pub struct Activities {
    activities: Vec<Activity>,
    activities_removed_because_duration_increased: Vec<(ActivityId, Time)>,
}

impl View for Activities {
    type V = ActivitiesView;

    closed spec fn view(&self) -> ActivitiesView {
        ActivitiesView {
            activities: activity_views(self.activities@),
            removed_because_duration_increased: self.activities_removed_because_duration_increased@.map_values(
                |p: (ActivityId, Time)| (p.0, p.1@),
            ),
        }
    }
}

impl Clone for Activities {
    /// A copy of the activities; the list of activities removed because their duration
    /// increased is not copied.
    fn clone(&self) -> (r: Self)
        ensures
            r@.activities == self@.activities,
            r@.removed_because_duration_increased == Seq::<(ActivityId, int)>::empty(),
            self.wf() ==> r.wf(),
    {
        let mut v: Vec<Activity> = Vec::new();
        let mut i: usize = 0;
        while i < self.activities.len()
            invariant
                i <= self.activities@.len(),
                v@.len() == i,
                forall|k: int|
                    0 <= k < i ==> (#[trigger] v@[k])@ == self.activities@[k]@ && v@[k].wf()
                        == self.activities@[k].wf(),
            decreases self.activities@.len() - i,
        {
            v.push(self.activities[i].clone());
            i = i + 1;
        }
        let r = Activities {
            activities: v,
            activities_removed_because_duration_increased: Vec::new(),
        };
        assert(r@.activities =~= self@.activities);
        assert(r@.removed_because_duration_increased =~= Seq::<(ActivityId, int)>::empty());
        r
    }
}

impl Activities {
    /// Well-formedness: ids are unique, every activity is well formed, their incompatible ids
    /// are up to date and no activity is remembered twice as removed from the schedule.
    pub closed spec fn wf(&self) -> bool {
        &&& ids_unique(self@.activities)
        &&& forall|i: int| 0 <= i < self.activities@.len() ==> (#[trigger] self.activities@[i]).wf()
        &&& conflicts_up_to_date(self@.activities)
        &&& removed_keys_unique(self@.removed_because_duration_increased)
    }

    /// Facts about a well-formed collection.
    pub proof fn lemma_wf(&self)
        requires
            self.wf(),
        ensures
            ids_unique(self@.activities),
            conflicts_up_to_date(self@.activities),
            forall|i: int|
                0 <= i < self@.activities.len() ==> duration_wf(
                    (#[trigger] self@.activities[i]).computation.duration,
                ),
            forall|i: int|
                0 <= i < self@.activities.len() ==> ((#[trigger] self@.activities[i]).computation.insertion_interval matches Some(iv)
                    ==> crate::time_interval::spec_interval_wf(iv)),
            forall|i: int|
                0 <= i < self@.activities.len() ==> (#[trigger] self@.activities[i]).metadata.entities.finite(),
    {
        assert forall|i: int| 0 <= i < self@.activities.len() implies duration_wf(
            (#[trigger] self@.activities[i]).computation.duration,
        ) && ((self@.activities[i]).computation.insertion_interval matches Some(iv)
            ==> crate::time_interval::spec_interval_wf(iv))
            && self@.activities[i].metadata.entities.finite() by {
            self.activities@[i].lemma_wf();
        }
    }

    /// Initializes the Activity collection.
    pub fn new() -> (r: Activities)
        ensures
            r@.activities == Seq::<ActivityView>::empty(),
            r@.removed_because_duration_increased == Seq::<(ActivityId, int)>::empty(),
            r.wf(),
    {
        let r = Activities {
            activities: Vec::new(),
            activities_removed_because_duration_increased: Vec::new(),
        };
        assert(r@.activities =~= Seq::<ActivityView>::empty());
        assert(r@.removed_because_duration_increased =~= Seq::<(ActivityId, int)>::empty());
        r
    }

    /// Updates the incompatible activity ids of each activity: activities which have at least
    /// one entity in common are incompatible.
    fn update_incompatible_activities(&mut self)
        requires
            ids_unique(old(self)@.activities),
            forall|i: int|
                0 <= i < old(self).activities@.len() ==> (#[trigger] old(self).activities@[i]).wf(),
            removed_keys_unique(old(self)@.removed_because_duration_increased),
        ensures
            final(self)@.activities == refresh_conflicts(old(self)@.activities),
            final(self)@.removed_because_duration_increased == old(
                self,
            )@.removed_because_duration_increased,
            final(self).wf(),
    {
        let ghost old_acts = self@.activities;
        // 1. A copy of the metadata.
        let mut metadata_vec: Vec<ActivityMetadata> = Vec::new();
        let mut i: usize = 0;
        while i < self.activities.len()
            invariant
                i <= self.activities@.len(),
                old_acts == self@.activities,
                metadata_vec@.len() == i,
                forall|k: int| 0 <= k < i ==> (#[trigger] metadata_vec@[k])@ == old_acts[k].metadata,
            decreases self.activities@.len() - i,
        {
            metadata_vec.push(self.activities[i].metadata.clone());
            i = i + 1;
        }
        assert(metadata_vec@.map_values(|m: ActivityMetadata| m@) =~= metadata_views(old_acts));
        // 2. The incompatible ids of each activity, from the copy.
        let mut updated: Vec<Activity> = Vec::new();
        let mut j: usize = 0;
        while j < self.activities.len()
            invariant
                j <= self.activities@.len(),
                old_acts == self@.activities,
                metadata_vec@.len() == self.activities@.len(),
                forall|k: int| 0 <= k < metadata_vec@.len() ==> (#[trigger] metadata_vec@[k])@ == old_acts[k].metadata,
                metadata_vec@.map_values(|m: ActivityMetadata| m@) == metadata_views(old_acts),
                forall|k: int|
                    0 <= k < self.activities@.len() ==> (#[trigger] self.activities@[k]).wf(),
                updated@.len() == j,
                forall|k: int|
                    0 <= k < j ==> (#[trigger] updated@[k])@ == refresh_conflicts(old_acts)[k]
                        && updated@[k].wf(),
            decreases self.activities@.len() - j,
        {
            let mut a = self.activities[j].clone();
            let ids = compute_incompatible_ids(&metadata_vec[j], &metadata_vec);
            a.computation_data.set_incompatible_activity_ids(ids);
            updated.push(a);
            j = j + 1;
        }
        self.activities = updated;
        proof {
            assert(activity_views(self.activities@) =~= refresh_conflicts(old_acts));
            lemma_refresh_conflicts(old_acts);
        }
    }

    /// Gives the activity at the given position new metadata, then updates the conflicts.
    fn set_metadata_at(&mut self, p: usize, m: ActivityMetadata)
        requires
            old(self).wf(),
            p < old(self)@.activities.len(),
            m.wf(),
            m@.id == old(self)@.activities[p as int].metadata.id,
        ensures
            final(self).wf(),
            final(self)@.activities == refresh_conflicts(
                old(self)@.activities.update(p as int, with_metadata(old(self)@.activities[p as int], m@)),
            ),
            final(self)@.removed_because_duration_increased == old(
                self,
            )@.removed_because_duration_increased,
    {
        let mut a = self.activities[p].clone();
        a.metadata = m;
        self.activities.set(p, a);
        proof {
            assert(activity_views(self.activities@) =~= old(self)@.activities.update(
                p as int,
                with_metadata(old(self)@.activities[p as int], m@),
            ));
        }
        self.update_incompatible_activities();
    }

    /// Gives the activity at the given position new computation data.
    fn set_computation_at(&mut self, p: usize, c: ActivityComputationData)
        requires
            old(self).wf(),
            p < old(self)@.activities.len(),
            c.wf(),
            c@.incompatible_activity_ids == old(self)@.activities[p as int].computation.incompatible_activity_ids,
        ensures
            final(self).wf(),
            final(self)@.activities == old(self)@.activities.update(
                p as int,
                ActivityView { metadata: old(self)@.activities[p as int].metadata, computation: c@ },
            ),
            final(self)@.removed_because_duration_increased == old(
                self,
            )@.removed_because_duration_increased,
    {
        let mut a = self.activities[p].clone();
        a.computation_data = c;
        self.activities.set(p, a);
        proof {
            let s = old(self)@.activities;
            let t = activity_views(self.activities@);
            assert(t =~= s.update(
                p as int,
                ActivityView { metadata: s[p as int].metadata, computation: c@ },
            ));
            assert(metadata_views(t) =~= metadata_views(s));
        }
    }

    /// Changes the name of the activity with the given id to the given name.
    ///
    /// Returns Err if there is no activity with the given id.
    pub fn set_name(&mut self, id: ActivityId, name: String) -> (r: Result<(), FelixError>)
        requires
            old(self).wf(),
        ensures
            final(self).wf(),
            r is Ok <==> has_activity(old(self)@.activities, id),
            r is Ok ==> final(self)@.activities == refresh_conflicts(
                set_metadata_of(
                    old(self)@.activities,
                    id,
                    ActivityMetadataView {
                        name: name@,
                        ..activity_with_id(old(self)@.activities, id).metadata
                    },
                ),
            ),
            r matches Err(e) ==> final(self)@ == old(self)@ && is_activity_not_found(e, id),
            final(self)@.removed_because_duration_increased == old(
                self,
            )@.removed_because_duration_increased,
    {
        let p = self.position_of(id)?;
        let mut m = self.activities[p].metadata.clone();
        m.set_name(name);
        self.set_metadata_at(p, m);
        Ok(())
    }

    /// Sets the color of the activity with the given id.
    ///
    /// Returns Err if there is no activity with the given id.
    pub fn set_color(&mut self, id: ActivityId, color: Rgba) -> (r: Result<(), FelixError>)
        requires
            old(self).wf(),
        ensures
            final(self).wf(),
            r is Ok <==> has_activity(old(self)@.activities, id),
            r is Ok ==> final(self)@.activities == refresh_conflicts(
                set_metadata_of(
                    old(self)@.activities,
                    id,
                    ActivityMetadataView {
                        color,
                        ..activity_with_id(old(self)@.activities, id).metadata
                    },
                ),
            ),
            r matches Err(e) ==> final(self)@ == old(self)@ && is_activity_not_found(e, id),
            final(self)@.removed_because_duration_increased == old(
                self,
            )@.removed_because_duration_increased,
    {
        let p = self.position_of(id)?;
        let mut m = self.activities[p].metadata.clone();
        m.set_color(color);
        self.set_metadata_at(p, m);
        Ok(())
    }

    /// Adds an entity to the activity with the given id.
    ///
    /// Returns Err if the activity is not found or if the entity is already
    /// taking part in the activity.
    pub fn add_entity(&mut self, id: ActivityId, entity: String) -> (r: Result<(), FelixError>)
        requires
            old(self).wf(),
        ensures
            final(self).wf(),
            r is Ok <==> has_activity(old(self)@.activities, id) && !activity_with_id(
                old(self)@.activities,
                id,
            ).metadata.entities.contains(entity@),
            r is Ok ==> final(self)@.activities == refresh_conflicts(
                set_metadata_of(
                    old(self)@.activities,
                    id,
                    ActivityMetadataView {
                        entities: activity_with_id(old(self)@.activities, id).metadata.entities.insert(
                            entity@,
                        ),
                        ..activity_with_id(old(self)@.activities, id).metadata
                    },
                ),
            ),
            r is Err ==> final(self)@ == old(self)@,
            !has_activity(old(self)@.activities, id) ==> (r matches Err(e) && is_activity_not_found(e, id)),
            has_activity(old(self)@.activities, id) && activity_with_id(
                old(self)@.activities,
                id,
            ).metadata.entities.contains(entity@) ==> (r matches Err(FelixError::AlreadyIn(a))
                && a.spec_what() == AlreadyInWhat::Entity && a.spec_who() == entity@
                && a.spec_in_what() == AlreadyInContainer::Activity && a.spec_in_who()
                == activity_with_id(old(self)@.activities, id).metadata.name),
            final(self)@.removed_because_duration_increased == old(
                self,
            )@.removed_because_duration_increased,
    {
        let p = self.position_of(id)?;
        let mut m = self.activities[p].metadata.clone();
        m.add_entity(entity)?;
        self.set_metadata_at(p, m);
        Ok(())
    }

    /// Removes an entity from the activity with the given id.
    ///
    /// Returns Err if the activity is not found or if the entity is not
    /// taking part in the activity.
    pub fn remove_entity(&mut self, id: ActivityId, entity: &str) -> (r: Result<(), FelixError>)
        requires
            old(self).wf(),
        ensures
            final(self).wf(),
            r is Ok <==> has_activity(old(self)@.activities, id) && activity_with_id(
                old(self)@.activities,
                id,
            ).metadata.entities.contains(entity@),
            r is Ok ==> final(self)@.activities == refresh_conflicts(
                set_metadata_of(
                    old(self)@.activities,
                    id,
                    ActivityMetadataView {
                        entities: activity_with_id(old(self)@.activities, id).metadata.entities.remove(
                            entity@,
                        ),
                        ..activity_with_id(old(self)@.activities, id).metadata
                    },
                ),
            ),
            r is Err ==> final(self)@ == old(self)@,
            !has_activity(old(self)@.activities, id) ==> (r matches Err(e) && is_activity_not_found(e, id)),
            has_activity(old(self)@.activities, id) && !activity_with_id(
                old(self)@.activities,
                id,
            ).metadata.entities.contains(entity@) ==> (r matches Err(FelixError::NotIn(a))
                && a.spec_what() == NotInWhat::Entity && a.spec_who() == entity@
                && a.spec_in_what() == NotInContainer::Activity && a.spec_in_who()
                == activity_with_id(old(self)@.activities, id).metadata.name),
            final(self)@.removed_because_duration_increased == old(
                self,
            )@.removed_because_duration_increased,
    {
        let p = self.position_of(id)?;
        let mut m = self.activities[p].metadata.clone();
        m.remove_entity(entity)?;
        self.set_metadata_at(p, m);
        Ok(())
    }

    /// Adds the group with the given name to the activity with given id.
    ///
    /// Returns Err if the activity is not found or if
    /// the group is already taking part in the activity.
    pub fn add_group(&mut self, id: ActivityId, group_name: String) -> (r: Result<(), FelixError>)
        requires
            old(self).wf(),
        ensures
            final(self).wf(),
            r is Ok <==> has_activity(old(self)@.activities, id) && !activity_with_id(
                old(self)@.activities,
                id,
            ).metadata.groups.contains(group_name@),
            r is Ok ==> final(self)@.activities == refresh_conflicts(
                set_metadata_of(
                    old(self)@.activities,
                    id,
                    ActivityMetadataView {
                        groups: activity_with_id(old(self)@.activities, id).metadata.groups.insert(
                            group_name@,
                        ),
                        ..activity_with_id(old(self)@.activities, id).metadata
                    },
                ),
            ),
            r is Err ==> final(self)@ == old(self)@,
            !has_activity(old(self)@.activities, id) ==> (r matches Err(e) && is_activity_not_found(e, id)),
            has_activity(old(self)@.activities, id) && activity_with_id(
                old(self)@.activities,
                id,
            ).metadata.groups.contains(group_name@) ==> (r matches Err(FelixError::AlreadyIn(a))
                && a.spec_what() == AlreadyInWhat::Group && a.spec_who() == group_name@
                && a.spec_in_what() == AlreadyInContainer::Activity && a.spec_in_who()
                == activity_with_id(old(self)@.activities, id).metadata.name),
            final(self)@.removed_because_duration_increased == old(
                self,
            )@.removed_because_duration_increased,
    {
        let p = self.position_of(id)?;
        let mut m = self.activities[p].metadata.clone();
        m.add_group(group_name)?;
        self.set_metadata_at(p, m);
        Ok(())
    }

    /// Removes the group with the given name from the activity with given id.
    ///
    /// Returns Err if the activity is not found or if the group is not taking part in the
    /// activity.
    pub fn remove_group(&mut self, id: ActivityId, group_name: &str) -> (r: Result<(), FelixError>)
        requires
            old(self).wf(),
        ensures
            final(self).wf(),
            r is Ok <==> has_activity(old(self)@.activities, id) && activity_with_id(
                old(self)@.activities,
                id,
            ).metadata.groups.contains(group_name@),
            r is Ok ==> final(self)@.activities == refresh_conflicts(
                set_metadata_of(
                    old(self)@.activities,
                    id,
                    ActivityMetadataView {
                        groups: activity_with_id(old(self)@.activities, id).metadata.groups.remove(
                            group_name@,
                        ),
                        ..activity_with_id(old(self)@.activities, id).metadata
                    },
                ),
            ),
            r is Err ==> final(self)@ == old(self)@,
            !has_activity(old(self)@.activities, id) ==> (r matches Err(e) && is_activity_not_found(e, id)),
            has_activity(old(self)@.activities, id) && !activity_with_id(
                old(self)@.activities,
                id,
            ).metadata.groups.contains(group_name@) ==> (r matches Err(FelixError::NotIn(a))
                && a.spec_what() == NotInWhat::Group && a.spec_who() == group_name@
                && a.spec_in_what() == NotInContainer::Activity && a.spec_in_who()
                == activity_with_id(old(self)@.activities, id).metadata.name),
            final(self)@.removed_because_duration_increased == old(
                self,
            )@.removed_because_duration_increased,
    {
        let p = self.position_of(id)?;
        let mut m = self.activities[p].metadata.clone();
        m.remove_group(group_name)?;
        self.set_metadata_at(p, m);
        Ok(())
    }

    /// Adds an entity in every activity which contains the given group.
    pub fn add_entity_to_activities_with_group(&mut self, group_name: &str, entity_name: String)
        requires
            old(self).wf(),
        ensures
            final(self).wf(),
            final(self)@.activities == refresh_conflicts(
                map_metadata(
                    old(self)@.activities,
                    |m: ActivityMetadataView| add_entity_where_group(m, group_name@, entity_name@),
                ),
            ),
            final(self)@.removed_because_duration_increased == old(
                self,
            )@.removed_because_duration_increased,
    {
        let ghost s = self@.activities;
        let ghost f = |m: ActivityMetadataView| add_entity_where_group(m, group_name@, entity_name@);
        let group: String = group_name.to_owned();
        let mut i: usize = 0;
        while i < self.activities.len()
            invariant
                i <= self.activities@.len(),
                self.activities@.len() == s.len(),
                group@ == group_name@,
                f == (|m: ActivityMetadataView| add_entity_where_group(m, group_name@, entity_name@)),
                forall|k: int| 0 <= k < self.activities@.len() ==> (#[trigger] self.activities@[k]).wf(),
                forall|k: int| 0 <= k < i ==> (#[trigger] self.activities@[k])@ == with_metadata(s[k], f(s[k].metadata)),
                forall|k: int| i <= k < s.len() ==> (#[trigger] self.activities@[k])@ == s[k],
                removed_keys_unique(self@.removed_because_duration_increased),
                self@.removed_because_duration_increased == old(self)@.removed_because_duration_increased,
                s == old(self)@.activities,
                ids_unique(s),
            decreases self.activities@.len() - i,
        {
            if self.activities[i].metadata.contains_group(&group) {
                let mut a = self.activities[i].clone();
                let _ = a.metadata.add_entity(entity_name.clone());
                proof {
                    if s[i as int].metadata.entities.contains(entity_name@) {
                        assert(s[i as int].metadata.entities.insert(entity_name@) =~= s[i as int].metadata.entities);
                    }
                }
                self.activities.set(i, a);
            }
            i = i + 1;
        }
        proof {
            assert(activity_views(self.activities@) =~= map_metadata(s, f));
            assert forall|a: int, b: int| 0 <= a < s.len() && 0 <= b < s.len() && a != b implies (#[trigger] map_metadata(s, f)[a]).metadata.id != (#[trigger] map_metadata(s, f)[b]).metadata.id by {
                assert(s[a].metadata.id != s[b].metadata.id);
            }
        }
        self.update_incompatible_activities();
    }

    /// Removes the entity with given name from all activities.
    pub fn remove_entity_from_all(&mut self, entity: &str)
        requires
            old(self).wf(),
        ensures
            final(self).wf(),
            final(self)@.activities == refresh_conflicts(
                map_metadata(old(self)@.activities, |m: ActivityMetadataView| without_entity(m, entity@)),
            ),
            final(self)@.removed_because_duration_increased == old(
                self,
            )@.removed_because_duration_increased,
    {
        let ghost s = self@.activities;
        let ghost f = |m: ActivityMetadataView| without_entity(m, entity@);
        let mut i: usize = 0;
        while i < self.activities.len()
            invariant
                i <= self.activities@.len(),
                self.activities@.len() == s.len(),
                f == (|m: ActivityMetadataView| without_entity(m, entity@)),
                forall|k: int| 0 <= k < self.activities@.len() ==> (#[trigger] self.activities@[k]).wf(),
                forall|k: int| 0 <= k < i ==> (#[trigger] self.activities@[k])@ == with_metadata(s[k], f(s[k].metadata)),
                forall|k: int| i <= k < s.len() ==> (#[trigger] self.activities@[k])@ == s[k],
                removed_keys_unique(self@.removed_because_duration_increased),
                self@.removed_because_duration_increased == old(self)@.removed_because_duration_increased,
                s == old(self)@.activities,
                ids_unique(s),
            decreases self.activities@.len() - i,
        {
            let mut a = self.activities[i].clone();
            let _ = a.metadata.remove_entity(entity);
            proof {
                if !s[i as int].metadata.entities.contains(entity@) {
                    assert(s[i as int].metadata.entities.remove(entity@) =~= s[i as int].metadata.entities);
                }
            }
            self.activities.set(i, a);
            i = i + 1;
        }
        proof {
            assert(activity_views(self.activities@) =~= map_metadata(s, f));
            assert forall|a: int, b: int| 0 <= a < s.len() && 0 <= b < s.len() && a != b implies (#[trigger] map_metadata(s, f)[a]).metadata.id != (#[trigger] map_metadata(s, f)[b]).metadata.id by {
                assert(s[a].metadata.id != s[b].metadata.id);
            }
        }
        self.update_incompatible_activities();
    }

    /// Renames the entity with given name in all activities.
    ///
    /// The incompatible activities are computed again, as renaming may make two activities
    /// share an entity.
    pub fn rename_entity_in_all(&mut self, old_name: &str, new_name: String)
        requires
            old(self).wf(),
        ensures
            final(self).wf(),
            final(self)@.activities == refresh_conflicts(
                map_metadata(
                    old(self)@.activities,
                    |m: ActivityMetadataView| entity_renamed(m, old_name@, new_name@),
                ),
            ),
            final(self)@.removed_because_duration_increased == old(
                self,
            )@.removed_because_duration_increased,
    {
        let ghost s = self@.activities;
        let ghost f = |m: ActivityMetadataView| entity_renamed(m, old_name@, new_name@);
        let mut i: usize = 0;
        while i < self.activities.len()
            invariant
                i <= self.activities@.len(),
                self.activities@.len() == s.len(),
                f == (|m: ActivityMetadataView| entity_renamed(m, old_name@, new_name@)),
                forall|k: int| 0 <= k < self.activities@.len() ==> (#[trigger] self.activities@[k]).wf(),
                forall|k: int| 0 <= k < i ==> (#[trigger] self.activities@[k])@ == with_metadata(s[k], f(s[k].metadata)),
                forall|k: int| i <= k < s.len() ==> (#[trigger] self.activities@[k])@ == s[k],
                removed_keys_unique(self@.removed_because_duration_increased),
                self@.removed_because_duration_increased == old(self)@.removed_because_duration_increased,
                s == old(self)@.activities,
                ids_unique(s),
            decreases self.activities@.len() - i,
        {
            let mut a = self.activities[i].clone();
            let _ = a.metadata.rename_entity(old_name, new_name.clone());
            self.activities.set(i, a);
            i = i + 1;
        }
        proof {
            assert(activity_views(self.activities@) =~= map_metadata(s, f));
            assert forall|a: int, b: int| 0 <= a < s.len() && 0 <= b < s.len() && a != b implies (#[trigger] map_metadata(s, f)[a]).metadata.id != (#[trigger] map_metadata(s, f)[b]).metadata.id by {
                assert(s[a].metadata.id != s[b].metadata.id);
            }
        }
        self.update_incompatible_activities();
    }

    /// Removes the group with the given name from all activities.
    pub fn remove_group_from_all(&mut self, group: &str)
        requires
            old(self).wf(),
        ensures
            final(self).wf(),
            final(self)@.activities == refresh_conflicts(
                map_metadata(old(self)@.activities, |m: ActivityMetadataView| without_group(m, group@)),
            ),
            final(self)@.removed_because_duration_increased == old(
                self,
            )@.removed_because_duration_increased,
    {
        let ghost s = self@.activities;
        let ghost f = |m: ActivityMetadataView| without_group(m, group@);
        let mut i: usize = 0;
        while i < self.activities.len()
            invariant
                i <= self.activities@.len(),
                self.activities@.len() == s.len(),
                f == (|m: ActivityMetadataView| without_group(m, group@)),
                forall|k: int| 0 <= k < self.activities@.len() ==> (#[trigger] self.activities@[k]).wf(),
                forall|k: int| 0 <= k < i ==> (#[trigger] self.activities@[k])@ == with_metadata(s[k], f(s[k].metadata)),
                forall|k: int| i <= k < s.len() ==> (#[trigger] self.activities@[k])@ == s[k],
                removed_keys_unique(self@.removed_because_duration_increased),
                self@.removed_because_duration_increased == old(self)@.removed_because_duration_increased,
                s == old(self)@.activities,
                ids_unique(s),
            decreases self.activities@.len() - i,
        {
            let mut a = self.activities[i].clone();
            let _ = a.metadata.remove_group(group);
            proof {
                if !s[i as int].metadata.groups.contains(group@) {
                    assert(s[i as int].metadata.groups.remove(group@) =~= s[i as int].metadata.groups);
                }
            }
            self.activities.set(i, a);
            i = i + 1;
        }
        proof {
            assert(activity_views(self.activities@) =~= map_metadata(s, f));
            assert forall|a: int, b: int| 0 <= a < s.len() && 0 <= b < s.len() && a != b implies (#[trigger] map_metadata(s, f)[a]).metadata.id != (#[trigger] map_metadata(s, f)[b]).metadata.id by {
                assert(s[a].metadata.id != s[b].metadata.id);
            }
        }
        self.update_incompatible_activities();
    }

    /// Renames the group with given name in all activities.
    pub fn rename_group_in_all(&mut self, old_name: &str, new_name: String)
        requires
            old(self).wf(),
        ensures
            final(self).wf(),
            final(self)@.activities == refresh_conflicts(
                map_metadata(
                    old(self)@.activities,
                    |m: ActivityMetadataView| group_renamed(m, old_name@, new_name@),
                ),
            ),
            final(self)@.removed_because_duration_increased == old(
                self,
            )@.removed_because_duration_increased,
    {
        let ghost s = self@.activities;
        let ghost f = |m: ActivityMetadataView| group_renamed(m, old_name@, new_name@);
        let mut i: usize = 0;
        while i < self.activities.len()
            invariant
                i <= self.activities@.len(),
                self.activities@.len() == s.len(),
                f == (|m: ActivityMetadataView| group_renamed(m, old_name@, new_name@)),
                forall|k: int| 0 <= k < self.activities@.len() ==> (#[trigger] self.activities@[k]).wf(),
                forall|k: int| 0 <= k < i ==> (#[trigger] self.activities@[k])@ == with_metadata(s[k], f(s[k].metadata)),
                forall|k: int| i <= k < s.len() ==> (#[trigger] self.activities@[k])@ == s[k],
                removed_keys_unique(self@.removed_because_duration_increased),
                self@.removed_because_duration_increased == old(self)@.removed_because_duration_increased,
                s == old(self)@.activities,
                ids_unique(s),
            decreases self.activities@.len() - i,
        {
            let mut a = self.activities[i].clone();
            let _ = a.metadata.rename_group(old_name, new_name.clone());
            self.activities.set(i, a);
            i = i + 1;
        }
        proof {
            assert(activity_views(self.activities@) =~= map_metadata(s, f));
            assert forall|a: int, b: int| 0 <= a < s.len() && 0 <= b < s.len() && a != b implies (#[trigger] map_metadata(s, f)[a]).metadata.id != (#[trigger] map_metadata(s, f)[b]).metadata.id by {
                assert(s[a].metadata.id != s[b].metadata.id);
            }
        }
        self.update_incompatible_activities();
    }

    /// Sets the duration of the activity with the given id.
    ///
    /// If the duration is shorter, the insertion interval is shortened too; if it is longer,
    /// the insertion interval is left as it is.
    ///
    /// Returns Err if the duration is too short (< MIN_TIME_DISCRETIZATION) or the activity is
    /// not found.
    pub fn set_duration(&mut self, id: ActivityId, duration: Time) -> (r: Result<(), FelixError>)
        requires
            old(self).wf(),
            time_in_range(duration@),
            has_activity(old(self)@.activities, id) && duration@ < activity_with_id(
                old(self)@.activities,
                id,
            ).computation.duration ==> (activity_with_id(
                old(self)@.activities,
                id,
            ).computation.insertion_interval matches Some(i) ==> time_in_range(i.0 + duration@)),
        ensures
            final(self).wf(),
            r is Ok <==> MIN_TIME_DISCRETIZATION_MINUTES <= duration@ && has_activity(
                old(self)@.activities,
                id,
            ),
            duration@ < MIN_TIME_DISCRETIZATION_MINUTES ==> (r matches Err(FelixError::DurationTooShort)),
            MIN_TIME_DISCRETIZATION_MINUTES <= duration@ && !has_activity(old(self)@.activities, id) ==> (
            r matches Err(e) && is_activity_not_found(e, id)),
            r is Err ==> final(self)@ == old(self)@,
            r is Ok ==> final(self)@.activities == set_computation_of(
                old(self)@.activities,
                id,
                ComputationDataView {
                    duration: duration@,
                    insertion_interval: if duration@ < activity_with_id(
                        old(self)@.activities,
                        id,
                    ).computation.duration {
                        match activity_with_id(old(self)@.activities, id).computation.insertion_interval {
                            Some(i) => Some((i.0, i.0 + duration@)),
                            None => None,
                        }
                    } else {
                        activity_with_id(old(self)@.activities, id).computation.insertion_interval
                    },
                    ..activity_with_id(old(self)@.activities, id).computation
                },
            ),
            final(self)@.removed_because_duration_increased == old(
                self,
            )@.removed_because_duration_increased,
    {
        if duration.total_minutes() < MIN_TIME_DISCRETIZATION_MINUTES {
            return Err(FelixError::DurationTooShort);
        }
        let p = self.position_of(id)?;
        let mut c = self.activities[p].computation_data.clone();
        proof {
            self.activities@[p as int].lemma_wf();
        }
        c.set_duration(duration);
        self.set_computation_at(p, c);
        Ok(())
    }

    /// Inserts the activity with the given beginning.
    /// If None is given, the activity is removed from the schedule.
    /// Checks are done by the data module.
    ///
    /// Returns Err if the activity is not found.
    pub fn insert_activity(&mut self, id: ActivityId, beginning: Option<Time>) -> (r: Result<
        (),
        FelixError,
    >)
        requires
            old(self).wf(),
            beginning matches Some(t) ==> time_in_range(t@) && (has_activity(
                old(self)@.activities,
                id,
            ) ==> time_in_range(t@ + activity_with_id(old(self)@.activities, id).computation.duration)),
        ensures
            final(self).wf(),
            r is Ok <==> has_activity(old(self)@.activities, id),
            r matches Err(e) ==> final(self)@ == old(self)@ && is_activity_not_found(e, id),
            r is Ok ==> final(self)@.activities == set_computation_of(
                old(self)@.activities,
                id,
                ComputationDataView {
                    insertion_interval: match beginning {
                        Some(t) => Some(
                            (t@, t@ + activity_with_id(old(self)@.activities, id).computation.duration),
                        ),
                        None => None,
                    },
                    ..activity_with_id(old(self)@.activities, id).computation
                },
            ),
            final(self)@.removed_because_duration_increased == old(
                self,
            )@.removed_because_duration_increased,
    {
        let p = self.position_of(id)?;
        let mut c = self.activities[p].computation_data.clone();
        c.insert(beginning);
        self.set_computation_at(p, c);
        Ok(())
    }

    /// Sets the insertion costs of the activity with the given id (None when they are not
    /// computed yet).
    ///
    /// Returns Err if the activity is not found.
    pub fn set_insertion_costs(
        &mut self,
        id: ActivityId,
        insertion_costs: Option<Vec<InsertionCost>>,
    ) -> (r: Result<(), FelixError>)
        requires
            old(self).wf(),
            insertion_costs matches Some(v) ==> costs_sorted(v@),
        ensures
            final(self).wf(),
            r is Ok <==> has_activity(old(self)@.activities, id),
            r matches Err(e) ==> final(self)@ == old(self)@ && is_activity_not_found(e, id),
            r is Ok ==> final(self)@.activities == set_computation_of(
                old(self)@.activities,
                id,
                ComputationDataView {
                    insertion_costs: match insertion_costs {
                        Some(v) => Some(v@),
                        None => None,
                    },
                    ..activity_with_id(old(self)@.activities, id).computation
                },
            ),
            final(self)@.removed_because_duration_increased == old(
                self,
            )@.removed_because_duration_increased,
    {
        let p = self.position_of(id)?;
        let mut c = self.activities[p].computation_data.clone();
        c.set_insertion_costs(insertion_costs);
        self.set_computation_at(p, c);
        Ok(())
    }

    /// Getter for activities which were removed from the schedule because their duration
    /// increased, with their former beginning.
    pub fn get_activities_removed_because_duration_increased(&self) -> (r: Vec<(ActivityId, Time)>)
        ensures
            r@.map_values(|p: (ActivityId, Time)| (p.0, p.1@))
                == self@.removed_because_duration_increased,
    {
        let mut r: Vec<(ActivityId, Time)> = Vec::new();
        let mut i: usize = 0;
        while i < self.activities_removed_because_duration_increased.len()
            invariant
                i <= self.activities_removed_because_duration_increased@.len(),
                r@ == self.activities_removed_because_duration_increased@.take(i as int),
            decreases self.activities_removed_because_duration_increased@.len() - i,
        {
            r.push(self.activities_removed_because_duration_increased[i]);
            i = i + 1;
            assert(r@ =~= self.activities_removed_because_duration_increased@.take(i as int));
        }
        assert(self.activities_removed_because_duration_increased@.take(i as int)
            =~= self.activities_removed_because_duration_increased@);
        r
    }

    /// Empties the list of activities which were removed because their duration increased.
    pub fn clear_activities_removed_because_duration_increased(&mut self)
        requires
            old(self).wf(),
        ensures
            final(self).wf(),
            final(self)@.activities == old(self)@.activities,
            final(self)@.removed_because_duration_increased == Seq::<(ActivityId, int)>::empty(),
    {
        self.activities_removed_because_duration_increased = Vec::new();
        assert(self@.removed_because_duration_increased =~= Seq::<(ActivityId, int)>::empty());
    }

    /// Position of the record of the given activity in the list of removed activities.
    fn removed_position(&self, id: ActivityId) -> (r: Option<usize>)
        requires
            removed_keys_unique(self@.removed_because_duration_increased),
        ensures
            r is Some <==> is_recorded_removed(self@.removed_because_duration_increased, id),
            r matches Some(j) ==> j == removed_index(self@.removed_because_duration_increased, id)
                && j < self@.removed_because_duration_increased.len(),
    {
        let ghost s = self@.removed_because_duration_increased;
        let mut j: usize = 0;
        while j < self.activities_removed_because_duration_increased.len()
            invariant
                j <= s.len(),
                s == self@.removed_because_duration_increased,
                s.len() == self.activities_removed_because_duration_increased@.len(),
                removed_keys_unique(s),
                forall|k: int| 0 <= k < j ==> (#[trigger] s[k]).0 != id,
            decreases s.len() - j,
        {
            if self.activities_removed_because_duration_increased[j].0 == id {
                proof {
                    assert(s[j as int].0 == id);
                    assert(is_recorded_removed(s, id));
                    let k = removed_index(s, id);
                    assert(s[k].0 == id);
                }
                return Some(j);
            }
            j = j + 1;
        }
        None
    }

    /// Keeps the insertion beginning of an activity which is removed from the schedule because
    /// of an increase of its duration. The activity can then be inserted in the closest spot.
    ///
    /// Returns Err if the activity is not found.
    pub fn store_activity_was_inserted(&mut self, id: ActivityId) -> (r: Result<(), FelixError>)
        requires
            old(self).wf(),
            has_activity(old(self)@.activities, id) ==> activity_with_id(
                old(self)@.activities,
                id,
            ).computation.insertion_interval is Some,
        ensures
            final(self).wf(),
            final(self)@.activities == old(self)@.activities,
            r is Ok <==> has_activity(old(self)@.activities, id),
            r matches Err(e) ==> final(self)@ == old(self)@ && is_activity_not_found(e, id),
            r is Ok ==> final(self)@.removed_because_duration_increased == record_removed(
                old(self)@.removed_because_duration_increased,
                id,
                inserted_beginning(activity_with_id(old(self)@.activities, id)),
            ),
    {
        let p = self.position_of(id)?;
        let interval = self.activities[p].computation_data.insertion_interval();
        let beginning = match interval {
            Some(i) => i.beginning(),
            None => {
                return Ok(());
            },
        };
        let ghost s = self@.removed_because_duration_increased;
        match self.removed_position(id) {
            Some(j) => {
                self.activities_removed_because_duration_increased.set(j, (id, beginning));
                proof {
                    assert(self@.removed_because_duration_increased =~= s.update(j as int, (id, beginning@)));
                }
            },
            None => {
                self.activities_removed_because_duration_increased.push((id, beginning));
                proof {
                    assert(self@.removed_because_duration_increased =~= s.push((id, beginning@)));
                }
            },
        }
        Ok(())
    }

    /// Tries to insert the given activity in the spot which is the closest to the given
    /// beginning. The activity is no longer remembered as removed from the schedule.
    /// Returns true if the activity is inserted.
    ///
    /// Of two spots at the same distance of the ideal beginning, the earliest is taken.
    pub fn insert_activity_in_spot_closest_to(
        &mut self,
        id: ActivityId,
        ideal_beginning: Time,
        possible_beginnings: Vec<InsertionCost>,
    ) -> (r: bool)
        requires
            old(self).wf(),
            has_activity(old(self)@.activities, id),
            forall|i: int|
                0 <= i < possible_beginnings@.len() ==> time_in_range(
                    (#[trigger] possible_beginnings@[i]).beginning@,
                ) && time_in_range(
                    possible_beginnings@[i].beginning@ + activity_with_id(
                        old(self)@.activities,
                        id,
                    ).computation.duration,
                ),
        ensures
            final(self).wf(),
            final(self)@.removed_because_duration_increased == forget_removed(
                old(self)@.removed_because_duration_increased,
                id,
            ),
            r == (possible_beginnings@.len() > 0),
            !r ==> final(self)@.activities == old(self)@.activities,
            r ==> exists|b: int|
                is_closest_beginning(possible_beginnings@, ideal_beginning@, b)
                    && final(self)@.activities == set_computation_of(
                    old(self)@.activities,
                    id,
                    ComputationDataView {
                        insertion_interval: Some(
                            (b, b + activity_with_id(old(self)@.activities, id).computation.duration),
                        ),
                        ..activity_with_id(old(self)@.activities, id).computation
                    },
                ),
    {
        let ghost s = self@.removed_because_duration_increased;
        if let Some(j) = self.removed_position(id) {
            self.activities_removed_because_duration_increased.remove(j);
            proof {
                assert(self@.removed_because_duration_increased =~= s.remove(j as int));
            }
        }
        match closest_beginning(&possible_beginnings, ideal_beginning) {
            Some(b) => {
                proof {
                    let k = choose|k: int| 0 <= k < possible_beginnings@.len() && (#[trigger] possible_beginnings@[k]).beginning@ == b@;
                }
                let _ = self.insert_activity(id, Some(b));
                true
            },
            None => false,
        }
    }

    /// Adds an activity with the given name to the collection.
    /// Automatically assigns a unique id: the smallest unused one. The activity is placed at
    /// the position given by its id.
    /// Returns a copy of the newly created activity.
    pub fn add(&mut self, name: String) -> (r: Activity)
        requires
            old(self).wf(),
        ensures
            final(self).wf(),
            0 <= smallest_unused(ids_of(old(self)@.activities)) <= old(self)@.activities.len(),
            !has_activity(old(self)@.activities, smallest_unused(ids_of(old(self)@.activities)) as ActivityId),
            final(self)@.activities == refresh_conflicts(
                old(self)@.activities.insert(
                    smallest_unused(ids_of(old(self)@.activities)),
                    new_activity_view(
                        smallest_unused(ids_of(old(self)@.activities)) as ActivityId,
                        name@,
                    ),
                ),
            ),
            r@ == new_activity_view(
                smallest_unused(ids_of(old(self)@.activities)) as ActivityId,
                name@,
            ),
            r.wf(),
            final(self)@.removed_because_duration_increased == old(
                self,
            )@.removed_because_duration_increased,
    {
        broadcast use vstd::seq_lib::group_filter_ensures;

        let ghost s = self@.activities;
        let ids = self.ids();
        let id = generate_next_id(ids);
        proof {
            lemma_ids_unique_no_duplicates(s);
            if has_activity(s, id) {
                let k = choose|k: int| 0 <= k < s.len() && (#[trigger] s[k]).metadata.id == id;
                assert(ids_of(s)[k] == id);
            }
        }
        let activity = Activity::new(id, name);
        self.activities.insert(id, activity);
        proof {
            let t = s.insert(id as int, new_activity_view(id, name@));
            assert(activity_views(self.activities@) =~= t);
            assert forall|a: int, b: int| 0 <= a < t.len() && 0 <= b < t.len() && a != b implies (
            #[trigger] t[a]).metadata.id != (#[trigger] t[b]).metadata.id by {
                if a != id && b != id {
                    let a0 = if a < id { a } else { a - 1 };
                    let b0 = if b < id { b } else { b - 1 };
                    assert(s[a0].metadata.id != s[b0].metadata.id);
                } else if a == id {
                    let b0 = if b < id { b } else { b - 1 };
                    assert(ids_of(s)[b0] == s[b0].metadata.id);
                } else {
                    let a0 = if a < id { a } else { a - 1 };
                    assert(ids_of(s)[a0] == s[a0].metadata.id);
                }
            }
            assert forall|k: int| 0 <= k < self.activities@.len() implies (#[trigger] self.activities@[k]).wf() by {
                if k != id {
                    let k0 = if k < id { k } else { k - 1 };
                    assert(self.activities@[k] == old(self).activities@[k0]);
                }
            }
        }
        self.update_incompatible_activities();
        proof {
            let t = s.insert(id as int, new_activity_view(id, name@));
            lemma_no_entity_no_conflict(t[id as int].metadata, metadata_views(t));
            assert(refresh_conflicts(t)[id as int] == new_activity_view(id, name@));
        }
        self.activities[id].clone()
    }

    /// Removes the activity with given id from the collection: the last activity takes its
    /// place.
    ///
    /// Returns Err if there is no activity with the given id.
    pub fn remove(&mut self, id: ActivityId) -> (r: Result<(), FelixError>)
        requires
            old(self).wf(),
        ensures
            final(self).wf(),
            r is Ok <==> has_activity(old(self)@.activities, id),
            r matches Err(e) ==> final(self)@ == old(self)@ && is_activity_not_found(e, id),
            r is Ok ==> final(self)@.activities == refresh_conflicts(
                old(self)@.activities.update(
                    index_of_activity(old(self)@.activities, id),
                    old(self)@.activities.last(),
                ).drop_last(),
            ),
            r is Ok ==> !has_activity(final(self)@.activities, id),
            final(self)@.removed_because_duration_increased == old(
                self,
            )@.removed_because_duration_increased,
    {
        let ghost s = self@.activities;
        let p = self.position_of(id)?;
        self.activities.swap_remove(p);
        proof {
            let t = s.update(p as int, s.last()).drop_last();
            assert(activity_views(self.activities@) =~= t);
            let n = s.len() - 1;
            assert forall|a: int, b: int| 0 <= a < t.len() && 0 <= b < t.len() && a != b implies (
            #[trigger] t[a]).metadata.id != (#[trigger] t[b]).metadata.id by {
                let a0 = if a == p { n } else { a };
                let b0 = if b == p { n } else { b };
                assert(s[a0].metadata.id != s[b0].metadata.id);
            }
            assert forall|k: int| 0 <= k < self.activities@.len() implies (#[trigger] self.activities@[k]).wf() by {
                let k0 = if k == p { n } else { k };
                assert(self.activities@[k] == old(self).activities@[k0]);
            }
            assert forall|k: int| 0 <= k < t.len() implies (#[trigger] t[k]).metadata.id != id by {
                let k0 = if k == p { n } else { k };
                assert(s[k0].metadata.id != s[p as int].metadata.id);
            }
        }
        self.update_incompatible_activities();
        Ok(())
    }

    /// Simple getter for the activity list, sorted by name.
    pub fn get_sorted_by_name(&self) -> (r: Vec<Activity>)
        ensures
            is_sorted_by_name(self@.activities, activity_views(r@)),
            self.wf() ==> forall|k: int| 0 <= k < r@.len() ==> (#[trigger] r@[k]).wf(),
    {
        let ghost s = self@.activities;
        let ghost before = name_before(s);
        proof {
            lemma_name_order(s);
        }
        let n = self.activities.len();
        let mut order: Vec<usize> = Vec::new();
        let mut i: usize = 0;
        assert(order@.map_values(|x: usize| x as int) =~= Seq::<int>::empty());
        while i < n
            invariant
                n == self.activities@.len(),
                s == self@.activities,
                before == name_before(s),
                is_strict_weak_order(n as int, before),
                i <= n,
                is_stable_order(i as int, before, order@.map_values(|x: usize| x as int)),
            decreases n - i,
        {
            let ghost o = order@.map_values(|x: usize| x as int);
            assert forall|a: int| 0 <= a < order@.len() implies (#[trigger] order@[a] as int) < n by {
                assert(o[a] == order@[a] as int);
            }
            let mut p: usize = 0;
            while p < order.len() && !string_lt(
                self.activities[i].metadata.name(),
                self.activities[order[p]].metadata.name(),
            )
                invariant
                    n == self.activities@.len(),
                    s == self@.activities,
                    before == name_before(s),
                    i < n,
                    o == order@.map_values(|x: usize| x as int),
                    is_stable_order(i as int, before, o),
                    p <= order@.len(),
                    forall|a: int| 0 <= a < order@.len() ==> (#[trigger] order@[a] as int) < n,
                    forall|a: int| 0 <= a < p ==> !before(i as int, #[trigger] o[a]),
                decreases order@.len() - p,
            {
                p = p + 1;
            }
            proof {
                lemma_stable_insert(n as int, before, o, i as int, p as int);
            }
            order.insert(p, i);
            assert(order@.map_values(|x: usize| x as int) =~= o.insert(p as int, i as int));
            i = i + 1;
        }
        let ghost o = order@.map_values(|x: usize| x as int);
        let mut r: Vec<Activity> = Vec::new();
        let mut k: usize = 0;
        while k < n
            invariant
                n == self.activities@.len(),
                s == self@.activities,
                o == order@.map_values(|x: usize| x as int),
                is_stable_order(n as int, before, o),
                k <= n,
                r@.len() == k,
                forall|j: int| 0 <= j < k ==> (#[trigger] r@[j])@ == s[o[j]] && r@[j].wf() == self.activities@[o[j]].wf(),
            decreases n - k,
        {
            assert(0 <= o[k as int] < n);
            r.push(self.activities[order[k]].clone());
            k = k + 1;
        }
        proof {
            assert forall|j: int| 0 <= j < activity_views(r@).len() implies #[trigger] activity_views(r@)[j] == s[o[j]] by {}
            if self.wf() {
                assert forall|j: int| 0 <= j < r@.len() implies (#[trigger] r@[j]).wf() by {
                    assert(0 <= o[j] < n);
                }
            }
        }
        r
    }

    /// Simple getter for the activity list, sorted by name.
    pub fn sorted_by_name(&self) -> (r: Vec<Activity>)
        ensures
            is_sorted_by_name(self@.activities, activity_views(r@)),
            self.wf() ==> forall|k: int| 0 <= k < r@.len() ==> (#[trigger] r@[k]).wf(),
    {
        self.get_sorted_by_name()
    }

    /// Invalidates the insertion costs of the activities in which one of the given entities
    /// takes part: they have to be computed again.
    pub fn invalidate_insertion_costs_of(&mut self, entities: &Vec<String>)
        requires
            old(self).wf(),
        ensures
            final(self).wf(),
            final(self)@.activities == invalidate_costs_of(
                old(self)@.activities,
                entities@.map_values(|e: String| e@).to_set(),
            ),
            final(self)@.removed_because_duration_increased == old(
                self,
            )@.removed_because_duration_increased,
    {
        let ghost s = self@.activities;
        let ghost es = entities@.map_values(|e: String| e@).to_set();
        let mut i: usize = 0;
        while i < self.activities.len()
            invariant
                i <= self.activities@.len(),
                self.activities@.len() == s.len(),
                es == entities@.map_values(|e: String| e@).to_set(),
                self.wf(),
                forall|k: int| 0 <= k < i ==> (#[trigger] self@.activities[k]) == invalidate_costs_of(s, es)[k],
                forall|k: int| i <= k < s.len() ==> (#[trigger] self@.activities[k]) == s[k],
                self@.removed_because_duration_increased == old(self)@.removed_because_duration_increased,
                s == old(self)@.activities,
            decreases self.activities@.len() - i,
        {
            let mut concerned = false;
            let mut j: usize = 0;
            while j < entities.len()
                invariant
                    j <= entities@.len(),
                    i < self.activities@.len(),
                    concerned == exists|l: int| 0 <= l < j && self.activities@[i as int]@.metadata.entities.contains(#[trigger] entities@[l]@),
                decreases entities@.len() - j,
            {
                if self.activities[i].contains_entity(&entities[j]) {
                    concerned = true;
                }
                j = j + 1;
            }
            proof {
                assert(self@.activities[i as int] == s[i as int]);
                if concerned {
                    let l = choose|l: int| 0 <= l < j && self.activities@[i as int]@.metadata.entities.contains(#[trigger] entities@[l]@);
                    assert(entities@.map_values(|e: String| e@)[l] == entities@[l]@);
                    assert(es.contains(entities@[l]@));
                } else {
                    let names = entities@.map_values(|x: String| x@);
                    assert forall|e: Seq<char>| s[i as int].metadata.entities.contains(e) implies !#[trigger] es.contains(e) by {
                        if es.contains(e) {
                            let l = choose|l: int| 0 <= l < names.len() && #[trigger] names[l] == e;
                            assert(entities@[l]@ == e);
                        }
                    }
                }
            }
            if concerned {
                let ghost before = self@.activities;
                let mut c = self.activities[i].computation_data.clone();
                c.set_insertion_costs(None);
                self.set_computation_at(i, c);
                proof {
                    assert(self@.activities.len() == s.len());
                    assert(self.activities@.len() == self@.activities.len());
                    assert forall|k: int| 0 <= k < i + 1 implies (#[trigger] self@.activities[k]) == invalidate_costs_of(s, es)[k] by {
                        if k < i {
                            assert(self@.activities[k] == before[k]);
                        }
                    }
                }
            }
            i = i + 1;
        }
        assert(self@.activities =~= invalidate_costs_of(s, es));
    }

    /// Getter for all activities, not sorted.
    pub fn get_not_sorted(&self) -> (r: &Vec<Activity>)
        ensures
            activity_views(r@) == self@.activities,
            self.wf() ==> forall|i: int| 0 <= i < r@.len() ==> (#[trigger] r@[i]).wf(),
    {
        &self.activities
    }

    /// The ids of the activities, in order.
    pub fn ids(&self) -> (r: Vec<ActivityId>)
        ensures
            r@ == ids_of(self@.activities),
    {
        let mut r: Vec<ActivityId> = Vec::new();
        let mut i: usize = 0;
        while i < self.activities.len()
            invariant
                i <= self.activities@.len(),
                r@ == ids_of(self@.activities).take(i as int),
            decreases self.activities@.len() - i,
        {
            r.push(self.activities[i].id());
            i = i + 1;
            assert(r@ =~= ids_of(self@.activities).take(i as int));
        }
        assert(ids_of(self@.activities).take(i as int) =~= ids_of(self@.activities));
        r
    }

    /// Finds the position of the activity with the given id, or returns the error telling
    /// that it does not exist.
    pub(crate) fn position_of(&self, id: ActivityId) -> (r: Result<usize, FelixError>)
        requires
            self.wf(),
        ensures
            r is Ok <==> has_activity(self@.activities, id),
            r matches Ok(p) ==> p < self@.activities.len() && self@.activities[p as int].metadata.id
                == id && index_of_activity(self@.activities, id) == p,
            r matches Err(e) ==> e matches FelixError::DoesNotExist(d) && *d
                == DoesNotExist::Activity(id),
    {
        let mut i: usize = 0;
        while i < self.activities.len()
            invariant
                i <= self.activities@.len(),
                ids_unique(self@.activities),
                forall|k: int| 0 <= k < i ==> (#[trigger] self@.activities[k]).metadata.id != id,
            decreases self.activities@.len() - i,
        {
            if self.activities[i].id() == id {
                proof {
                    assert(self@.activities[i as int].metadata.id == id);
                    assert(has_activity(self@.activities, id));
                    let j = index_of_activity(self@.activities, id);
                    assert(self@.activities[j].metadata.id == id);
                }
                return Ok(i);
            }
            i = i + 1;
        }
        Err(FelixError::DoesNotExist(DoesNotExist::activity_does_not_exist(id)))
    }

    /// Returns a copy of the activity with given id.
    ///
    /// Returns Err if there is no activity with the given id.
    pub fn get_by_id(&self, id: ActivityId) -> (r: Result<Activity, FelixError>)
        requires
            self.wf(),
        ensures
            r is Ok <==> has_activity(self@.activities, id),
            r matches Ok(a) ==> a@ == self@.activities[index_of_activity(self@.activities, id)]
                && a.wf(),
            r matches Err(e) ==> e matches FelixError::DoesNotExist(d) && *d
                == DoesNotExist::Activity(id),
    {
        let p = self.position_of(id)?;
        Ok(self.activities[p].clone())
    }
}

} // verus!

verus! {

/// The ids listed as incompatible with an activity are those of the other activities with
/// which it shares an entity.
proof fn lemma_incompatible_ids_contain(m: ActivityMetadataView, all: Seq<ActivityMetadataView>, id: ActivityId)
    ensures
        incompatible_ids_of(m, all).contains(id) <==> exists|k: int|
            0 <= k < all.len() && (#[trigger] all[k]).id == id && conflicts_with(m, all[k]),
{
    broadcast use vstd::seq_lib::group_filter_ensures;

    let pred = |o: ActivityMetadataView| conflicts_with(m, o);
    let f = all.filter(pred);
    let g = |o: ActivityMetadataView| o.id;
    if incompatible_ids_of(m, all).contains(id) {
        let i = choose|i: int| 0 <= i < f.len() && #[trigger] f.map_values(g)[i] == id;
        assert(pred(f[i]));
        assert(f.contains(f[i]));
        all.lemma_filter_contains_rev(pred, f[i]);
        let k = choose|k: int| 0 <= k < all.len() && all[k] == f[i];
        assert(all[k].id == id);
    }
    if exists|k: int| 0 <= k < all.len() && (#[trigger] all[k]).id == id && conflicts_with(m, all[k]) {
        let k = choose|k: int| 0 <= k < all.len() && (#[trigger] all[k]).id == id && conflicts_with(m, all[k]);
        assert(f.contains(all[k]));
        let i = choose|i: int| 0 <= i < f.len() && f[i] == all[k];
        assert(f.map_values(g)[i] == id);
    }
}

/// Incompatibility is symmetric: an activity lists another as incompatible exactly when the
/// other lists it. An activity is never incompatible with itself.
pub proof fn lemma_incompatibility_symmetric(activities: &Activities, i: int, j: int)
    requires
        activities.wf(),
        0 <= i < activities@.activities.len(),
        0 <= j < activities@.activities.len(),
    ensures
        activities@.activities[i].computation.incompatible_activity_ids.contains(
            activities@.activities[j].metadata.id,
        ) <==> activities@.activities[j].computation.incompatible_activity_ids.contains(
            activities@.activities[i].metadata.id,
        ),
        !activities@.activities[i].computation.incompatible_activity_ids.contains(
            activities@.activities[i].metadata.id,
        ),
{
    activities.lemma_wf();
    let s = activities@.activities;
    let all = metadata_views(s);
    let (mi, mj) = (s[i].metadata, s[j].metadata);
    lemma_incompatible_ids_contain(mi, all, mj.id);
    lemma_incompatible_ids_contain(mj, all, mi.id);
    lemma_incompatible_ids_contain(mi, all, mi.id);
    assert(all[i] == mi && all[j] == mj);
    if s[i].computation.incompatible_activity_ids.contains(mj.id) {
        let k = choose|k: int| 0 <= k < all.len() && (#[trigger] all[k]).id == mj.id && conflicts_with(mi, all[k]);
        assert(s[k].metadata.id == s[j].metadata.id);
        let e = choose|e: Seq<char>| all[k].entities.contains(e) && #[trigger] mi.entities.contains(e);
        assert(shares_element(mi.entities, mj.entities));
    }
    if s[j].computation.incompatible_activity_ids.contains(mi.id) {
        let k = choose|k: int| 0 <= k < all.len() && (#[trigger] all[k]).id == mi.id && conflicts_with(mj, all[k]);
        assert(s[k].metadata.id == s[i].metadata.id);
        let e = choose|e: Seq<char>| all[k].entities.contains(e) && #[trigger] mj.entities.contains(e);
        assert(shares_element(mj.entities, mi.entities));
    }
}

/// The position of an activity only depends on the ids of the activities.
pub proof fn lemma_index_of_same_ids(s: Seq<ActivityView>, t: Seq<ActivityView>, id: ActivityId)
    requires
        ids_unique(s),
        has_activity(s, id),
        s.len() == t.len(),
        forall|i: int| 0 <= i < s.len() ==> (#[trigger] t[i]).metadata.id == s[i].metadata.id,
    ensures
        has_activity(t, id),
        ids_unique(t),
        index_of_activity(t, id) == index_of_activity(s, id),
        activity_with_id(t, id) == t[index_of_activity(s, id)],
{
    let p = index_of_activity(s, id);
    assert(t[p].metadata.id == id);
    let q = index_of_activity(t, id);
    assert(s[q].metadata.id == id);
    assert forall|i: int, j: int|
        0 <= i < t.len() && 0 <= j < t.len() && i != j implies (#[trigger] t[i]).metadata.id != (
        #[trigger] t[j]).metadata.id by {
        assert(s[i].metadata.id != s[j].metadata.id);
    }
}

/// Computing the conflicts of activities whose conflicts are up to date changes nothing.
pub proof fn lemma_refresh_up_to_date(s: Seq<ActivityView>)
    requires
        conflicts_up_to_date(s),
    ensures
        refresh_conflicts(s) == s,
{
    assert(refresh_conflicts(s) =~= s);
}

/// Giving an activity its own metadata changes nothing.
pub proof fn lemma_set_same_metadata(s: Seq<ActivityView>, id: ActivityId)
    requires
        has_activity(s, id),
    ensures
        set_metadata_of(s, id, activity_with_id(s, id).metadata) == s,
{
    assert(set_metadata_of(s, id, activity_with_id(s, id).metadata) =~= s);
}

/// Changing the metadata of an activity twice, computing the conflicts after each change,
/// is the same as the last change alone.
pub proof fn lemma_refresh_set_metadata_twice(
    s: Seq<ActivityView>,
    id: ActivityId,
    m1: ActivityMetadataView,
    m2: ActivityMetadataView,
)
    requires
        ids_unique(s),
        has_activity(s, id),
        m1.id == id,
        m2.id == id,
    ensures
        refresh_conflicts(set_metadata_of(refresh_conflicts(set_metadata_of(s, id, m1)), id, m2))
            == refresh_conflicts(set_metadata_of(s, id, m2)),
{
    let p = index_of_activity(s, id);
    let t = refresh_conflicts(set_metadata_of(s, id, m1));
    assert(s[p].metadata.id == id);
    lemma_index_of_same_ids(s, t, id);
    let a = set_metadata_of(t, id, m2);
    let b = set_metadata_of(s, id, m2);
    assert(metadata_views(a) =~= metadata_views(b));
    assert(refresh_conflicts(a) =~= refresh_conflicts(b));
}

} // verus!

verus! {

/// Filtering metadata whose ids are pairwise distinct keeps the ids pairwise distinct.
proof fn lemma_filtered_ids_unique(
    all: Seq<ActivityMetadataView>,
    pred: spec_fn(ActivityMetadataView) -> bool,
)
    requires
        forall|i: int, j: int|
            0 <= i < all.len() && 0 <= j < all.len() && i != j ==> (#[trigger] all[i]).id != (
            #[trigger] all[j]).id,
    ensures
        all.filter(pred).map_values(|o: ActivityMetadataView| o.id).no_duplicates(),
    decreases all.len(),
{
    reveal_with_fuel(Seq::filter, 1);
    let g = |o: ActivityMetadataView| o.id;
    if all.len() > 0 {
        let t = all.drop_last();
        assert forall|i: int, j: int|
            0 <= i < t.len() && 0 <= j < t.len() && i != j implies (#[trigger] t[i]).id != (
            #[trigger] t[j]).id by {
            assert(t[i] == all[i] && t[j] == all[j]);
        }
        lemma_filtered_ids_unique(t, pred);
        let ft = t.filter(pred);
        if pred(all.last()) {
            assert forall|k: int| 0 <= k < ft.len() implies (#[trigger] ft[k]).id != all.last().id by {
                assert(ft.contains(ft[k]));
                t.lemma_filter_contains_rev(pred, ft[k]);
                let j = choose|j: int| 0 <= j < t.len() && t[j] == ft[k];
                assert(all[j] == t[j]);
            }
            assert(all.filter(pred) =~= ft.push(all.last()));
            assert(all.filter(pred).map_values(g) =~= ft.map_values(g).push(all.last().id));
        } else {
            assert(all.filter(pred) =~= ft);
        }
    }
}

/// The incompatible ids of an activity name each other activity with which it shares an
/// entity, each exactly once, and never the activity itself.
pub proof fn lemma_incompatible_ids_form(activities: &Activities, i: int)
    requires
        activities.wf(),
        0 <= i < activities@.activities.len(),
    ensures
        activities@.activities[i].computation.incompatible_activity_ids.no_duplicates(),
        !activities@.activities[i].computation.incompatible_activity_ids.contains(
            activities@.activities[i].metadata.id,
        ),
        forall|j: int|
            0 <= j < activities@.activities.len() && j != i ==> (
            activities@.activities[i].computation.incompatible_activity_ids.contains(
                (#[trigger] activities@.activities[j]).metadata.id,
            ) <==> shares_element(
                activities@.activities[i].metadata.entities,
                activities@.activities[j].metadata.entities,
            )),
{
    activities.lemma_wf();
    let s = activities@.activities;
    let all = metadata_views(s);
    let mi = s[i].metadata;
    assert forall|a: int, b: int|
        0 <= a < all.len() && 0 <= b < all.len() && a != b implies (#[trigger] all[a]).id != (
        #[trigger] all[b]).id by {
        assert(all[a] == s[a].metadata && all[b] == s[b].metadata);
    }
    lemma_filtered_ids_unique(all, |o: ActivityMetadataView| conflicts_with(mi, o));
    lemma_incompatibility_symmetric(activities, i, i);
    assert forall|j: int| 0 <= j < s.len() && j != i implies (
    s[i].computation.incompatible_activity_ids.contains((#[trigger] s[j]).metadata.id)
        <==> shares_element(mi.entities, s[j].metadata.entities)) by {
        let mj = s[j].metadata;
        lemma_incompatible_ids_contain(mi, all, mj.id);
        assert(all[j] == mj);
        assert(mj.id != mi.id);
        if s[i].computation.incompatible_activity_ids.contains(mj.id) {
            let k = choose|k: int|
                0 <= k < all.len() && (#[trigger] all[k]).id == mj.id && conflicts_with(mi, all[k]);
            assert(all[k] == s[k].metadata);
            assert(k == j);
            let e = choose|e: Seq<char>| all[k].entities.contains(e) && #[trigger] mi.entities.contains(e);
            assert(mj.entities.contains(e));
        }
        if shares_element(mi.entities, mj.entities) {
            let e = choose|e: Seq<char>| mi.entities.contains(e) && #[trigger] mj.entities.contains(e);
            assert(shares_element(mj.entities, mi.entities));
            assert(conflicts_with(mi, all[j]));
        }
    }
}

} // verus!
