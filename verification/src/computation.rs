//! Translation of the activities into the data used to compute their insertion, and back.

use crate::activities::{activity_views, inserted_beginning, Activities, Activity, ActivityView};
use crate::computation_data::{ActivityComputationData, ComputationDataView};
use crate::time::{time_in_range, Time};
use crate::activity_metadata::ActivityId;
use crate::computation_data::InsertionCost;
use crate::errors::FelixError;
use crate::stable_order::{is_stable_order, is_strict_weak_order, lemma_stable_insert};
use std::collections::HashMap;
use vstd::prelude::*;

verus! {

broadcast use vstd::std_specs::hash::group_hash_axioms;

/// A beginning of an activity, in minutes.
pub type ActivityBeginningMinutes = i16;

/// What the insertion of an activity depends on: its possible beginnings (sorted, in minutes),
/// the indexes of the activities with which it is incompatible and its duration (in minutes).
#[derive(Debug, PartialEq, Eq)]
pub struct ActivityComputationStaticData {
    pub possible_insertion_beginnings_minutes_sorted: Vec<ActivityBeginningMinutes>,
    pub indexes_of_incompatible_activities: Vec<usize>,
    pub duration_minutes: i16,
}

/// The abstract value of the computation data of an activity.
pub struct StaticDataView {
    pub possible_insertion_beginnings: Seq<int>,
    pub indexes_of_incompatible_activities: Seq<usize>,
    pub duration: int,
}

impl View for ActivityComputationStaticData {
    type V = StaticDataView;

    open spec fn view(&self) -> StaticDataView {
        StaticDataView {
            possible_insertion_beginnings: self.possible_insertion_beginnings_minutes_sorted@.map_values(
                |m: i16| m as int,
            ),
            indexes_of_incompatible_activities: self.indexes_of_incompatible_activities@,
            duration: self.duration_minutes as int,
        }
    }
}

/// The activity is inserted in the schedule.
pub open spec fn is_inserted(a: ActivityView) -> bool {
    a.computation.insertion_interval is Some
}

/// How hard the activity is to insert: its duration times the number of activities with
/// which it is incompatible.
pub open spec fn insertion_difficulty(a: ActivityView) -> int {
    a.computation.duration * a.computation.incompatible_activity_ids.len()
}

/// The order of computation: inserted activities first, then the activities which are the
/// hardest to insert.
pub open spec fn computation_before(s: Seq<ActivityView>) -> spec_fn(int, int) -> bool {
    |x: int, y: int|
        (is_inserted(s[x]) && !is_inserted(s[y])) || (!is_inserted(s[x]) && !is_inserted(s[y])
            && insertion_difficulty(s[x]) > insertion_difficulty(s[y]))
}

/// `order` is the order in which the activities are handed to the computation: inserted
/// activities first, in their order, then the others from the hardest to insert to the
/// easiest, activities as hard to insert keeping their order.
pub open spec fn is_computation_order(s: Seq<ActivityView>, order: Seq<int>) -> bool {
    is_stable_order(s.len() as int, computation_before(s), order)
}

/// The order of computation is a strict weak order.
proof fn lemma_computation_order(s: Seq<ActivityView>)
    ensures
        is_strict_weak_order(s.len() as int, computation_before(s)),
{
}

/// The order of computation of the activities: the one stable order of `computation_before`.
pub open spec fn computation_order(s: Seq<ActivityView>) -> Seq<int> {
    choose|order: Seq<int>| is_computation_order(s, order)
}

/// There is only one order of computation: any order of computation is `computation_order`.
pub proof fn lemma_computation_order_unique(s: Seq<ActivityView>, order: Seq<int>)
    requires
        is_computation_order(s, order),
    ensures
        is_computation_order(s, computation_order(s)),
        computation_order(s) == order,
{
    lemma_computation_order(s);
    let c = computation_order(s);
    assert(is_computation_order(s, c));
    crate::stable_order::lemma_stable_order_unique(s.len() as int, computation_before(s), c, order);
}

/// True if the first activity is handed to the computation before the second one.
fn computed_before(a: &Activity, b: &Activity) -> (r: bool)
    ensures
        r == ((is_inserted(a@) && !is_inserted(b@)) || (!is_inserted(a@) && !is_inserted(b@)
            && insertion_difficulty(a@) > insertion_difficulty(b@))),
{
    let ia = a.is_inserted();
    let ib = b.is_inserted();
    if ia && !ib {
        return true;
    }
    if ia || ib {
        return false;
    }
    let da = a.duration().total_minutes() as i128;
    let db = b.duration().total_minutes() as i128;
    let na = a.incompatible_activity_ids().len() as i128;
    let nb = b.incompatible_activity_ids().len() as i128;
    assert(-0x8000 <= da < 0x8000 && -0x8000 <= db < 0x8000);
    assert(0 <= na < 0x1_0000_0000_0000_0000 && 0 <= nb < 0x1_0000_0000_0000_0000);
    assert(-0x8000 * 0x1_0000_0000_0000_0000 <= da * na <= 0x8000 * 0x1_0000_0000_0000_0000)
        by (nonlinear_arith)
        requires
            -0x8000 <= da < 0x8000,
            0 <= na < 0x1_0000_0000_0000_0000,
    ;
    assert(-0x8000 * 0x1_0000_0000_0000_0000 <= db * nb <= 0x8000 * 0x1_0000_0000_0000_0000)
        by (nonlinear_arith)
        requires
            -0x8000 <= db < 0x8000,
            0 <= nb < 0x1_0000_0000_0000_0000,
    ;
    da * na > db * nb
}

/// From a slice of activities, returns them in the order which is used for computation:
/// inserted activities first (their insertion is fixed), then the activities which are the
/// hardest to insert.
pub fn activities_sorted_for_computation(activities: &Vec<Activity>) -> (r: Vec<Activity>)
    ensures
        exists|order: Seq<int>|
            is_computation_order(activity_views(activities@), order) && r@.len()
                == activities@.len() && forall|k: int|
                0 <= k < r@.len() ==> (#[trigger] r@[k])@ == activities@[order[k]]@ && r@[k].wf()
                    == activities@[order[k]].wf(),
        is_computation_order(activity_views(activities@), computation_order(activity_views(activities@))),
        r@.len() == activities@.len(),
        forall|k: int|
            0 <= k < r@.len() ==> (#[trigger] r@[k])@ == activities@[computation_order(
                activity_views(activities@),
            )[k]]@,
{
    let ghost s = activity_views(activities@);
    let ghost before = computation_before(s);
    proof {
        lemma_computation_order(s);
    }
    let n = activities.len();
    let mut order: Vec<usize> = Vec::new();
    let mut i: usize = 0;
    assert(order@.map_values(|x: usize| x as int) =~= Seq::<int>::empty());
    while i < n
        invariant
            n == activities@.len(),
            s == activity_views(activities@),
            before == computation_before(s),
            is_strict_weak_order(n as int, before),
            i <= n,
            is_stable_order(i as int, before, order@.map_values(|x: usize| x as int)),
        decreases n - i,
    {
        let ghost o = order@.map_values(|x: usize| x as int);
        assert forall|a: int| 0 <= a < order@.len() implies (#[trigger] order@[a] as int) < n by {
            assert(o[a] == order@[a] as int);
        }
        let mut p: usize = 0;
        while p < order.len() && !computed_before(&activities[i], &activities[order[p]])
            invariant
                n == activities@.len(),
                s == activity_views(activities@),
                before == computation_before(s),
                i < n,
                o == order@.map_values(|x: usize| x as int),
                is_stable_order(i as int, before, o),
                p <= order@.len(),
                forall|a: int| 0 <= a < order@.len() ==> (#[trigger] order@[a] as int) < n,
                forall|a: int| 0 <= a < p ==> !before(i as int, #[trigger] o[a]),
            decreases order@.len() - p,
        {
            p = p + 1;
        }
        proof {
            lemma_stable_insert(n as int, before, o, i as int, p as int);
        }
        order.insert(p, i);
        assert(order@.map_values(|x: usize| x as int) =~= o.insert(p as int, i as int));
        i = i + 1;
    }
    let ghost o = order@.map_values(|x: usize| x as int);
    let mut r: Vec<Activity> = Vec::new();
    let mut k: usize = 0;
    while k < n
        invariant
            n == activities@.len(),
            s == activity_views(activities@),
            o == order@.map_values(|x: usize| x as int),
            is_stable_order(n as int, before, o),
            k <= n,
            r@.len() == k,
            forall|j: int|
                0 <= j < k ==> (#[trigger] r@[j])@ == activities@[o[j]]@ && r@[j].wf()
                    == activities@[o[j]].wf(),
        decreases n - k,
    {
        assert(0 <= o[k as int] < n);
        r.push(activities[order[k]].clone());
        k = k + 1;
    }
    assert(is_computation_order(s, o));
    proof {
        lemma_computation_order_unique(s, o);
    }
    r
}

/// The indexes (among the given ids) of the wanted ids, in ascending order.
pub open spec fn indexes_of(ids: Seq<ActivityId>, wanted: Seq<ActivityId>) -> Seq<usize> {
    Seq::new(ids.len(), |k: int| k as usize).filter(|k: usize| wanted.contains(ids[k as int]))
}

/// Returns the indexes (among the given ids) of the wanted ids, in ascending order.
fn indexes_of_ids(ids: &Vec<ActivityId>, wanted: &Vec<ActivityId>) -> (r: Vec<usize>)
    ensures
        r@ == indexes_of(ids@, wanted@),
{
    let ghost all = Seq::new(ids@.len(), |k: int| k as usize);
    let ghost pred = |k: usize| wanted@.contains(ids@[k as int]);
    let mut r: Vec<usize> = Vec::new();
    let mut i: usize = 0;
    assert(all.take(0).filter(pred) =~= r@);
    while i < ids.len()
        invariant
            i <= ids@.len(),
            all == Seq::new(ids@.len(), |k: int| k as usize),
            pred == (|k: usize| wanted@.contains(ids@[k as int])),
            r@ == all.take(i as int).filter(pred),
        decreases ids@.len() - i,
    {
        let mut found = false;
        let mut j: usize = 0;
        while j < wanted.len()
            invariant
                j <= wanted@.len(),
                i < ids@.len(),
                found == exists|l: int| 0 <= l < j && wanted@[l] == ids@[i as int],
            decreases wanted@.len() - j,
        {
            if wanted[j] == ids[i] {
                found = true;
            }
            j = j + 1;
        }
        proof {
            reveal_with_fuel(Seq::filter, 1);
            assert(all.take(i + 1).drop_last() =~= all.take(i as int));
            assert(all.take(i + 1).last() == i);
            if found {
                let l = choose|l: int| 0 <= l < j && wanted@[l] == ids@[i as int];
                assert(wanted@.contains(ids@[i as int]));
            }
        }
        if found {
            r.push(i);
        }
        i = i + 1;
    }
    assert(all.take(ids@.len() as int) =~= all);
    r
}

/// The computation data of an activity, given the ids of all activities in the order of
/// computation.
pub open spec fn static_data_of(a: ActivityView, sorted_ids: Seq<ActivityId>) -> StaticDataView {
    StaticDataView {
        possible_insertion_beginnings: match a.computation.insertion_costs {
            Some(c) => c.map_values(|x: InsertionCost| x.beginning@),
            None => Seq::empty(),
        },
        indexes_of_incompatible_activities: indexes_of(
            sorted_ids,
            a.computation.incompatible_activity_ids,
        ),
        duration: a.computation.duration,
    }
}

/// The ids of the activities in the given order.
pub open spec fn ids_in_order(s: Seq<ActivityView>, order: Seq<int>) -> Seq<ActivityId> {
    Seq::new(order.len(), |k: int| s[order[k]].metadata.id)
}

/// The activities in the given order.
pub open spec fn in_order(s: Seq<ActivityView>, order: Seq<int>) -> Seq<ActivityView> {
    Seq::new(order.len(), |k: int| s[order[k]])
}

/// The beginnings of the inserted activities, in order.
pub open spec fn inserted_beginnings(s: Seq<ActivityView>) -> Seq<int> {
    s.filter(|a: ActivityView| is_inserted(a)).map_values(|a: ActivityView| inserted_beginning(a))
}

/// Returns data ready for the insertion of all activities: for each activity in the order of
/// computation, its computation data (the ids of incompatible activities are turned into
/// indexes in that order); and the beginnings of the inserted activities, which come first.
pub fn activities_into_computation_data(activities: &Vec<Activity>) -> (r: (
    Vec<ActivityComputationStaticData>,
    Vec<ActivityBeginningMinutes>,
))
    requires
        forall|i: int|
            0 <= i < activities@.len() ==> (#[trigger] activities@[i]).wf() && activities@[i]@.computation.insertion_costs is Some,
    ensures
        exists|order: Seq<int>|
            is_computation_order(activity_views(activities@), order) && r.0@.len()
                == activities@.len() && (forall|k: int|
                0 <= k < r.0@.len() ==> (#[trigger] r.0@[k])@ == static_data_of(
                    activity_views(activities@)[order[k]],
                    ids_in_order(activity_views(activities@), order),
                )) && r.1@.map_values(|m: i16| m as int) == inserted_beginnings(
                in_order(activity_views(activities@), order),
            ),
{
    let ghost s = activity_views(activities@);
    let sorted = activities_sorted_for_computation(activities);
    let ghost order = choose|order: Seq<int>|
        is_computation_order(s, order) && sorted@.len() == activities@.len() && forall|k: int|
            0 <= k < sorted@.len() ==> (#[trigger] sorted@[k])@ == activities@[order[k]]@
                && sorted@[k].wf() == activities@[order[k]].wf();
    let n = sorted.len();
    let mut ids: Vec<ActivityId> = Vec::new();
    let mut i: usize = 0;
    while i < n
        invariant
            n == sorted@.len(),
            n == s.len(),
            ids@.len() == i,
            i <= n,
            forall|k: int| 0 <= k < i ==> ids@[k] == (#[trigger] sorted@[k])@.metadata.id,
        decreases n - i,
    {
        ids.push(sorted[i].id());
        i = i + 1;
    }
    proof {
        assert(ids@ =~= ids_in_order(s, order)) by {
            assert forall|k: int| 0 <= k < n implies ids@[k] == ids_in_order(s, order)[k] by {
                assert(sorted@[k]@ == activities@[order[k]]@);
            }
        }
        assert(in_order(s, order) =~= activity_views(sorted@)) by {
            assert forall|k: int| 0 <= k < n implies in_order(s, order)[k] == activity_views(sorted@)[k] by {
                assert(sorted@[k]@ == activities@[order[k]]@);
            }
        }
    }
    let ghost t = activity_views(sorted@);
    let ghost ins = |a: ActivityView| is_inserted(a);
    let ghost beg = |a: ActivityView| inserted_beginning(a);
    let mut static_data_vec: Vec<ActivityComputationStaticData> = Vec::new();
    let mut insertion_data_vec: Vec<ActivityBeginningMinutes> = Vec::new();
    let mut j: usize = 0;
    assert(t.take(0).filter(ins).map_values(beg) =~= insertion_data_vec@.map_values(|m: i16| m as int));
    while j < n
        invariant
            n == sorted@.len(),
            n == s.len(),
            j <= n,
            t == activity_views(sorted@),
            s == activity_views(activities@),
            ins == (|a: ActivityView| is_inserted(a)),
            beg == (|a: ActivityView| inserted_beginning(a)),
            ids@ == ids_in_order(s, order),
            forall|k: int|
                0 <= k < n ==> (#[trigger] sorted@[k])@ == activities@[order[k]]@ && sorted@[k].wf(),
            forall|k: int| 0 <= k < n ==> 0 <= #[trigger] order[k] < n,
            forall|i: int|
                0 <= i < activities@.len() ==> (#[trigger] activities@[i]).wf() && activities@[i]@.computation.insertion_costs is Some,
            static_data_vec@.len() == j,
            forall|k: int|
                0 <= k < j ==> (#[trigger] static_data_vec@[k])@ == static_data_of(
                    s[order[k]],
                    ids_in_order(s, order),
                ),
            insertion_data_vec@.map_values(|m: i16| m as int) == t.take(j as int).filter(ins).map_values(beg),
        decreases n - j,
    {
        let activity = &sorted[j];
        let incompatible_ids = activity.incompatible_activity_ids();
        let incompatible_indexes = indexes_of_ids(&ids, &incompatible_ids);
        let costs = activity.insertion_costs();
        let mut beginnings: Vec<ActivityBeginningMinutes> = Vec::new();
        match costs {
            Some(c) => {
                let mut l: usize = 0;
                while l < c.len()
                    invariant
                        l <= c@.len(),
                        beginnings@.len() == l,
                        forall|q: int| 0 <= q < l ==> beginnings@[q] as int == (#[trigger] c@[q]).beginning@,
                    decreases c@.len() - l,
                {
                    beginnings.push(c[l].beginning.total_minutes());
                    l = l + 1;
                }
                assert(beginnings@.map_values(|m: i16| m as int) =~= c@.map_values(
                    |x: InsertionCost| x.beginning@,
                ));
            },
            None => {
                assert(beginnings@.map_values(|m: i16| m as int) =~= Seq::<int>::empty());
            },
        }
        let static_data = ActivityComputationStaticData {
            possible_insertion_beginnings_minutes_sorted: beginnings,
            indexes_of_incompatible_activities: incompatible_indexes,
            duration_minutes: activity.duration().total_minutes(),
        };
        proof {
            let e = static_data_of(s[order[j as int]], ids_in_order(s, order));
            assert(0 <= order[j as int] < n);
            assert(s[order[j as int]] == activities@[order[j as int]]@);
            assert(sorted@[j as int]@ == s[order[j as int]]);
            assert(static_data@.possible_insertion_beginnings =~= e.possible_insertion_beginnings);
            assert(static_data@.indexes_of_incompatible_activities =~= e.indexes_of_incompatible_activities);
            assert(static_data@ == e);
        }
        static_data_vec.push(static_data);
        proof {
            reveal_with_fuel(Seq::filter, 1);
            assert(t.take(j + 1).drop_last() =~= t.take(j as int));
            assert(t.take(j + 1).last() == t[j as int]);
        }
        let ghost before_push = insertion_data_vec@;
        match activity.insertion_interval() {
            Some(interval) => {
                let b = interval.beginning().total_minutes();
                insertion_data_vec.push(b);
                proof {
                    assert(ins(t[j as int]));
                    assert(t.take(j + 1).filter(ins) == t.take(j as int).filter(ins).push(t[j as int]));
                    assert(beg(t[j as int]) == b as int);
                    assert(insertion_data_vec@ == before_push.push(b));
                    assert(insertion_data_vec@.map_values(|m: i16| m as int) =~= before_push.map_values(|m: i16| m as int).push(b as int));
                    assert(t.take(j + 1).filter(ins).map_values(beg) =~= t.take(j as int).filter(ins).map_values(beg).push(beg(t[j as int])));
                }
            },
            None => {
                proof {
                    assert(!ins(t[j as int]));
                    assert(t.take(j + 1).filter(ins) == t.take(j as int).filter(ins));
                }
            },
        }
        j = j + 1;
    }
    assert(t.take(n as int) =~= t);
    (static_data_vec, insertion_data_vec)
}

/// The id of the activity at each index of the order of computation.
pub open spec fn index_to_id(s: Seq<ActivityView>) -> Map<usize, ActivityId> {
    Map::new(|k: usize| k < s.len(), |k: usize| s[computation_order(s)[k as int]].metadata.id)
}

/// Given activities, returns the index -> id conversion performed when activities are turned
/// into computation data.
pub fn index_to_id_map(activities: &Vec<Activity>) -> (r: HashMap<usize, ActivityId>)
    ensures
        exists|order: Seq<int>|
            is_computation_order(activity_views(activities@), order) && r@ == Map::new(
                |k: usize| k < activities@.len(),
                |k: usize| activities@[order[k as int]]@.metadata.id,
            ),
        r@ == index_to_id(activity_views(activities@)),
{
    let sorted = activities_sorted_for_computation(activities);
    let ghost order = choose|order: Seq<int>|
        is_computation_order(activity_views(activities@), order) && sorted@.len()
            == activities@.len() && forall|k: int|
            0 <= k < sorted@.len() ==> (#[trigger] sorted@[k])@ == activities@[order[k]]@
                && sorted@[k].wf() == activities@[order[k]].wf();
    proof {
        lemma_computation_order_unique(activity_views(activities@), order);
    }
    let mut map: HashMap<usize, ActivityId> = HashMap::new();
    let mut i: usize = 0;
    while i < sorted.len()
        invariant
            i <= sorted@.len(),
            sorted@.len() == activities@.len(),
            forall|k: int| 0 <= k < sorted@.len() ==> (#[trigger] sorted@[k])@ == activities@[order[k]]@,
            map@ == Map::new(
                |k: usize| k < i,
                |k: usize| activities@[order[k as int]]@.metadata.id,
            ),
        decreases sorted@.len() - i,
    {
        map.insert(i, sorted[i].id());
        i = i + 1;
        assert(map@ =~= Map::new(
            |k: usize| k < i,
            |k: usize| activities@[order[k as int]]@.metadata.id,
        ));
    }
    map
}

/// Given activities, returns the id -> index conversion performed when activities are turned
/// into computation data.
pub fn id_to_index_map(activities: &Vec<Activity>) -> (r: HashMap<ActivityId, usize>)
    requires
        crate::activities::ids_unique(activity_views(activities@)),
    ensures
        exists|order: Seq<int>|
            is_computation_order(activity_views(activities@), order) && r@ == Map::new(
                |id: ActivityId|
                    exists|k: int| 0 <= k < order.len() && activities@[order[k]]@.metadata.id == id,
                |id: ActivityId|
                    (choose|k: int|
                        0 <= k < order.len() && activities@[order[k]]@.metadata.id == id) as usize,
            ),
        r@.len() == activities@.len(),
        forall|k: usize|
            k < activities@.len() ==> r@.contains_key(
                #[trigger] index_to_id(activity_views(activities@))[k],
            ) && r@[index_to_id(activity_views(activities@))[k]] == k,
        forall|id: ActivityId|
            #[trigger] r@.contains_key(id) ==> index_to_id(activity_views(activities@)).contains_key(
                r@[id],
            ) && index_to_id(activity_views(activities@))[r@[id]] == id,
{
    let sorted = activities_sorted_for_computation(activities);
    let ghost s = activity_views(activities@);
    let ghost order = choose|order: Seq<int>|
        is_computation_order(s, order) && sorted@.len() == activities@.len() && forall|k: int|
            0 <= k < sorted@.len() ==> (#[trigger] sorted@[k])@ == activities@[order[k]]@
                && sorted@[k].wf() == activities@[order[k]].wf();
    let ghost target = Map::new(
        |id: ActivityId| exists|k: int| 0 <= k < order.len() && activities@[order[k]]@.metadata.id == id,
        |id: ActivityId| (choose|k: int| 0 <= k < order.len() && activities@[order[k]]@.metadata.id == id) as usize,
    );
    let mut map: HashMap<ActivityId, usize> = HashMap::new();
    let mut i: usize = 0;
    while i < sorted.len()
        invariant
            i <= sorted@.len(),
            sorted@.len() == activities@.len(),
            order.len() == activities@.len(),
            s == activity_views(activities@),
            crate::activities::ids_unique(s),
            is_computation_order(s, order),
            forall|k: int| 0 <= k < sorted@.len() ==> (#[trigger] sorted@[k])@ == activities@[order[k]]@,
            target == Map::new(
                |id: ActivityId| exists|k: int| 0 <= k < order.len() && activities@[order[k]]@.metadata.id == id,
                |id: ActivityId| (choose|k: int| 0 <= k < order.len() && activities@[order[k]]@.metadata.id == id) as usize,
            ),
            forall|id: ActivityId| #[trigger] map@.contains_key(id) <==> exists|k: int| 0 <= k < i && activities@[order[k]]@.metadata.id == id,
            forall|id: ActivityId| #[trigger] map@.contains_key(id) ==> map@[id] == target[id],
        decreases sorted@.len() - i,
    {
        let id = sorted[i].id();
        proof {
            assert(activities@[order[i as int]]@.metadata.id == id);
            assert(target.dom().contains(id));
            let k = target[id] as int;
            assert(0 <= k < order.len() && activities@[order[k]]@.metadata.id == id);
            if k != i {
                assert(order[k] != order[i as int]);
                assert(s[order[k]].metadata.id != s[order[i as int]].metadata.id);
            }
        }
        map.insert(id, i);
        i = i + 1;
    }
    assert(map@ =~= target) by {
        assert forall|id: ActivityId| target.dom().contains(id) implies map@.contains_key(id) by {
            let k = choose|k: int| 0 <= k < order.len() && activities@[order[k]]@.metadata.id == id;
        }
    }
    proof {
        lemma_computation_order_unique(s, order);
        assert(index_to_id(s) =~= Map::new(
            |k: usize| k < activities@.len(),
            |k: usize| activities@[order[k as int]]@.metadata.id,
        ));
        lemma_index_maps_inverse(activities@, index_to_id(s), map@);
    }
    map
}

/// The work hours of an entity and the durations of its activities (sorted): what the
/// possible beginnings of its activities are computed from.
#[derive(Debug, Clone, PartialEq, Eq, Hash)]
pub struct WorkHoursAndActivityDurationsSorted {
    pub work_hours: Vec<crate::time_interval::TimeInterval>,
    pub activity_durations: Vec<crate::time::Time>,
}

impl WorkHoursAndActivityDurationsSorted {
    /// Keeps the work hours and sorts the durations.
    pub fn new(
        work_hours: Vec<crate::time_interval::TimeInterval>,
        activity_durations: Vec<crate::time::Time>,
    ) -> (r: WorkHoursAndActivityDurationsSorted)
        ensures
            r.work_hours@ == work_hours@,
            crate::sort::sorted_times(r.activity_durations@),
            r.activity_durations@.to_multiset() == activity_durations@.to_multiset(),
    {
        WorkHoursAndActivityDurationsSorted {
            work_hours,
            activity_durations: crate::sort::sort_times(activity_durations),
        }
    }

    /// The work hours, in minutes.
    pub fn work_hours_in_minutes(&self) -> (r: Vec<(i16, i16)>)
        ensures
            r@.len() == self.work_hours@.len(),
            forall|k: int|
                0 <= k < r@.len() ==> (#[trigger] r@[k]).0 as int == self.work_hours@[k]@.0
                    && r@[k].1 as int == self.work_hours@[k]@.1,
    {
        let mut r: Vec<(i16, i16)> = Vec::new();
        let mut i: usize = 0;
        while i < self.work_hours.len()
            invariant
                i <= self.work_hours@.len(),
                r@.len() == i,
                forall|k: int|
                    0 <= k < i ==> (#[trigger] r@[k]).0 as int == self.work_hours@[k]@.0
                        && r@[k].1 as int == self.work_hours@[k]@.1,
            decreases self.work_hours@.len() - i,
        {
            let w = self.work_hours[i];
            r.push((w.beginning().total_minutes(), w.end().total_minutes()));
            i = i + 1;
        }
        r
    }

    /// The durations of the activities, in minutes.
    pub fn activity_durations_in_minutes(&self) -> (r: Vec<i16>)
        ensures
            r@.len() == self.activity_durations@.len(),
            forall|k: int| 0 <= k < r@.len() ==> (#[trigger] r@[k]) as int == self.activity_durations@[k]@,
    {
        let mut r: Vec<i16> = Vec::new();
        let mut i: usize = 0;
        while i < self.activity_durations.len()
            invariant
                i <= self.activity_durations@.len(),
                r@.len() == i,
                forall|k: int| 0 <= k < i ==> (#[trigger] r@[k]) as int == self.activity_durations@[k]@,
            decreases self.activity_durations@.len() - i,
        {
            r.push(self.activity_durations[i].total_minutes());
            i = i + 1;
        }
        r
    }
}

/// The activities once the beginnings computed for them (in the order of computation) are
/// applied: the activity at position `order[k]` is inserted at `beginnings[k]`.
pub open spec fn with_beginnings(
    s: Seq<ActivityView>,
    order: Seq<int>,
    beginnings: Seq<int>,
) -> Seq<ActivityView> {
    Seq::new(
        s.len(),
        |i: int|
            if exists|k: int| 0 <= k < beginnings.len() && order[k] == i {
                let k = choose|k: int| 0 <= k < beginnings.len() && order[k] == i;
                ActivityView {
                    metadata: s[i].metadata,
                    computation: ComputationDataView {
                        insertion_interval: Some(
                            (beginnings[k], beginnings[k] + s[i].computation.duration),
                        ),
                        ..s[i].computation
                    },
                }
            } else {
                s[i]
            },
    )
}

/// The beginnings fit in a day with the durations of the activities they are computed for.
pub open spec fn beginnings_fit(s: Seq<ActivityView>, beginnings: Seq<int>) -> bool {
    forall|order: Seq<int>|
        is_computation_order(s, order) ==> forall|k: int|
            0 <= k < beginnings.len() ==> time_in_range(#[trigger] beginnings[k]) && time_in_range(
                beginnings[k] + s[order[k]].computation.duration,
            )
}

/// The computation data of an activity, where the ids of the incompatible activities are
/// turned into their positions among the given ids.
pub open spec fn with_indexes(c: ComputationDataView, ids: Seq<ActivityId>) -> ComputationDataView {
    ComputationDataView {
        incompatible_activity_ids: indexes_of(ids, c.incompatible_activity_ids),
        ..c
    }
}

impl Activities {
    /// Applies the result of the insertion computation: the beginning at position `k` is that
    /// of the activity at position `k` in the order of computation.
    pub fn overwrite_insertion_data(&mut self, insertion_data: Vec<ActivityBeginningMinutes>)
        requires
            old(self).wf(),
            insertion_data@.len() <= old(self)@.activities.len(),
            beginnings_fit(old(self)@.activities, insertion_data@.map_values(|m: i16| m as int)),
        ensures
            final(self).wf(),
            final(self)@.removed_because_duration_increased == old(
                self,
            )@.removed_because_duration_increased,
            exists|order: Seq<int>|
                is_computation_order(old(self)@.activities, order) && final(self)@.activities
                    == with_beginnings(
                    old(self)@.activities,
                    order,
                    insertion_data@.map_values(|m: i16| m as int),
                ),
    {
        let ghost s = self@.activities;
        let ghost data = insertion_data@.map_values(|m: i16| m as int);
        proof {
            self.lemma_wf();
        }
        let all = self.get_not_sorted();
        let sorted = activities_sorted_for_computation(all);
        let ghost order = choose|order: Seq<int>|
            is_computation_order(activity_views(all@), order) && sorted@.len() == all@.len() && forall|k: int|
                0 <= k < sorted@.len() ==> (#[trigger] sorted@[k])@ == all@[order[k]]@
                    && sorted@[k].wf() == all@[order[k]].wf();
        proof {
            assert forall|j: int| 0 <= j < sorted@.len() implies (#[trigger] sorted@[j])@ == s[order[j]] by {
                assert(0 <= order[j] < s.len());
                assert(s[order[j]] == all@[order[j]]@);
            }
        }
        proof {
            assert(with_beginnings(s, order, data.take(0)) =~= s);
        }
        let mut k: usize = 0;
        while k < insertion_data.len()
            invariant
                self.wf(),
                k <= insertion_data@.len(),
                insertion_data@.len() <= s.len(),
                data == insertion_data@.map_values(|m: i16| m as int),
                is_computation_order(s, order),
                sorted@.len() == s.len(),
                forall|j: int| 0 <= j < sorted@.len() ==> (#[trigger] sorted@[j])@ == s[order[j]],
                crate::activities::ids_unique(s),
                beginnings_fit(s, data),
                self@.removed_because_duration_increased == old(self)@.removed_because_duration_increased,
                self@.activities == with_beginnings(s, order, data.take(k as int)),
            decreases insertion_data@.len() - k,
        {
            let id = sorted[k].id();
            let b = Time::from_total_minutes(insertion_data[k]);
            let ghost cur = self@.activities;
            let ghost p = order[k as int];
            proof {
                assert(0 <= p < s.len());
                assert(s[p].metadata.id == id);
                assert(cur.len() == s.len());
                assert forall|i: int| 0 <= i < s.len() implies (#[trigger] cur[i]).metadata.id == s[i].metadata.id by {}
                crate::activities::lemma_index_of_same_ids(s, s, id);
                crate::activities::lemma_index_of_same_ids(s, cur, id);
                assert(data[k as int] == b@);
                assert(cur[p].computation.duration == s[p].computation.duration);
            }
            let _ = self.insert_activity(id, Some(b));
            proof {
                let t = self@.activities;
                let next = with_beginnings(s, order, data.take(k + 1));
                assert forall|i: int| 0 <= i < s.len() implies #[trigger] t[i] == next[i] by {
                    let e_prev = exists|j: int| 0 <= j < data.take(k as int).len() && order[j] == i;
                    let e_next = exists|j: int| 0 <= j < data.take(k + 1).len() && order[j] == i;
                    if i == p {
                        assert(order[k as int] == i);
                        assert(data.take(k + 1)[k as int] == b@);
                        if e_prev {
                            let j = choose|j: int| 0 <= j < data.take(k as int).len() && order[j] == i;
                            assert(order[j] == order[k as int]);
                        }
                        let j = choose|j: int| 0 <= j < data.take(k + 1).len() && order[j] == i;
                        if j != k {
                            assert(order[j] != order[k as int]);
                        }
                    } else {
                        if e_next {
                            let j = choose|j: int| 0 <= j < data.take(k + 1).len() && order[j] == i;
                            assert(j != k);
                            assert(data.take(k as int)[j] == data.take(k + 1)[j]);
                        }
                        if e_prev {
                            let j = choose|j: int| 0 <= j < data.take(k as int).len() && order[j] == i;
                            assert(data.take(k as int)[j] == data.take(k + 1)[j]);
                        }
                    }
                }
                assert(t =~= next);
            }
            k = k + 1;
        }
        proof {
            assert(data.take(insertion_data@.len() as int) =~= data);
        }
    }

    /// Returns the computation data of the activities, in their order, where the ids of the
    /// incompatible activities are turned into their positions.
    pub fn fetch_computation(&self) -> (r: Vec<ActivityComputationData>)
        ensures
            r@.len() == self@.activities.len(),
            forall|k: int|
                0 <= k < r@.len() ==> (#[trigger] r@[k])@ == with_indexes(
                    self@.activities[k].computation,
                    crate::activities::ids_of(self@.activities),
                ),
    {
        let ids = self.ids();
        let acts = self.get_not_sorted();
        let mut r: Vec<ActivityComputationData> = Vec::new();
        let mut i: usize = 0;
        while i < acts.len()
            invariant
                i <= acts@.len(),
                ids@ == crate::activities::ids_of(self@.activities),
                activity_views(acts@) == self@.activities,
                r@.len() == i,
                forall|k: int|
                    0 <= k < i ==> (#[trigger] r@[k])@ == with_indexes(
                        self@.activities[k].computation,
                        ids@,
                    ),
            decreases acts@.len() - i,
        {
            let mut data = acts[i].computation_data().clone();
            let incompatible = data.incompatible_activity_ids();
            let indexes = indexes_of_ids(&ids, &incompatible);
            data.set_incompatible_activity_ids(indexes);
            proof {
                assert(self@.activities[i as int] == acts@[i as int]@);
            }
            r.push(data);
            i = i + 1;
        }
        r
    }
}

/// The time is among the given times.
pub open spec fn times_contain(s: Seq<Time>, t: int) -> bool {
    exists|j: int| 0 <= j < s.len() && (#[trigger] s[j])@ == t
}

/// The time is a possible beginning for every participant.
pub open spec fn possible_for_all(possible: Seq<Vec<Time>>, t: int) -> bool {
    possible.len() > 0 && forall|p: int| 0 <= p < possible.len() ==> times_contain((#[trigger] possible[p])@, t)
}

/// True if the time is among the given times.
fn contains_time(v: &Vec<Time>, t: Time) -> (b: bool)
    ensures
        b == times_contain(v@, t@),
{
    let mut j: usize = 0;
    while j < v.len()
        invariant
            j <= v@.len(),
            forall|k: int| 0 <= k < j ==> (#[trigger] v@[k])@ != t@,
        decreases v@.len() - j,
    {
        if v[j].same_as(&t) {
            return true;
        }
        j = j + 1;
    }
    false
}

/// Fuses the possible beginnings of all the participants of an activity (one list per
/// participant): the beginnings which are possible for every participant, sorted, each with
/// the cost 0. Without participants, there is no possible beginning.
pub fn merge_beginnings_of_all_participants(possible: &Vec<Vec<Time>>) -> (r: Vec<InsertionCost>)
    ensures
        crate::computation_data::costs_sorted(r@),
        forall|k: int| 0 <= k < r@.len() ==> (#[trigger] r@[k]).cost == 0,
        forall|t: int|
            crate::computation_data::costs_contain_beginning(r@, t) <==> possible_for_all(
                possible@,
                t,
            ),
{
    let mut r: Vec<InsertionCost> = Vec::new();
    if possible.len() == 0 {
        return r;
    }
    let first = possible[0].clone();
    let candidates = crate::sort::sort_times(first);
    proof {
        assert(possible[0]@ =~= possible@[0]@);
        assert forall|t: int| times_contain(candidates@, t) <==> times_contain(possible@[0]@, t) by {
            if times_contain(candidates@, t) {
                let j = choose|j: int| 0 <= j < candidates@.len() && (#[trigger] candidates@[j])@ == t;
                vstd::seq_lib::to_multiset_contains(candidates@, candidates@[j]);
                vstd::seq_lib::to_multiset_contains(possible@[0]@, candidates@[j]);
                assert(candidates@.contains(candidates@[j]));
                assert(candidates@.to_multiset().count(candidates@[j]) > 0);
                assert(possible@[0]@.to_multiset().count(candidates@[j]) > 0);
                assert(possible@[0]@.contains(candidates@[j]));
            }
            if times_contain(possible@[0]@, t) {
                let j = choose|j: int| 0 <= j < possible@[0]@.len() && (#[trigger] possible@[0]@[j])@ == t;
                vstd::seq_lib::to_multiset_contains(candidates@, possible@[0]@[j]);
                vstd::seq_lib::to_multiset_contains(possible@[0]@, possible@[0]@[j]);
                assert(possible@[0]@.contains(possible@[0]@[j]));
                assert(possible@[0]@.to_multiset().count(possible@[0]@[j]) > 0);
                assert(candidates@.contains(possible@[0]@[j]));
            }
        }
    }
    let mut i: usize = 0;
    while i < candidates.len()
        invariant
            i <= candidates@.len(),
            possible@.len() > 0,
            crate::sort::sorted_times(candidates@),
            forall|t: int| times_contain(candidates@, t) <==> times_contain(possible@[0]@, t),
            crate::computation_data::costs_sorted(r@),
            forall|k: int| 0 <= k < r@.len() ==> (#[trigger] r@[k]).cost == 0,
            forall|k: int| 0 <= k < r@.len() ==> possible_for_all(possible@, (#[trigger] r@[k]).beginning@),
            forall|k: int| 0 <= k < r@.len() ==> exists|j: int| 0 <= j < i && (#[trigger] r@[k]).beginning@ == candidates@[j]@,
            r@.len() > 0 && i > 0 ==> r@.last().beginning@ <= candidates@[i - 1]@,
            forall|j: int| 0 <= j < i && possible_for_all(possible@, (#[trigger] candidates@[j])@) ==> crate::computation_data::costs_contain_beginning(r@, candidates@[j]@),
        decreases candidates@.len() - i,
    {
        let t = candidates[i];
        let duplicate = r.len() > 0 && r[r.len() - 1].beginning.same_as(&t);
        if !duplicate {
            let mut all = true;
            let mut p: usize = 1;
            while p < possible.len()
                invariant
                    1 <= p <= possible@.len(),
                    all == forall|q: int| 1 <= q < p ==> times_contain((#[trigger] possible@[q])@, t@),
                decreases possible@.len() - p,
            {
                if !contains_time(&possible[p], t) {
                    all = false;
                }
                p = p + 1;
            }
            proof {
                assert(times_contain(candidates@, t@));
                assert(times_contain(possible@[0]@, t@));
                assert(all == possible_for_all(possible@, t@)) by {
                    if all {
                        assert forall|q: int| 0 <= q < possible@.len() implies times_contain((#[trigger] possible@[q])@, t@) by {
                            if q == 0 {
                            }
                        }
                    }
                }
            }
            if all {
                let ghost old_r = r@;
                proof {
                    if old_r.len() > 0 {
                        assert(old_r.last().beginning@ <= candidates@[i - 1]@);
                        assert(candidates@[i - 1]@ <= t@);
                        assert(old_r.last().beginning@ != t@);
                    }
                }
                r.push(InsertionCost { beginning: t, cost: 0 });
                proof {
                    assert forall|a: int, b: int| 0 <= a < b < r@.len() implies (#[trigger] r@[a]).beginning@ < (#[trigger] r@[b]).beginning@ by {
                        if b == r@.len() - 1 && a < b {
                            if a < old_r.len() - 1 {
                                assert(old_r[a].beginning@ < old_r.last().beginning@);
                            }
                        }
                    }
                    assert forall|k: int| 0 <= k < r@.len() implies exists|j: int| 0 <= j < i + 1 && (#[trigger] r@[k]).beginning@ == candidates@[j]@ by {
                        if k < old_r.len() {
                            let j = choose|j: int| 0 <= j < i && old_r[k].beginning@ == candidates@[j]@;
                        } else {
                            assert(r@[k].beginning@ == candidates@[i as int]@);
                        }
                    }
                    assert forall|j: int| 0 <= j < i + 1 && possible_for_all(possible@, (#[trigger] candidates@[j])@) implies crate::computation_data::costs_contain_beginning(r@, candidates@[j]@) by {
                        if j < i {
                            let k = choose|k: int| 0 <= k < old_r.len() && (#[trigger] old_r[k]).beginning@ == candidates@[j]@;
                            assert(r@[k] == old_r[k]);
                        } else {
                            assert(r@[r@.len() - 1].beginning@ == candidates@[j]@);
                        }
                    }
                }
            } else {
                proof {
                    assert forall|j: int| 0 <= j < i + 1 && possible_for_all(possible@, (#[trigger] candidates@[j])@) implies crate::computation_data::costs_contain_beginning(r@, candidates@[j]@) by {
                        if j == i {
                            assert(false);
                        }
                    }
                    assert forall|k: int| 0 <= k < r@.len() implies exists|j: int| 0 <= j < i + 1 && (#[trigger] r@[k]).beginning@ == candidates@[j]@ by {
                        let j = choose|j: int| 0 <= j < i && r@[k].beginning@ == candidates@[j]@;
                    }
                }
            }
        } else {
            proof {
                assert forall|j: int| 0 <= j < i + 1 && possible_for_all(possible@, (#[trigger] candidates@[j])@) implies crate::computation_data::costs_contain_beginning(r@, candidates@[j]@) by {
                    if j == i {
                        assert(r@[r@.len() - 1].beginning@ == candidates@[j]@);
                    }
                }
                assert forall|k: int| 0 <= k < r@.len() implies exists|j: int| 0 <= j < i + 1 && (#[trigger] r@[k]).beginning@ == candidates@[j]@ by {
                    let j = choose|j: int| 0 <= j < i && r@[k].beginning@ == candidates@[j]@;
                }
            }
        }
        proof {
            if r@.len() > 0 {
                let k = r@.len() - 1;
                let j = choose|j: int| 0 <= j < i + 1 && r@[k].beginning@ == candidates@[j]@;
                assert(candidates@[j]@ <= candidates@[i as int]@);
            }
        }
        i = i + 1;
    }
    proof {
        assert forall|t: int| crate::computation_data::costs_contain_beginning(r@, t) <==> possible_for_all(possible@, t) by {
            if crate::computation_data::costs_contain_beginning(r@, t) {
                let k = choose|k: int| 0 <= k < r@.len() && (#[trigger] r@[k]).beginning@ == t;
            }
            if possible_for_all(possible@, t) {
                assert(times_contain(possible@[0]@, t));
                assert(times_contain(candidates@, t));
                let j = choose|j: int| 0 <= j < candidates@.len() && (#[trigger] candidates@[j])@ == t;
            }
        }
    }
    r
}

} // verus!

verus! {

/// An inserted activity with the interval `iv` rules out the beginning `t` of an incompatible
/// activity lasting `d` minutes: from the first beginning at which the activity would end
/// after the start of `iv` (when that beginning is after midnight), every
/// `MIN_TIME_DISCRETIZATION_MINUTES` minutes, up to the end of `iv`.
pub open spec fn ruled_out_by(iv: (int, int), d: int, t: int) -> bool {
    let offset = d - crate::time::MIN_TIME_DISCRETIZATION_MINUTES;
    &&& iv.0 > offset
    &&& iv.0 - offset <= t < iv.1
    &&& (t - (iv.0 - offset)) % (crate::time::MIN_TIME_DISCRETIZATION_MINUTES as int) == 0
}

/// One of the activities with the given ids is inserted so that it rules out the beginning `t`
/// of an activity lasting `d` minutes.
pub open spec fn in_conflict(s: Seq<ActivityView>, ids: Seq<ActivityId>, d: int, t: int) -> bool {
    exists|k: int|
        0 <= k < ids.len() && rules_out(
            #[trigger] crate::activities::activity_with_id(s, ids[k]),
            d,
            t,
        )
}

/// The activity is inserted so that it rules out the beginning `t` of an incompatible activity
/// lasting `d` minutes.
pub open spec fn rules_out(a: ActivityView, d: int, t: int) -> bool {
    a.computation.insertion_interval matches Some(iv) && ruled_out_by(iv, d, t)
}

/// The beginnings that every participant can take, without those ruled out by the inserted
/// incompatible activities.
pub open spec fn free_beginnings(
    s: Seq<ActivityView>,
    possible: Seq<Vec<Time>>,
    ids: Seq<ActivityId>,
    d: int,
    t: int,
) -> bool {
    possible_for_all(possible, t) && !in_conflict(s, ids, d, t)
}

impl Activities {
    /// True if one of the activities with the given ids is inserted so that it rules out the
    /// beginning `time` for an activity of the given duration.
    fn is_ruled_out(&self, incompatible_activity_ids: &Vec<ActivityId>, duration: Time, time: Time) -> (b:
        bool)
        requires
            self.wf(),
            time_in_range(duration@),
            time_in_range(time@),
            forall|k: int|
                0 <= k < incompatible_activity_ids@.len() ==> crate::activities::has_activity(
                    self@.activities,
                    #[trigger] incompatible_activity_ids@[k],
                ),
        ensures
            b == in_conflict(self@.activities, incompatible_activity_ids@, duration@, time@),
    {
        proof {
            self.lemma_wf();
        }
        let offset: i32 = (duration.total_minutes() as i32) - (
        crate::time::MIN_TIME_DISCRETIZATION_MINUTES as i32);
        let t: i32 = time.total_minutes() as i32;
        let acts = self.get_not_sorted();
        let mut k: usize = 0;
        while k < incompatible_activity_ids.len()
            invariant
                self.wf(),
                k <= incompatible_activity_ids@.len(),
                acts@.len() == self@.activities.len(),
                forall|i: int| 0 <= i < acts@.len() ==> (#[trigger] acts@[i])@ == self@.activities[i] && acts@[i].wf(),
                offset == duration@ - crate::time::MIN_TIME_DISCRETIZATION_MINUTES,
                time_in_range(duration@),
                t == time@,
                forall|k: int|
                    0 <= k < incompatible_activity_ids@.len() ==> crate::activities::has_activity(
                        self@.activities,
                        #[trigger] incompatible_activity_ids@[k],
                    ),
                forall|j: int|
                    0 <= j < k ==> !rules_out(
                        #[trigger] crate::activities::activity_with_id(
                            self@.activities,
                            incompatible_activity_ids@[j],
                        ),
                        duration@,
                        time@,
                    ),
            decreases incompatible_activity_ids@.len() - k,
        {
            let id = incompatible_activity_ids[k];
            let p = match self.position_of(id) {
                Ok(p) => p,
                Err(_) => {
                    proof {
                        assert(crate::activities::has_activity(
                            self@.activities,
                            incompatible_activity_ids@[k as int],
                        ));
                    }
                    return false;
                },
            };
            let a = &acts[p];
            proof {
                assert(a@ == crate::activities::activity_with_id(self@.activities, id));
            }
            if let Some(iv) = a.insertion_interval() {
                let b: i32 = iv.beginning().total_minutes() as i32;
                let e: i32 = iv.end().total_minutes() as i32;
                if b > offset {
                    let first: i32 = b - offset;
                    if first <= t && t < e && (t - first) % (
                    crate::time::MIN_TIME_DISCRETIZATION_MINUTES as i32) == 0 {
                        return true;
                    }
                }
            }
            k = k + 1;
        }
        false
    }

    /// Removes from insertion costs those whose beginning is ruled out by an inserted activity
    /// with one of the given ids, for an activity of the given duration.
    pub(crate) fn costs_without_conflicts(
        &self,
        costs: Vec<InsertionCost>,
        duration: Time,
        incompatible_activity_ids: &Vec<ActivityId>,
    ) -> (r: Vec<InsertionCost>)
        requires
            self.wf(),
            time_in_range(duration@),
            forall|k: int|
                0 <= k < incompatible_activity_ids@.len() ==> crate::activities::has_activity(
                    self@.activities,
                    #[trigger] incompatible_activity_ids@[k],
                ),
            forall|i: int| 0 <= i < costs@.len() ==> time_in_range((#[trigger] costs@[i]).beginning@),
        ensures
            r@ == costs@.filter(
                |c: InsertionCost|
                    !in_conflict(self@.activities, incompatible_activity_ids@, duration@, c.beginning@),
            ),
            crate::computation_data::costs_sorted(costs@) ==> crate::computation_data::costs_sorted(r@),
            forall|k: int| 0 <= k < r@.len() ==> costs@.contains(#[trigger] r@[k]),
    {
        let ghost pred = |c: InsertionCost|
            !in_conflict(self@.activities, incompatible_activity_ids@, duration@, c.beginning@);
        let mut w: Vec<InsertionCost> = Vec::new();
        let mut i: usize = 0;
        assert(costs@.take(0).filter(pred) =~= w@);
        while i < costs.len()
            invariant
                self.wf(),
                i <= costs@.len(),
                time_in_range(duration@),
                forall|k: int|
                    0 <= k < incompatible_activity_ids@.len() ==> crate::activities::has_activity(
                        self@.activities,
                        #[trigger] incompatible_activity_ids@[k],
                    ),
                forall|j: int| 0 <= j < costs@.len() ==> time_in_range((#[trigger] costs@[j]).beginning@),
                pred == (|c: InsertionCost|
                    !in_conflict(self@.activities, incompatible_activity_ids@, duration@, c.beginning@)),
                w@ == costs@.take(i as int).filter(pred),
                forall|k: int| 0 <= k < w@.len() ==> exists|j: int| 0 <= j < i && (#[trigger] w@[k]) == costs@[j],
                crate::computation_data::costs_sorted(costs@) ==> crate::computation_data::costs_sorted(w@),
            decreases costs@.len() - i,
        {
            proof {
                reveal_with_fuel(Seq::filter, 1);
                assert(costs@.take(i + 1).drop_last() =~= costs@.take(i as int));
                assert(costs@.take(i + 1).last() == costs@[i as int]);
            }
            let c = costs[i];
            let ghost old_w = w@;
            if !self.is_ruled_out(incompatible_activity_ids, duration, c.beginning) {
                w.push(c);
                proof {
                    assert forall|k: int| 0 <= k < w@.len() implies exists|j: int| 0 <= j < i + 1 && (#[trigger] w@[k]) == costs@[j] by {
                        if k < old_w.len() {
                            assert(w@[k] == old_w[k]);
                        } else {
                            assert(w@[k] == costs@[i as int]);
                        }
                    }
                    if crate::computation_data::costs_sorted(costs@) {
                        assert forall|a: int, b: int| 0 <= a < b < w@.len() implies (#[trigger] w@[a]).beginning@ < (#[trigger] w@[b]).beginning@ by {
                            if b == w@.len() - 1 {
                                let j = choose|j: int| 0 <= j < i && old_w[a] == costs@[j];
                                assert(w@[a] == old_w[a]);
                            } else {
                                assert(w@[a] == old_w[a] && w@[b] == old_w[b]);
                            }
                        }
                    }
                }
            }
            assert(w@ =~= costs@.take(i + 1).filter(pred));
            i = i + 1;
        }
        assert(costs@.take(i as int) =~= costs@);
        proof {
            assert forall|k: int| 0 <= k < w@.len() implies costs@.contains(#[trigger] w@[k]) by {
                let j = choose|j: int| 0 <= j < i && w@[k] == costs@[j];
            }
        }
        w
    }

    /// Given the possible beginnings of an activity and the ids of the activities with which it
    /// is incompatible, removes the beginnings ruled out by those which are inserted.
    pub fn filter_insertion_times_for_conflicts(
        &self,
        possible_beginnings: Option<Vec<Time>>,
        activity_duration: Time,
        incompatible_activity_ids: Vec<ActivityId>,
    ) -> (r: Option<Vec<Time>>)
        requires
            self.wf(),
            time_in_range(activity_duration@),
            forall|k: int|
                0 <= k < incompatible_activity_ids@.len() ==> crate::activities::has_activity(
                    self@.activities,
                    #[trigger] incompatible_activity_ids@[k],
                ),
            possible_beginnings matches Some(v) ==> forall|i: int|
                0 <= i < v@.len() ==> time_in_range((#[trigger] v@[i])@),
        ensures
            match possible_beginnings {
                None => r is None,
                Some(v) => r matches Some(w) && w@ == v@.filter(
                    |t: Time|
                        !in_conflict(
                            self@.activities,
                            incompatible_activity_ids@,
                            activity_duration@,
                            t@,
                        ),
                ),
            },
    {
        match possible_beginnings {
            None => None,
            Some(v) => {
                let ghost pred = |t: Time|
                    !in_conflict(
                        self@.activities,
                        incompatible_activity_ids@,
                        activity_duration@,
                        t@,
                    );
                let mut w: Vec<Time> = Vec::new();
                let mut i: usize = 0;
                assert(v@.take(0).filter(pred) =~= w@);
                while i < v.len()
                    invariant
                        self.wf(),
                        i <= v@.len(),
                        time_in_range(activity_duration@),
                        forall|k: int|
                            0 <= k < incompatible_activity_ids@.len()
                                ==> crate::activities::has_activity(
                                self@.activities,
                                #[trigger] incompatible_activity_ids@[k],
                            ),
                        forall|j: int| 0 <= j < v@.len() ==> time_in_range((#[trigger] v@[j])@),
                        pred == (|t: Time|
                            !in_conflict(
                                self@.activities,
                                incompatible_activity_ids@,
                                activity_duration@,
                                t@,
                            )),
                        w@ == v@.take(i as int).filter(pred),
                    decreases v@.len() - i,
                {
                    proof {
                        reveal_with_fuel(Seq::filter, 1);
                        assert(v@.take(i + 1).drop_last() =~= v@.take(i as int));
                        assert(v@.take(i + 1).last() == v@[i as int]);
                    }
                    let t = v[i];
                    if !self.is_ruled_out(&incompatible_activity_ids, activity_duration, t) {
                        w.push(t);
                    }
                    assert(w@ =~= v@.take(i + 1).filter(pred));
                    i = i + 1;
                }
                assert(v@.take(i as int) =~= v@);
                Some(w)
            },
        }
    }
}


/// The ids of the activities in conflict with an activity are ids of activities of the
/// collection.
pub(crate) proof fn lemma_incompatible_ids_exist(s: Seq<ActivityView>, m: crate::activity_metadata::ActivityMetadataView)
    ensures
        forall|k: int|
            0 <= k < crate::activities::incompatible_ids_of(m, crate::activities::metadata_views(s)).len()
                ==> crate::activities::has_activity(
                s,
                #[trigger] crate::activities::incompatible_ids_of(
                    m,
                    crate::activities::metadata_views(s),
                )[k],
            ),
{
    broadcast use vstd::seq_lib::group_filter_ensures;
    let all = crate::activities::metadata_views(s);
    let f = all.filter(|o: crate::activity_metadata::ActivityMetadataView| crate::activities::conflicts_with(m, o));
    assert forall|k: int| 0 <= k < f.len() implies crate::activities::has_activity(s, (#[trigger] f[k]).id) by {
        assert(f.contains(f[k]));
        all.lemma_filter_contains_rev(
            |o: crate::activity_metadata::ActivityMetadataView| crate::activities::conflicts_with(m, o),
            f[k],
        );
        let j = choose|j: int| 0 <= j < all.len() && all[j] == f[k];
        assert(s[j].metadata.id == f[k].id);
    }
    assert forall|k: int|
        0 <= k < crate::activities::incompatible_ids_of(m, all).len() implies crate::activities::has_activity(
        s,
        #[trigger] crate::activities::incompatible_ids_of(m, all)[k],
    ) by {
        assert(crate::activities::incompatible_ids_of(m, all)[k] == f[k].id);
    }
}

impl Activities {
    /// Returns the possible beginnings of the activity with the given id, sorted: those which
    /// every participant can take (given, one list per participant, as computed from their
    /// schedules), without those ruled out by the inserted activities with which it is
    /// incompatible. None while the beginnings of the participants are not known.
    ///
    /// Returns Err if the activity is not found.
    pub fn possible_insertion_times_of_activity(
        &self,
        id: ActivityId,
        beginnings_of_participants: Option<Vec<Vec<Time>>>,
    ) -> (r: Result<Option<Vec<Time>>, FelixError>)
        requires
            self.wf(),
            beginnings_of_participants matches Some(v) ==> v@.len() > 0 && forall|p: int, i: int|
                0 <= p < v@.len() && 0 <= i < v@[p]@.len() ==> time_in_range(
                    (#[trigger] v@[p]@[i])@,
                ),
        ensures
            r is Ok <==> crate::activities::has_activity(self@.activities, id),
            r matches Err(e) ==> crate::activities::is_activity_not_found(e, id),
            r matches Ok(o) ==> match beginnings_of_participants {
                None => o is None,
                Some(v) => o matches Some(w) && (forall|a: int, b: int|
                    0 <= a < b < w@.len() ==> (#[trigger] w@[a])@ < (#[trigger] w@[b])@) && (
                forall|t: int|
                    times_contain(w@, t) <==> free_beginnings(
                        self@.activities,
                        v@,
                        crate::activities::activity_with_id(
                            self@.activities,
                            id,
                        ).computation.incompatible_activity_ids,
                        crate::activities::activity_with_id(self@.activities, id).computation.duration,
                        t,
                    )),
            },
    {
        let activity = self.get_by_id(id)?;
        let possible = match beginnings_of_participants {
            None => {
                return Ok(None);
            },
            Some(v) => v,
        };
        proof {
            self.lemma_wf();
            activity.lemma_wf();
            let s = self@.activities;
            lemma_incompatible_ids_exist(s, activity@.metadata);
            assert(activity@ == s[crate::activities::index_of_activity(s, id)]);
        }
        let ids = activity.incompatible_activity_ids();
        let duration = activity.duration();
        let merged = merge_beginnings_of_all_participants(&possible);
        let ghost d = duration@;
        let ghost sv = self@.activities;
        let mut w: Vec<Time> = Vec::new();
        let mut i: usize = 0;
        while i < merged.len()
            invariant
                self.wf(),
                i <= merged@.len(),
                sv == self@.activities,
                d == duration@,
                time_in_range(duration@),
                possible@.len() > 0,
                forall|p: int, j: int|
                    0 <= p < possible@.len() && 0 <= j < possible@[p]@.len() ==> time_in_range(
                        (#[trigger] possible@[p]@[j])@,
                    ),
                forall|k: int| 0 <= k < ids@.len() ==> crate::activities::has_activity(sv, #[trigger] ids@[k]),
                crate::computation_data::costs_sorted(merged@),
                forall|t: int|
                    crate::computation_data::costs_contain_beginning(merged@, t) <==> possible_for_all(
                        possible@,
                        t,
                    ),
                forall|a: int, b: int| 0 <= a < b < w@.len() ==> (#[trigger] w@[a])@ < (#[trigger] w@[b])@,
                forall|k: int|
                    0 <= k < w@.len() ==> exists|j: int|
                        0 <= j < i && (#[trigger] w@[k])@ == merged@[j].beginning@ && !in_conflict(
                            sv,
                            ids@,
                            d,
                            w@[k]@,
                        ),
                forall|j: int|
                    0 <= j < i && !in_conflict(sv, ids@, d, (#[trigger] merged@[j]).beginning@)
                        ==> times_contain(w@, merged@[j].beginning@),
                w@.len() > 0 && i > 0 ==> w@.last()@ <= merged@[i - 1].beginning@,
            decreases merged@.len() - i,
        {
            let t = merged[i].beginning;
            proof {
                assert(crate::computation_data::costs_contain_beginning(merged@, t@));
                let p0 = possible@[0];
                assert(times_contain(p0@, t@));
                let j0 = choose|j: int| 0 <= j < p0@.len() && (#[trigger] p0@[j])@ == t@;
                assert(time_in_range(possible@[0]@[j0]@));
            }
            if !self.is_ruled_out(&ids, duration, t) {
                let ghost old_w = w@;
                proof {
                    if old_w.len() > 0 {
                        assert(old_w.last()@ <= merged@[i - 1].beginning@);
                        assert(merged@[i - 1].beginning@ < merged@[i as int].beginning@);
                    }
                }
                w.push(t);
                proof {
                    assert forall|a: int, b: int| 0 <= a < b < w@.len() implies (#[trigger] w@[a])@ < (#[trigger] w@[b])@ by {
                        if b == w@.len() - 1 && a < old_w.len() - 1 {
                            assert(old_w[a]@ < old_w.last()@);
                        }
                    }
                    assert forall|k: int| 0 <= k < w@.len() implies exists|j: int|
                        0 <= j < i + 1 && (#[trigger] w@[k])@ == merged@[j].beginning@ && !in_conflict(
                            sv,
                            ids@,
                            d,
                            w@[k]@,
                        ) by {
                        if k < old_w.len() {
                            assert(w@[k] == old_w[k]);
                        } else {
                            assert(w@[k] == t);
                        }
                    }
                    assert forall|j: int|
                        0 <= j < i + 1 && !in_conflict(sv, ids@, d, (#[trigger] merged@[j]).beginning@)
                            implies times_contain(w@, merged@[j].beginning@) by {
                        if j < i {
                            let k = choose|k: int| 0 <= k < old_w.len() && (#[trigger] old_w[k])@ == merged@[j].beginning@;
                            assert(w@[k] == old_w[k]);
                        } else {
                            assert(w@[w@.len() - 1] == t);
                        }
                    }
                }
            } else {
                proof {
                    if w@.len() > 0 && i > 0 {
                        assert(merged@[i - 1].beginning@ < merged@[i as int].beginning@);
                    }
                }
            }
            i = i + 1;
        }
        proof {
            assert forall|t: int| times_contain(w@, t) <==> free_beginnings(sv, possible@, ids@, d, t) by {
                if times_contain(w@, t) {
                    let k = choose|k: int| 0 <= k < w@.len() && (#[trigger] w@[k])@ == t;
                    let j = choose|j: int|
                        0 <= j < merged@.len() && (#[trigger] w@[k])@ == merged@[j].beginning@ && !in_conflict(
                            sv,
                            ids@,
                            d,
                            w@[k]@,
                        );
                    assert(crate::computation_data::costs_contain_beginning(merged@, t));
                }
                if free_beginnings(sv, possible@, ids@, d, t) {
                    assert(crate::computation_data::costs_contain_beginning(merged@, t));
                    let j = choose|j: int| 0 <= j < merged@.len() && (#[trigger] merged@[j]).beginning@ == t;
                }
            }
        }
        Ok(Some(w))
    }
}

} // verus!

verus! {

/// The two maps of the computation are inverse of each other: `index_to_id` is what
/// `index_to_id_map` gives and `id_to_index` what `id_to_index_map` gives for the same
/// activities, whose ids are pairwise distinct.
pub proof fn lemma_index_maps_inverse(
    activities: Seq<Activity>,
    index_to_id: Map<usize, ActivityId>,
    id_to_index: Map<ActivityId, usize>,
)
    requires
        activities.len() <= usize::MAX,
        crate::activities::ids_unique(activity_views(activities)),
        exists|order: Seq<int>|
            is_computation_order(activity_views(activities), order) && index_to_id == Map::new(
                |k: usize| k < activities.len(),
                |k: usize| activities[order[k as int]]@.metadata.id,
            ),
        exists|order: Seq<int>|
            is_computation_order(activity_views(activities), order) && id_to_index == Map::new(
                |id: ActivityId|
                    exists|k: int| 0 <= k < order.len() && activities[order[k]]@.metadata.id == id,
                |id: ActivityId|
                    (choose|k: int|
                        0 <= k < order.len() && activities[order[k]]@.metadata.id == id) as usize,
            ),
    ensures
        id_to_index.len() == activities.len(),
        forall|k: usize|
            k < activities.len() ==> #[trigger] index_to_id.contains_key(k) && id_to_index.contains_key(
                index_to_id[k],
            ) && id_to_index[index_to_id[k]] == k,
        forall|id: ActivityId|
            #[trigger] id_to_index.contains_key(id) ==> index_to_id.contains_key(id_to_index[id])
                && index_to_id[id_to_index[id]] == id,
{
    let s = activity_views(activities);
    let o1 = choose|order: Seq<int>|
        is_computation_order(s, order) && index_to_id == Map::new(
            |k: usize| k < activities.len(),
            |k: usize| activities[order[k as int]]@.metadata.id,
        );
    let o2 = choose|order: Seq<int>|
        is_computation_order(s, order) && id_to_index == Map::new(
            |id: ActivityId|
                exists|k: int| 0 <= k < order.len() && activities[order[k]]@.metadata.id == id,
            |id: ActivityId|
                (choose|k: int| 0 <= k < order.len() && activities[order[k]]@.metadata.id == id)
                    as usize,
        );
    lemma_computation_order(s);
    crate::stable_order::lemma_stable_order_unique(s.len() as int, computation_before(s), o1, o2);
    let o = o1;
    assert forall|k: int, j: int|
        0 <= k < o.len() && 0 <= j < o.len() && activities[o[k]]@.metadata.id
            == activities[o[j]]@.metadata.id implies k == j by {
        assert(s[o[k]] == activities[o[k]]@ && s[o[j]] == activities[o[j]]@);
        if o[k] != o[j] {
            assert(s[o[k]].metadata.id != s[o[j]].metadata.id);
        }
    }
    assert forall|k: usize| k < activities.len() implies #[trigger] index_to_id.contains_key(k)
        && id_to_index.contains_key(index_to_id[k]) && id_to_index[index_to_id[k]] == k by {
        let id = activities[o[k as int]]@.metadata.id;
        assert(index_to_id[k] == id);
        assert(0 <= k < o.len() && activities[o[k as int]]@.metadata.id == id);
        let c = choose|c: int| 0 <= c < o.len() && activities[o[c]]@.metadata.id == id;
        assert(c == k);
    }
    assert forall|id: ActivityId| #[trigger] id_to_index.contains_key(id) implies index_to_id.contains_key(
        id_to_index[id],
    ) && index_to_id[id_to_index[id]] == id by {
        let c = choose|c: int| 0 <= c < o.len() && activities[o[c]]@.metadata.id == id;
        assert(id_to_index[id] == c as usize);
    }
    // The ids are in one-to-one correspondence with the positions.
    let n = activities.len() as int;
    let range = vstd::set_lib::set_int_range(0, n);
    vstd::set_lib::lemma_int_range(0, n);
    let to_usize = |i: int| i as usize;
    let positions = Set::new(|k: usize| k < activities.len());
    assert(range.map(to_usize) =~= positions) by {
        assert forall|k: usize| positions.contains(k) implies range.map(to_usize).contains(k) by {
            assert(range.contains(k as int) && to_usize(k as int) == k);
        }
    }
    assert(vstd::relations::injective_on(to_usize, range));
    vstd::set_lib::lemma_map_size(range, positions, to_usize);
    let f = |k: usize| index_to_id[k];
    assert(positions.map(f) =~= id_to_index.dom()) by {
        assert forall|id: ActivityId| id_to_index.dom().contains(id) implies positions.map(f).contains(id) by {
            assert(positions.contains(id_to_index[id]) && f(id_to_index[id]) == id);
        }
    }
    assert(vstd::relations::injective_on(f, positions)) by {
        assert forall|x: usize, y: usize| positions.contains(x) && positions.contains(y) && #[trigger] f(x) == #[trigger] f(y) implies x == y by {
            assert(id_to_index[index_to_id[x]] == x);
            assert(id_to_index[index_to_id[y]] == y);
        }
    }
    vstd::set_lib::lemma_map_size(positions, id_to_index.dom(), f);
}

/// The index -> id conversion follows the order of `activities_sorted_for_computation`: the
/// activity at index `k` of the sorted activities is the one whose id `index_to_id_map` gives
/// for `k`.
pub proof fn lemma_index_map_follows_sorted_order(
    activities: Seq<Activity>,
    sorted: Seq<Activity>,
    index_to_id_map: Map<usize, ActivityId>,
)
    requires
        activities.len() <= usize::MAX,
        is_computation_order(activity_views(activities), computation_order(activity_views(activities))),
        sorted.len() == activities.len(),
        forall|k: int|
            0 <= k < sorted.len() ==> (#[trigger] sorted[k])@ == activities[computation_order(
                activity_views(activities),
            )[k]]@,
        index_to_id_map == index_to_id(activity_views(activities)),
    ensures
        index_to_id_map.len() == sorted.len(),
        forall|k: usize|
            k < sorted.len() ==> #[trigger] index_to_id_map.contains_key(k) && index_to_id_map[k]
                == sorted[k as int]@.metadata.id,
{
    let s = activity_views(activities);
    assert forall|k: usize| k < sorted.len() implies #[trigger] index_to_id_map.contains_key(k)
        && index_to_id_map[k] == sorted[k as int]@.metadata.id by {
        let j = computation_order(s)[k as int];
        assert(0 <= j < activities.len());
        assert(s[j] == activities[j]@);
        assert(sorted[k as int]@ == activities[j]@);
    }
    let n = activities.len() as int;
    let range = vstd::set_lib::set_int_range(0, n);
    vstd::set_lib::lemma_int_range(0, n);
    let to_usize = |i: int| i as usize;
    assert(range.map(to_usize) =~= index_to_id_map.dom()) by {
        assert forall|k: usize| index_to_id_map.dom().contains(k) implies range.map(to_usize).contains(k) by {
            assert(range.contains(k as int) && to_usize(k as int) == k);
        }
    }
    assert(vstd::relations::injective_on(to_usize, range));
    vstd::set_lib::lemma_map_size(range, index_to_id_map.dom(), to_usize);
}

/// The activity lasting `d` minutes and beginning at `t` would overlap with the activity with
/// the given id, which is inserted.
pub open spec fn overlaps_inserted(s: Seq<ActivityView>, id: ActivityId, d: int, t: int) -> bool {
    crate::activities::activity_with_id(s, id).computation.insertion_interval matches Some(iv)
        && crate::time_interval::spec_overlaps(iv, (t, t + d))
}

/// The activity with the given id is inserted at an interval which begins on the 5-minute grid,
/// late enough for an activity lasting `d` minutes to end before it.
pub open spec fn inserted_on_grid(s: Seq<ActivityView>, id: ActivityId, d: int) -> bool {
    crate::activities::activity_with_id(s, id).computation.insertion_interval matches Some(iv)
        && iv.0 % 5 == 0 && iv.0 > d - 5
}

/// Filtering the possible beginnings of an activity lasting `d` minutes against the activities
/// with the ids `ids` (what `filter_insertion_times_for_conflicts` returns) keeps no beginning
/// at which the activity would overlap with any inserted one among all of them (times on the
/// 5-minute grid, the inserted one beginning late enough for the activity to end before it),
/// and keeps every possible beginning at which it overlaps with none of them.
pub proof fn lemma_conflict_filter(
    s: Seq<ActivityView>,
    ids: Seq<ActivityId>,
    d: int,
    possible: Seq<Time>,
    kept: Seq<Time>,
)
    requires
        kept == possible.filter(|t: Time| !in_conflict(s, ids, d, t@)),
        d % 5 == 0,
    ensures
        forall|j: int, k: int|
            0 <= j < kept.len() && 0 <= k < ids.len() && (#[trigger] kept[j])@ % 5 == 0
                && inserted_on_grid(s, #[trigger] ids[k], d) ==> !overlaps_inserted(s, ids[k], d, kept[j]@),
        forall|t: Time|
            #[trigger] possible.contains(t) && (forall|k: int|
                0 <= k < ids.len() ==> !overlaps_inserted(s, #[trigger] ids[k], d, t@))
                ==> kept.contains(t),
        forall|t: Time| #[trigger] kept.contains(t) ==> possible.contains(t),
{
    let pred = |t: Time| !in_conflict(s, ids, d, t@);
    possible.filter_lemma(pred);
    assert forall|j: int, k: int|
        0 <= j < kept.len() && 0 <= k < ids.len() && (#[trigger] kept[j])@ % 5 == 0
            && inserted_on_grid(s, #[trigger] ids[k], d) implies !overlaps_inserted(s, ids[k], d, kept[j]@) by {
        let t = kept[j]@;
        let iv = crate::activities::activity_with_id(s, ids[k]).computation.insertion_interval->0;
        assert(pred(kept[j]));
        if crate::time_interval::spec_overlaps(iv, (t, t + d)) {
            let offset = d - 5;
            assert(iv.0 - offset <= t);
            assert((t - (iv.0 - offset)) % 5 == 0) by {
                assert(t - (iv.0 - offset) == t - iv.0 + d - 5);
                assert((t - iv.0 + d - 5) % 5 == 0) by (nonlinear_arith)
                    requires
                        t % 5 == 0,
                        iv.0 % 5 == 0,
                        d % 5 == 0,
                ;
            }
            assert(ruled_out_by(iv, d, t));
            assert(rules_out(crate::activities::activity_with_id(s, ids[k]), d, t));
            assert(in_conflict(s, ids, d, t));
        }
    }
    assert forall|t: Time|
        #[trigger] possible.contains(t) && (forall|k: int|
            0 <= k < ids.len() ==> !overlaps_inserted(s, #[trigger] ids[k], d, t@)) implies kept.contains(t) by {
        let i = choose|i: int| 0 <= i < possible.len() && possible[i] == t;
        if in_conflict(s, ids, d, t@) {
            let k = choose|k: int|
                0 <= k < ids.len() && rules_out(
                    #[trigger] crate::activities::activity_with_id(s, ids[k]),
                    d,
                    t@,
                );
            assert(!overlaps_inserted(s, ids[k], d, t@));
        }
        assert(pred(possible[i]));
    }
    assert forall|t: Time| #[trigger] kept.contains(t) implies possible.contains(t) by {
        possible.lemma_filter_contains_rev(pred, t);
    }
}

/// In the order of computation (that of `activities_sorted_for_computation`), the inserted
/// activities come first; the others come from the largest duration times number of
/// incompatible activities to the smallest.
pub proof fn lemma_sorted_by_difficulty(activities: Seq<Activity>, sorted: Seq<Activity>)
    requires
        is_computation_order(activity_views(activities), computation_order(activity_views(activities))),
        sorted.len() == activities.len(),
        forall|k: int|
            0 <= k < sorted.len() ==> (#[trigger] sorted[k])@ == activities[computation_order(
                activity_views(activities),
            )[k]]@,
    ensures
        forall|a: int, b: int|
            0 <= a < b < sorted.len() && (#[trigger] sorted[b])@.computation.insertion_interval is Some
                ==> (#[trigger] sorted[a])@.computation.insertion_interval is Some,
        forall|a: int, b: int|
            0 <= a < b < sorted.len() && (#[trigger] sorted[a])@.computation.insertion_interval is None
                && (#[trigger] sorted[b])@.computation.insertion_interval is None
                ==> sorted[a]@.computation.duration * sorted[a]@.computation.incompatible_activity_ids.len()
                >= sorted[b]@.computation.duration * sorted[b]@.computation.incompatible_activity_ids.len(),
{
    let s = activity_views(activities);
    let o = computation_order(s);
    assert forall|a: int, b: int| 0 <= a < b < sorted.len() implies {
        &&& (#[trigger] sorted[b])@.computation.insertion_interval is Some
            ==> (#[trigger] sorted[a])@.computation.insertion_interval is Some
        &&& sorted[a]@.computation.insertion_interval is None && sorted[b]@.computation.insertion_interval is None
            ==> sorted[a]@.computation.duration * sorted[a]@.computation.incompatible_activity_ids.len()
            >= sorted[b]@.computation.duration * sorted[b]@.computation.incompatible_activity_ids.len()
    } by {
        assert(!computation_before(s)(o[b], o[a]));
        assert(s[o[a]] == activities[o[a]]@ && s[o[b]] == activities[o[b]]@);
    }
}

} // verus!
