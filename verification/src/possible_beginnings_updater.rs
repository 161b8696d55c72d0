//! Which activities have up-to-date possible beginnings, and the fusion of the possible
//! beginnings of their participants once they are computed.

use crate::activity_metadata::ActivityId;
use crate::computation::{merge_beginnings_of_all_participants, possible_for_all, times_contain};
use crate::time::Time;
use std::collections::HashMap;
use vstd::prelude::*;

verus! {

broadcast use vstd::std_specs::hash::group_hash_axioms;

/// Keeps track of the activities whose possible beginnings are out of date.
#[derive(Debug)]
pub struct PossibleBeginningsUpdater {
    possible_beginnings_up_to_date: HashMap<ActivityId, bool>,
}

impl View for PossibleBeginningsUpdater {
    type V = Map<ActivityId, bool>;

    /// For each known activity, whether its possible beginnings are up to date.
    closed spec fn view(&self) -> Map<ActivityId, bool> {
        self.possible_beginnings_up_to_date@
    }
}

/// The map once every given activity is marked out of date.
pub open spec fn marked_out_of_date(m: Map<ActivityId, bool>, ids: Seq<ActivityId>) -> Map<
    ActivityId,
    bool,
>
    decreases ids.len(),
{
    if ids.len() == 0 {
        m
    } else {
        marked_out_of_date(m, ids.drop_last()).insert(ids.last(), false)
    }
}

/// The times are sorted by strictly ascending order.
pub open spec fn strictly_sorted(s: Seq<Time>) -> bool {
    forall|a: int, b: int| 0 <= a < b < s.len() ==> (#[trigger] s[a])@ < (#[trigger] s[b])@
}

impl PossibleBeginningsUpdater {
    /// An updater which knows no activity.
    pub fn new() -> (r: PossibleBeginningsUpdater)
        ensures
            r@ == Map::<ActivityId, bool>::empty(),
    {
        PossibleBeginningsUpdater { possible_beginnings_up_to_date: HashMap::new() }
    }

    /// Informs the updater that a new activity has been added: without participants, its
    /// possible beginnings are up to date.
    pub fn notify_new_activity(&mut self, id: ActivityId)
        ensures
            final(self)@ == old(self)@.insert(id, true),
    {
        self.possible_beginnings_up_to_date.insert(id, true);
    }

    /// Informs the updater that an activity has been removed.
    pub fn notify_activity_removed(&mut self, id: ActivityId)
        ensures
            final(self)@ == old(self)@.remove(id),
    {
        self.possible_beginnings_up_to_date.remove(&id);
    }

    /// Returns true if the possible beginnings of the activity are up to date.
    pub fn activity_beginnings_are_up_to_date(&self, id: ActivityId) -> (b: bool)
        requires
            self@.contains_key(id),
        ensures
            b == self@[id],
    {
        match self.possible_beginnings_up_to_date.get(&id) {
            Some(up_to_date) => *up_to_date,
            None => false,
        }
    }

    /// Marks the possible beginnings of the given activities as out of date: they have to be
    /// computed again.
    pub fn mark_out_of_date(&mut self, out_of_date_activities: &Vec<ActivityId>)
        ensures
            final(self)@ == marked_out_of_date(old(self)@, out_of_date_activities@),
    {
        let mut i: usize = 0;
        assert(out_of_date_activities@.take(0) =~= Seq::<ActivityId>::empty());
        while i < out_of_date_activities.len()
            invariant
                i <= out_of_date_activities@.len(),
                self@ == marked_out_of_date(old(self)@, out_of_date_activities@.take(i as int)),
            decreases out_of_date_activities@.len() - i,
        {
            assert(out_of_date_activities@.take(i + 1).drop_last() =~= out_of_date_activities@.take(
                i as int,
            ));
            self.possible_beginnings_up_to_date.insert(out_of_date_activities[i], false);
            i = i + 1;
        }
        assert(out_of_date_activities@.take(i as int) =~= out_of_date_activities@);
    }

    /// Fuses the possible beginnings of the participants of the activity (one list per
    /// participant), once they are all computed: the result holds the beginnings which every
    /// participant can take, sorted, and the possible beginnings of the activity are then up to
    /// date. Returns None, changing nothing, while one of them is missing.
    pub fn poll_and_fuse_possible_beginnings(
        &mut self,
        beginnings_of_participants: Option<Vec<Vec<Time>>>,
        id: ActivityId,
    ) -> (r: Option<Vec<Time>>)
        requires
            beginnings_of_participants matches Some(v) ==> v@.len() > 0,
        ensures
            match beginnings_of_participants {
                None => r is None && final(self)@ == old(self)@,
                Some(v) => final(self)@ == old(self)@.insert(id, true) && (r matches Some(w)
                    && strictly_sorted(w@) && forall|t: int|
                    times_contain(w@, t) <==> possible_for_all(v@, t)),
            },
    {
        match beginnings_of_participants {
            None => None,
            Some(v) => {
                let merged = merge_beginnings_of_all_participants(&v);
                let mut w: Vec<Time> = Vec::new();
                let mut i: usize = 0;
                while i < merged.len()
                    invariant
                        i <= merged@.len(),
                        w@.len() == i,
                        forall|k: int| 0 <= k < i ==> (#[trigger] w@[k]) == merged@[k].beginning,
                    decreases merged@.len() - i,
                {
                    w.push(merged[i].beginning);
                    i = i + 1;
                }
                proof {
                    assert forall|a: int, b: int| 0 <= a < b < w@.len() implies (#[trigger] w@[a])@
                        < (#[trigger] w@[b])@ by {
                        assert(merged@[a].beginning@ < merged@[b].beginning@);
                    }
                    assert forall|t: int| times_contain(w@, t) <==> possible_for_all(v@, t) by {
                        if times_contain(w@, t) {
                            let k = choose|k: int| 0 <= k < w@.len() && (#[trigger] w@[k])@ == t;
                            assert(merged@[k].beginning@ == t);
                        }
                        if possible_for_all(v@, t) {
                            let k = choose|k: int|
                                0 <= k < merged@.len() && (#[trigger] merged@[k]).beginning@ == t;
                            assert(w@[k]@ == t);
                        }
                    }
                }
                self.possible_beginnings_up_to_date.insert(id, true);
                Some(w)
            },
        }
    }
}

} // verus!
