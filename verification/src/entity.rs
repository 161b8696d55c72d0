//! Entities: people, rooms or any resource which takes part in activities.

use crate::errors::does_not_exist::DoesNotExist;
use crate::errors::name_taken::{GroupOrEntity, NameTaken};
use crate::errors::FelixError;
use crate::named::{
    find_by_name, has_name, insertion_position, lemma_insert_sorted, lemma_name_map_dom,
    lemma_name_map_index, lemma_name_map_insert, lemma_name_map_pointwise, lemma_name_map_remove, lemma_name_map_update,
    lemma_name_set_finite, lemma_remove_sorted, name_index, name_map, names_sorted, HasName,
};
use crate::strings::lex_lt;
use crate::work_intervals::intervals_ordered;
use crate::time_interval::{spec_duration, TimeInterval};
use crate::work_intervals::{intervals_view, overlaps_any, sum_durations, WorkIntervals};
use vstd::prelude::*;

verus! {

/// The abstract value of an entity.
pub struct EntityView {
    pub name: Seq<char>,
    pub mail: Seq<char>,
    pub send_me_a_mail: bool,
    pub custom_work_hours: Seq<(int, int)>,
}

/// Inner data of an entity, which can be modified by the entity collection.
#[derive(Debug, PartialEq, Eq)]
pub struct EntityInner {
    name: String,
    mail: String,
    send_me_a_mail: bool,
    custom_work_intervals: WorkIntervals,
}

impl View for EntityInner {
    type V = EntityView;

    closed spec fn view(&self) -> EntityView {
        EntityView {
            name: self.name@,
            mail: self.mail@,
            send_me_a_mail: self.send_me_a_mail,
            custom_work_hours: self.custom_work_intervals@,
        }
    }
}

impl Clone for EntityInner {
    fn clone(&self) -> (r: Self)
        ensures
            r@ == self@,
            r.wf() == self.wf(),
    {
        EntityInner {
            name: self.name.clone(),
            mail: self.mail.clone(),
            send_me_a_mail: self.send_me_a_mail,
            custom_work_intervals: self.custom_work_intervals.clone(),
        }
    }
}

impl EntityInner {
    /// Well-formedness: the custom work intervals are sorted and do not overlap.
    pub closed spec fn wf(&self) -> bool {
        self.custom_work_intervals.wf()
    }

    /// The custom work hours of a well-formed entity are ordered.
    pub proof fn lemma_wf(&self)
        requires
            self.wf(),
        ensures
            crate::work_intervals::intervals_ordered(self@.custom_work_hours),
    {
    }

    /// Instantiates a new EntityInner.
    pub fn new(name: String) -> (e: EntityInner)
        ensures
            e@ == (EntityView {
                name: name@,
                mail: Seq::empty(),
                send_me_a_mail: false,
                custom_work_hours: Seq::empty(),
            }),
            e.wf(),
    {
        EntityInner {
            name,
            mail: String::new(),
            send_me_a_mail: false,
            custom_work_intervals: WorkIntervals::new(),
        }
    }

    /// Simple getter for the name.
    pub fn name(&self) -> (r: &String)
        ensures
            r@ == self@.name,
    {
        &self.name
    }

    /// Simple getter for the mail.
    pub fn mail(&self) -> (r: &String)
        ensures
            r@ == self@.mail,
    {
        &self.mail
    }

    /// Simple getter to check if a mail should be sent to the entity.
    pub fn send_me_a_mail(&self) -> (r: bool)
        ensures
            r == self@.send_me_a_mail,
    {
        self.send_me_a_mail
    }

    /// Simple getter for the custom work hours.
    pub fn custom_work_hours(&self) -> (r: &Vec<TimeInterval>)
        ensures
            intervals_view(r@) == self@.custom_work_hours,
    {
        self.custom_work_intervals.work_intervals()
    }

    /// The custom work hours, as a collection.
    pub fn custom_work_intervals(&self) -> (r: &WorkIntervals)
        ensures
            r@ == self@.custom_work_hours,
            self.wf() ==> r.wf(),
    {
        &self.custom_work_intervals
    }

    /// Sets the name of the entity.
    pub fn set_name(&mut self, name: String)
        ensures
            final(self)@ == (EntityView { name: name@, ..old(self)@ }),
            final(self).wf() == old(self).wf(),
    {
        self.name = name;
    }

    /// Sets the mail of the entity. The given mail is always accepted.
    pub fn set_mail(&mut self, mail: String)
        ensures
            final(self)@ == (EntityView { mail: mail@, ..old(self)@ }),
            final(self).wf() == old(self).wf(),
    {
        self.mail = mail;
    }

    /// Call with true if a mail should be sent to the entity, else with false.
    /// Never fails.
    pub fn set_send_me_a_mail(&mut self, send: bool)
        ensures
            final(self)@ == (EntityView { send_me_a_mail: send, ..old(self)@ }),
            final(self).wf() == old(self).wf(),
    {
        self.send_me_a_mail = send;
    }

    /// Adds a custom work interval.
    ///
    /// Returns Err if the interval overlaps with the custom work hours.
    pub fn add_work_interval(&mut self, interval: TimeInterval) -> (r: Result<(), FelixError>)
        requires
            old(self).wf(),
            interval.wf(),
        ensures
            final(self).wf(),
            final(self)@.name == old(self)@.name,
            final(self)@.mail == old(self)@.mail,
            final(self)@.send_me_a_mail == old(self)@.send_me_a_mail,
            r is Ok <==> !overlaps_any(old(self)@.custom_work_hours, interval@),
            r is Ok ==> final(self)@.custom_work_hours.to_set()
                == old(self)@.custom_work_hours.to_set().insert(interval@)
                && sum_durations(final(self)@.custom_work_hours) == sum_durations(
                old(self)@.custom_work_hours,
            ) + spec_duration(interval@),
            r matches Err(e) ==> e is IntervalOverlaps && final(self)@ == old(self)@,
    {
        self.custom_work_intervals.add_work_interval(interval)
    }

    /// Removes a custom work interval.
    ///
    /// Returns Err if the interval is not found.
    pub fn remove_work_interval(&mut self, interval: TimeInterval) -> (r: Result<(), FelixError>)
        requires
            old(self).wf(),
        ensures
            final(self).wf(),
            final(self)@.name == old(self)@.name,
            final(self)@.mail == old(self)@.mail,
            final(self)@.send_me_a_mail == old(self)@.send_me_a_mail,
            r is Ok <==> old(self)@.custom_work_hours.contains(interval@),
            r is Ok ==> final(self)@.custom_work_hours.to_set()
                == old(self)@.custom_work_hours.to_set().remove(interval@)
                && final(self)@.custom_work_hours.len() + 1 == old(self)@.custom_work_hours.len()
                && sum_durations(final(self)@.custom_work_hours) + spec_duration(interval@)
                == sum_durations(old(self)@.custom_work_hours),
            r is Err ==> final(self)@ == old(self)@,
            r matches Err(e) ==> e matches FelixError::DoesNotExist(d) && *d
                == DoesNotExist::Interval(interval),
    {
        self.custom_work_intervals.remove_work_interval(interval)
    }

    /// Replaces a custom work interval by another one.
    ///
    /// Returns Err if the old interval is not found or if the new one overlaps with the other
    /// custom work intervals.
    pub fn update_work_interval(
        &mut self,
        old_interval: TimeInterval,
        new_interval: TimeInterval,
    ) -> (r: Result<(), FelixError>)
        requires
            old(self).wf(),
            new_interval.wf(),
        ensures
            final(self).wf(),
            final(self)@.name == old(self)@.name,
            final(self)@.mail == old(self)@.mail,
            final(self)@.send_me_a_mail == old(self)@.send_me_a_mail,
            r is Ok <==> old(self)@.custom_work_hours.contains(old_interval@) && !overlaps_any(
                old(self)@.custom_work_hours.remove(
                    old(self)@.custom_work_hours.index_of(old_interval@),
                ),
                new_interval@,
            ),
            r is Ok ==> final(self)@.custom_work_hours.to_set()
                == old(self)@.custom_work_hours.to_set().remove(old_interval@).insert(
                new_interval@,
            ) && final(self)@.custom_work_hours.len() == old(self)@.custom_work_hours.len()
                && sum_durations(final(self)@.custom_work_hours) + spec_duration(old_interval@)
                == sum_durations(old(self)@.custom_work_hours) + spec_duration(new_interval@),
            r is Err ==> final(self)@ == old(self)@,
            r matches Err(e) ==> if old(self)@.custom_work_hours.contains(old_interval@) {
                e is IntervalOverlaps
            } else {
                e matches FelixError::DoesNotExist(d) && *d == DoesNotExist::Interval(old_interval)
            },
    {
        self.custom_work_intervals.update_work_interval(old_interval, new_interval)
    }
}

/// Represents any entity which can be used by an activity.
///
/// Entities include people, of course, but also rooms, which have a schedule like any human
/// (free or not free at any point during the day). This extends to any tool or thing which
/// does not have the gift of ubiquity.
///
/// Entities have unique names. An entity may not have the same name as a group.
///
/// This structure is read-only. If you wish to create or modify an entity, use the Data object.
#[derive(Debug, PartialEq, Eq)]
pub struct Entity {
    inner: EntityInner,
}

impl View for Entity {
    type V = EntityView;

    closed spec fn view(&self) -> EntityView {
        self.inner@
    }
}

impl Clone for Entity {
    fn clone(&self) -> (r: Self)
        ensures
            r@ == self@,
            r.wf() == self.wf(),
    {
        Entity { inner: self.inner.clone() }
    }
}

impl HasName for Entity {
    open spec fn spec_name(&self) -> Seq<char> {
        self@.name
    }

    fn name_ref(&self) -> (r: &String) {
        self.inner.name()
    }
}

impl Entity {
    /// Well-formedness: the custom work intervals are sorted and do not overlap.
    pub closed spec fn wf(&self) -> bool {
        self.inner.wf()
    }

    /// The custom work hours of a well-formed entity are ordered.
    pub proof fn lemma_wf(&self)
        requires
            self.wf(),
        ensures
            crate::work_intervals::intervals_ordered(self@.custom_work_hours),
    {
    }

    /// The custom work hours, as a collection.
    pub fn custom_work_intervals(&self) -> (r: &WorkIntervals)
        ensures
            r@ == self@.custom_work_hours,
            self.wf() ==> r.wf(),
    {
        self.inner.custom_work_intervals()
    }

    /// Creates a new entity with the given name.
    pub(crate) fn new(name: String) -> (e: Entity)
        ensures
            e@ == (EntityView {
                name: name@,
                mail: Seq::empty(),
                send_me_a_mail: false,
                custom_work_hours: Seq::empty(),
            }),
            e.wf(),
    {
        Entity { inner: EntityInner::new(name) }
    }

    /// Simple getter for the name.
    pub fn name(&self) -> (r: String)
        ensures
            r@ == self@.name,
    {
        self.inner.name().clone()
    }

    /// Simple getter for the mail.
    pub fn mail(&self) -> (r: String)
        ensures
            r@ == self@.mail,
    {
        self.inner.mail().clone()
    }

    /// Simple getter to check if a mail should be sent to the entity.
    pub fn send_me_a_mail(&self) -> (r: bool)
        ensures
            r == self@.send_me_a_mail,
    {
        self.inner.send_me_a_mail()
    }

    /// Simple getter for the custom work hours of the entity.
    /// If you wish to fetch the work hours of the entity, use Data::work_hours_of().
    pub fn custom_work_hours(&self) -> (r: Vec<TimeInterval>)
        ensures
            intervals_view(r@) == self@.custom_work_hours,
    {
        self.inner.custom_work_intervals().clone().intervals_vec()
    }
}

} // verus!

verus! {

/// The view of an entity which was just created with the given name.
pub open spec fn new_entity_view(name: Seq<char>) -> EntityView {
    EntityView {
        name: name,
        mail: Seq::empty(),
        send_me_a_mail: false,
        custom_work_hours: Seq::empty(),
    }
}

/// Manages the entities. Makes sure there are no duplicates.
///
/// The entities are kept sorted by name.
#[derive(Debug, PartialEq, Eq)]
pub struct Entities {
    entities: Vec<Entity>,
}

impl View for Entities {
    type V = Map<Seq<char>, EntityView>;

    /// The entities by their names.
    closed spec fn view(&self) -> Map<Seq<char>, EntityView> {
        name_map(self.entities@)
    }
}

impl Clone for Entities {
    fn clone(&self) -> (r: Self)
        ensures
            self.wf() ==> r@ == self@ && r.wf(),
    {
        let mut v: Vec<Entity> = Vec::new();
        let mut i: usize = 0;
        while i < self.entities.len()
            invariant
                i <= self.entities@.len(),
                v@.len() == i,
                forall|k: int|
                    0 <= k < i ==> (#[trigger] v@[k])@ == self.entities@[k]@ && v@[k].wf()
                        == self.entities@[k].wf() && v@[k].spec_name() == self.entities@[k].spec_name(),
            decreases self.entities@.len() - i,
        {
            v.push(self.entities[i].clone());
            i = i + 1;
        }
        let r = Entities { entities: v };
        proof {
            if self.wf() {
                lemma_name_map_pointwise(self.entities@, v@);
                assert(r@ =~= self@);
            }
        }
        r
    }
}

impl Entities {
    /// Well-formedness: the entities are sorted by name, without duplicates, and each one is
    /// well formed.
    pub closed spec fn wf(&self) -> bool {
        &&& names_sorted(self.entities@)
        &&& forall|i: int| 0 <= i < self.entities@.len() ==> (#[trigger] self.entities@[i]).wf()
    }

    /// Each entity is stored under its own name, and has ordered custom work hours.
    pub proof fn lemma_wf(&self)
        requires
            self.wf(),
        ensures
            forall|n: Seq<char>| #[trigger] self@.contains_key(n) ==> self@[n].name == n,
            forall|n: Seq<char>|
                #[trigger] self@.contains_key(n) ==> intervals_ordered(self@[n].custom_work_hours),
            self@.dom().finite(),
    {
        assert forall|n: Seq<char>| #[trigger] self@.contains_key(n) implies self@[n].name == n
            && intervals_ordered(self@[n].custom_work_hours) by {
            let i = name_index(self.entities@, n);
            lemma_name_map_index(self.entities@, i);
            self.entities@[i].lemma_wf();
        }
        lemma_name_map_dom(self.entities@);
        lemma_name_set_finite(self.entities@);
    }

    /// Creates the Entities collection.
    pub fn new() -> (r: Entities)
        ensures
            r@ == Map::<Seq<char>, EntityView>::empty(),
            r.wf(),
    {
        let r = Entities { entities: Vec::new() };
        assert(r@ =~= Map::<Seq<char>, EntityView>::empty());
        r
    }

    /// Returns copies of the entities, sorted by name.
    pub fn sorted_by_name(&self) -> (r: Vec<Entity>)
        requires
            self.wf(),
        ensures
            names_sorted(r@),
            name_map(r@) == self@,
            forall|i: int| 0 <= i < r@.len() ==> (#[trigger] r@[i]).wf(),
    {
        let mut r: Vec<Entity> = Vec::new();
        let mut i: usize = 0;
        while i < self.entities.len()
            invariant
                self.wf(),
                i <= self.entities@.len(),
                r@.len() == i,
                forall|k: int| 0 <= k < i ==> (#[trigger] r@[k])@ == self.entities@[k]@ && r@[k].wf(),
            decreases self.entities@.len() - i,
        {
            let e = self.entities[i].clone();
            r.push(e);
            i = i + 1;
        }
        proof {
            Self::lemma_same_views(self.entities@, r@);
        }
        r
    }

    /// Two sequences of entities with the same views have the same order and map by name.
    proof fn lemma_same_views(s: Seq<Entity>, t: Seq<Entity>)
        requires
            names_sorted(s),
            s.len() == t.len(),
            forall|k: int| 0 <= k < s.len() ==> (#[trigger] t[k])@ == s[k]@,
        ensures
            names_sorted(t),
            name_map(t) == name_map(s),
    {
        assert forall|a: int, b: int| 0 <= a < b < t.len() implies lex_lt(
            #[trigger] t[a].spec_name(),
            #[trigger] t[b].spec_name(),
        ) by {
            assert(t[a]@ == s[a]@);
            assert(t[b]@ == s[b]@);
            assert(lex_lt(s[a].spec_name(), s[b].spec_name()));
        }
        assert forall|n: Seq<char>| has_name(t, n) <==> has_name(s, n) by {
            if has_name(t, n) {
                let i = choose|i: int| 0 <= i < t.len() && #[trigger] t[i].spec_name() == n;
                assert(s[i]@ == t[i]@);
                assert(s[i].spec_name() == n);
            }
            if has_name(s, n) {
                let i = choose|i: int| 0 <= i < s.len() && #[trigger] s[i].spec_name() == n;
                assert(s[i]@ == t[i]@);
                assert(t[i].spec_name() == n);
            }
        }
        assert forall|n: Seq<char>| #[trigger] name_map(t).contains_key(n) implies name_map(t)[n]
            == name_map(s)[n] by {
            let i = name_index(t, n);
            lemma_name_map_index(t, i);
            assert(s[i]@ == t[i]@);
            lemma_name_map_index(s, i);
        }
        assert(name_map(t) =~= name_map(s));
    }

    /// Returns a copy of the entity with the given name.
    ///
    /// Returns Err if the entity does not exist.
    pub fn get_by_name(&self, name: &str) -> (r: Result<Entity, FelixError>)
        requires
            self.wf(),
        ensures
            r is Ok <==> self@.contains_key(name@),
            r matches Ok(e) ==> e@ == self@[name@] && e.wf(),
            r matches Err(e) ==> e matches FelixError::DoesNotExist(d) && d.is_entity_named(
                name@,
            ),
    {
        let name = name.to_owned();
        match find_by_name(&self.entities, &name) {
            Some(i) => {
                proof {
                    lemma_name_map_index(self.entities@, i as int);
                }
                Ok(self.entities[i].clone())
            },
            None => Err(FelixError::DoesNotExist(DoesNotExist::entity_does_not_exist(name))),
        }
    }

    /// True if there is an entity with the given name.
    pub fn contains(&self, name: &String) -> (b: bool)
        requires
            self.wf(),
        ensures
            b == self@.contains_key(name@),
    {
        find_by_name(&self.entities, name).is_some()
    }

    /// Adds an entity with the given name.
    ///
    /// Returns Err if the name is already taken.
    pub fn add(&mut self, name: String) -> (r: Result<(), FelixError>)
        requires
            old(self).wf(),
        ensures
            final(self).wf(),
            r is Ok <==> !old(self)@.contains_key(name@),
            r is Ok ==> final(self)@ == old(self)@.insert(name@, new_entity_view(name@)),
            r matches Err(e) ==> e matches FelixError::NameTaken(t) && t.spec_by()
                == GroupOrEntity::Entity && t.spec_name() == name@ && final(self)@ == old(self)@,
    {
        match find_by_name(&self.entities, &name) {
            Some(_) => Err(FelixError::NameTaken(NameTaken::name_taken_by_entity(name))),
            None => {
                let p = insertion_position(&self.entities, &name);
                let ghost s = self.entities@;
                let e = Entity::new(name);
                self.entities.insert(p, e);
                proof {
                    lemma_insert_sorted(s, p as int, e);
                    lemma_name_map_insert(s, p as int, e);
                    assert(self.entities@ == s.insert(p as int, e));
                    assert forall|i: int| 0 <= i < self.entities@.len() implies (
                    #[trigger] self.entities@[i]).wf() by {
                        if i < p {
                            assert(self.entities@[i] == s[i]);
                        } else if i > p {
                            assert(self.entities@[i] == s[i - 1]);
                        }
                    }
                }
                Ok(())
            },
        }
    }

    /// Removes the entity with the given name.
    ///
    /// Returns Err if the entity does not exist.
    pub fn remove(&mut self, name: &str) -> (r: Result<(), FelixError>)
        requires
            old(self).wf(),
        ensures
            final(self).wf(),
            r is Ok <==> old(self)@.contains_key(name@),
            r is Ok ==> final(self)@ == old(self)@.remove(name@),
            r matches Err(e) ==> e matches FelixError::DoesNotExist(d) && d.is_entity_named(
                name@,
            ) && final(self)@ == old(self)@,
    {
        let name = name.to_owned();
        match find_by_name(&self.entities, &name) {
            None => Err(FelixError::DoesNotExist(DoesNotExist::entity_does_not_exist(name))),
            Some(p) => {
                let ghost s = self.entities@;
                self.entities.remove(p);
                proof {
                    lemma_remove_sorted(s, p as int);
                    lemma_name_map_remove(s, p as int);
                    assert forall|i: int| 0 <= i < self.entities@.len() implies (
                    #[trigger] self.entities@[i]).wf() by {
                        if i < p {
                            assert(self.entities@[i] == s[i]);
                        } else {
                            assert(self.entities@[i] == s[i + 1]);
                        }
                    }
                }
                Ok(())
            },
        }
    }

    /// Replaces the entity at the given position by one with the same name.
    fn replace_at(&mut self, p: usize, e: Entity)
        requires
            old(self).wf(),
            p < old(self).entities@.len(),
            e@.name == old(self).entities@[p as int]@.name,
            e.wf(),
        ensures
            final(self).wf(),
            final(self)@ == old(self)@.insert(e@.name, e@),
    {
        let ghost s = self.entities@;
        self.entities.set(p, e);
        proof {
            lemma_name_map_update(s, p as int, e);
            assert forall|i: int| 0 <= i < self.entities@.len() implies (
            #[trigger] self.entities@[i]).wf() by {
                if i != p {
                    assert(self.entities@[i] == s[i]);
                }
            }
        }
    }

    /// Finds the position of the entity with the given name, or returns the error telling that
    /// it does not exist.
    fn position_of(&self, name: &str) -> (r: Result<usize, FelixError>)
        requires
            self.wf(),
        ensures
            r is Ok <==> self@.contains_key(name@),
            r matches Ok(p) ==> p < self.entities@.len() && self.entities@[p as int]@
                == self@[name@] && self.entities@[p as int]@.name == name@,
            r matches Err(e) ==> e matches FelixError::DoesNotExist(d) && d.is_entity_named(
                name@,
            ),
    {
        let name = name.to_owned();
        match find_by_name(&self.entities, &name) {
            None => Err(FelixError::DoesNotExist(DoesNotExist::entity_does_not_exist(name))),
            Some(p) => {
                proof {
                    lemma_name_map_index(self.entities@, p as int);
                }
                Ok(p)
            },
        }
    }

    /// Renames the entity with the given name.
    ///
    /// Returns Err if the new name is already taken or if the entity does not exist.
    pub fn set_name_of(&mut self, old_name: &str, new_name: String) -> (r: Result<
        (),
        FelixError,
    >)
        requires
            old(self).wf(),
        ensures
            final(self).wf(),
            r is Ok <==> !old(self)@.contains_key(new_name@) && old(self)@.contains_key(
                old_name@,
            ),
            r is Ok ==> final(self)@ == old(self)@.remove(old_name@).insert(
                new_name@,
                EntityView { name: new_name@, ..old(self)@[old_name@] },
            ),
            r is Err ==> final(self)@ == old(self)@,
            old(self)@.contains_key(new_name@) ==> (r matches Err(FelixError::NameTaken(t))
                && t.spec_by() == GroupOrEntity::Entity && t.spec_name() == new_name@),
            !old(self)@.contains_key(new_name@) && !old(self)@.contains_key(old_name@) ==> (
            r matches Err(FelixError::DoesNotExist(d)) && d.is_entity_named(old_name@)),
    {
        if find_by_name(&self.entities, &new_name).is_some() {
            return Err(FelixError::NameTaken(NameTaken::name_taken_by_entity(new_name)));
        }
        let p = self.position_of(old_name)?;
        let ghost s = self.entities@;
        let mut e = self.entities.remove(p);
        proof {
            lemma_remove_sorted(s, p as int);
            lemma_name_map_remove(s, p as int);
            assert forall|i: int| 0 <= i < self.entities@.len() implies (
            #[trigger] self.entities@[i]).wf() by {
                if i < p {
                    assert(self.entities@[i] == s[i]);
                } else {
                    assert(self.entities@[i] == s[i + 1]);
                }
            }
            assert(!has_name(self.entities@, new_name@)) by {
                if has_name(self.entities@, new_name@) {
                    let k = choose|k: int|
                        0 <= k < self.entities@.len() && #[trigger] self.entities@[k].spec_name()
                            == new_name@;
                    if k < p {
                        assert(self.entities@[k] == s[k]);
                    } else {
                        assert(self.entities@[k] == s[k + 1]);
                    }
                }
            }
        }
        e.inner.set_name(new_name);
        let q = insertion_position(&self.entities, e.inner.name());
        let ghost t = self.entities@;
        self.entities.insert(q, e);
        proof {
            lemma_insert_sorted(t, q as int, e);
            lemma_name_map_insert(t, q as int, e);
            assert forall|i: int| 0 <= i < self.entities@.len() implies (
            #[trigger] self.entities@[i]).wf() by {
                if i < q {
                    assert(self.entities@[i] == t[i]);
                } else if i > q {
                    assert(self.entities@[i] == t[i - 1]);
                }
            }
        }
        Ok(())
    }

    /// Sets the mail of the entity with the given name.
    ///
    /// Returns Err if the entity is not found.
    pub fn set_mail_of(&mut self, entity_name: &str, mail: String) -> (r: Result<(), FelixError>)
        requires
            old(self).wf(),
        ensures
            final(self).wf(),
            r is Ok <==> old(self)@.contains_key(entity_name@),
            r is Ok ==> final(self)@ == old(self)@.insert(
                entity_name@,
                EntityView { mail: mail@, ..old(self)@[entity_name@] },
            ),
            r matches Err(e) ==> e matches FelixError::DoesNotExist(d) && d.is_entity_named(
                entity_name@,
            ) && final(self)@ == old(self)@,
    {
        let p = self.position_of(entity_name)?;
        let mut e = self.entities[p].clone();
        e.inner.set_mail(mail);
        self.replace_at(p, e);
        Ok(())
    }

    /// Sets 'send_me_a_mail' for the entity with the given name.
    ///
    /// Returns Err if the entity is not found.
    pub fn set_send_mail_to(&mut self, entity_name: &str, send: bool) -> (r: Result<
        (),
        FelixError,
    >)
        requires
            old(self).wf(),
        ensures
            final(self).wf(),
            r is Ok <==> old(self)@.contains_key(entity_name@),
            r is Ok ==> final(self)@ == old(self)@.insert(
                entity_name@,
                EntityView { send_me_a_mail: send, ..old(self)@[entity_name@] },
            ),
            r matches Err(e) ==> e matches FelixError::DoesNotExist(d) && d.is_entity_named(
                entity_name@,
            ) && final(self)@ == old(self)@,
    {
        let p = self.position_of(entity_name)?;
        let mut e = self.entities[p].clone();
        e.inner.set_send_me_a_mail(send);
        self.replace_at(p, e);
        Ok(())
    }

    /// Adds a custom work interval for the entity with the given name.
    ///
    /// Returns Err if the entity does not exist or if the interval overlaps with its custom
    /// work hours.
    pub fn add_custom_work_interval_for(&mut self, entity_name: &str, interval: TimeInterval) -> (r:
        Result<(), FelixError>)
        requires
            old(self).wf(),
            interval.wf(),
        ensures
            final(self).wf(),
            r is Ok <==> old(self)@.contains_key(entity_name@) && !overlaps_any(
                old(self)@[entity_name@].custom_work_hours,
                interval@,
            ),
            r is Ok ==> final(self)@.dom() == old(self)@.dom() && final(self)@.remove(
                entity_name@,
            ) == old(self)@.remove(entity_name@) && final(self)@[entity_name@].name
                == entity_name@ && final(self)@[entity_name@].mail == old(
                self,
            )@[entity_name@].mail && final(self)@[entity_name@].send_me_a_mail == old(
                self,
            )@[entity_name@].send_me_a_mail && final(self)@[entity_name@].custom_work_hours.to_set()
                == old(self)@[entity_name@].custom_work_hours.to_set().insert(interval@)
                && sum_durations(final(self)@[entity_name@].custom_work_hours) == sum_durations(
                old(self)@[entity_name@].custom_work_hours,
            ) + spec_duration(interval@),
            r is Err ==> final(self)@ == old(self)@,
            !old(self)@.contains_key(entity_name@) ==> (r matches Err(
                FelixError::DoesNotExist(d),
            ) && d.is_entity_named(entity_name@)),
            old(self)@.contains_key(entity_name@) && r is Err ==> r matches Err(
                FelixError::IntervalOverlaps,
            ),
    {
        let p = self.position_of(entity_name)?;
        let mut e = self.entities[p].clone();
        e.inner.add_work_interval(interval)?;
        self.replace_at(p, e);
        proof {
            assert(final(self)@.remove(entity_name@) =~= old(self)@.remove(entity_name@));
        }
        Ok(())
    }

    /// Removes a custom work interval of the entity with the given name.
    ///
    /// Returns Err if the entity does not exist or if the interval is not one of its custom
    /// work intervals.
    pub fn remove_custom_work_interval_for(
        &mut self,
        entity_name: &str,
        interval: TimeInterval,
    ) -> (r: Result<(), FelixError>)
        requires
            old(self).wf(),
        ensures
            final(self).wf(),
            r is Ok <==> old(self)@.contains_key(entity_name@) && old(
                self,
            )@[entity_name@].custom_work_hours.contains(interval@),
            r is Ok ==> final(self)@.dom() == old(self)@.dom() && final(self)@.remove(
                entity_name@,
            ) == old(self)@.remove(entity_name@) && final(self)@[entity_name@].name
                == entity_name@ && final(self)@[entity_name@].mail == old(
                self,
            )@[entity_name@].mail && final(self)@[entity_name@].send_me_a_mail == old(
                self,
            )@[entity_name@].send_me_a_mail && final(self)@[entity_name@].custom_work_hours.to_set()
                == old(self)@[entity_name@].custom_work_hours.to_set().remove(interval@)
                && final(self)@[entity_name@].custom_work_hours.len() + 1 == old(
                self,
            )@[entity_name@].custom_work_hours.len() && sum_durations(
                final(self)@[entity_name@].custom_work_hours,
            ) + spec_duration(interval@) == sum_durations(
                old(self)@[entity_name@].custom_work_hours,
            ),
            r is Err ==> final(self)@ == old(self)@,
            !old(self)@.contains_key(entity_name@) ==> (r matches Err(
                FelixError::DoesNotExist(d),
            ) && d.is_entity_named(entity_name@)),
            old(self)@.contains_key(entity_name@) && r is Err ==> (r matches Err(
                FelixError::DoesNotExist(d),
            ) && *d == DoesNotExist::Interval(interval)),
    {
        let p = self.position_of(entity_name)?;
        let mut e = self.entities[p].clone();
        e.inner.remove_work_interval(interval)?;
        self.replace_at(p, e);
        proof {
            assert(final(self)@.remove(entity_name@) =~= old(self)@.remove(entity_name@));
        }
        Ok(())
    }

    /// Replaces a custom work interval of the entity with the given name.
    ///
    /// Returns Err if the entity does not exist, if the work interval is not found
    /// or if the new work interval overlaps with others.
    pub fn update_custom_work_interval_for(
        &mut self,
        entity_name: &str,
        old_interval: TimeInterval,
        new_interval: TimeInterval,
    ) -> (r: Result<(), FelixError>)
        requires
            old(self).wf(),
            new_interval.wf(),
        ensures
            final(self).wf(),
            r is Ok <==> old(self)@.contains_key(entity_name@) && old(
                self,
            )@[entity_name@].custom_work_hours.contains(old_interval@) && !overlaps_any(
                old(self)@[entity_name@].custom_work_hours.remove(
                    old(self)@[entity_name@].custom_work_hours.index_of(old_interval@),
                ),
                new_interval@,
            ),
            r is Ok ==> final(self)@.dom() == old(self)@.dom() && final(self)@.remove(
                entity_name@,
            ) == old(self)@.remove(entity_name@) && final(self)@[entity_name@].name
                == entity_name@ && final(self)@[entity_name@].mail == old(
                self,
            )@[entity_name@].mail && final(self)@[entity_name@].send_me_a_mail == old(
                self,
            )@[entity_name@].send_me_a_mail && final(self)@[entity_name@].custom_work_hours.to_set()
                == old(self)@[entity_name@].custom_work_hours.to_set().remove(
                old_interval@,
            ).insert(new_interval@) && final(self)@[entity_name@].custom_work_hours.len() == old(
                self,
            )@[entity_name@].custom_work_hours.len() && sum_durations(
                final(self)@[entity_name@].custom_work_hours,
            ) + spec_duration(old_interval@) == sum_durations(
                old(self)@[entity_name@].custom_work_hours,
            ) + spec_duration(new_interval@),
            r is Err ==> final(self)@ == old(self)@,
            !old(self)@.contains_key(entity_name@) ==> (r matches Err(
                FelixError::DoesNotExist(d),
            ) && d.is_entity_named(entity_name@)),
            old(self)@.contains_key(entity_name@) && r is Err ==> (r matches Err(e) && if old(
                self,
            )@[entity_name@].custom_work_hours.contains(old_interval@) {
                e is IntervalOverlaps
            } else {
                e matches FelixError::DoesNotExist(d) && *d == DoesNotExist::Interval(old_interval)
            }),
    {
        let p = self.position_of(entity_name)?;
        let mut e = self.entities[p].clone();
        e.inner.update_work_interval(old_interval, new_interval)?;
        self.replace_at(p, e);
        proof {
            assert(final(self)@.remove(entity_name@) =~= old(self)@.remove(entity_name@));
        }
        Ok(())
    }
}

} // verus!
