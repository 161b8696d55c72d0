//! Groups: aggregations of entities.

use crate::errors::already_in::{ActivityOrGroup as AlreadyInContainer, AlreadyIn};
use crate::errors::already_in::EntityOrGroup as AlreadyInWhat;
use crate::errors::does_not_exist::DoesNotExist;
use crate::errors::name_taken::{GroupOrEntity, NameTaken};
use crate::errors::not_in::{ActivityOrGroup as NotInContainer, NotIn};
use crate::errors::not_in::EntityOrGroup as NotInWhat;
use crate::errors::FelixError;
use crate::named::{
    contains_name, find_by_name, has_name, insertion_position, lemma_insert_sorted,
    lemma_name_map_dom, lemma_name_map_index, lemma_name_map_insert, lemma_name_map_pointwise,
    lemma_name_map_remove, lemma_name_map_update, lemma_name_set_finite, lemma_remove_sorted,
    name_index, name_map, name_set, names_sorted, sorted_insert, sorted_remove, HasName,
};
use vstd::prelude::*;

verus! {

/// The abstract value of a group.
pub struct GroupView {
    pub name: Seq<char>,
    pub entities: Set<Seq<char>>,
}

/// The set of names after renaming `old_name` into `new_name`: nothing changes if the new name
/// is already present or the old name is absent.
pub open spec fn rename_in_set(s: Set<Seq<char>>, old_name: Seq<char>, new_name: Seq<char>) -> Set<
    Seq<char>,
> {
    if s.contains(new_name) {
        s
    } else if s.contains(old_name) {
        s.remove(old_name).insert(new_name)
    } else {
        s
    }
}

/// Inner data of a group, which can be modified by the group collection.
#[derive(Debug, PartialEq, Eq)]
pub struct GroupInner {
    name: String,
    entities: Vec<String>,
}

impl View for GroupInner {
    type V = GroupView;

    closed spec fn view(&self) -> GroupView {
        GroupView { name: self.name@, entities: name_set(self.entities@) }
    }
}

impl Clone for GroupInner {
    fn clone(&self) -> (r: Self)
        ensures
            r@ == self@,
            r.wf() == self.wf(),
    {
        let mut v: Vec<String> = Vec::new();
        let mut i: usize = 0;
        while i < self.entities.len()
            invariant
                i <= self.entities@.len(),
                v@ == self.entities@.take(i as int),
            decreases self.entities@.len() - i,
        {
            v.push(self.entities[i].clone());
            i = i + 1;
            assert(v@ =~= self.entities@.take(i as int));
        }
        assert(self.entities@.take(i as int) =~= self.entities@);
        GroupInner { name: self.name.clone(), entities: v }
    }
}

impl GroupInner {
    /// Well-formedness: the entities are sorted by name, without duplicates.
    pub closed spec fn wf(&self) -> bool {
        names_sorted(self.entities@)
    }

    /// The entities of a group form a finite set.
    pub proof fn lemma_finite(&self)
        ensures
            self@.entities.finite(),
    {
        lemma_name_set_finite(self.entities@);
    }

    /// Creates a new GroupInner with the given name.
    pub fn new(name: String) -> (g: GroupInner)
        ensures
            g@ == (GroupView { name: name@, entities: Set::empty() }),
            g.wf(),
    {
        let g = GroupInner { name, entities: Vec::new() };
        assert(g@.entities =~= Set::<Seq<char>>::empty());
        g
    }

    /// Simple getter for the name.
    pub fn name(&self) -> (r: &String)
        ensures
            r@ == self@.name,
    {
        &self.name
    }

    /// Getter for the entities, sorted by name.
    pub fn entities_sorted(&self) -> (r: Vec<String>)
        requires
            self.wf(),
        ensures
            names_sorted(r@),
            name_set(r@) == self@.entities,
    {
        let mut v: Vec<String> = Vec::new();
        let mut i: usize = 0;
        while i < self.entities.len()
            invariant
                i <= self.entities@.len(),
                v@.len() == i,
                forall|k: int| 0 <= k < i ==> (#[trigger] v@[k])@ == self.entities@[k]@,
            decreases self.entities@.len() - i,
        {
            v.push(self.entities[i].clone());
            i = i + 1;
        }
        proof {
            lemma_name_map_pointwise(self.entities@, v@);
            lemma_name_map_dom(self.entities@);
            lemma_name_map_dom(v@);
        }
        v
    }

    /// True if the entity is part of the group.
    pub fn contains_entity(&self, entity_name: &String) -> (b: bool)
        ensures
            b == self@.entities.contains(entity_name@),
    {
        contains_name(&self.entities, entity_name)
    }

    /// Adds an entity to the group.
    ///
    /// Returns Err if the entity is already in the group.
    pub fn add_entity(&mut self, entity_name: String) -> (r: Result<(), FelixError>)
        requires
            old(self).wf(),
        ensures
            final(self).wf(),
            r is Ok <==> !old(self)@.entities.contains(entity_name@),
            r is Ok ==> final(self)@ == (GroupView {
                entities: old(self)@.entities.insert(entity_name@),
                ..old(self)@
            }),
            r matches Err(e) ==> final(self)@ == old(self)@ && (e matches FelixError::AlreadyIn(a)
                && a.spec_what() == AlreadyInWhat::Entity && a.spec_who() == entity_name@
                && a.spec_in_what() == AlreadyInContainer::Group && a.spec_in_who()
                == old(self)@.name),
    {
        let ghost name_copy = entity_name@;
        let kept = entity_name.clone();
        if sorted_insert(&mut self.entities, entity_name) {
            Ok(())
        } else {
            Err(FelixError::AlreadyIn(AlreadyIn::entity_already_in_group(kept, self.name.clone())))
        }
    }

    /// Removes an entity from the group.
    ///
    /// Returns Err if the entity is not in the group.
    pub fn remove_entity(&mut self, entity_name: &str) -> (r: Result<(), FelixError>)
        requires
            old(self).wf(),
        ensures
            final(self).wf(),
            r is Ok <==> old(self)@.entities.contains(entity_name@),
            r is Ok ==> final(self)@ == (GroupView {
                entities: old(self)@.entities.remove(entity_name@),
                ..old(self)@
            }),
            r matches Err(e) ==> final(self)@ == old(self)@ && (e matches FelixError::NotIn(a)
                && a.spec_what() == NotInWhat::Entity && a.spec_who() == entity_name@
                && a.spec_in_what() == NotInContainer::Group && a.spec_in_who()
                == old(self)@.name),
    {
        let entity_name = entity_name.to_owned();
        if sorted_remove(&mut self.entities, &entity_name) {
            Ok(())
        } else {
            Err(FelixError::NotIn(NotIn::entity_not_in_group(entity_name, self.name.clone())))
        }
    }

    /// Sets the name of the group.
    pub fn set_name(&mut self, name: String)
        ensures
            final(self)@ == (GroupView { name: name@, ..old(self)@ }),
            final(self).wf() == old(self).wf(),
    {
        self.name = name;
    }

    /// Renames an entity in the group.
    ///
    /// Returns Err if an entity with the new name is already in the group or if the entity is
    /// not part of the group.
    pub fn rename_entity(&mut self, old_name: &str, new_name: String) -> (r: Result<
        (),
        FelixError,
    >)
        requires
            old(self).wf(),
        ensures
            final(self).wf(),
            final(self)@ == (GroupView {
                entities: rename_in_set(old(self)@.entities, old_name@, new_name@),
                ..old(self)@
            }),
            r is Ok <==> !old(self)@.entities.contains(new_name@) && old(self)@.entities.contains(
                old_name@,
            ),
            old(self)@.entities.contains(new_name@) ==> (r matches Err(FelixError::NameTaken(t))
                && t.spec_by() == GroupOrEntity::Entity && t.spec_name() == new_name@),
            !old(self)@.entities.contains(new_name@) && !old(self)@.entities.contains(old_name@)
                ==> (r matches Err(FelixError::NotIn(a)) && a.spec_what() == NotInWhat::Entity
                && a.spec_who() == old_name@ && a.spec_in_what() == NotInContainer::Activity
                && a.spec_in_who() == old(self)@.name),
    {
        if contains_name(&self.entities, &new_name) {
            return Err(FelixError::NameTaken(NameTaken::name_taken_by_entity(new_name)));
        }
        let old_name = old_name.to_owned();
        if sorted_remove(&mut self.entities, &old_name) {
            let ghost mid = self.entities@;
            sorted_insert(&mut self.entities, new_name);
            Ok(())
        } else {
            Err(FelixError::NotIn(NotIn::entity_not_in_activity(old_name, self.name.clone())))
        }
    }
}

/// A group is an aggregation of entities.
///
/// Groups have unique names. A group may not have the same name as an entity.
///
/// This structure is read-only. If you wish to create or modify a group, use the Data object.
#[derive(Debug, PartialEq, Eq)]
pub struct Group {
    inner: GroupInner,
}

impl View for Group {
    type V = GroupView;

    closed spec fn view(&self) -> GroupView {
        self.inner@
    }
}

impl Clone for Group {
    fn clone(&self) -> (r: Self)
        ensures
            r@ == self@,
            r.wf() == self.wf(),
    {
        Group { inner: self.inner.clone() }
    }
}

impl HasName for Group {
    open spec fn spec_name(&self) -> Seq<char> {
        self@.name
    }

    fn name_ref(&self) -> (r: &String) {
        self.inner.name()
    }
}

impl Group {
    /// Well-formedness: the entities are sorted by name, without duplicates.
    pub closed spec fn wf(&self) -> bool {
        self.inner.wf()
    }

    /// Creates a new group with the given name.
    pub(crate) fn new(name: String) -> (g: Group)
        ensures
            g@ == (GroupView { name: name@, entities: Set::empty() }),
            g.wf(),
    {
        Group { inner: GroupInner::new(name) }
    }

    /// Simple getter for the name.
    pub fn name(&self) -> (r: String)
        ensures
            r@ == self@.name,
    {
        self.inner.name().clone()
    }

    /// Simple getter for the entities, sorted by name.
    pub fn entities_sorted(&self) -> (r: Vec<String>)
        requires
            self.wf(),
        ensures
            names_sorted(r@),
            name_set(r@) == self@.entities,
    {
        self.inner.entities_sorted()
    }

    /// True if the entity is part of the group.
    pub fn contains_entity(&self, entity_name: &String) -> (b: bool)
        ensures
            b == self@.entities.contains(entity_name@),
    {
        self.inner.contains_entity(entity_name)
    }
}

} // verus!

verus! {

/// The view of a group which was just created with the given name.
pub open spec fn new_group_view(name: Seq<char>) -> GroupView {
    GroupView { name: name, entities: Set::empty() }
}

/// Manages the groups. Makes sure there are no duplicates.
///
/// The groups are kept sorted by name.
#[derive(Debug, PartialEq, Eq)]
pub struct Groups {
    groups: Vec<Group>,
}

impl View for Groups {
    type V = Map<Seq<char>, GroupView>;

    /// The groups by their names.
    closed spec fn view(&self) -> Map<Seq<char>, GroupView> {
        name_map(self.groups@)
    }
}

impl Clone for Groups {
    fn clone(&self) -> (r: Self)
        ensures
            self.wf() ==> r@ == self@ && r.wf(),
    {
        let mut v: Vec<Group> = Vec::new();
        let mut i: usize = 0;
        while i < self.groups.len()
            invariant
                i <= self.groups@.len(),
                v@.len() == i,
                forall|k: int| 0 <= k < i ==> (#[trigger] v@[k])@ == self.groups@[k]@ && v@[k].wf()
                    == self.groups@[k].wf(),
            decreases self.groups@.len() - i,
        {
            v.push(self.groups[i].clone());
            i = i + 1;
        }
        let r = Groups { groups: v };
        proof {
            if self.wf() {
                lemma_name_map_pointwise(self.groups@, v@);
                assert(r@ =~= self@);
            }
        }
        r
    }
}

impl Groups {
    /// Well-formedness: the groups are sorted by name, without duplicates, and each one is
    /// well formed.
    pub closed spec fn wf(&self) -> bool {
        &&& names_sorted(self.groups@)
        &&& forall|i: int| 0 <= i < self.groups@.len() ==> (#[trigger] self.groups@[i]).wf()
    }

    /// Each group is stored under its own name and holds a finite set of entities.
    pub proof fn lemma_wf(&self)
        requires
            self.wf(),
        ensures
            forall|n: Seq<char>| #[trigger] self@.contains_key(n) ==> self@[n].name == n,
            forall|n: Seq<char>| #[trigger] self@.contains_key(n) ==> self@[n].entities.finite(),
            self@.dom().finite(),
    {
        assert forall|n: Seq<char>| #[trigger] self@.contains_key(n) implies self@[n].name == n
            && self@[n].entities.finite() by {
            let i = name_index(self.groups@, n);
            lemma_name_map_index(self.groups@, i);
            self.groups@[i].inner.lemma_finite();
        }
        lemma_name_map_dom(self.groups@);
        lemma_name_set_finite(self.groups@);
    }

    /// Creates the Groups collection.
    pub fn new() -> (r: Groups)
        ensures
            r@ == Map::<Seq<char>, GroupView>::empty(),
            r.wf(),
    {
        let r = Groups { groups: Vec::new() };
        assert(r@ =~= Map::<Seq<char>, GroupView>::empty());
        r
    }

    /// Returns copies of the groups, sorted by name.
    pub fn sorted_by_name(&self) -> (r: Vec<Group>)
        requires
            self.wf(),
        ensures
            names_sorted(r@),
            name_map(r@) == self@,
            forall|i: int| 0 <= i < r@.len() ==> (#[trigger] r@[i]).wf(),
    {
        let mut r: Vec<Group> = Vec::new();
        let mut i: usize = 0;
        while i < self.groups.len()
            invariant
                self.wf(),
                i <= self.groups@.len(),
                r@.len() == i,
                forall|k: int| 0 <= k < i ==> (#[trigger] r@[k])@ == self.groups@[k]@ && r@[k].wf(),
            decreases self.groups@.len() - i,
        {
            r.push(self.groups[i].clone());
            i = i + 1;
        }
        proof {
            lemma_name_map_pointwise(self.groups@, r@);
            assert(name_map(r@) =~= self@);
        }
        r
    }

    /// Finds the position of the group with the given name, or returns the error telling that
    /// it does not exist.
    fn position_of(&self, name: &str) -> (r: Result<usize, FelixError>)
        requires
            self.wf(),
        ensures
            r is Ok <==> self@.contains_key(name@),
            r matches Ok(p) ==> p < self.groups@.len() && self.groups@[p as int]@ == self@[name@]
                && self.groups@[p as int]@.name == name@,
            r matches Err(e) ==> e matches FelixError::DoesNotExist(d) && d.is_group_named(name@),
    {
        let name = name.to_owned();
        match find_by_name(&self.groups, &name) {
            None => Err(FelixError::DoesNotExist(DoesNotExist::group_does_not_exist(name))),
            Some(p) => {
                proof {
                    lemma_name_map_index(self.groups@, p as int);
                }
                Ok(p)
            },
        }
    }

    /// Returns a copy of the group with the given name.
    ///
    /// Returns Err if the group does not exist.
    pub fn get_by_name(&self, name: &str) -> (r: Result<Group, FelixError>)
        requires
            self.wf(),
        ensures
            r is Ok <==> self@.contains_key(name@),
            r matches Ok(g) ==> g@ == self@[name@] && g.wf(),
            r matches Err(e) ==> e matches FelixError::DoesNotExist(d) && d.is_group_named(name@),
    {
        let p = self.position_of(name)?;
        Ok(self.groups[p].clone())
    }

    /// True if there is a group with the given name.
    pub fn contains(&self, name: &String) -> (b: bool)
        requires
            self.wf(),
        ensures
            b == self@.contains_key(name@),
    {
        find_by_name(&self.groups, name).is_some()
    }

    /// Adds a group with the given name.
    ///
    /// Returns Err if the name is already taken by a group.
    pub fn add(&mut self, name: String) -> (r: Result<(), FelixError>)
        requires
            old(self).wf(),
        ensures
            final(self).wf(),
            r is Ok <==> !old(self)@.contains_key(name@),
            r is Ok ==> final(self)@ == old(self)@.insert(name@, new_group_view(name@)),
            r matches Err(e) ==> e matches FelixError::NameTaken(t) && t.spec_by()
                == GroupOrEntity::Group && t.spec_name() == name@ && final(self)@ == old(self)@,
    {
        match find_by_name(&self.groups, &name) {
            Some(_) => Err(FelixError::NameTaken(NameTaken::name_taken_by_group(name))),
            None => {
                let p = insertion_position(&self.groups, &name);
                let ghost s = self.groups@;
                let g = Group::new(name);
                self.groups.insert(p, g);
                proof {
                    lemma_insert_sorted(s, p as int, g);
                    lemma_name_map_insert(s, p as int, g);
                    assert(self.groups@ == s.insert(p as int, g));
                    assert forall|i: int| 0 <= i < self.groups@.len() implies (
                    #[trigger] self.groups@[i]).wf() by {
                        if i < p {
                            assert(self.groups@[i] == s[i]);
                        } else if i > p {
                            assert(self.groups@[i] == s[i - 1]);
                        }
                    }
                }
                Ok(())
            },
        }
    }

    /// Removes the group with the given name.
    ///
    /// Returns Err if the group does not exist.
    pub fn remove(&mut self, name: &str) -> (r: Result<(), FelixError>)
        requires
            old(self).wf(),
        ensures
            final(self).wf(),
            r is Ok <==> old(self)@.contains_key(name@),
            r is Ok ==> final(self)@ == old(self)@.remove(name@),
            r matches Err(e) ==> e matches FelixError::DoesNotExist(d) && d.is_group_named(name@)
                && final(self)@ == old(self)@,
    {
        let p = self.position_of(name)?;
        let ghost s = self.groups@;
        self.groups.remove(p);
        proof {
            lemma_remove_sorted(s, p as int);
            lemma_name_map_remove(s, p as int);
            assert forall|i: int| 0 <= i < self.groups@.len() implies (
            #[trigger] self.groups@[i]).wf() by {
                if i < p {
                    assert(self.groups@[i] == s[i]);
                } else {
                    assert(self.groups@[i] == s[i + 1]);
                }
            }
        }
        Ok(())
    }

    /// Replaces the group at the given position by one with the same name.
    fn replace_at(&mut self, p: usize, g: Group)
        requires
            old(self).wf(),
            p < old(self).groups@.len(),
            g@.name == old(self).groups@[p as int]@.name,
            g.wf(),
        ensures
            final(self).wf(),
            final(self)@ == old(self)@.insert(g@.name, g@),
    {
        let ghost s = self.groups@;
        self.groups.set(p, g);
        proof {
            lemma_name_map_update(s, p as int, g);
            assert forall|i: int| 0 <= i < self.groups@.len() implies (
            #[trigger] self.groups@[i]).wf() by {
                if i != p {
                    assert(self.groups@[i] == s[i]);
                }
            }
        }
    }

    /// Adds the entity to the group with the given name.
    ///
    /// Returns Err if the group does not exist or if the entity is already in the group.
    pub fn add_entity_to_group(&mut self, group_name: &str, entity_name: String) -> (r: Result<
        (),
        FelixError,
    >)
        requires
            old(self).wf(),
        ensures
            final(self).wf(),
            r is Ok <==> old(self)@.contains_key(group_name@) && !old(
                self,
            )@[group_name@].entities.contains(entity_name@),
            r is Ok ==> final(self)@ == old(self)@.insert(
                group_name@,
                GroupView {
                    entities: old(self)@[group_name@].entities.insert(entity_name@),
                    ..old(self)@[group_name@]
                },
            ),
            r is Err ==> final(self)@ == old(self)@,
            !old(self)@.contains_key(group_name@) ==> (r matches Err(FelixError::DoesNotExist(d))
                && d.is_group_named(group_name@)),
            old(self)@.contains_key(group_name@) && old(self)@[group_name@].entities.contains(
                entity_name@,
            ) ==> (r matches Err(FelixError::AlreadyIn(a)) && a.spec_who() == entity_name@
                && a.spec_in_who() == group_name@),
    {
        let p = self.position_of(group_name)?;
        let mut g = self.groups[p].clone();
        g.inner.add_entity(entity_name)?;
        self.replace_at(p, g);
        Ok(())
    }

    /// Removes the entity from the group with the given name.
    ///
    /// Returns Err if the group does not exist or if the entity is not in the group.
    pub fn remove_entity_from_group(&mut self, group_name: &str, entity_name: &str) -> (r: Result<
        (),
        FelixError,
    >)
        requires
            old(self).wf(),
        ensures
            final(self).wf(),
            r is Ok <==> old(self)@.contains_key(group_name@) && old(
                self,
            )@[group_name@].entities.contains(entity_name@),
            r is Ok ==> final(self)@ == old(self)@.insert(
                group_name@,
                GroupView {
                    entities: old(self)@[group_name@].entities.remove(entity_name@),
                    ..old(self)@[group_name@]
                },
            ),
            r is Err ==> final(self)@ == old(self)@,
            !old(self)@.contains_key(group_name@) ==> (r matches Err(FelixError::DoesNotExist(d))
                && d.is_group_named(group_name@)),
            old(self)@.contains_key(group_name@) && !old(self)@[group_name@].entities.contains(
                entity_name@,
            ) ==> (r matches Err(FelixError::NotIn(a)) && a.spec_who() == entity_name@
                && a.spec_in_who() == group_name@),
    {
        let p = self.position_of(group_name)?;
        let mut g = self.groups[p].clone();
        g.inner.remove_entity(entity_name)?;
        self.replace_at(p, g);
        Ok(())
    }

    /// Renames the group with the given name.
    ///
    /// Returns Err if the new name is already taken by a group or if the group does not exist.
    pub fn set_name_of(&mut self, old_name: &str, new_name: String) -> (r: Result<
        (),
        FelixError,
    >)
        requires
            old(self).wf(),
        ensures
            final(self).wf(),
            r is Ok <==> !old(self)@.contains_key(new_name@) && old(self)@.contains_key(
                old_name@,
            ),
            r is Ok ==> final(self)@ == old(self)@.remove(old_name@).insert(
                new_name@,
                GroupView { name: new_name@, ..old(self)@[old_name@] },
            ),
            r is Err ==> final(self)@ == old(self)@,
            old(self)@.contains_key(new_name@) ==> (r matches Err(FelixError::NameTaken(t))
                && t.spec_by() == GroupOrEntity::Group && t.spec_name() == new_name@),
            !old(self)@.contains_key(new_name@) && !old(self)@.contains_key(old_name@) ==> (
            r matches Err(FelixError::DoesNotExist(d)) && d.is_group_named(old_name@)),
    {
        if find_by_name(&self.groups, &new_name).is_some() {
            return Err(FelixError::NameTaken(NameTaken::name_taken_by_group(new_name)));
        }
        let p = self.position_of(old_name)?;
        let ghost s = self.groups@;
        let mut g = self.groups.remove(p);
        proof {
            lemma_remove_sorted(s, p as int);
            lemma_name_map_remove(s, p as int);
            assert forall|i: int| 0 <= i < self.groups@.len() implies (
            #[trigger] self.groups@[i]).wf() by {
                if i < p {
                    assert(self.groups@[i] == s[i]);
                } else {
                    assert(self.groups@[i] == s[i + 1]);
                }
            }
            assert(!has_name(self.groups@, new_name@)) by {
                if has_name(self.groups@, new_name@) {
                    let k = choose|k: int|
                        0 <= k < self.groups@.len() && #[trigger] self.groups@[k].spec_name()
                            == new_name@;
                    if k < p {
                        assert(self.groups@[k] == s[k]);
                    } else {
                        assert(self.groups@[k] == s[k + 1]);
                    }
                }
            }
        }
        g.inner.set_name(new_name);
        let q = insertion_position(&self.groups, g.inner.name());
        let ghost t = self.groups@;
        self.groups.insert(q, g);
        proof {
            lemma_insert_sorted(t, q as int, g);
            lemma_name_map_insert(t, q as int, g);
            assert forall|i: int| 0 <= i < self.groups@.len() implies (
            #[trigger] self.groups@[i]).wf() by {
                if i < q {
                    assert(self.groups@[i] == t[i]);
                } else if i > q {
                    assert(self.groups@[i] == t[i - 1]);
                }
            }
        }
        Ok(())
    }

    /// Renames the entity in every group.
    ///
    /// A group which does not contain the entity, or which already contains an entity with the
    /// new name, is left unchanged.
    pub fn rename_entity_in_all(&mut self, old_name: &str, new_name: String)
        requires
            old(self).wf(),
        ensures
            final(self).wf(),
            final(self)@.dom() == old(self)@.dom(),
            forall|n: Seq<char>| #[trigger]
                final(self)@.contains_key(n) ==> final(self)@[n] == (GroupView {
                    entities: rename_in_set(old(self)@[n].entities, old_name@, new_name@),
                    ..old(self)@[n]
                }),
    {
        let ghost s = self.groups@;
        let mut i: usize = 0;
        while i < self.groups.len()
            invariant
                i <= self.groups@.len(),
                self.groups@.len() == s.len(),
                names_sorted(s),
                forall|k: int| 0 <= k < s.len() ==> (#[trigger] s[k]).wf(),
                forall|k: int| 0 <= k < s.len() ==> (#[trigger] self.groups@[k]).wf(),
                forall|k: int| 0 <= k < i ==> (#[trigger] self.groups@[k])@ == (GroupView {
                    entities: rename_in_set(s[k]@.entities, old_name@, new_name@),
                    ..s[k]@
                }),
                forall|k: int| i <= k < s.len() ==> #[trigger] self.groups@[k] == s[k],
            decreases s.len() - i,
        {
            let mut g = self.groups[i].clone();
            let _ = g.inner.rename_entity(old_name, new_name.clone());
            self.groups.set(i, g);
            i = i + 1;
        }
        proof {
            assert forall|k: int| 0 <= k < s.len() implies (#[trigger] self.groups@[k]).spec_name()
                == s[k].spec_name() by {
                if k < i {
                    assert(self.groups@[k]@.name == s[k]@.name);
                }
            }
            lemma_name_map_pointwise(s, self.groups@);
            assert forall|n: Seq<char>| #[trigger] self@.contains_key(n) implies self@[n] == (
            GroupView {
                entities: rename_in_set(name_map(s)[n].entities, old_name@, new_name@),
                ..name_map(s)[n]
            }) by {
                assert(name_map(s).contains_key(n));
            }
        }
    }

    /// Removes the entity from every group.
    pub fn remove_entity_from_all(&mut self, entity_name: &str)
        requires
            old(self).wf(),
        ensures
            final(self).wf(),
            final(self)@.dom() == old(self)@.dom(),
            forall|n: Seq<char>| #[trigger]
                final(self)@.contains_key(n) ==> final(self)@[n] == (GroupView {
                    entities: old(self)@[n].entities.remove(entity_name@),
                    ..old(self)@[n]
                }),
    {
        let ghost s = self.groups@;
        let mut i: usize = 0;
        while i < self.groups.len()
            invariant
                i <= self.groups@.len(),
                self.groups@.len() == s.len(),
                names_sorted(s),
                forall|k: int| 0 <= k < s.len() ==> (#[trigger] s[k]).wf(),
                forall|k: int| 0 <= k < s.len() ==> (#[trigger] self.groups@[k]).wf(),
                forall|k: int| 0 <= k < i ==> (#[trigger] self.groups@[k])@ == (GroupView {
                    entities: s[k]@.entities.remove(entity_name@),
                    ..s[k]@
                }),
                forall|k: int| i <= k < s.len() ==> #[trigger] self.groups@[k] == s[k],
            decreases s.len() - i,
        {
            let mut g = self.groups[i].clone();
            let res = g.inner.remove_entity(entity_name);
            proof {
                if res is Err {
                    assert(s[i as int]@.entities.remove(entity_name@) =~= s[i as int]@.entities);
                }
            }
            self.groups.set(i, g);
            i = i + 1;
        }
        proof {
            assert forall|k: int| 0 <= k < s.len() implies (#[trigger] self.groups@[k]).spec_name()
                == s[k].spec_name() by {
                if k < i {
                    assert(self.groups@[k]@.name == s[k]@.name);
                }
            }
            lemma_name_map_pointwise(s, self.groups@);
            assert forall|n: Seq<char>| #[trigger] self@.contains_key(n) implies self@[n] == (
            GroupView { entities: name_map(s)[n].entities.remove(entity_name@), ..name_map(s)[n] })
                by {
                assert(name_map(s).contains_key(n));
            }
        }
    }
}

} // verus!
