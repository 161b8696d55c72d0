//! Non-computation data of an activity: id, name, participants and color.

use crate::errors::already_in::{ActivityOrGroup as AlreadyInContainer, AlreadyIn};
use crate::errors::already_in::EntityOrGroup as AlreadyInWhat;
use crate::errors::name_taken::{GroupOrEntity, NameTaken};
use crate::errors::not_in::{ActivityOrGroup as NotInContainer, NotIn};
use crate::errors::not_in::EntityOrGroup as NotInWhat;
use crate::errors::FelixError;
use crate::group::rename_in_set;
use crate::named::{
    contains_name, lemma_name_map_dom, lemma_name_map_pointwise, lemma_name_set_finite, name_set,
    names_sorted, sorted_insert, sorted_remove,
};
use vstd::prelude::*;

verus! {

/// Identifier of an activity.
pub type ActivityId = usize;

/// Represents a color. Each channel holds the bits of a floating-point number which should be
/// kept in [0.0; 1.0].
#[derive(Debug, Clone, Copy, PartialEq, Eq, Hash, Structural)]
pub struct Rgba {
    pub red: u64,
    pub green: u64,
    pub blue: u64,
    pub alpha: u64,
}

impl Rgba {
    /// The default color of an activity: blue (0.203, 0.396, 0.643, 1.0).
    pub fn default_color() -> (c: Rgba)
        ensures
            c == spec_default_color(),
    {
        Rgba {
            red: 0x3fc9fbe76c8b4396,
            green: 0x3fd95810624dd2f2,
            blue: 0x3fe49374bc6a7efa,
            alpha: 0x3ff0000000000000,
        }
    }
}

/// The default color of an activity: blue (0.203, 0.396, 0.643, 1.0).
pub open spec fn spec_default_color() -> Rgba {
    Rgba {
        red: 0x3fc9fbe76c8b4396,
        green: 0x3fd95810624dd2f2,
        blue: 0x3fe49374bc6a7efa,
        alpha: 0x3ff0000000000000,
    }
}

/// The abstract value of the metadata of an activity.
pub struct ActivityMetadataView {
    pub id: ActivityId,
    pub name: Seq<char>,
    pub entities: Set<Seq<char>>,
    pub groups: Set<Seq<char>>,
    pub color: Rgba,
}

/// Simple structure holding non-computation related data : id, name, entities, groups, color.
///
/// Entities and groups are kept sorted by name, without duplicates.
#[derive(Debug, PartialEq, Eq)]
pub struct ActivityMetadata {
    id: ActivityId,
    name: String,
    entities: Vec<String>,
    groups: Vec<String>,
    display_color: Rgba,
}

impl View for ActivityMetadata {
    type V = ActivityMetadataView;

    closed spec fn view(&self) -> ActivityMetadataView {
        ActivityMetadataView {
            id: self.id,
            name: self.name@,
            entities: name_set(self.entities@),
            groups: name_set(self.groups@),
            color: self.display_color,
        }
    }
}

fn clone_names(v: &Vec<String>) -> (r: Vec<String>)
    ensures
        r@ == v@,
{
    let mut r: Vec<String> = Vec::new();
    let mut i: usize = 0;
    while i < v.len()
        invariant
            i <= v@.len(),
            r@ == v@.take(i as int),
        decreases v@.len() - i,
    {
        r.push(v[i].clone());
        i = i + 1;
        assert(r@ =~= v@.take(i as int));
    }
    assert(v@.take(i as int) =~= v@);
    r
}

impl Clone for ActivityMetadata {
    fn clone(&self) -> (r: Self)
        ensures
            r@ == self@,
            r.wf() == self.wf(),
    {
        ActivityMetadata {
            id: self.id,
            name: self.name.clone(),
            entities: clone_names(&self.entities),
            groups: clone_names(&self.groups),
            display_color: self.display_color,
        }
    }
}

impl ActivityMetadata {
    /// Well-formedness: entities and groups are sorted by name, without duplicates.
    pub closed spec fn wf(&self) -> bool {
        names_sorted(self.entities@) && names_sorted(self.groups@)
    }

    /// The entities and groups of an activity form finite sets.
    pub proof fn lemma_finite(&self)
        ensures
            self@.entities.finite(),
            self@.groups.finite(),
    {
        lemma_name_set_finite(self.entities@);
        lemma_name_set_finite(self.groups@);
    }

    /// Creates new activity metadata.
    pub fn new(id: ActivityId, name: String) -> (m: ActivityMetadata)
        ensures
            m@ == (ActivityMetadataView {
                id,
                name: name@,
                entities: Set::empty(),
                groups: Set::empty(),
                color: spec_default_color(),
            }),
            m.wf(),
    {
        let m = ActivityMetadata {
            id,
            name,
            entities: Vec::new(),
            groups: Vec::new(),
            display_color: Rgba::default_color(),
        };
        assert(m@.entities =~= Set::<Seq<char>>::empty());
        assert(m@.groups =~= Set::<Seq<char>>::empty());
        m
    }

    /// Simple getter for the id.
    pub fn id(&self) -> (r: ActivityId)
        ensures
            r == self@.id,
    {
        self.id
    }

    /// Simple getter for the name.
    pub fn name(&self) -> (r: &String)
        ensures
            r@ == self@.name,
    {
        &self.name
    }

    /// Simple getter for the entities, sorted by name.
    pub fn entities_sorted(&self) -> (r: Vec<String>)
        requires
            self.wf(),
        ensures
            names_sorted(r@),
            name_set(r@) == self@.entities,
    {
        clone_names(&self.entities)
    }

    /// Simple getter for the groups, sorted by name.
    pub fn groups_sorted(&self) -> (r: Vec<String>)
        requires
            self.wf(),
        ensures
            names_sorted(r@),
            name_set(r@) == self@.groups,
    {
        clone_names(&self.groups)
    }

    /// Getter for the entities, sorted by name, without copy.
    pub fn entities_as_set(&self) -> (r: &Vec<String>)
        ensures
            name_set(r@) == self@.entities,
            self.wf() ==> names_sorted(r@),
    {
        &self.entities
    }

    /// True if the entity takes part in the activity.
    pub fn contains_entity(&self, entity_name: &String) -> (b: bool)
        ensures
            b == self@.entities.contains(entity_name@),
    {
        contains_name(&self.entities, entity_name)
    }

    /// True if the group takes part in the activity.
    pub fn contains_group(&self, group_name: &String) -> (b: bool)
        ensures
            b == self@.groups.contains(group_name@),
    {
        contains_name(&self.groups, group_name)
    }

    /// Getter for the color.
    pub fn color(&self) -> (r: Rgba)
        ensures
            r == self@.color,
    {
        self.display_color
    }

    /// Simple setter for the name.
    pub fn set_name(&mut self, name: String)
        ensures
            final(self)@ == (ActivityMetadataView { name: name@, ..old(self)@ }),
            final(self).wf() == old(self).wf(),
    {
        self.name = name;
    }

    /// Adds an entity to the activity.
    ///
    /// Returns Err if the entity is already taking part in the activity.
    pub fn add_entity(&mut self, entity: String) -> (r: Result<(), FelixError>)
        requires
            old(self).wf(),
        ensures
            final(self).wf(),
            r is Ok <==> !old(self)@.entities.contains(entity@),
            r is Ok ==> final(self)@ == (ActivityMetadataView {
                entities: old(self)@.entities.insert(entity@),
                ..old(self)@
            }),
            r matches Err(e) ==> final(self)@ == old(self)@ && (e matches FelixError::AlreadyIn(a)
                && a.spec_what() == AlreadyInWhat::Entity && a.spec_who() == entity@
                && a.spec_in_what() == AlreadyInContainer::Activity && a.spec_in_who()
                == old(self)@.name),
    {
        let kept = entity.clone();
        if sorted_insert(&mut self.entities, entity) {
            Ok(())
        } else {
            Err(
                FelixError::AlreadyIn(
                    AlreadyIn::entity_already_in_activity(kept, self.name.clone()),
                ),
            )
        }
    }

    /// Removes an entity from the activity.
    ///
    /// Returns Err if the entity is not taking part in the activity.
    pub fn remove_entity(&mut self, entity: &str) -> (r: Result<(), FelixError>)
        requires
            old(self).wf(),
        ensures
            final(self).wf(),
            r is Ok <==> old(self)@.entities.contains(entity@),
            r is Ok ==> final(self)@ == (ActivityMetadataView {
                entities: old(self)@.entities.remove(entity@),
                ..old(self)@
            }),
            r matches Err(e) ==> final(self)@ == old(self)@ && (e matches FelixError::NotIn(a)
                && a.spec_what() == NotInWhat::Entity && a.spec_who() == entity@
                && a.spec_in_what() == NotInContainer::Activity && a.spec_in_who()
                == old(self)@.name),
    {
        let entity = entity.to_owned();
        if sorted_remove(&mut self.entities, &entity) {
            Ok(())
        } else {
            Err(FelixError::NotIn(NotIn::entity_not_in_activity(entity, self.name.clone())))
        }
    }

    /// Renames an entity in the activity.
    ///
    /// Returns Err if an entity with the new name already takes part in the activity or if
    /// the entity is not taking part in the activity.
    pub fn rename_entity(&mut self, old_name: &str, new_name: String) -> (r: Result<
        (),
        FelixError,
    >)
        requires
            old(self).wf(),
        ensures
            final(self).wf(),
            final(self)@ == (ActivityMetadataView {
                entities: rename_in_set(old(self)@.entities, old_name@, new_name@),
                ..old(self)@
            }),
            r is Ok <==> !old(self)@.entities.contains(new_name@) && old(self)@.entities.contains(
                old_name@,
            ),
            old(self)@.entities.contains(new_name@) ==> (r matches Err(FelixError::NameTaken(t))
                && t.spec_by() == GroupOrEntity::Entity && t.spec_name() == new_name@),
            !old(self)@.entities.contains(new_name@) && !old(self)@.entities.contains(old_name@)
                ==> (r matches Err(FelixError::NotIn(a)) && a.spec_what() == NotInWhat::Entity
                && a.spec_who() == old_name@ && a.spec_in_what() == NotInContainer::Activity
                && a.spec_in_who() == old(self)@.name),
    {
        if contains_name(&self.entities, &new_name) {
            return Err(FelixError::NameTaken(NameTaken::name_taken_by_entity(new_name)));
        }
        let old_name = old_name.to_owned();
        if sorted_remove(&mut self.entities, &old_name) {
            sorted_insert(&mut self.entities, new_name);
            Ok(())
        } else {
            Err(FelixError::NotIn(NotIn::entity_not_in_activity(old_name, self.name.clone())))
        }
    }

    /// Adds a group to the activity.
    ///
    /// Returns Err if the group is already taking part in the activity.
    pub fn add_group(&mut self, group: String) -> (r: Result<(), FelixError>)
        requires
            old(self).wf(),
        ensures
            final(self).wf(),
            r is Ok <==> !old(self)@.groups.contains(group@),
            r is Ok ==> final(self)@ == (ActivityMetadataView {
                groups: old(self)@.groups.insert(group@),
                ..old(self)@
            }),
            r matches Err(e) ==> final(self)@ == old(self)@ && (e matches FelixError::AlreadyIn(a)
                && a.spec_what() == AlreadyInWhat::Group && a.spec_who() == group@
                && a.spec_in_what() == AlreadyInContainer::Activity && a.spec_in_who()
                == old(self)@.name),
    {
        let kept = group.clone();
        if sorted_insert(&mut self.groups, group) {
            Ok(())
        } else {
            Err(
                FelixError::AlreadyIn(AlreadyIn::group_already_in_activity(kept, self.name.clone())),
            )
        }
    }

    /// Removes a group from the activity.
    ///
    /// Returns Err if the group is not taking part in the activity.
    pub fn remove_group(&mut self, group: &str) -> (r: Result<(), FelixError>)
        requires
            old(self).wf(),
        ensures
            final(self).wf(),
            r is Ok <==> old(self)@.groups.contains(group@),
            r is Ok ==> final(self)@ == (ActivityMetadataView {
                groups: old(self)@.groups.remove(group@),
                ..old(self)@
            }),
            r matches Err(e) ==> final(self)@ == old(self)@ && (e matches FelixError::NotIn(a)
                && a.spec_what() == NotInWhat::Group && a.spec_who() == group@
                && a.spec_in_what() == NotInContainer::Activity && a.spec_in_who()
                == old(self)@.name),
    {
        let group = group.to_owned();
        if sorted_remove(&mut self.groups, &group) {
            Ok(())
        } else {
            Err(FelixError::NotIn(NotIn::group_not_in_activity(group, self.name.clone())))
        }
    }

    /// Renames the group in the activity.
    ///
    /// Returns Err if a group with the new name already takes part in the activity or if the
    /// group is not taking part in the activity.
    pub fn rename_group(&mut self, old_name: &str, new_name: String) -> (r: Result<
        (),
        FelixError,
    >)
        requires
            old(self).wf(),
        ensures
            final(self).wf(),
            final(self)@ == (ActivityMetadataView {
                groups: rename_in_set(old(self)@.groups, old_name@, new_name@),
                ..old(self)@
            }),
            r is Ok <==> !old(self)@.groups.contains(new_name@) && old(self)@.groups.contains(
                old_name@,
            ),
            old(self)@.groups.contains(new_name@) ==> (r matches Err(FelixError::NameTaken(t))
                && t.spec_by() == GroupOrEntity::Group && t.spec_name() == new_name@),
            !old(self)@.groups.contains(new_name@) && !old(self)@.groups.contains(old_name@) ==> (
            r matches Err(FelixError::NotIn(a)) && a.spec_what() == NotInWhat::Group
                && a.spec_who() == old_name@ && a.spec_in_what() == NotInContainer::Activity
                && a.spec_in_who() == old(self)@.name),
    {
        if contains_name(&self.groups, &new_name) {
            return Err(FelixError::NameTaken(NameTaken::name_taken_by_group(new_name)));
        }
        let old_name = old_name.to_owned();
        if sorted_remove(&mut self.groups, &old_name) {
            sorted_insert(&mut self.groups, new_name);
            Ok(())
        } else {
            Err(FelixError::NotIn(NotIn::group_not_in_activity(old_name, self.name.clone())))
        }
    }

    /// Sets the color of the activity.
    pub fn set_color(&mut self, color: Rgba)
        ensures
            final(self)@ == (ActivityMetadataView { color, ..old(self)@ }),
            final(self).wf() == old(self).wf(),
    {
        self.display_color = color;
    }
}

} // verus!
