//! Error raised when a new name is already taken.

use crate::strings::push_char;
use crate::text::{push_quoted, push_str, quoted};
use vstd::prelude::*;

verus! {

/// Defines the component type by which the name is taken.
#[derive(Debug, Copy, Clone, PartialEq, Eq, Structural)]
pub enum GroupOrEntity {
    Entity,
    Group,
}

/// Throw this error when the new name of a component given by a user is already taken.
///
/// The error is built from functions in the form 'name\_taken\_by\_xxx' where xxx is either an
/// entity or a group.
#[derive(Debug)]
pub struct NameTaken {
    by: GroupOrEntity,
    name: String,
}

/// The message of the error, from its translated phrases: "The name 'New Name' is already taken
/// by an entity." or "... by a group.".
pub open spec fn name_taken_message(
    by: GroupOrEntity,
    name: Seq<char>,
    the_name: Seq<char>,
    is_already_taken_by: Seq<char>,
    an_entity: Seq<char>,
    a_group: Seq<char>,
) -> Seq<char> {
    the_name + seq![' '] + quoted(name) + seq![' '] + is_already_taken_by + seq![' '] + (match by {
        GroupOrEntity::Entity => an_entity,
        GroupOrEntity::Group => a_group,
    }) + seq!['.']
}

impl NameTaken {
    /// The kind of component which holds the name.
    pub closed spec fn spec_by(&self) -> GroupOrEntity {
        self.by
    }

    /// The name which is taken.
    pub closed spec fn spec_name(&self) -> Seq<char> {
        self.name@
    }

    /// The name is taken by an entity.
    pub fn name_taken_by_entity(name: String) -> (e: Box<NameTaken>)
        ensures
            e.spec_by() == GroupOrEntity::Entity,
            e.spec_name() == name@,
    {
        Box::new(NameTaken { by: GroupOrEntity::Entity, name })
    }

    /// The name is taken by a group.
    pub fn name_taken_by_group(name: String) -> (e: Box<NameTaken>)
        ensures
            e.spec_by() == GroupOrEntity::Group,
            e.spec_name() == name@,
    {
        Box::new(NameTaken { by: GroupOrEntity::Group, name })
    }

    /// Getter for the kind of component which holds the name.
    pub fn by(&self) -> (r: GroupOrEntity)
        ensures
            r == self.spec_by(),
    {
        self.by
    }

    /// Getter for the taken name.
    pub fn name(&self) -> (r: String)
        ensures
            r@ == self.spec_name(),
    {
        self.name.clone()
    }
    /// The message of the error, built from the translated phrases.
    pub fn message(&self, the_name: &str, is_already_taken_by: &str, an_entity: &str, a_group: &str) -> (r:
        String)
        ensures
            r@ == name_taken_message(
                self.spec_by(),
                self.spec_name(),
                the_name@,
                is_already_taken_by@,
                an_entity@,
                a_group@,
            ),
    {
        let mut r = String::new();
        push_str(&mut r, the_name);
        push_char(&mut r, ' ');
        push_quoted(&mut r, self.name.as_str());
        push_char(&mut r, ' ');
        push_str(&mut r, is_already_taken_by);
        push_char(&mut r, ' ');
        match self.by {
            GroupOrEntity::Entity => push_str(&mut r, an_entity),
            GroupOrEntity::Group => push_str(&mut r, a_group),
        }
        push_char(&mut r, '.');
        assert(r@ =~= name_taken_message(
            self.spec_by(),
            self.spec_name(),
            the_name@,
            is_already_taken_by@,
            an_entity@,
            a_group@,
        ));
        r
    }
}

} // verus!
