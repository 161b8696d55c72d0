//! Error raised when a component is added into a component which already contains it.

use crate::strings::push_char;
use crate::text::{push_quoted, push_str, quoted};
use vstd::prelude::*;

verus! {

/// The kind of component which is already present.
#[derive(Debug, Copy, Clone, PartialEq, Eq, Structural)]
pub enum EntityOrGroup {
    Entity,
    Group,
}

/// The kind of container which already holds the component.
#[derive(Debug, Copy, Clone, PartialEq, Eq, Structural)]
pub enum ActivityOrGroup {
    Activity,
    Group,
}

/// Throw this error when the user adds a component into a component which already contains it.
#[derive(Debug)]
pub struct AlreadyIn {
    what: EntityOrGroup,
    who: String,
    in_what: ActivityOrGroup,
    in_who: String,
}

/// The message of the error, from its translated phrases: `is_already_in` ("is already in"),
/// `the_activity`, `the_group` and `the_group_cap` ("The group", which begins the message about
/// a group). An entity gives "Entity Name is already in the group 'Group Name'.", a group gives
/// "The group 'Group Name' is already in the activity 'Activity Name'.".
pub open spec fn already_in_message(
    what: EntityOrGroup,
    who: Seq<char>,
    in_what: ActivityOrGroup,
    in_who: Seq<char>,
    is_already_in: Seq<char>,
    the_activity: Seq<char>,
    the_group: Seq<char>,
    the_group_cap: Seq<char>,
) -> Seq<char> {
    let place = match in_what {
        ActivityOrGroup::Activity => the_activity,
        ActivityOrGroup::Group => the_group,
    };
    let tail = seq![' '] + is_already_in + seq![' '] + place + seq![' '] + quoted(in_who) + seq!['.'];
    match what {
        EntityOrGroup::Entity => who + tail,
        EntityOrGroup::Group => the_group_cap + seq![' '] + quoted(who) + tail,
    }
}

impl AlreadyIn {
    /// The kind of component which is already in.
    pub closed spec fn spec_what(&self) -> EntityOrGroup {
        self.what
    }

    /// The name of the component which is already in.
    pub closed spec fn spec_who(&self) -> Seq<char> {
        self.who@
    }

    /// The kind of container.
    pub closed spec fn spec_in_what(&self) -> ActivityOrGroup {
        self.in_what
    }

    /// The name of the container.
    pub closed spec fn spec_in_who(&self) -> Seq<char> {
        self.in_who@
    }

    /// The entity is already in the group.
    pub fn entity_already_in_group(entity_name: String, group_name: String) -> (e: Box<AlreadyIn>)
        ensures
            e.spec_what() == EntityOrGroup::Entity,
            e.spec_who() == entity_name@,
            e.spec_in_what() == ActivityOrGroup::Group,
            e.spec_in_who() == group_name@,
    {
        Box::new(
            AlreadyIn {
                what: EntityOrGroup::Entity,
                who: entity_name,
                in_what: ActivityOrGroup::Group,
                in_who: group_name,
            },
        )
    }

    /// The entity is already in the activity.
    pub fn entity_already_in_activity(entity_name: String, activity_name: String) -> (e: Box<
        AlreadyIn,
    >)
        ensures
            e.spec_what() == EntityOrGroup::Entity,
            e.spec_who() == entity_name@,
            e.spec_in_what() == ActivityOrGroup::Activity,
            e.spec_in_who() == activity_name@,
    {
        Box::new(
            AlreadyIn {
                what: EntityOrGroup::Entity,
                who: entity_name,
                in_what: ActivityOrGroup::Activity,
                in_who: activity_name,
            },
        )
    }

    /// The group is already in the activity.
    pub fn group_already_in_activity(group_name: String, activity_name: String) -> (e: Box<
        AlreadyIn,
    >)
        ensures
            e.spec_what() == EntityOrGroup::Group,
            e.spec_who() == group_name@,
            e.spec_in_what() == ActivityOrGroup::Activity,
            e.spec_in_who() == activity_name@,
    {
        Box::new(
            AlreadyIn {
                what: EntityOrGroup::Group,
                who: group_name,
                in_what: ActivityOrGroup::Activity,
                in_who: activity_name,
            },
        )
    }

    /// Getter for the kind of component.
    pub fn what(&self) -> (r: EntityOrGroup)
        ensures
            r == self.spec_what(),
    {
        self.what
    }

    /// Getter for the name of the component.
    pub fn who(&self) -> (r: String)
        ensures
            r@ == self.spec_who(),
    {
        self.who.clone()
    }

    /// Getter for the kind of container.
    pub fn in_what(&self) -> (r: ActivityOrGroup)
        ensures
            r == self.spec_in_what(),
    {
        self.in_what
    }

    /// Getter for the name of the container.
    pub fn in_who(&self) -> (r: String)
        ensures
            r@ == self.spec_in_who(),
    {
        self.in_who.clone()
    }
    /// The message of the error, built from the translated phrases.
    pub fn message(
        &self,
        is_already_in: &str,
        the_activity: &str,
        the_group: &str,
        the_group_cap: &str,
    ) -> (r: String)
        ensures
            r@ == already_in_message(
                self.spec_what(),
                self.spec_who(),
                self.spec_in_what(),
                self.spec_in_who(),
                is_already_in@,
                the_activity@,
                the_group@,
                the_group_cap@,
            ),
    {
        let mut r = String::new();
        match self.what {
            EntityOrGroup::Entity => {
                push_str(&mut r, self.who.as_str());
            },
            EntityOrGroup::Group => {
                push_str(&mut r, the_group_cap);
                push_char(&mut r, ' ');
                push_quoted(&mut r, self.who.as_str());
            },
        }
        let ghost head = r@;
        push_char(&mut r, ' ');
        push_str(&mut r, is_already_in);
        push_char(&mut r, ' ');
        match self.in_what {
            ActivityOrGroup::Activity => {
                push_str(&mut r, the_activity);
            },
            ActivityOrGroup::Group => {
                push_str(&mut r, the_group);
            },
        }
        push_char(&mut r, ' ');
        push_quoted(&mut r, self.in_who.as_str());
        push_char(&mut r, '.');
        proof {
            let place = match self.in_what {
                ActivityOrGroup::Activity => the_activity@,
                ActivityOrGroup::Group => the_group@,
            };
            let tail = seq![' '] + is_already_in@ + seq![' '] + place + seq![' '] + quoted(self.in_who@)
                + seq!['.'];
            assert(r@ =~= head + tail);
            match self.what {
                EntityOrGroup::Entity => {
                    assert(head =~= self.who@);
                },
                EntityOrGroup::Group => {
                    assert(head =~= the_group_cap@ + seq![' '] + quoted(self.who@));
                },
            }
        }
        r
    }
}

} // verus!
