//! Error raised when an entity is added to an inserted activity while busy at that time.

use crate::strings::push_char;
use crate::text::{push_quoted, push_str, quoted};
use vstd::prelude::*;

verus! {

/// Throw this error when the user adds an entity to an activity which is inserted
/// and the entity is not free for the activity's insertion slot.
#[derive(Debug)]
pub struct AddEntityToInsertedActivitySpotTaken {
    who: String,
    in_what: String,
    blocking_activity: String,
}

/// The message of the error, from its translated phrases: "Entity cannot be added to
/// 'Activity' because it would overlap with 'BlockingActivity'.".
pub open spec fn spot_taken_message(
    who: Seq<char>,
    in_what: Seq<char>,
    blocking_activity: Seq<char>,
    cannot_be_added_to: Seq<char>,
    because_it_would_overlap_with: Seq<char>,
) -> Seq<char> {
    who + seq![' '] + cannot_be_added_to + seq![' '] + quoted(in_what) + seq![' ']
        + because_it_would_overlap_with + seq![' '] + quoted(blocking_activity) + seq!['.']
}

impl AddEntityToInsertedActivitySpotTaken {
    /// The entity which cannot be added.
    pub closed spec fn spec_who(&self) -> Seq<char> {
        self.who@
    }

    /// The activity to which the entity cannot be added.
    pub closed spec fn spec_in_what(&self) -> Seq<char> {
        self.in_what@
    }

    /// The activity which takes the spot.
    pub closed spec fn spec_blocking_activity(&self) -> Seq<char> {
        self.blocking_activity@
    }

    /// Builds the error.
    pub fn new(entity_name: String, activity_name: String, blocking_activity: String) -> (e: Box<
        AddEntityToInsertedActivitySpotTaken,
    >)
        ensures
            e.spec_who() == entity_name@,
            e.spec_in_what() == activity_name@,
            e.spec_blocking_activity() == blocking_activity@,
    {
        Box::new(
            AddEntityToInsertedActivitySpotTaken {
                who: entity_name,
                in_what: activity_name,
                blocking_activity,
            },
        )
    }

    /// Getter for the entity.
    pub fn who(&self) -> (r: String)
        ensures
            r@ == self.spec_who(),
    {
        self.who.clone()
    }

    /// Getter for the activity.
    pub fn in_what(&self) -> (r: String)
        ensures
            r@ == self.spec_in_what(),
    {
        self.in_what.clone()
    }

    /// Getter for the blocking activity.
    pub fn blocking_activity(&self) -> (r: String)
        ensures
            r@ == self.spec_blocking_activity(),
    {
        self.blocking_activity.clone()
    }
    /// The message of the error, built from the translated phrases.
    pub fn message(&self, cannot_be_added_to: &str, because_it_would_overlap_with: &str) -> (r:
        String)
        ensures
            r@ == spot_taken_message(
                self.spec_who(),
                self.spec_in_what(),
                self.spec_blocking_activity(),
                cannot_be_added_to@,
                because_it_would_overlap_with@,
            ),
    {
        let mut r = String::new();
        push_str(&mut r, self.who.as_str());
        push_char(&mut r, ' ');
        push_str(&mut r, cannot_be_added_to);
        push_char(&mut r, ' ');
        push_quoted(&mut r, self.in_what.as_str());
        push_char(&mut r, ' ');
        push_str(&mut r, because_it_would_overlap_with);
        push_char(&mut r, ' ');
        push_quoted(&mut r, self.blocking_activity.as_str());
        push_char(&mut r, '.');
        assert(r@ =~= spot_taken_message(
            self.spec_who(),
            self.spec_in_what(),
            self.spec_blocking_activity(),
            cannot_be_added_to@,
            because_it_would_overlap_with@,
        ));
        r
    }
}

} // verus!
