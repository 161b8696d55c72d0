//! Error raised when an entity cannot take part in an inserted activity at its insertion time.

use crate::strings::push_char;
use crate::text::{push_quoted, push_str, quoted};
use vstd::prelude::*;

verus! {

/// Why the insertion spot of the activity is invalid for the entity.
#[derive(PartialEq, Eq, Debug)]
pub enum WhySpotIsInvalid {
    BlockingActivity(String),
    OutsideOfWorkHours,
}

/// The reason, with the name of the blocking activity by its characters.
pub enum WhySpotIsInvalidView {
    BlockingActivity(Seq<char>),
    OutsideOfWorkHours,
}

impl View for WhySpotIsInvalid {
    type V = WhySpotIsInvalidView;

    open spec fn view(&self) -> WhySpotIsInvalidView {
        match self {
            WhySpotIsInvalid::BlockingActivity(s) => WhySpotIsInvalidView::BlockingActivity(s@),
            WhySpotIsInvalid::OutsideOfWorkHours => WhySpotIsInvalidView::OutsideOfWorkHours,
        }
    }
}

impl Clone for WhySpotIsInvalid {
    fn clone(&self) -> (r: Self)
        ensures
            r@ == self@,
    {
        match self {
            WhySpotIsInvalid::BlockingActivity(s) => WhySpotIsInvalid::BlockingActivity(s.clone()),
            WhySpotIsInvalid::OutsideOfWorkHours => WhySpotIsInvalid::OutsideOfWorkHours,
        }
    }
}

/// Throw this error when the user adds an entity to an activity which is inserted
/// and the entity is not free for the activity's insertion slot.
#[derive(Debug)]
pub struct AddEntityToInsertedActivityInvalidSpot {
    who: String,
    in_what: String,
    why: WhySpotIsInvalid,
}

/// The message of the error, from its phrases: "Entity cannot be added to 'Activity' because it
/// would overlap with 'Other'." or "... because it would be outside of their work hours.".
pub open spec fn invalid_spot_message(
    who: Seq<char>,
    in_what: Seq<char>,
    why: WhySpotIsInvalidView,
    cannot_be_added_to: Seq<char>,
    because: Seq<char>,
    it_would_overlap_with: Seq<char>,
    it_would_be_outside_of_their_work_hours: Seq<char>,
) -> Seq<char> {
    who + seq![' '] + cannot_be_added_to + seq![' '] + quoted(in_what) + seq![' '] + because
        + seq![' '] + (match why {
        WhySpotIsInvalidView::BlockingActivity(name) => it_would_overlap_with + seq![' '] + quoted(
            name,
        ),
        WhySpotIsInvalidView::OutsideOfWorkHours => it_would_be_outside_of_their_work_hours,
    }) + seq!['.']
}

impl AddEntityToInsertedActivityInvalidSpot {
    /// The entity which cannot be added.
    pub closed spec fn spec_who(&self) -> Seq<char> {
        self.who@
    }

    /// The activity to which the entity cannot be added.
    pub closed spec fn spec_in_what(&self) -> Seq<char> {
        self.in_what@
    }

    /// The reason.
    pub closed spec fn spec_why(&self) -> WhySpotIsInvalidView {
        self.why@
    }

    /// The spot is taken by another activity of the entity.
    pub fn blocking_activity(
        entity_name: String,
        activity_name: String,
        blocking_activity: String,
    ) -> (e: Box<AddEntityToInsertedActivityInvalidSpot>)
        ensures
            e.spec_who() == entity_name@,
            e.spec_in_what() == activity_name@,
            e.spec_why() == WhySpotIsInvalidView::BlockingActivity(blocking_activity@),
    {
        Box::new(
            AddEntityToInsertedActivityInvalidSpot {
                who: entity_name,
                in_what: activity_name,
                why: WhySpotIsInvalid::BlockingActivity(blocking_activity),
            },
        )
    }

    /// The spot is outside of the work hours of the entity.
    pub fn outside_of_work_hours(entity_name: String, activity_name: String) -> (e: Box<
        AddEntityToInsertedActivityInvalidSpot,
    >)
        ensures
            e.spec_who() == entity_name@,
            e.spec_in_what() == activity_name@,
            e.spec_why() == WhySpotIsInvalidView::OutsideOfWorkHours,
    {
        Box::new(
            AddEntityToInsertedActivityInvalidSpot {
                who: entity_name,
                in_what: activity_name,
                why: WhySpotIsInvalid::OutsideOfWorkHours,
            },
        )
    }

    /// Getter for the entity.
    pub fn who(&self) -> (r: String)
        ensures
            r@ == self.spec_who(),
    {
        self.who.clone()
    }

    /// Getter for the activity.
    pub fn in_what(&self) -> (r: String)
        ensures
            r@ == self.spec_in_what(),
    {
        self.in_what.clone()
    }

    /// Getter for the reason.
    pub fn why(&self) -> (r: WhySpotIsInvalid)
        ensures
            r@ == self.spec_why(),
    {
        self.why.clone()
    }
    /// The message of the error, built from the given phrases.
    pub fn message(
        &self,
        cannot_be_added_to: &str,
        because: &str,
        it_would_overlap_with: &str,
        it_would_be_outside_of_their_work_hours: &str,
    ) -> (r: String)
        ensures
            r@ == invalid_spot_message(
                self.spec_who(),
                self.spec_in_what(),
                self.spec_why(),
                cannot_be_added_to@,
                because@,
                it_would_overlap_with@,
                it_would_be_outside_of_their_work_hours@,
            ),
    {
        let mut r = String::new();
        push_str(&mut r, self.who.as_str());
        push_char(&mut r, ' ');
        push_str(&mut r, cannot_be_added_to);
        push_char(&mut r, ' ');
        push_quoted(&mut r, self.in_what.as_str());
        push_char(&mut r, ' ');
        push_str(&mut r, because);
        push_char(&mut r, ' ');
        match &self.why {
            WhySpotIsInvalid::BlockingActivity(name) => {
                push_str(&mut r, it_would_overlap_with);
                push_char(&mut r, ' ');
                push_quoted(&mut r, name.as_str());
            },
            WhySpotIsInvalid::OutsideOfWorkHours => {
                push_str(&mut r, it_would_be_outside_of_their_work_hours);
            },
        }
        push_char(&mut r, '.');
        assert(r@ =~= invalid_spot_message(
            self.spec_who(),
            self.spec_in_what(),
            self.spec_why(),
            cannot_be_added_to@,
            because@,
            it_would_overlap_with@,
            it_would_be_outside_of_their_work_hours@,
        ));
        r
    }
}

} // verus!
