//! Error raised when an activity cannot be inserted at the given time.

use crate::time::{Time, MIN_TIME_DISCRETIZATION_MINUTES};
use crate::strings::push_char;
use crate::text::{push_quoted, push_str, quoted};
use crate::text::{format_time, spec_format_time};
use vstd::prelude::*;

verus! {

/// Why the insertion is invalid.
#[derive(Debug, PartialEq, Eq)]
pub enum WhyInvalid {
    OverlappingWithOtherInsertedActivity(String),
    CannotFitOrWouldBlockOtherActivities,
}

/// Why the insertion is refused.
#[derive(Debug, PartialEq, Eq)]
pub enum InvalidOrNotComputed {
    Invalid(WhyInvalid),
    NotComputed,
}

/// The reason, with names given by their characters.
pub enum InvalidOrNotComputedView {
    OverlappingWithOtherInsertedActivity(Seq<char>),
    CannotFitOrWouldBlockOtherActivities,
    NotComputed,
}

impl View for InvalidOrNotComputed {
    type V = InvalidOrNotComputedView;

    open spec fn view(&self) -> InvalidOrNotComputedView {
        match self {
            InvalidOrNotComputed::Invalid(
                WhyInvalid::OverlappingWithOtherInsertedActivity(s),
            ) => InvalidOrNotComputedView::OverlappingWithOtherInsertedActivity(s@),
            InvalidOrNotComputed::Invalid(WhyInvalid::CannotFitOrWouldBlockOtherActivities) => {
                InvalidOrNotComputedView::CannotFitOrWouldBlockOtherActivities
            },
            InvalidOrNotComputed::NotComputed => InvalidOrNotComputedView::NotComputed,
        }
    }
}

impl Clone for InvalidOrNotComputed {
    fn clone(&self) -> (r: Self)
        ensures
            r@ == self@,
    {
        match self {
            InvalidOrNotComputed::Invalid(
                WhyInvalid::OverlappingWithOtherInsertedActivity(s),
            ) => InvalidOrNotComputed::Invalid(
                WhyInvalid::OverlappingWithOtherInsertedActivity(s.clone()),
            ),
            InvalidOrNotComputed::Invalid(WhyInvalid::CannotFitOrWouldBlockOtherActivities) => {
                InvalidOrNotComputed::Invalid(WhyInvalid::CannotFitOrWouldBlockOtherActivities)
            },
            InvalidOrNotComputed::NotComputed => InvalidOrNotComputed::NotComputed,
        }
    }
}

/// Throw this error when the user tries to insert an activity where it cannot be inserted,
/// or when the possible insertion times are queried but not available.
#[derive(Debug)]
pub struct InvalidInsertion {
    who: String,
    in_who: Time,
    reason: InvalidOrNotComputed,
}

/// The message of the error, from its translated phrases: "The possible beginnings of the
/// activity 'Activity' have not been computed yet." or "Activity cannot be inserted with
/// beginning 10:00 because it would overlap with 'Other Activity'.".
pub open spec fn invalid_insertion_message(
    who: Seq<char>,
    in_who: int,
    reason: InvalidOrNotComputedView,
    the_possible_beginnings_of_the_activity: Seq<char>,
    have_not_been_computed_yet: Seq<char>,
    cannot_be_inserted_with_beginning: Seq<char>,
    because: Seq<char>,
    this_beginning_is_invalid: Seq<char>,
    it_would_overlap_with: Seq<char>,
) -> Seq<char> {
    match reason {
        InvalidOrNotComputedView::NotComputed => the_possible_beginnings_of_the_activity + seq![' ']
            + quoted(who) + seq![' '] + have_not_been_computed_yet + seq!['.'],
        InvalidOrNotComputedView::CannotFitOrWouldBlockOtherActivities => who + seq![' ']
            + cannot_be_inserted_with_beginning + seq![' '] + spec_format_time(in_who) + seq![' ']
            + because + seq![' '] + this_beginning_is_invalid + seq!['.'],
        InvalidOrNotComputedView::OverlappingWithOtherInsertedActivity(activity) => who + seq![' ']
            + cannot_be_inserted_with_beginning + seq![' '] + spec_format_time(in_who) + seq![' ']
            + because + seq![' '] + it_would_overlap_with + seq![' '] + quoted(activity) + seq!['.'],
    }
}

impl InvalidInsertion {
    /// The name of the activity.
    pub closed spec fn spec_who(&self) -> Seq<char> {
        self.who@
    }

    /// The refused insertion time.
    pub closed spec fn spec_in_who(&self) -> Time {
        self.in_who
    }

    /// The reason.
    pub closed spec fn spec_reason(&self) -> InvalidOrNotComputedView {
        self.reason@
    }

    /// The activity cannot be inserted there: it would not fit or would leave no room for
    /// other activities.
    pub fn cannot_fit_or_would_block_other_activities(
        activity_name: String,
        invalid_insertion_time: Time,
    ) -> (e: Box<InvalidInsertion>)
        ensures
            e.spec_who() == activity_name@,
            e.spec_in_who() == invalid_insertion_time,
            e.spec_reason() == InvalidOrNotComputedView::CannotFitOrWouldBlockOtherActivities,
    {
        Self::insertion_not_in_computed_insertions(
            activity_name,
            invalid_insertion_time,
            WhyInvalid::CannotFitOrWouldBlockOtherActivities,
        )
    }

    /// The activity would overlap with the given inserted activity.
    pub fn would_overlap_with_activity(
        activity_name: String,
        invalid_insertion_time: Time,
        blocking_activity: String,
    ) -> (e: Box<InvalidInsertion>)
        ensures
            e.spec_who() == activity_name@,
            e.spec_in_who() == invalid_insertion_time,
            e.spec_reason() == InvalidOrNotComputedView::OverlappingWithOtherInsertedActivity(
                blocking_activity@,
            ),
    {
        Self::insertion_not_in_computed_insertions(
            activity_name,
            invalid_insertion_time,
            WhyInvalid::OverlappingWithOtherInsertedActivity(blocking_activity),
        )
    }

    /// The insertion time is not among the computed insertion times, for the given reason.
    pub fn insertion_not_in_computed_insertions(
        activity_name: String,
        invalid_insertion_time: Time,
        reason: WhyInvalid,
    ) -> (e: Box<InvalidInsertion>)
        ensures
            e.spec_who() == activity_name@,
            e.spec_in_who() == invalid_insertion_time,
            e.spec_reason() == InvalidOrNotComputed::Invalid(reason)@,
    {
        Box::new(
            InvalidInsertion {
                who: activity_name,
                reason: InvalidOrNotComputed::Invalid(reason),
                in_who: invalid_insertion_time,
            },
        )
    }

    /// The possible insertion times of the activity have not been computed yet.
    pub fn insertions_not_computed_yet(activity_name: String) -> (e: Box<InvalidInsertion>)
        ensures
            e.spec_who() == activity_name@,
            e.spec_in_who()@ == MIN_TIME_DISCRETIZATION_MINUTES,
            e.spec_reason() == InvalidOrNotComputedView::NotComputed,
    {
        Box::new(
            InvalidInsertion {
                who: activity_name,
                reason: InvalidOrNotComputed::NotComputed,
                // The time does not matter here
                in_who: Time::min_time_discretization(),
            },
        )
    }

    /// Getter for the name of the activity.
    pub fn who(&self) -> (r: String)
        ensures
            r@ == self.spec_who(),
    {
        self.who.clone()
    }

    /// Getter for the refused insertion time.
    pub fn in_who(&self) -> (r: Time)
        ensures
            r == self.spec_in_who(),
    {
        self.in_who
    }

    /// Getter for the reason.
    pub fn reason(&self) -> (r: InvalidOrNotComputed)
        ensures
            r@ == self.spec_reason(),
    {
        self.reason.clone()
    }
    /// The message of the error, built from the translated phrases. The refused time of an
    /// invalid insertion is a valid time.
    pub fn message(
        &self,
        the_possible_beginnings_of_the_activity: &str,
        have_not_been_computed_yet: &str,
        cannot_be_inserted_with_beginning: &str,
        because: &str,
        this_beginning_is_invalid: &str,
        it_would_overlap_with: &str,
    ) -> (r: String)
        requires
            !(self.spec_reason() is NotComputed) ==> self.spec_in_who().wf(),
        ensures
            r@ == invalid_insertion_message(
                self.spec_who(),
                self.spec_in_who()@,
                self.spec_reason(),
                the_possible_beginnings_of_the_activity@,
                have_not_been_computed_yet@,
                cannot_be_inserted_with_beginning@,
                because@,
                this_beginning_is_invalid@,
                it_would_overlap_with@,
            ),
    {
        let mut r = String::new();
        match &self.reason {
            InvalidOrNotComputed::NotComputed => {
                push_str(&mut r, the_possible_beginnings_of_the_activity);
                push_char(&mut r, ' ');
                push_quoted(&mut r, self.who.as_str());
                push_char(&mut r, ' ');
                push_str(&mut r, have_not_been_computed_yet);
            },
            InvalidOrNotComputed::Invalid(why) => {
                push_str(&mut r, self.who.as_str());
                push_char(&mut r, ' ');
                push_str(&mut r, cannot_be_inserted_with_beginning);
                push_char(&mut r, ' ');
                let time = format_time(self.in_who);
                push_str(&mut r, time.as_str());
                push_char(&mut r, ' ');
                push_str(&mut r, because);
                push_char(&mut r, ' ');
                match why {
                    WhyInvalid::CannotFitOrWouldBlockOtherActivities => {
                        push_str(&mut r, this_beginning_is_invalid);
                    },
                    WhyInvalid::OverlappingWithOtherInsertedActivity(activity) => {
                        push_str(&mut r, it_would_overlap_with);
                        push_char(&mut r, ' ');
                        push_quoted(&mut r, activity.as_str());
                    },
                }
            },
        }
        push_char(&mut r, '.');
        assert(r@ =~= invalid_insertion_message(
            self.spec_who(),
            self.spec_in_who()@,
            self.spec_reason(),
            the_possible_beginnings_of_the_activity@,
            have_not_been_computed_yet@,
            cannot_be_inserted_with_beginning@,
            because@,
            this_beginning_is_invalid@,
            it_would_overlap_with@,
        ));
        r
    }
}

} // verus!
