//! Error raised when an entity would not have enough time for its activities.

use crate::strings::push_char;
use crate::text::{push_quoted, push_str, quoted};
use vstd::prelude::*;

verus! {

/// Throw this error when a change would leave an entity without enough free time for its
/// activities.
#[derive(Debug)]
pub enum NotEnoughTime {
    /// The work hours of the entity would become too short.
    WorkHoursShortened(String),
    /// The entity has not enough free time to take part in the activity (entity, activity).
    ActivityAdded(String, String),
    /// The entity has not enough free time for the new duration of the activity
    /// (entity, activity).
    ActivityDurationIncreased(String, String),
}

/// The message of the error, from its translated phrases: "Jean would not have enough time for
/// their activities with these work hours.", "Jean does not have enough time for 'Meeting'." or
/// "Jean does not have enough time for the new duration of 'Meeting'.".
pub open spec fn not_enough_time_message(
    e: NotEnoughTime,
    would_not_have_enough_time: Seq<char>,
    does_not_have_enough_time_for: Seq<char>,
    does_not_have_enough_time_for_the_new_duration_of: Seq<char>,
) -> Seq<char> {
    match e {
        NotEnoughTime::WorkHoursShortened(entity) => entity@ + seq![' '] + would_not_have_enough_time
            + seq!['.'],
        NotEnoughTime::ActivityAdded(entity, activity) => entity@ + seq![' ']
            + does_not_have_enough_time_for + seq![' '] + quoted(activity@) + seq!['.'],
        NotEnoughTime::ActivityDurationIncreased(entity, activity) => entity@ + seq![' ']
            + does_not_have_enough_time_for_the_new_duration_of + seq![' '] + quoted(activity@)
            + seq!['.'],
    }
}

impl NotEnoughTime {
    /// The work hours of the entity would become too short.
    pub fn work_hours_shortened_for(entity_name: String) -> (e: Box<NotEnoughTime>)
        ensures
            e.is_work_hours_shortened_for(entity_name@),
    {
        Box::new(NotEnoughTime::WorkHoursShortened(entity_name))
    }

    /// The entity has not enough free time to take part in the activity.
    pub fn activity_added_for(entity_name: String, activity_name: String) -> (e: Box<NotEnoughTime>)
        ensures
            e.is_activity_added_for(entity_name@, activity_name@),
    {
        Box::new(NotEnoughTime::ActivityAdded(entity_name, activity_name))
    }

    /// The entity has not enough free time for the new duration of the activity.
    pub fn activity_duration_too_long_for(entity_name: String, activity_name: String) -> (e: Box<
        NotEnoughTime,
    >)
        ensures
            e.is_activity_duration_increased_for(entity_name@, activity_name@),
    {
        Box::new(NotEnoughTime::ActivityDurationIncreased(entity_name, activity_name))
    }

    /// The error is about the shortened work hours of the given entity.
    pub open spec fn is_work_hours_shortened_for(&self, name: Seq<char>) -> bool {
        self matches NotEnoughTime::WorkHoursShortened(n) && n@ == name
    }

    /// The error is about the given entity joining the given activity.
    pub open spec fn is_activity_added_for(&self, name: Seq<char>, activity: Seq<char>) -> bool {
        self matches NotEnoughTime::ActivityAdded(n, a) && n@ == name && a@ == activity
    }

    /// The error is about the longer duration of the given activity for the given entity.
    pub open spec fn is_activity_duration_increased_for(
        &self,
        name: Seq<char>,
        activity: Seq<char>,
    ) -> bool {
        self matches NotEnoughTime::ActivityDurationIncreased(n, a) && n@ == name && a@ == activity
    }
    /// The message of the error, built from the translated phrases.
    pub fn message(
        &self,
        would_not_have_enough_time: &str,
        does_not_have_enough_time_for: &str,
        does_not_have_enough_time_for_the_new_duration_of: &str,
    ) -> (r: String)
        ensures
            r@ == not_enough_time_message(
                *self,
                would_not_have_enough_time@,
                does_not_have_enough_time_for@,
                does_not_have_enough_time_for_the_new_duration_of@,
            ),
    {
        let mut r = String::new();
        match self {
            NotEnoughTime::WorkHoursShortened(entity) => {
                push_str(&mut r, entity.as_str());
                push_char(&mut r, ' ');
                push_str(&mut r, would_not_have_enough_time);
            },
            NotEnoughTime::ActivityAdded(entity, activity) => {
                push_str(&mut r, entity.as_str());
                push_char(&mut r, ' ');
                push_str(&mut r, does_not_have_enough_time_for);
                push_char(&mut r, ' ');
                push_quoted(&mut r, activity.as_str());
            },
            NotEnoughTime::ActivityDurationIncreased(entity, activity) => {
                push_str(&mut r, entity.as_str());
                push_char(&mut r, ' ');
                push_str(&mut r, does_not_have_enough_time_for_the_new_duration_of);
                push_char(&mut r, ' ');
                push_quoted(&mut r, activity.as_str());
            },
        }
        push_char(&mut r, '.');
        assert(r@ =~= not_enough_time_message(
            *self,
            would_not_have_enough_time@,
            does_not_have_enough_time_for@,
            does_not_have_enough_time_for_the_new_duration_of@,
        ));
        r
    }
}

} // verus!
