//! Error raised when a component is asked for but does not exist.

use crate::time_interval::TimeInterval;
use crate::strings::push_char;
use crate::text::{decimal, format_time, push_decimal, push_quoted, push_str, quoted, spec_format_time};
use vstd::prelude::*;

verus! {

/// Throw this error when the user asks for a component which does not exist.
#[derive(Debug)]
pub enum DoesNotExist {
    Entity(String),
    Group(String),
    Activity(usize),
    Interval(TimeInterval),
}

/// The message of the error, from its translated phrases: "The entity 'Jean' does not exist.",
/// "The group 'Team' does not exist.", "The activity with id 3 does not exist." or "The interval
/// 8:00 - 12:00 does not exist.".
pub open spec fn does_not_exist_message(
    e: DoesNotExist,
    the_entity: Seq<char>,
    the_group: Seq<char>,
    the_activity_with_id: Seq<char>,
    the_interval: Seq<char>,
    does_not_exist: Seq<char>,
) -> Seq<char> {
    (match e {
        DoesNotExist::Entity(name) => the_entity + seq![' '] + quoted(name@),
        DoesNotExist::Group(name) => the_group + seq![' '] + quoted(name@),
        DoesNotExist::Activity(id) => the_activity_with_id + seq![' '] + decimal(id as nat),
        DoesNotExist::Interval(i) => the_interval + seq![' '] + spec_format_time(i@.0) + seq![
            ' ',
            '-',
            ' ',
        ] + spec_format_time(i@.1),
    }) + seq![' '] + does_not_exist + seq!['.']
}

impl DoesNotExist {
    /// There is no entity with the given name.
    pub fn entity_does_not_exist(name: String) -> (e: Box<DoesNotExist>)
        ensures
            e.is_entity_named(name@),
    {
        Box::new(DoesNotExist::Entity(name))
    }

    /// There is no group with the given name.
    pub fn group_does_not_exist(name: String) -> (e: Box<DoesNotExist>)
        ensures
            e.is_group_named(name@),
    {
        Box::new(DoesNotExist::Group(name))
    }

    /// There is no activity with the given id.
    pub fn activity_does_not_exist(id: usize) -> (e: Box<DoesNotExist>)
        ensures
            *e == DoesNotExist::Activity(id),
    {
        Box::new(DoesNotExist::Activity(id))
    }

    /// The given interval is not found.
    pub fn interval_does_not_exist(interval: TimeInterval) -> (e: Box<DoesNotExist>)
        ensures
            *e == DoesNotExist::Interval(interval),
    {
        Box::new(DoesNotExist::Interval(interval))
    }

    /// The missing component is the entity with the given name.
    pub open spec fn is_entity_named(&self, name: Seq<char>) -> bool {
        self matches DoesNotExist::Entity(n) && n@ == name
    }

    /// The missing component is the group with the given name.
    pub open spec fn is_group_named(&self, name: Seq<char>) -> bool {
        self matches DoesNotExist::Group(n) && n@ == name
    }
    /// The message of the error, built from the translated phrases. A missing interval is a
    /// well-formed one.
    pub fn message(
        &self,
        the_entity: &str,
        the_group: &str,
        the_activity_with_id: &str,
        the_interval: &str,
        does_not_exist: &str,
    ) -> (r: String)
        requires
            self matches DoesNotExist::Interval(i) ==> i.wf(),
        ensures
            r@ == does_not_exist_message(
                *self,
                the_entity@,
                the_group@,
                the_activity_with_id@,
                the_interval@,
                does_not_exist@,
            ),
    {
        let mut r = String::new();
        match self {
            DoesNotExist::Entity(name) => {
                push_str(&mut r, the_entity);
                push_char(&mut r, ' ');
                push_quoted(&mut r, name.as_str());
            },
            DoesNotExist::Group(name) => {
                push_str(&mut r, the_group);
                push_char(&mut r, ' ');
                push_quoted(&mut r, name.as_str());
            },
            DoesNotExist::Activity(id) => {
                push_str(&mut r, the_activity_with_id);
                push_char(&mut r, ' ');
                push_decimal(&mut r, *id);
            },
            DoesNotExist::Interval(i) => {
                push_str(&mut r, the_interval);
                push_char(&mut r, ' ');
                let b = format_time(i.beginning());
                push_str(&mut r, b.as_str());
                push_char(&mut r, ' ');
                push_char(&mut r, '-');
                push_char(&mut r, ' ');
                let e = format_time(i.end());
                push_str(&mut r, e.as_str());
            },
        }
        push_char(&mut r, ' ');
        push_str(&mut r, does_not_exist);
        push_char(&mut r, '.');
        assert(r@ =~= does_not_exist_message(
            *self,
            the_entity@,
            the_group@,
            the_activity_with_id@,
            the_interval@,
            does_not_exist@,
        ));
        r
    }
}

} // verus!
