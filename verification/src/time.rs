//! Times of the day with minute precision.

use vstd::prelude::*;

verus! {

/// Smallest step of the schedule, in minutes.
pub const MIN_TIME_DISCRETIZATION_MINUTES: i16 = 5;

/// Lowest number of minutes a time can hold (hours are kept in an `i8`).
pub const MIN_TOTAL_MINUTES: i16 = -7680;

/// Highest number of minutes a time can hold (hours are kept in an `i8`).
pub const MAX_TOTAL_MINUTES: i16 = 7679;

/// True when the given number of minutes can be held by a `Time`.
pub open spec fn time_in_range(m: int) -> bool {
    MIN_TOTAL_MINUTES <= m <= MAX_TOTAL_MINUTES
}

/// A time of the day (or a duration), stored as a number of minutes.
///
/// Ordered by the number of minutes it holds.
#[derive(Debug, Clone, Copy, PartialEq, Eq, Hash, PartialOrd, Ord, Structural)]
pub struct Time {
    minutes: i16,
}

impl View for Time {
    type V = int;

    /// The number of minutes held by the time.
    closed spec fn view(&self) -> int {
        self.minutes as int
    }
}

impl Time {
    /// Well-formedness: the number of minutes fits in the hours/minutes representation.
    pub open spec fn wf(self) -> bool {
        time_in_range(self@)
    }

    /// Creates a new time from hours and minutes.
    pub fn new(hours: i8, minutes: i8) -> (t: Time)
        requires
            0 <= minutes < 60,
        ensures
            t@ == hours * 60 + minutes,
            t.wf(),
    {
        let m: i16 = (hours as i16) * 60 + (minutes as i16);
        Time { minutes: m }
    }

    /// Creates a time from its total number of minutes.
    pub fn from_total_minutes(total_minutes: i16) -> (t: Time)
        ensures
            t@ == total_minutes,
    {
        Time { minutes: total_minutes }
    }

    /// The total number of minutes held by the time.
    pub fn total_minutes(&self) -> (m: i16)
        ensures
            m == self@,
    {
        self.minutes
    }

    /// The hours of the time (the number of minutes divided by 60, rounded down).
    pub fn hours(&self) -> (h: i8)
        requires
            self.wf(),
        ensures
            h == self@ / 60,
    {
        if self.minutes >= 0 {
            (self.minutes / 60) as i8
        } else {
            let pos: i16 = -(self.minutes + 1);
            let h: i16 = -(pos / 60) - 1;
            assert(h == self@ / 60) by (nonlinear_arith)
                requires
                    pos == -(self@ + 1),
                    pos >= 0,
                    h == -(pos / 60) - 1,
            ;
            h as i8
        }
    }

    /// The minutes of the time past the hour, in [0, 60).
    pub fn minutes(&self) -> (m: i8)
        requires
            self.wf(),
        ensures
            m == self@ % 60,
            0 <= m < 60,
    {
        if self.minutes >= 0 {
            (self.minutes % 60) as i8
        } else {
            let pos: i16 = -(self.minutes + 1);
            let m: i16 = 59 - (pos % 60);
            assert(m == self@ % 60) by (nonlinear_arith)
                requires
                    pos == -(self@ + 1),
                    pos >= 0,
                    m == 59 - (pos % 60),
            ;
            m as i8
        }
    }

    /// The smallest duration of an activity or a time interval.
    pub fn min_time_discretization() -> (t: Time)
        ensures
            t@ == MIN_TIME_DISCRETIZATION_MINUTES,
    {
        Time { minutes: MIN_TIME_DISCRETIZATION_MINUTES }
    }

    /// Midnight, the empty duration.
    pub fn zero() -> (t: Time)
        ensures
            t@ == 0,
    {
        Time { minutes: 0 }
    }

    /// The sum of two times.
    pub fn add(self, other: Time) -> (t: Time)
        requires
            i16::MIN <= self@ + other@ <= i16::MAX,
        ensures
            t@ == self@ + other@,
    {
        Time { minutes: self.minutes + other.minutes }
    }

    /// The difference of two times.
    pub fn sub(self, other: Time) -> (t: Time)
        requires
            i16::MIN <= self@ - other@ <= i16::MAX,
        ensures
            t@ == self@ - other@,
    {
        Time { minutes: self.minutes - other.minutes }
    }

    /// Adds the given number of minutes.
    pub fn add_minutes(&mut self, minutes: i16)
        requires
            i16::MIN <= old(self)@ + minutes <= i16::MAX,
        ensures
            final(self)@ == old(self)@ + minutes,
    {
        self.minutes = self.minutes + minutes;
    }

    /// True if this time comes strictly before the other.
    pub fn is_before(&self, other: &Time) -> (b: bool)
        ensures
            b == (self@ < other@),
    {
        self.minutes < other.minutes
    }

    /// True if this time comes strictly after the other.
    pub fn is_after(&self, other: &Time) -> (b: bool)
        ensures
            b == (self@ > other@),
    {
        self.minutes > other.minutes
    }

    /// Two times are equal exactly when they hold the same number of minutes.
    pub proof fn lemma_view_eq(a: Time, b: Time)
        ensures
            (a@ == b@) <==> a == b,
    {
    }

    /// True if both times hold the same number of minutes.
    pub fn same_as(&self, other: &Time) -> (b: bool)
        ensures
            b == (self@ == other@),
            b == (*self == *other),
    {
        self.minutes == other.minutes
    }
}

} // verus!
