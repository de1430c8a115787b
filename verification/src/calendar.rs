//! Calendar days and the overlay window.
//!
//! A day is held as its number in the proleptic Gregorian calendar, with
//! January 1 of year 1 as day 1. Date arithmetic is done by `chrono`.

use chrono::Datelike;
use vstd::prelude::*;

verus! {

/// Length of the overlay window, in days.
pub const WINDOW_DAYS: i32 = 30;

/// Number of the first day that `chrono::NaiveDate` can hold
/// (January 1 of year -262143).
pub const FIRST_DAY: i32 = -95_746_129;

/// Number of the last day that `chrono::NaiveDate` can hold
/// (December 31 of year 262142).
pub const LAST_DAY: i32 = 95_745_399;

/// Whether `n` is the number of a day that `chrono::NaiveDate` can hold.
pub open spec fn is_day_number(n: int) -> bool {
    FIRST_DAY <= n <= LAST_DAY
}

/// Whether a mark made on day `marked_at` still shows on day `today`: the
/// mark is at most `WINDOW_DAYS` days old.
pub open spec fn within_window(marked_at: int, today: int) -> bool {
    marked_at >= today - WINDOW_DAYS
}

/// The day `span` days before day `day`, where both can be held.
pub open spec fn day_minus(day: int, span: int) -> Option<int> {
    if is_day_number(day) && is_day_number(day - span) {
        Some(day - span)
    } else {
        None
    }
}

/// Calls `chrono::NaiveDate::from_num_days_from_ce_opt`,
/// `chrono::TimeDelta::try_days`, `chrono::NaiveDate::checked_sub_signed` and
/// `chrono::Datelike::num_days_from_ce`.
///
/// Not proved: that subtracting `span` whole days from the date numbered
/// `day` gives the date numbered `day - span`, and that the result is `None`
/// exactly when `day` or `day - span` lies outside the range of dates that
/// `chrono` can hold.
#[verifier::external_body]
fn date_minus_days(day: i32, span: i32) -> (r: Option<i32>)
    ensures
        r == match day_minus(day as int, span as int) {
            Some(d) => Some(d as i32),
            None => None,
        },
{
    let date = chrono::NaiveDate::from_num_days_from_ce_opt(day)?;
    let delta = chrono::TimeDelta::try_days(i64::from(span))?;
    let earlier = date.checked_sub_signed(delta)?;
    Some(earlier.num_days_from_ce())
}

/// A calendar day that `chrono::NaiveDate` can hold.
#[derive(Clone, Copy, Debug, PartialEq, Eq, Structural)]
pub struct Day {
    number: i32,
}

impl View for Day {
    type V = int;

    closed spec fn view(&self) -> int {
        self.number as int
    }
}

impl Day {
    #[verifier::type_invariant]
    spec fn in_range(self) -> bool {
        is_day_number(self.number as int)
    }

    /// The day with number `number`, if there is one.
    pub fn from_number(number: i32) -> (r: Option<Day>)
        ensures
            r is Some <==> is_day_number(number as int),
            r matches Some(day) ==> day@ == number,
    {
        if FIRST_DAY <= number && number <= LAST_DAY {
            Some(Day { number })
        } else {
            None
        }
    }

    /// This day's number.
    pub fn number(&self) -> (n: i32)
        ensures
            n == self@,
            is_day_number(n as int),
    {
        proof {
            use_type_invariant(self);
        }
        self.number
    }

    /// The first day of the window that ends on this day: the day
    /// `WINDOW_DAYS` days earlier. `None` where that day lies before the
    /// first day that can be held.
    pub fn window_start(&self) -> (r: Option<Day>)
        ensures
            r is Some <==> is_day_number(self@ - WINDOW_DAYS),
            r matches Some(start) ==> start@ == self@ - WINDOW_DAYS,
    {
        proof {
            use_type_invariant(self);
        }
        match date_minus_days(self.number, WINDOW_DAYS) {
            Some(n) => Some(Day { number: n }),
            None => None,
        }
    }

    /// Whether a mark made on this day still shows on day `today`.
    pub fn shows_on(&self, today: Day) -> (r: bool)
        ensures
            r == within_window(self@, today@),
    {
        proof {
            use_type_invariant(self);
            use_type_invariant(today);
        }
        match today.window_start() {
            Some(start) => self.number >= start.number,
            None => true,
        }
    }
}

} // verus!
