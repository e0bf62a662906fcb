//! Days of the proleptic Gregorian calendar.
//!
//! A [`Date`] holds a year, a month and a day that exist in the calendar.
//! `chrono` decides whether a day exists, moves a date by a number of days
//! and writes it as text; what it is trusted to do is stated over the
//! calendar defined here.

use crate::text::zero_padded;
use chrono::Datelike;
use vstd::prelude::*;

verus! {

/// The first year a [`Date`] can hold.
pub const MIN_YEAR: i32 = -262143;

/// The last year a [`Date`] can hold.
pub const MAX_YEAR: i32 = 262142;

/// Every fourth year is a leap year, but of the years that end a century
/// only every fourth.
pub open spec fn is_leap_year(year: int) -> bool {
    year % 4 == 0 && (year % 100 != 0 || year % 400 == 0)
}

/// The number of days of a month, 0 where `month` is not one.
pub open spec fn days_in_month(year: int, month: int) -> int {
    if month == 2 {
        if is_leap_year(year) {
            29
        } else {
            28
        }
    } else if month == 4 || month == 6 || month == 9 || month == 11 {
        30
    } else if 1 <= month <= 12 {
        31
    } else {
        0
    }
}

/// A year, a month and a day as numbers: the model of a [`Date`].
pub struct DateView {
    pub year: int,
    pub month: int,
    pub day: int,
}

impl DateView {
    /// The three numbers name a day of the calendar.
    pub open spec fn exists_in_calendar(self) -> bool {
        &&& 1 <= self.month <= 12
        &&& 1 <= self.day <= days_in_month(self.year, self.month)
    }

    /// The year is one that a [`Date`] can hold.
    pub open spec fn in_range(self) -> bool {
        MIN_YEAR <= self.year <= MAX_YEAR
    }

    /// The day after.
    pub open spec fn next(self) -> DateView {
        if self.day < days_in_month(self.year, self.month) {
            DateView { day: self.day + 1, ..self }
        } else if self.month < 12 {
            DateView { year: self.year, month: self.month + 1, day: 1 }
        } else {
            DateView { year: self.year + 1, month: 1, day: 1 }
        }
    }

    /// The day before.
    pub open spec fn previous(self) -> DateView {
        if self.day > 1 {
            DateView { day: self.day - 1, ..self }
        } else if self.month > 1 {
            DateView {
                year: self.year,
                month: self.month - 1,
                day: days_in_month(self.year, self.month - 1),
            }
        } else {
            DateView { year: self.year - 1, month: 12, day: 31 }
        }
    }

    /// The day that lies `days` days after this one, before it where `days`
    /// is negative.
    pub open spec fn plus_days(self, days: int) -> DateView
        decreases
                if days >= 0 {
                    days
                } else {
                    -days
                },
    {
        if days == 0 {
            self
        } else if days > 0 {
            self.plus_days(days - 1).next()
        } else {
            self.plus_days(days + 1).previous()
        }
    }

    /// The date as text: the year in four digits, with a sign in front
    /// where it is not between 0 and 9999, then month and day in two digits
    /// each, with `-` between the three.
    pub open spec fn text(self) -> Seq<char> {
        let year = if 0 <= self.year <= 9999 {
            zero_padded(self.year as nat, 4)
        } else if self.year < 0 {
            seq!['-'] + zero_padded((-self.year) as nat, 4)
        } else {
            seq!['+'] + zero_padded(self.year as nat, 4)
        };
        year + seq!['-'] + zero_padded(self.month as nat, 2) + seq!['-'] + zero_padded(
            self.day as nat,
            2,
        )
    }
}

/// The English name of a month.
pub open spec fn month_name_of(month: int) -> Seq<char> {
    if month == 1 {
        "January"@
    } else if month == 2 {
        "February"@
    } else if month == 3 {
        "March"@
    } else if month == 4 {
        "April"@
    } else if month == 5 {
        "May"@
    } else if month == 6 {
        "June"@
    } else if month == 7 {
        "July"@
    } else if month == 8 {
        "August"@
    } else if month == 9 {
        "September"@
    } else if month == 10 {
        "October"@
    } else if month == 11 {
        "November"@
    } else {
        "December"@
    }
}

/// The day after a day of the calendar is one, and the day before it; each
/// undoes the other.
pub proof fn lemma_next_previous(d: DateView)
    requires
        d.exists_in_calendar(),
    ensures
        d.next().exists_in_calendar(),
        d.previous().exists_in_calendar(),
        d.next().previous() == d,
        d.previous().next() == d,
{
}

/// Moving a day of the calendar gives a day of the calendar.
pub proof fn lemma_plus_days_exists(d: DateView, days: int)
    requires
        d.exists_in_calendar(),
    ensures
        d.plus_days(days).exists_in_calendar(),
    decreases
            if days >= 0 {
                days
            } else {
                -days
            },
{
    if days > 0 {
        lemma_plus_days_exists(d, days - 1);
        lemma_next_previous(d.plus_days(days - 1));
    } else if days < 0 {
        lemma_plus_days_exists(d, days + 1);
        lemma_next_previous(d.plus_days(days + 1));
    }
}

/// One day more is the day after; one day less is the day before.
pub proof fn lemma_plus_days_step(d: DateView, days: int)
    requires
        d.exists_in_calendar(),
    ensures
        d.plus_days(days + 1) == d.plus_days(days).next(),
        d.plus_days(days - 1) == d.plus_days(days).previous(),
{
    lemma_plus_days_exists(d, days);
    lemma_plus_days_exists(d, days + 1);
    lemma_plus_days_exists(d, days - 1);
    lemma_next_previous(d.plus_days(days));
    lemma_next_previous(d.plus_days(days + 1));
    lemma_next_previous(d.plus_days(days - 1));
}

/// Moving a date twice is moving it once by the sum.
pub proof fn lemma_plus_days_sum(d: DateView, first: int, second: int)
    requires
        d.exists_in_calendar(),
    ensures
        d.plus_days(first).plus_days(second) == d.plus_days(first + second),
    decreases
            if second >= 0 {
                second
            } else {
                -second
            },
{
    if second > 0 {
        lemma_plus_days_sum(d, first, second - 1);
        lemma_plus_days_step(d, first + second - 1);
    } else if second < 0 {
        lemma_plus_days_sum(d, first, second + 1);
        lemma_plus_days_step(d, first + second + 1);
    }
}

/// Adding a number of days to a date and then taking the same number away
/// gives the date back.
pub proof fn lemma_add_days_round_trip(d: DateView, days: int)
    requires
        d.exists_in_calendar(),
    ensures
        d.plus_days(days).plus_days(-days) == d,
{
    lemma_plus_days_sum(d, days, -days);
}

/// What [`shift_days`] gives: the moved date, unless its year is one that
/// no [`Date`] can hold.
pub open spec fn shifted(d: DateView, days: int) -> Option<(i32, u8, u8)> {
    let moved = d.plus_days(days);
    if moved.in_range() {
        Some((moved.year as i32, moved.month as u8, moved.day as u8))
    } else {
        None
    }
}

/// `chrono::NaiveDate::from_ymd_opt`, asked whether it gives a date: it
/// does for the days of the calendar from `MIN_YEAR` to `MAX_YEAR`, and for
/// nothing else.
#[verifier::external_body]
fn day_exists(year: i32, month: u32, day: u32) -> (r: bool)
    ensures
        r == ({
            let d = DateView { year: year as int, month: month as int, day: day as int };
            d.exists_in_calendar() && d.in_range()
        }),
{
    chrono::NaiveDate::from_ymd_opt(year, month, day).is_some()
}

/// `chrono::NaiveDate::checked_add_signed` with a whole number of days: the
/// day that many days later in the calendar, `None` where that day lies
/// outside the years from `MIN_YEAR` to `MAX_YEAR`.
#[verifier::external_body]
fn shift_days(year: i32, month: u8, day: u8, days: i64) -> (r: Option<(i32, u8, u8)>)
    requires
        (DateView { year: year as int, month: month as int, day: day as int }).exists_in_calendar(),
        (DateView { year: year as int, month: month as int, day: day as int }).in_range(),
    ensures
        r == shifted(
            DateView { year: year as int, month: month as int, day: day as int },
            days as int,
        ),
{
    let date = chrono::NaiveDate::from_ymd_opt(year, month.into(), day.into())?;
    let moved = date.checked_add_signed(chrono::Duration::try_days(days)?)?;
    Some((moved.year(), moved.month() as u8, moved.day() as u8))
}

/// `chrono::NaiveDate::format` with the pattern `%Y-%m-%d`: the year
/// zero-padded to four digits, signed where it is not between 0 and 9999,
/// then month and day zero-padded to two digits.
#[verifier::external_body]
fn day_text(year: i32, month: u8, day: u8) -> (r: String)
    requires
        (DateView { year: year as int, month: month as int, day: day as int }).exists_in_calendar(),
        (DateView { year: year as int, month: month as int, day: day as int }).in_range(),
    ensures
        r@ == (DateView { year: year as int, month: month as int, day: day as int }).text(),
{
    chrono::NaiveDate::from_ymd_opt(year, month.into(), day.into()).map(
        |date| date.format("%Y-%m-%d").to_string(),
    ).unwrap_or_default()
}

/// A day of the calendar.
#[derive(Clone, Copy, Debug, PartialEq, Eq)]
pub struct Date {
    year: i32,
    month: u8,
    day: u8,
}

impl View for Date {
    type V = DateView;

    closed spec fn view(&self) -> DateView {
        DateView { year: self.year as int, month: self.month as int, day: self.day as int }
    }
}

impl Date {
    #[verifier::type_invariant]
    spec fn well_formed(self) -> bool {
        self@.exists_in_calendar() && self@.in_range()
    }

    /// The date of a year, a month and a day; `None` where the calendar has
    /// no such day.
    pub fn new(year: u16, month: u8, day: u8) -> (r: Option<Date>)
        ensures
            match r {
                Some(date) => date@ == (DateView {
                    year: year as int,
                    month: month as int,
                    day: day as int,
                }) && date@.exists_in_calendar(),
                None => !(DateView {
                    year: year as int,
                    month: month as int,
                    day: day as int,
                }).exists_in_calendar(),
            },
    {
        if day_exists(year as i32, month as u32, day as u32) {
            Some(Date { year: year as i32, month, day })
        } else {
            None
        }
    }

    /// The year. Every date is a day of the calendar, in a year that a date
    /// can hold.
    pub fn year(&self) -> (r: i32)
        ensures
            r == self@.year,
            self@.exists_in_calendar(),
            self@.in_range(),
    {
        proof {
            use_type_invariant(self);
        }
        self.year
    }

    /// The month, from 1 to 12.
    pub fn month(&self) -> (r: u8)
        ensures
            r == self@.month,
            1 <= r <= 12,
    {
        proof {
            use_type_invariant(self);
        }
        self.month
    }

    /// The day of the month, from 1.
    pub fn day(&self) -> (r: u8)
        ensures
            r == self@.day,
            1 <= r <= 31,
    {
        proof {
            use_type_invariant(self);
        }
        self.day
    }

    /// The date `days` days later, or earlier where `days` is negative;
    /// `None` where that day lies in a year that no date can hold.
    pub fn checked_add_days(&self, days: i64) -> (r: Option<Date>)
        ensures
            match r {
                Some(date) => date@ == self@.plus_days(days as int),
                None => !self@.plus_days(days as int).in_range(),
            },
    {
        proof {
            use_type_invariant(self);
            lemma_plus_days_exists(self@, days as int);
        }
        match shift_days(self.year, self.month, self.day, days) {
            Some((year, month, day)) => Some(Date { year, month, day }),
            None => None,
        }
    }

    /// The date `days` days later, or earlier where `days` is negative.
    pub fn add_days(&self, days: i64) -> (r: Date)
        requires
            self@.plus_days(days as int).in_range(),
        ensures
            r@ == self@.plus_days(days as int),
    {
        proof {
            use_type_invariant(self);
            lemma_plus_days_exists(self@, days as int);
        }
        match shift_days(self.year, self.month, self.day, days) {
            Some((year, month, day)) => Date { year, month, day },
            None => *self,
        }
    }

    /// The English name of the month.
    pub fn month_name(&self) -> (r: &'static str)
        ensures
            r@ == month_name_of(self@.month),
    {
        let month = self.month;
        if month == 1 {
            "January"
        } else if month == 2 {
            "February"
        } else if month == 3 {
            "March"
        } else if month == 4 {
            "April"
        } else if month == 5 {
            "May"
        } else if month == 6 {
            "June"
        } else if month == 7 {
            "July"
        } else if month == 8 {
            "August"
        } else if month == 9 {
            "September"
        } else if month == 10 {
            "October"
        } else if month == 11 {
            "November"
        } else {
            "December"
        }
    }

    /// The date as text, such as `2024-03-15`.
    pub fn to_string(&self) -> (r: String)
        ensures
            r@ == self@.text(),
    {
        proof {
            use_type_invariant(self);
        }
        day_text(self.year, self.month, self.day)
    }
}

} // verus!
