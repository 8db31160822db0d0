//! The data carried across the service boundary, as plain values: identifiers
//! are 128-bit integers, dates are year, month and day, times are seconds.

use vstd::prelude::*;

verus! {

/// The signed payload of a bearer token: the user identifier and the moment
/// the token stops being valid, in seconds since the epoch.
#[derive(Clone, Copy, Debug, PartialEq, Eq, Structural)]
pub struct Claims {
    pub id: u128,
    pub exp: u64,
}

/// A calendar date as plain year, month and day.
#[derive(Clone, Copy, Debug, PartialEq, Eq, Structural)]
pub struct Date {
    pub year: u16,
    pub month: u8,
    pub day: u8,
}

pub open spec fn is_leap_year(y: int) -> bool {
    (y % 4 == 0 && y % 100 != 0) || y % 400 == 0
}

pub open spec fn days_in_month(y: int, m: int) -> int
    recommends
        1 <= m <= 12,
{
    if m == 2 {
        if is_leap_year(y) {
            29
        } else {
            28
        }
    } else if m == 4 || m == 6 || m == 9 || m == 11 {
        30
    } else {
        31
    }
}

impl Date {
    /// The month is a month and the day exists in it, leap years counted.
    pub open spec fn valid(self) -> bool {
        1 <= self.month <= 12 && 1 <= self.day <= days_in_month(
            self.year as int,
            self.month as int,
        )
    }

    /// Build a date; `None` when no such date exists in the calendar.
    pub fn new(year: u16, month: u8, day: u8) -> (r: Option<Date>)
        ensures
            r is Some <==> (Date { year, month, day }).valid(),
            r is Some ==> r->0 == (Date { year, month, day }),
    {
        if month < 1 || month > 12 {
            return None;
        }
        let limit: u8 = if month == 2 {
            let leap = (year % 4 == 0 && year % 100 != 0) || year % 400 == 0;
            if leap {
                29
            } else {
                28
            }
        } else if month == 4 || month == 6 || month == 9 || month == 11 {
            30
        } else {
            31
        };
        if day < 1 || day > limit {
            return None;
        }
        Some(Date { year, month, day })
    }
}

/// What a caller sends to log in.
#[derive(Clone, Debug)]
pub struct LoginRequest {
    pub id: u128,
    pub password: String,
}

/// What a caller sends to register.
#[derive(Clone, Debug)]
pub struct RegisterRequest {
    pub first_name: String,
    pub second_name: String,
    pub birthdate: Date,
    pub biography: String,
    pub city: String,
    pub password: String,
}

/// The stored profile handed back to callers: every registration field but
/// the password, plus the assigned identifier. Holding no password field,
/// it cannot leak one.
#[derive(Clone, Debug)]
pub struct RegisterResponse {
    pub id: u128,
    pub first_name: String,
    pub second_name: String,
    pub birthdate: Date,
    pub biography: String,
    pub city: String,
}

} // verus!
