use vstd::prelude::*;

use crate::text::{decimal, push_decimal};

verus! {

/// Inclusive minimum supported Gregorian/lunar year.
pub const MIN_YEAR: i32 = 1900;

/// Inclusive maximum supported Gregorian/lunar year.
pub const MAX_YEAR: i32 = 2100;

/// Library errors.
#[derive(Debug, Clone, Copy, PartialEq, Eq, Structural)]
pub enum LunarError {
    InvalidDate(i32, u8, u8),
    YearOutOfRange(i32),
    InvalidLunarMonth(u8),
    InvalidLunarDay(u8),
    LeapMonthError,
    NewMoonError,
    SolarTermError,
}

/// The stable numeric code of each error kind.
pub open spec fn error_code(e: LunarError) -> i32 {
    match e {
        LunarError::InvalidDate(_, _, _) => 1,
        LunarError::YearOutOfRange(_) => 2,
        LunarError::InvalidLunarMonth(_) => 3,
        LunarError::InvalidLunarDay(_) => 4,
        LunarError::LeapMonthError => 5,
        LunarError::NewMoonError => 6,
        LunarError::SolarTermError => 7,
    }
}

/// The message of an error.
pub open spec fn error_text(e: LunarError) -> Seq<char> {
    match e {
        LunarError::InvalidDate(y, m, d) => "invalid date: "@ + decimal(y as int) + "-"@ + decimal(
            m as int,
        ) + "-"@ + decimal(d as int),
        LunarError::YearOutOfRange(y) => "year out of supported range (1900-2100): "@ + decimal(
            y as int,
        ),
        LunarError::InvalidLunarMonth(m) => "invalid lunar month: "@ + decimal(m as int),
        LunarError::InvalidLunarDay(d) => "invalid lunar day: "@ + decimal(d as int),
        LunarError::LeapMonthError => "requested leap month does not exist in that year"@,
        LunarError::NewMoonError => "new moon calculation failed"@,
        LunarError::SolarTermError => "solar term calculation failed"@,
    }
}

impl LunarError {
    /// The error's message.
    pub fn to_string(&self) -> (s: String)
        ensures
            s@ == error_text(*self),
    {
        let mut s = String::new();
        match self {
            LunarError::InvalidDate(y, m, d) => {
                s.append("invalid date: ");
                push_decimal(&mut s, *y as i64);
                s.append("-");
                push_decimal(&mut s, *m as i64);
                s.append("-");
                push_decimal(&mut s, *d as i64);
            },
            LunarError::YearOutOfRange(y) => {
                s.append("year out of supported range (1900-2100): ");
                push_decimal(&mut s, *y as i64);
            },
            LunarError::InvalidLunarMonth(m) => {
                s.append("invalid lunar month: ");
                push_decimal(&mut s, *m as i64);
            },
            LunarError::InvalidLunarDay(d) => {
                s.append("invalid lunar day: ");
                push_decimal(&mut s, *d as i64);
            },
            LunarError::LeapMonthError => {
                s.append("requested leap month does not exist in that year");
            },
            LunarError::NewMoonError => {
                s.append("new moon calculation failed");
            },
            LunarError::SolarTermError => {
                s.append("solar term calculation failed");
            },
        }
        assert(s@ =~= error_text(*self));
        s
    }

    /// Stable C ABI error code.
    pub fn code(self) -> (c: i32)
        ensures
            c == error_code(self),
            1 <= c <= 7,
    {
        match self {
            LunarError::InvalidDate(_, _, _) => 1,
            LunarError::YearOutOfRange(_) => 2,
            LunarError::InvalidLunarMonth(_) => 3,
            LunarError::InvalidLunarDay(_) => 4,
            LunarError::LeapMonthError => 5,
            LunarError::NewMoonError => 6,
            LunarError::SolarTermError => 7,
        }
    }
}

} // verus!
