use vstd::prelude::*;

use crate::arith::{fits_i32, floor_div};
use crate::error::{LunarError, MAX_YEAR, MIN_YEAR};
use crate::text::{push_zero_padded, zero_padded};

verus! {

/// Gregorian date.
#[derive(Debug, Clone, Copy, PartialEq, Eq, Hash, Structural)]
pub struct SolarDate {
    pub year: i32,
    pub month: u8,
    pub day: u8,
}

/// `YYYY-MM-DD`.
pub open spec fn solar_date_text(d: SolarDate) -> Seq<char> {
    zero_padded(d.year as int, 4) + "-"@ + zero_padded(d.month as int, 2) + "-"@ + zero_padded(
        d.day as int,
        2,
    )
}

impl SolarDate {
    pub fn new(year: i32, month: u8, day: u8) -> (d: SolarDate)
        ensures
            d == (SolarDate { year, month, day }),
    {
        SolarDate { year, month, day }
    }

    /// The date as `YYYY-MM-DD`.
    pub fn to_string(&self) -> (s: String)
        ensures
            s@ == solar_date_text(*self),
    {
        let mut s = String::new();
        self.push_text(&mut s);
        s
    }

    pub fn push_text(&self, s: &mut String)
        ensures
            final(s)@ == old(s)@ + solar_date_text(*self),
    {
        let ghost s0 = s@;
        push_zero_padded(s, self.year as i64, 4);
        s.append("-");
        push_zero_padded(s, self.month as i64, 2);
        s.append("-");
        push_zero_padded(s, self.day as i64, 2);
        assert(s@ =~= s0 + solar_date_text(*self));
    }
}

/// Leap-year rule of the proleptic Gregorian calendar.
pub open spec fn is_leap_year_spec(year: int) -> bool {
    (year % 4 == 0 && year % 100 != 0) || year % 400 == 0
}

/// Number of days of a Gregorian month; 0 for a month number outside 1..=12.
pub open spec fn days_in_month_spec(year: int, month: int) -> int {
    if month == 1 || month == 3 || month == 5 || month == 7 || month == 8 || month == 10
        || month == 12 {
        31
    } else if month == 4 || month == 6 || month == 9 || month == 11 {
        30
    } else if month == 2 {
        if is_leap_year_spec(year) {
            29
        } else {
            28
        }
    } else {
        0
    }
}

/// A day that exists in the Gregorian calendar.
pub open spec fn is_valid_date(year: int, month: int, day: int) -> bool {
    1 <= month <= 12 && 1 <= day <= days_in_month_spec(year, month)
}

/// What `validate_solar_date` answers.
pub open spec fn solar_date_check(year: i32, month: u8, day: u8) -> Result<(), LunarError> {
    if year < MIN_YEAR || year > MAX_YEAR {
        Err(LunarError::YearOutOfRange(year))
    } else if !is_valid_date(year as int, month as int, day as int) {
        Err(LunarError::InvalidDate(year, month, day))
    } else {
        Ok(())
    }
}

pub fn is_leap_year(year: i32) -> (r: bool)
    ensures
        r == is_leap_year_spec(year as int),
{
    (year % 4 == 0 && year % 100 != 0) || (year % 400 == 0)
}

fn days_in_month(year: i32, month: u8) -> (r: u8)
    ensures
        r == days_in_month_spec(year as int, month as int),
{
    match month {
        1 | 3 | 5 | 7 | 8 | 10 | 12 => 31,
        4 | 6 | 9 | 11 => 30,
        2 => {
            if is_leap_year(year) {
                29
            } else {
                28
            }
        },
        _ => 0,
    }
}

/// Validate a Gregorian date in the supported range.
pub fn validate_solar_date(year: i32, month: u8, day: u8) -> (r: Result<(), LunarError>)
    ensures
        r == solar_date_check(year, month, day),
{
    if year < MIN_YEAR || year > MAX_YEAR {
        return Err(LunarError::YearOutOfRange(year));
    }
    if !(1 <= month && month <= 12) {
        return Err(LunarError::InvalidDate(year, month, day));
    }
    let max_day = days_in_month(year, month);
    if day < 1 || day > max_day {
        return Err(LunarError::InvalidDate(year, month, day));
    }
    Ok(())
}

// ---------------------------------------------------------------------------
// Julian day numbers
// ---------------------------------------------------------------------------

/// `(14 - month) / 12`: 1 for January and February, 0 for March..December.
pub open spec fn jd_shift(month: int) -> int {
    (14 - month) / 12
}

/// The year counted from March, shifted to be non-negative from 4800 BC.
pub open spec fn jd_year(month: int, year: int) -> int {
    year + 4800 - jd_shift(month)
}

/// The month counted from March (0 = March, 11 = February).
pub open spec fn jd_month(month: int) -> int {
    month + 12 * jd_shift(month) - 3
}

/// Days from the start of a March-based year to the start of a March-based month.
pub open spec fn month_offset(m: int) -> int {
    (153 * m + 2) / 5
}

/// Day number of a date read in the Gregorian calendar.
pub open spec fn jd_gregorian(day: int, month: int, year: int) -> int {
    let y = jd_year(month, year);
    day + month_offset(jd_month(month)) + 365 * y + y / 4 - y / 100 + y / 400 - 32045
}

/// Day number of a date read in the Julian calendar.
pub open spec fn jd_julian(day: int, month: int, year: int) -> int {
    let y = jd_year(month, year);
    day + month_offset(jd_month(month)) + 365 * y + y / 4 - 32083
}

/// Julian day number of a date: Gregorian from 1582-10-15 on, Julian before.
pub open spec fn jd_spec(day: int, month: int, year: int) -> int {
    if jd_gregorian(day, month, year) < 2299161 {
        jd_julian(day, month, year)
    } else {
        jd_gregorian(day, month, year)
    }
}

/// The `i32` evaluation of the day number stays in range at every step.
pub open spec fn jd_in_range(day: int, month: int, year: int) -> bool {
    let y = jd_year(month, year);
    let s1 = day + month_offset(jd_month(month));
    let s2 = s1 + 365 * y;
    let s3 = s2 + y / 4;
    let s4 = s3 - y / 100;
    let s5 = s4 + y / 400;
    let s6 = s5 - 32045;
    &&& fits_i32(year + 4800)
    &&& fits_i32(y)
    &&& fits_i32(365 * y)
    &&& fits_i32(s2)
    &&& fits_i32(s3)
    &&& fits_i32(s4)
    &&& fits_i32(s5)
    &&& fits_i32(s6)
    &&& (s6 < 2299161 ==> fits_i32(s3 - 32083))
}

/// Julian day number for a Gregorian (or Julian, if before 1582-10-15) date.
pub fn jd_from_date(day: u8, month: u8, year: i32) -> (jd: i32)
    requires
        jd_in_range(day as int, month as int, year as int),
    ensures
        jd == jd_spec(day as int, month as int, year as int),
{
    let mo = month as i64;
    let a = floor_div(14 - mo, 12);
    let y = year as i64 + 4800 - a;
    let m = mo + 12 * a - 3;
    let f = floor_div(153 * m + 2, 5);
    let base = day as i64 + f + 365 * y + floor_div(y, 4);
    let g = base - floor_div(y, 100) + floor_div(y, 400) - 32045;
    let jd = if g < 2299161 {
        base - 32083
    } else {
        g
    };
    jd as i32
}

/// Date of a day number: year, month and day, before the `u8` casts.
pub open spec fn date_parts(jd: int) -> (int, int, int) {
    let (b, c) = if jd > 2299160 {
        let a = jd + 32044;
        let b = (4 * a + 3) / 146097;
        (b, a - (146097 * b) / 4)
    } else {
        (0, jd + 32082)
    };
    let d = (4 * c + 3) / 1461;
    let e = c - (1461 * d) / 4;
    let m = (5 * e + 2) / 153;
    (100 * b + d - 4800 + m / 10, m + 3 - 12 * (m / 10), e - (153 * m + 2) / 5 + 1)
}

/// Gregorian date (Julian before the reform) of a day number.
pub open spec fn date_of_jd(jd: int) -> SolarDate {
    let (y, m, d) = date_parts(jd);
    SolarDate { year: y as i32, month: m as u8, day: d as u8 }
}

proof fn lemma_day_in_year(c: int)
    ensures
        ({
            let d = (4 * c + 3) / 1461;
            let e = c - (1461 * d) / 4;
            let m = (5 * e + 2) / 153;
            &&& 0 <= e <= 365
            &&& 0 <= m <= 11
            &&& 1 <= e - (153 * m + 2) / 5 + 1 <= 31
            &&& 1 <= m + 3 - 12 * (m / 10) <= 12
        }),
{
    let d = (4 * c + 3) / 1461;
    let e = c - (1461 * d) / 4;
    assert(0 <= e <= 365) by (nonlinear_arith)
        requires
            d == (4 * c + 3) / 1461,
            e == c - (1461 * d) / 4,
    ;
}

/// Gregorian date for a Julian day number.
pub fn jd_to_date(jd: i32) -> (d: SolarDate)
    requires
        jd <= i32::MAX - 32044,
    ensures
        d == date_of_jd(jd as int),
        fits_i32(date_parts(jd as int).0),
        1 <= d.month <= 12,
        1 <= d.day <= 31,
        d.month == date_parts(jd as int).1,
        d.day == date_parts(jd as int).2,
{
    let j = jd as i64;
    let b: i64;
    let c: i64;
    if j > 2299160 {
        let a = j + 32044;
        b = floor_div(4 * a + 3, 146097);
        c = a - floor_div(146097 * b, 4);
    } else {
        b = 0;
        c = j + 32082;
    }
    proof {
        lemma_day_in_year(c as int);
    }
    let d = floor_div(4 * c + 3, 1461);
    let e = c - floor_div(1461 * d, 4);
    let m = floor_div(5 * e + 2, 153);
    let day = e - floor_div(153 * m + 2, 5) + 1;
    let month = m + 3 - 12 * floor_div(m, 10);
    let year = 100 * b + d - 4800 + floor_div(m, 10);
    SolarDate { year: year as i32, month: month as u8, day: day as u8 }
}


/// The day is on or after 1582-10-15, the first day of the Gregorian calendar.
pub open spec fn on_or_after_reform(year: int, month: int, day: int) -> bool {
    year > 1582 || (year == 1582 && (month > 10 || (month == 10 && day >= 15)))
}

proof fn lemma_year_split(y: int, t: int)
    requires
        0 <= t <= 365,
        t == 365 ==> is_leap_year_spec(y + 1),
    ensures
        ({
            let a = t + 365 * y + y / 4 - y / 100 + y / 400;
            let b = (4 * a + 3) / 146097;
            let c = a - (146097 * b) / 4;
            let d = (4 * c + 3) / 1461;
            let e = c - (1461 * d) / 4;
            100 * b + d == y && e == t
        }),
{
    let q = y / 100;
    let r = y % 100;
    let s = r / 4;
    let u = r % 4;
    let p = q / 4;
    let v = q % 4;
    assert(y == 100 * q + r && 0 <= r < 100);
    assert(r == 4 * s + u && 0 <= u < 4);
    assert(q == 4 * p + v && 0 <= v < 4);
    assert(y / 4 == 25 * q + s);
    assert(y / 400 == p);
    let w = 365 * r + s + t;
    let a = t + 365 * y + y / 4 - y / 100 + y / 400;
    assert(a == 36524 * q + p + w);
    // the leap day at the end of a century year exists only every fourth century
    if t == 365 {
        assert((y + 1) % 4 == 0);
        assert(u == 3);
        if r == 99 {
            assert((y + 1) % 100 == 0);
            assert((y + 1) % 400 == 0);
            assert(v == 3);
        }
    }
    assert(0 <= 4 * w + 3 - v < 146097);
    let b = (4 * a + 3) / 146097;
    assert(4 * a + 3 == 146097 * q + (4 * w + 3 - v));
    assert(b == q);
    assert((146097 * b) / 4 == 36524 * q + p);
    let c = a - (146097 * b) / 4;
    assert(c == w);
    assert(4 * c + 3 == 1461 * (4 * s) + 1460 * u + 4 * t + 3);
    assert(0 <= 1460 * u + 4 * t + 3 - 1461 * u < 1461);
    let d = (4 * c + 3) / 1461;
    assert(d == r);
    assert((1461 * d) / 4 == 365 * r + s);
}

proof fn lemma_month_split(m: int, day: int, leap: bool)
    requires
        0 <= m <= 11,
        1 <= day,
        m == 11 ==> day <= (if leap { 29int } else { 28 }),
        m != 11 ==> day <= 31,
        m == 1 || m == 3 || m == 6 || m == 8 ==> day <= 30,
    ensures
        ({
            let t = day - 1 + month_offset(m);
            &&& 0 <= t <= 365
            &&& (t == 365 ==> leap && m == 11)
            &&& (5 * t + 2) / 153 == m
            &&& t - month_offset(m) + 1 == day
        }),
{
}

/// Reading a Gregorian date as a day number and back gives the same date.
#[verifier::spinoff_prover]
pub proof fn lemma_jd_round_trip(day: int, month: int, year: int)
    requires
        is_valid_date(year, month, day),
        on_or_after_reform(year, month, day),
        fits_i32(year),
    ensures
        date_of_jd(jd_spec(day, month, year)) == (SolarDate {
            year: year as i32,
            month: month as u8,
            day: day as u8,
        }),
{
    let sh = jd_shift(month);
    let y = jd_year(month, year);
    let m = jd_month(month);
    assert(sh == if month <= 2 { 1int } else { 0 });
    let leap = is_leap_year_spec(year);
    lemma_month_split(m, day, leap);
    let t = day - 1 + month_offset(m);
    if t == 365 {
        assert(y + 1 == year + 4800);
        assert((year + 4800) % 4 == year % 4);
        assert((year + 4800) % 100 == year % 100);
        assert((year + 4800) % 400 == year % 400);
    }
    lemma_year_split(y, t);
    let a = t + 365 * y + y / 4 - y / 100 + y / 400;
    assert(jd_gregorian(day, month, year) == a - 32044);
    assert(jd_gregorian(day, month, year) >= 2299161) by {
        if y >= 6383 {
            assert(a >= 365 * 6383 + 1595 - 63 + 15);
        } else {
            assert(y == 6382);
            assert(t >= 228);
        }
    }
}


/// Day numbers of the dates of one year run from its 1 January to its
/// 31 December, and 1 January follows the previous 31 December.
pub proof fn lemma_jd_in_year(day: int, month: int, year: int)
    requires
        is_valid_date(year, month, day),
        1600 <= year <= 1_000_000,
    ensures
        jd_spec(1, 1, year) <= jd_spec(day, month, year) <= jd_spec(31, 12, year),
        jd_spec(31, 12, year - 1) + 1 == jd_spec(1, 1, year),
        jd_in_range(day, month, year),
{
    let y = year + 4800;
    assert((y - 1) / 4 <= y / 4 <= (y - 1) / 4 + 1);
    assert((y - 1) / 100 <= y / 100 <= (y - 1) / 100 + 1);
    assert((y - 1) / 400 <= y / 400 <= (y - 1) / 400 + 1);
    assert(jd_gregorian(1, 1, year) >= 2299161);
    assert(jd_gregorian(31, 12, year - 1) >= 2299161);
    assert(jd_gregorian(day, month, year) >= 2299161);
}


/// The day-number computation stays in `i32` range for years near the supported range.
pub proof fn lemma_jd_in_range_small(day: int, month: int, year: int)
    requires
        0 <= day <= 255,
        0 <= month <= 255,
        -1_000_000 <= year <= 1_000_000,
    ensures
        jd_in_range(day, month, year),
        -1_000_000_000 < jd_spec(day, month, year) < 1_000_000_000,
{
}


/// Reading a day number (from 1582-10-15 on) as a date and back gives the same
/// day number; the date is a valid Gregorian date on or after the reform.
#[verifier::spinoff_prover]
pub proof fn lemma_jd_of_date(jd: int)
    requires
        2299161 <= jd <= i32::MAX - 32044,
    ensures
        ({
            let d = date_of_jd(jd);
            &&& jd_spec(d.day as int, d.month as int, d.year as int) == jd
            &&& is_valid_date(d.year as int, d.month as int, d.day as int)
            &&& on_or_after_reform(d.year as int, d.month as int, d.day as int)
            &&& fits_i32(date_parts(jd).0)
            &&& d.year as int == date_parts(jd).0
        }),
{
    let a = jd + 32044;
    let b = (4 * a + 3) / 146097;
    let c = a - (146097 * b) / 4;
    assert(0 <= c <= 36524) by (nonlinear_arith)
        requires
            b == (4 * a + 3) / 146097,
            c == a - (146097 * b) / 4,
            a >= 0,
    ;
    let d = (4 * c + 3) / 1461;
    assert(0 <= d <= 99);
    let e = c - (1461 * d) / 4;
    lemma_day_in_year(c);
    let m = (5 * e + 2) / 153;
    let day = e - (153 * m + 2) / 5 + 1;
    let month = m + 3 - 12 * (m / 10);
    let year = 100 * b + d - 4800 + m / 10;
    assert(date_parts(jd) == (year, month, day));
    let y = 100 * b + d;
    assert(jd_shift(month) == (if m >= 10 { 1int } else { 0 }));
    assert(jd_month(month) == m);
    assert(jd_year(month, year) == y);
    assert(y / 100 == b && y % 100 == d);
    assert(y / 4 == 25 * b + d / 4);
    assert(y / 400 == b / 4);
    assert((146097 * b) / 4 == 36524 * b + b / 4);
    assert((1461 * d) / 4 == 365 * d + d / 4);
    assert(jd_gregorian(day, month, year) == jd);
    assert(0 <= b <= 60000);
    // valid date: the day fits in its month
    assert(1 <= day <= days_in_month_spec(year, month)) by {
        if m == 11 && day == 29 {
            // e == 365 happens only at the end of a leap year
            assert(e == 365);
            let s = d / 4;
            let u = d % 4;
            assert(4 * c + 3 == 1461 * (4 * s) + 1460 * u + 4 * e + 3);
            assert(u == 3);
            assert(year + 4800 == y + 1);
            if d == 99 {
                assert(b % 4 == 3);
                assert((y + 1) % 400 == 0);
            }
            assert((year + 4800) % 4 == year % 4);
            assert((year + 4800) % 100 == year % 100);
            assert((year + 4800) % 400 == year % 400);
        }
    }
    assert(year >= 1582);
}

/// 31 December moves forward from year to year.
pub proof fn lemma_dec31_increasing(y1: int, y2: int)
    requires
        1599 <= y1 < y2 <= 1_000_000,
    ensures
        jd_spec(31, 12, y1) < jd_spec(31, 12, y2),
    decreases y2 - y1,
{
    lemma_jd_in_year(31, 12, y2);
    if y1 + 1 < y2 {
        lemma_dec31_increasing(y1, y2 - 1);
    }
}

/// The date of a day number that falls after 31 December of `year - 1` and no
/// later than 31 December of `year` is a valid date of `year`.
#[verifier::spinoff_prover]
pub proof fn lemma_date_in_year(jd: int, year: int)
    requires
        1601 <= year <= 10_000,
        jd_spec(31, 12, year - 1) < jd <= jd_spec(31, 12, year),
    ensures
        ({
            let d = date_of_jd(jd);
            &&& d.year == year
            &&& jd_spec(d.day as int, d.month as int, d.year as int) == jd
            &&& is_valid_date(d.year as int, d.month as int, d.day as int)
        }),
{
    lemma_jd_in_year(31, 12, year - 1);
    lemma_jd_in_year(31, 12, year);
    lemma_jd_in_year(31, 12, 1600);
    if year - 1 > 1600 {
        lemma_dec31_increasing(1600, year - 1);
    }
    lemma_jd_in_year(31, 12, 10_000);
    if year < 10_000 {
        lemma_dec31_increasing(year, 10_000);
    }
    lemma_jd_of_date(jd);
    let d = date_of_jd(jd);
    let sy = d.year as int;
    let sm = d.month as int;
    let sd = d.day as int;
    let yy = jd_year(sm, sy);
    assert(jd_gregorian(sd, sm, sy) == jd);
    // crude bounds place the date's year between 1600 and 20000
    assert(sy >= 1600) by {
        if sy < 1600 {
            assert(yy <= 6399);
            assert(month_offset(jd_month(sm)) <= 337);
            assert(yy / 4 - yy / 100 + yy / 400 <= 1599 - 63 + 15);
        }
    }
    assert(sy <= 20_000) by {
        if sy > 20_000 {
            assert(yy >= 24_800);
            assert(month_offset(jd_month(sm)) >= 0);
            assert(yy / 4 - yy / 100 + yy / 400 >= 0);
        }
    }
    lemma_jd_in_year(sd, sm, sy);
    if sy < year {
        if sy < year - 1 {
            lemma_dec31_increasing(sy, year - 1);
        }
    }
    if sy > year {
        if sy - 1 > year {
            lemma_dec31_increasing(year, sy - 1);
        }
    }
}

/// A date whose day number comes before 1 March of its year is in January or February.
pub proof fn lemma_before_march(day: int, month: int, year: int)
    requires
        is_valid_date(year, month, day),
        1600 <= year <= 1_000_000,
        jd_spec(day, month, year) < jd_spec(1, 3, year),
    ensures
        month <= 2,
{
    lemma_jd_in_year(day, month, year);
    lemma_jd_in_year(1, 3, year);
    if month >= 3 {
        assert(jd_gregorian(day, month, year) >= 2299161);
        assert(jd_gregorian(1, 3, year) >= 2299161);
        assert(jd_year(month, year) == jd_year(3, year));
        assert(month_offset(jd_month(month)) >= month_offset(jd_month(3)));
    }
}

} // verus!
