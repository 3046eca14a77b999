//! Solar ↔ lunar conversion (Hồ Ngọc Đức's rules at UTC+7) over a table of lunations.
//!
//! Month 11 always contains Đông Chí. A leap month is the first month after
//! that Đông Chí which contains no major solar term (trung khí).
//!
//! The astronomy (the day each new moon falls on, and the major solar term in
//! force on that day) is computed in floating point outside this crate and handed
//! in as a `Lunations` table; everything here is integer arithmetic on it.
use vstd::prelude::*;

use crate::arith::floor_div;
use crate::error::{LunarError, MAX_YEAR, MIN_YEAR};
use crate::gregorian::{
    date_of_jd, date_parts, is_valid_date, jd_from_date, jd_in_range, jd_spec, jd_to_date,
    lemma_before_march, lemma_date_in_year, lemma_dec31_increasing, lemma_jd_in_year, lemma_jd_of_date, lemma_jd_round_trip, solar_date_check, validate_solar_date, SolarDate,
};
use crate::lunar_date::{lunar_date, lunar_date_parts, LunarDate};

verus! {

/// Numerator offset of the new-moon epoch 2415021.076998695, in units of 10^-9 day.
pub const EPOCH_NANOS: i64 = 2_415_021_076_998_695;

/// The mean synodic month, 29.530588853 days, in units of 10^-9 day.
pub const SYNODIC_NANOS: i64 = 29_530_588_853;

/// Day numbers are scaled by 10^9 to divide exactly by the synodic month.
pub const NANOS: i64 = 1_000_000_000;

/// Index of the mean lunation in force on day `dn`:
/// `floor((dn - 2415021.076998695) / 29.530588853)`.
pub open spec fn lunation_estimate(dn: int) -> int {
    (dn * NANOS - EPOCH_NANOS) / (SYNODIC_NANOS as int)
}

/// Index of the mean lunation nearest to day `dn`:
/// `floor(0.5 + (dn - 2415021.076998695) / 29.530588853)`.
pub open spec fn nearest_lunation(dn: int) -> int {
    (2 * dn * NANOS - 2 * EPOCH_NANOS + SYNODIC_NANOS) / (2 * SYNODIC_NANOS as int)
}

/// Index of the mean lunation estimated for 31 December of `year`:
/// `floor((jd(31, 12, year) - 2415021) / 29.530588853)`.
pub open spec fn month11_estimate(year: int) -> int {
    ((jd_spec(31, 12, year) - 2415021) * NANOS) / (SYNODIC_NANOS as int)
}

/// The abstract table: lunation `first + i` starts on day `starts[i]`, and
/// `terms[i]` is the major solar term (0 = Xuân Phân, 9 = Đông Chí) in force
/// on that day.
pub struct LunationTable {
    pub first: int,
    pub starts: Seq<i32>,
    pub terms: Seq<u8>,
}

/// The astronomical data the conversions read.
pub struct Lunations {
    first: i32,
    starts: Vec<i32>,
    terms: Vec<u8>,
}

impl View for Lunations {
    type V = LunationTable;

    closed spec fn view(&self) -> LunationTable {
        LunationTable { first: self.first as int, starts: self.starts@, terms: self.terms@ }
    }
}


/// Month number and leap flag of the month `diff` months after month 11, in a
/// year that has a leap month at position `lo` when `leap_year` holds.
pub open spec fn month_label(diff: int, leap_year: bool, lo: int) -> (int, bool) {
    let m0 = if leap_year && diff >= lo {
        diff + 10
    } else {
        diff + 11
    };
    (if m0 > 12 {
        m0 - 12
    } else {
        m0
    }, leap_year && diff == lo)
}

/// Months after month 11 of the month labelled `month` (and `leap`), in a year
/// that has a leap month at position `lo` when `leap_year` holds.
pub open spec fn month_offset_from_label(month: int, leap: bool, leap_year: bool, lo: int) -> Result<
    int,
    LunarError,
> {
    let off0 = month - 11;
    let off = if off0 < 0 {
        off0 + 12
    } else {
        off0
    };
    if leap_year {
        let ln = if lo - 2 <= 0 {
            lo - 2 + 12
        } else {
            lo - 2
        };
        if leap && month != ln {
            Err(LunarError::LeapMonthError)
        } else if leap || off >= lo {
            Ok(off + 1)
        } else {
            Ok(off)
        }
    } else if leap {
        Err(LunarError::LeapMonthError)
    } else {
        Ok(off)
    }
}

impl LunationTable {
    pub open spec fn in_table(self, k: int) -> bool {
        &&& self.first <= k
        &&& k - self.first < self.starts.len()
        &&& k - self.first < self.terms.len()
    }

    /// Day number of the first day of lunation `k`.
    pub open spec fn start(self, k: int) -> int {
        self.starts[k - self.first] as int
    }

    /// Length in days of lunation `k`.
    pub open spec fn gap(self, k: int) -> int {
        self.start(k + 1) - self.start(k)
    }

    /// Major solar term in force on the first day of lunation `k`.
    pub open spec fn term(self, k: int) -> int {
        self.terms[k - self.first] as int
    }

    /// Lunation holding month 11 of `year`: the one estimated for 31 December,
    /// or the one before when Đông Chí (term 9) has already passed at its start.
    pub open spec fn month11_index(self, year: int) -> int {
        let k = month11_estimate(year);
        if self.term(k) >= 9 {
            k - 1
        } else {
            k
        }
    }

    pub open spec fn month11_start(self, year: int) -> int {
        self.start(self.month11_index(year))
    }

    /// Scans lunations `k + 2, k + 3, ...` for the first one whose major term
    /// equals its predecessor's (a month with no major term), giving up at `k + 14`.
    pub open spec fn leap_scan(self, k: int, i: int) -> int
        decreases 14 - i,
    {
        if self.term(k + i) == self.term(k + i - 1) || i >= 14 {
            i - 1
        } else {
            self.leap_scan(k, i + 1)
        }
    }

    /// Position, counted in months after month 11 starting at `a11`, of the leap month.
    pub open spec fn leap_offset(self, a11: int) -> int {
        self.leap_scan(nearest_lunation(a11), 2)
    }

    /// Start of the month holding day `dn`: the lunation the mean-lunation
    /// estimate gives for the day, or the one after or before it when the true
    /// new moon falls on the other side of the day.
    pub open spec fn month_start_of(self, dn: int) -> int {
        let k = lunation_estimate(dn);
        if self.start(k + 1) <= dn {
            self.start(k + 1)
        } else if self.start(k) <= dn {
            self.start(k)
        } else {
            self.start(k - 1)
        }
    }

    /// Leap month of a lunar year, if it has one: a leap month 1 to 10 follows
    /// the month 11 of the previous year, a leap month 11 or 12 follows the
    /// year's own month 11.
    pub open spec fn leap_month_of(self, lunar_year: int) -> Option<u8> {
        let a11 = self.month11_start(lunar_year - 1);
        let b11 = self.month11_start(lunar_year);
        let c11 = self.month11_start(lunar_year + 1);
        if b11 - a11 > 365 && self.leap_offset(a11) >= 3 {
            Some((self.leap_offset(a11) - 2) as u8)
        } else if c11 - b11 > 365 && self.leap_offset(b11) <= 2 {
            Some((self.leap_offset(b11) + 10) as u8)
        } else {
            None
        }
    }

    /// The lunar date of day number `dn`, which falls in Gregorian `year`.
    #[verifier::opaque]
    pub open spec fn lunar_of_day(self, year: int, dn: int) -> LunarDate {
        let ms = self.month_start_of(dn);
        let m11 = self.month11_start(year);
        let a11 = if m11 >= ms {
            self.month11_start(year - 1)
        } else {
            m11
        };
        let b11 = if m11 >= ms {
            m11
        } else {
            self.month11_start(year + 1)
        };
        let ly = if m11 >= ms {
            year
        } else {
            year + 1
        };
        let diff = (ms - a11) / 29;
        let (m1, leap) = month_label(diff, b11 - a11 > 365, self.leap_offset(a11));
        let ly1 = if m1 >= 11 && diff < 4 {
            ly - 1
        } else {
            ly
        };
        lunar_date(ly1 as i32, m1 as u8, (dn - ms + 1) as u8, leap)
    }

    /// What `solar_to_lunar` answers.
    #[verifier::opaque]
    pub open spec fn solar_to_lunar_spec(self, year: i32, month: u8, day: u8) -> Result<
        LunarDate,
        LunarError,
    > {
        match solar_date_check(year, month, day) {
            Err(e) => Err(e),
            Ok(_) => Ok(self.lunar_of_day(year as int, jd_spec(day as int, month as int, year as int))),
        }
    }

    /// Month offset from month 11 of a lunar date, or the error for a leap month
    /// the year does not have.
    pub open spec fn month_offset_of(self, a11: int, b11: int, month: int, leap: bool) -> Result<
        int,
        LunarError,
    > {
        month_offset_from_label(month, leap, b11 - a11 > 365, self.leap_offset(a11))
    }

    /// The Gregorian date of day `day` of the month `off` months after month 11
    /// (which starts on `a11`), if the month has that day and the date falls in
    /// the supported range.
    pub open spec fn solar_of_month_day(self, a11: int, off: int, day: int) -> Result<SolarDate, LunarError> {
        let c = nearest_lunation(a11) + off;
        let ms = self.start(c);
        let s = date_of_jd(ms + day - 1);
        if day > self.gap(c) {
            Err(LunarError::InvalidLunarDay(day as u8))
        } else if s.year < MIN_YEAR || s.year > MAX_YEAR {
            Err(LunarError::YearOutOfRange(s.year))
        } else {
            Ok(s)
        }
    }

    /// What `lunar_to_solar` answers.
    #[verifier::opaque]
    pub open spec fn lunar_to_solar_spec(self, year: i32, month: u8, day: u8, leap: bool) -> Result<
        SolarDate,
        LunarError,
    > {
        if year < MIN_YEAR || year > MAX_YEAR {
            Err(LunarError::YearOutOfRange(year))
        } else if !(1 <= month <= 12) {
            Err(LunarError::InvalidLunarMonth(month))
        } else if !(1 <= day <= 30) {
            Err(LunarError::InvalidLunarDay(day))
        } else {
            let a11 = if month < 11 {
                self.month11_start(year - 1)
            } else {
                self.month11_start(year as int)
            };
            let b11 = if month < 11 {
                self.month11_start(year as int)
            } else {
                self.month11_start(year + 1)
            };
            match self.month_offset_of(a11, b11, month as int, leap) {
                Err(e) => Err(e),
                Ok(off) => self.solar_of_month_day(a11, off, day as int),
            }
        }
    }
}


/// Day number of 1900-01-01, the first supported day.
pub const FIRST_DAY: i32 = 2_415_021;

/// Day number of 2100-12-31, the last supported day.
pub const LAST_DAY: i32 = 2_488_434;

impl LunationTable {
    /// Indices into the table fit comfortably in an `i32`.
    pub open spec fn bounded(self) -> bool {
        &&& self.first >= i32::MIN + 2
        &&& self.first + self.starts.len() <= i32::MAX
        &&& self.first + self.terms.len() <= i32::MAX
    }

    /// The lunations read for month 11 of `year` are in the table.
    pub open spec fn month11_covered(self, year: int) -> bool {
        self.in_table(month11_estimate(year)) && self.in_table(month11_estimate(year) - 1)
    }

    /// Shape of the lunisolar year that starts at month 11 of `year`: month 11
    /// starts by 31 December and the next month 11 after it, the year has 12 or
    /// 13 months and, with 13, one of its first 13 months has no major term,
    /// its third month starts on 2 January or later, the mean lunation
    /// nearest to the start of month 11 is month 11 itself, and Đông Chí (term 9)
    /// begins during month 11: not yet in force at its start, in force at the
    /// start of the next month.
    pub open spec fn year_wf(self, year: int) -> bool {
        let i = self.month11_index(year);
        let j = self.month11_index(year + 1);
        let dec31 = jd_spec(31, 12, year);
        &&& self.start(i) <= dec31 < self.start(j)
        &&& (j - i == 12 || j - i == 13)
        &&& dec31 + 1 < self.start(i + 2)
        &&& nearest_lunation(self.start(i)) == i
        &&& self.in_table(i + 14)
        &&& (j - i == 13 ==> self.leap_offset(self.start(i)) <= 12)
        &&& self.term(i) < 9 <= self.term(i + 1)
    }

    /// Month 1 of lunar year `year + 1` starts before 1 March.
    pub open spec fn month1_early(self, year: int) -> bool {
        self.start(self.month1_index(year)) < jd_spec(1, 3, year + 1)
    }

    /// Lunation holding month 1 of lunar year `year + 1`: the third month from
    /// month 11 of `year`, or the fourth after a leap month 11 or 12.
    pub open spec fn month1_index(self, year: int) -> int {
        let i = self.month11_index(year);
        let j = self.month11_index(year + 1);
        if j - i == 13 && self.leap_offset(self.start(i)) <= 2 {
            i + 3
        } else {
            i + 2
        }
    }

    /// A table the conversions can run on, for every date of the supported range.
    #[verifier::opaque]
    pub open spec fn wf(self) -> bool {
        &&& self.bounded()
        &&& forall|k: int|
            self.in_table(k) && self.in_table(k + 1) ==> 29 <= #[trigger] self.gap(k) <= 30
        &&& forall|k: int| #[trigger]
            self.in_table(k) ==> k - 1 <= lunation_estimate(self.start(k)) <= k
        &&& self.in_table(lunation_estimate(FIRST_DAY as int) - 1)
        &&& self.in_table(lunation_estimate(LAST_DAY as int) + 2)
        &&& forall|y: int| MIN_YEAR - 1 <= y <= MAX_YEAR + 2 ==> #[trigger] self.month11_covered(y)
        &&& forall|y: int| MIN_YEAR - 1 <= y <= MAX_YEAR + 1 ==> #[trigger] self.year_wf(y)
        &&& forall|y: int| MIN_YEAR - 1 <= y <= MAX_YEAR ==> #[trigger] self.single_leap(y)
        &&& forall|y: int| MIN_YEAR - 1 <= y <= MAX_YEAR ==> #[trigger] self.month1_early(y)
    }

    /// Of two consecutive lunisolar years (from month 11 of `year` to month 11
    /// of `year + 2`), at most one has 13 months.
    pub open spec fn single_leap(self, year: int) -> bool {
        self.month11_index(year + 2) - self.month11_index(year) <= 25
    }
}


// ---------------------------------------------------------------------------
// Lemmas on the table
// ---------------------------------------------------------------------------

/// `lunation_estimate` and `nearest_lunation` never decrease.
pub proof fn lemma_estimates_monotone(a: int, b: int)
    requires
        a <= b,
    ensures
        lunation_estimate(a) <= lunation_estimate(b),
        nearest_lunation(a) <= nearest_lunation(b),
{
    vstd::arithmetic::div_mod::lemma_div_is_ordered(
        a * NANOS - EPOCH_NANOS,
        b * NANOS - EPOCH_NANOS,
        SYNODIC_NANOS as int,
    );
    vstd::arithmetic::div_mod::lemma_div_is_ordered(
        2 * a * NANOS - 2 * EPOCH_NANOS + SYNODIC_NANOS,
        2 * b * NANOS - 2 * EPOCH_NANOS + SYNODIC_NANOS,
        2 * SYNODIC_NANOS as int,
    );
}

/// The supported years have 31 December in range for the `i32` day-number computation.
pub proof fn lemma_dec31(year: int)
    requires
        MIN_YEAR - 1 <= year <= MAX_YEAR + 2,
    ensures
        jd_in_range(31, 12, year),
        FIRST_DAY - 1 <= jd_spec(31, 12, year) <= LAST_DAY + 731,
{
    lemma_jd_in_year(31, 12, year);
    lemma_jd_in_year(31, 12, MIN_YEAR - 1);
    lemma_jd_in_year(1, 1, MIN_YEAR as int);
    lemma_jd_in_year(31, 12, MAX_YEAR as int);
    lemma_dec31_monotone(MIN_YEAR - 1, year);
    lemma_dec31_monotone(year, MAX_YEAR + 2);
}

proof fn lemma_dec31_monotone(y1: int, y2: int)
    requires
        MIN_YEAR - 1 <= y1 <= y2 <= MAX_YEAR + 2,
    ensures
        jd_spec(31, 12, y1) + 365 * (y2 - y1) <= jd_spec(31, 12, y2) <= jd_spec(31, 12, y1) + 366
            * (y2 - y1),
    decreases y2 - y1,
{
    if y1 < y2 {
        lemma_dec31_monotone(y1, y2 - 1);
        lemma_jd_in_year(31, 12, y2);
        lemma_jd_in_year(1, 1, y2);
        let y = y2 + 4800;
        assert((y - 1) / 4 <= y / 4 <= (y - 1) / 4 + 1);
        assert((y - 1) / 100 <= y / 100 <= (y - 1) / 100 + 1);
        assert((y - 1) / 400 <= y / 400 <= (y - 1) / 400 + 1);
    }
}

/// Facts the supported range gets from a well-formed table.
pub proof fn lemma_wf_year(t: LunationTable, year: int)
    requires
        t.wf(),
        MIN_YEAR - 1 <= year <= MAX_YEAR + 1,
    ensures
        t.bounded(),
        t.month11_covered(year),
        t.month11_covered(year + 1),
        t.year_wf(year),
        forall|i: int|
            0 <= i <= 14 ==> #[trigger] t.in_table(t.month11_index(year) + i),
        nearest_lunation(t.month11_start(year)) == t.month11_index(year),
        jd_in_range(31, 12, year),
        jd_in_range(31, 12, year + 1),
{
    reveal(LunationTable::wf);
    assert(t.month11_covered(year));
    assert(t.month11_covered(year + 1));
    assert(t.year_wf(year));
    lemma_dec31(year);
    lemma_dec31(year + 1);
}

impl Lunations {
    fn start_at(&self, k: i64) -> (r: i32)
        requires
            self@.bounded(),
            self@.in_table(k as int),
        ensures
            r as int == self@.start(k as int),
    {
        self.starts[(k - self.first as i64) as usize]
    }

    fn term_at(&self, k: i64) -> (r: u8)
        requires
            self@.bounded(),
            self@.in_table(k as int),
        ensures
            r as int == self@.term(k as int),
    {
        self.terms[(k - self.first as i64) as usize]
    }

    fn month11_index(&self, year: i32) -> (k: i64)
        requires
            self@.bounded(),
            self@.month11_covered(year as int),
            jd_in_range(31, 12, year as int),
        ensures
            k as int == self@.month11_index(year as int),
    {
        let k = month11_estimate_exec(year);
        if self.term_at(k) >= 9 {
            k - 1
        } else {
            k
        }
    }

    fn month11_start(&self, year: i32) -> (r: i32)
        requires
            self@.bounded(),
            self@.month11_covered(year as int),
            jd_in_range(31, 12, year as int),
        ensures
            r as int == self@.month11_start(year as int),
    {
        let k = self.month11_index(year);
        self.start_at(k)
    }

    fn leap_offset(&self, a11: i32) -> (r: i64)
        requires
            self@.bounded(),
            forall|i: int| 1 <= i <= 14 ==> #[trigger] self@.in_table(nearest_lunation(a11 as int) + i),
        ensures
            r as int == self@.leap_offset(a11 as int),
            1 <= r <= 13,
    {
        proof {
            self@.lemma_leap_scan_range(nearest_lunation(a11 as int), 2);
        }
        let k = nearest_lunation_exec(a11);
        let mut i: i64 = 2;
        assert(self@.in_table(k + 1));
        let mut last = self.term_at(k + 1);
        loop
            invariant
                self@.bounded(),
                2 <= i <= 14,
                k as int == nearest_lunation(a11 as int),
                last as int == self@.term(k + i - 1),
                self@.leap_scan(k as int, i as int) == self@.leap_offset(a11 as int),
                forall|j: int| 1 <= j <= 14 ==> #[trigger] self@.in_table(k + j),
            decreases 14 - i,
        {
            assert(self@.in_table(k + i));
            let arc = self.term_at(k + i);
            if arc == last || i >= 14 {
                return i - 1;
            }
            last = arc;
            i = i + 1;
        }
    }
}

fn lunation_estimate_exec(dn: i32) -> (k: i64)
    ensures
        k as int == lunation_estimate(dn as int),
{
    floor_div(dn as i64 * NANOS - EPOCH_NANOS, SYNODIC_NANOS)
}

fn nearest_lunation_exec(dn: i32) -> (k: i64)
    ensures
        k as int == nearest_lunation(dn as int),
{
    floor_div(2 * (dn as i64) * NANOS - 2 * EPOCH_NANOS + SYNODIC_NANOS, 2 * SYNODIC_NANOS)
}

fn month11_estimate_exec(year: i32) -> (k: i64)
    requires
        jd_in_range(31, 12, year as int),
    ensures
        k as int == month11_estimate(year as int),
{
    let off = jd_from_date(31, 12, year) as i64 - 2415021;
    floor_div(off * NANOS, SYNODIC_NANOS)
}


/// Every supported date has a day number between `FIRST_DAY` and `LAST_DAY`.
pub proof fn lemma_day_in_range(day: int, month: int, year: int)
    requires
        is_valid_date(year, month, day),
        MIN_YEAR <= year <= MAX_YEAR,
    ensures
        FIRST_DAY <= jd_spec(day, month, year) <= LAST_DAY,
        jd_in_range(day, month, year),
{
    lemma_jd_in_year(day, month, year);
    lemma_jd_in_year(1, 1, year);
    lemma_jd_in_year(31, 12, MAX_YEAR as int);
    lemma_jd_in_year(1, 1, MIN_YEAR as int);
    lemma_dec31_monotone(year - 1, MAX_YEAR as int);
    lemma_dec31_monotone(MIN_YEAR - 1, year - 1);
}

/// The lunations read for the month of any supported day are in the table.
proof fn lemma_day_covered(t: LunationTable, dn: int)
    requires
        t.wf(),
        FIRST_DAY <= dn <= LAST_DAY,
    ensures
        t.in_table(lunation_estimate(dn) - 1),
        t.in_table(lunation_estimate(dn)),
        t.in_table(lunation_estimate(dn) + 1),
        t.in_table(lunation_estimate(dn) + 2),
        t.bounded(),
{
    reveal(LunationTable::wf);
    lemma_estimates_monotone(FIRST_DAY as int, dn);
    lemma_estimates_monotone(dn, LAST_DAY as int);
}

/// Leap month number (1..=12) of a lunar year, if any: the number of the month
/// of that lunar year that is repeated.
pub fn leap_month(lunar_year: i32, lunations: &Lunations) -> (r: Option<u8>)
    requires
        lunations@.wf(),
        MIN_YEAR <= lunar_year <= MAX_YEAR,
    ensures
        r == lunations@.leap_month_of(lunar_year as int),
        r matches Some(m) ==> 1 <= m <= 12,
{
    proof {
        lemma_wf_year(lunations@, lunar_year - 1);
        lemma_wf_year(lunations@, lunar_year as int);
        lemma_leap_month_range(lunations@, lunar_year as int);
    }
    let a11 = lunations.month11_start(lunar_year - 1);
    let b11 = lunations.month11_start(lunar_year);
    let c11 = lunations.month11_start(lunar_year + 1);
    if b11 as i64 - a11 as i64 > 365 {
        let lo = lunations.leap_offset(a11);
        if lo >= 3 {
            return Some((lo - 2) as u8);
        }
    }
    if c11 as i64 - b11 as i64 > 365 {
        let lo = lunations.leap_offset(b11);
        if lo <= 2 {
            return Some((lo + 10) as u8);
        }
    }
    None
}

/// A lunisolar year has 13 months exactly when its two months 11 are more than
/// 365 days apart, and then its leap month is among its first 13 months.
proof fn lemma_frame_length(t: LunationTable, y: int)
    requires
        t.wf(),
        MIN_YEAR - 1 <= y <= MAX_YEAR + 1,
    ensures
        (t.month11_start(y + 1) - t.month11_start(y) > 365) == (t.month11_index(y + 1) - t.month11_index(y) == 13),
        1 <= t.leap_offset(t.month11_start(y)) <= 13,
        t.month11_start(y + 1) - t.month11_start(y) > 365 ==> t.leap_offset(t.month11_start(y)) <= 12,
{
    lemma_wf_year(t, y);
    let i = t.month11_index(y);
    let j = t.month11_index(y + 1);
    assert(t.in_table(i + 0));
    assert(t.in_table(i + (j - i)));
    lemma_lunation_span(t, i, j - i);
    t.lemma_leap_scan_range(nearest_lunation(t.month11_start(y)), 2);
}

proof fn lemma_leap_month_range(t: LunationTable, y: int)
    requires
        t.wf(),
        MIN_YEAR <= y <= MAX_YEAR,
    ensures
        t.leap_month_of(y) matches Some(m) ==> 1 <= m <= 12,
{
    lemma_frame_length(t, y - 1);
    lemma_frame_length(t, y);
}

/// Convert a Gregorian date (Vietnam civil day) to a lunar date.
#[verifier::spinoff_prover]
#[verifier::rlimit(40)]
pub fn solar_to_lunar(year: i32, month: u8, day: u8, lunations: &Lunations) -> (r: Result<
    LunarDate,
    LunarError,
>)
    requires
        lunations@.wf(),
    ensures
        r == lunations@.solar_to_lunar_spec(year, month, day),
{
    reveal(LunationTable::solar_to_lunar_spec);
    reveal(LunationTable::lunar_of_day);
    match validate_solar_date(year, month, day) {
        Err(e) => {
            return Err(e);
        },
        Ok(_) => {},
    }
    let ghost t = lunations@;
    proof {
        lemma_day_in_range(day as int, month as int, year as int);
        lemma_wf_year(t, year - 1);
        lemma_wf_year(t, year as int);
    }
    let day_number = jd_from_date(day, month, year);
    proof {
        lemma_day_covered(t, day_number as int);
    }
    let month_start = lunations.month_start_for(day_number);
    let m11 = lunations.month11_start(year);
    let a11: i32;
    let b11: i32;
    let lunar_year: i64;
    if m11 >= month_start {
        a11 = lunations.month11_start(year - 1);
        b11 = m11;
        lunar_year = year as i64;
    } else {
        a11 = m11;
        b11 = lunations.month11_start(year + 1);
        lunar_year = year as i64 + 1;
    }
    let lunar_day = (day_number as i64 - month_start as i64 + 1) as u8;
    let diff = floor_div(month_start as i64 - a11 as i64, 29);
    let mut lunar_leap = false;
    let mut lunar_month = diff + 11;
    if b11 as i64 - a11 as i64 > 365 {
        let leap_diff = lunations.leap_offset(a11);
        if diff >= leap_diff {
            lunar_month = diff + 10;
            if diff == leap_diff {
                lunar_leap = true;
            }
        }
    }
    if lunar_month > 12 {
        lunar_month -= 12;
    }
    let mut lunar_year = lunar_year;
    if lunar_month >= 11 && diff < 4 {
        lunar_year -= 1;
    }
    Ok(lunar_date_parts(lunar_year as i32, lunar_month as u8, lunar_day, lunar_leap))
}

/// Convert a lunar date to Gregorian (Vietnam civil day). A day the month does
/// not have (day 30 of a 29-day month) is refused as an invalid lunar day.
pub fn lunar_to_solar(year: i32, month: u8, day: u8, leap: bool, lunations: &Lunations) -> (r:
    Result<SolarDate, LunarError>)
    requires
        lunations@.wf(),
    ensures
        r == lunations@.lunar_to_solar_spec(year, month, day, leap),
        r matches Ok(s) ==> MIN_YEAR <= s.year <= MAX_YEAR && 1 <= s.month <= 12 && 1 <= s.day
            <= 31,
{
    reveal(LunationTable::lunar_to_solar_spec);
    if year < MIN_YEAR || year > MAX_YEAR {
        return Err(LunarError::YearOutOfRange(year));
    }
    if !(1 <= month && month <= 12) {
        return Err(LunarError::InvalidLunarMonth(month));
    }
    if !(1 <= day && day <= 30) {
        return Err(LunarError::InvalidLunarDay(day));
    }
    let ghost t = lunations@;
    proof {
        lemma_wf_year(t, year - 1);
        lemma_wf_year(t, year as int);
    }
    let a11: i32;
    let b11: i32;
    if month < 11 {
        a11 = lunations.month11_start(year - 1);
        b11 = lunations.month11_start(year);
    } else {
        a11 = lunations.month11_start(year);
        b11 = lunations.month11_start(year + 1);
    }
    let off = match lunations.month_offset(a11, b11, month, leap) {
        Err(e) => {
            return Err(e);
        },
        Ok(off) => off,
    };
    proof {
        let y = if month < 11 { year - 1 } else { year as int };
        lemma_month11_bounds(t, y);
        lemma_lunation_span(t, t.month11_index(y), off as int);
    }
    lunations.solar_of_month_day(a11, off, day)
}


impl LunationTable {
    pub proof fn lemma_leap_scan_range(self, k: int, i: int)
        requires
            2 <= i <= 14,
        ensures
            i - 1 <= self.leap_scan(k, i) <= 13,
        decreases 14 - i,
    {
        if !(self.term(k + i) == self.term(k + i - 1) || i >= 14) {
            self.lemma_leap_scan_range(k, i + 1);
        }
    }
}


impl Lunations {
    /// Months from month 11 (starting at `a11`) to the requested month.
    fn month_offset(&self, a11: i32, b11: i32, month: u8, leap: bool) -> (r: Result<i64, LunarError>)
        requires
            self@.bounded(),
            1 <= month <= 12,
            forall|i: int| 1 <= i <= 14 ==> #[trigger] self@.in_table(nearest_lunation(a11 as int) + i),
        ensures
            match r {
                Ok(off) => self@.month_offset_of(a11 as int, b11 as int, month as int, leap) == Ok::<
                    int,
                    LunarError,
                >(off as int) && 0 <= off <= 13,
                Err(e) => self@.month_offset_of(a11 as int, b11 as int, month as int, leap) == Err::<
                    int,
                    LunarError,
                >(e),
            },
    {
        let mut off: i64 = month as i64 - 11;
        if off < 0 {
            off += 12;
        }
        if b11 as i64 - a11 as i64 > 365 {
            let leap_off = self.leap_offset(a11);
            let mut leap_month_n = leap_off - 2;
            if leap_month_n <= 0 {
                leap_month_n += 12;
            }
            if leap && month as i64 != leap_month_n {
                return Err(LunarError::LeapMonthError);
            }
            if leap || off >= leap_off {
                off += 1;
            }
        } else if leap {
            return Err(LunarError::LeapMonthError);
        }
        Ok(off)
    }
}


impl Lunations {
    fn solar_of_month_day(&self, a11: i32, off: i64, day: u8) -> (r: Result<SolarDate, LunarError>)
        requires
            self@.bounded(),
            0 <= off <= 13,
            1 <= day <= 30,
            forall|i: int| 0 <= i <= 14 ==> #[trigger] self@.in_table(nearest_lunation(a11 as int) + i),
            0 <= self@.start(nearest_lunation(a11 as int) + off) <= 3_000_000,
        ensures
            r == self@.solar_of_month_day(a11 as int, off as int, day as int),
            r matches Ok(s) ==> MIN_YEAR <= s.year <= MAX_YEAR && 1 <= s.month <= 12 && 1 <= s.day
                <= 31,
    {
        let k = nearest_lunation_exec(a11);
        assert(self@.in_table(k + off));
        assert(self@.in_table(k + (off + 1)));
        let month_start = self.start_at(k + off);
        let next_start = self.start_at(k + off + 1);
        if day as i64 > next_start as i64 - month_start as i64 {
            return Err(LunarError::InvalidLunarDay(day));
        }
        let solar = jd_to_date(month_start + day as i32 - 1);
        if solar.year < MIN_YEAR || solar.year > MAX_YEAR {
            return Err(LunarError::YearOutOfRange(solar.year));
        }
        Ok(solar)
    }
}


impl Lunations {
    fn month_start_for(&self, dn: i32) -> (r: i32)
        requires
            self@.bounded(),
            self@.in_table(lunation_estimate(dn as int) - 1),
            self@.in_table(lunation_estimate(dn as int)),
            self@.in_table(lunation_estimate(dn as int) + 1),
        ensures
            r as int == self@.month_start_of(dn as int),
    {
        let k = lunation_estimate_exec(dn);
        let next = self.start_at(k + 1);
        if next <= dn {
            return next;
        }
        let this = self.start_at(k);
        if this <= dn {
            this
        } else {
            self.start_at(k - 1)
        }
    }
}


/// Consecutive lunations last 29 or 30 days, so `n` of them last 29n to 30n days.
pub proof fn lemma_lunation_span(t: LunationTable, i: int, n: int)
    requires
        t.wf(),
        n >= 0,
        t.in_table(i),
        t.in_table(i + n),
    ensures
        29 * n <= t.start(i + n) - t.start(i) <= 30 * n,
    decreases n,
{
    if n > 0 {
        lemma_lunation_span(t, i, n - 1);
        reveal(LunationTable::wf);
        assert(t.in_table(i + n - 1));
        assert(29 <= t.gap(i + n - 1) <= 30);
    }
}

/// Month 11 of a supported year starts within the two months before 31 December.
pub proof fn lemma_month11_bounds(t: LunationTable, year: int)
    requires
        t.wf(),
        MIN_YEAR - 1 <= year <= MAX_YEAR + 1,
    ensures
        jd_spec(31, 12, year) - 60 < t.month11_start(year) <= jd_spec(31, 12, year),
        FIRST_DAY - 1 <= jd_spec(31, 12, year) <= LAST_DAY + 366,
{
    lemma_wf_year(t, year);
    let i = t.month11_index(year);
    lemma_lunation_span(t, i, 2);
    lemma_dec31(year);
    if year <= MAX_YEAR {
        lemma_dec31_monotone(year, MAX_YEAR as int);
        lemma_jd_in_year(31, 12, MAX_YEAR as int);
    } else {
        lemma_dec31_monotone(MAX_YEAR as int, year);
        lemma_jd_in_year(31, 12, MAX_YEAR as int);
    }
}


// ---------------------------------------------------------------------------
// Solar → lunar → solar
// ---------------------------------------------------------------------------

/// Labelling a month by its distance from month 11 and reading the label back
/// gives the same distance, except for the month 11 that ends the year, which
/// is read as month 11 of the next year.
proof fn lemma_label_round_trip(n: int, nb: int, lo: int)
    requires
        0 <= n <= nb,
        nb == 12 || nb == 13,
        1 <= lo <= 13,
        nb == 13 ==> lo <= 12,
    ensures
        ({
            let (m, leap) = month_label(n, nb == 13, lo);
            &&& 1 <= m <= 12
            &&& if m >= 11 && n >= 4 {
                n == nb && m == 11 && !leap
            } else {
                month_offset_from_label(m, leap, nb == 13, lo) == Ok::<int, LunarError>(n)
            }
        }),
{
}

/// Lunation starts increase with the index.
proof fn lemma_start_increasing(t: LunationTable, i: int, j: int)
    requires
        t.wf(),
        i < j,
        t.in_table(i),
        t.in_table(j),
    ensures
        t.start(i) < t.start(j),
{
    lemma_lunation_span(t, i, j - i);
}

/// The lunation holding a supported day `dn` is the one whose start the
/// conversion picks as the start of its month.
proof fn lemma_month_of_day(t: LunationTable, dn: int) -> (c: int)
    requires
        t.wf(),
        FIRST_DAY <= dn <= LAST_DAY,
    ensures
        t.in_table(c),
        t.in_table(c + 1),
        t.start(c) == t.month_start_of(dn),
        t.start(c) <= dn < t.start(c + 1),
{
    lemma_day_covered(t, dn);
    let e = lunation_estimate(dn);
    if t.start(e + 1) <= dn {
        if t.start(e + 2) <= dn {
            reveal(LunationTable::wf);
            assert(lunation_estimate(t.start(e + 2)) >= e + 1);
            lemma_estimates_monotone(t.start(e + 2), dn);
        }
        e + 1
    } else if t.start(e) <= dn {
        e
    } else {
        reveal(LunationTable::wf);
        assert(lunation_estimate(t.start(e - 1)) <= e - 1);
        if t.start(e - 1) > dn {
            lemma_estimates_monotone(dn, t.start(e - 1));
        }
        assert(t.in_table(e - 1) && t.in_table(e));
        assert(29 <= t.gap(e - 1));
        e - 1
    }
}

/// Every supported day lies in the month the conversion picks for it.
pub proof fn lemma_month_start_not_after(t: LunationTable, dn: int)
    requires
        t.wf(),
        FIRST_DAY <= dn <= LAST_DAY,
    ensures
        t.month_start_of(dn) <= dn < t.month_start_of(dn) + 30,
{
    let c = lemma_month_of_day(t, dn);
    lemma_lunation_span(t, c, 1);
}


/// Where the month of day `dn` (lunation `c`) sits in the lunisolar year
/// around it: `ka` is the month 11 that the conversion counts from and `kb`
/// the next month 11.
proof fn lemma_year_frame(t: LunationTable, y: int, dn: int, c: int) -> (r: (int, int))
    requires
        t.wf(),
        MIN_YEAR <= y <= MAX_YEAR,
        jd_spec(31, 12, y - 1) < dn <= jd_spec(31, 12, y),
        t.in_table(c),
        t.in_table(c + 1),
        t.start(c) <= dn < t.start(c + 1),
    ensures
        ({
            let (ka, kb) = r;
            let case1 = t.month11_start(y) >= t.start(c);
            &&& ka == (if case1 { t.month11_index(y - 1) } else { t.month11_index(y) })
            &&& kb == (if case1 { t.month11_index(y) } else { t.month11_index(y + 1) })
            &&& ka <= c <= kb
            &&& (kb - ka == 12 || kb - ka == 13)
            &&& (!case1 ==> c == ka + 1)
            &&& t.in_table(ka) && t.in_table(kb)
            &&& forall|i: int| 0 <= i <= 14 ==> #[trigger] t.in_table(ka + i)
            &&& nearest_lunation(t.start(ka)) == ka
            &&& nearest_lunation(t.start(kb)) == kb
            &&& (kb - ka == 13 ==> t.leap_offset(t.start(ka)) <= 12)
            &&& 29 * (c - ka) <= t.start(c) - t.start(ka) <= 30 * (c - ka)
            &&& 29 * (kb - ka) <= t.start(kb) - t.start(ka) <= 30 * (kb - ka)
        }),
{
    lemma_wf_year(t, y - 1);
    lemma_wf_year(t, y);
    lemma_wf_year(t, y + 1);
    let ms = t.start(c);
    let i0 = t.month11_index(y - 1);
    let iy = t.month11_index(y);
    let i2 = t.month11_index(y + 1);
    let case1 = t.start(iy) >= ms;
    let ka = if case1 {
        i0
    } else {
        iy
    };
    let kb = if case1 {
        iy
    } else {
        i2
    };
    if case1 {
        if i0 > c {
            lemma_start_increasing(t, c + 1, i0);
        }
        if c > iy {
            lemma_start_increasing(t, iy, c);
        }
    } else {
        if c < iy {
            lemma_start_increasing(t, c, iy);
        }
        if c >= iy + 2 {
            lemma_start_increasing(t, iy + 2, c);
        }
        if c >= i2 {
            lemma_start_increasing(t, c, i2);
        }
    }
    lemma_lunation_span(t, ka, c - ka);
    lemma_lunation_span(t, ka, kb - ka);
    (ka, kb)
}


/// The lunar date of day `dn`, in terms of where its month sits in the year.
proof fn lemma_lunar_of_day_value(t: LunationTable, y: int, dn: int, c: int, ka: int, kb: int)
    requires
        t.month_start_of(dn) == t.start(c),
        ka == (if t.month11_start(y) >= t.start(c) { t.month11_index(y - 1) } else { t.month11_index(y) }),
        kb == (if t.month11_start(y) >= t.start(c) { t.month11_index(y) } else { t.month11_index(y + 1) }),
    ensures
        ({
            let case1 = t.month11_start(y) >= t.start(c);
            let n = (t.start(c) - t.start(ka)) / 29;
            let (m1, leap) = month_label(
                n,
                t.start(kb) - t.start(ka) > 365,
                t.leap_offset(t.start(ka)),
            );
            let ly = if case1 { y } else { y + 1 };
            let ly1 = if m1 >= 11 && n < 4 { ly - 1 } else { ly };
            t.lunar_of_day(y, dn) == lunar_date(ly1 as i32, m1 as u8, (dn - t.start(c) + 1) as u8, leap)
        }),
{
    reveal(LunationTable::lunar_of_day);
}

/// `lunar_to_solar_spec` on an in-range lunar date whose month offset is known.
proof fn lemma_lunar_to_solar_value(
    t: LunationTable,
    ly: i32,
    m: u8,
    d: u8,
    leap: bool,
    off: int,
    s: SolarDate,
)
    requires
        MIN_YEAR <= ly <= MAX_YEAR,
        1 <= m <= 12,
        1 <= d <= 30,
        ({
            let a11 = if m < 11 { t.month11_start(ly - 1) } else { t.month11_start(ly as int) };
            let b11 = if m < 11 { t.month11_start(ly as int) } else { t.month11_start(ly + 1) };
            &&& t.month_offset_of(a11, b11, m as int, leap) == Ok::<int, LunarError>(off)
            &&& t.solar_of_month_day(a11, off, d as int) == Ok::<SolarDate, LunarError>(s)
        }),
    ensures
        t.lunar_to_solar_spec(ly, m, d, leap) == Ok::<SolarDate, LunarError>(s),
{
    reveal(LunationTable::lunar_to_solar_spec);
}

/// Converting a supported Gregorian date to a lunar date and back gives the
/// same date, whenever the lunar year is in the supported range (it is not for
/// the days of January 1900 before Tết, in lunar year 1899).
#[verifier::spinoff_prover]
#[verifier::rlimit(100)]
pub proof fn lemma_solar_lunar_round_trip(t: LunationTable, year: i32, month: u8, day: u8)
    requires
        t.wf(),
        solar_date_check(year, month, day) == Ok::<(), LunarError>(()),
        t.lunar_of_day(year as int, jd_spec(day as int, month as int, year as int)).year
            >= MIN_YEAR,
    ensures
        ({
            let l = t.lunar_of_day(year as int, jd_spec(day as int, month as int, year as int));
            &&& t.solar_to_lunar_spec(year, month, day) == Ok::<LunarDate, LunarError>(l)
            &&& t.lunar_to_solar_spec(l.year, l.month, l.day, l.leap) == Ok::<
                SolarDate,
                LunarError,
            >(SolarDate { year, month, day })
        }),
{
    let y = year as int;
    let dn = jd_spec(day as int, month as int, y);
    let date = SolarDate { year, month, day };
    lemma_day_in_range(day as int, month as int, y);
    lemma_jd_in_year(day as int, month as int, y);
    lemma_wf_year(t, y - 1);
    lemma_wf_year(t, y);
    let c = lemma_month_of_day(t, dn);
    let ms = t.start(c);
    let (ka, kb) = lemma_year_frame(t, y, dn, c);
    let case1 = t.month11_start(y) >= ms;
    let n = c - ka;
    let nb = kb - ka;
    let a11 = t.start(ka);
    let b11 = t.start(kb);
    lemma_lunation_span(t, c, 1);
    assert((ms - a11) / 29 == n);
    assert((b11 - a11 > 365) == (nb == 13));
    let lo = t.leap_offset(a11);
    t.lemma_leap_scan_range(nearest_lunation(a11), 2);
    let (m1, leap) = month_label(n, nb == 13, lo);
    let ly = if case1 { y } else { y + 1 };
    let ly1 = if m1 >= 11 && n < 4 { ly - 1 } else { ly };
    let lday = dn - ms + 1;
    lemma_lunar_of_day_value(t, y, dn, c, ka, kb);
    let l = t.lunar_of_day(y, dn);
    assert(l == lunar_date(ly1 as i32, m1 as u8, lday as u8, leap));
    lemma_label_round_trip(n, nb, lo);
    assert(MIN_YEAR <= ly1 <= MAX_YEAR);
    lemma_jd_round_trip(day as int, month as int, y);
    assert(date_of_jd(dn) == date);
    if m1 >= 11 && n >= 4 {
        let lo2 = t.leap_offset(b11);
        t.lemma_leap_scan_range(nearest_lunation(b11), 2);
        assert(t.month_offset_of(b11, t.month11_start(y + 1), 11, false) == Ok::<int, LunarError>(0));
        assert(t.solar_of_month_day(b11, 0, lday) == Ok::<SolarDate, LunarError>(date));
        lemma_lunar_to_solar_value(t, ly1 as i32, m1 as u8, lday as u8, leap, 0, date);
    } else {
        assert(t.month_offset_of(a11, b11, m1, leap) == Ok::<int, LunarError>(n));
        assert(t.solar_of_month_day(a11, n, lday) == Ok::<SolarDate, LunarError>(date));
        lemma_lunar_to_solar_value(t, ly1 as i32, m1 as u8, lday as u8, leap, n, date);
    }
    assert(t.lunar_to_solar_spec(l.year, l.month, l.day, l.leap) == Ok::<SolarDate, LunarError>(date));
    reveal(LunationTable::solar_to_lunar_spec);
}

impl Lunations {
    /// Checks a table of lunations for the supported range. Lunation
    /// `first + i` starts on day `starts[i]`, and `terms[i]` is the major solar
    /// term (0 = Xuân Phân, 9 = Đông Chí) in force on that day. The table is
    /// taken exactly when it is well formed.
    pub fn new(first: i32, starts: Vec<i32>, terms: Vec<u8>) -> (r: Option<Lunations>)
        ensures
            r is Some <==> (LunationTable { first: first as int, starts: starts@, terms: terms@ }).wf(),
            r matches Some(l) ==> l@ == (LunationTable {
                first: first as int,
                starts: starts@,
                terms: terms@,
            }),
    {
        let l = Lunations { first, starts, terms };
        if l.check() {
            Some(l)
        } else {
            None
        }
    }

    fn check(&self) -> (ok: bool)
        ensures
            ok == self@.wf(),
    {
        reveal(LunationTable::wf);
        let ghost t = self@;
        let n = self.starts.len();
        if self.terms.len() < n {
            // the table is read only as far as both sequences go
            return self.check_len(self.terms.len());
        }
        self.check_len(n)
    }

    fn check_len(&self, n: usize) -> (ok: bool)
        requires
            n as int == if self@.starts.len() <= self@.terms.len() {
                self@.starts.len()
            } else {
                self@.terms.len()
            },
        ensures
            ok == self@.wf(),
    {
        reveal(LunationTable::wf);
        let ghost t = self@;
        assert(forall|k: int| t.in_table(k) <==> t.first <= k < t.first + n);
        if self.first < i32::MIN + 2 || self.starts.len() as u64 > (i32::MAX as i64 - self.first as i64) as u64
            || self.terms.len() as u64 > (i32::MAX as i64 - self.first as i64) as u64 {
            return false;
        }
        assert(t.bounded());
        // consecutive lunations last 29 or 30 days
        let mut i: usize = 1;
        while i < n
            invariant
                t == self@,
                t.bounded(),
                forall|k: int| t.in_table(k) <==> t.first <= k < t.first + n,
                n <= t.starts.len(),
                1 <= i,
                forall|k: int|
                    t.first <= k && k + 1 < t.first + i && k + 1 < t.first + n ==> 29 <= #[trigger] t.gap(k) <= 30,
            decreases n - i,
        {
            let gap = self.starts[i] as i64 - self.starts[i - 1] as i64;
            if gap < 29 || gap > 30 {
                assert(t.in_table(t.first + i - 1) && t.in_table(t.first + i));
                assert(t.gap(t.first + i - 1) == gap);
                reveal(LunationTable::wf);
                return false;
            }
            i += 1;
        }
        assert(forall|k: int| t.in_table(k) && t.in_table(k + 1) ==> 29 <= #[trigger] t.gap(k) <= 30);
        // the mean-lunation estimate of a new moon is at most one lunation behind
        let mut i: usize = 0;
        while i < n
            invariant
                t == self@,
                t.bounded(),
                forall|k: int| t.in_table(k) <==> t.first <= k < t.first + n,
                n <= t.starts.len(),
                forall|k: int|
                    t.first <= k < t.first + i ==> k - 1 <= lunation_estimate(#[trigger] t.start(k)) <= k,
            decreases n - i,
        {
            let k = self.first as i64 + i as i64;
            let est = lunation_estimate_exec(self.starts[i]);
            if est < k - 1 || est > k {
                assert(t.in_table(k as int));
                assert(t.start(k as int) == self.starts[i as int]);
                reveal(LunationTable::wf);
                return false;
            }
            i += 1;
        }
        assert(forall|k: int| #[trigger] t.in_table(k) ==> k - 1 <= lunation_estimate(t.start(k)) <= k);
        let lo = self.first as i64;
        let hi = self.first as i64 + n as i64;
        let e1 = lunation_estimate_exec(FIRST_DAY);
        let e2 = lunation_estimate_exec(LAST_DAY);
        if !(lo <= e1 - 1 && e1 < hi && lo <= e2 + 2 && e2 + 2 < hi) {
            return false;
        }
        // month 11 of every year around the supported range can be found
        let mut y: i32 = MIN_YEAR - 1;
        while y <= MAX_YEAR + 2
            invariant
                t == self@,
                t.bounded(),
                forall|k: int| t.in_table(k) <==> t.first <= k < t.first + n,
                lo == t.first,
                hi == t.first + n,
                MIN_YEAR - 1 <= y <= MAX_YEAR + 3,
                forall|z: int| MIN_YEAR - 1 <= z < y ==> #[trigger] t.month11_covered(z),
            decreases MAX_YEAR + 3 - y,
        {
            proof {
                lemma_dec31(y as int);
            }
            let k = month11_estimate_exec(y);
            if !(lo <= k - 1 && k < hi) {
                assert(!t.month11_covered(y as int));
                reveal(LunationTable::wf);
                return false;
            }
            y += 1;
        }
        // the shape of every lunisolar year around the supported range
        let mut y: i32 = MIN_YEAR - 1;
        while y <= MAX_YEAR + 1
            invariant
                t == self@,
                t.bounded(),
                forall|k: int| t.in_table(k) <==> t.first <= k < t.first + n,
                lo == t.first,
                hi == t.first + n,
                MIN_YEAR - 1 <= y <= MAX_YEAR + 2,
                forall|z: int| MIN_YEAR - 1 <= z <= MAX_YEAR + 2 ==> #[trigger] t.month11_covered(z),
                forall|z: int| MIN_YEAR - 1 <= z < y ==> #[trigger] t.year_wf(z),
            decreases MAX_YEAR + 2 - y,
        {
            if !self.check_year(y) {
                assert(!t.year_wf(y as int));
                reveal(LunationTable::wf);
                return false;
            }
            y += 1;
        }
        // no two lunisolar years in a row have 13 months
        let mut y: i32 = MIN_YEAR - 1;
        while y <= MAX_YEAR
            invariant
                t == self@,
                t.bounded(),
                MIN_YEAR - 1 <= y <= MAX_YEAR + 1,
                forall|z: int| MIN_YEAR - 1 <= z <= MAX_YEAR + 2 ==> #[trigger] t.month11_covered(z),
                forall|z: int| MIN_YEAR - 1 <= z <= MAX_YEAR + 1 ==> #[trigger] t.year_wf(z),
                forall|z: int| MIN_YEAR - 1 <= z < y ==> #[trigger] t.single_leap(z),
            decreases MAX_YEAR + 1 - y,
        {
            proof {
                lemma_dec31(y as int);
                lemma_dec31(y + 2);
            }
            let i = self.month11_index(y);
            let j = self.month11_index(y + 2);
            if j - i > 25 {
                assert(!t.single_leap(y as int));
                reveal(LunationTable::wf);
                return false;
            }
            y += 1;
        }
        // month 1 of every lunar year starts before 1 March
        let mut y: i32 = MIN_YEAR - 1;
        while y <= MAX_YEAR
            invariant
                t == self@,
                t.bounded(),
                MIN_YEAR - 1 <= y <= MAX_YEAR + 1,
                forall|z: int| MIN_YEAR - 1 <= z <= MAX_YEAR + 2 ==> #[trigger] t.month11_covered(z),
                forall|z: int| MIN_YEAR - 1 <= z <= MAX_YEAR + 1 ==> #[trigger] t.year_wf(z),
                forall|z: int| MIN_YEAR - 1 <= z <= MAX_YEAR ==> #[trigger] t.single_leap(z),
                forall|z: int| MIN_YEAR - 1 <= z < y ==> #[trigger] t.month1_early(z),
            decreases MAX_YEAR + 1 - y,
        {
            proof {
                lemma_dec31(y as int);
                lemma_dec31(y + 1);
                crate::gregorian::lemma_jd_in_range_small(1, 3, y + 1);
                assert(t.year_wf(y as int));
                let i0 = t.month11_index(y as int);
                assert(t.month11_covered(y as int));
                assert(t.in_table(i0) && t.in_table(i0 + 14));
                assert(forall|q: int| 1 <= q <= 14 ==> #[trigger] t.in_table(nearest_lunation(t.start(i0)) + q));
                assert(t.in_table(i0 + 2) && t.in_table(i0 + 3));
            }
            let i = self.month11_index(y);
            let j = self.month11_index(y + 1);
            let a11 = self.start_at(i);
            let m1 = if j - i == 13 && self.leap_offset(a11) <= 2 {
                i + 3
            } else {
                i + 2
            };
            if !(self.start_at(m1) < jd_from_date(1, 3, y + 1)) {
                assert(!t.month1_early(y as int));
                reveal(LunationTable::wf);
                return false;
            }
            y += 1;
        }
        true
    }

    fn check_year(&self, y: i32) -> (ok: bool)
        requires
            self@.bounded(),
            MIN_YEAR - 1 <= y <= MAX_YEAR + 1,
            self@.month11_covered(y as int),
            self@.month11_covered(y + 1),
        ensures
            ok == self@.year_wf(y as int),
    {
        let ghost t = self@;
        proof {
            lemma_dec31(y as int);
            lemma_dec31(y + 1);
        }
        let i = self.month11_index(y);
        let j = self.month11_index(y + 1);
        let dec31 = jd_from_date(31, 12, y);
        let lo = self.first as i64;
        if !(i + 14 < lo + self.starts.len() as i64 && i + 14 < lo + self.terms.len() as i64) {
            return false;
        }
        let a11 = self.start_at(i);
        let b11 = self.start_at(j);
        if !(a11 <= dec31 && dec31 < b11) {
            return false;
        }
        if !(j - i == 12 || j - i == 13) {
            return false;
        }
        if !((dec31 as i64) + 1 < self.start_at(i + 2) as i64) {
            return false;
        }
        if nearest_lunation_exec(a11) != i {
            return false;
        }
        if j - i == 13 && self.leap_offset(a11) > 12 {
            return false;
        }
        if !(self.term_at(i) < 9 && 9 <= self.term_at(i + 1)) {
            return false;
        }
        true
    }
}


/// Two lunisolar years in a row never both have 13 months.
proof fn lemma_single_leap(t: LunationTable, y: int)
    requires
        t.wf(),
        MIN_YEAR - 1 <= y <= MAX_YEAR,
    ensures
        !(t.month11_start(y + 1) - t.month11_start(y) > 365 && t.month11_start(y + 2) - t.month11_start(
            y + 1,
        ) > 365),
{
    reveal(LunationTable::wf);
    assert(t.single_leap(y));
    lemma_frame_length(t, y);
    lemma_frame_length(t, y + 1);
}

/// A request for a leap month is accepted by `lunar_to_solar` exactly
/// when that month is the leap month of the lunar year; otherwise it is
/// refused with `LeapMonthError`. The same month not leap is always accepted.
#[verifier::spinoff_prover]
#[verifier::rlimit(40)]
pub proof fn lemma_leap_request_accepted(t: LunationTable, year: i32, month: u8, day: u8)
    requires
        t.wf(),
        MIN_YEAR <= year <= MAX_YEAR,
        1 <= month <= 12,
        1 <= day <= 29,
        month >= 11 ==> year < MAX_YEAR,
    ensures
        t.lunar_to_solar_spec(year, month, day, true) is Ok <==> t.leap_month_of(year as int) == Some(month),
        !(t.lunar_to_solar_spec(year, month, day, true) is Ok) ==> t.lunar_to_solar_spec(year, month, day, true)
            == Err::<SolarDate, LunarError>(LunarError::LeapMonthError),
        t.lunar_to_solar_spec(year, month, day, false) is Ok,
{
    assert(t.lunar_to_solar_spec(year, month, day, false) is Ok) by {
        let _ = lemma_lunar_to_solar_ok(t, year, month, day, false);
    }
    let y = year as int;
    let y0 = if month < 11 { y - 1 } else { y };
    lemma_frame_length(t, y - 1);
    lemma_frame_length(t, y);
    lemma_single_leap(t, y - 1);
    if t.month_offset_of(t.month11_start(y0), t.month11_start(y0 + 1), month as int, true) is Ok {
        let _ = lemma_lunar_to_solar_ok(t, year, month, day, true);
    } else {
        reveal(LunationTable::lunar_to_solar_spec);
    }
}

/// A day that `solar_to_lunar` places in a leap month lies in the leap month
/// that `leap_month` gives for its lunar year.
pub proof fn lemma_leap_day_in_leap_month(t: LunationTable, year: i32, month: u8, day: u8)
    requires
        t.wf(),
    ensures
        t.solar_to_lunar_spec(year, month, day) matches Ok(l) ==> (l.leap && MIN_YEAR <= l.year
            ==> t.leap_month_of(l.year as int) == Some(l.month)),
{
    reveal(LunationTable::solar_to_lunar_spec);
    reveal(LunationTable::lunar_of_day);
    if solar_date_check(year, month, day) is Ok {
        let y = year as int;
        let dn = jd_spec(day as int, month as int, y);
        let l = t.lunar_of_day(y, dn);
        if l.leap && MIN_YEAR <= l.year {
            let ms = t.month_start_of(dn);
            let case1 = t.month11_start(y) >= ms;
            let ly = if case1 { y } else { y + 1 };
            let a11 = t.month11_start(ly - 1);
            let b11 = t.month11_start(ly);
            lemma_frame_length(t, ly - 1);
            let lo = t.leap_offset(a11);
            let diff = (ms - a11) / 29;
            assert(b11 - a11 > 365 && diff == lo);
            if lo <= 2 {
                lemma_single_leap(t, ly - 2);
                lemma_frame_length(t, ly - 2);
            }
        }
    }
}

/// Every leap month that `leap_month` gives has days: its first day
/// converts to that leap month of the lunar year and back.
#[verifier::spinoff_prover]
#[verifier::rlimit(50)]
pub proof fn lemma_leap_month_has_days(t: LunationTable, year: i32)
    requires
        t.wf(),
        MIN_YEAR <= year <= MAX_YEAR,
        t.leap_month_of(year as int) matches Some(m) && (m >= 11 ==> year < MAX_YEAR),
    ensures
        ({
            let m = t.leap_month_of(year as int)->0;
            let s = t.lunar_to_solar_spec(year, m, 1, true)->Ok_0;
            &&& t.lunar_to_solar_spec(year, m, 1, true) is Ok
            &&& t.solar_to_lunar_spec(s.year, s.month, s.day) == Ok::<LunarDate, LunarError>(
                lunar_date(year, m, 1, true),
            )
        }),
{
    let m = t.leap_month_of(year as int)->0;
    lemma_leap_month_range(t, year as int);
    lemma_leap_request_accepted(t, year, m, 1);
    let y0 = if m < 11 { year - 1 } else { year as int };
    assert(t.month_offset_of(t.month11_start(y0), t.month11_start(y0 + 1), m as int, true) is Ok) by {
        reveal(LunationTable::lunar_to_solar_spec);
    }
    let (ka, off) = lemma_lunar_to_solar_ok(t, year, m, 1, true);
    let c = ka + off;
    let dn = t.start(c);
    assert(t.requested_lunation(year as int, m as int, true) == c) by {
        lemma_wf_year(t, if m < 11 { year - 1 } else { year as int });
    }
    assert(29 <= t.gap(c) && t.month_start_of(dn) == dn) by {
        reveal(LunationTable::wf);
        assert(t.in_table(c) && t.in_table(c + 1));
        assert(c - 1 <= lunation_estimate(dn) <= c);
    }
    lemma_lunar_solar_round_trip(t, year, m, 1, true);
}

impl LunationTable {
    /// The leap month is the first month after month 11 in which no major solar
    /// term begins: the term in force at its start is still in force at the start
    /// of the next month, and every month before it, from month 12 on, has a
    /// major term of its own. (Position 13 is also given when none is found.)
    pub proof fn lemma_leap_month_has_no_major_term(self, a11: int)
        ensures
            ({
                let k = nearest_lunation(a11);
                let lo = self.leap_offset(a11);
                &&& 1 <= lo <= 13
                &&& lo <= 12 ==> self.term(k + lo + 1) == self.term(k + lo)
                &&& forall|j: int| 1 <= j < lo ==> #[trigger] self.term(k + j + 1) != self.term(k + j)
            }),
    {
        self.lemma_leap_scan_range(nearest_lunation(a11), 2);
        self.lemma_leap_scan_terms(nearest_lunation(a11), 2);
    }

    proof fn lemma_leap_scan_terms(self, k: int, i: int)
        requires
            2 <= i <= 14,
            forall|j: int| 1 <= j < i - 1 ==> #[trigger] self.term(k + j + 1) != self.term(k + j),
        ensures
            ({
                let r = self.leap_scan(k, i);
                &&& r <= 12 ==> self.term(k + r + 1) == self.term(k + r)
                &&& forall|j: int| 1 <= j < r ==> #[trigger] self.term(k + j + 1) != self.term(k + j)
            }),
        decreases 14 - i,
    {
        if !(self.term(k + i) == self.term(k + i - 1) || i >= 14) {
            assert forall|j: int| 1 <= j < i implies #[trigger] self.term(k + j + 1) != self.term(k + j) by {
                if j == i - 1 {
                    assert(k + j + 1 == k + i);
                }
            }
            self.lemma_leap_scan_terms(k, i + 1);
        } else {
            assert(self.term(k + (i - 1) + 1) == self.term(k + i));
        }
    }
}


// ---------------------------------------------------------------------------
// Lunar → solar → lunar
// ---------------------------------------------------------------------------

impl LunationTable {
    /// The lunation `lunar_to_solar` reads for a lunar month (month 11 of the
    /// year it counts from, if the month is not in the table).
    pub open spec fn requested_lunation(self, year: int, month: int, leap: bool) -> int {
        let a11 = if month < 11 {
            self.month11_start(year - 1)
        } else {
            self.month11_start(year)
        };
        let b11 = if month < 11 {
            self.month11_start(year)
        } else {
            self.month11_start(year + 1)
        };
        match self.month_offset_of(a11, b11, month, leap) {
            Ok(off) => nearest_lunation(a11) + off,
            Err(_) => nearest_lunation(a11),
        }
    }
}

/// Reading a month label as a distance from month 11 and labelling that
/// distance gives the label back.
proof fn lemma_offset_label(m: int, leap: bool, nb: int, lo: int)
    requires
        1 <= m <= 12,
        nb == 12 || nb == 13,
        1 <= lo <= 13,
        nb == 13 ==> lo <= 12,
        month_offset_from_label(m, leap, nb == 13, lo) is Ok,
    ensures
        ({
            let off = month_offset_from_label(m, leap, nb == 13, lo)->Ok_0;
            &&& 0 <= off < nb
            &&& month_label(off, nb == 13, lo) == (m, leap)
            &&& m >= 11 ==> off <= 2
            &&& m < 11 ==> off >= 2
        }),
{
}

/// Where `lunar_to_solar` finds an answered lunar date: `off` months after the
/// month 11 at lunation `ka` that the month is counted from (`kb` is the next
/// month 11), on day number `dn`.
proof fn lemma_requested_day(t: LunationTable, year: i32, month: u8, day: u8, leap: bool) -> (r: (
    int,
    int,
    int,
))
    requires
        t.wf(),
        t.lunar_to_solar_spec(year, month, day, leap) is Ok,
    ensures
        ({
            let (ka, kb, off) = r;
            let y0 = if month < 11 { year - 1 } else { year as int };
            let s = t.lunar_to_solar_spec(year, month, day, leap)->Ok_0;
            let c = ka + off;
            let dn = t.start(c) + day - 1;
            &&& MIN_YEAR <= year <= MAX_YEAR
            &&& 1 <= month <= 12
            &&& 1 <= day <= 30
            &&& ka == t.month11_index(y0)
            &&& kb == t.month11_index(y0 + 1)
            &&& (kb - ka == 12 || kb - ka == 13)
            &&& 0 <= off < kb - ka
            &&& forall|i: int| 0 <= i <= 14 ==> #[trigger] t.in_table(ka + i)
            &&& month_label(off, kb - ka == 13, t.leap_offset(t.start(ka))) == (month as int, leap)
            &&& (month >= 11 ==> off <= 2)
            &&& (month < 11 ==> off >= 2)
            &&& t.requested_lunation(year as int, month as int, leap) == c
            &&& 29 * off <= t.start(c) - t.start(ka) <= 30 * off
            &&& t.start(ka) <= jd_spec(31, 12, y0) < t.start(kb)
            &&& jd_spec(31, 12, y0) + 1 < t.start(ka + 2)
            &&& t.start(kb) <= jd_spec(31, 12, y0 + 1)
            &&& jd_spec(31, 12, y0) - 60 < t.start(ka)
            &&& s == date_of_jd(dn)
            &&& day <= t.gap(c)
            &&& MIN_YEAR <= s.year <= MAX_YEAR
            &&& jd_spec(s.day as int, s.month as int, s.year as int) == dn
            &&& is_valid_date(s.year as int, s.month as int, s.day as int)
        }),
{
    reveal(LunationTable::lunar_to_solar_spec);
    let y = year as int;
    let m = month as int;
    let y0 = if m < 11 { y - 1 } else { y };
    lemma_wf_year(t, y0);
    lemma_wf_year(t, y0 + 1);
    lemma_month11_bounds(t, y0);
    let ka = t.month11_index(y0);
    let kb = t.month11_index(y0 + 1);
    let a11 = t.start(ka);
    let nb = kb - ka;
    let lo = t.leap_offset(a11);
    t.lemma_leap_scan_range(nearest_lunation(a11), 2);
    lemma_lunation_span(t, ka, nb);
    assert((t.start(kb) - a11 > 365) == (nb == 13));
    assert(t.month_offset_of(a11, t.start(kb), m, leap) == month_offset_from_label(m, leap, nb == 13, lo));
    lemma_offset_label(m, leap, nb, lo);
    let off = month_offset_from_label(m, leap, nb == 13, lo)->Ok_0;
    let c = ka + off;
    lemma_lunation_span(t, ka, off);
    let dn = t.start(c) + day - 1;
    lemma_dec31(y0);
    lemma_jd_of_date(dn);
    (ka, kb, off)
}

/// Where the day of an answered lunar date falls against 31 December of the
/// Gregorian year `y0` before its month 11: in the following year for months
/// 1 to 10, within two months before or three after it for months 11 and 12.
proof fn lemma_requested_dec31(t: LunationTable, before_11: bool, y0: int, dn: int, ka: int, kb: int, off: int)
    requires
        t.wf(),
        (kb - ka == 12 || kb - ka == 13),
        0 <= off < kb - ka,
        forall|i: int| 0 <= i <= 14 ==> #[trigger] t.in_table(ka + i),
        !before_11 ==> off <= 2,
        before_11 ==> off >= 2,
        t.start(ka + off) <= dn <= t.start(ka + off + 1),
        t.start(ka) <= jd_spec(31, 12, y0) < t.start(kb),
        jd_spec(31, 12, y0) < t.start(ka + 2),
        t.start(kb) <= jd_spec(31, 12, y0 + 1),
        jd_spec(31, 12, y0) - 60 < t.start(ka),
    ensures
        before_11 ==> jd_spec(31, 12, y0) < dn <= jd_spec(31, 12, y0 + 1),
        !before_11 ==> jd_spec(31, 12, y0) - 60 < dn <= jd_spec(31, 12, y0) + 90,
{
    let c = ka + off;
    assert(t.in_table(ka + (off + 1)));
    assert(t.in_table(ka + 3));
    assert(t.in_table(ka + (kb - ka)));
    if before_11 {
        if off > 2 {
            lemma_start_increasing(t, ka + 2, c);
        }
        if c + 1 < kb {
            lemma_start_increasing(t, c + 1, kb);
        }
    } else {
        assert(t.in_table(ka + 0));
        lemma_lunation_span(t, ka, 3);
        if off > 0 {
            lemma_start_increasing(t, ka, c);
        }
        if c + 1 < ka + 3 {
            lemma_start_increasing(t, c + 1, ka + 3);
        }
    }
}

/// The Gregorian year of a supported day, told from 31 December of a nearby year.
proof fn lemma_year_of_day(dn: int, sy: int, y: int)
    requires
        MIN_YEAR <= sy <= MAX_YEAR,
        MIN_YEAR <= y <= MAX_YEAR,
        jd_spec(31, 12, sy - 1) < dn <= jd_spec(31, 12, sy),
    ensures
        jd_spec(31, 12, y - 1) < dn <= jd_spec(31, 12, y) ==> sy == y,
        jd_spec(31, 12, y) - 60 < dn <= jd_spec(31, 12, y) + 90 ==> y <= sy <= y + 1,
{
    if sy < y {
        lemma_dec31_monotone(sy, y - 1);
        lemma_dec31_monotone(y - 1, y);
    }
    if sy > y {
        lemma_dec31_monotone(y, sy - 1);
        if sy > y + 1 {
            lemma_dec31_monotone(y, y + 1);
            lemma_dec31_monotone(y + 1, sy - 1);
        }
    }
}

/// The lunar date `solar_to_lunar` gives for the first day of month 11 that
/// falls in the same Gregorian year as its month 11: month 11 of that year.
proof fn lemma_month11_first_days(t: LunationTable, y: int, dn: int, c: int, fa: int, fb: int)
    requires
        t.wf(),
        MIN_YEAR <= y <= MAX_YEAR,
        c == t.month11_index(y),
        t.month_start_of(dn) == t.start(c),
        fa == t.month11_index(y - 1),
        fb == t.month11_index(y),
        1 <= dn - t.start(c) + 1 <= 30,
    ensures
        t.lunar_of_day(y, dn) == lunar_date(y as i32, 11, (dn - t.start(c) + 1) as u8, false),
{
    lemma_wf_year(t, y - 1);
    let nb2 = fb - fa;
    let lo2 = t.leap_offset(t.start(fa));
    t.lemma_leap_scan_range(nearest_lunation(t.start(fa)), 2);
    lemma_lunation_span(t, fa, nb2);
    assert((t.start(fb) - t.start(fa) > 365) == (nb2 == 13));
    assert((t.start(c) - t.start(fa)) / 29 == nb2);
    lemma_label_round_trip(nb2, nb2, lo2);
    lemma_lunar_of_day_value(t, y, dn, c, fa, fb);
}

/// Converting a lunar date of the supported range to a Gregorian date and back
/// gives the same lunar date.
#[verifier::spinoff_prover]
#[verifier::rlimit(100)]
pub proof fn lemma_lunar_solar_round_trip(t: LunationTable, year: i32, month: u8, day: u8, leap: bool)
    requires
        t.wf(),
        t.lunar_to_solar_spec(year, month, day, leap) is Ok,
    ensures
        ({
            let s = t.lunar_to_solar_spec(year, month, day, leap)->Ok_0;
            t.solar_to_lunar_spec(s.year, s.month, s.day) == Ok::<LunarDate, LunarError>(
                lunar_date(year, month, day, leap),
            )
        }),
{
    let y = year as int;
    let s = t.lunar_to_solar_spec(year, month, day, leap)->Ok_0;
    let (ka, kb, off) = lemma_requested_day(t, year, month, day, leap);
    let c = ka + off;
    let ms = t.start(c);
    let dn = ms + day - 1;
    let y0 = if month < 11 { y - 1 } else { y };
    lemma_requested_dec31(t, month < 11, y0, dn, ka, kb, off);
    let sy = s.year as int;
    lemma_jd_in_year(s.day as int, s.month as int, sy);
    lemma_year_of_day(dn, sy, y);
    lemma_day_in_range(s.day as int, s.month as int, sy);
    // the month of the day, as the conversion finds it
    let c2 = lemma_month_of_day(t, dn);
    assert(t.in_table(ka + off));
    assert(t.in_table(ka + (off + 1)));
    assert(t.in_table(ka + (kb - ka)));
    if c2 + 1 < c {
        lemma_start_increasing(t, c2 + 1, c);
    }
    if c + 1 < c2 {
        lemma_start_increasing(t, c + 1, c2);
    }
    assert(c2 == c);
    let (fa, fb) = lemma_year_frame(t, sy, dn, c);
    if month >= 11 && sy == y && off == 0 {
        lemma_month11_first_days(t, y, dn, c, fa, fb);
    } else {
        if month < 11 || sy > y {
            assert(t.month11_start(sy) >= ms) by {
                lemma_start_increasing(t, c, kb);
            }
        } else {
            assert(t.month11_start(sy) < ms) by {
                lemma_start_increasing(t, ka, c);
            }
        }
        assert(fa == ka && fb == kb);
        assert((ms - t.start(ka)) / 29 == off);
        lemma_lunar_of_day_value(t, sy, dn, c, fa, fb);
    }
    assert(solar_date_check(s.year, s.month, s.day) == Ok::<(), LunarError>(()));
    reveal(LunationTable::solar_to_lunar_spec);
}

/// The month 11 a lunar month of `year` is counted from (lunation `ka`, with the
/// next month 11 at `kb`), and the month's offset `off` from it.
proof fn lemma_request_offset(t: LunationTable, year: i32, month: u8, leap: bool) -> (r: (int, int, int))
    requires
        t.wf(),
        MIN_YEAR <= year <= MAX_YEAR,
        1 <= month <= 12,
        ({
            let y0 = if month < 11 { year - 1 } else { year as int };
            t.month_offset_of(t.month11_start(y0), t.month11_start(y0 + 1), month as int, leap) is Ok
        }),
    ensures
        ({
            let (ka, kb, off) = r;
            let y0 = if month < 11 { year - 1 } else { year as int };
            &&& ka == t.month11_index(y0)
            &&& kb == t.month11_index(y0 + 1)
            &&& t.month_offset_of(t.month11_start(y0), t.month11_start(y0 + 1), month as int, leap)
                == Ok::<int, LunarError>(off)
            &&& (kb - ka == 12 || kb - ka == 13)
            &&& 0 <= off < kb - ka
            &&& forall|i: int| 0 <= i <= 14 ==> #[trigger] t.in_table(ka + i)
            &&& month_label(off, kb - ka == 13, t.leap_offset(t.start(ka))) == (month as int, leap)
            &&& (month >= 11 ==> off <= 2)
            &&& (month < 11 ==> off >= 2)
            &&& t.start(ka) <= jd_spec(31, 12, y0) < t.start(kb)
            &&& jd_spec(31, 12, y0) + 1 < t.start(ka + 2)
            &&& t.start(kb) <= jd_spec(31, 12, y0 + 1)
            &&& jd_spec(31, 12, y0) - 60 < t.start(ka)
            &&& nearest_lunation(t.start(ka)) == ka
        }),
{
    let y = year as int;
    let m = month as int;
    let y0 = if m < 11 { y - 1 } else { y };
    lemma_wf_year(t, y0);
    lemma_wf_year(t, y0 + 1);
    lemma_month11_bounds(t, y0);
    let ka = t.month11_index(y0);
    let kb = t.month11_index(y0 + 1);
    let a11 = t.start(ka);
    let nb = kb - ka;
    let lo = t.leap_offset(a11);
    t.lemma_leap_scan_range(nearest_lunation(a11), 2);
    lemma_lunation_span(t, ka, nb);
    assert((t.start(kb) - a11 > 365) == (nb == 13));
    assert(t.month_offset_of(a11, t.start(kb), m, leap) == month_offset_from_label(m, leap, nb == 13, lo));
    lemma_offset_label(m, leap, nb, lo);
    let off = month_offset_from_label(m, leap, nb == 13, lo)->Ok_0;
    (ka, kb, off)
}

/// `lunar_to_solar` answers every in-range lunar date whose month the year has:
/// day `day` of the month `off` months after the month 11 it counts from,
/// which falls in the lunar year for months 1 to 10.
#[verifier::spinoff_prover]
#[verifier::rlimit(40)]
pub proof fn lemma_lunar_to_solar_ok(t: LunationTable, year: i32, month: u8, day: u8, leap: bool) -> (r: (int, int))
    requires
        t.wf(),
        MIN_YEAR <= year <= MAX_YEAR,
        1 <= month <= 12,
        1 <= day <= 29,
        month >= 11 ==> year < MAX_YEAR,
        ({
            let y0 = if month < 11 { year - 1 } else { year as int };
            t.month_offset_of(t.month11_start(y0), t.month11_start(y0 + 1), month as int, leap) is Ok
        }),
    ensures
        ({
            let (ka, off) = r;
            let y0 = if month < 11 { year - 1 } else { year as int };
            let dn = t.start(ka + off) + day - 1;
            let s = date_of_jd(dn);
            &&& ka == t.month11_index(y0)
            &&& t.month_offset_of(t.month11_start(y0), t.month11_start(y0 + 1), month as int, leap)
                == Ok::<int, LunarError>(off)
            &&& 0 <= off <= 13
            &&& t.in_table(ka + off) && t.in_table(ka + off + 1)
            &&& t.lunar_to_solar_spec(year, month, day, leap) == Ok::<SolarDate, LunarError>(s)
            &&& jd_spec(s.day as int, s.month as int, s.year as int) == dn
            &&& is_valid_date(s.year as int, s.month as int, s.day as int)
            &&& (month < 11 ==> s.year == year)
            &&& (month >= 11 ==> year <= s.year <= year + 1)
        }),
{
    let y = year as int;
    let m = month as int;
    let y0 = if m < 11 { y - 1 } else { y };
    let (ka, kb, off) = lemma_request_offset(t, year, month, leap);
    let c = ka + off;
    assert(t.in_table(c) && t.in_table(c + 1)) by {
        assert(t.in_table(ka + off));
        assert(t.in_table(ka + (off + 1)));
    }
    let dn = t.start(c) + day - 1;
    assert(dn <= t.start(c + 1) && day <= t.gap(c)) by {
        lemma_lunation_span(t, c, 1);
    }
    lemma_requested_dec31(t, m < 11, y0, dn, ka, kb, off);
    let s = date_of_jd(dn);
    assert({
        &&& jd_spec(s.day as int, s.month as int, s.year as int) == dn
        &&& is_valid_date(s.year as int, s.month as int, s.day as int)
        &&& (month < 11 ==> s.year == year)
        &&& (month >= 11 ==> year <= s.year <= year + 1)
    }) by {
        lemma_dec31(y0);
        lemma_dec31(y0 + 1);
        if m < 11 {
            lemma_date_in_year(dn, y);
        } else {
            lemma_dec31_monotone(y - 1, y);
            lemma_dec31_monotone(y, y + 1);
            if dn <= jd_spec(31, 12, y) {
                lemma_date_in_year(dn, y);
            } else {
                lemma_date_in_year(dn, y + 1);
            }
        }
    }
    assert(t.lunar_to_solar_spec(year, month, day, leap) == Ok::<SolarDate, LunarError>(s)) by {
        assert(t.solar_of_month_day(t.month11_start(y0), off, day as int) == Ok::<SolarDate, LunarError>(s));
        reveal(LunationTable::lunar_to_solar_spec);
    }
    (ka, off)
}

/// Month 11 of every year around the supported range contains Đông Chí: the
/// major term in force at its start comes before Đông Chí (term 9), and Đông Chí
/// is in force by the start of the next month.
pub proof fn lemma_month11_holds_winter_solstice(t: LunationTable, year: int)
    requires
        t.wf(),
        MIN_YEAR - 1 <= year <= MAX_YEAR + 1,
    ensures
        t.term(t.month11_index(year)) < 9 <= t.term(t.month11_index(year) + 1),
{
    lemma_wf_year(t, year);
}

/// The month `solar_to_lunar` finds for a supported day is the lunation that
/// holds the day, and the lunar date it answers has a month from 1 to 12 and a
/// day from 1 to 30: the day's place in that lunation.
#[verifier::spinoff_prover]
#[verifier::rlimit(50)]
pub proof fn lemma_lunar_day_in_lunation(t: LunationTable, year: i32, month: u8, day: u8) -> (c: int)
    requires
        t.wf(),
        solar_date_check(year, month, day) == Ok::<(), LunarError>(()),
    ensures
        ({
            let dn = jd_spec(day as int, month as int, year as int);
            let l = t.lunar_of_day(year as int, dn);
            &&& t.solar_to_lunar_spec(year, month, day) == Ok::<LunarDate, LunarError>(l)
            &&& t.in_table(c) && t.in_table(c + 1)
            &&& t.start(c) <= dn < t.start(c + 1)
            &&& t.month_start_of(dn) == t.start(c)
            &&& l.day == dn - t.start(c) + 1
            &&& 1 <= l.day <= 30
            &&& 1 <= l.month <= 12
            &&& (l.year == year || (l.year == year - 1 && l.month >= 11))
        }),
{
    let dn = jd_spec(day as int, month as int, year as int);
    lemma_day_in_range(day as int, month as int, year as int);
    let c = lemma_month_of_day(t, dn);
    lemma_lunation_span(t, c, 1);
    let (c3, lyf) = lemma_day_frame(t, year, month, day);
    assert(c3 == c) by {
        if c3 + 1 < c {
            lemma_start_increasing(t, c3 + 1, c);
        }
        if c + 1 < c3 {
            lemma_start_increasing(t, c + 1, c3);
        }
    }
    assert(t.solar_to_lunar_spec(year, month, day) == Ok::<LunarDate, LunarError>(
        t.lunar_of_day(year as int, dn),
    )) by {
        reveal(LunationTable::solar_to_lunar_spec);
    }
    c
}

/// Tết of a supported year falls in that year, on or after 2 January, with the
/// lunar date 1/1 of the year; the day before it is the last day of month 12
/// (possibly leap) of the year before.
#[verifier::spinoff_prover]
#[verifier::rlimit(60)]
pub proof fn lemma_new_year(t: LunationTable, year: i32)
    requires
        t.wf(),
        MIN_YEAR <= year <= MAX_YEAR,
    ensures
        t.lunar_to_solar_spec(year, 1, 1, false) is Ok,
        ({
            let s = t.lunar_to_solar_spec(year, 1, 1, false)->Ok_0;
            let dn = jd_spec(s.day as int, s.month as int, s.year as int);
            let g = date_of_jd(dn - 1);
            let a = t.solar_to_lunar_spec(g.year, g.month, g.day)->Ok_0;
            &&& s.year == year
            &&& jd_spec(31, 12, year - 1) + 1 < dn
            &&& t.solar_to_lunar_spec(s.year, s.month, s.day) == Ok::<LunarDate, LunarError>(
                lunar_date(year, 1, 1, false),
            )
            &&& g.year == year
            &&& jd_spec(g.day as int, g.month as int, g.year as int) == dn - 1
            &&& solar_date_check(g.year, g.month, g.day) == Ok::<(), LunarError>(())
            &&& t.solar_to_lunar_spec(g.year, g.month, g.day) is Ok
            &&& a.year == year - 1
            &&& a.month == 12
            &&& (a.day == 29 || a.day == 30)
        }),
{
    let _ = lemma_lunar_to_solar_ok(t, year, 1, 1, false);
    let s = t.lunar_to_solar_spec(year, 1, 1, false)->Ok_0;
    let dn = jd_spec(s.day as int, s.month as int, s.year as int);
    assert(s.year == year && jd_spec(31, 12, year - 1) + 1 < dn) by {
        let (ka, kb, off) = lemma_requested_day(t, year, 1, 1, false);
        if off > 2 {
            assert(t.in_table(ka + 2) && t.in_table(ka + off));
            lemma_start_increasing(t, ka + 2, ka + off);
        }
    }
    lemma_lunar_solar_round_trip(t, year, 1, 1, false);
    lemma_jd_in_year(s.day as int, s.month as int, s.year as int);
    lemma_dec31(year - 1);
    lemma_date_in_year(dn - 1, year as int);
    let g = date_of_jd(dn - 1);
    assert(solar_date_check(g.year, g.month, g.day) == Ok::<(), LunarError>(()));
    let _ = lemma_lunar_day_in_lunation(t, g.year, g.month, g.day);
    lemma_solar_next_day(t, g.year, g.month, g.day, s.year, s.month, s.day);
}

/// Within a lunar month, the next lunar day is the next Gregorian day: when
/// day `day` converts, day `day + 1` converts exactly when the month has that
/// day (and then to the day after), and is otherwise refused as an invalid
/// lunar day (up to the end of the supported range).
#[verifier::spinoff_prover]
pub proof fn lemma_lunar_next_day(t: LunationTable, year: i32, month: u8, day: u8, leap: bool)
    requires
        t.wf(),
        t.lunar_to_solar_spec(year, month, day, leap) is Ok,
        day < 30,
        ({
            let s = t.lunar_to_solar_spec(year, month, day, leap)->Ok_0;
            jd_spec(s.day as int, s.month as int, s.year as int) < LAST_DAY
        }),
    ensures
        ({
            let s1 = t.lunar_to_solar_spec(year, month, day, leap)->Ok_0;
            let r2 = t.lunar_to_solar_spec(year, month, (day + 1) as u8, leap);
            let c = t.requested_lunation(year as int, month as int, leap);
            &&& (r2 is Ok <==> day + 1 <= t.gap(c))
            &&& (r2 is Ok ==> jd_spec(r2->Ok_0.day as int, r2->Ok_0.month as int, r2->Ok_0.year as int)
                == jd_spec(s1.day as int, s1.month as int, s1.year as int) + 1)
            &&& (!(r2 is Ok) ==> r2 == Err::<SolarDate, LunarError>(LunarError::InvalidLunarDay((day + 1) as u8)))
        }),
{
    let (ka, kb, off) = lemma_requested_day(t, year, month, day, leap);
    let s1 = t.lunar_to_solar_spec(year, month, day, leap)->Ok_0;
    let dn = t.start(ka + off) + day - 1;
    lemma_next_date(dn, s1);
    let s2 = date_of_jd(dn + 1);
    if day + 1 <= t.gap(ka + off) {
        assert(t.lunar_to_solar_spec(year, month, (day + 1) as u8, leap) == Ok::<SolarDate, LunarError>(s2)) by {
            reveal(LunationTable::lunar_to_solar_spec);
        }
    } else {
        assert(t.lunar_to_solar_spec(year, month, (day + 1) as u8, leap) == Err::<SolarDate, LunarError>(
            LunarError::InvalidLunarDay((day + 1) as u8),
        )) by {
            reveal(LunationTable::lunar_to_solar_spec);
        }
    }
}

/// The day after a supported day before the last one is a supported day.
proof fn lemma_next_date(dn: int, s1: SolarDate)
    requires
        MIN_YEAR <= s1.year <= MAX_YEAR,
        is_valid_date(s1.year as int, s1.month as int, s1.day as int),
        jd_spec(s1.day as int, s1.month as int, s1.year as int) == dn,
        dn < LAST_DAY,
    ensures
        ({
            let s2 = date_of_jd(dn + 1);
            &&& MIN_YEAR <= s2.year <= MAX_YEAR
            &&& jd_spec(s2.day as int, s2.month as int, s2.year as int) == dn + 1
        }),
{
    let sy = s1.year as int;
    let dn2 = dn + 1;
    lemma_jd_in_year(s1.day as int, s1.month as int, sy);
    lemma_jd_in_year(31, 12, MAX_YEAR as int);
    if dn < jd_spec(31, 12, sy) {
        lemma_date_in_year(dn2, sy);
    } else {
        if sy > MAX_YEAR - 1 {
            assert(sy == MAX_YEAR);
        }
        lemma_dec31_increasing(sy, sy + 1);
        lemma_date_in_year(dn2, sy + 1);
    }
}


/// The day number `lunar_to_solar` answers with is day `day` of the lunation
/// it reads for the month.
pub proof fn lemma_lunar_to_solar_day_number(t: LunationTable, year: i32, month: u8, day: u8, leap: bool)
    requires
        t.wf(),
        t.lunar_to_solar_spec(year, month, day, leap) is Ok,
    ensures
        ({
            let s = t.lunar_to_solar_spec(year, month, day, leap)->Ok_0;
            jd_spec(s.day as int, s.month as int, s.year as int) == t.start(
                t.requested_lunation(year as int, month as int, leap),
            ) + day - 1
        }),
{
    let _ = lemma_requested_day(t, year, month, day, leap);
}

// ---------------------------------------------------------------------------
// Consecutive days
// ---------------------------------------------------------------------------

/// The month after the month `n` months after month 11 is the same month
/// number as a leap month, or the next month number (the next lunar year after
/// month 12), within one lunisolar year.
proof fn lemma_label_next(n: int, nb: int, lo: int, z: int)
    requires
        0 <= n,
        n + 1 < nb,
        nb == 12 || nb == 13,
        1 <= lo <= 13,
        nb == 13 ==> lo <= 12,
    ensures
        ({
            let (m1, l1) = month_label(n, nb == 13, lo);
            let (m2, l2) = month_label(n + 1, nb == 13, lo);
            let y1 = if m1 >= 11 && n < 4 { z } else { z + 1 };
            let y2 = if m2 >= 11 && n + 1 < 4 { z } else { z + 1 };
            &&& 1 <= m1 <= 12
            &&& 1 <= m2 <= 12
            &&& (l2 && !l1 && m2 == m1 && y2 == y1)
                || (!l2 && m2 == m1 % 12 + 1 && y2 == y1 + (if m1 == 12 { 1int } else { 0 }))
        }),
{
}

/// The last month of a lunisolar year is month 10 (possibly leap) of the
/// next lunar year, and month 11 that follows it belongs to the same lunar year.
proof fn lemma_label_wrap(nb: int, lo: int, lo2: int)
    requires
        nb == 12 || nb == 13,
        1 <= lo <= 13,
        nb == 13 ==> lo <= 12,
        1 <= lo2,
    ensures
        month_label(nb - 1, nb == 13, lo).0 == 10,
        month_label(0, false, lo2) == (11int, false),
        month_label(0, true, lo2) == (11int, false),
{
}

/// Month 11 comes later each year: `index(z2)` is at least 12 lunations after `index(z1)`.
proof fn lemma_index_increasing(t: LunationTable, z1: int, z2: int)
    requires
        t.wf(),
        MIN_YEAR - 1 <= z1 <= z2 <= MAX_YEAR + 1,
    ensures
        t.month11_index(z1) + 12 * (z2 - z1) <= t.month11_index(z2),
    decreases z2 - z1,
{
    if z1 < z2 {
        lemma_index_increasing(t, z1, z2 - 1);
        lemma_wf_year(t, z2 - 1);
    }
}

/// The lunation `c` holding a supported day and the months 11 around it (of
/// `lyf - 1` and `lyf`) that `solar_to_lunar` labels its month from.
#[verifier::spinoff_prover]
#[verifier::rlimit(60)]
proof fn lemma_day_frame(t: LunationTable, year: i32, month: u8, day: u8) -> (r: (int, int))
    requires
        t.wf(),
        solar_date_check(year, month, day) == Ok::<(), LunarError>(()),
    ensures
        ({
            let (c, lyf) = r;
            let dn = jd_spec(day as int, month as int, year as int);
            let fa = t.month11_index(lyf - 1);
            let fb = t.month11_index(lyf);
            let n = c - fa;
            let (m, leap) = month_label(n, fb - fa == 13, t.leap_offset(t.start(fa)));
            let ly1 = if m >= 11 && n < 4 { lyf - 1 } else { lyf };
            &&& year <= lyf <= year + 1
            &&& (lyf == year + 1 ==> c == fa + 1)
            &&& 1 <= t.leap_offset(t.start(fa))
            &&& fb - fa <= 13
            &&& fa <= c <= fb
            &&& t.in_table(c) && t.in_table(c + 1)
            &&& t.start(c) <= dn < t.start(c + 1)
            &&& t.lunar_of_day(year as int, dn) == lunar_date(ly1 as i32, m as u8, (dn - t.start(c) + 1) as u8, leap)
        }),
{
    let y = year as int;
    let dn = jd_spec(day as int, month as int, y);
    lemma_day_in_range(day as int, month as int, y);
    lemma_jd_in_year(day as int, month as int, y);
    let c = lemma_month_of_day(t, dn);
    let (fa, fb) = lemma_year_frame(t, y, dn, c);
    let case1 = t.month11_start(y) >= t.start(c);
    let lyf = if case1 { y } else { y + 1 };
    lemma_lunar_of_day_value(t, y, dn, c, fa, fb);
    lemma_frame_length(t, lyf - 1);
    assert((t.start(c) - t.start(fa)) / 29 == c - fa);
    (c, lyf)
}

/// The lunar date of a supported day is a function of the lunation `c` that
/// holds it and of the lunisolar year (from month 11 of `z`) that holds `c`:
/// the month is labelled by its distance from that month 11.
#[verifier::spinoff_prover]
#[verifier::rlimit(60)]
proof fn lemma_day_label(t: LunationTable, year: i32, month: u8, day: u8) -> (r: (int, int))
    requires
        t.wf(),
        solar_date_check(year, month, day) == Ok::<(), LunarError>(()),
    ensures
        ({
            let (c, z) = r;
            let dn = jd_spec(day as int, month as int, year as int);
            let ka = t.month11_index(z);
            let kb = t.month11_index(z + 1);
            let lo = t.leap_offset(t.start(ka));
            let n = c - ka;
            let (m, leap) = month_label(n, kb - ka == 13, lo);
            let ly = if m >= 11 && n < 4 { z } else { z + 1 };
            &&& MIN_YEAR - 1 <= z <= MAX_YEAR + 1
            &&& ka <= c < kb
            &&& t.in_table(c) && t.in_table(c + 1)
            &&& t.start(c) <= dn < t.start(c + 1)
            &&& (kb - ka == 12 || kb - ka == 13)
            &&& 1 <= lo <= 13
            &&& (kb - ka == 13 ==> lo <= 12)
            &&& t.lunar_of_day(year as int, dn) == lunar_date(ly as i32, m as u8, (dn - t.start(c) + 1) as u8, leap)
        }),
{
    let (c, lyf) = lemma_day_frame(t, year, month, day);
    lemma_frame_length(t, lyf - 1);
    lemma_wf_year(t, lyf - 1);
    let fa = t.month11_index(lyf - 1);
    let fb = t.month11_index(lyf);
    if c < fb {
        (c, lyf - 1)
    } else {
        lemma_frame_length(t, lyf);
        lemma_wf_year(t, lyf);
        let lo = t.leap_offset(t.start(fa));
        lemma_label_round_trip(fb - fa, fb - fa, lo);
        lemma_label_wrap(fb - fa, lo, t.leap_offset(t.start(fb)));
        (c, lyf)
    }
}

/// From one supported day to the next, the lunar date moves to the next day of
/// the same month, or, after day 29 or 30, to day 1 of the next month: the
/// leap month of the same number, or the next month number (of the next lunar
/// year after month 12).
#[verifier::spinoff_prover]
#[verifier::rlimit(50)]
pub proof fn lemma_solar_next_day(t: LunationTable, y1: i32, m1: u8, d1: u8, y2: i32, m2: u8, d2: u8)
    requires
        t.wf(),
        solar_date_check(y1, m1, d1) == Ok::<(), LunarError>(()),
        solar_date_check(y2, m2, d2) == Ok::<(), LunarError>(()),
        jd_spec(d2 as int, m2 as int, y2 as int) == jd_spec(d1 as int, m1 as int, y1 as int) + 1,
    ensures
        t.solar_to_lunar_spec(y1, m1, d1) is Ok,
        t.solar_to_lunar_spec(y2, m2, d2) is Ok,
        ({
            let a = t.solar_to_lunar_spec(y1, m1, d1)->Ok_0;
            let b = t.solar_to_lunar_spec(y2, m2, d2)->Ok_0;
            ||| (b.year == a.year && b.month == a.month && b.leap == a.leap && b.day == a.day + 1)
            ||| (b.day == 1 && (a.day == 29 || a.day == 30) && (
                (b.leap && !a.leap && b.month == a.month && b.year == a.year)
                || (!b.leap && b.month == a.month % 12 + 1 && b.year == a.year + (if a.month == 12 { 1int } else { 0 })))
            )
        }),
{
    reveal(LunationTable::solar_to_lunar_spec);
    let dn1 = jd_spec(d1 as int, m1 as int, y1 as int);
    let dn2 = dn1 + 1;
    let (c1, z1) = lemma_day_label(t, y1, m1, d1);
    let (c2, z2) = lemma_day_label(t, y2, m2, d2);
    if c2 + 1 < c1 {
        lemma_start_increasing(t, c2 + 1, c1);
    }
    if c1 + 1 < c2 {
        lemma_start_increasing(t, c1 + 1, c2);
    }
    assert(c2 == c1 || c2 == c1 + 1);
    if z1 < z2 {
        lemma_index_increasing(t, z1 + 1, z2);
    }
    if z2 < z1 {
        lemma_index_increasing(t, z2 + 1, z1);
    }
    let ka = t.month11_index(z1);
    let kb = t.month11_index(z1 + 1);
    let lo = t.leap_offset(t.start(ka));
    let a = t.solar_to_lunar_spec(y1, m1, d1)->Ok_0;
    let b = t.solar_to_lunar_spec(y2, m2, d2)->Ok_0;
    assert(a == t.lunar_of_day(y1 as int, dn1));
    assert(b == t.lunar_of_day(y2 as int, dn2));
    if c2 == c1 {
        assert(z1 == z2);
        assert(t.gap(c1) <= 30) by {
            reveal(LunationTable::wf);
        }
        assert(b.day == a.day + 1);
        assert(b.year == a.year && b.month == a.month && b.leap == a.leap);
    } else {
        assert(dn2 == t.start(c2));
        assert(29 <= t.gap(c1) <= 30) by {
            reveal(LunationTable::wf);
        }
        if c2 < kb {
            assert(z1 == z2);
            lemma_label_next(c1 - ka, kb - ka, lo, z1);
        } else {
            assert(z2 == z1 + 1);
            lemma_label_wrap(kb - ka, lo, t.leap_offset(t.start(kb)));
        }
    }
}

/// Every date `lunar_to_solar` answers is a valid date of the supported range.
pub proof fn lemma_lunar_to_solar_valid(t: LunationTable, year: i32, month: u8, day: u8, leap: bool)
    requires
        t.wf(),
        t.lunar_to_solar_spec(year, month, day, leap) is Ok,
    ensures
        ({
            let s = t.lunar_to_solar_spec(year, month, day, leap)->Ok_0;
            solar_date_check(s.year, s.month, s.day) == Ok::<(), LunarError>(())
        }),
{
    let _ = lemma_requested_day(t, year, month, day, leap);
}

/// The month a lunar date is read in starts within the supported range.
#[verifier::spinoff_prover]
#[verifier::rlimit(40)]
proof fn lemma_requested_start(t: LunationTable, year: i32, month: u8, day: u8, leap: bool)
    requires
        t.wf(),
        t.lunar_to_solar_spec(year, month, day, leap) is Ok,
    ensures
        FIRST_DAY <= t.start(t.requested_lunation(year as int, month as int, leap)),
        ({
            let s = t.lunar_to_solar_spec(year, month, day, leap)->Ok_0;
            &&& jd_spec(s.day as int, s.month as int, s.year as int) == t.start(
                t.requested_lunation(year as int, month as int, leap),
            ) + day - 1
            &&& MIN_YEAR <= s.year <= MAX_YEAR
            &&& is_valid_date(s.year as int, s.month as int, s.day as int)
            &&& day <= t.gap(t.requested_lunation(year as int, month as int, leap))
        }),
{
    let (ka, kb, off) = lemma_requested_day(t, year, month, day, leap);
    let y0 = if month < 11 { year - 1 } else { year as int };
    lemma_dec31(y0);
    lemma_jd_in_year(1, 1, MIN_YEAR as int);
    if month < 11 {
        if off > 2 {
            assert(t.in_table(ka + 2) && t.in_table(ka + off));
            lemma_start_increasing(t, ka + 2, ka + off);
        }
        if y0 > MIN_YEAR - 1 {
            lemma_dec31_monotone(MIN_YEAR - 1, y0);
        }
    } else {
        if off > 0 {
            assert(t.in_table(ka + 0) && t.in_table(ka + off));
            lemma_start_increasing(t, ka, ka + off);
        }
        lemma_dec31_monotone(MIN_YEAR - 1, y0);
    }
}

/// When day `day + 1` of a lunar month converts, so does day `day`.
#[verifier::spinoff_prover]
#[verifier::rlimit(40)]
pub proof fn lemma_lunar_previous_day(t: LunationTable, year: i32, month: u8, day: u8, leap: bool)
    requires
        t.wf(),
        1 <= day < 30,
        t.lunar_to_solar_spec(year, month, (day + 1) as u8, leap) is Ok,
    ensures
        t.lunar_to_solar_spec(year, month, day, leap) is Ok,
{
    let d2 = (day + 1) as u8;
    lemma_requested_start(t, year, month, d2, leap);
    let s2 = t.lunar_to_solar_spec(year, month, d2, leap)->Ok_0;
    let c = t.requested_lunation(year as int, month as int, leap);
    let dn = t.start(c) + day - 1;
    let sy = s2.year as int;
    assert(MIN_YEAR <= date_of_jd(dn).year <= MAX_YEAR) by {
        lemma_jd_in_year(s2.day as int, s2.month as int, sy);
        lemma_jd_in_year(1, 1, MIN_YEAR as int);
        if dn > jd_spec(31, 12, sy - 1) {
            lemma_date_in_year(dn, sy);
        } else {
            assert(sy - 1 >= MIN_YEAR);
            lemma_dec31_increasing(sy - 2, sy - 1);
            lemma_date_in_year(dn, sy - 1);
        }
    }
    assert(t.lunar_to_solar_spec(year, month, day, leap) is Ok) by {
        reveal(LunationTable::lunar_to_solar_spec);
    }
}

/// A month labelled 11 or 12 within the first four months from month 11 comes
/// before month 1.
proof fn lemma_label_before_new_year(n: int, leap_year: bool, lo: int)
    requires
        0 <= n < 4,
        1 <= lo,
        month_label(n, leap_year, lo).0 >= 11,
    ensures
        n < (if leap_year && lo <= 2 { 3int } else { 2 }),
{
}

/// A day that `solar_to_lunar` places in the lunar year before its Gregorian
/// year is in January or February, in month 11 or 12 (possibly leap).
#[verifier::spinoff_prover]
#[verifier::rlimit(40)]
pub proof fn lemma_lunar_year_before(t: LunationTable, year: i32, month: u8, day: u8)
    requires
        t.wf(),
        solar_date_check(year, month, day) == Ok::<(), LunarError>(()),
    ensures
        t.solar_to_lunar_spec(year, month, day) matches Ok(l) ==> (l.year == year - 1 ==> month <= 2
            && l.month >= 11),
{
    reveal(LunationTable::solar_to_lunar_spec);
    let (c, lyf) = lemma_day_frame(t, year, month, day);
    let y = year as int;
    let dn = jd_spec(day as int, month as int, y);
    let fa = t.month11_index(lyf - 1);
    let fb = t.month11_index(lyf);
    let n = c - fa;
    let lo = t.leap_offset(t.start(fa));
    let (m1, leap) = month_label(n, fb - fa == 13, lo);
    let l = t.lunar_of_day(y, dn);
    if l.year == year - 1 {
        assert(lyf == y && m1 >= 11 && n < 4);
        lemma_label_before_new_year(n, fb - fa == 13, lo);
        lemma_wf_year(t, y - 1);
        let m1i = t.month1_index(y - 1);
        assert(c + 1 <= m1i);
        assert(t.in_table(fa + (m1i - fa)));
        if c + 1 < m1i {
            lemma_start_increasing(t, c + 1, m1i);
        }
        assert(t.month1_early(y - 1)) by {
            reveal(LunationTable::wf);
        }
        lemma_jd_in_year(day as int, month as int, y);
        lemma_before_march(day as int, month as int, y);
    }
}

} // verus!
