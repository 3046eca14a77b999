//! The calendar interface.
use vstd::prelude::*;

use crate::cycle::{
    get_stem_branch, get_zodiac, stem_branch_of_year, year_offset_in_range, zodiac_of_year,
    StemBranch, Zodiac,
};
use crate::error::{LunarError, MAX_YEAR, MIN_YEAR};
use crate::good_days::{get_good_days, good_day_fields, good_days_spec, GoodDay, GoodDayCategory};
use crate::gregorian::{jd_in_range, SolarDate};
use crate::holidays::{get_vietnam_holidays, holidays_spec, sorted_by_date, Holiday};
use crate::lunar_date::LunarDate;
use crate::lunisolar::{leap_month, lunar_to_solar, solar_to_lunar, LunationTable, Lunations};
use crate::terms::{get_jieqi, get_jieqi_spec, JieQi, TimeOfDay};

verus! {

/// Main calendar interface, over a checked table of lunations. It holds no
/// other state: each method answers exactly what the free function of the same
/// name answers over `table()`, the table the calendar was built with.
pub struct LunarCalendar {
    lunations: Lunations,
}

impl LunarCalendar {
    #[verifier::type_invariant]
    spec fn inv(self) -> bool {
        self.lunations@.wf()
    }

    /// The lunations the calendar converts with.
    pub closed spec fn table(self) -> LunationTable {
        self.lunations@
    }

    /// Create a calendar (Vietnam Standard Time, UTC+7) over a checked table of lunations.
    pub fn new(lunations: Lunations) -> (c: LunarCalendar)
        requires
            lunations@.wf(),
        ensures
            c.table() == lunations@,
    {
        LunarCalendar { lunations }
    }

    /// The table of lunations the calendar was built with.
    pub fn lunations(&self) -> (l: &Lunations)
        ensures
            l@ == self.table(),
            l@.wf(),
    {
        proof {
            use_type_invariant(self);
        }
        &self.lunations
    }

    /// Gregorian → lunar (Vietnam civil date).
    pub fn solar_to_lunar(&self, year: i32, month: u8, day: u8) -> (r: Result<LunarDate, LunarError>)
        ensures
            self.table().wf(),
            r == self.table().solar_to_lunar_spec(year, month, day),
    {
        proof {
            use_type_invariant(self);
        }
        solar_to_lunar(year, month, day, &self.lunations)
    }

    /// Lunar → Gregorian (Vietnam civil date).
    pub fn lunar_to_solar(&self, year: i32, month: u8, day: u8, leap: bool) -> (r: Result<
        SolarDate,
        LunarError,
    >)
        ensures
            self.table().wf(),
            r == self.table().lunar_to_solar_spec(year, month, day, leap),
    {
        proof {
            use_type_invariant(self);
        }
        lunar_to_solar(year, month, day, leap, &self.lunations)
    }

    /// Leap month (1..=12) of a lunar year of the supported range, if that year is intercalary.
    pub fn leap_month(&self, lunar_year: i32) -> (r: Option<u8>)
        requires
            MIN_YEAR <= lunar_year <= MAX_YEAR,
        ensures
            self.table().wf(),
            r == self.table().leap_month_of(lunar_year as int),
            r matches Some(m) ==> 1 <= m <= 12,
    {
        proof {
            use_type_invariant(self);
        }
        leap_month(lunar_year, &self.lunations)
    }

    /// Solar term in effect on a Gregorian date, given the civil instants of the
    /// 24 terms of the year before, the year and the year after.
    pub fn get_jieqi(&self, year: i32, month: u8, day: u8, instants: &Vec<(SolarDate, TimeOfDay)>) -> (r:
        Result<JieQi, LunarError>)
        requires
            instants@.len() == 72,
            forall|i: int|
                0 <= i < instants@.len() ==> jd_in_range(
                    #[trigger] instants@[i].0.day as int,
                    instants@[i].0.month as int,
                    instants@[i].0.year as int,
                ),
        ensures
            r == get_jieqi_spec(year, month, day, instants@),
    {
        get_jieqi(year, month, day, instants)
    }

    /// Holidays whose Gregorian date falls in `year`.
    pub fn get_vietnam_holidays(&self, year: i32) -> (r: Result<Vec<Holiday>, LunarError>)
        ensures
            self.table().wf(),
            match r {
                Ok(v) => holidays_spec(self.table(), year) == Ok::<Seq<Holiday>, LunarError>(v@),
                Err(e) => holidays_spec(self.table(), year) == Err::<Seq<Holiday>, LunarError>(e),
            },
            r is Ok <==> MIN_YEAR <= year <= MAX_YEAR,
            r matches Ok(v) ==> sorted_by_date(v@),
    {
        proof {
            use_type_invariant(self);
        }
        get_vietnam_holidays(year, &self.lunations)
    }

    /// Hoàng đạo days in a (non-leap) lunar month.
    pub fn get_good_days(&self, lunar_year: i32, lunar_month: u8) -> (r: Result<
        Vec<GoodDay>,
        LunarError,
    >)
        ensures
            self.table().wf(),
            match r {
                Ok(v) => good_days_spec(self.table(), lunar_year, lunar_month) == Ok::<
                    Seq<(LunarDate, SolarDate, GoodDayCategory, Seq<char>)>,
                    LunarError,
                >(v@.map_values(|g: GoodDay| good_day_fields(g))),
                Err(e) => good_days_spec(self.table(), lunar_year, lunar_month) == Err::<
                    Seq<(LunarDate, SolarDate, GoodDayCategory, Seq<char>)>,
                    LunarError,
                >(e),
            },
            r is Ok <==> (MIN_YEAR <= lunar_year <= MAX_YEAR && 1 <= lunar_month <= 12),
            r matches Ok(v) ==> forall|i: int|
                0 <= i < v@.len() ==> (#[trigger] v@[i]).category == GoodDayCategory::HoangDao,
    {
        proof {
            use_type_invariant(self);
        }
        get_good_days(lunar_year, lunar_month, &self.lunations)
    }

    /// Zodiac animal of a lunar year.
    pub fn get_zodiac(&self, lunar_year: i32) -> (z: Zodiac)
        requires
            year_offset_in_range(lunar_year as int),
        ensures
            z == zodiac_of_year(lunar_year as int),
    {
        get_zodiac(lunar_year)
    }

    /// Can-chi of a lunar year.
    pub fn get_stem_branch(&self, lunar_year: i32) -> (sb: StemBranch)
        requires
            year_offset_in_range(lunar_year as int),
        ensures
            sb == stem_branch_of_year(lunar_year as int),
    {
        get_stem_branch(lunar_year)
    }
}

} // verus!
