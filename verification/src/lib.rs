//! Vietnamese lunar calendar core.
//!
//! Civil conversions use Hồ Ngọc Đức's rules at UTC+7, the timezone of the
//! Vietnamese lunisolar calendar. The astronomical inputs (the days of the new
//! moons and the major solar terms in force on them, the instants of the solar
//! terms) are computed in floating point outside this crate and checked here
//! before use; every conversion is integer arithmetic on them.

use vstd::prelude::*;

pub mod arith;
pub mod calendar;
pub mod cycle;
pub mod error;
pub mod good_days;
pub mod gregorian;
pub mod holidays;
pub mod lunar_date;
pub mod lunisolar;
pub mod terms;
pub mod text;

pub use calendar::LunarCalendar;
pub use cycle::{
    get_stem_branch, get_zodiac, EarthlyBranch, Element, HeavenlyStem, StemBranch, YinYang, Zodiac,
};
pub use error::{LunarError, MAX_YEAR, MIN_YEAR};
pub use good_days::{get_good_days, GoodDay, GoodDayCategory};
pub use gregorian::{is_leap_year, jd_from_date, jd_to_date, validate_solar_date, SolarDate};
pub use holidays::{get_vietnam_holidays, Holiday, HolidayName};
pub use lunar_date::LunarDate;
pub use lunisolar::{leap_month, lunar_to_solar, solar_to_lunar, Lunations};
pub use terms::{get_jieqi, time_of_day_from_seconds, JieQi, JieQiName, TimeOfDay};

verus! {

} // verus!
