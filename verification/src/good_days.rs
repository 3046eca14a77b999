//! Hoàng đạo (auspicious) days of a lunar month.
use vstd::prelude::*;

use crate::cycle::{branch_at, EarthlyBranch};
use crate::error::{LunarError, MAX_YEAR, MIN_YEAR};
use crate::gregorian::{jd_from_date, jd_in_range, jd_spec, lemma_jd_in_range_small, SolarDate};
use crate::lunar_date::{lunar_date, vietnamese_name_spec, LunarDate};
use crate::lunisolar::{
    lemma_lunar_previous_day, lemma_lunar_solar_round_trip, lemma_lunar_to_solar_day_number, lemma_lunar_to_solar_valid, lunar_to_solar, solar_to_lunar, LunationTable, Lunations};

verus! {

/// Category of auspicious day.
#[derive(Debug, Clone, Copy, PartialEq, Eq, Hash, Structural)]
pub enum GoodDayCategory {
    HoangDao,
    ThienDe,
    NguyetDe,
    SanhQi,
    ThienEn,
    PhucDuc,
}

/// Auspicious-day annotation.
#[derive(Debug, Clone, PartialEq, Eq)]
pub struct GoodDay {
    pub lunar_date: LunarDate,
    pub solar_date: SolarDate,
    pub category: GoodDayCategory,
    pub description: String,
}

pub open spec fn good_day_category_name(c: GoodDayCategory) -> Seq<char> {
    match c {
        GoodDayCategory::HoangDao => "Hoàng đạo"@,
        GoodDayCategory::ThienDe => "Thiên Đệ"@,
        GoodDayCategory::NguyetDe => "Nguyệt Đệ"@,
        GoodDayCategory::SanhQi => "Sinh Khí"@,
        GoodDayCategory::ThienEn => "Thiên Ân"@,
        GoodDayCategory::PhucDuc => "Phúc Đức"@,
    }
}

impl GoodDayCategory {
    pub fn vietnamese(&self) -> (s: &'static str)
        ensures
            s@ == good_day_category_name(*self),
    {
        match self {
            GoodDayCategory::HoangDao => "Hoàng đạo",
            GoodDayCategory::ThienDe => "Thiên Đệ",
            GoodDayCategory::NguyetDe => "Nguyệt Đệ",
            GoodDayCategory::SanhQi => "Sinh Khí",
            GoodDayCategory::ThienEn => "Thiên Ân",
            GoodDayCategory::PhucDuc => "Phúc Đức",
        }
    }
}

/// Earthly branch of the day with day number `jd`.
pub open spec fn day_branch_spec(jd: int) -> EarthlyBranch {
    branch_at((jd + 1) % 12)
}

/// The hoàng đạo branches of each lunar month (months 1 and 7, 2 and 8, ... share them).
pub open spec fn is_hoang_dao_spec(lunar_month: int, b: EarthlyBranch) -> bool {
    if lunar_month == 1 || lunar_month == 7 {
        b == EarthlyBranch::Ty || b == EarthlyBranch::Suu || b == EarthlyBranch::Ty2 || b
            == EarthlyBranch::Mui
    } else if lunar_month == 2 || lunar_month == 8 {
        b == EarthlyBranch::Dan || b == EarthlyBranch::Mao || b == EarthlyBranch::Ngo || b
            == EarthlyBranch::Than
    } else if lunar_month == 3 || lunar_month == 9 {
        b == EarthlyBranch::Thin || b == EarthlyBranch::Ty2 || b == EarthlyBranch::Than || b
            == EarthlyBranch::Tuat
    } else if lunar_month == 4 || lunar_month == 10 {
        b == EarthlyBranch::Ngo || b == EarthlyBranch::Mui || b == EarthlyBranch::Dau || b
            == EarthlyBranch::Hoi
    } else if lunar_month == 5 || lunar_month == 11 {
        b == EarthlyBranch::Than || b == EarthlyBranch::Dau || b == EarthlyBranch::Hoi || b
            == EarthlyBranch::Suu
    } else if lunar_month == 6 || lunar_month == 12 {
        b == EarthlyBranch::Tuat || b == EarthlyBranch::Hoi || b == EarthlyBranch::Dan || b
            == EarthlyBranch::Thin
    } else {
        false
    }
}

/// "Ngày <lunar date name> — Hoàng đạo".
pub open spec fn good_day_description(l: LunarDate) -> Seq<char> {
    "Ngày "@ + vietnamese_name_spec(l) + " — "@ + "Hoàng đạo"@
}

/// The good day record of a hoàng đạo day.
pub open spec fn good_day_spec(l: LunarDate, s: SolarDate) -> (LunarDate, SolarDate, GoodDayCategory, Seq<char>) {
    (l, s, GoodDayCategory::HoangDao, good_day_description(l))
}

/// Scans days `day..=30` of lunar month `lunar_month` of `lunar_year`, stopping
/// at the first day that does not exist in that month, and appends the
/// hoàng đạo days to `acc`.
pub open spec fn good_days_scan(
    t: LunationTable,
    lunar_year: i32,
    lunar_month: u8,
    day: int,
    acc: Seq<(LunarDate, SolarDate, GoodDayCategory, Seq<char>)>,
) -> Result<Seq<(LunarDate, SolarDate, GoodDayCategory, Seq<char>)>, LunarError>
    decreases 31 - day,
{
    if day > 30 || day < 1 {
        Ok(acc)
    } else {
        match t.lunar_to_solar_spec(lunar_year, lunar_month, day as u8, false) {
            Err(_) => Ok(acc),
            Ok(s) => match t.solar_to_lunar_spec(s.year, s.month, s.day) {
                Err(e) => Err(e),
                Ok(l) => if l.month != lunar_month || l.leap || l.year != lunar_year {
                    Ok(acc)
                } else {
                    let b = day_branch_spec(jd_spec(s.day as int, s.month as int, s.year as int));
                    let acc2 = if is_hoang_dao_spec(lunar_month as int, b) {
                        acc.push(good_day_spec(l, s))
                    } else {
                        acc
                    };
                    good_days_scan(t, lunar_year, lunar_month, day + 1, acc2)
                },
            },
        }
    }
}

/// What `get_good_days` answers, each good day as its four fields.
pub open spec fn good_days_spec(t: LunationTable, lunar_year: i32, lunar_month: u8) -> Result<
    Seq<(LunarDate, SolarDate, GoodDayCategory, Seq<char>)>,
    LunarError,
> {
    if lunar_year < MIN_YEAR || lunar_year > MAX_YEAR {
        Err(LunarError::YearOutOfRange(lunar_year))
    } else if !(1 <= lunar_month <= 12) {
        Err(LunarError::InvalidLunarMonth(lunar_month))
    } else {
        good_days_scan(t, lunar_year, lunar_month, 1, Seq::empty())
    }
}

pub open spec fn good_day_fields(g: GoodDay) -> (LunarDate, SolarDate, GoodDayCategory, Seq<char>) {
    (g.lunar_date, g.solar_date, g.category, g.description@)
}

fn day_branch_from_jd(jd: i32) -> (b: EarthlyBranch)
    requires
        jd < i32::MAX,
    ensures
        b == day_branch_spec(jd as int),
{
    let r = (jd as i64 + 1) % 12;
    let r = if r < 0 {
        r + 12
    } else {
        r
    };
    EarthlyBranch::from_index(r as u8)
}

fn is_hoang_dao(lunar_month: u8, branch: EarthlyBranch) -> (r: bool)
    ensures
        r == is_hoang_dao_spec(lunar_month as int, branch),
{
    match lunar_month {
        1 | 7 => branch == EarthlyBranch::Ty || branch == EarthlyBranch::Suu || branch
            == EarthlyBranch::Ty2 || branch == EarthlyBranch::Mui,
        2 | 8 => branch == EarthlyBranch::Dan || branch == EarthlyBranch::Mao || branch
            == EarthlyBranch::Ngo || branch == EarthlyBranch::Than,
        3 | 9 => branch == EarthlyBranch::Thin || branch == EarthlyBranch::Ty2 || branch
            == EarthlyBranch::Than || branch == EarthlyBranch::Tuat,
        4 | 10 => branch == EarthlyBranch::Ngo || branch == EarthlyBranch::Mui || branch
            == EarthlyBranch::Dau || branch == EarthlyBranch::Hoi,
        5 | 11 => branch == EarthlyBranch::Than || branch == EarthlyBranch::Dau || branch
            == EarthlyBranch::Hoi || branch == EarthlyBranch::Suu,
        6 | 12 => branch == EarthlyBranch::Tuat || branch == EarthlyBranch::Hoi || branch
            == EarthlyBranch::Dan || branch == EarthlyBranch::Thin,
        _ => false,
    }
}


/// Hoàng đạo days in a lunar month (non-leap month).
pub fn get_good_days(lunar_year: i32, lunar_month: u8, lunations: &Lunations) -> (r: Result<
    Vec<GoodDay>,
    LunarError,
>)
    requires
        lunations@.wf(),
    ensures
        match r {
            Ok(v) => good_days_spec(lunations@, lunar_year, lunar_month) == Ok::<
                Seq<(LunarDate, SolarDate, GoodDayCategory, Seq<char>)>,
                LunarError,
            >(v@.map_values(|g: GoodDay| good_day_fields(g))),
            Err(e) => good_days_spec(lunations@, lunar_year, lunar_month) == Err::<
                Seq<(LunarDate, SolarDate, GoodDayCategory, Seq<char>)>,
                LunarError,
            >(e),
        },
        r is Ok <==> (MIN_YEAR <= lunar_year <= MAX_YEAR && 1 <= lunar_month <= 12),
        r matches Ok(v) ==> forall|i: int|
            0 <= i < v@.len() ==> {
                let g = #[trigger] v@[i];
                &&& g.category == GoodDayCategory::HoangDao
                &&& g.lunar_date.year == lunar_year
                &&& g.lunar_date.month == lunar_month
                &&& !g.lunar_date.leap
                &&& lunations@.solar_to_lunar_spec(
                    g.solar_date.year,
                    g.solar_date.month,
                    g.solar_date.day,
                ) == Ok::<LunarDate, LunarError>(g.lunar_date)
                &&& is_hoang_dao_spec(
                    lunar_month as int,
                    day_branch_spec(
                        jd_spec(
                            g.solar_date.day as int,
                            g.solar_date.month as int,
                            g.solar_date.year as int,
                        ),
                    ),
                )
            },
{
    proof {
        lemma_good_days_defined(lunations@, lunar_year, lunar_month);
    }
    if lunar_year < MIN_YEAR || lunar_year > MAX_YEAR {
        return Err(LunarError::YearOutOfRange(lunar_year));
    }
    if !(1 <= lunar_month && lunar_month <= 12) {
        return Err(LunarError::InvalidLunarMonth(lunar_month));
    }
    let ghost t = lunations@;
    let ghost goal = good_days_scan(t, lunar_year, lunar_month, 1, Seq::empty());
    let mut good_days: Vec<GoodDay> = Vec::new();
    let mut day: u8 = 1;
    assert(good_days@.map_values(|g: GoodDay| good_day_fields(g)) =~= Seq::<
        (LunarDate, SolarDate, GoodDayCategory, Seq<char>),
    >::empty());
    while day <= 30
        invariant
            t == lunations@,
            t.wf(),
            1 <= day <= 31,
            MIN_YEAR <= lunar_year <= MAX_YEAR,
            1 <= lunar_month <= 12,
            goal == good_days_scan(t, lunar_year, lunar_month, 1, Seq::empty()),
            goal is Ok,
            goal == good_days_scan(
                t,
                lunar_year,
                lunar_month,
                day as int,
                good_days@.map_values(|g: GoodDay| good_day_fields(g)),
            ),
            forall|i: int|
                0 <= i < good_days@.len() ==> {
                    let g = #[trigger] good_days@[i];
                    &&& g.category == GoodDayCategory::HoangDao
                    &&& g.lunar_date.year == lunar_year
                    &&& g.lunar_date.month == lunar_month
                    &&& !g.lunar_date.leap
                    &&& t.solar_to_lunar_spec(
                        g.solar_date.year,
                        g.solar_date.month,
                        g.solar_date.day,
                    ) == Ok::<LunarDate, LunarError>(g.lunar_date)
                    &&& is_hoang_dao_spec(
                        lunar_month as int,
                        day_branch_spec(
                            jd_spec(
                                g.solar_date.day as int,
                                g.solar_date.month as int,
                                g.solar_date.year as int,
                            ),
                        ),
                    )
                },
        ensures
            goal == Ok::<Seq<(LunarDate, SolarDate, GoodDayCategory, Seq<char>)>, LunarError>(
                good_days@.map_values(|g: GoodDay| good_day_fields(g)),
            ),
        decreases 31 - day,
    {
        let solar = match lunar_to_solar(lunar_year, lunar_month, day, false, lunations) {
            Err(_) => {
                break ;
            },
            Ok(s) => s,
        };
        let lunar = match solar_to_lunar(solar.year, solar.month, solar.day, lunations) {
            Err(e) => {
                return Err(e);
            },
            Ok(l) => l,
        };
        if lunar.month != lunar_month || lunar.leap || lunar.year != lunar_year {
            break ;
        }
        proof {
            lemma_jd_in_range_small(solar.day as int, solar.month as int, solar.year as int);
        }
        let jd = jd_from_date(solar.day, solar.month, solar.year);
        let branch = day_branch_from_jd(jd);
        let ghost before = good_days@;
        if is_hoang_dao(lunar_month, branch) {
            let mut description = String::new();
            description.append("Ngày ");
            let name = lunar.vietnamese_name();
            description.append(name.as_str());
            description.append(" — ");
            description.append(GoodDayCategory::HoangDao.vietnamese());
            assert(description@ =~= good_day_description(lunar));
            good_days.push(
                GoodDay {
                    lunar_date: lunar,
                    solar_date: solar,
                    category: GoodDayCategory::HoangDao,
                    description,
                },
            );
            assert(good_days@.map_values(|g: GoodDay| good_day_fields(g)) =~= before.map_values(
                |g: GoodDay| good_day_fields(g),
            ).push(good_day_spec(lunar, solar)));
        }
        day += 1;
    }
    Ok(good_days)
}

/// The Gregorian date `lunar_to_solar` gives for day `d` of the month.
pub open spec fn day_date(t: LunationTable, y: i32, m: u8, d: int) -> SolarDate {
    t.lunar_to_solar_spec(y, m, d as u8, false)->Ok_0
}

/// The lunar date `solar_to_lunar` gives back for that Gregorian date.
pub open spec fn day_lunar(t: LunationTable, y: i32, m: u8, d: int) -> LunarDate {
    let s = day_date(t, y, m, d);
    t.solar_to_lunar_spec(s.year, s.month, s.day)->Ok_0
}

/// Day `d` of lunar month `m` (not leap) of year `y` exists: it converts to a
/// Gregorian date whose lunar date is in that month.
pub open spec fn day_in_month(t: LunationTable, y: i32, m: u8, d: int) -> bool {
    &&& 1 <= d <= 30
    &&& t.lunar_to_solar_spec(y, m, d as u8, false) is Ok
    &&& ({
        let s = day_date(t, y, m, d);
        t.solar_to_lunar_spec(s.year, s.month, s.day) is Ok
    })
    &&& day_lunar(t, y, m, d).month == m
    &&& !day_lunar(t, y, m, d).leap
    &&& day_lunar(t, y, m, d).year == y
}

/// The first day from `d` on that does not exist in the month (31 if all do).
pub open spec fn month_days_end(t: LunationTable, y: i32, m: u8, d: int) -> int
    decreases 31 - d,
{
    if d < 1 || d > 30 || !day_in_month(t, y, m, d) {
        d
    } else {
        month_days_end(t, y, m, d + 1)
    }
}

/// Day `d` of the month falls on a hoàng đạo branch.
pub open spec fn hoang_dao_day(t: LunationTable, y: i32, m: u8, d: int) -> bool {
    let s = day_date(t, y, m, d);
    is_hoang_dao_spec(m as int, day_branch_spec(jd_spec(s.day as int, s.month as int, s.year as int)))
}

/// The good-day record of day `d` of the month.
pub open spec fn day_record(t: LunationTable, y: i32, m: u8, d: int) -> (LunarDate, SolarDate, GoodDayCategory, Seq<char>) {
    good_day_spec(day_lunar(t, y, m, d), day_date(t, y, m, d))
}

/// The day of the month a good-day record is for, told from its Gregorian date.
pub open spec fn record_day(
    t: LunationTable,
    y: i32,
    m: u8,
    g: (LunarDate, SolarDate, GoodDayCategory, Seq<char>),
) -> int {
    jd_spec(g.1.day as int, g.1.month as int, g.1.year as int) - t.start(
        t.requested_lunation(y as int, m as int, false),
    ) + 1
}

proof fn lemma_month_days_end_bound(t: LunationTable, y: i32, m: u8, d: int)
    ensures
        month_days_end(t, y, m, d) >= d,
    decreases 31 - d,
{
    if !(d < 1 || d > 30 || !day_in_month(t, y, m, d)) {
        lemma_month_days_end_bound(t, y, m, d + 1);
    }
}

proof fn lemma_scan_contents(
    t: LunationTable,
    y: i32,
    m: u8,
    d: int,
    acc: Seq<(LunarDate, SolarDate, GoodDayCategory, Seq<char>)>,
)
    requires
        t.wf(),
        1 <= d <= 31,
    ensures
        good_days_scan(t, y, m, d, acc) matches Ok(r) ==> {
            &&& acc.len() <= r.len()
            &&& forall|k: int| 0 <= k < acc.len() ==> r[k] == acc[k]
            &&& forall|k: int|
                acc.len() <= k < r.len() ==> {
                    let e = record_day(t, y, m, #[trigger] r[k]);
                    &&& d <= e < month_days_end(t, y, m, d)
                    &&& hoang_dao_day(t, y, m, e)
                    &&& r[k] == day_record(t, y, m, e)
                }
            &&& forall|e: int|
                d <= e < month_days_end(t, y, m, d) && hoang_dao_day(t, y, m, e) ==> r.contains(
                    #[trigger] day_record(t, y, m, e),
                )
            &&& forall|i: int, j: int|
                acc.len() <= i < j < r.len() ==> jd_spec(
                    r[i].1.day as int,
                    r[i].1.month as int,
                    r[i].1.year as int,
                ) < jd_spec(r[j].1.day as int, r[j].1.month as int, r[j].1.year as int)
            &&& forall|k: int|
                acc.len() <= k < r.len() ==> jd_spec(
                    r[k].1.day as int,
                    r[k].1.month as int,
                    r[k].1.year as int,
                ) >= t.start(t.requested_lunation(y as int, m as int, false)) + d - 1
        },
    decreases 31 - d,
{
    if d <= 30 && day_in_month(t, y, m, d) {
        let s = day_date(t, y, m, d);
        let acc2 = if hoang_dao_day(t, y, m, d) {
            acc.push(day_record(t, y, m, d))
        } else {
            acc
        };
        assert(good_days_scan(t, y, m, d, acc) == good_days_scan(t, y, m, d + 1, acc2));
        lemma_scan_contents(t, y, m, d + 1, acc2);
        lemma_month_days_end_bound(t, y, m, d + 1);
        lemma_lunar_to_solar_day_number(t, y, m, d as u8, false);
        let base = t.start(t.requested_lunation(y as int, m as int, false));
        assert(jd_spec(s.day as int, s.month as int, s.year as int) == base + d - 1);
        if let Ok(r) = good_days_scan(t, y, m, d, acc) {
            assert(month_days_end(t, y, m, d) == month_days_end(t, y, m, d + 1));
            assert forall|k: int| 0 <= k < acc.len() implies r[k] == acc[k] by {
                assert(acc2[k] == acc[k]);
            }
            assert forall|k: int|
                acc.len() <= k < r.len() implies {
                    let e = record_day(t, y, m, #[trigger] r[k]);
                    &&& d <= e < month_days_end(t, y, m, d)
                    &&& hoang_dao_day(t, y, m, e)
                    &&& r[k] == day_record(t, y, m, e)
                } by {
                if k == acc.len() && hoang_dao_day(t, y, m, d) {
                    assert(r[k] == acc2[k]);
                    assert(r[k] == day_record(t, y, m, d));
                    assert(record_day(t, y, m, r[k]) == d);
                } else {
                    assert(acc2.len() <= k < r.len());
                    assert(good_days_scan(t, y, m, d + 1, acc2) == Ok::<
                        Seq<(LunarDate, SolarDate, GoodDayCategory, Seq<char>)>,
                        LunarError,
                    >(r));
                    let e = record_day(t, y, m, r[k]);
                    assert(d + 1 <= e < month_days_end(t, y, m, d + 1));
                }
            }
            assert forall|e: int|
                d <= e < month_days_end(t, y, m, d) && hoang_dao_day(t, y, m, e) implies r.contains(
                    #[trigger] day_record(t, y, m, e),
                ) by {
                if e == d {
                    assert(r[acc.len() as int] == acc2[acc.len() as int]);
                }
            }
            assert forall|k: int|
                acc.len() <= k < r.len() implies jd_spec(
                    r[k].1.day as int,
                    r[k].1.month as int,
                    r[k].1.year as int,
                ) >= base + d - 1 by {
                if k == acc.len() && hoang_dao_day(t, y, m, d) {
                    assert(r[k] == acc2[k]);
                }
            }
            assert forall|i: int, j: int|
                acc.len() <= i < j < r.len() implies jd_spec(
                    r[i].1.day as int,
                    r[i].1.month as int,
                    r[i].1.year as int,
                ) < jd_spec(r[j].1.day as int, r[j].1.month as int, r[j].1.year as int) by {
                if i == acc.len() && hoang_dao_day(t, y, m, d) {
                    assert(r[i] == acc2[i]);
                }
            }
        }
    }
}

/// The good days of a lunar month are exactly the hoàng đạo days among the days
/// that exist in the month (the days from 1 up to the first that does not), in
/// increasing date order.
pub proof fn lemma_good_days_are_hoang_dao_days(t: LunationTable, y: i32, m: u8)
    requires
        t.wf(),
    ensures
        good_days_spec(t, y, m) matches Ok(v) ==> {
            &&& forall|k: int|
                0 <= k < v.len() ==> {
                    let e = record_day(t, y, m, #[trigger] v[k]);
                    &&& 1 <= e < month_days_end(t, y, m, 1)
                    &&& hoang_dao_day(t, y, m, e)
                    &&& v[k] == day_record(t, y, m, e)
                }
            &&& forall|e: int|
                1 <= e < month_days_end(t, y, m, 1) && hoang_dao_day(t, y, m, e) ==> v.contains(
                    #[trigger] day_record(t, y, m, e),
                )
            &&& forall|i: int, j: int|
                0 <= i < j < v.len() ==> jd_spec(
                    v[i].1.day as int,
                    v[i].1.month as int,
                    v[i].1.year as int,
                ) < jd_spec(v[j].1.day as int, v[j].1.month as int, v[j].1.year as int)
        },
{
    lemma_scan_contents(t, y, m, 1, Seq::empty());
}

/// A day of a lunar month that converts to a Gregorian date is in the month:
/// it converts back to that very lunar date.
proof fn lemma_day_in_month_of_ok(t: LunationTable, y: i32, m: u8, d: int)
    requires
        t.wf(),
        1 <= d <= 30,
        t.lunar_to_solar_spec(y, m, d as u8, false) is Ok,
    ensures
        day_in_month(t, y, m, d),
        day_lunar(t, y, m, d) == lunar_date(y, m, d as u8, false),
{
    lemma_lunar_solar_round_trip(t, y, m, d as u8, false);
}

/// The days of a lunar month that exist are those from 1 up to its last day.
proof fn lemma_day_in_month_prefix(t: LunationTable, y: i32, m: u8, d: int, e: int)
    requires
        t.wf(),
        1 <= d <= e,
        day_in_month(t, y, m, e),
    ensures
        day_in_month(t, y, m, d),
    decreases e - d,
{
    if d < e {
        lemma_lunar_previous_day(t, y, m, (e - 1) as u8, false);
        lemma_day_in_month_of_ok(t, y, m, e - 1);
        lemma_day_in_month_prefix(t, y, m, d, e - 1);
    }
}

proof fn lemma_month_days_end_after(t: LunationTable, y: i32, m: u8, d: int, e: int)
    requires
        t.wf(),
        1 <= d <= e,
        day_in_month(t, y, m, e),
    ensures
        e < month_days_end(t, y, m, d),
    decreases e - d,
{
    lemma_day_in_month_prefix(t, y, m, d, e);
    if d < e {
        lemma_month_days_end_after(t, y, m, d + 1, e);
    } else {
        lemma_month_days_end_bound(t, y, m, d + 1);
    }
}

proof fn lemma_scan_ok(
    t: LunationTable,
    y: i32,
    m: u8,
    d: int,
    acc: Seq<(LunarDate, SolarDate, GoodDayCategory, Seq<char>)>,
)
    requires
        t.wf(),
    ensures
        good_days_scan(t, y, m, d, acc) is Ok,
    decreases 31 - d,
{
    if 1 <= d <= 30 {
        if t.lunar_to_solar_spec(y, m, d as u8, false) is Ok {
            lemma_lunar_to_solar_valid(t, y, m, d as u8, false);
            lemma_day_in_month_of_ok(t, y, m, d);
            let s = day_date(t, y, m, d);
            let l = day_lunar(t, y, m, d);
            let acc2 = if is_hoang_dao_spec(m as int, day_branch_spec(jd_spec(s.day as int, s.month as int, s.year as int))) {
                acc.push(good_day_spec(l, s))
            } else {
                acc
            };
            lemma_scan_ok(t, y, m, d + 1, acc2);
        }
    }
}

/// `get_good_days` answers every lunar month of the supported range, and
/// refuses a year out of range or a month out of 1..12.
pub proof fn lemma_good_days_defined(t: LunationTable, y: i32, m: u8)
    requires
        t.wf(),
    ensures
        good_days_spec(t, y, m) is Ok <==> (MIN_YEAR <= y <= MAX_YEAR && 1 <= m <= 12),
{
    lemma_scan_ok(t, y, m, 1, Seq::empty());
}

/// The good days of a lunar month are exactly its hoàng đạo days: every day
/// `d` (1 to 30) that converts to a Gregorian date whose lunar date is in the
/// month is listed when its branch is hoàng đạo; every listed day is such a
/// day, with its own lunar date `(y, m, d)`; and they come in increasing order
/// of the lunar day.
pub proof fn lemma_good_days_every_day(t: LunationTable, y: i32, m: u8)
    requires
        t.wf(),
    ensures
        good_days_spec(t, y, m) matches Ok(v) ==> {
            &&& forall|d: int|
                1 <= d <= 30 && day_in_month(t, y, m, d) && hoang_dao_day(t, y, m, d) ==> v.contains(
                    #[trigger] day_record(t, y, m, d),
                )
            &&& forall|k: int|
                0 <= k < v.len() ==> {
                    let e = record_day(t, y, m, #[trigger] v[k]);
                    &&& 1 <= e <= 30
                    &&& day_in_month(t, y, m, e)
                    &&& hoang_dao_day(t, y, m, e)
                    &&& v[k] == day_record(t, y, m, e)
                    &&& v[k].0 == lunar_date(y, m, e as u8, false)
                }
            &&& forall|i: int, j: int| 0 <= i < j < v.len() ==> (#[trigger] v[i]).0.day < (#[trigger] v[j]).0.day
        },
{
    lemma_good_days_are_hoang_dao_days(t, y, m);
    if let Ok(v) = good_days_spec(t, y, m) {
        assert(good_days_spec(t, y, m) == good_days_scan(t, y, m, 1, Seq::empty()));
        assert forall|d: int|
            1 <= d <= 30 && day_in_month(t, y, m, d) && hoang_dao_day(t, y, m, d) implies v.contains(
                #[trigger] day_record(t, y, m, d),
            ) by {
            lemma_month_days_end_after(t, y, m, 1, d);
        }
        assert forall|k: int| 0 <= k < v.len() implies {
            let e = record_day(t, y, m, #[trigger] v[k]);
            &&& 1 <= e <= 30
            &&& day_in_month(t, y, m, e)
            &&& hoang_dao_day(t, y, m, e)
            &&& v[k] == day_record(t, y, m, e)
            &&& v[k].0 == lunar_date(y, m, e as u8, false)
        } by {
            let e = record_day(t, y, m, v[k]);
            lemma_month_days_end_bound(t, y, m, 1);
            assert(1 <= e < month_days_end(t, y, m, 1));
            lemma_days_before_end(t, y, m, 1, e);
            lemma_day_in_month_of_ok(t, y, m, e);
        }
        assert forall|i: int, j: int| 0 <= i < j < v.len() implies (#[trigger] v[i]).0.day < (#[trigger] v[j]).0.day by {
            let ei = record_day(t, y, m, v[i]);
            let ej = record_day(t, y, m, v[j]);
            lemma_month_days_end_bound(t, y, m, 1);
            lemma_days_before_end(t, y, m, 1, ei);
            lemma_days_before_end(t, y, m, 1, ej);
            lemma_day_in_month_of_ok(t, y, m, ei);
            lemma_day_in_month_of_ok(t, y, m, ej);
        }
    }
}

/// The days before the first missing day of the month exist and are at most 30.
proof fn lemma_days_before_end(t: LunationTable, y: i32, m: u8, d: int, e: int)
    requires
        1 <= d <= e < month_days_end(t, y, m, d),
    ensures
        day_in_month(t, y, m, e),
    decreases e - d,
{
    if d < e {
        lemma_days_before_end(t, y, m, d + 1, e);
    }
}

/// Hoàng đạo day branches by lunar month, as branch positions (Tý = 0, Sửu = 1,
/// Dần = 2, Mão = 3, Thìn = 4, Tỵ = 5, Ngọ = 6, Mùi = 7, Thân = 8, Dậu = 9,
/// Tuất = 10, Hợi = 11): months 1 and 7 Tý, Sửu, Tỵ, Mùi; 2 and 8 Dần, Mão,
/// Ngọ, Thân; 3 and 9 Thìn, Tỵ, Thân, Tuất; 4 and 10 Ngọ, Mùi, Dậu, Hợi; 5 and
/// 11 Thân, Dậu, Hợi, Sửu; 6 and 12 Tuất, Hợi, Dần, Thìn.
pub open spec fn hoang_dao_position(month: int, r: int) -> bool {
    ||| (month == 1 || month == 7) && (r == 0 || r == 1 || r == 5 || r == 7)
    ||| (month == 2 || month == 8) && (r == 2 || r == 3 || r == 6 || r == 8)
    ||| (month == 3 || month == 9) && (r == 4 || r == 5 || r == 8 || r == 10)
    ||| (month == 4 || month == 10) && (r == 6 || r == 7 || r == 9 || r == 11)
    ||| (month == 5 || month == 11) && (r == 8 || r == 9 || r == 11 || r == 1)
    ||| (month == 6 || month == 12) && (r == 10 || r == 11 || r == 2 || r == 4)
}

/// A day's branch is hoàng đạo for a month exactly when its position is in the
/// month's row of the table.
pub proof fn lemma_hoang_dao_table(month: int, r: int)
    requires
        0 <= r < 12,
    ensures
        is_hoang_dao_spec(month, branch_at(r)) == hoang_dao_position(month, r),
{
    if r == 0 {
    } else if r == 1 {
    } else if r == 2 {
    } else if r == 3 {
    } else if r == 4 {
    } else if r == 5 {
    } else if r == 6 {
    } else if r == 7 {
    } else if r == 8 {
    } else if r == 9 {
    } else if r == 10 {
    } else {
        assert(r == 11);
    }
}

/// The good days of a lunar month: a day `d` of the month (one that converts to
/// a Gregorian date and back into the month) is listed exactly when the branch
/// of its day number `jd`, the position `(jd + 1) mod 12` counted from Tý, is in
/// the month's row of the hoàng đạo table.
pub proof fn lemma_good_days_by_branch(t: LunationTable, y: i32, m: u8)
    requires
        t.wf(),
    ensures
        good_days_spec(t, y, m) matches Ok(v) ==> forall|d: int|
            1 <= d <= 30 && day_in_month(t, y, m, d) ==> (v.contains(#[trigger] day_record(t, y, m, d))
                <==> hoang_dao_position(
                m as int,
                (jd_spec(day_date(t, y, m, d).day as int, day_date(t, y, m, d).month as int, day_date(
                    t,
                    y,
                    m,
                    d,
                ).year as int) + 1) % 12,
            )),
{
    lemma_good_days_every_day(t, y, m);
    if let Ok(v) = good_days_spec(t, y, m) {
        assert forall|d: int| 1 <= d <= 30 && day_in_month(t, y, m, d) implies (v.contains(
            #[trigger] day_record(t, y, m, d),
        ) <==> hoang_dao_position(
            m as int,
            (jd_spec(day_date(t, y, m, d).day as int, day_date(t, y, m, d).month as int, day_date(
                t,
                y,
                m,
                d,
            ).year as int) + 1) % 12,
        )) by {
            let s = day_date(t, y, m, d);
            let jd = jd_spec(s.day as int, s.month as int, s.year as int);
            lemma_lunar_to_solar_valid(t, y, m, d as u8, false);
            lemma_lunar_to_solar_day_number(t, y, m, d as u8, false);
            crate::gregorian::lemma_jd_in_year(s.day as int, s.month as int, s.year as int);
            assert(jd >= 0);
            lemma_hoang_dao_table(m as int, (jd + 1) % 12);
            assert(hoang_dao_day(t, y, m, d) == hoang_dao_position(m as int, (jd + 1) % 12));
            assert(record_day(t, y, m, day_record(t, y, m, d)) == d);
            if v.contains(day_record(t, y, m, d)) {
                let k = choose|k: int| 0 <= k < v.len() && v[k] == day_record(t, y, m, d);
                assert(record_day(t, y, m, v[k]) == d);
            }
        }
    }
}

} // verus!
