//! Vietnamese civil and traditional holidays of a Gregorian year.
use vstd::prelude::*;

use crate::error::{LunarError, MAX_YEAR, MIN_YEAR};
use crate::gregorian::{
    date_of_jd, is_valid_date, jd_from_date, jd_spec, jd_to_date, lemma_jd_in_range_small, solar_date_text,
    SolarDate,
};
use crate::lunar_date::{lunar_date, lunar_date_text, LunarDate};
use crate::lunisolar::{lemma_lunar_solar_round_trip, lemma_lunar_to_solar_day_number, lemma_new_year, lemma_lunar_to_solar_ok, lunar_to_solar, solar_to_lunar, LunationTable, Lunations};

verus! {

/// Holiday names (civil + traditional).
#[derive(Debug, Clone, Copy, PartialEq, Eq, Hash, Structural)]
pub enum HolidayName {
    TetNguyenDan,
    TetNguyenTieu,
    GioToHungVuong,
    LeNgayQuocTe,
    LeGiaiPhong,
    QuocKhanh,
    VuLan,
    TrungThu,
    PhatDan,
    Christmas,
    NewYear,
    Valentine,
    PhuNuVietNam,
    GiaoThua,
}

/// Vietnamese holiday.
#[derive(Debug, Clone, PartialEq, Eq, Structural)]
pub struct Holiday {
    pub name: HolidayName,
    pub solar_date: SolarDate,
    pub lunar_date: LunarDate,
    pub is_public_holiday: bool,
}

pub open spec fn holiday_name_text(n: HolidayName) -> Seq<char> {
    match n {
        HolidayName::TetNguyenDan => "Tết Nguyên Đán"@,
        HolidayName::TetNguyenTieu => "Tết Nguyên Tiêu"@,
        HolidayName::GioToHungVuong => "Giỗ Tổ Hùng Vương"@,
        HolidayName::LeNgayQuocTe => "Ngày Quốc tế Lao động"@,
        HolidayName::LeGiaiPhong => "Ngày Giải phóng miền Nam"@,
        HolidayName::QuocKhanh => "Ngày Quốc khánh"@,
        HolidayName::VuLan => "Vu Lan (Lễ báo hiếu)"@,
        HolidayName::TrungThu => "Tết Trung Thu"@,
        HolidayName::PhatDan => "Lễ Phật Đản"@,
        HolidayName::Christmas => "Giáng sinh"@,
        HolidayName::NewYear => "Năm mới dương lịch"@,
        HolidayName::Valentine => "Valentine"@,
        HolidayName::PhuNuVietNam => "Ngày Phụ nữ Việt Nam"@,
        HolidayName::GiaoThua => "Giao thừa"@,
    }
}

/// `Name - YYYY-MM-DD (ÂM: YYYY-MM-DD[L])`.
pub open spec fn holiday_text(h: Holiday) -> Seq<char> {
    holiday_name_text(h.name) + " - "@ + solar_date_text(h.solar_date) + " (ÂM: "@
        + lunar_date_text(h.lunar_date) + ")"@
}

impl HolidayName {
    pub fn vietnamese(&self) -> (s: &'static str)
        ensures
            s@ == holiday_name_text(*self),
    {
        match self {
            HolidayName::TetNguyenDan => "Tết Nguyên Đán",
            HolidayName::TetNguyenTieu => "Tết Nguyên Tiêu",
            HolidayName::GioToHungVuong => "Giỗ Tổ Hùng Vương",
            HolidayName::LeNgayQuocTe => "Ngày Quốc tế Lao động",
            HolidayName::LeGiaiPhong => "Ngày Giải phóng miền Nam",
            HolidayName::QuocKhanh => "Ngày Quốc khánh",
            HolidayName::VuLan => "Vu Lan (Lễ báo hiếu)",
            HolidayName::TrungThu => "Tết Trung Thu",
            HolidayName::PhatDan => "Lễ Phật Đản",
            HolidayName::Christmas => "Giáng sinh",
            HolidayName::NewYear => "Năm mới dương lịch",
            HolidayName::Valentine => "Valentine",
            HolidayName::PhuNuVietNam => "Ngày Phụ nữ Việt Nam",
            HolidayName::GiaoThua => "Giao thừa",
        }
    }
}

impl Holiday {
    /// `Name - YYYY-MM-DD (ÂM: YYYY-MM-DD[L])`.
    pub fn to_string(&self) -> (s: String)
        ensures
            s@ == holiday_text(*self),
    {
        let mut s = String::from_str(self.name.vietnamese());
        s.append(" - ");
        self.solar_date.push_text(&mut s);
        s.append(" (ÂM: ");
        self.lunar_date.push_text(&mut s);
        s.append(")");
        assert(s@ =~= holiday_text(*self));
        s
    }
}

/// Holidays fixed in the Gregorian calendar: month, day, name, public holiday.
pub open spec fn solar_fixed_holidays() -> Seq<(u8, u8, HolidayName, bool)> {
    seq![
        (1u8, 1u8, HolidayName::NewYear, true),
        (2u8, 14u8, HolidayName::Valentine, false),
        (4u8, 30u8, HolidayName::LeGiaiPhong, true),
        (5u8, 1u8, HolidayName::LeNgayQuocTe, true),
        (9u8, 2u8, HolidayName::QuocKhanh, true),
        (10u8, 20u8, HolidayName::PhuNuVietNam, false),
        (12u8, 25u8, HolidayName::Christmas, false),
    ]
}

/// The three days of Tết: lunar month, day, name, public holiday.
pub open spec fn tet_days() -> Seq<(u8, u8, HolidayName, bool)> {
    seq![
        (1u8, 1u8, HolidayName::TetNguyenDan, true),
        (1u8, 2u8, HolidayName::TetNguyenDan, true),
        (1u8, 3u8, HolidayName::TetNguyenDan, true),
    ]
}

/// Holidays fixed in the lunar calendar: lunar month, day, name, public holiday.
pub open spec fn lunar_fixed_holidays() -> Seq<(u8, u8, HolidayName, bool)> {
    seq![
        (1u8, 15u8, HolidayName::TetNguyenTieu, false),
        (3u8, 10u8, HolidayName::GioToHungVuong, true),
        (4u8, 15u8, HolidayName::PhatDan, false),
        (7u8, 15u8, HolidayName::VuLan, false),
        (8u8, 15u8, HolidayName::TrungThu, false),
    ]
}

/// A holiday on a Gregorian date, with its lunar date.
pub open spec fn holiday_spec(t: LunationTable, name: HolidayName, solar: SolarDate, public: bool) -> Result<
    Holiday,
    LunarError,
> {
    match t.solar_to_lunar_spec(solar.year, solar.month, solar.day) {
        Err(e) => Err(e),
        Ok(l) => Ok(Holiday { name, solar_date: solar, lunar_date: l, is_public_holiday: public }),
    }
}

/// Appends the holidays `entries[i..]`, fixed in the Gregorian calendar, to `acc`.
pub open spec fn collect_solar(
    t: LunationTable,
    year: i32,
    entries: Seq<(u8, u8, HolidayName, bool)>,
    i: int,
    acc: Seq<Holiday>,
) -> Result<Seq<Holiday>, LunarError>
    decreases entries.len() - i,
{
    if i >= entries.len() || i < 0 {
        Ok(acc)
    } else {
        let (m, d, name, public) = entries[i];
        match holiday_spec(t, name, SolarDate { year, month: m, day: d }, public) {
            Err(e) => Err(e),
            Ok(h) => collect_solar(t, year, entries, i + 1, acc.push(h)),
        }
    }
}

/// Appends the holidays `entries[i..]`, fixed in the lunar calendar of `year`,
/// whose Gregorian date falls in `year`, to `acc`.
pub open spec fn collect_lunar(
    t: LunationTable,
    year: i32,
    entries: Seq<(u8, u8, HolidayName, bool)>,
    i: int,
    acc: Seq<Holiday>,
) -> Result<Seq<Holiday>, LunarError>
    decreases entries.len() - i,
{
    if i >= entries.len() || i < 0 {
        Ok(acc)
    } else {
        let (m, d, name, public) = entries[i];
        match t.lunar_to_solar_spec(year, m, d, false) {
            Err(e) => Err(e),
            Ok(s) => if s.year == year {
                match holiday_spec(t, name, s, public) {
                    Err(e) => Err(e),
                    Ok(h) => collect_lunar(t, year, entries, i + 1, acc.push(h)),
                }
            } else {
                collect_lunar(t, year, entries, i + 1, acc)
            },
        }
    }
}

/// The eve of Tết: the day before Tết, the last day of the previous lunar year.
pub open spec fn giao_thua_spec(t: LunationTable, year: i32) -> Result<SolarDate, LunarError> {
    match t.lunar_to_solar_spec(year, 1, 1, false) {
        Err(e) => Err(e),
        Ok(tet) => Ok(date_of_jd(jd_spec(tet.day as int, tet.month as int, tet.year as int) - 1)),
    }
}

/// The holidays of `year` up to the eve of Tết, appended to `b`: the eve is
/// listed when it falls in `year`.
pub open spec fn with_giao_thua(t: LunationTable, year: i32, b: Seq<Holiday>) -> Result<Seq<Holiday>, LunarError> {
    match giao_thua_spec(t, year) {
        Err(e) => Err(e),
        Ok(g) => if g.year == year {
            match holiday_spec(t, HolidayName::GiaoThua, g, true) {
                Err(e) => Err(e),
                Ok(h) => Ok(b.push(h)),
            }
        } else {
            Ok(b)
        },
    }
}

/// The holidays of `year` in the order they are listed: Gregorian ones, Tết,
/// the eve of Tết, the other lunar ones.
pub open spec fn holidays_unsorted(t: LunationTable, year: i32) -> Result<Seq<Holiday>, LunarError> {
    match collect_solar(t, year, solar_fixed_holidays(), 0, Seq::empty()) {
        Err(e) => Err(e),
        Ok(a) => match collect_lunar(t, year, tet_days(), 0, a) {
            Err(e) => Err(e),
            Ok(b) => match with_giao_thua(t, year, b) {
                Err(e) => Err(e),
                Ok(c) => collect_lunar(t, year, lunar_fixed_holidays(), 0, c),
            },
        },
    }
}

/// Gregorian dates in calendar order.
pub open spec fn date_le(a: SolarDate, b: SolarDate) -> bool {
    a.year < b.year || (a.year == b.year && (a.month < b.month || (a.month == b.month && a.day
        <= b.day)))
}

/// Number of leading holidays of `s` dated no later than `d`.
pub open spec fn insertion_point(s: Seq<Holiday>, d: SolarDate) -> int
    decreases s.len(),
{
    if s.len() == 0 || !date_le(s[0].solar_date, d) {
        0
    } else {
        1 + insertion_point(s.drop_first(), d)
    }
}

/// Holidays sorted by date, keeping the listed order among those of the same
/// date (a stable insertion sort).
pub open spec fn sort_by_date(s: Seq<Holiday>) -> Seq<Holiday>
    decreases s.len(),
{
    if s.len() == 0 {
        s
    } else {
        let sorted = sort_by_date(s.drop_last());
        sorted.insert(insertion_point(sorted, s.last().solar_date), s.last())
    }
}

/// What `get_vietnam_holidays` answers.
pub open spec fn holidays_spec(t: LunationTable, year: i32) -> Result<Seq<Holiday>, LunarError> {
    if year < MIN_YEAR || year > MAX_YEAR {
        Err(LunarError::YearOutOfRange(year))
    } else {
        match holidays_unsorted(t, year) {
            Err(e) => Err(e),
            Ok(s) => Ok(sort_by_date(s)),
        }
    }
}


fn holiday(name: HolidayName, solar: SolarDate, is_public: bool, lunations: &Lunations) -> (r:
    Result<Holiday, LunarError>)
    requires
        lunations@.wf(),
    ensures
        r == holiday_spec(lunations@, name, solar, is_public),
{
    let lunar = match solar_to_lunar(solar.year, solar.month, solar.day, lunations) {
        Err(e) => {
            return Err(e);
        },
        Ok(l) => l,
    };
    Ok(Holiday { name, solar_date: solar, lunar_date: lunar, is_public_holiday: is_public })
}

fn push_solar_holidays(
    year: i32,
    entries: &Vec<(u8, u8, HolidayName, bool)>,
    holidays: &mut Vec<Holiday>,
    lunations: &Lunations,
) -> (r: Result<(), LunarError>)
    requires
        lunations@.wf(),
    ensures
        match r {
            Ok(_) => collect_solar(lunations@, year, entries@, 0, old(holidays)@) == Ok::<
                Seq<Holiday>,
                LunarError,
            >(final(holidays)@),
            Err(e) => collect_solar(lunations@, year, entries@, 0, old(holidays)@) == Err::<
                Seq<Holiday>,
                LunarError,
            >(e),
        },
{
    let ghost goal = collect_solar(lunations@, year, entries@, 0, holidays@);
    let mut i: usize = 0;
    while i < entries.len()
        invariant
            lunations@.wf(),
            i <= entries@.len(),
            goal == collect_solar(lunations@, year, entries@, i as int, holidays@),
            goal == collect_solar(lunations@, year, entries@, 0, old(holidays)@),
        decreases entries@.len() - i,
    {
        let (m, d, name, public) = entries[i];
        let h = match holiday(name, SolarDate::new(year, m, d), public, lunations) {
            Err(e) => {
                return Err(e);
            },
            Ok(h) => h,
        };
        holidays.push(h);
        i += 1;
    }
    Ok(())
}

fn push_lunar_holidays(
    year: i32,
    entries: &Vec<(u8, u8, HolidayName, bool)>,
    holidays: &mut Vec<Holiday>,
    lunations: &Lunations,
) -> (r: Result<(), LunarError>)
    requires
        lunations@.wf(),
    ensures
        match r {
            Ok(_) => collect_lunar(lunations@, year, entries@, 0, old(holidays)@) == Ok::<
                Seq<Holiday>,
                LunarError,
            >(final(holidays)@),
            Err(e) => collect_lunar(lunations@, year, entries@, 0, old(holidays)@) == Err::<
                Seq<Holiday>,
                LunarError,
            >(e),
        },
{
    let ghost goal = collect_lunar(lunations@, year, entries@, 0, holidays@);
    let mut i: usize = 0;
    while i < entries.len()
        invariant
            lunations@.wf(),
            i <= entries@.len(),
            goal == collect_lunar(lunations@, year, entries@, i as int, holidays@),
            goal == collect_lunar(lunations@, year, entries@, 0, old(holidays)@),
        decreases entries@.len() - i,
    {
        let (m, d, name, public) = entries[i];
        let solar = match lunar_to_solar(year, m, d, false, lunations) {
            Err(e) => {
                return Err(e);
            },
            Ok(s) => s,
        };
        if solar.year == year {
            let h = match holiday(name, solar, public, lunations) {
                Err(e) => {
                    return Err(e);
                },
                Ok(h) => h,
            };
            holidays.push(h);
        }
        i += 1;
    }
    Ok(())
}

fn date_le_exec(a: &SolarDate, b: &SolarDate) -> (r: bool)
    ensures
        r == date_le(*a, *b),
{
    a.year < b.year || (a.year == b.year && (a.month < b.month || (a.month == b.month && a.day
        <= b.day)))
}

fn insertion_index(sorted: &Vec<Holiday>, d: &SolarDate) -> (i: usize)
    ensures
        i as int == insertion_point(sorted@, *d),
{
    let mut i: usize = 0;
    assert(sorted@.subrange(0, sorted@.len() as int) =~= sorted@);
    while i < sorted.len() && date_le_exec(&sorted[i].solar_date, d)
        invariant
            i <= sorted@.len(),
            insertion_point(sorted@, *d) == i + insertion_point(
                sorted@.subrange(i as int, sorted@.len() as int),
                *d,
            ),
        decreases sorted@.len() - i,
    {
        assert(sorted@.subrange(i as int, sorted@.len() as int).drop_first() =~= sorted@.subrange(
            i + 1,
            sorted@.len() as int,
        ));
        i += 1;
    }
    i
}


proof fn lemma_insertion_point_bound(s: Seq<Holiday>, d: SolarDate)
    ensures
        0 <= insertion_point(s, d) <= s.len(),
    decreases s.len(),
{
    if s.len() > 0 {
        lemma_insertion_point_bound(s.drop_first(), d);
    }
}


/// Holidays in date order.
pub open spec fn sorted_by_date(s: Seq<Holiday>) -> bool {
    forall|i: int, j: int| 0 <= i < j < s.len() ==> date_le(#[trigger] s[i].solar_date, #[trigger] s[j].solar_date)
}

proof fn lemma_insertion_point(s: Seq<Holiday>, d: SolarDate)
    ensures
        0 <= insertion_point(s, d) <= s.len(),
        forall|i: int| 0 <= i < insertion_point(s, d) ==> date_le(#[trigger] s[i].solar_date, d),
        insertion_point(s, d) < s.len() ==> !date_le(s[insertion_point(s, d)].solar_date, d),
    decreases s.len(),
{
    if s.len() > 0 && date_le(s[0].solar_date, d) {
        lemma_insertion_point(s.drop_first(), d);
        assert forall|i: int| 0 <= i < insertion_point(s, d) implies date_le(#[trigger] s[i].solar_date, d) by {
            if i > 0 {
                assert(s[i] == s.drop_first()[i - 1]);
            }
        }
    }
}

/// Sorting by date gives holidays in date order.
pub proof fn lemma_sort_by_date_sorted(s: Seq<Holiday>)
    ensures
        sorted_by_date(sort_by_date(s)),
        sort_by_date(s).len() == s.len(),
    decreases s.len(),
{
    if s.len() > 0 {
        let sorted = sort_by_date(s.drop_last());
        lemma_sort_by_date_sorted(s.drop_last());
        let h = s.last();
        let d = h.solar_date;
        let p = insertion_point(sorted, d);
        lemma_insertion_point(sorted, d);
        let r = sorted.insert(p, h);
        assert forall|i: int, j: int| 0 <= i < j < r.len() implies date_le(#[trigger] r[i].solar_date, #[trigger] r[j].solar_date) by {
            if j < p {
                assert(r[i] == sorted[i] && r[j] == sorted[j]);
            } else if j == p {
                assert(r[i] == sorted[i]);
            } else if i < p {
                assert(r[i] == sorted[i] && r[j] == sorted[j - 1]);
                assert(date_le(sorted[i].solar_date, sorted[j - 1].solar_date));
            } else if i == p {
                assert(r[j] == sorted[j - 1]);
                assert(!date_le(sorted[p].solar_date, d));
                if j - 1 > p {
                    assert(date_le(sorted[p].solar_date, sorted[j - 1].solar_date));
                }
            } else {
                assert(r[i] == sorted[i - 1] && r[j] == sorted[j - 1]);
            }
        }
    }
}


/// A holiday dated in `year`, with the lunar date of its Gregorian date.
pub open spec fn holiday_in_year(t: LunationTable, year: i32, h: Holiday) -> bool {
    &&& h.solar_date.year == year
    &&& t.solar_to_lunar_spec(h.solar_date.year, h.solar_date.month, h.solar_date.day) == Ok::<
        LunarDate,
        LunarError,
    >(h.lunar_date)
}

proof fn lemma_collect_solar_in_year(
    t: LunationTable,
    year: i32,
    entries: Seq<(u8, u8, HolidayName, bool)>,
    i: int,
    acc: Seq<Holiday>,
)
    requires
        forall|k: int| 0 <= k < acc.len() ==> holiday_in_year(t, year, #[trigger] acc[k]),
    ensures
        collect_solar(t, year, entries, i, acc) matches Ok(r) ==> forall|k: int|
            0 <= k < r.len() ==> holiday_in_year(t, year, #[trigger] r[k]),
    decreases entries.len() - i,
{
    if 0 <= i < entries.len() {
        let (m, d, name, public) = entries[i];
        match holiday_spec(t, name, SolarDate { year, month: m, day: d }, public) {
            Err(_) => {},
            Ok(h) => {
                let acc2 = acc.push(h);
                assert forall|k: int| 0 <= k < acc2.len() implies holiday_in_year(t, year, #[trigger] acc2[k]) by {
                    if k < acc.len() {
                        assert(acc2[k] == acc[k]);
                    }
                }
                lemma_collect_solar_in_year(t, year, entries, i + 1, acc2);
            },
        }
    }
}

proof fn lemma_collect_lunar_in_year(
    t: LunationTable,
    year: i32,
    entries: Seq<(u8, u8, HolidayName, bool)>,
    i: int,
    acc: Seq<Holiday>,
)
    requires
        forall|k: int| 0 <= k < acc.len() ==> holiday_in_year(t, year, #[trigger] acc[k]),
    ensures
        collect_lunar(t, year, entries, i, acc) matches Ok(r) ==> forall|k: int|
            0 <= k < r.len() ==> holiday_in_year(t, year, #[trigger] r[k]),
    decreases entries.len() - i,
{
    if 0 <= i < entries.len() {
        let (m, d, name, public) = entries[i];
        match t.lunar_to_solar_spec(year, m, d, false) {
            Err(_) => {},
            Ok(s) => {
                if s.year == year {
                    match holiday_spec(t, name, s, public) {
                        Err(_) => {},
                        Ok(h) => {
                            let acc2 = acc.push(h);
                            assert forall|k: int| 0 <= k < acc2.len() implies holiday_in_year(t, year, #[trigger] acc2[k]) by {
                                if k < acc.len() {
                                    assert(acc2[k] == acc[k]);
                                }
                            }
                            lemma_collect_lunar_in_year(t, year, entries, i + 1, acc2);
                        },
                    }
                } else {
                    lemma_collect_lunar_in_year(t, year, entries, i + 1, acc);
                }
            },
        }
    }
}

/// Sorting keeps exactly the holidays it is given.
proof fn lemma_sort_by_date_elements(s: Seq<Holiday>)
    ensures
        forall|k: int| 0 <= k < sort_by_date(s).len() ==> s.contains(#[trigger] sort_by_date(s)[k]),
    decreases s.len(),
{
    if s.len() > 0 {
        let prefix = s.drop_last();
        lemma_sort_by_date_elements(prefix);
        lemma_sort_by_date_sorted(prefix);
        let sorted = sort_by_date(prefix);
        let p = insertion_point(sorted, s.last().solar_date);
        lemma_insertion_point(sorted, s.last().solar_date);
        let r = sorted.insert(p, s.last());
        assert forall|k: int| 0 <= k < r.len() implies s.contains(#[trigger] r[k]) by {
            if k < p {
                assert(r[k] == sorted[k]);
                let j = choose|j: int| 0 <= j < prefix.len() && prefix[j] == sorted[k];
                assert(s[j] == prefix[j]);
            } else if k == p {
                assert(s[s.len() - 1] == s.last());
            } else {
                assert(r[k] == sorted[k - 1]);
                let j = choose|j: int| 0 <= j < prefix.len() && prefix[j] == sorted[k - 1];
                assert(s[j] == prefix[j]);
            }
        }
    }
}

/// Every holiday listed for `year` falls in `year`, with the lunar date of its
/// Gregorian date.
pub proof fn lemma_holidays_in_year(t: LunationTable, year: i32)
    ensures
        holidays_spec(t, year) matches Ok(v) ==> forall|k: int|
            0 <= k < v.len() ==> holiday_in_year(t, year, #[trigger] v[k]),
{
    let e = Seq::<Holiday>::empty();
    lemma_collect_solar_in_year(t, year, solar_fixed_holidays(), 0, e);
    if let Ok(a) = collect_solar(t, year, solar_fixed_holidays(), 0, e) {
        lemma_collect_lunar_in_year(t, year, tet_days(), 0, a);
        if let Ok(b) = collect_lunar(t, year, tet_days(), 0, a) {
            if let Ok(c) = with_giao_thua(t, year, b) {
                assert forall|k: int| 0 <= k < c.len() implies holiday_in_year(t, year, #[trigger] c[k]) by {
                    if k < b.len() {
                        assert(c[k] == b[k]);
                    }
                }
                lemma_collect_lunar_in_year(t, year, lunar_fixed_holidays(), 0, c);
            }
        }
    }
    if let Ok(s) = holidays_unsorted(t, year) {
        lemma_sort_by_date_elements(s);
    }
}

fn sort_holidays(holidays: Vec<Holiday>) -> (r: Vec<Holiday>)
    ensures
        r@ == sort_by_date(holidays@),
{
    let mut rest = holidays;
    let mut sorted: Vec<Holiday> = Vec::new();
    let ghost all = rest@;
    let total = rest.len();
    let mut n: usize = 0;
    assert(all.subrange(0, 0) =~= Seq::<Holiday>::empty());
    assert(all.subrange(0, all.len() as int) =~= all);
    while rest.len() > 0
        invariant
            total == all.len(),
            n + rest@.len() == all.len(),
            rest@ == all.subrange(n as int, all.len() as int),
            sorted@ == sort_by_date(all.subrange(0, n as int)),
        decreases rest@.len(),
    {
        let h = rest.remove(0);
        let p = insertion_index(&sorted, &h.solar_date);
        proof {
            lemma_insertion_point_bound(sorted@, h.solar_date);
        }
        sorted.insert(p, h);
        proof {
            let prefix = all.subrange(0, n + 1);
            assert(prefix.drop_last() =~= all.subrange(0, n as int));
            assert(prefix.last() == all[n as int]);
        }
        n += 1;
        assert(rest@ =~= all.subrange(n as int, all.len() as int));
    }
    assert(all.subrange(0, n as int) =~= all);
    sorted
}

/// Vietnamese civil and traditional holidays whose solar date falls in `year`,
/// in date order.
pub fn get_vietnam_holidays(year: i32, lunations: &Lunations) -> (r: Result<Vec<Holiday>, LunarError>)
    requires
        lunations@.wf(),
    ensures
        match r {
            Ok(v) => holidays_spec(lunations@, year) == Ok::<Seq<Holiday>, LunarError>(v@),
            Err(e) => holidays_spec(lunations@, year) == Err::<Seq<Holiday>, LunarError>(e),
        },
        r is Ok <==> MIN_YEAR <= year <= MAX_YEAR,
        r matches Ok(v) ==> sorted_by_date(v@),
        r matches Ok(v) ==> forall|k: int|
            0 <= k < v@.len() ==> holiday_in_year(lunations@, year, #[trigger] v@[k]),
{
    proof {
        lemma_holidays_defined(lunations@, year);
    }
    if year < MIN_YEAR || year > MAX_YEAR {
        return Err(LunarError::YearOutOfRange(year));
    }
    let mut holidays: Vec<Holiday> = Vec::new();
    let solar_fixed = vec![
        (1u8, 1u8, HolidayName::NewYear, true),
        (2u8, 14u8, HolidayName::Valentine, false),
        (4u8, 30u8, HolidayName::LeGiaiPhong, true),
        (5u8, 1u8, HolidayName::LeNgayQuocTe, true),
        (9u8, 2u8, HolidayName::QuocKhanh, true),
        (10u8, 20u8, HolidayName::PhuNuVietNam, false),
        (12u8, 25u8, HolidayName::Christmas, false),
    ];
    assert(solar_fixed@ =~= solar_fixed_holidays());
    match push_solar_holidays(year, &solar_fixed, &mut holidays, lunations) {
        Err(e) => {
            return Err(e);
        },
        Ok(_) => {},
    }
    let tet = vec![
        (1u8, 1u8, HolidayName::TetNguyenDan, true),
        (1u8, 2u8, HolidayName::TetNguyenDan, true),
        (1u8, 3u8, HolidayName::TetNguyenDan, true),
    ];
    assert(tet@ =~= tet_days());
    match push_lunar_holidays(year, &tet, &mut holidays, lunations) {
        Err(e) => {
            return Err(e);
        },
        Ok(_) => {},
    }
    let tet = match lunar_to_solar(year, 1, 1, false, lunations) {
        Err(e) => {
            return Err(e);
        },
        Ok(s) => s,
    };
    proof {
        lemma_jd_in_range_small(tet.day as int, tet.month as int, tet.year as int);
    }
    let giao_thua = jd_to_date(jd_from_date(tet.day, tet.month, tet.year) - 1);
    if giao_thua.year == year {
        let h = match holiday(HolidayName::GiaoThua, giao_thua, true, lunations) {
            Err(e) => {
                return Err(e);
            },
            Ok(h) => h,
        };
        holidays.push(h);
    }
    let lunar_events = vec![
        (1u8, 15u8, HolidayName::TetNguyenTieu, false),
        (3u8, 10u8, HolidayName::GioToHungVuong, true),
        (4u8, 15u8, HolidayName::PhatDan, false),
        (7u8, 15u8, HolidayName::VuLan, false),
        (8u8, 15u8, HolidayName::TrungThu, false),
    ];
    assert(lunar_events@ =~= lunar_fixed_holidays());
    match push_lunar_holidays(year, &lunar_events, &mut holidays, lunations) {
        Err(e) => {
            return Err(e);
        },
        Ok(_) => {},
    }
    let sorted = sort_holidays(holidays);
    proof {
        lemma_sort_by_date_sorted(holidays@);
        assert(holidays_spec(lunations@, year) == Ok::<Seq<Holiday>, LunarError>(sorted@));
        lemma_holidays_in_year(lunations@, year);
        assert forall|k: int| 0 <= k < sorted@.len() implies holiday_in_year(lunations@, year, #[trigger] sorted@[k]) by {
            let v = sorted@;
            assert(holidays_spec(lunations@, year) matches Ok(w) && w == v);
        }
    }
    Ok(sorted)
}

/// A holiday on a valid date of the supported range is always listed, with the
/// lunar date of that day.
proof fn lemma_holiday_ok(t: LunationTable, name: HolidayName, s: SolarDate, public: bool)
    requires
        MIN_YEAR <= s.year <= MAX_YEAR,
        is_valid_date(s.year as int, s.month as int, s.day as int),
    ensures
        holiday_spec(t, name, s, public) is Ok,
{
    reveal(LunationTable::solar_to_lunar_spec);
}

proof fn lemma_collect_solar_ok(
    t: LunationTable,
    year: i32,
    entries: Seq<(u8, u8, HolidayName, bool)>,
    i: int,
    acc: Seq<Holiday>,
)
    requires
        MIN_YEAR <= year <= MAX_YEAR,
        forall|j: int| 0 <= j < entries.len() ==> is_valid_date(year as int, #[trigger] entries[j].0 as int, entries[j].1 as int),
    ensures
        collect_solar(t, year, entries, i, acc) is Ok,
    decreases entries.len() - i,
{
    if 0 <= i < entries.len() {
        let (m, d, name, public) = entries[i];
        lemma_holiday_ok(t, name, SolarDate { year, month: m, day: d }, public);
        let h = holiday_spec(t, name, SolarDate { year, month: m, day: d }, public)->Ok_0;
        lemma_collect_solar_ok(t, year, entries, i + 1, acc.push(h));
    }
}

proof fn lemma_collect_lunar_ok(
    t: LunationTable,
    year: i32,
    entries: Seq<(u8, u8, HolidayName, bool)>,
    i: int,
    acc: Seq<Holiday>,
)
    requires
        t.wf(),
        MIN_YEAR <= year <= MAX_YEAR,
        forall|j: int| 0 <= j < entries.len() ==> 1 <= #[trigger] entries[j].0 <= 10 && 1 <= entries[j].1 <= 29,
    ensures
        collect_lunar(t, year, entries, i, acc) is Ok,
    decreases entries.len() - i,
{
    if 0 <= i < entries.len() {
        let (m, d, name, public) = entries[i];
        assert(1 <= entries[i].0 <= 10);
        let _ = lemma_lunar_to_solar_ok(t, year, m, d, false);
        let s = t.lunar_to_solar_spec(year, m, d, false)->Ok_0;
        lemma_holiday_ok(t, name, s, public);
        let h = holiday_spec(t, name, s, public)->Ok_0;
        lemma_collect_lunar_ok(t, year, entries, i + 1, acc.push(h));
    }
}

/// The holidays of a year are listed exactly for the years of the supported
/// range; any other year is refused as out of range.
pub proof fn lemma_holidays_defined(t: LunationTable, year: i32)
    requires
        t.wf(),
    ensures
        holidays_spec(t, year) is Ok <==> MIN_YEAR <= year <= MAX_YEAR,
        !(MIN_YEAR <= year <= MAX_YEAR) ==> holidays_spec(t, year) == Err::<Seq<Holiday>, LunarError>(
            LunarError::YearOutOfRange(year),
        ),
{
    if MIN_YEAR <= year <= MAX_YEAR {
        let e = Seq::<Holiday>::empty();
        lemma_collect_solar_ok(t, year, solar_fixed_holidays(), 0, e);
        let a = collect_solar(t, year, solar_fixed_holidays(), 0, e)->Ok_0;
        lemma_collect_lunar_ok(t, year, tet_days(), 0, a);
        let b = collect_lunar(t, year, tet_days(), 0, a)->Ok_0;
        lemma_new_year(t, year);
        let tet = t.lunar_to_solar_spec(year, 1, 1, false)->Ok_0;
        let g = date_of_jd(jd_spec(tet.day as int, tet.month as int, tet.year as int) - 1);
        assert(giao_thua_spec(t, year) == Ok::<SolarDate, LunarError>(g));
        lemma_holiday_ok(t, HolidayName::GiaoThua, g, true);
        let c = with_giao_thua(t, year, b)->Ok_0;
        lemma_collect_lunar_ok(t, year, lunar_fixed_holidays(), 0, c);
    }
}

/// Sorting by date keeps every holiday it is given.
proof fn lemma_sort_by_date_keeps(s: Seq<Holiday>)
    ensures
        forall|k: int| 0 <= k < s.len() ==> sort_by_date(s).contains(#[trigger] s[k]),
    decreases s.len(),
{
    if s.len() > 0 {
        let prefix = s.drop_last();
        lemma_sort_by_date_keeps(prefix);
        lemma_sort_by_date_sorted(prefix);
        let sorted = sort_by_date(prefix);
        let p = insertion_point(sorted, s.last().solar_date);
        lemma_insertion_point(sorted, s.last().solar_date);
        let r = sorted.insert(p, s.last());
        assert forall|k: int| 0 <= k < s.len() implies r.contains(#[trigger] s[k]) by {
            if k == s.len() - 1 {
                assert(r[p] == s[k]);
            } else {
                assert(s[k] == prefix[k]);
                assert(sorted.contains(prefix[k]));
                let j = choose|j: int| 0 <= j < sorted.len() && sorted[j] == prefix[k];
                if j < p {
                    assert(r[j] == sorted[j]);
                } else {
                    assert(r[j + 1] == sorted[j]);
                }
            }
        }
    }
}

/// The holiday listed for a lunar entry `(month, day, name, public)` of `year`.
pub open spec fn lunar_entry_holiday(t: LunationTable, year: i32, e: (u8, u8, HolidayName, bool)) -> Holiday {
    let s = t.lunar_to_solar_spec(year, e.0, e.1, false)->Ok_0;
    holiday_spec(t, e.2, s, e.3)->Ok_0
}

/// Whether the Gregorian date of a lunar entry of `year` falls in `year`.
pub open spec fn lunar_entry_in_year(t: LunationTable, year: i32, e: (u8, u8, HolidayName, bool)) -> bool {
    t.lunar_to_solar_spec(year, e.0, e.1, false) matches Ok(s) && s.year == year
}

proof fn lemma_collect_lunar_keeps(
    t: LunationTable,
    year: i32,
    entries: Seq<(u8, u8, HolidayName, bool)>,
    i: int,
    acc: Seq<Holiday>,
)
    requires
        0 <= i,
    ensures
        collect_lunar(t, year, entries, i, acc) matches Ok(r) ==> {
            &&& forall|k: int| 0 <= k < acc.len() ==> r.contains(#[trigger] acc[k])
            &&& forall|j: int|
                i <= j < entries.len() && lunar_entry_in_year(t, year, #[trigger] entries[j]) ==> r.contains(
                    lunar_entry_holiday(t, year, entries[j]),
                )
        },
    decreases entries.len() - i,
{
    if i < entries.len() {
        let (m, d, name, public) = entries[i];
        match t.lunar_to_solar_spec(year, m, d, false) {
            Err(_) => {},
            Ok(s) => {
                if s.year == year {
                    match holiday_spec(t, name, s, public) {
                        Err(_) => {},
                        Ok(h) => {
                            let acc2 = acc.push(h);
                            lemma_collect_lunar_keeps(t, year, entries, i + 1, acc2);
                            if let Ok(r) = collect_lunar(t, year, entries, i, acc) {
                                assert forall|k: int| 0 <= k < acc.len() implies r.contains(#[trigger] acc[k]) by {
                                    assert(acc2[k] == acc[k]);
                                }
                                assert(r.contains(acc2[acc.len() as int]));
                            }
                        },
                    }
                } else {
                    lemma_collect_lunar_keeps(t, year, entries, i + 1, acc);
                }
            },
        }
    }
}

/// Tết and the lunar festivals are listed: for each of them (Tết on lunar 1/1,
/// 1/2, 1/3; Nguyên Tiêu on 1/15, Giỗ Tổ Hùng Vương on 3/10, Phật Đản on 4/15,
/// Vu Lan on 7/15, Trung Thu on 8/15) whose Gregorian date falls in the year,
/// the list holds it, dated by `lunar_to_solar`, with the lunar date of that day.
/// The Gregorian dates of all these fall in the year, so all of them are listed.
pub proof fn lemma_holidays_lunar_events(t: LunationTable, year: i32)
    requires
        t.wf(),
        MIN_YEAR <= year <= MAX_YEAR,
    ensures
        holidays_spec(t, year) is Ok,
        forall|j: int| 0 <= j < tet_days().len() ==> #[trigger] lunar_entry_in_year(t, year, tet_days()[j]),
        forall|j: int|
            0 <= j < lunar_fixed_holidays().len() ==> #[trigger] lunar_entry_in_year(t, year, lunar_fixed_holidays()[j]),
        forall|j: int|
            0 <= j < tet_days().len() ==> (holidays_spec(t, year)->Ok_0).contains(
                lunar_entry_holiday(t, year, #[trigger] tet_days()[j]),
            ),
        forall|j: int|
            0 <= j < lunar_fixed_holidays().len() ==> (holidays_spec(t, year)->Ok_0).contains(
                lunar_entry_holiday(t, year, #[trigger] lunar_fixed_holidays()[j]),
            ),
{
    lemma_holidays_defined(t, year);
    assert forall|j: int| 0 <= j < tet_days().len() implies #[trigger] lunar_entry_in_year(t, year, tet_days()[j]) by {
        let e = tet_days()[j];
        let _ = lemma_lunar_to_solar_ok(t, year, e.0, e.1, false);
    }
    assert forall|j: int|
        0 <= j < lunar_fixed_holidays().len() implies #[trigger] lunar_entry_in_year(t, year, lunar_fixed_holidays()[j]) by {
        let e = lunar_fixed_holidays()[j];
        let _ = lemma_lunar_to_solar_ok(t, year, e.0, e.1, false);
    }
    let e = Seq::<Holiday>::empty();
    let a = collect_solar(t, year, solar_fixed_holidays(), 0, e)->Ok_0;
    lemma_collect_lunar_keeps(t, year, tet_days(), 0, a);
    let b = collect_lunar(t, year, tet_days(), 0, a)->Ok_0;
    let c = with_giao_thua(t, year, b)->Ok_0;
    assert forall|k: int| 0 <= k < b.len() implies c.contains(#[trigger] b[k]) by {
        assert(c[k] == b[k]);
    }
    lemma_collect_lunar_keeps(t, year, lunar_fixed_holidays(), 0, c);
    let u = collect_lunar(t, year, lunar_fixed_holidays(), 0, c)->Ok_0;
    lemma_sort_by_date_keeps(u);
    let v = sort_by_date(u);
    assert forall|j: int| 0 <= j < tet_days().len() implies v.contains(
        lunar_entry_holiday(t, year, #[trigger] tet_days()[j]),
    ) by {
        let h = lunar_entry_holiday(t, year, tet_days()[j]);
        let kb = choose|k: int| 0 <= k < b.len() && b[k] == h;
        let kc = choose|k: int| 0 <= k < c.len() && c[k] == b[kb];
        let ku = choose|k: int| 0 <= k < u.len() && u[k] == c[kc];
        assert(v.contains(u[ku]));
    }
    assert forall|j: int| 0 <= j < lunar_fixed_holidays().len() implies v.contains(
        lunar_entry_holiday(t, year, #[trigger] lunar_fixed_holidays()[j]),
    ) by {
        let h = lunar_entry_holiday(t, year, lunar_fixed_holidays()[j]);
        let ku = choose|k: int| 0 <= k < u.len() && u[k] == h;
        assert(v.contains(u[ku]));
    }
}

/// The lunar date listed with Tết or a lunar festival is its own lunar date.
pub proof fn lemma_lunar_entry_date(t: LunationTable, year: i32, e: (u8, u8, HolidayName, bool))
    requires
        t.wf(),
        MIN_YEAR <= year <= MAX_YEAR,
        1 <= e.0 <= 10,
        1 <= e.1 <= 29,
    ensures
        lunar_entry_holiday(t, year, e).lunar_date == lunar_date(year, e.0, e.1, false),
        lunar_entry_holiday(t, year, e).name == e.2,
        lunar_entry_holiday(t, year, e).is_public_holiday == e.3,
{
    let _ = lemma_lunar_to_solar_ok(t, year, e.0, e.1, false);
    lemma_lunar_solar_round_trip(t, year, e.0, e.1, false);
}

/// The holiday listed for an entry `(month, day, name, public)` fixed in the
/// Gregorian calendar.
pub open spec fn solar_entry_holiday(t: LunationTable, year: i32, e: (u8, u8, HolidayName, bool)) -> Holiday {
    holiday_spec(t, e.2, SolarDate { year, month: e.0, day: e.1 }, e.3)->Ok_0
}

/// The eve of Tết as listed.
pub open spec fn eve_holiday(t: LunationTable, year: i32) -> Holiday {
    holiday_spec(t, HolidayName::GiaoThua, giao_thua_spec(t, year)->Ok_0, true)->Ok_0
}

/// The sixteen holidays of a supported year, in the order they are collected.
pub open spec fn expected_holidays(t: LunationTable, year: i32) -> Seq<Holiday> {
    solar_fixed_holidays().map_values(|e: (u8, u8, HolidayName, bool)| solar_entry_holiday(t, year, e))
        + tet_days().map_values(|e: (u8, u8, HolidayName, bool)| lunar_entry_holiday(t, year, e))
        + seq![eve_holiday(t, year)]
        + lunar_fixed_holidays().map_values(|e: (u8, u8, HolidayName, bool)| lunar_entry_holiday(t, year, e))
}

/// No two holidays of the list share both name and date.
pub open spec fn distinct_entries(s: Seq<Holiday>) -> bool {
    forall|i: int, j: int|
        0 <= i < j < s.len() ==> !(#[trigger] s[i].name == #[trigger] s[j].name && s[i].solar_date
            == s[j].solar_date)
}

proof fn lemma_collect_solar_all(
    t: LunationTable,
    year: i32,
    entries: Seq<(u8, u8, HolidayName, bool)>,
    i: int,
    acc: Seq<Holiday>,
)
    requires
        0 <= i <= entries.len(),
        MIN_YEAR <= year <= MAX_YEAR,
        forall|j: int| 0 <= j < entries.len() ==> is_valid_date(year as int, #[trigger] entries[j].0 as int, entries[j].1 as int),
    ensures
        collect_solar(t, year, entries, i, acc) == Ok::<Seq<Holiday>, LunarError>(
            acc + entries.subrange(i, entries.len() as int).map_values(
                |e: (u8, u8, HolidayName, bool)| solar_entry_holiday(t, year, e),
            ),
        ),
    decreases entries.len() - i,
{
    let f = |e: (u8, u8, HolidayName, bool)| solar_entry_holiday(t, year, e);
    if i < entries.len() {
        let e = entries[i];
        lemma_holiday_ok(t, e.2, SolarDate { year, month: e.0, day: e.1 }, e.3);
        let h = solar_entry_holiday(t, year, e);
        lemma_collect_solar_all(t, year, entries, i + 1, acc.push(h));
        assert(acc.push(h) + entries.subrange(i + 1, entries.len() as int).map_values(f) =~= acc
            + entries.subrange(i, entries.len() as int).map_values(f));
    } else {
        assert(acc + entries.subrange(i, entries.len() as int).map_values(f) =~= acc);
    }
}

proof fn lemma_collect_lunar_all(
    t: LunationTable,
    year: i32,
    entries: Seq<(u8, u8, HolidayName, bool)>,
    i: int,
    acc: Seq<Holiday>,
)
    requires
        t.wf(),
        0 <= i <= entries.len(),
        MIN_YEAR <= year <= MAX_YEAR,
        forall|j: int| 0 <= j < entries.len() ==> 1 <= #[trigger] entries[j].0 <= 10 && 1 <= entries[j].1 <= 29,
    ensures
        collect_lunar(t, year, entries, i, acc) == Ok::<Seq<Holiday>, LunarError>(
            acc + entries.subrange(i, entries.len() as int).map_values(
                |e: (u8, u8, HolidayName, bool)| lunar_entry_holiday(t, year, e),
            ),
        ),
    decreases entries.len() - i,
{
    let f = |e: (u8, u8, HolidayName, bool)| lunar_entry_holiday(t, year, e);
    if i < entries.len() {
        let e = entries[i];
        assert(1 <= entries[i].0 <= 10);
        let _ = lemma_lunar_to_solar_ok(t, year, e.0, e.1, false);
        let s = t.lunar_to_solar_spec(year, e.0, e.1, false)->Ok_0;
        lemma_holiday_ok(t, e.2, s, e.3);
        let h = lunar_entry_holiday(t, year, e);
        lemma_collect_lunar_all(t, year, entries, i + 1, acc.push(h));
        assert(acc.push(h) + entries.subrange(i + 1, entries.len() as int).map_values(f) =~= acc
            + entries.subrange(i, entries.len() as int).map_values(f));
    } else {
        assert(acc + entries.subrange(i, entries.len() as int).map_values(f) =~= acc);
    }
}

/// The holidays of a supported year are collected as the sixteen expected ones.
proof fn lemma_holidays_collected(t: LunationTable, year: i32)
    requires
        t.wf(),
        MIN_YEAR <= year <= MAX_YEAR,
    ensures
        holidays_unsorted(t, year) == Ok::<Seq<Holiday>, LunarError>(expected_holidays(t, year)),
{
    let e = Seq::<Holiday>::empty();
    let sf = solar_fixed_holidays();
    let td = tet_days();
    let lf = lunar_fixed_holidays();
    lemma_collect_solar_all(t, year, sf, 0, e);
    assert(sf.subrange(0, 7) =~= sf);
    assert(td.subrange(0, 3) =~= td);
    assert(lf.subrange(0, 5) =~= lf);
    let a = e + sf.map_values(|x: (u8, u8, HolidayName, bool)| solar_entry_holiday(t, year, x));
    lemma_collect_lunar_all(t, year, td, 0, a);
    let b = a + td.map_values(|x: (u8, u8, HolidayName, bool)| lunar_entry_holiday(t, year, x));
    lemma_new_year(t, year);
    let tet = t.lunar_to_solar_spec(year, 1, 1, false)->Ok_0;
    let g = date_of_jd(jd_spec(tet.day as int, tet.month as int, tet.year as int) - 1);
    assert(giao_thua_spec(t, year) == Ok::<SolarDate, LunarError>(g));
    lemma_holiday_ok(t, HolidayName::GiaoThua, g, true);
    let c = b.push(eve_holiday(t, year));
    assert(with_giao_thua(t, year, b) == Ok::<Seq<Holiday>, LunarError>(c));
    lemma_collect_lunar_all(t, year, lf, 0, c);
    assert(e + sf.map_values(|x: (u8, u8, HolidayName, bool)| solar_entry_holiday(t, year, x)) =~= sf.map_values(
        |x: (u8, u8, HolidayName, bool)| solar_entry_holiday(t, year, x),
    ));
    assert(c + lf.map_values(|x: (u8, u8, HolidayName, bool)| lunar_entry_holiday(t, year, x)) =~= expected_holidays(t, year));
}

/// Sorting keeps holidays that share no name and date apart.
proof fn lemma_sort_by_date_distinct(s: Seq<Holiday>)
    requires
        distinct_entries(s),
    ensures
        distinct_entries(sort_by_date(s)),
    decreases s.len(),
{
    if s.len() > 0 {
        let prefix = s.drop_last();
        assert(distinct_entries(prefix)) by {
            assert forall|i: int, j: int| 0 <= i < j < prefix.len() implies !(#[trigger] prefix[i].name
                == #[trigger] prefix[j].name && prefix[i].solar_date == prefix[j].solar_date) by {
                assert(prefix[i] == s[i] && prefix[j] == s[j]);
            }
        }
        lemma_sort_by_date_distinct(prefix);
        lemma_sort_by_date_elements(prefix);
        lemma_sort_by_date_sorted(prefix);
        let sorted = sort_by_date(prefix);
        let h = s.last();
        let p = insertion_point(sorted, h.solar_date);
        lemma_insertion_point(sorted, h.solar_date);
        let r = sorted.insert(p, h);
        assert forall|k: int| 0 <= k < sorted.len() implies !(sorted[k].name == h.name
            && sorted[k].solar_date == h.solar_date) by {
            assert(prefix.contains(sorted[k]));
            let j = choose|j: int| 0 <= j < prefix.len() && prefix[j] == sorted[k];
            assert(s[j] == prefix[j]);
            assert(s[s.len() - 1] == h);
        }
        assert forall|i: int, j: int| 0 <= i < j < r.len() implies !(#[trigger] r[i].name
            == #[trigger] r[j].name && r[i].solar_date == r[j].solar_date) by {
            if j < p {
                assert(r[i] == sorted[i] && r[j] == sorted[j]);
            } else if j == p {
                assert(r[i] == sorted[i] && r[j] == h);
            } else if i < p {
                assert(r[i] == sorted[i] && r[j] == sorted[j - 1]);
            } else if i == p {
                assert(r[i] == h && r[j] == sorted[j - 1]);
            } else {
                assert(r[i] == sorted[i - 1] && r[j] == sorted[j - 1]);
            }
        }
    }
}

/// The name of the `j`-th expected holiday.
pub open spec fn expected_name(j: int) -> HolidayName {
    if j < 7 {
        solar_fixed_holidays()[j].2
    } else if j < 10 {
        HolidayName::TetNguyenDan
    } else if j == 10 {
        HolidayName::GiaoThua
    } else {
        lunar_fixed_holidays()[j - 11].2
    }
}

/// Only the days of Tết share a name.
proof fn lemma_expected_names_distinct(i: int, j: int)
    requires
        0 <= i < j < 16,
        expected_name(i) == expected_name(j),
    ensures
        7 <= i < j < 10,
{
    reveal_with_fuel(expected_name, 1);
    assert(solar_fixed_holidays()[0].2 == HolidayName::NewYear);
    assert(lunar_fixed_holidays()[0].2 == HolidayName::TetNguyenTieu);
}

#[verifier::spinoff_prover]
proof fn lemma_expected_entries(t: LunationTable, year: i32)
    requires
        t.wf(),
        MIN_YEAR <= year <= MAX_YEAR,
    ensures
        ({
            let u = expected_holidays(t, year);
            let base = t.start(t.requested_lunation(year as int, 1, false));
            &&& u.len() == 16
            &&& forall|j: int| 0 <= j < 16 ==> (#[trigger] u[j]).name == expected_name(j)
            &&& forall|j: int|
                7 <= j < 10 ==> jd_spec(
                    (#[trigger] u[j]).solar_date.day as int,
                    u[j].solar_date.month as int,
                    u[j].solar_date.year as int,
                ) == base + j - 7
            &&& u[10] == eve_holiday(t, year)
        }),
{
    let u = expected_holidays(t, year);
    let sf = solar_fixed_holidays();
    let td = tet_days();
    let lf = lunar_fixed_holidays();
    assert forall|j: int| 0 <= j < 16 implies (#[trigger] u[j]).name == expected_name(j) by {
        if j < 7 {
            assert(u[j] == solar_entry_holiday(t, year, sf[j]));
            lemma_holiday_ok(t, sf[j].2, SolarDate { year, month: sf[j].0, day: sf[j].1 }, sf[j].3);
        } else if j < 10 {
            assert(u[j] == lunar_entry_holiday(t, year, td[j - 7]));
            let e = td[j - 7];
            let _ = lemma_lunar_to_solar_ok(t, year, e.0, e.1, false);
            lemma_holiday_ok(t, e.2, t.lunar_to_solar_spec(year, e.0, e.1, false)->Ok_0, e.3);
        } else if j == 10 {
            assert(u[j] == eve_holiday(t, year));
            lemma_new_year(t, year);
            let tet = t.lunar_to_solar_spec(year, 1, 1, false)->Ok_0;
            let g = date_of_jd(jd_spec(tet.day as int, tet.month as int, tet.year as int) - 1);
            lemma_holiday_ok(t, HolidayName::GiaoThua, g, true);
        } else {
            assert(u[j] == lunar_entry_holiday(t, year, lf[j - 11]));
            let e = lf[j - 11];
            let _ = lemma_lunar_to_solar_ok(t, year, e.0, e.1, false);
            lemma_holiday_ok(t, e.2, t.lunar_to_solar_spec(year, e.0, e.1, false)->Ok_0, e.3);
        }
    }
    assert forall|j: int| 7 <= j < 10 implies jd_spec(
        (#[trigger] u[j]).solar_date.day as int,
        u[j].solar_date.month as int,
        u[j].solar_date.year as int,
    ) == t.start(t.requested_lunation(year as int, 1, false)) + j - 7 by {
        assert(u[j] == lunar_entry_holiday(t, year, td[j - 7]));
        let e = td[j - 7];
        let _ = lemma_lunar_to_solar_ok(t, year, e.0, e.1, false);
        lemma_lunar_to_solar_day_number(t, year, e.0, e.1, false);
        lemma_holiday_ok(t, e.2, t.lunar_to_solar_spec(year, e.0, e.1, false)->Ok_0, e.3);
    }
}

/// The holidays of a supported year are exactly sixteen: the seven fixed in
/// the Gregorian calendar, the three days of Tết (lunar 1/1, 1/2, 1/3), the eve
/// of Tết, and the five lunar festivals (Nguyên Tiêu 1/15, Giỗ Tổ Hùng Vương
/// 3/10, Phật Đản 4/15, Vu Lan 7/15, Trung Thu 8/15), each listed once.
#[verifier::spinoff_prover]
#[verifier::rlimit(80)]
pub proof fn lemma_holidays_exact(t: LunationTable, year: i32)
    requires
        t.wf(),
        MIN_YEAR <= year <= MAX_YEAR,
    ensures
        holidays_spec(t, year) is Ok,
        ({
            let v = holidays_spec(t, year)->Ok_0;
            &&& v.len() == 16
            &&& forall|k: int| 0 <= k < 16 ==> v.contains(#[trigger] expected_holidays(t, year)[k])
            &&& forall|k: int| 0 <= k < 16 ==> expected_holidays(t, year).contains(#[trigger] v[k])
            &&& distinct_entries(v)
        }),
{
    lemma_holidays_collected(t, year);
    let u = expected_holidays(t, year);
    assert(u.len() == 16);
    assert(holidays_spec(t, year) == Ok::<Seq<Holiday>, LunarError>(sort_by_date(u)));
    lemma_sort_by_date_keeps(u);
    lemma_sort_by_date_sorted(u);
    lemma_sort_by_date_elements(u);
    lemma_expected_distinct(t, year);
    lemma_sort_by_date_distinct(u);
}

#[verifier::spinoff_prover]
proof fn lemma_expected_distinct(t: LunationTable, year: i32)
    requires
        t.wf(),
        MIN_YEAR <= year <= MAX_YEAR,
    ensures
        distinct_entries(expected_holidays(t, year)),
{
    let u = expected_holidays(t, year);
    lemma_expected_entries(t, year);
    assert forall|i: int, j: int| 0 <= i < j < u.len() implies !(#[trigger] u[i].name
        == #[trigger] u[j].name && u[i].solar_date == u[j].solar_date) by {
        if u[i].name == u[j].name {
            lemma_expected_names_distinct(i, j);
        }
    }
}

/// The eve of Tết is listed once, as a public holiday, on the day before Tết,
/// with the lunar date of the last day (29 or 30) of month 12 of the year before.
#[verifier::spinoff_prover]
pub proof fn lemma_giao_thua(t: LunationTable, year: i32)
    requires
        t.wf(),
        MIN_YEAR <= year <= MAX_YEAR,
    ensures
        ({
            let v = holidays_spec(t, year)->Ok_0;
            let h = eve_holiday(t, year);
            let tet = t.lunar_to_solar_spec(year, 1, 1, false)->Ok_0;
            &&& v.contains(h)
            &&& forall|k: int| 0 <= k < v.len() && #[trigger] v[k].name == HolidayName::GiaoThua ==> v[k] == h
            &&& h.is_public_holiday
            &&& h.solar_date.year == year
            &&& jd_spec(h.solar_date.day as int, h.solar_date.month as int, h.solar_date.year as int) + 1
                == jd_spec(tet.day as int, tet.month as int, tet.year as int)
            &&& h.lunar_date.year == year - 1
            &&& h.lunar_date.month == 12
            &&& (h.lunar_date.day == 29 || h.lunar_date.day == 30)
        }),
{
    lemma_holidays_exact(t, year);
    lemma_expected_entries(t, year);
    let v = holidays_spec(t, year)->Ok_0;
    let u = expected_holidays(t, year);
    let h = eve_holiday(t, year);
    assert(v.contains(u[10]));
    assert forall|k: int| 0 <= k < v.len() && #[trigger] v[k].name == HolidayName::GiaoThua implies v[k] == h by {
        assert(u.contains(v[k]));
        let j = choose|j: int| 0 <= j < u.len() && u[j] == v[k];
        if j != 10 {
            if j < 10 {
                lemma_expected_names_distinct(j, 10);
            } else {
                lemma_expected_names_distinct(10, j);
            }
        }
    }
    lemma_new_year(t, year);
    let tet = t.lunar_to_solar_spec(year, 1, 1, false)->Ok_0;
    let g = date_of_jd(jd_spec(tet.day as int, tet.month as int, tet.year as int) - 1);
    lemma_holiday_ok(t, HolidayName::GiaoThua, g, true);
    assert(giao_thua_spec(t, year) == Ok::<SolarDate, LunarError>(g));
}

/// A holiday of that name, on that date, public or not, is in the list.
pub open spec fn listed_on(v: Seq<Holiday>, name: HolidayName, date: SolarDate, public: bool) -> bool {
    exists|k: int|
        0 <= k < v.len() && (#[trigger] v[k]).name == name && v[k].solar_date == date
            && v[k].is_public_holiday == public
}

/// A holiday of that name is in the list, on lunar date `(y, m, d)` of a
/// month that is not leap, dated by `lunar_to_solar`.
pub open spec fn listed_on_lunar(
    t: LunationTable,
    v: Seq<Holiday>,
    name: HolidayName,
    y: i32,
    m: u8,
    d: u8,
    public: bool,
) -> bool {
    exists|k: int|
        0 <= k < v.len() && (#[trigger] v[k]).name == name && v[k].lunar_date == lunar_date(y, m, d, false)
            && v[k].solar_date == t.lunar_to_solar_spec(y, m, d, false)->Ok_0 && v[k].is_public_holiday
            == public
}

/// At most one holiday of the list has that name.
pub open spec fn named_once(v: Seq<Holiday>, name: HolidayName) -> bool {
    forall|i: int, j: int|
        0 <= i < v.len() && 0 <= j < v.len() && (#[trigger] v[i]).name == name && (#[trigger] v[j]).name == name
            ==> i == j
}

proof fn lemma_expected_listed(t: LunationTable, year: i32, k: int)
    requires
        t.wf(),
        MIN_YEAR <= year <= MAX_YEAR,
        0 <= k < 16,
    ensures
        ({
            let v = holidays_spec(t, year)->Ok_0;
            let h = expected_holidays(t, year)[k];
            exists|i: int| 0 <= i < v.len() && #[trigger] v[i] == h
        }),
{
    lemma_holidays_exact(t, year);
    let v = holidays_spec(t, year)->Ok_0;
    let h = expected_holidays(t, year)[k];
    assert(v.contains(h));
}

proof fn lemma_solar_entry_listed(t: LunationTable, year: i32, j: int)
    requires
        t.wf(),
        MIN_YEAR <= year <= MAX_YEAR,
        0 <= j < 7,
    ensures
        ({
            let e = solar_fixed_holidays()[j];
            listed_on(holidays_spec(t, year)->Ok_0, e.2, SolarDate { year, month: e.0, day: e.1 }, e.3)
        }),
{
    let e = solar_fixed_holidays()[j];
    lemma_expected_listed(t, year, j);
    lemma_holiday_ok(t, e.2, SolarDate { year, month: e.0, day: e.1 }, e.3);
    let v = holidays_spec(t, year)->Ok_0;
    let u = expected_holidays(t, year);
    assert(u[j] == solar_entry_holiday(t, year, e));
    let i = choose|i: int| 0 <= i < v.len() && #[trigger] v[i] == u[j];
    assert(v[i].name == e.2);
}

proof fn lemma_lunar_entry_listed(t: LunationTable, year: i32, j: int, tet: bool)
    requires
        t.wf(),
        MIN_YEAR <= year <= MAX_YEAR,
        0 <= j < (if tet { 3int } else { 5 }),
    ensures
        ({
            let e = if tet { tet_days()[j] } else { lunar_fixed_holidays()[j] };
            listed_on_lunar(t, holidays_spec(t, year)->Ok_0, e.2, year, e.0, e.1, e.3)
        }),
{
    let e = if tet { tet_days()[j] } else { lunar_fixed_holidays()[j] };
    let k = if tet { 7 + j } else { 11 + j };
    lemma_expected_listed(t, year, k);
    lemma_lunar_entry_date(t, year, e);
    let v = holidays_spec(t, year)->Ok_0;
    let u = expected_holidays(t, year);
    assert(u[k] == lunar_entry_holiday(t, year, e));
    let _ = lemma_lunar_to_solar_ok(t, year, e.0, e.1, false);
    lemma_holiday_ok(t, e.2, t.lunar_to_solar_spec(year, e.0, e.1, false)->Ok_0, e.3);
    let i = choose|i: int| 0 <= i < v.len() && #[trigger] v[i] == u[k];
    assert(v[i].name == e.2);
}

proof fn lemma_name_once(t: LunationTable, year: i32, name: HolidayName)
    requires
        t.wf(),
        MIN_YEAR <= year <= MAX_YEAR,
        name != HolidayName::TetNguyenDan,
    ensures
        named_once(holidays_spec(t, year)->Ok_0, name),
{
    lemma_holidays_exact(t, year);
    lemma_expected_entries(t, year);
    let v = holidays_spec(t, year)->Ok_0;
    let u = expected_holidays(t, year);
    assert forall|i: int, j: int|
        0 <= i < v.len() && 0 <= j < v.len() && (#[trigger] v[i]).name == name && (#[trigger] v[j]).name == name
            implies i == j by {
        assert(u.contains(v[i]) && u.contains(v[j]));
        let p = choose|p: int| 0 <= p < u.len() && u[p] == v[i];
        let q = choose|q: int| 0 <= q < u.len() && u[q] == v[j];
        if p < q {
            lemma_expected_names_distinct(p, q);
        } else if q < p {
            lemma_expected_names_distinct(q, p);
        }
        if i < j {
            assert(!(v[i].name == v[j].name && v[i].solar_date == v[j].solar_date));
        } else if j < i {
            assert(!(v[j].name == v[i].name && v[j].solar_date == v[i].solar_date));
        }
    }
}

/// The holidays fixed in the Gregorian calendar are listed in every supported
/// year `y` on their documented dates: Năm mới 1/1 (public), Valentine 2/14,
/// Giải phóng miền Nam 4/30 (public), Quốc tế Lao động 5/1 (public), Quốc
/// khánh 9/2 (public), Phụ nữ Việt Nam 10/20 and Giáng sinh 12/25.
#[verifier::spinoff_prover]
#[verifier::rlimit(60)]
pub proof fn lemma_holiday_solar_dates(t: LunationTable, y: i32)
    requires
        t.wf(),
        MIN_YEAR <= y <= MAX_YEAR,
    ensures
        holidays_spec(t, y) is Ok,
        ({
            let v = holidays_spec(t, y)->Ok_0;
            &&& listed_on(v, HolidayName::NewYear, SolarDate { year: y, month: 1, day: 1 }, true)
            &&& listed_on(v, HolidayName::Valentine, SolarDate { year: y, month: 2, day: 14 }, false)
            &&& listed_on(v, HolidayName::LeGiaiPhong, SolarDate { year: y, month: 4, day: 30 }, true)
            &&& listed_on(v, HolidayName::LeNgayQuocTe, SolarDate { year: y, month: 5, day: 1 }, true)
            &&& listed_on(v, HolidayName::QuocKhanh, SolarDate { year: y, month: 9, day: 2 }, true)
            &&& listed_on(v, HolidayName::PhuNuVietNam, SolarDate { year: y, month: 10, day: 20 }, false)
            &&& listed_on(v, HolidayName::Christmas, SolarDate { year: y, month: 12, day: 25 }, false)
        }),
{
    lemma_holidays_exact(t, y);
    lemma_solar_entry_listed(t, y, 0);
    lemma_solar_entry_listed(t, y, 1);
    lemma_solar_entry_listed(t, y, 2);
    lemma_solar_entry_listed(t, y, 3);
    lemma_solar_entry_listed(t, y, 4);
    lemma_solar_entry_listed(t, y, 5);
    lemma_solar_entry_listed(t, y, 6);
}

/// Tết is listed on lunar 1/1, 1/2 and 1/3 of every supported year `y`
/// (public), and the lunar festivals on their lunar dates of `y`: Nguyên Tiêu
/// 1/15, Giỗ Tổ Hùng Vương 3/10 (public), Phật Đản 4/15, Vu Lan 7/15 and Trung
/// Thu 8/15, each on the Gregorian date `lunar_to_solar` gives.
#[verifier::spinoff_prover]
#[verifier::rlimit(60)]
pub proof fn lemma_holiday_lunar_dates(t: LunationTable, y: i32)
    requires
        t.wf(),
        MIN_YEAR <= y <= MAX_YEAR,
    ensures
        holidays_spec(t, y) is Ok,
        ({
            let v = holidays_spec(t, y)->Ok_0;
            &&& listed_on_lunar(t, v, HolidayName::TetNguyenDan, y, 1, 1, true)
            &&& listed_on_lunar(t, v, HolidayName::TetNguyenDan, y, 1, 2, true)
            &&& listed_on_lunar(t, v, HolidayName::TetNguyenDan, y, 1, 3, true)
            &&& listed_on_lunar(t, v, HolidayName::TetNguyenTieu, y, 1, 15, false)
            &&& listed_on_lunar(t, v, HolidayName::GioToHungVuong, y, 3, 10, true)
            &&& listed_on_lunar(t, v, HolidayName::PhatDan, y, 4, 15, false)
            &&& listed_on_lunar(t, v, HolidayName::VuLan, y, 7, 15, false)
            &&& listed_on_lunar(t, v, HolidayName::TrungThu, y, 8, 15, false)
        }),
{
    lemma_holidays_exact(t, y);
    lemma_lunar_entry_listed(t, y, 0, true);
    lemma_lunar_entry_listed(t, y, 1, true);
    lemma_lunar_entry_listed(t, y, 2, true);
    lemma_lunar_entry_listed(t, y, 0, false);
    lemma_lunar_entry_listed(t, y, 1, false);
    lemma_lunar_entry_listed(t, y, 2, false);
    lemma_lunar_entry_listed(t, y, 3, false);
    lemma_lunar_entry_listed(t, y, 4, false);
}

/// Every holiday but Tết is listed once in a year.
#[verifier::spinoff_prover]
#[verifier::rlimit(60)]
pub proof fn lemma_holiday_names_once(t: LunationTable, y: i32)
    requires
        t.wf(),
        MIN_YEAR <= y <= MAX_YEAR,
    ensures
        holidays_spec(t, y) is Ok,
        ({
            let v = holidays_spec(t, y)->Ok_0;
            &&& named_once(v, HolidayName::NewYear)
            &&& named_once(v, HolidayName::Valentine)
            &&& named_once(v, HolidayName::LeGiaiPhong)
            &&& named_once(v, HolidayName::LeNgayQuocTe)
            &&& named_once(v, HolidayName::QuocKhanh)
            &&& named_once(v, HolidayName::PhuNuVietNam)
            &&& named_once(v, HolidayName::Christmas)
            &&& named_once(v, HolidayName::GiaoThua)
            &&& named_once(v, HolidayName::TetNguyenTieu)
            &&& named_once(v, HolidayName::GioToHungVuong)
            &&& named_once(v, HolidayName::PhatDan)
            &&& named_once(v, HolidayName::VuLan)
            &&& named_once(v, HolidayName::TrungThu)
        }),
{
    lemma_holidays_exact(t, y);
    lemma_name_once(t, y, HolidayName::NewYear);
    lemma_name_once(t, y, HolidayName::Valentine);
    lemma_name_once(t, y, HolidayName::LeGiaiPhong);
    lemma_name_once(t, y, HolidayName::LeNgayQuocTe);
    lemma_name_once(t, y, HolidayName::QuocKhanh);
    lemma_name_once(t, y, HolidayName::PhuNuVietNam);
    lemma_name_once(t, y, HolidayName::Christmas);
    lemma_name_once(t, y, HolidayName::GiaoThua);
    lemma_name_once(t, y, HolidayName::TetNguyenTieu);
    lemma_name_once(t, y, HolidayName::GioToHungVuong);
    lemma_name_once(t, y, HolidayName::PhatDan);
    lemma_name_once(t, y, HolidayName::VuLan);
    lemma_name_once(t, y, HolidayName::TrungThu);
}

} // verus!
