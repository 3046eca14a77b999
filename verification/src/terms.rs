//! The 24 solar terms (tiết khí) and the term in effect on a day.
use vstd::prelude::*;

use crate::error::LunarError;
use crate::gregorian::{
    jd_from_date, jd_in_range, jd_spec, solar_date_check, solar_date_text, validate_solar_date,
    SolarDate,
};

verus! {

/// 24 solar terms. `from_longitude_index(0)` is Xuân Phân (0°).
#[derive(Debug, Clone, Copy, PartialEq, Eq, Hash, Structural)]
pub enum JieQiName {
    LapXuan,
    VuThuy,
    KinhTrich,
    XuanPhan,
    ThanhMinh,
    CocVu,
    LapHa,
    TieuMan,
    MangChung,
    HaChi,
    TieuThu,
    DaiThu,
    LapThu,
    XySu,
    BachLo,
    ThuPhan,
    HanLo,
    SuongGiang,
    LapDong,
    TieuTuyet,
    DaiTuyet,
    DongChi,
    TieuHan,
    DaiHan,
}

/// Time of day (Vietnam local, after converting the astronomical instant).
#[derive(Debug, Clone, Copy, PartialEq, Eq, Structural)]
pub struct TimeOfDay {
    pub hour: u8,
    pub minute: u8,
    pub second: u8,
}

/// Solar term (tiết khí).
#[derive(Debug, Clone, Copy, PartialEq, Eq, Structural)]
pub struct JieQi {
    pub name: JieQiName,
    pub solar_date: SolarDate,
    pub exact_time: Option<TimeOfDay>,
}

/// The term that starts when the sun reaches `15 * i` degrees of longitude.
pub open spec fn jieqi_at(i: int) -> JieQiName {
    let i = i % 24;
    if i == 0 {
        JieQiName::XuanPhan
    } else if i == 1 {
        JieQiName::ThanhMinh
    } else if i == 2 {
        JieQiName::CocVu
    } else if i == 3 {
        JieQiName::LapHa
    } else if i == 4 {
        JieQiName::TieuMan
    } else if i == 5 {
        JieQiName::MangChung
    } else if i == 6 {
        JieQiName::HaChi
    } else if i == 7 {
        JieQiName::TieuThu
    } else if i == 8 {
        JieQiName::DaiThu
    } else if i == 9 {
        JieQiName::LapThu
    } else if i == 10 {
        JieQiName::XySu
    } else if i == 11 {
        JieQiName::BachLo
    } else if i == 12 {
        JieQiName::ThuPhan
    } else if i == 13 {
        JieQiName::HanLo
    } else if i == 14 {
        JieQiName::SuongGiang
    } else if i == 15 {
        JieQiName::LapDong
    } else if i == 16 {
        JieQiName::TieuTuyet
    } else if i == 17 {
        JieQiName::DaiTuyet
    } else if i == 18 {
        JieQiName::DongChi
    } else if i == 19 {
        JieQiName::TieuHan
    } else if i == 20 {
        JieQiName::DaiHan
    } else if i == 21 {
        JieQiName::LapXuan
    } else if i == 22 {
        JieQiName::VuThuy
    } else {
        JieQiName::KinhTrich
    }
}

pub open spec fn jieqi_name(n: JieQiName) -> Seq<char> {
    match n {
        JieQiName::LapXuan => "Lập Xuân"@,
        JieQiName::VuThuy => "Vũ Thủy"@,
        JieQiName::KinhTrich => "Kinh Trập"@,
        JieQiName::XuanPhan => "Xuân Phân"@,
        JieQiName::ThanhMinh => "Thanh Minh"@,
        JieQiName::CocVu => "Cốc Vũ"@,
        JieQiName::LapHa => "Lập Hạ"@,
        JieQiName::TieuMan => "Tiểu Mãn"@,
        JieQiName::MangChung => "Mang Chủng"@,
        JieQiName::HaChi => "Hạ Chí"@,
        JieQiName::TieuThu => "Tiểu Thử"@,
        JieQiName::DaiThu => "Đại Thử"@,
        JieQiName::LapThu => "Lập Thu"@,
        JieQiName::XySu => "Xử Thử"@,
        JieQiName::BachLo => "Bạch Lộ"@,
        JieQiName::ThuPhan => "Thu Phân"@,
        JieQiName::HanLo => "Hàn Lộ"@,
        JieQiName::SuongGiang => "Sương Giáng"@,
        JieQiName::LapDong => "Lập Đông"@,
        JieQiName::TieuTuyet => "Tiểu Tuyết"@,
        JieQiName::DaiTuyet => "Đại Tuyết"@,
        JieQiName::DongChi => "Đông Chí"@,
        JieQiName::TieuHan => "Tiểu Hàn"@,
        JieQiName::DaiHan => "Đại Hàn"@,
    }
}

/// `Name (YYYY-MM-DD)`.
pub open spec fn jieqi_text(j: JieQi) -> Seq<char> {
    jieqi_name(j.name) + " ("@ + solar_date_text(j.solar_date) + ")"@
}

impl JieQiName {
    pub fn vietnamese(&self) -> (s: &'static str)
        ensures
            s@ == jieqi_name(*self),
    {
        match self {
            JieQiName::LapXuan => "Lập Xuân",
            JieQiName::VuThuy => "Vũ Thủy",
            JieQiName::KinhTrich => "Kinh Trập",
            JieQiName::XuanPhan => "Xuân Phân",
            JieQiName::ThanhMinh => "Thanh Minh",
            JieQiName::CocVu => "Cốc Vũ",
            JieQiName::LapHa => "Lập Hạ",
            JieQiName::TieuMan => "Tiểu Mãn",
            JieQiName::MangChung => "Mang Chủng",
            JieQiName::HaChi => "Hạ Chí",
            JieQiName::TieuThu => "Tiểu Thử",
            JieQiName::DaiThu => "Đại Thử",
            JieQiName::LapThu => "Lập Thu",
            JieQiName::XySu => "Xử Thử",
            JieQiName::BachLo => "Bạch Lộ",
            JieQiName::ThuPhan => "Thu Phân",
            JieQiName::HanLo => "Hàn Lộ",
            JieQiName::SuongGiang => "Sương Giáng",
            JieQiName::LapDong => "Lập Đông",
            JieQiName::TieuTuyet => "Tiểu Tuyết",
            JieQiName::DaiTuyet => "Đại Tuyết",
            JieQiName::DongChi => "Đông Chí",
            JieQiName::TieuHan => "Tiểu Hàn",
            JieQiName::DaiHan => "Đại Hàn",
        }
    }

    /// Index 0..=23 where 0° solar longitude is Xuân Phân.
    pub fn from_longitude_index(idx: u8) -> (n: JieQiName)
        ensures
            n == jieqi_at(idx as int),
    {
        match idx % 24 {
            0 => JieQiName::XuanPhan,
            1 => JieQiName::ThanhMinh,
            2 => JieQiName::CocVu,
            3 => JieQiName::LapHa,
            4 => JieQiName::TieuMan,
            5 => JieQiName::MangChung,
            6 => JieQiName::HaChi,
            7 => JieQiName::TieuThu,
            8 => JieQiName::DaiThu,
            9 => JieQiName::LapThu,
            10 => JieQiName::XySu,
            11 => JieQiName::BachLo,
            12 => JieQiName::ThuPhan,
            13 => JieQiName::HanLo,
            14 => JieQiName::SuongGiang,
            15 => JieQiName::LapDong,
            16 => JieQiName::TieuTuyet,
            17 => JieQiName::DaiTuyet,
            18 => JieQiName::DongChi,
            19 => JieQiName::TieuHan,
            20 => JieQiName::DaiHan,
            21 => JieQiName::LapXuan,
            22 => JieQiName::VuThuy,
            _ => JieQiName::KinhTrich,
        }
    }
}

impl JieQi {
    /// `Name (YYYY-MM-DD)`.
    pub fn to_string(&self) -> (s: String)
        ensures
            s@ == jieqi_text(*self),
    {
        let mut s = String::from_str(self.name.vietnamese());
        s.append(" (");
        self.solar_date.push_text(&mut s);
        s.append(")");
        assert(s@ =~= jieqi_text(*self));
        s
    }
}

/// Hours, minutes and seconds of a count of seconds since midnight.
pub open spec fn time_of_day_spec(seconds: int) -> TimeOfDay {
    TimeOfDay {
        hour: (seconds / 3600) as u8,
        minute: ((seconds % 3600) / 60) as u8,
        second: (seconds % 60) as u8,
    }
}

/// Split a count of seconds since midnight into hours, minutes and seconds.
pub fn time_of_day_from_seconds(seconds: u32) -> (t: TimeOfDay)
    ensures
        t == time_of_day_spec(seconds as int),
{
    TimeOfDay {
        hour: (seconds / 3600) as u8,
        minute: ((seconds % 3600) / 60) as u8,
        second: (seconds % 60) as u8,
    }
}

/// Day number of a term's civil date.
pub open spec fn term_day(s: Seq<(SolarDate, TimeOfDay)>, i: int) -> int {
    jd_spec(s[i].0.day as int, s[i].0.month as int, s[i].0.year as int)
}

/// Among the first `n` term instants, the latest one on or before day `q`;
/// of several on the same day, the one listed last.
pub open spec fn best_term(q: int, s: Seq<(SolarDate, TimeOfDay)>, n: int) -> Option<int>
    decreases n,
{
    if n <= 0 {
        None
    } else {
        let prev = best_term(q, s, n - 1);
        if term_day(s, n - 1) <= q && (prev matches Some(p) ==> term_day(s, p) <= term_day(
            s,
            n - 1,
        )) {
            Some(n - 1)
        } else {
            prev
        }
    }
}

/// The term in effect on day `q`, from the instants of the 24 terms of three
/// consecutive years listed in order (term `i` of a year at position `24 * year + i`).
pub open spec fn jieqi_in_effect(q: int, s: Seq<(SolarDate, TimeOfDay)>) -> Result<
    JieQi,
    LunarError,
> {
    match best_term(q, s, s.len() as int) {
        None => Err(LunarError::SolarTermError),
        Some(i) => Ok(
            JieQi { name: jieqi_at(i % 24), solar_date: s[i].0, exact_time: Some(s[i].1) },
        ),
    }
}

/// What `get_jieqi` answers.
pub open spec fn get_jieqi_spec(year: i32, month: u8, day: u8, s: Seq<(SolarDate, TimeOfDay)>) -> Result<
    JieQi,
    LunarError,
> {
    match solar_date_check(year, month, day) {
        Err(e) => Err(e),
        Ok(_) => jieqi_in_effect(jd_spec(day as int, month as int, year as int), s),
    }
}

proof fn lemma_best_term(q: int, s: Seq<(SolarDate, TimeOfDay)>, n: int)
    requires
        0 <= n <= s.len(),
    ensures
        best_term(q, s, n) matches Some(b) ==> {
            &&& 0 <= b < n
            &&& term_day(s, b) <= q
            &&& forall|i: int| 0 <= i < n && term_day(s, i) <= q ==> term_day(s, i) <= term_day(s, b)
        },
        best_term(q, s, n) is None ==> forall|i: int| 0 <= i < n ==> term_day(s, i) > q,
    decreases n,
{
    if n > 0 {
        lemma_best_term(q, s, n - 1);
    }
}

/// Solar term in effect on a Gregorian date (Vietnam civil day), given the
/// civil date and time at which each of the 24 terms of the year before, the
/// year itself and the year after begins (term `i` of year `year - 1 + k` at
/// position `24 * k + i`; term `i` starts at solar longitude `15 * i` degrees).
pub fn get_jieqi(year: i32, month: u8, day: u8, instants: &Vec<(SolarDate, TimeOfDay)>) -> (r:
    Result<JieQi, LunarError>)
    requires
        instants@.len() == 72,
        forall|i: int|
            0 <= i < instants@.len() ==> jd_in_range(
                #[trigger] instants@[i].0.day as int,
                instants@[i].0.month as int,
                instants@[i].0.year as int,
            ),
    ensures
        r == get_jieqi_spec(year, month, day, instants@),
        r matches Ok(j) ==> {
            let q = jd_spec(day as int, month as int, year as int);
            let d = jd_spec(j.solar_date.day as int, j.solar_date.month as int, j.solar_date.year as int);
            &&& d <= q
            &&& forall|i: int| 0 <= i < instants@.len() && #[trigger] term_day(instants@, i) <= q ==> term_day(instants@, i) <= d
        },
{
    match validate_solar_date(year, month, day) {
        Err(e) => {
            return Err(e);
        },
        Ok(_) => {},
    }
    proof {
        crate::gregorian::lemma_jd_in_year(day as int, month as int, year as int);
    }
    let query = jd_from_date(day, month, year);
    let mut best: Option<usize> = None;
    let mut best_jd: i32 = 0;
    let mut i: usize = 0;
    while i < instants.len()
        invariant
            0 <= i <= instants@.len() == 72,
            forall|k: int|
                0 <= k < instants@.len() ==> jd_in_range(
                    #[trigger] instants@[k].0.day as int,
                    instants@[k].0.month as int,
                    instants@[k].0.year as int,
                ),
            query as int == jd_spec(day as int, month as int, year as int),
            best_term(query as int, instants@, i as int) == (match best {
                Some(b) => Some(b as int),
                None => None::<int>,
            }),
            best matches Some(b) ==> best_jd as int == term_day(instants@, b as int),
        decreases instants@.len() - i,
    {
        let (solar_date, _) = instants[i];
        assert(jd_in_range(
            instants@[i as int].0.day as int,
            instants@[i as int].0.month as int,
            instants@[i as int].0.year as int,
        ));
        let term_jd = jd_from_date(solar_date.day, solar_date.month, solar_date.year);
        if term_jd <= query {
            let better = match best {
                None => true,
                Some(_) => best_jd <= term_jd,
            };
            if better {
                best = Some(i);
                best_jd = term_jd;
            }
        }
        i += 1;
    }
    proof {
        lemma_best_term(query as int, instants@, instants@.len() as int);
    }
    match best {
        None => Err(LunarError::SolarTermError),
        Some(b) => {
            let (solar_date, exact_time) = instants[b];
            Ok(
                JieQi {
                    name: JieQiName::from_longitude_index((b % 24) as u8),
                    solar_date,
                    exact_time: Some(exact_time),
                },
            )
        },
    }
}

/// The solar terms in order of the sun's longitude, from Xuân Phân (the spring
/// equinox, 0 degrees) in steps of 15 degrees: Hạ Chí (the summer solstice) at
/// 90 degrees, Thu Phân (the autumn equinox) at 180, Đông Chí (the winter
/// solstice) at 270, Lập Xuân at 315; with their Vietnamese names.
pub proof fn lemma_solar_term_cycle(i: int)
    ensures
        ({
            let k = i % 24;
            &&& jieqi_at(i) == seq![
                JieQiName::XuanPhan,
                JieQiName::ThanhMinh,
                JieQiName::CocVu,
                JieQiName::LapHa,
                JieQiName::TieuMan,
                JieQiName::MangChung,
                JieQiName::HaChi,
                JieQiName::TieuThu,
                JieQiName::DaiThu,
                JieQiName::LapThu,
                JieQiName::XySu,
                JieQiName::BachLo,
                JieQiName::ThuPhan,
                JieQiName::HanLo,
                JieQiName::SuongGiang,
                JieQiName::LapDong,
                JieQiName::TieuTuyet,
                JieQiName::DaiTuyet,
                JieQiName::DongChi,
                JieQiName::TieuHan,
                JieQiName::DaiHan,
                JieQiName::LapXuan,
                JieQiName::VuThuy,
                JieQiName::KinhTrich,
            ][k]
            &&& jieqi_name(jieqi_at(i)) == seq![
                "Xuân Phân"@,
                "Thanh Minh"@,
                "Cốc Vũ"@,
                "Lập Hạ"@,
                "Tiểu Mãn"@,
                "Mang Chủng"@,
                "Hạ Chí"@,
                "Tiểu Thử"@,
                "Đại Thử"@,
                "Lập Thu"@,
                "Xử Thử"@,
                "Bạch Lộ"@,
                "Thu Phân"@,
                "Hàn Lộ"@,
                "Sương Giáng"@,
                "Lập Đông"@,
                "Tiểu Tuyết"@,
                "Đại Tuyết"@,
                "Đông Chí"@,
                "Tiểu Hàn"@,
                "Đại Hàn"@,
                "Lập Xuân"@,
                "Vũ Thủy"@,
                "Kinh Trập"@,
            ][k]
        }),
{
    let k = i % 24;
    if k == 0 {
    } else if k == 1 {
    } else if k == 2 {
    } else if k == 3 {
    } else if k == 4 {
    } else if k == 5 {
    } else if k == 6 {
    } else if k == 7 {
    } else if k == 8 {
    } else if k == 9 {
    } else if k == 10 {
    } else if k == 11 {
    } else if k == 12 {
    } else if k == 13 {
    } else if k == 14 {
    } else if k == 15 {
    } else if k == 16 {
    } else if k == 17 {
    } else if k == 18 {
    } else if k == 19 {
    } else if k == 20 {
    } else if k == 21 {
    } else if k == 22 {
    } else {
        assert(k == 23);
    }
}

} // verus!
