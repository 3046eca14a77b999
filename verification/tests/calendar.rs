use vn_lunar_core::{
    get_good_days, get_jieqi, get_vietnam_holidays, jd_from_date, leap_month, lunar_to_solar,
    solar_to_lunar, time_of_day_from_seconds, validate_solar_date, GoodDayCategory, HolidayName,
    JieQiName, LunarCalendar, LunarError, Lunations, SolarDate, TimeOfDay, Zodiac,
};

// Astronomy for the tests: the same floating-point new-moon and sun-longitude
// series the application builds its table with.

const VN_TZ: f64 = 7.0;

fn new_moon(k: i32) -> f64 {
    let k = f64::from(k);
    let t = k / 1236.85;
    let t2 = t * t;
    let t3 = t2 * t;
    let dr = std::f64::consts::PI / 180.0;
    let mut jd1 = 2_415_020.759_33 + 29.530_588_68 * k + 0.000_117_8 * t2 - 0.000_000_155 * t3;
    jd1 += 0.000_33 * ((166.56 + 132.87 * t - 0.009_173 * t2) * dr).sin();
    let m = 359.2242 + 29.105_356_08 * k - 0.000_033_3 * t2 - 0.000_003_47 * t3;
    let mpr = 306.0253 + 385.816_918_06 * k + 0.010_730_6 * t2 + 0.000_012_36 * t3;
    let f = 21.2964 + 390.670_506_46 * k - 0.001_652_8 * t2 - 0.000_002_39 * t3;
    let mut c1 = (0.1734 - 0.000_393 * t) * (m * dr).sin() + 0.0021 * (2.0 * dr * m).sin();
    c1 = c1 - 0.4068 * (mpr * dr).sin() + 0.0161 * (dr * 2.0 * mpr).sin();
    c1 -= 0.0004 * (dr * 3.0 * mpr).sin();
    c1 = c1 + 0.0104 * (dr * 2.0 * f).sin() - 0.0051 * (dr * (m + mpr)).sin();
    c1 = c1 - 0.0074 * (dr * (m - mpr)).sin() + 0.0004 * (dr * (2.0 * f + m)).sin();
    c1 = c1 - 0.0004 * (dr * (2.0 * f - m)).sin() - 0.0006 * (dr * (2.0 * f + mpr)).sin();
    c1 = c1 + 0.0010 * (dr * (2.0 * f - mpr)).sin() + 0.0005 * (dr * (2.0 * mpr + m)).sin();
    let deltat = if t < -11.0 {
        0.001 + 0.000_839 * t + 0.000_226_1 * t2 - 0.000_008_45 * t3 - 0.000_000_081 * t * t3
    } else {
        -0.000_278 + 0.000_265 * t + 0.000_262 * t2
    };
    jd1 + c1 - deltat
}

fn new_moon_day(k: i32) -> i32 {
    (new_moon(k) + 0.5 + VN_TZ / 24.0).floor() as i32
}

fn sun_longitude_rad(jdn: f64) -> f64 {
    let t = (jdn - 2_451_545.0) / 36525.0;
    let t2 = t * t;
    let dr = std::f64::consts::PI / 180.0;
    let m = 357.52910 + 35999.05030 * t - 0.000_155_9 * t2 - 0.000_000_48 * t * t2;
    let l0 = 280.46645 + 36000.76983 * t + 0.000_303_2 * t2;
    let mut dl = (1.914600 - 0.004_817 * t - 0.000_014 * t2) * (dr * m).sin();
    dl += (0.019_993 - 0.000_101 * t) * (dr * 2.0 * m).sin() + 0.000_290 * (dr * 3.0 * m).sin();
    let mut l = (l0 + dl) * dr;
    l -= std::f64::consts::PI * 2.0 * (l / (std::f64::consts::PI * 2.0)).floor();
    l
}

fn major_term_index(day_number: i32) -> i32 {
    (sun_longitude_rad(f64::from(day_number) - 0.5 - VN_TZ / 24.0) / std::f64::consts::PI * 6.0)
        .floor() as i32
}

fn lunations() -> Lunations {
    let first = -10;
    let mut starts = Vec::new();
    let mut terms = Vec::new();
    for k in first..2540 {
        let day = new_moon_day(k);
        starts.push(day);
        terms.push(major_term_index(day) as u8);
    }
    Lunations::new(first, starts, terms).expect("astronomical table is well formed")
}

fn calendar() -> LunarCalendar {
    LunarCalendar::new(lunations())
}

fn solar_longitude_to_jd(target_deg: f64, year: i32) -> f64 {
    let month_guess = ((target_deg + 90.0) % 360.0) / 30.0;
    let month = ((month_guess as u8) % 12) + 1;
    let mut jd = f64::from(jd_from_date(1, month, year));
    for _ in 0..20 {
        let lon = sun_longitude_rad(jd) * 180.0 / std::f64::consts::PI;
        let mut diff = target_deg - lon;
        while diff > 180.0 {
            diff -= 360.0;
        }
        while diff < -180.0 {
            diff += 360.0;
        }
        jd += diff / 0.985_647;
    }
    jd
}

fn vietnam_civil_from_jd_utc(jd_utc: f64) -> (SolarDate, TimeOfDay) {
    let local = jd_utc + VN_TZ / 24.0;
    let z = (local + 0.5).floor();
    let f = local + 0.5 - z;
    let date = vn_lunar_core::jd_to_date(z as i32);
    let seconds = (f * 86400.0).round() as u32;
    (date, time_of_day_from_seconds(seconds))
}

fn term_instants(year: i32) -> Vec<(SolarDate, TimeOfDay)> {
    let mut v = Vec::new();
    for y in (year - 1)..=(year + 1) {
        for i in 0..24 {
            v.push(vietnam_civil_from_jd_utc(solar_longitude_to_jd(f64::from(i) * 15.0, y)));
        }
    }
    v
}

#[test]
fn tet_wikipedia_dates() {
    let cal = calendar();
    let tet = [
        (2020, 1, 25, Zodiac::Rat, "Canh Tý"),
        (2021, 2, 12, Zodiac::Ox, "Tân Sửu"),
        (2022, 2, 1, Zodiac::Tiger, "Nhâm Dần"),
        (2023, 1, 22, Zodiac::Rabbit, "Quý Mão"),
        (2024, 2, 10, Zodiac::Dragon, "Giáp Thìn"),
        (2025, 1, 29, Zodiac::Snake, "Ất Tỵ"),
        (2026, 2, 17, Zodiac::Horse, "Bính Ngọ"),
        (2027, 2, 6, Zodiac::Goat, "Đinh Mùi"),
        (2028, 1, 26, Zodiac::Monkey, "Mậu Thân"),
        (2029, 2, 13, Zodiac::Rooster, "Kỷ Dậu"),
        (2030, 2, 2, Zodiac::Dog, "Canh Tuất"),
        (2031, 1, 23, Zodiac::Pig, "Tân Hợi"),
    ];
    for (y, m, d, zodiac, can_chi) in tet {
        let lunar = cal.solar_to_lunar(y, m, d).unwrap();
        assert_eq!((lunar.year, lunar.month, lunar.day, lunar.leap), (y, 1, 1, false), "Tết {y}");
        assert!(lunar.is_tet());
        assert_eq!(lunar.zodiac, zodiac);
        assert_eq!(lunar.stem_branch.vietnamese(), can_chi);
        let solar = cal.lunar_to_solar(y, 1, 1, false).unwrap();
        assert_eq!(solar, SolarDate::new(y, m, d));
    }
}

#[test]
fn vietnam_tet_2007_not_china() {
    let cal = calendar();
    let lunar = cal.solar_to_lunar(2007, 2, 17).unwrap();
    assert_eq!((lunar.year, lunar.month, lunar.day), (2007, 1, 1));
    let before = cal.solar_to_lunar(2007, 2, 16).unwrap();
    assert_ne!(before.day, 1);
}

#[test]
fn day_before_tet_is_previous_year() {
    let cal = calendar();
    let lunar = cal.solar_to_lunar(2025, 1, 28).unwrap();
    assert_eq!(lunar.year, 2024);
    assert_eq!(lunar.zodiac, Zodiac::Dragon);
}

#[test]
fn leap_months() {
    let cal = calendar();
    assert_eq!(cal.leap_month(2020), Some(4));
    assert_eq!(cal.leap_month(2023), Some(2));
    assert_eq!(cal.leap_month(2025), Some(6));
    let leap = cal.solar_to_lunar(2023, 3, 22).unwrap();
    assert_eq!(leap.month, 2);
    assert!(leap.leap);
    let solar = cal.lunar_to_solar(2023, 2, 1, true).unwrap();
    let back = cal.solar_to_lunar(solar.year, solar.month, solar.day).unwrap();
    assert!(back.leap && back.month == 2);
}

#[test]
fn round_trip_sample() {
    let cal = calendar();
    for (y, m, d) in [
        (1901, 2, 19),
        (1985, 4, 5),
        (2000, 1, 1),
        (2007, 2, 17),
        (2025, 6, 15),
        (2099, 12, 31),
    ] {
        let lunar = cal.solar_to_lunar(y, m, d).unwrap();
        let solar = cal
            .lunar_to_solar(lunar.year, lunar.month, lunar.day, lunar.leap)
            .unwrap();
        assert_eq!(solar, SolarDate::new(y, m, d), "round-trip {y}-{m}-{d}");
    }
}

#[test]
fn jieqi_lap_xuan_2025() {
    let cal = calendar();
    let jieqi = cal.get_jieqi(2025, 2, 3, &term_instants(2025)).unwrap();
    assert_eq!(jieqi.name, JieQiName::LapXuan);
    assert_eq!(jieqi.solar_date, SolarDate::new(2025, 2, 3));
    let next_day = cal.get_jieqi(2025, 2, 4, &term_instants(2025)).unwrap();
    assert_eq!(next_day.name, JieQiName::LapXuan);
    assert_eq!(next_day.solar_date, SolarDate::new(2025, 2, 3));
}

#[test]
fn holidays_2025_contain_tet_and_hung_kings() {
    let cal = calendar();
    let holidays = cal.get_vietnam_holidays(2025).unwrap();
    assert!(holidays.iter().any(|h| h.name == HolidayName::TetNguyenDan));
    assert!(holidays.iter().any(|h| h.name == HolidayName::VuLan));
    assert!(holidays.iter().any(|h| {
        h.name == HolidayName::GioToHungVuong && h.solar_date == SolarDate::new(2025, 4, 7)
    }));
}

#[test]
fn good_days_are_hoang_dao() {
    let cal = calendar();
    let days = cal.get_good_days(2025, 1).unwrap();
    assert!(!days.is_empty());
    assert!(days.iter().all(|d| d.category == GoodDayCategory::HoangDao));
}

#[test]
fn invalid_leap_rejected() {
    let cal = calendar();
    assert!(cal.lunar_to_solar(2026, 4, 1, true).is_err());
}

// ---------------------------------------------------------------------------
// Further cases
// ---------------------------------------------------------------------------

/// Every supported day converts to a lunar date and back, except the days of
/// January 1900 before Tết (lunar year 1899).
#[test]
fn round_trip_every_supported_day() {
    let lun = lunations();
    let mut failures = Vec::new();
    for year in 1900..=2100 {
        for month in 1..=12u8 {
            for day in 1..=31u8 {
                if validate_solar_date(year, month, day).is_err() {
                    continue;
                }
                let l = solar_to_lunar(year, month, day, &lun).unwrap();
                assert!((1..=30).contains(&l.day) && (1..=12).contains(&l.month));
                assert!(l.year == year || (l.year == year - 1 && l.month >= 11 && month <= 2));
                let back = lunar_to_solar(l.year, l.month, l.day, l.leap, &lun);
                if back != Ok(SolarDate::new(year, month, day)) {
                    failures.push((year, month, day, l.year, l.day));
                }
            }
        }
    }
    // only January 1900 before Tết, in lunar year 1899, does not come back
    assert!(failures.iter().all(|f| f.3 == 1899 && (f.0, f.1) == (1900, 1)), "{failures:?}");
    assert!(!failures.is_empty());
}

/// Every lunar date that converts to a Gregorian date converts back to itself;
/// day 30 of a 29-day month is refused.
#[test]
fn lunar_round_trip_every_supported_month() {
    let lun = lunations();
    let mut answered = 0;
    let mut ahead = Vec::new();
    for year in 1900..=2100 {
        for month in 1..=12u8 {
            for leap in [false, true] {
                for day in 1..=30u8 {
                    let s = match lunar_to_solar(year, month, day, leap, &lun) {
                        Ok(s) => s,
                        Err(LunarError::InvalidLunarDay(30)) => {
                            assert_eq!(day, 30);
                            continue;
                        }
                        Err(_) => continue,
                    };
                    answered += 1;
                    let back = solar_to_lunar(s.year, s.month, s.day, &lun).unwrap();
                    if (back.year, back.month, back.day, back.leap) != (year, month, day, leap) {
                        ahead.push((s.year, s.month, s.day));
                    }
                }
            }
        }
    }
    assert!(answered > 70_000);
    ahead.sort();
    ahead.dedup();
    assert!(ahead.is_empty(), "{ahead:?}");
}

#[test]
fn days_before_a_late_estimate_stay_in_their_month() {
    // the mean-lunation estimate places these days in the next lunation, which
    // starts the day after; they are the last day of the month before
    let cal = calendar();
    for (y, m, d) in [(2054, 5, 7), (2062, 4, 9)] {
        let l = cal.solar_to_lunar(y, m, d).unwrap();
        assert!(l.day == 29 || l.day == 30, "{y}-{m}-{d}: {l:?}");
        let next = cal.solar_to_lunar(y, m, d + 1).unwrap();
        assert_eq!(next.day, 1);
        assert_eq!(cal.lunar_to_solar(l.year, l.month, l.day, l.leap), Ok(SolarDate::new(y, m, d)));
    }
}

#[test]
fn leap_month_2033() {
    let lun = lunations();
    // the leap month 11 of 2033 follows month 11 of 2033
    assert_eq!(leap_month(2033, &lun), Some(11));
    assert_eq!(leap_month(2034, &lun), None);
    assert_eq!(leap_month(2024, &lun), None);
    let l = solar_to_lunar(2033, 12, 22, &lun).unwrap();
    assert_eq!((l.year, l.month, l.leap), (2033, 11, true));
    assert!(lunar_to_solar(2033, 11, 1, true, &lun).is_ok());
    assert_eq!(lunar_to_solar(2034, 11, 1, true, &lun), Err(LunarError::LeapMonthError));
}

/// Every day placed in a leap month lies in the leap month of its lunar year,
/// and every leap month up to 11 is reached by a leap request.
#[test]
fn leap_month_matches_leap_days() {
    let lun = lunations();
    for year in 1900..=2100 {
        for month in 1..=12u8 {
            for day in 1..=31u8 {
                if validate_solar_date(year, month, day).is_err() {
                    continue;
                }
                let l = solar_to_lunar(year, month, day, &lun).unwrap();
                if l.leap && l.year >= 1900 {
                    assert_eq!(leap_month(l.year, &lun), Some(l.month), "{year}-{month}-{day}");
                }
            }
        }
    }
    let mut leap_years = 0;
    for year in 1900..=2100 {
        for month in 1..=12u8 {
            let accepted = lunar_to_solar(year, month, 1, true, &lun).is_ok();
            if month >= 11 && year == 2100 {
                continue;
            }
            assert_eq!(accepted, leap_month(year, &lun) == Some(month), "{year}/{month}");
        }
        if let Some(m) = leap_month(year, &lun) {
            assert!((1..=12).contains(&m));
            leap_years += 1;
        }
    }
    assert!(leap_years > 70);
}

#[test]
fn january_1900_is_lunar_1899() {
    let cal = calendar();
    let l = cal.solar_to_lunar(1900, 1, 1).unwrap();
    assert_eq!((l.year, l.month, l.day, l.leap), (1899, 12, 1, false));
    assert_eq!(
        cal.lunar_to_solar(1899, 12, 1, false),
        Err(LunarError::YearOutOfRange(1899))
    );
}

#[test]
fn solar_to_lunar_errors() {
    let cal = calendar();
    assert_eq!(cal.solar_to_lunar(1899, 12, 31), Err(LunarError::YearOutOfRange(1899)));
    assert_eq!(cal.solar_to_lunar(2101, 1, 1), Err(LunarError::YearOutOfRange(2101)));
    assert_eq!(cal.solar_to_lunar(2023, 2, 29), Err(LunarError::InvalidDate(2023, 2, 29)));
    assert_eq!(cal.solar_to_lunar(2023, 13, 1), Err(LunarError::InvalidDate(2023, 13, 1)));
    assert!(cal.solar_to_lunar(2024, 2, 29).is_ok());
}

#[test]
fn lunar_to_solar_errors() {
    let cal = calendar();
    assert_eq!(cal.lunar_to_solar(2101, 1, 1, false), Err(LunarError::YearOutOfRange(2101)));
    assert_eq!(cal.lunar_to_solar(2025, 0, 1, false), Err(LunarError::InvalidLunarMonth(0)));
    assert_eq!(cal.lunar_to_solar(2025, 13, 1, false), Err(LunarError::InvalidLunarMonth(13)));
    assert_eq!(cal.lunar_to_solar(2025, 1, 31, false), Err(LunarError::InvalidLunarDay(31)));
    assert_eq!(cal.lunar_to_solar(2025, 1, 0, false), Err(LunarError::InvalidLunarDay(0)));
    assert_eq!(cal.lunar_to_solar(2024, 5, 1, true), Err(LunarError::LeapMonthError));
    assert_eq!(cal.lunar_to_solar(2025, 6, 1, true), Ok(SolarDate::new(2025, 7, 25)));
}

#[test]
fn holidays_2025_in_order() {
    let cal = calendar();
    let holidays = cal.get_vietnam_holidays(2025).unwrap();
    for w in holidays.windows(2) {
        let a = w[0].solar_date;
        let b = w[1].solar_date;
        assert!((a.year, a.month, a.day) <= (b.year, b.month, b.day));
    }
    assert_eq!(holidays.len(), 16);
    assert_eq!(holidays[0].name, HolidayName::NewYear);
    // month 12 of lunar 2024 has 29 days: its day 30 is refused, and the eve is day 29
    assert_eq!(cal.lunar_to_solar(2024, 12, 30, false), Err(LunarError::InvalidLunarDay(30)));
    let giao_thua = holidays.iter().find(|h| h.name == HolidayName::GiaoThua).unwrap();
    assert_eq!(giao_thua.solar_date, SolarDate::new(2025, 1, 28));
    assert_eq!(
        (giao_thua.lunar_date.year, giao_thua.lunar_date.month, giao_thua.lunar_date.day),
        (2024, 12, 29)
    );
    assert_eq!(
        holidays[0].to_string(),
        "Năm mới dương lịch - 2025-01-01 (ÂM: 2024-12-02)"
    );
}

#[test]
fn holidays_errors() {
    let lun = lunations();
    assert_eq!(get_vietnam_holidays(1899, &lun).err(), Some(LunarError::YearOutOfRange(1899)));
    assert_eq!(get_vietnam_holidays(2101, &lun).err(), Some(LunarError::YearOutOfRange(2101)));
    // the first supported year has all its holidays, the eve of Tết from lunar 1899 too
    let h1900 = get_vietnam_holidays(1900, &lun).unwrap();
    let eve = h1900.iter().find(|h| h.name == HolidayName::GiaoThua).unwrap();
    assert_eq!(eve.solar_date, SolarDate::new(1900, 1, 30));
    assert_eq!((eve.lunar_date.year, eve.lunar_date.month), (1899, 12));
    for year in 1900..=2100 {
        let v = get_vietnam_holidays(year, &lun).unwrap();
        assert_eq!(v.len(), 16, "{year}");
        assert!(v.iter().all(|h| h.solar_date.year == year));
        let tet = lunar_to_solar(year, 1, 1, false, &lun).unwrap();
        let eve = v.iter().find(|h| h.name == HolidayName::GiaoThua).unwrap();
        assert_eq!(
            jd_from_date(eve.solar_date.day, eve.solar_date.month, eve.solar_date.year) + 1,
            jd_from_date(tet.day, tet.month, tet.year)
        );
        assert_eq!((eve.lunar_date.year, eve.lunar_date.month), (year - 1, 12));
    }
}

#[test]
fn tet_is_days_one_to_three() {
    let cal = calendar();
    let mut l = cal.solar_to_lunar(2025, 1, 29).unwrap();
    assert!(l.is_tet());
    l.day = 3;
    assert!(l.is_tet());
    l.day = 4;
    assert!(!l.is_tet());
    l.day = 0;
    assert!(!l.is_tet());
    l.day = 1;
    l.leap = true;
    assert!(!l.is_tet());
}

#[test]
fn good_days_2025_month_1() {
    let lun = lunations();
    let days = get_good_days(2025, 1, &lun).unwrap();
    assert_eq!(days.len(), 10);
    for d in &days {
        assert_eq!((d.lunar_date.year, d.lunar_date.month, d.lunar_date.leap), (2025, 1, false));
    }
    assert_eq!(days[0].description, format!("Ngày {} — Hoàng đạo", days[0].lunar_date.vietnamese_name()));
    assert_eq!(get_good_days(2025, 13, &lun).err(), Some(LunarError::InvalidLunarMonth(13)));
    assert_eq!(get_good_days(1800, 1, &lun).err(), Some(LunarError::YearOutOfRange(1800)));
}

#[test]
fn jieqi_errors_and_winter_solstice() {
    let instants = term_instants(2024);
    assert_eq!(
        get_jieqi(2024, 2, 30, &instants),
        Err(LunarError::InvalidDate(2024, 2, 30))
    );
    let j = get_jieqi(2024, 12, 21, &instants).unwrap();
    assert_eq!(j.name, JieQiName::DongChi);
    assert_eq!(j.solar_date, SolarDate::new(2024, 12, 21));
    assert_eq!(j.to_string(), "Đông Chí (2024-12-21)");
}

#[test]
fn lunar_date_names() {
    let cal = calendar();
    assert_eq!(cal.solar_to_lunar(2025, 1, 29).unwrap().vietnamese_name(), "Mùng 1 Tết Ất Tỵ");
    let full = cal.solar_to_lunar(2025, 2, 12).unwrap();
    assert!(full.is_full_moon());
    assert_eq!(full.vietnamese_name(), "Rằm Tháng 1 Ất Tỵ");
    let leap = cal.solar_to_lunar(2023, 4, 1).unwrap();
    assert_eq!(leap.vietnamese_name(), "Ngày 11 Tháng 2 (nhuận) Quý Mão");
    assert_eq!(leap.to_string(), "2023-02-11L");
}

#[test]
fn rejects_malformed_tables() {
    let mut starts = Vec::new();
    let mut terms = Vec::new();
    for k in -10..2540 {
        let day = new_moon_day(k);
        starts.push(day);
        terms.push(major_term_index(day) as u8);
    }
    // too short to cover the supported range
    assert!(Lunations::new(-10, starts[..100].to_vec(), terms[..100].to_vec()).is_none());
    // a lunation of 31 days
    let mut bad = starts.clone();
    bad[50] += 1;
    bad[51] += 2;
    assert!(Lunations::new(-10, bad, terms.clone()).is_none());
    assert!(Lunations::new(-10, starts, terms).is_some());
}

#[test]
fn calendar_matches_free_functions() {
    let cal = calendar();
    let lun = cal.lunations();
    for year in [1900, 1985, 2023, 2033, 2100] {
        assert_eq!(cal.leap_month(year), leap_month(year, lun));
        assert_eq!(cal.get_vietnam_holidays(year), get_vietnam_holidays(year, lun));
        assert_eq!(cal.get_good_days(year, 3), get_good_days(year, 3, lun));
        assert_eq!(cal.solar_to_lunar(year, 6, 1), solar_to_lunar(year, 6, 1, lun));
        assert_eq!(cal.lunar_to_solar(year, 6, 1, false), lunar_to_solar(year, 6, 1, false, lun));
    }
}

#[test]
fn next_lunar_day_is_next_solar_day() {
    let lun = lunations();
    for year in [1900, 1950, 2024, 2100] {
        for month in 1..=12u8 {
            for day in 1..30u8 {
                let (Ok(a), Ok(b)) = (
                    lunar_to_solar(year, month, day, false, &lun),
                    lunar_to_solar(year, month, day + 1, false, &lun),
                ) else {
                    continue;
                };
                assert_eq!(jd_from_date(b.day, b.month, b.year), jd_from_date(a.day, a.month, a.year) + 1);
            }
        }
    }
}

#[test]
fn good_days_in_date_order() {
    let lun = lunations();
    for month in 1..=12u8 {
        let days = get_good_days(2024, month, &lun).unwrap();
        for w in days.windows(2) {
            let a = jd_from_date(w[0].solar_date.day, w[0].solar_date.month, w[0].solar_date.year);
            let b = jd_from_date(w[1].solar_date.day, w[1].solar_date.month, w[1].solar_date.year);
            assert!(a < b);
            assert!(w[0].lunar_date.day < w[1].lunar_date.day);
        }
    }
}

/// From one day to the next the lunar date moves one day on, or to day 1 of
/// the next month (or of the leap month of the same number).
#[test]
fn consecutive_days_advance_the_lunar_date() {
    let lun = lunations();
    let mut prev: Option<vn_lunar_core::LunarDate> = None;
    for year in 1900..=2100 {
        for month in 1..=12u8 {
            for day in 1..=31u8 {
                if validate_solar_date(year, month, day).is_err() {
                    continue;
                }
                let b = solar_to_lunar(year, month, day, &lun).unwrap();
                if let Some(a) = prev.take() {
                    assert!((1..=30).contains(&b.day) && (1..=12).contains(&b.month));
                    {
                        let same = (b.year, b.month, b.leap, b.day) == (a.year, a.month, a.leap, a.day + 1);
                        let leap_next = b.leap && !a.leap && b.month == a.month && b.year == a.year;
                        let next = !b.leap
                            && b.month == a.month % 12 + 1
                            && b.year == a.year + i32::from(a.month == 12);
                        assert!(
                            same || (b.day == 1 && (a.day == 29 || a.day == 30) && (leap_next || next)),
                            "{year}-{month}-{day}: {a:?} -> {b:?}"
                        );
                    }
                }
                prev = Some(b);
            }
        }
    }
}
